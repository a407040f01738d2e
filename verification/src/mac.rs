//! MAC addresses and their textual form: six bytes in hexadecimal, separated by colons.

use crate::chars::{hex_char, hex_digit, hex_digit_value, hex_value, to_hex_char};
use crate::error::HostnameError;
use crate::text::{
    chars_of, free_of, join, lemma_join_push, lemma_split_join, split, split_chars,
    string_of, views,
};
use vstd::prelude::*;

verus! {

/// The two lower-case hexadecimal digits of a byte.
pub open spec fn hex_pair(b: u8) -> Seq<char> {
    seq![hex_char(b as int / 16), hex_char(b as int % 16)]
}

/// Every character of `s` is a hexadecimal digit.
pub open spec fn all_hex(s: Seq<char>) -> bool {
    forall|i: int| 0 <= i < s.len() ==> hex_digit(#[trigger] s[i])
}

/// The number that the hexadecimal digits of `s` denote.
pub open spec fn hex_number(s: Seq<char>) -> int
    decreases s.len(),
{
    if s.len() == 0 {
        0
    } else {
        hex_number(s.drop_last()) * 16 + hex_value(s.last())
    }
}

/// The digits of an unsigned number: one plus sign in front of them is allowed and ignored.
pub open spec fn unsigned_digits(s: Seq<char>) -> Seq<char> {
    if s.len() > 1 && s[0] == '+' {
        s.skip(1)
    } else {
        s
    }
}

/// The byte that `s` denotes in hexadecimal: at least one digit, in either case, with any
/// number of leading zeros and an optional plus sign, and a value of at most 255.
pub open spec fn hex_byte(s: Seq<char>) -> Option<u8> {
    let d = unsigned_digits(s);
    if d.len() > 0 && all_hex(d) && hex_number(d) <= 255 {
        Some(hex_number(d) as u8)
    } else {
        None
    }
}

/// The textual form of a MAC address, such as `aa:bb:cc:dd:ee:ff`.
pub open spec fn mac_text(mac: Seq<u8>) -> Seq<char> {
    join(Seq::new(mac.len(), |i: int| hex_pair(mac[i])), ':')
}

/// The MAC address that the first six of `parts` denote, where each of them is a
/// hexadecimal byte.
pub open spec fn mac_of_fields(parts: Seq<Seq<char>>) -> Option<[u8; 6]> {
    if forall|i: int| 0 <= i < 6 ==> (#[trigger] hex_byte(parts[i])) is Some {
        Some(
            [
                hex_byte(parts[0])->0,
                hex_byte(parts[1])->0,
                hex_byte(parts[2])->0,
                hex_byte(parts[3])->0,
                hex_byte(parts[4])->0,
                hex_byte(parts[5])->0,
            ],
        )
    } else {
        None
    }
}

/// The MAC address that `s` denotes: exactly six colon-separated hexadecimal bytes.
pub open spec fn parsed_mac(s: Seq<char>) -> Option<[u8; 6]> {
    let parts = split(s, ':');
    if parts.len() == 6 {
        mac_of_fields(parts)
    } else {
        None
    }
}

/// Parses one hexadecimal byte.
pub fn parse_hex_byte(v: &Vec<char>) -> (r: Option<u8>)
    ensures
        r == hex_byte(v@),
{
    let n = v.len();
    let first: usize = if n > 1 && v[0] == '+' {
        1
    } else {
        0
    };
    let ghost d = unsigned_digits(v@);
    assert(d =~= v@.skip(first as int));
    if first == n {
        return None;
    }
    let mut acc: u32 = 0;
    let mut i: usize = first;
    assert(d.take(0).len() == 0);
    while i < n
        invariant
            first <= i <= n,
            n == v.len(),
            d == v@.skip(first as int),
            d == unsigned_digits(v@),
            all_hex(d.take(i - first)),
            0 <= hex_number(d.take(i - first)),
            acc <= 256,
            acc == (if hex_number(d.take(i - first)) < 256 {
                hex_number(d.take(i - first))
            } else {
                256
            }),
        decreases n - i,
    {
        let ghost before = d.take(i - first);
        let ghost now = d.take(i - first + 1);
        assert(now.drop_last() =~= before);
        assert(now.last() == v@[i as int]);
        match hex_digit_value(v[i]) {
            None => {
                assert(d[i - first] == v@[i as int]);
                assert(!hex_digit(d[i - first]));
                return None;
            },
            Some(x) => {
                assert forall|j: int| 0 <= j < now.len() implies hex_digit(#[trigger] now[j]) by {
                    if j < now.len() - 1 {
                        assert(now[j] == before[j]);
                    }
                }
                let next: u32 = acc * 16 + (x as u32);
                acc = if next > 256 {
                    256
                } else {
                    next
                };
            },
        }
        i += 1;
    }
    assert(d.take(n - first) =~= d);
    if acc <= 255 {
        Some(acc as u8)
    } else {
        None
    }
}

/// Appends the two hexadecimal digits of `b` to `dst`.
pub fn push_hex_pair(dst: &mut Vec<char>, b: u8)
    ensures
        final(dst)@ == old(dst)@ + hex_pair(b),
{
    dst.push(to_hex_char(b / 16));
    dst.push(to_hex_char(b % 16));
    assert(dst@ =~= old(dst)@ + hex_pair(b));
}

/// The characters of the textual form of `mac`.
pub fn mac_chars(mac: &[u8; 6]) -> (r: Vec<char>)
    ensures
        r@ == mac_text(mac@),
{
    let mut r: Vec<char> = Vec::new();
    push_hex_pair(&mut r, mac[0]);
    let mut i: usize = 1;
    let ghost pairs = Seq::new(6, |i: int| hex_pair(mac@[i]));
    assert(r@ =~= join(pairs.take(1), ':'));
    while i < 6
        invariant
            1 <= i <= 6,
            pairs == Seq::new(6, |i: int| hex_pair(mac@[i])),
            r@ == join(pairs.take(i as int), ':'),
        decreases 6 - i,
    {
        r.push(':');
        push_hex_pair(&mut r, mac[i]);
        proof {
            lemma_join_push(pairs.take(i as int), pairs[i as int], ':');
            assert(pairs.take(i + 1) =~= pairs.take(i as int).push(pairs[i as int]));
        }
        i += 1;
    }
    assert(pairs.take(6) =~= pairs);
    r
}

/// Formats a MAC address for display: lower-case hexadecimal, two digits a byte, colons
/// between the bytes.
pub fn format_mac(mac: [u8; 6]) -> (r: String)
    ensures
        r@ == mac_text(mac@),
{
    let v = mac_chars(&mac);
    string_of(&v)
}

/// Parses the first six fields as the bytes of a MAC address.
pub fn parse_mac_fields(parts: &Vec<Vec<char>>) -> (r: Option<[u8; 6]>)
    requires
        parts.len() >= 6,
    ensures
        r == mac_of_fields(views(parts@)),
{
    let ghost fields = views(parts@);
    let mut mac: [u8; 6] = [0, 0, 0, 0, 0, 0];
    let mut i: usize = 0;
    while i < 6
        invariant
            i <= 6,
            parts.len() >= 6,
            fields == views(parts@),
            forall|j: int| 0 <= j < i ==> (#[trigger] hex_byte(fields[j])) == Some(mac@[j]),
        decreases 6 - i,
    {
        assert(fields[i as int] == parts@[i as int]@);
        match parse_hex_byte(&parts[i]) {
            None => {
                assert(hex_byte(fields[i as int]) is None);
                return None;
            },
            Some(b) => {
                mac[i] = b;
            },
        }
        i += 1;
    }
    assert(mac =~= mac_of_fields(fields)->0);
    Some(mac)
}

/// Parses a MAC address from its textual form: six colon-separated hexadecimal bytes.
/// Anything else is refused as `InvalidMacAddress`.
pub fn parse_mac(mac_str: &str) -> (r: Result<[u8; 6], HostnameError>)
    ensures
        r == match parsed_mac(mac_str@) {
            Some(mac) => Ok::<[u8; 6], HostnameError>(mac),
            None => Err::<[u8; 6], HostnameError>(HostnameError::InvalidMacAddress),
        },
{
    let v = chars_of(mac_str);
    let parts = split_chars(&v, ':');
    if parts.len() != 6 {
        return Err(HostnameError::InvalidMacAddress);
    }
    match parse_mac_fields(&parts) {
        Some(mac) => Ok(mac),
        None => Err(HostnameError::InvalidMacAddress),
    }
}

/// A byte written as two hexadecimal digits is read back as that byte.
pub proof fn lemma_hex_byte_of_pair(b: u8)
    ensures
        hex_byte(hex_pair(b)) == Some(b),
        free_of(hex_pair(b), ':'),
        free_of(hex_pair(b), ','),
{
    let p = hex_pair(b);
    let hi = b as int / 16;
    let lo = b as int % 16;
    assert(hex_digit(p[0]) && hex_value(p[0]) == hi);
    assert(hex_digit(p[1]) && hex_value(p[1]) == lo);
    assert(unsigned_digits(p) == p);
    assert(p.drop_last() =~= seq![p[0]]);
    assert(seq![p[0]].drop_last() =~= Seq::<char>::empty());
    assert(hex_number(seq![p[0]]) == hi) by {
        reveal_with_fuel(hex_number, 2);
    }
    assert(hex_number(p) == hi * 16 + lo);
}

/// The fields of the textual form of a MAC address denote that address.
pub proof fn lemma_mac_of_pairs(mac: [u8; 6], parts: Seq<Seq<char>>)
    requires
        parts.len() >= 6,
        forall|i: int| 0 <= i < 6 ==> #[trigger] parts[i] == hex_pair(mac@[i]),
    ensures
        mac_of_fields(parts) == Some(mac),
{
    assert forall|i: int| 0 <= i < 6 implies (#[trigger] hex_byte(parts[i])) == Some(
        mac@[i],
    ) by {
        assert(parts[i] == hex_pair(mac@[i]));
        lemma_hex_byte_of_pair(mac@[i]);
    }
    assert(hex_byte(parts[0]) == Some(mac@[0]));
    assert(hex_byte(parts[1]) == Some(mac@[1]));
    assert(hex_byte(parts[2]) == Some(mac@[2]));
    assert(hex_byte(parts[3]) == Some(mac@[3]));
    assert(hex_byte(parts[4]) == Some(mac@[4]));
    assert(hex_byte(parts[5]) == Some(mac@[5]));
    assert(mac_of_fields(parts)->0 =~= mac);
}

/// The textual form of a MAC address is read back as that address.
pub proof fn lemma_parse_formatted_mac(mac: [u8; 6])
    ensures
        parsed_mac(mac_text(mac@)) == Some(mac),
{
    let pairs = Seq::new(6, |i: int| hex_pair(mac@[i]));
    assert(pairs =~= Seq::new(mac@.len(), |i: int| hex_pair(mac@[i])));
    assert forall|i: int| 0 <= i < pairs.len() implies free_of(#[trigger] pairs[i], ':') by {
        lemma_hex_byte_of_pair(mac@[i]);
    }
    lemma_split_join(pairs, ':');
    lemma_mac_of_pairs(mac, pairs);
}

} // verus!
