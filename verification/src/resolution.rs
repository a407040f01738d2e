//! The table behind the resolvers of the local domain: hostnames and the IPv4 address that
//! each resolves to.
//!
//! A table is a list of records, in the order in which the hostnames were first registered.
//! No hostname occurs twice in it. An address is the four bytes of its dotted form.

use crate::chars::{label_char, upper};
use crate::hostname::{
    canonical_label, is_valid, lemma_sanitize_keeps_canonical, lemma_sanitized_valid_label,
    local_suffix, no_upper, sanitize, sanitize_local, sanitized, sanitized_local, truncated,
    valid_label, MAX_LABEL_LEN,
};
use crate::mac::{hex_pair, push_hex_pair};
use crate::text::{
    chars_of, copy_range, decimal, decimal_chars, lemma_decimal_shape, pow10, push_all,
    push_decimal, push_str, string_of, string_views,
};
use vstd::prelude::*;

verus! {

/// How many candidates `register_device` probes before it falls back to the name made of
/// the whole MAC address: the base name and the base name with the suffixes `-1` to `-98`.
pub const MAX_PROBES: usize = 99;

/// `t` holds a record for the hostname `name`.
pub open spec fn has_name(t: Seq<(Seq<char>, [u8; 4])>, name: Seq<char>) -> bool {
    exists|i: int| 0 <= i < t.len() && (#[trigger] t[i]).0 == name
}

/// The position of a record for the hostname `name`.
pub open spec fn index_of_name(t: Seq<(Seq<char>, [u8; 4])>, name: Seq<char>) -> int {
    choose|i: int| 0 <= i < t.len() && (#[trigger] t[i]).0 == name
}

/// The address that `name` resolves to.
pub open spec fn address_of(t: Seq<(Seq<char>, [u8; 4])>, name: Seq<char>) -> Option<[u8; 4]> {
    if has_name(t, name) {
        Some(t[index_of_name(t, name)].1)
    } else {
        None
    }
}

/// The invariant of a table: no hostname occurs twice.
pub open spec fn unique_names(t: Seq<(Seq<char>, [u8; 4])>) -> bool {
    forall|i: int, j: int|
        0 <= i < t.len() && 0 <= j < t.len() && i != j ==> (#[trigger] t[i]).0 != (
        #[trigger] t[j]).0
}

/// `t` with `name` resolving to `ip`: a hostname that is already there keeps its place and
/// gets the new address, a new one goes to the end.
pub open spec fn with_record(t: Seq<(Seq<char>, [u8; 4])>, name: Seq<char>, ip: [u8; 4]) -> Seq<
    (Seq<char>, [u8; 4]),
> {
    if has_name(t, name) {
        t.update(index_of_name(t, name), (name, ip))
    } else {
        t.push((name, ip))
    }
}

/// `t` without the record for `name`.
pub open spec fn without_name(t: Seq<(Seq<char>, [u8; 4])>, name: Seq<char>) -> Seq<
    (Seq<char>, [u8; 4]),
> {
    if has_name(t, name) {
        t.remove(index_of_name(t, name))
    } else {
        t
    }
}

/// The records as they are shown: each hostname with `.local` behind it.
pub open spec fn shown(t: Seq<(Seq<char>, [u8; 4])>) -> Seq<(Seq<char>, [u8; 4])> {
    Seq::new(t.len(), |i: int| (t[i].0 + local_suffix(), t[i].1))
}

/// The records of a list, each hostname by its view.
pub open spec fn records_of(v: Seq<(String, [u8; 4])>) -> Seq<(Seq<char>, [u8; 4])> {
    Seq::new(v.len(), |i: int| (v[i].0@, v[i].1))
}

/// The characters `device-`.
pub open spec fn device_prefix() -> Seq<char> {
    seq!['d', 'e', 'v', 'i', 'c', 'e', '-']
}

/// The name of a device without a usable friendly name: `device-` and the last three bytes
/// of its MAC address in hexadecimal.
pub open spec fn device_label(mac: [u8; 6]) -> Seq<char> {
    device_prefix() + hex_pair(mac@[3]) + hex_pair(mac@[4]) + hex_pair(mac@[5])
}

/// The name of last resort: `device-` and all six bytes of the MAC address in hexadecimal.
pub open spec fn full_device_label(mac: [u8; 6]) -> Seq<char> {
    device_prefix() + hex_pair(mac@[0]) + hex_pair(mac@[1]) + hex_pair(mac@[2]) + hex_pair(
        mac@[3],
    ) + hex_pair(mac@[4]) + hex_pair(mac@[5])
}

/// The name that a device asks for: its friendly name in lower case where that is a valid
/// label, else the name made of its MAC address.
pub open spec fn base_name(mac: [u8; 6], friendly: Seq<char>) -> Seq<char> {
    if valid_label(friendly) {
        sanitized(friendly)
    } else {
        device_label(mac)
    }
}

/// The `k`-th candidate for a device that asks for `base`: `base` itself, then `base-1`,
/// `base-2` and so on, where `base` is cut as far as it takes for the candidate to fit into
/// a label.
pub open spec fn candidate(base: Seq<char>, k: nat) -> Seq<char> {
    if k == 0 {
        base
    } else {
        truncated(base, MAX_LABEL_LEN - 1 - decimal(k).len()) + seq!['-'] + decimal(k)
    }
}

/// The first candidate from the `k`-th on that `t` does not hold, among the first
/// `MAX_PROBES` candidates; the name of last resort where `t` holds them all.
pub open spec fn first_free(t: Seq<(Seq<char>, [u8; 4])>, base: Seq<char>, mac: [u8; 6], k: nat) -> Seq<
    char,
>
    decreases MAX_PROBES - k,
{
    if k >= MAX_PROBES {
        full_device_label(mac)
    } else if !has_name(t, candidate(base, k)) {
        candidate(base, k)
    } else {
        first_free(t, base, mac, k + 1)
    }
}

/// The hostname that `register_device` gives a device.
pub open spec fn device_name(t: Seq<(Seq<char>, [u8; 4])>, mac: [u8; 6], friendly: Seq<char>) -> Seq<
    char,
> {
    first_free(t, base_name(mac, friendly), mac, 0)
}

/// In a table without duplicates the record at position `i` is the one that a lookup finds.
pub proof fn lemma_record_at(t: Seq<(Seq<char>, [u8; 4])>, i: int)
    requires
        unique_names(t),
        0 <= i < t.len(),
    ensures
        has_name(t, t[i].0),
        index_of_name(t, t[i].0) == i,
        address_of(t, t[i].0) == Some(t[i].1),
{
    assert(has_name(t, t[i].0));
}

/// Registering keeps a table free of duplicates, and the name then resolves to the address.
pub proof fn lemma_with_record(t: Seq<(Seq<char>, [u8; 4])>, name: Seq<char>, ip: [u8; 4])
    requires
        unique_names(t),
    ensures
        unique_names(with_record(t, name, ip)),
        address_of(with_record(t, name, ip), name) == Some(ip),
{
    let n = with_record(t, name, ip);
    if has_name(t, name) {
        let k = index_of_name(t, name);
        lemma_record_at(t, k);
        assert(unique_names(n));
        lemma_record_at(n, k);
    } else {
        assert forall|i: int, j: int|
            0 <= i < n.len() && 0 <= j < n.len() && i != j implies (#[trigger] n[i]).0 != (
        #[trigger] n[j]).0 by {
            if i == t.len() {
                assert(t[j].0 != name);
            } else if j == t.len() {
                assert(t[i].0 != name);
            }
        }
        lemma_record_at(n, t.len() as int);
    }
}

/// Registering one hostname leaves what every other hostname resolves to as it was.
pub proof fn lemma_with_record_keeps_others(
    t: Seq<(Seq<char>, [u8; 4])>,
    name: Seq<char>,
    ip: [u8; 4],
    other: Seq<char>,
)
    requires
        unique_names(t),
        other != name,
    ensures
        address_of(with_record(t, name, ip), other) == address_of(t, other),
{
    let n = with_record(t, name, ip);
    lemma_with_record(t, name, ip);
    if has_name(t, other) {
        let k = index_of_name(t, other);
        lemma_record_at(t, k);
        assert(n[k] == t[k]);
        lemma_record_at(n, k);
    } else if has_name(n, other) {
        let k = index_of_name(n, other);
        assert(k < t.len() ==> n[k].0 == t[k].0);
    }
}

/// Unregistering keeps a table free of duplicates, and the name then resolves to nothing.
pub proof fn lemma_without_name(t: Seq<(Seq<char>, [u8; 4])>, name: Seq<char>)
    requires
        unique_names(t),
    ensures
        unique_names(without_name(t, name)),
        address_of(without_name(t, name), name) is None,
{
    let n = without_name(t, name);
    if has_name(t, name) {
        let k = index_of_name(t, name);
        assert forall|i: int| 0 <= i < n.len() implies #[trigger] n[i] == t[if i < k {
            i
        } else {
            i + 1
        }] by {}
        assert(unique_names(n));
        assert(!has_name(n, name));
    }
}

/// The hostname that a device is given is one that the table did not hold, unless it is the
/// name of last resort.
pub proof fn lemma_first_free_is_free(
    t: Seq<(Seq<char>, [u8; 4])>,
    base: Seq<char>,
    mac: [u8; 6],
    k: nat,
)
    ensures
        !has_name(t, first_free(t, base, mac, k)) || first_free(t, base, mac, k)
            == full_device_label(mac),
    decreases MAX_PROBES - k,
{
    if k < MAX_PROBES && has_name(t, candidate(base, k)) {
        lemma_first_free_is_free(t, base, mac, k + 1);
    }
}

/// The names made of a MAC address are valid labels in lower case.
pub proof fn lemma_device_labels_are_canonical(mac: [u8; 6])
    ensures
        canonical_label(device_label(mac)),
        canonical_label(full_device_label(mac)),
{
    let short = device_label(mac);
    let long = full_device_label(mac);
    assert(short.len() == 13);
    assert(long.len() == 19);
    assert forall|i: int| 0 <= i < short.len() implies label_char(#[trigger] short[i])
        && !upper(short[i]) by {
        if i >= 7 {
            let b = mac@[3 + (i - 7) / 2];
            assert(short[i] == hex_pair(b)[(i - 7) % 2]);
        }
    }
    assert forall|i: int| 0 <= i < long.len() implies label_char(#[trigger] long[i]) && !upper(
        long[i],
    ) by {
        if i >= 7 {
            let b = mac@[(i - 7) / 2];
            assert(long[i] == hex_pair(b)[(i - 7) % 2]);
        }
    }
    assert(short[0] == 'd' && long[0] == 'd');
    assert(short.last() == hex_pair(mac@[5])[1]);
    assert(long.last() == hex_pair(mac@[5])[1]);
}

/// Every candidate for a valid base name in lower case is a valid label in lower case.
pub proof fn lemma_candidate_is_canonical(base: Seq<char>, k: nat)
    requires
        canonical_label(base),
        k < MAX_PROBES,
    ensures
        canonical_label(candidate(base, k)),
{
    if k > 0 {
        assert(pow10(2) == 100) by {
            reveal_with_fuel(pow10, 3);
        }
        lemma_decimal_shape(k, 2);
        let digits = decimal(k);
        let head = truncated(base, MAX_LABEL_LEN - 1 - digits.len());
        let c = candidate(base, k);
        assert(head.len() >= 1);
        assert(c.len() == head.len() + 1 + digits.len());
        assert forall|i: int| 0 <= i < c.len() implies label_char(#[trigger] c[i]) && !upper(
            c[i],
        ) by {
            if i < head.len() {
                assert(c[i] == base[i]);
            } else if i > head.len() {
                assert(c[i] == digits[i - head.len() - 1]);
            }
        }
        assert(c[0] == base[0]);
        assert(c.last() == digits.last());
    }
}

/// The hostname that a device is given is a valid label in lower case, so it is stored and
/// found again as it is.
pub proof fn lemma_device_name_is_canonical(
    t: Seq<(Seq<char>, [u8; 4])>,
    mac: [u8; 6],
    friendly: Seq<char>,
)
    ensures
        canonical_label(base_name(mac, friendly)),
        canonical_label(device_name(t, mac, friendly)),
        sanitized_local(device_name(t, mac, friendly)) == device_name(t, mac, friendly),
{
    lemma_device_labels_are_canonical(mac);
    if valid_label(friendly) {
        lemma_sanitized_valid_label(friendly);
    }
    lemma_first_free_is_canonical(t, base_name(mac, friendly), mac, 0);
    lemma_sanitize_keeps_canonical(device_name(t, mac, friendly));
}

/// The first free candidate for a valid base name in lower case is a valid label in lower
/// case.
pub proof fn lemma_first_free_is_canonical(
    t: Seq<(Seq<char>, [u8; 4])>,
    base: Seq<char>,
    mac: [u8; 6],
    k: nat,
)
    requires
        canonical_label(base),
    ensures
        canonical_label(first_free(t, base, mac, k)),
    decreases MAX_PROBES - k,
{
    lemma_device_labels_are_canonical(mac);
    if k < MAX_PROBES {
        lemma_candidate_is_canonical(base, k);
        if has_name(t, candidate(base, k)) {
            lemma_first_free_is_canonical(t, base, mac, k + 1);
        }
    }
}

/// Two devices that register one after the other are given different hostnames, whatever
/// their friendly names, unless the second is given the name of last resort.
pub proof fn lemma_second_device_differs(
    t: Seq<(Seq<char>, [u8; 4])>,
    mac1: [u8; 6],
    friendly1: Seq<char>,
    ip1: [u8; 4],
    mac2: [u8; 6],
    friendly2: Seq<char>,
)
    requires
        unique_names(t),
    ensures
        ({
            let first = device_name(t, mac1, friendly1);
            let second = device_name(with_record(t, first, ip1), mac2, friendly2);
            second != first || second == full_device_label(mac2)
        }),
{
    let first = device_name(t, mac1, friendly1);
    let t1 = with_record(t, first, ip1);
    lemma_with_record(t, first, ip1);
    assert(has_name(t1, first));
    lemma_first_free_is_free(t1, base_name(mac2, friendly2), mac2, 0);
}

/// The characters of the name made of the last three bytes of `mac`.
pub fn device_label_chars(mac: &[u8; 6]) -> (r: Vec<char>)
    ensures
        r@ == device_label(*mac),
{
    let mut r: Vec<char> = Vec::new();
    push_str(&mut r, "device-");
    proof {
        reveal_strlit("device-");
        assert("device-"@ =~= device_prefix());
    }
    push_hex_pair(&mut r, mac[3]);
    push_hex_pair(&mut r, mac[4]);
    push_hex_pair(&mut r, mac[5]);
    assert(r@ =~= device_label(*mac));
    r
}

/// The characters of the name made of all six bytes of `mac`.
pub fn full_device_label_chars(mac: &[u8; 6]) -> (r: Vec<char>)
    ensures
        r@ == full_device_label(*mac),
{
    let mut r: Vec<char> = Vec::new();
    push_str(&mut r, "device-");
    proof {
        reveal_strlit("device-");
        assert("device-"@ =~= device_prefix());
    }
    push_hex_pair(&mut r, mac[0]);
    push_hex_pair(&mut r, mac[1]);
    push_hex_pair(&mut r, mac[2]);
    push_hex_pair(&mut r, mac[3]);
    push_hex_pair(&mut r, mac[4]);
    push_hex_pair(&mut r, mac[5]);
    assert(r@ =~= full_device_label(*mac));
    r
}

/// One record: a hostname and the address that it resolves to.
struct Record {
    name: String,
    address: [u8; 4],
}

/// A table of hostnames and the addresses that they resolve to.
pub struct HostnameTable {
    records: Vec<Record>,
}

impl HostnameTable {
    /// The records of the table, in the order in which the hostnames were first registered.
    pub closed spec fn view(&self) -> Seq<(Seq<char>, [u8; 4])> {
        Seq::new(self.records@.len(), |i: int| (self.records@[i].name@, self.records@[i].address))
    }

    /// The table is free of duplicates. Every constructor establishes this and every method
    /// keeps it.
    pub open spec fn wf(&self) -> bool {
        unique_names(self@)
    }

    /// Creates an empty table.
    pub fn new() -> (r: Self)
        ensures
            r@ == Seq::<(Seq<char>, [u8; 4])>::empty(),
            r.wf(),
    {
        let r = HostnameTable { records: Vec::new() };
        assert(r@ =~= Seq::<(Seq<char>, [u8; 4])>::empty());
        r
    }

    /// The position of the record for `name`.
    fn position_of(&self, name: &String) -> (r: Option<usize>)
        ensures
            match r {
                Some(i) => i < self@.len() && self@[i as int].0 == name@,
                None => !has_name(self@, name@),
            },
    {
        let mut i: usize = 0;
        while i < self.records.len()
            invariant
                i <= self.records.len(),
                forall|j: int| 0 <= j < i ==> (#[trigger] self@[j]).0 != name@,
            decreases self.records.len() - i,
        {
            if self.records[i].name == *name {
                assert(self@[i as int].0 == name@);
                return Some(i);
            }
            i += 1;
        }
        None
    }

    /// True where the table holds a record for exactly `name`.
    pub fn contains(&self, name: &String) -> (r: bool)
        ensures
            r == has_name(self@, name@),
    {
        self.position_of(name).is_some()
    }

    /// Lets exactly `name` resolve to `ip`, whatever it resolved to before.
    pub fn insert(&mut self, name: String, ip: [u8; 4])
        requires
            old(self).wf(),
        ensures
            final(self)@ == with_record(old(self)@, name@, ip),
            final(self).wf(),
    {
        proof {
            lemma_with_record(self@, name@, ip);
        }
        match self.position_of(&name) {
            Some(i) => {
                proof {
                    lemma_record_at(self@, i as int);
                }
                self.records.set(i, Record { name, address: ip });
                assert(self@ =~= old(self)@.update(i as int, (name@, ip)));
            },
            None => {
                self.records.push(Record { name, address: ip });
                assert(self@ =~= old(self)@.push((name@, ip)));
            },
        }
    }

    /// Registers `hostname`, once sanitized, with the address `ip`: the last registration of
    /// a hostname wins.
    pub fn register(&mut self, hostname: &str, ip: [u8; 4])
        requires
            old(self).wf(),
        ensures
            final(self)@ == with_record(old(self)@, sanitized_local(hostname@), ip),
            final(self).wf(),
    {
        let clean = sanitize_local(hostname);
        self.insert(clean, ip);
    }

    /// Removes the record of exactly `name`, if there is one. Returns whether there was one.
    pub fn remove(&mut self, name: &String) -> (r: bool)
        requires
            old(self).wf(),
        ensures
            r == has_name(old(self)@, name@),
            final(self)@ == without_name(old(self)@, name@),
            final(self).wf(),
    {
        proof {
            lemma_without_name(self@, name@);
        }
        match self.position_of(name) {
            Some(i) => {
                proof {
                    lemma_record_at(self@, i as int);
                }
                let _ = self.records.remove(i);
                assert(self@ =~= old(self)@.remove(i as int));
                true
            },
            None => false,
        }
    }

    /// The address that exactly `name` resolves to.
    pub fn get(&self, name: &String) -> (r: Option<[u8; 4]>)
        requires
            self.wf(),
        ensures
            r == address_of(self@, name@),
    {
        match self.position_of(name) {
            Some(i) => {
                proof {
                    lemma_record_at(self@, i as int);
                }
                Some(self.records[i].address)
            },
            None => None,
        }
    }

    /// Removes the record of `hostname`, once sanitized, if there is one. Returns whether
    /// there was one.
    pub fn unregister(&mut self, hostname: &str) -> (r: bool)
        requires
            old(self).wf(),
        ensures
            r == has_name(old(self)@, sanitized_local(hostname@)),
            final(self)@ == without_name(old(self)@, sanitized_local(hostname@)),
            final(self).wf(),
    {
        let clean = sanitize_local(hostname);
        self.remove(&clean)
    }

    /// The address that `hostname`, once sanitized, resolves to.
    pub fn resolve(&self, hostname: &str) -> (r: Option<[u8; 4]>)
        requires
            self.wf(),
        ensures
            r == address_of(self@, sanitized_local(hostname@)),
    {
        let clean = sanitize_local(hostname);
        self.get(&clean)
    }

    /// All records as they are shown, each hostname with `.local` behind it, in the order
    /// in which the hostnames were first registered.
    pub fn list(&self) -> (r: Vec<(String, [u8; 4])>)
        ensures
            records_of(r@) == shown(self@),
    {
        let mut r: Vec<(String, [u8; 4])> = Vec::new();
        let mut i: usize = 0;
        while i < self.records.len()
            invariant
                i <= self.records.len(),
                r.len() == i,
                forall|j: int|
                    0 <= j < i ==> (#[trigger] r@[j]).0@ == self@[j].0 + local_suffix() && r@[j].1
                        == self@[j].1,
            decreases self.records.len() - i,
        {
            let mut shown_name = chars_of(self.records[i].name.as_str());
            push_str(&mut shown_name, ".local");
            proof {
                reveal_strlit(".local");
                assert(".local"@ =~= local_suffix());
            }
            r.push((string_of(&shown_name), self.records[i].address));
            i += 1;
        }
        assert(records_of(r@) =~= shown(self@));
        r
    }

    /// The number of records.
    pub fn len(&self) -> (r: usize)
        ensures
            r == self@.len(),
    {
        self.records.len()
    }

    /// Removes every record.
    pub fn clear(&mut self)
        ensures
            final(self)@ == Seq::<(Seq<char>, [u8; 4])>::empty(),
            final(self).wf(),
    {
        self.records.clear();
        assert(self@ =~= Seq::<(Seq<char>, [u8; 4])>::empty());
    }

    /// The hostname for a device that registers with `friendly_name`: the friendly name in
    /// lower case where it is a valid label, else `device-` and the last three bytes of the
    /// MAC address; where the table holds that name already, the name with the first of the
    /// suffixes `-1` to `-98` that makes it free, cut in front of the suffix so that it stays
    /// within 63 characters; and where the table holds all of these, `device-` and the whole
    /// MAC address. The hostname is always a valid label in lower case.
    pub fn pick_device_name(&self, mac: [u8; 6], friendly_name: &str) -> (r: String)
        ensures
            r@ == device_name(self@, mac, friendly_name@),
            valid_label(r@),
            no_upper(r@),
            !has_name(self@, r@) || r@ == full_device_label(mac),
    {
        let base: Vec<char> = if is_valid(friendly_name) {
            chars_of(sanitize(friendly_name).as_str())
        } else {
            device_label_chars(&mac)
        };
        proof {
            lemma_first_free_is_free(self@, base@, mac, 0);
            lemma_device_name_is_canonical(self@, mac, friendly_name@);
        }
        let mut name = string_of(&base);
        let mut k: usize = 0;
        while k < MAX_PROBES && self.contains(&name)
            invariant
                k <= MAX_PROBES,
                k < MAX_PROBES ==> name@ == candidate(base@, k as nat),
                first_free(self@, base@, mac, k as nat) == first_free(self@, base@, mac, 0),
            decreases MAX_PROBES - k,
        {
            k += 1;
            if k < MAX_PROBES {
                let digits = decimal_chars(k);
                proof {
                    assert(pow10(2) == 100) by {
                        reveal_with_fuel(pow10, 3);
                    }
                    lemma_decimal_shape(k as nat, 2);
                }
                let room: usize = MAX_LABEL_LEN - 1 - digits.len();
                let kept: usize = if base.len() > room {
                    room
                } else {
                    base.len()
                };
                let mut next = copy_range(&base, 0, kept);
                assert(next@ =~= truncated(base@, room as int));
                next.push('-');
                push_all(&mut next, &digits);
                assert(next@ =~= candidate(base@, k as nat));
                name = string_of(&next);
            }
        }
        if k >= MAX_PROBES {
            let last = full_device_label_chars(&mac);
            name = string_of(&last);
        }
        name
    }

    /// Registers a device: picks its hostname as `pick_device_name` does, lets that hostname
    /// resolve to `ip`, and returns it.
    pub fn register_device(&mut self, mac: [u8; 6], friendly_name: &str, ip: [u8; 4]) -> (r: String)
        requires
            old(self).wf(),
        ensures
            r@ == device_name(old(self)@, mac, friendly_name@),
            valid_label(r@),
            no_upper(r@),
            !has_name(old(self)@, r@) || r@ == full_device_label(mac),
            final(self)@ == with_record(old(self)@, r@, ip),
            final(self).wf(),
    {
        let name = self.pick_device_name(mac, friendly_name);
        self.insert(name.clone(), ip);
        name
    }
}

/// The dotted form of an IPv4 address, such as `192.168.4.2`.
pub open spec fn ip_text(ip: [u8; 4]) -> Seq<char> {
    decimal(ip@[0] as nat) + seq!['.'] + decimal(ip@[1] as nat) + seq!['.'] + decimal(
        ip@[2] as nat,
    ) + seq!['.'] + decimal(ip@[3] as nat)
}

/// Appends the dotted form of `ip` to `dst`.
pub fn push_ip(dst: &mut Vec<char>, ip: &[u8; 4])
    ensures
        final(dst)@ == old(dst)@ + ip_text(*ip),
{
    push_decimal(dst, ip[0] as usize);
    dst.push('.');
    push_decimal(dst, ip[1] as usize);
    dst.push('.');
    push_decimal(dst, ip[2] as usize);
    dst.push('.');
    push_decimal(dst, ip[3] as usize);
    assert(dst@ =~= old(dst)@ + ip_text(*ip));
}

/// The line that shows one record: two spaces, the hostname as shown, an arrow and the
/// address in dotted form.
pub open spec fn record_line(shown_name: Seq<char>, ip: [u8; 4]) -> Seq<char> {
    seq![' ', ' '] + shown_name + seq![' ', '-', '>', ' '] + ip_text(ip)
}

/// The lines that report the records of a table: one line that says that there are none,
/// or a heading with their number and a line for each.
pub open spec fn report_lines(t: Seq<(Seq<char>, [u8; 4])>) -> Seq<Seq<char>> {
    if t.len() == 0 {
        seq!["No hostnames registered"@]
    } else {
        seq!["Registered hostnames ("@ + decimal(t.len()) + "):"@] + Seq::new(
            t.len(),
            |i: int| record_line(shown(t)[i].0, t[i].1),
        )
    }
}

impl HostnameTable {
    /// The lines that report the records of the table.
    pub fn report(&self) -> (r: Vec<String>)
        ensures
            string_views(r@) == report_lines(self@),
    {
        let listed = self.list();
        assert(records_of(listed@).len() == listed@.len());
        assert(shown(self@).len() == self@.len());
        let mut r: Vec<String> = Vec::new();
        if listed.len() == 0 {
            r.push(string_of(&chars_of("No hostnames registered")));
            assert(string_views(r@) =~= report_lines(self@));
            return r;
        }
        let mut head: Vec<char> = Vec::new();
        push_str(&mut head, "Registered hostnames (");
        push_decimal(&mut head, listed.len());
        push_str(&mut head, "):");
        assert(head@ =~= "Registered hostnames ("@ + decimal(self@.len()) + "):"@);
        r.push(string_of(&head));
        let mut i: usize = 0;
        while i < listed.len()
            invariant
                i <= listed.len(),
                listed.len() == self@.len(),
                records_of(listed@) == shown(self@),
                r.len() == i + 1,
                r@[0]@ == "Registered hostnames ("@ + decimal(self@.len()) + "):"@,
                forall|j: int|
                    0 <= j < i ==> (#[trigger] r@[j + 1])@ == record_line(
                        shown(self@)[j].0,
                        self@[j].1,
                    ),
            decreases listed.len() - i,
        {
            assert(records_of(listed@)[i as int] == (listed@[i as int].0@, listed@[i as int].1));
            let mut line: Vec<char> = Vec::new();
            push_str(&mut line, "  ");
            push_str(&mut line, listed[i].0.as_str());
            push_str(&mut line, " -> ");
            push_ip(&mut line, &listed[i].1);
            proof {
                reveal_strlit("  ");
                reveal_strlit(" -> ");
                assert("  "@ =~= seq![' ', ' ']);
                assert(" -> "@ =~= seq![' ', '-', '>', ' ']);
                assert(line@ =~= record_line(shown(self@)[i as int].0, self@[i as int].1));
            }
            r.push(string_of(&line));
            i += 1;
        }
        assert forall|j: int| 0 <= j < r@.len() implies #[trigger] r@[j]@ == report_lines(
            self@,
        )[j] by {
            if j > 0 {
                assert(r@[(j - 1) + 1]@ == record_line(shown(self@)[j - 1].0, self@[j - 1].1));
            }
        }
        assert(string_views(r@) =~= report_lines(self@));
        r
    }
}

} // verus!
