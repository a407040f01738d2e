//! Character sequences: conversion from and to strings, trimming, splitting and joining.
//!
//! The executable functions work on `Vec<char>`; their contracts are stated over `Seq<char>`,
//! which is also the view of `str` and `String`.

use crate::chars::{digit_char, to_digit_char};
use vstd::prelude::*;

verus! {

/// `String::push` of the standard library: it appends the one character to the string and
/// leaves what was there in place.
pub assume_specification[ String::push ](s: &mut String, c: char)
    ensures
        final(s)@ == old(s)@.push(c),
;

/// The characters of `s`, in order.
pub fn chars_of(s: &str) -> (v: Vec<char>)
    ensures
        v@ == s@,
{
    let mut v: Vec<char> = Vec::new();
    for c in it: s.chars()
        invariant
            it.seq() == s@,
            v@ == s@.take(it.index() as int),
    {
        v.push(c);
        assert(s@.take(it.index() + 1) =~= s@.take(it.index() as int).push(c));
    }
    assert(s@.take(s@.len() as int) =~= s@);
    v
}

/// The string made of the characters `v[from..to]`.
pub fn string_of_range(v: &Vec<char>, from: usize, to: usize) -> (s: String)
    requires
        from <= to <= v.len(),
    ensures
        s@ == v@.subrange(from as int, to as int),
{
    let mut s = String::new();
    let mut i: usize = from;
    while i < to
        invariant
            from <= i <= to <= v.len(),
            s@ == v@.subrange(from as int, i as int),
        decreases to - i,
    {
        s.push(v[i]);
        assert(v@.subrange(from as int, i + 1) =~= v@.subrange(from as int, i as int).push(
            v@[i as int],
        ));
        i += 1;
    }
    s
}

/// The string made of the characters of `v`.
pub fn string_of(v: &Vec<char>) -> (s: String)
    ensures
        s@ == v@,
{
    let s = string_of_range(v, 0, v.len());
    assert(v@.subrange(0, v@.len() as int) =~= v@);
    s
}

/// A copy of `v[from..to]`.
pub fn copy_range(v: &Vec<char>, from: usize, to: usize) -> (r: Vec<char>)
    requires
        from <= to <= v.len(),
    ensures
        r@ == v@.subrange(from as int, to as int),
{
    let mut r: Vec<char> = Vec::new();
    let mut i: usize = from;
    while i < to
        invariant
            from <= i <= to <= v.len(),
            r@ == v@.subrange(from as int, i as int),
        decreases to - i,
    {
        r.push(v[i]);
        assert(v@.subrange(from as int, i + 1) =~= v@.subrange(from as int, i as int).push(
            v@[i as int],
        ));
        i += 1;
    }
    r
}

/// Appends the characters of `src` to `dst`.
pub fn push_all(dst: &mut Vec<char>, src: &Vec<char>)
    ensures
        final(dst)@ == old(dst)@ + src@,
{
    let mut i: usize = 0;
    while i < src.len()
        invariant
            i <= src.len(),
            dst@ == old(dst)@ + src@.take(i as int),
        decreases src.len() - i,
    {
        dst.push(src[i]);
        assert(src@.take(i + 1) =~= src@.take(i as int).push(src@[i as int]));
        assert(old(dst)@ + src@.take(i + 1) =~= (old(dst)@ + src@.take(i as int)).push(
            src@[i as int],
        ));
        i += 1;
    }
    assert(src@.take(src@.len() as int) =~= src@);
}

/// Appends the characters of the string `s` to `dst`.
pub fn push_str(dst: &mut Vec<char>, s: &str)
    ensures
        final(dst)@ == old(dst)@ + s@,
{
    let src = chars_of(s);
    push_all(dst, &src);
}

/// `s` without its leading characters that satisfy `p`.
pub open spec fn trim_start(s: Seq<char>, p: spec_fn(char) -> bool) -> Seq<char>
    decreases s.len(),
{
    if s.len() > 0 && p(s[0]) {
        trim_start(s.drop_first(), p)
    } else {
        s
    }
}

/// `s` without its trailing characters that satisfy `p`.
pub open spec fn trim_end(s: Seq<char>, p: spec_fn(char) -> bool) -> Seq<char>
    decreases s.len(),
{
    if s.len() > 0 && p(s.last()) {
        trim_end(s.drop_last(), p)
    } else {
        s
    }
}

/// `s` without the characters that satisfy `p` at either end.
pub open spec fn trim(s: Seq<char>, p: spec_fn(char) -> bool) -> Seq<char> {
    trim_end(trim_start(s, p), p)
}

/// Trimming at the start drops exactly the first `k` characters, where `k` is the position
/// of the first character outside `p`.
pub proof fn lemma_trim_start(s: Seq<char>, p: spec_fn(char) -> bool, k: int)
    requires
        0 <= k <= s.len(),
        forall|i: int| 0 <= i < k ==> p(#[trigger] s[i]),
        k == s.len() || !p(s[k]),
    ensures
        trim_start(s, p) == s.skip(k),
    decreases k,
{
    if k == 0 {
        assert(s.skip(0) =~= s);
    } else {
        assert(p(s[0]));
        let t = s.drop_first();
        assert forall|i: int| 0 <= i < k - 1 implies p(#[trigger] t[i]) by {
            assert(t[i] == s[i + 1]);
        }
        lemma_trim_start(t, p, k - 1);
        assert(t.skip(k - 1) =~= s.skip(k));
    }
}

/// Trimming at the end keeps exactly the first `k` characters, where `k` is one past the
/// position of the last character outside `p`.
pub proof fn lemma_trim_end(s: Seq<char>, p: spec_fn(char) -> bool, k: int)
    requires
        0 <= k <= s.len(),
        forall|i: int| k <= i < s.len() ==> p(#[trigger] s[i]),
        k == 0 || !p(s[k - 1]),
    ensures
        trim_end(s, p) == s.take(k),
    decreases s.len() - k,
{
    if k == s.len() {
        assert(s.take(k) =~= s);
    } else {
        assert(p(s.last()));
        let t = s.drop_last();
        assert forall|i: int| k <= i < t.len() implies p(#[trigger] t[i]) by {
            assert(t[i] == s[i]);
        }
        lemma_trim_end(t, p, k);
        assert(t.take(k) =~= s.take(k));
    }
}

/// `s` ends with the characters of `pat`.
pub open spec fn ends_with(s: Seq<char>, pat: Seq<char>) -> bool {
    s.len() >= pat.len() && s.skip(s.len() - pat.len()) == pat
}

/// `s` after `pat` has been taken off its end as often as it stands there.
pub open spec fn strip_suffix(s: Seq<char>, pat: Seq<char>) -> Seq<char>
    decreases s.len(),
{
    if pat.len() > 0 && ends_with(s, pat) {
        strip_suffix(s.take(s.len() - pat.len()), pat)
    } else {
        s
    }
}

/// True where `v[..end]` ends with `pat`.
pub fn prefix_ends_with(v: &Vec<char>, end: usize, pat: &Vec<char>) -> (r: bool)
    requires
        end <= v.len(),
    ensures
        r == ends_with(v@.take(end as int), pat@),
{
    let n = pat.len();
    if end < n {
        return false;
    }
    let base: usize = end - n;
    let ghost tail = v@.take(end as int).skip(base as int);
    let mut i: usize = 0;
    while i < n
        invariant
            i <= n,
            n == pat.len(),
            base + n == end,
            end <= v.len(),
            tail == v@.take(end as int).skip(base as int),
            forall|j: int| 0 <= j < i ==> tail[j] == pat@[j],
        decreases n - i,
    {
        if v[base + i] != pat[i] {
            assert(tail[i as int] != pat@[i as int]);
            return false;
        }
        i += 1;
    }
    assert(tail =~= pat@);
    true
}

/// The length of what is left of `v` once `pat` has been taken off its end as often as it
/// stands there.
pub fn strip_suffix_len(v: &Vec<char>, pat: &Vec<char>) -> (end: usize)
    requires
        pat.len() > 0,
    ensures
        end <= v.len(),
        v@.take(end as int) == strip_suffix(v@, pat@),
{
    let mut end: usize = v.len();
    assert(v@.take(end as int) =~= v@);
    while prefix_ends_with(v, end, pat)
        invariant
            end <= v.len(),
            pat.len() > 0,
            strip_suffix(v@.take(end as int), pat@) == strip_suffix(v@, pat@),
        decreases end,
    {
        assert(v@.take(end as int).take(end - pat.len()) =~= v@.take(end - pat.len()));
        end = end - pat.len();
    }
    end
}

/// Position of the first `sep` in `s`, or the length of `s` where there is none.
pub open spec fn find(s: Seq<char>, sep: char) -> int
    decreases s.len(),
{
    if s.len() == 0 || s[0] == sep {
        0
    } else {
        1 + find(s.drop_first(), sep)
    }
}

/// The pieces of `s` between occurrences of `sep`. There is always at least one piece, and
/// a piece is empty where two separators touch or one stands at an end.
pub open spec fn split(s: Seq<char>, sep: char) -> Seq<Seq<char>>
    decreases s.len(),
{
    let i = find(s, sep);
    if 0 <= i < s.len() {
        seq![s.take(i)] + split(s.skip(i + 1), sep)
    } else {
        seq![s]
    }
}

/// The pieces put together again with `sep` between neighbours.
pub open spec fn join(parts: Seq<Seq<char>>, sep: char) -> Seq<char>
    decreases parts.len(),
{
    if parts.len() == 0 {
        Seq::empty()
    } else if parts.len() == 1 {
        parts[0]
    } else {
        parts[0] + seq![sep] + join(parts.drop_first(), sep)
    }
}

/// `find` returns the first position that holds `sep`.
pub proof fn lemma_find(s: Seq<char>, sep: char, k: int)
    requires
        0 <= k <= s.len(),
        forall|i: int| 0 <= i < k ==> #[trigger] s[i] != sep,
        k == s.len() || s[k] == sep,
    ensures
        find(s, sep) == k,
    decreases k,
{
    if k > 0 {
        let t = s.drop_first();
        assert forall|i: int| 0 <= i < k - 1 implies #[trigger] t[i] != sep by {
            assert(t[i] == s[i + 1]);
        }
        lemma_find(t, sep, k - 1);
    }
}

/// The views of the vectors of `v`, in order.
pub open spec fn views(v: Seq<Vec<char>>) -> Seq<Seq<char>> {
    Seq::new(v.len(), |i: int| v[i]@)
}

/// The pieces of `v[from..to]` between occurrences of `sep`.
pub fn split_range(v: &Vec<char>, from: usize, to: usize, sep: char) -> (parts: Vec<Vec<char>>)
    requires
        from <= to <= v.len(),
    ensures
        views(parts@) == split(v@.subrange(from as int, to as int), sep),
{
    let ghost whole = v@.subrange(from as int, to as int);
    let mut parts: Vec<Vec<char>> = Vec::new();
    let mut start: usize = from;
    let mut done = false;
    assert(v@.subrange(start as int, to as int) == whole);
    assert(views(parts@) =~= Seq::<Seq<char>>::empty());
    while !done
        invariant
            from <= start <= to <= v.len(),
            whole == v@.subrange(from as int, to as int),
            !done ==> split(whole, sep) == views(parts@) + split(
                v@.subrange(start as int, to as int),
                sep,
            ),
            done ==> split(whole, sep) == views(parts@),
        decreases (if done { 0int } else { 1int }), to - start,
    {
        let ghost rest = v@.subrange(start as int, to as int);
        let mut j: usize = start;
        while j < to && v[j] != sep
            invariant
                start <= j <= to <= v.len(),
                rest == v@.subrange(start as int, to as int),
                forall|i: int| 0 <= i < j - start ==> #[trigger] rest[i] != sep,
            decreases to - j,
        {
            j += 1;
        }
        proof {
            lemma_find(rest, sep, j - start);
        }
        let piece = copy_range(v, start, j);
        let ghost before = parts@;
        parts.push(piece);
        assert(views(parts@) =~= views(before) + seq![piece@]);
        if j < to {
            assert(rest.take(j - start) =~= piece@);
            assert(rest.skip(j - start + 1) =~= v@.subrange(j + 1, to as int));
            start = j + 1;
        } else {
            assert(rest =~= piece@);
            done = true;
        }
    }
    parts
}

/// The pieces of `v` between occurrences of `sep`.
pub fn split_chars(v: &Vec<char>, sep: char) -> (parts: Vec<Vec<char>>)
    ensures
        views(parts@) == split(v@, sep),
{
    assert(v@.subrange(0, v@.len() as int) =~= v@);
    split_range(v, 0, v.len(), sep)
}

/// The decimal digits of `n`, most significant first, without leading zeros.
pub open spec fn decimal(n: nat) -> Seq<char>
    decreases n,
{
    if n < 10 {
        seq![digit_char(n as int)]
    } else {
        decimal(n / 10).push(digit_char((n % 10) as int))
    }
}

/// `k` zeros.
pub open spec fn zeros(k: nat) -> Seq<char> {
    Seq::new(k, |i: int| '0')
}

/// `s` with zeros in front until it is `width` characters long.
pub open spec fn zero_padded(s: Seq<char>, width: nat) -> Seq<char> {
    if s.len() >= width {
        s
    } else {
        zeros((width - s.len()) as nat) + s
    }
}

/// Appends the decimal digits of `n` to `dst`.
pub fn push_decimal(dst: &mut Vec<char>, n: usize)
    ensures
        final(dst)@ == old(dst)@ + decimal(n as nat),
    decreases n,
{
    if n < 10 {
        dst.push(to_digit_char(n as u8));
        assert(dst@ =~= old(dst)@ + decimal(n as nat));
    } else {
        push_decimal(dst, n / 10);
        dst.push(to_digit_char((n % 10) as u8));
        assert(dst@ =~= old(dst)@ + decimal(n as nat));
    }
}

/// The decimal digits of `n`.
pub fn decimal_chars(n: usize) -> (r: Vec<char>)
    ensures
        r@ == decimal(n as nat),
{
    let mut r: Vec<char> = Vec::new();
    push_decimal(&mut r, n);
    assert(Seq::<char>::empty() + decimal(n as nat) =~= decimal(n as nat));
    r
}

/// No character of `s` is `sep`.
pub open spec fn free_of(s: Seq<char>, sep: char) -> bool {
    forall|i: int| 0 <= i < s.len() ==> #[trigger] s[i] != sep
}

/// Splitting undoes joining, as long as there is a piece at all and no piece holds the
/// separator.
pub proof fn lemma_split_join(parts: Seq<Seq<char>>, sep: char)
    requires
        parts.len() >= 1,
        forall|i: int| 0 <= i < parts.len() ==> free_of(#[trigger] parts[i], sep),
    ensures
        split(join(parts, sep), sep) == parts,
    decreases parts.len(),
{
    let first = parts[0];
    assert(free_of(first, sep));
    if parts.len() == 1 {
        lemma_find(first, sep, first.len() as int);
        assert(seq![first] =~= parts);
    } else {
        let rest = parts.drop_first();
        let whole = join(parts, sep);
        assert(whole == first + seq![sep] + join(rest, sep));
        let k = first.len() as int;
        assert forall|i: int| 0 <= i < k implies #[trigger] whole[i] != sep by {
            assert(whole[i] == first[i]);
        }
        assert(whole[k] == sep);
        lemma_find(whole, sep, k);
        assert(whole.take(k) =~= first);
        assert(whole.skip(k + 1) =~= join(rest, sep));
        assert forall|i: int| 0 <= i < rest.len() implies free_of(#[trigger] rest[i], sep) by {
            assert(rest[i] == parts[i + 1]);
        }
        lemma_split_join(rest, sep);
        assert(seq![first] + rest =~= parts);
    }
}

/// Joining one more piece appends the separator and the piece.
pub proof fn lemma_join_push(parts: Seq<Seq<char>>, piece: Seq<char>, sep: char)
    requires
        parts.len() >= 1,
    ensures
        join(parts.push(piece), sep) == join(parts, sep) + seq![sep] + piece,
    decreases parts.len(),
{
    let all = parts.push(piece);
    if parts.len() == 1 {
        assert(all.drop_first() =~= seq![piece]);
        assert(join(all.drop_first(), sep) == piece);
    } else {
        assert(all.drop_first() =~= parts.drop_first().push(piece));
        lemma_join_push(parts.drop_first(), piece, sep);
        assert(parts[0] + seq![sep] + (join(parts.drop_first(), sep) + seq![sep] + piece)
            =~= (parts[0] + seq![sep] + join(parts.drop_first(), sep)) + seq![sep] + piece);
    }
}

/// Joining brings in no character but the separator: what neither is the separator nor
/// occurs in a piece does not occur in the whole.
pub proof fn lemma_join_free_of(parts: Seq<Seq<char>>, sep: char, c: char)
    requires
        c != sep,
        forall|i: int| 0 <= i < parts.len() ==> free_of(#[trigger] parts[i], c),
    ensures
        free_of(join(parts, sep), c),
    decreases parts.len(),
{
    if parts.len() == 0 {
    } else if parts.len() == 1 {
        assert(free_of(parts[0], c));
    } else {
        let rest = parts.drop_first();
        assert forall|i: int| 0 <= i < rest.len() implies free_of(#[trigger] rest[i], c) by {
            assert(rest[i] == parts[i + 1]);
        }
        lemma_join_free_of(rest, sep, c);
        assert(free_of(parts[0], c));
        let whole = join(parts, sep);
        let k = parts[0].len() as int;
        assert forall|i: int| 0 <= i < whole.len() implies #[trigger] whole[i] != c by {
            if i < k {
                assert(whole[i] == parts[0][i]);
            } else if i == k {
                assert(whole[i] == sep);
            } else {
                assert(whole[i] == join(rest, sep)[i - k - 1]);
            }
        }
    }
}

/// A join begins with its first piece.
pub proof fn lemma_join_starts_with_first(parts: Seq<Seq<char>>, sep: char)
    requires
        parts.len() >= 1,
    ensures
        join(parts, sep).len() >= parts[0].len(),
        join(parts, sep).take(parts[0].len() as int) == parts[0],
{
    if parts.len() == 1 {
        assert(parts[0].take(parts[0].len() as int) =~= parts[0]);
    } else {
        assert(join(parts, sep).take(parts[0].len() as int) =~= parts[0]);
    }
}

/// The views of the strings of `v`, in order.
pub open spec fn string_views(v: Seq<String>) -> Seq<Seq<char>> {
    Seq::new(v.len(), |i: int| v[i]@)
}

/// The number that the decimal digits of `s` denote.
pub open spec fn decimal_value(s: Seq<char>) -> int
    decreases s.len(),
{
    if s.len() == 0 {
        0
    } else {
        decimal_value(s.drop_last()) * 10 + ((s.last() as u8) - 48)
    }
}

/// The decimal digits of a number denote it.
pub proof fn lemma_decimal_value(n: nat)
    ensures
        decimal_value(decimal(n)) == n,
    decreases n,
{
    let d = decimal(n);
    let last = digit_char((n % 10) as int);
    assert((last as u8) - 48 == n % 10);
    if n < 10 {
        assert(d.drop_last() =~= Seq::<char>::empty());
        assert(d.last() == last);
        assert(decimal_value(d.drop_last()) == 0);
    } else {
        lemma_decimal_value(n / 10);
        assert(d.drop_last() =~= decimal(n / 10));
        assert(d.last() == last);
    }
}

/// Zeros in front of decimal digits do not change the number.
pub proof fn lemma_leading_zeros(k: nat, s: Seq<char>)
    ensures
        decimal_value(zeros(k) + s) == decimal_value(s),
    decreases s.len(), k,
{
    let all = zeros(k) + s;
    if s.len() > 0 {
        assert(all.drop_last() =~= zeros(k) + s.drop_last());
        lemma_leading_zeros(k, s.drop_last());
    } else if k > 0 {
        assert(all.drop_last() =~= zeros((k - 1) as nat) + s);
        lemma_leading_zeros((k - 1) as nat, s);
    } else {
        assert(all =~= s);
    }
}

/// Different numbers have different decimal digits, also when padded with zeros.
pub proof fn lemma_padded_decimal_differs(a: nat, b: nat, width: nat)
    requires
        a != b,
    ensures
        zero_padded(decimal(a), width) != zero_padded(decimal(b), width),
{
    lemma_decimal_value(a);
    lemma_decimal_value(b);
    if decimal(a).len() < width {
        lemma_leading_zeros((width - decimal(a).len()) as nat, decimal(a));
    }
    if decimal(b).len() < width {
        lemma_leading_zeros((width - decimal(b).len()) as nat, decimal(b));
    }
}

/// The `k`-th power of ten.
pub open spec fn pow10(k: nat) -> nat
    decreases k,
{
    if k == 0 {
        1
    } else {
        10 * pow10((k - 1) as nat)
    }
}

/// A number below the `k`-th power of ten has at most `k` decimal digits, and every one of
/// them is a digit.
pub proof fn lemma_decimal_shape(n: nat, k: nat)
    requires
        k >= 1,
        n < pow10(k),
    ensures
        1 <= decimal(n).len() <= k,
        forall|i: int| 0 <= i < decimal(n).len() ==> '0' <= #[trigger] decimal(n)[i] <= '9',
    decreases k,
{
    if n >= 10 {
        if k == 1 {
            assert(pow10(1) == 10) by {
                reveal_with_fuel(pow10, 2);
            }
        } else {
            lemma_decimal_shape(n / 10, (k - 1) as nat);
        }
    }
}

} // verus!
