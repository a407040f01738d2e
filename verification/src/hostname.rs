//! The hostname rules: turning arbitrary text into a DNS label, and validating labels.
//!
//! A label is 1 to 63 characters long, holds only ASCII letters, ASCII digits and hyphens,
//! and neither starts nor ends with a hyphen.

use crate::chars::{is_label_char, label_char, lower_char, to_lower_char, upper};
use crate::text::{
    chars_of, copy_range, ends_with, lemma_trim_end, lemma_trim_start, string_of,
    strip_suffix, strip_suffix_len, trim, trim_end, trim_start,
};
use vstd::prelude::*;

verus! {

/// The longest label that DNS allows, in characters.
pub const MAX_LABEL_LEN: usize = 63;

/// The predicate "is a hyphen".
pub open spec fn hyphen() -> spec_fn(char) -> bool {
    |c: char| c == '-'
}

/// The suffix `.local` that resolvers put behind every name of the local domain.
pub open spec fn local_suffix() -> Seq<char> {
    seq!['.', 'l', 'o', 'c', 'a', 'l']
}

/// `s` with every upper-case ASCII letter replaced by its lower-case form.
pub open spec fn lowered(s: Seq<char>) -> Seq<char> {
    Seq::new(s.len(), |i: int| lower_char(s[i]))
}

/// `s` with every character that no label may hold replaced by a hyphen.
pub open spec fn hyphenated(s: Seq<char>) -> Seq<char> {
    Seq::new(
        s.len(),
        |i: int|
            if label_char(s[i]) {
                s[i]
            } else {
                '-'
            },
    )
}

/// The first `n` characters of `s`, or all of `s` where it has no more than `n`.
pub open spec fn truncated(s: Seq<char>, n: int) -> Seq<char> {
    if s.len() > n {
        s.take(n)
    } else {
        s
    }
}

/// The label made from text that is already in lower case: foreign characters become
/// hyphens, hyphens at both ends go, and at most 63 characters stay.
pub open spec fn label_of(s: Seq<char>) -> Seq<char> {
    truncated(trim(hyphenated(s), hyphen()), MAX_LABEL_LEN as int)
}

/// The label made from arbitrary text.
pub open spec fn sanitized(s: Seq<char>) -> Seq<char> {
    label_of(lowered(s))
}

/// The label made from arbitrary text that may carry the suffix `.local`, in either case
/// and any number of times: the suffix is no part of the label.
pub open spec fn sanitized_local(s: Seq<char>) -> Seq<char> {
    label_of(strip_suffix(lowered(s), local_suffix()))
}

/// The single-label rule.
pub open spec fn valid_label(s: Seq<char>) -> bool {
    &&& 1 <= s.len() <= MAX_LABEL_LEN
    &&& forall|i: int| 0 <= i < s.len() ==> label_char(#[trigger] s[i])
    &&& s[0] != '-'
    &&& s.last() != '-'
}

/// No character of `s` is an upper-case ASCII letter.
pub open spec fn no_upper(s: Seq<char>) -> bool {
    forall|i: int| 0 <= i < s.len() ==> !upper(#[trigger] s[i])
}

/// A label as the registries hold it: valid and in lower case.
pub open spec fn canonical_label(s: Seq<char>) -> bool {
    valid_label(s) && no_upper(s)
}

/// The characters of `.local`.
pub fn local_suffix_chars() -> (r: Vec<char>)
    ensures
        r@ == local_suffix(),
{
    let mut r: Vec<char> = Vec::new();
    r.push('.');
    r.push('l');
    r.push('o');
    r.push('c');
    r.push('a');
    r.push('l');
    assert(r@ =~= local_suffix());
    r
}

/// The lower-case form of `v`.
pub fn lower_chars(v: &Vec<char>) -> (r: Vec<char>)
    ensures
        r@ == lowered(v@),
{
    let mut r: Vec<char> = Vec::new();
    let mut i: usize = 0;
    while i < v.len()
        invariant
            i <= v.len(),
            r.len() == i,
            forall|j: int| 0 <= j < i ==> r@[j] == lower_char(v@[j]),
        decreases v.len() - i,
    {
        r.push(to_lower_char(v[i]));
        i += 1;
    }
    assert(r@ =~= lowered(v@));
    r
}

/// The label made from the lower-case text `v[..end]`.
pub fn label_chars(v: &Vec<char>, end: usize) -> (r: Vec<char>)
    requires
        end <= v.len(),
    ensures
        r@ == label_of(v@.take(end as int)),
{
    let ghost src = v@.take(end as int);
    let mut m: Vec<char> = Vec::new();
    let mut i: usize = 0;
    while i < end
        invariant
            i <= end <= v.len(),
            src == v@.take(end as int),
            m.len() == i,
            forall|j: int| 0 <= j < i ==> m@[j] == hyphenated(src)[j],
        decreases end - i,
    {
        let c = v[i];
        if is_label_char(c) {
            m.push(c);
        } else {
            m.push('-');
        }
        i += 1;
    }
    assert(m@ =~= hyphenated(src));
    let mut start: usize = 0;
    while start < end && m[start] == '-'
        invariant
            start <= end,
            m.len() == end,
            forall|j: int| 0 <= j < start ==> hyphen()(#[trigger] m@[j]),
        decreases end - start,
    {
        start += 1;
    }
    let mut stop: usize = end;
    while stop > start && m[stop - 1] == '-'
        invariant
            start <= stop <= end,
            m.len() == end,
            forall|j: int| stop <= j < end ==> hyphen()(#[trigger] m@[j]),
        decreases stop,
    {
        stop -= 1;
    }
    proof {
        lemma_trim_start(m@, hyphen(), start as int);
        let t = m@.skip(start as int);
        assert forall|j: int| stop - start <= j < t.len() implies hyphen()(#[trigger] t[j]) by {
            assert(t[j] == m@[j + start]);
        }
        lemma_trim_end(t, hyphen(), stop - start);
        assert(t.take(stop - start) =~= m@.subrange(start as int, stop as int));
    }
    let last: usize = if stop - start > MAX_LABEL_LEN {
        start + MAX_LABEL_LEN
    } else {
        stop
    };
    let r = copy_range(&m, start, last);
    assert(r@ =~= truncated(m@.subrange(start as int, stop as int), MAX_LABEL_LEN as int));
    r
}

/// Turns arbitrary text into a label: upper-case ASCII letters are lowered, every character
/// that is not an ASCII letter, an ASCII digit or a hyphen becomes a hyphen, hyphens at both
/// ends are dropped, and at most 63 characters are kept. The result may be empty, and may
/// end with a hyphen where the text was cut: it is to be validated before use.
pub fn sanitize(input: &str) -> (r: String)
    ensures
        r@ == sanitized(input@),
{
    let v = chars_of(input);
    let low = lower_chars(&v);
    assert(low@.take(low@.len() as int) =~= low@);
    let label = label_chars(&low, low.len());
    string_of(&label)
}

/// As `sanitize`, for text that may name a host of the local domain: once the text is in
/// lower case, every `.local` at its end is dropped before the label is made.
pub fn sanitize_local(input: &str) -> (r: String)
    ensures
        r@ == sanitized_local(input@),
{
    let v = chars_of(input);
    let low = lower_chars(&v);
    let pat = local_suffix_chars();
    let end = strip_suffix_len(&low, &pat);
    let label = label_chars(&low, end);
    string_of(&label)
}

/// The single-label rule on a vector of characters.
pub fn is_valid_chars(v: &Vec<char>) -> (r: bool)
    ensures
        r == valid_label(v@),
{
    let n = v.len();
    if n == 0 || n > MAX_LABEL_LEN {
        return false;
    }
    if v[0] == '-' || v[n - 1] == '-' {
        return false;
    }
    let mut i: usize = 0;
    while i < n
        invariant
            i <= n,
            n == v.len(),
            forall|j: int| 0 <= j < i ==> label_char(#[trigger] v@[j]),
        decreases n - i,
    {
        if !is_label_char(v[i]) {
            return false;
        }
        i += 1;
    }
    true
}

/// True where `hostname` is a label: 1 to 63 characters, each an ASCII letter, an ASCII
/// digit or a hyphen, the first and the last no hyphen.
pub fn is_valid(hostname: &str) -> (r: bool)
    ensures
        r == valid_label(hostname@),
{
    let v = chars_of(hostname);
    is_valid_chars(&v)
}

/// What trimming at the start leaves is a tail of the sequence that does not begin with a
/// trimmed character.
pub proof fn lemma_trim_start_shape(s: Seq<char>, p: spec_fn(char) -> bool)
    ensures
        trim_start(s, p).len() <= s.len(),
        trim_start(s, p) == s.skip(s.len() - trim_start(s, p).len()),
        trim_start(s, p).len() > 0 ==> !p(trim_start(s, p)[0]),
    decreases s.len(),
{
    if s.len() > 0 && p(s[0]) {
        let t = s.drop_first();
        lemma_trim_start_shape(t, p);
        assert(t.skip(t.len() - trim_start(t, p).len()) =~= s.skip(
            s.len() - trim_start(t, p).len(),
        ));
    } else {
        assert(s.skip(0) =~= s);
    }
}

/// What trimming at the end leaves is a head of the sequence that does not end with a
/// trimmed character.
pub proof fn lemma_trim_end_shape(s: Seq<char>, p: spec_fn(char) -> bool)
    ensures
        trim_end(s, p).len() <= s.len(),
        trim_end(s, p) == s.take(trim_end(s, p).len() as int),
        trim_end(s, p).len() > 0 ==> !p(trim_end(s, p).last()),
    decreases s.len(),
{
    if s.len() > 0 && p(s.last()) {
        let t = s.drop_last();
        lemma_trim_end_shape(t, p);
        assert(t.take(trim_end(t, p).len() as int) =~= s.take(trim_end(t, p).len() as int));
    } else {
        assert(s.take(s.len() as int) =~= s);
    }
}

/// Text that holds only lower-case label characters, is at most 63 characters long and is
/// not bounded by a hyphen is a fixed point of both sanitizers.
pub proof fn lemma_clean_is_fixed(t: Seq<char>)
    requires
        t.len() <= MAX_LABEL_LEN,
        forall|i: int| 0 <= i < t.len() ==> label_char(#[trigger] t[i]) && !upper(t[i]),
        t.len() > 0 ==> t[0] != '-' && t.last() != '-',
    ensures
        sanitized(t) == t,
        sanitized_local(t) == t,
{
    assert(lowered(t) =~= t);
    assert(hyphenated(t) =~= t);
    if t.len() >= local_suffix().len() {
        let tail = t.skip(t.len() - local_suffix().len());
        assert(tail[0] == t[t.len() - 6]);
        assert(label_char(t[t.len() - 6]));
        assert(local_suffix()[0] == '.');
        assert(tail != local_suffix());
    }
    assert(!ends_with(t, local_suffix()));
    assert(strip_suffix(t, local_suffix()) == t);
    assert(trim_start(t, hyphen()) == t);
    assert(trim_end(t, hyphen()) == t);
}

/// What a sanitizer returns holds only lower-case label characters, is at most 63
/// characters long and does not start with a hyphen.
pub proof fn lemma_label_of_shape(s: Seq<char>)
    requires
        no_upper(s),
    ensures
        label_of(s).len() <= MAX_LABEL_LEN,
        forall|i: int|
            0 <= i < label_of(s).len() ==> label_char(#[trigger] label_of(s)[i]) && !upper(
                label_of(s)[i],
            ),
        label_of(s).len() > 0 ==> label_of(s)[0] != '-',
{
    let m = hyphenated(s);
    let a = trim_start(m, hyphen());
    let b = trim_end(a, hyphen());
    let r = label_of(s);
    lemma_trim_start_shape(m, hyphen());
    lemma_trim_end_shape(a, hyphen());
    assert forall|i: int| 0 <= i < r.len() implies label_char(#[trigger] r[i]) && !upper(
        r[i],
    ) by {
        let k = m.len() - a.len();
        assert(r[i] == b[i]);
        assert(b[i] == a[i]);
        assert(a[i] == m[i + k]);
        assert(!upper(s[i + k]));
    }
    if r.len() > 0 {
        assert(r[0] == b[0]);
        assert(b[0] == a[0]);
    }
}

/// Lowering leaves no upper-case ASCII letter.
pub proof fn lemma_lowered_no_upper(s: Seq<char>)
    ensures
        no_upper(lowered(s)),
        no_upper(strip_suffix(lowered(s), local_suffix())),
{
    lemma_strip_suffix_is_prefix(lowered(s), local_suffix());
}

/// What is left after a suffix has been stripped is a head of the sequence.
pub proof fn lemma_strip_suffix_is_prefix(s: Seq<char>, pat: Seq<char>)
    ensures
        strip_suffix(s, pat).len() <= s.len(),
        strip_suffix(s, pat) == s.take(strip_suffix(s, pat).len() as int),
    decreases s.len(),
{
    if pat.len() > 0 && ends_with(s, pat) {
        let t = s.take(s.len() - pat.len());
        lemma_strip_suffix_is_prefix(t, pat);
        assert(t.take(strip_suffix(t, pat).len() as int) =~= s.take(
            strip_suffix(t, pat).len() as int,
        ));
    } else {
        assert(s.take(s.len() as int) =~= s);
    }
}

/// Sanitizing is idempotent on every text whose label does not end with a hyphen.
///
/// A label ends with a hyphen only where the text was cut at 63 characters just behind one;
/// sanitizing such a label again drops that hyphen.
pub proof fn lemma_sanitize_idempotent(s: Seq<char>)
    requires
        sanitized(s).len() == 0 || sanitized(s).last() != '-',
    ensures
        sanitized(sanitized(s)) == sanitized(s),
        sanitized_local(sanitized(s)) == sanitized(s),
{
    lemma_lowered_no_upper(s);
    lemma_label_of_shape(lowered(s));
    lemma_clean_is_fixed(sanitized(s));
}

/// The sanitizer for names of the local domain is idempotent on every text whose label
/// does not end with a hyphen.
pub proof fn lemma_sanitize_local_idempotent(s: Seq<char>)
    requires
        sanitized_local(s).len() == 0 || sanitized_local(s).last() != '-',
    ensures
        sanitized_local(sanitized_local(s)) == sanitized_local(s),
        sanitized(sanitized_local(s)) == sanitized_local(s),
{
    lemma_lowered_no_upper(s);
    lemma_label_of_shape(strip_suffix(lowered(s), local_suffix()));
    lemma_clean_is_fixed(sanitized_local(s));
}

/// A valid label without upper-case letters is what both sanitizers return for it.
pub proof fn lemma_sanitize_keeps_canonical(h: Seq<char>)
    requires
        canonical_label(h),
    ensures
        sanitized(h) == h,
        sanitized_local(h) == h,
{
    lemma_clean_is_fixed(h);
}

/// A valid label sanitizes to itself in lower case, which is a valid label again.
pub proof fn lemma_sanitized_valid_label(h: Seq<char>)
    requires
        valid_label(h),
    ensures
        sanitized(h) == lowered(h),
        canonical_label(sanitized(h)),
{
    let low = lowered(h);
    assert forall|i: int| 0 <= i < low.len() implies label_char(#[trigger] low[i]) && !upper(
        low[i],
    ) by {
        assert(label_char(h[i]));
    }
    assert(low[0] == lower_char(h[0]));
    assert(low.last() == lower_char(h.last()));
    assert(lowered(low) =~= low);
    lemma_clean_is_fixed(low);
}

/// A label that a sanitizer returned and that passed validation is canonical.
pub proof fn lemma_valid_sanitized_is_canonical(s: Seq<char>)
    ensures
        valid_label(sanitized(s)) ==> canonical_label(sanitized(s)),
        valid_label(sanitized_local(s)) ==> canonical_label(sanitized_local(s)),
{
    lemma_lowered_no_upper(s);
    lemma_label_of_shape(lowered(s));
    lemma_label_of_shape(strip_suffix(lowered(s), local_suffix()));
}

} // verus!
