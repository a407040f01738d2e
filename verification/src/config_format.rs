//! The textual form of a registry: entries separated by commas, each entry the six bytes of a
//! MAC address in hexadecimal and a hostname, separated by colons, such as
//! `aa:bb:cc:dd:ee:ff:laptop,11:22:33:44:55:66:raspberry`.

use crate::chars::{is_whitespace, label_char, whitespace};
use crate::error::HostnameError;
use crate::hostname::{canonical_label, lemma_sanitize_keeps_canonical};
use crate::mac::{
    hex_pair, lemma_hex_byte_of_pair, lemma_mac_of_pairs, mac_chars, mac_of_fields, mac_text,
    parse_mac_fields,
};
use crate::mac_hostname_config::{
    add_outcome, after_add, has_hostname, has_mac, index_of_hostname, index_of_mac,
    lemma_lookup_at, pairs_of, well_formed, MacHostnameConfig,
};
use crate::text::{
    chars_of, decimal, free_of, join, lemma_join_free_of, lemma_join_push,
    lemma_join_starts_with_first, lemma_split_join, lemma_trim_end, lemma_trim_start, push_all, push_decimal, push_str,
    split, split_chars, split_range, string_of, string_views, trim, trim_end, trim_start,
    views,
};
use vstd::prelude::*;

verus! {

/// The predicate "is whitespace".
pub open spec fn blank() -> spec_fn(char) -> bool {
    |c: char| whitespace(c)
}

/// The textual form of one mapping.
pub open spec fn entry_text(mac: [u8; 6], h: Seq<char>) -> Seq<char> {
    mac_text(mac@) + seq![':'] + h
}

/// The textual forms of the mappings of `m`, in order.
pub open spec fn entry_texts(m: Seq<([u8; 6], Seq<char>)>) -> Seq<Seq<char>> {
    Seq::new(m.len(), |i: int| entry_text(m[i].0, m[i].1))
}

/// The textual form of the registry `m`.
pub open spec fn config_text(m: Seq<([u8; 6], Seq<char>)>) -> Seq<char> {
    join(entry_texts(m), ',')
}

/// The mapping that one entry of a configuration denotes: whitespace around the entry does
/// not count, and what is left must be seven colon-separated fields, the first six of them
/// hexadecimal bytes. The seventh is the raw hostname.
pub open spec fn config_entry(piece: Seq<char>) -> Option<([u8; 6], Seq<char>)> {
    let parts = split(trim(piece, blank()), ':');
    if parts.len() == 7 {
        match mac_of_fields(parts) {
            Some(mac) => Some((mac, parts[6])),
            None => None,
        }
    } else {
        None
    }
}

/// True where the entry `piece` adds a mapping to `m`: it is well-formed and the registry
/// accepts it.
pub open spec fn entry_loads(m: Seq<([u8; 6], Seq<char>)>, piece: Seq<char>) -> bool {
    match config_entry(piece) {
        Some((mac, raw)) => add_outcome(m, mac, raw) is Ok,
        None => false,
    }
}

/// The registry after the entry `piece` has been read: a malformed entry and one that the
/// registry refuses change nothing.
pub open spec fn after_entry(m: Seq<([u8; 6], Seq<char>)>, piece: Seq<char>) -> Seq<
    ([u8; 6], Seq<char>),
> {
    match config_entry(piece) {
        Some((mac, raw)) => after_add(m, mac, raw),
        None => m,
    }
}

/// The registry after the entries `pieces` have been read, in order.
pub open spec fn after_entries(m: Seq<([u8; 6], Seq<char>)>, pieces: Seq<Seq<char>>) -> Seq<
    ([u8; 6], Seq<char>),
>
    decreases pieces.len(),
{
    if pieces.len() == 0 {
        m
    } else {
        after_entries(after_entry(m, pieces[0]), pieces.drop_first())
    }
}

/// How many of the entries `pieces`, read in order, add a mapping.
pub open spec fn loaded_entries(m: Seq<([u8; 6], Seq<char>)>, pieces: Seq<Seq<char>>) -> nat
    decreases pieces.len(),
{
    if pieces.len() == 0 {
        0
    } else {
        (if entry_loads(m, pieces[0]) {
            1nat
        } else {
            0nat
        }) + loaded_entries(after_entry(m, pieces[0]), pieces.drop_first())
    }
}

/// The registry after the configuration `text` has been loaded into `m`.
pub open spec fn after_load(m: Seq<([u8; 6], Seq<char>)>, text: Seq<char>) -> Seq<
    ([u8; 6], Seq<char>),
> {
    after_entries(m, split(text, ','))
}

/// How many entries of the configuration `text` add a mapping to `m`.
pub open spec fn load_count(m: Seq<([u8; 6], Seq<char>)>, text: Seq<char>) -> nat {
    loaded_entries(m, split(text, ','))
}

/// The bounds of `v` without the whitespace at its ends.
pub fn trim_bounds(v: &Vec<char>) -> (r: (usize, usize))
    ensures
        r.0 <= r.1 <= v.len(),
        v@.subrange(r.0 as int, r.1 as int) == trim(v@, blank()),
{
    let n = v.len();
    let mut start: usize = 0;
    while start < n && is_whitespace(v[start])
        invariant
            start <= n,
            n == v.len(),
            forall|j: int| 0 <= j < start ==> blank()(#[trigger] v@[j]),
        decreases n - start,
    {
        start += 1;
    }
    let mut stop: usize = n;
    while stop > start && is_whitespace(v[stop - 1])
        invariant
            start <= stop <= n,
            n == v.len(),
            forall|j: int| stop <= j < n ==> blank()(#[trigger] v@[j]),
        decreases stop,
    {
        stop -= 1;
    }
    proof {
        lemma_trim_start(v@, blank(), start as int);
        let t = v@.skip(start as int);
        assert forall|j: int| stop - start <= j < t.len() implies blank()(#[trigger] t[j]) by {
            assert(t[j] == v@[j + start]);
        }
        lemma_trim_end(t, blank(), stop - start);
        assert(t.take(stop - start) =~= v@.subrange(start as int, stop as int));
    }
    (start, stop)
}

/// Reads one entry of a configuration.
pub fn parse_entry_chars(piece: &Vec<char>) -> (r: Option<([u8; 6], String)>)
    ensures
        match r {
            Some(pair) => config_entry(piece@) == Some((pair.0, pair.1@)),
            None => config_entry(piece@) is None,
        },
{
    let (start, stop) = trim_bounds(piece);
    let parts = split_range(piece, start, stop, ':');
    if parts.len() != 7 {
        return None;
    }
    match parse_mac_fields(&parts) {
        Some(mac) => {
            let hostname = string_of(&parts[6]);
            assert(views(parts@)[6] == parts@[6]@);
            Some((mac, hostname))
        },
        None => None,
    }
}

/// Reads one entry of a configuration, such as `aa:bb:cc:dd:ee:ff:laptop`, and returns its
/// MAC address and its raw hostname. Whitespace around the entry does not count. An entry
/// that is not seven colon-separated fields, or whose first six fields are not all
/// hexadecimal bytes, is refused as `MalformedConfigEntry`.
pub fn parse_config_entry(entry: &str) -> (r: Result<([u8; 6], String), HostnameError>)
    ensures
        match r {
            Ok(pair) => config_entry(entry@) == Some((pair.0, pair.1@)),
            Err(e) => e == HostnameError::MalformedConfigEntry && config_entry(entry@) is None,
        },
{
    let v = chars_of(entry);
    match parse_entry_chars(&v) {
        Some(pair) => Ok(pair),
        None => Err(HostnameError::MalformedConfigEntry),
    }
}

impl MacHostnameConfig {
    /// Loads mappings from a configuration: comma-separated entries, each the six bytes of
    /// a MAC address in hexadecimal and a raw hostname, separated by colons. The entries are
    /// added in order, as `add_mapping` adds them. A malformed entry and one that the
    /// registry refuses are skipped. Returns how many entries added a mapping; loading never
    /// fails as a whole.
    pub fn load_from_config(&mut self, config_str: &str) -> (r: Result<usize, HostnameError>)
        requires
            old(self).wf(),
        ensures
            r == Ok::<usize, HostnameError>(load_count(old(self)@, config_str@) as usize),
            load_count(old(self)@, config_str@) <= usize::MAX,
            final(self)@ == after_load(old(self)@, config_str@),
            final(self).wf(),
    {
        let v = chars_of(config_str);
        let pieces = split_chars(&v, ',');
        let ghost all = views(pieces@);
        let mut loaded: usize = 0;
        let mut i: usize = 0;
        assert(all.skip(0) =~= all);
        while i < pieces.len()
            invariant
                i <= pieces.len(),
                loaded <= i,
                all == views(pieces@),
                self.wf(),
                after_entries(self@, all.skip(i as int)) == after_entries(old(self)@, all),
                loaded + loaded_entries(self@, all.skip(i as int)) == loaded_entries(
                    old(self)@,
                    all,
                ),
            decreases pieces.len() - i,
        {
            assert(all.skip(i as int)[0] == pieces@[i as int]@);
            assert(all.skip(i as int).drop_first() =~= all.skip(i + 1));
            match parse_entry_chars(&pieces[i]) {
                Some((mac, hostname)) => {
                    match self.add_mapping(mac, hostname) {
                        Ok(()) => {
                            loaded += 1;
                        },
                        Err(_) => {},
                    }
                },
                None => {},
            }
            i += 1;
        }
        Ok(loaded)
    }

    /// The textual form of the registry, which `load_from_config` reads: the mappings in
    /// their order, each MAC address in lower-case hexadecimal.
    pub fn export_to_config(&self) -> (r: String)
        ensures
            r@ == config_text(self@),
    {
        let mappings = self.list_mappings();
        let ghost texts = entry_texts(self@);
        let mut out: Vec<char> = Vec::new();
        let mut i: usize = 0;
        assert(texts.take(0) =~= Seq::<Seq<char>>::empty());
        while i < mappings.len()
            invariant
                i <= mappings.len(),
                pairs_of(mappings@) == self@,
                texts == entry_texts(self@),
                out@ == join(texts.take(i as int), ','),
            decreases mappings.len() - i,
        {
            let ghost before = out@;
            assert(self@[i as int] == (mappings@[i as int].0, mappings@[i as int].1@));
            if i > 0 {
                out.push(',');
            }
            let mac_part = mac_chars(&mappings[i].0);
            push_all(&mut out, &mac_part);
            out.push(':');
            push_str(&mut out, mappings[i].1.as_str());
            proof {
                let piece = texts[i as int];
                assert(texts.take(i + 1) =~= texts.take(i as int).push(piece));
                if i > 0 {
                    lemma_join_push(texts.take(i as int), piece, ',');
                    assert(out@ =~= before + seq![','] + piece);
                } else {
                    assert(out@ =~= piece);
                }
            }
            i += 1;
        }
        assert(texts.take(mappings.len() as int) =~= texts);
        string_of(&out)
    }
}

/// The textual form of a mapping with a valid hostname in lower case holds no comma, has no
/// whitespace at its ends, and denotes that mapping.
pub proof fn lemma_entry_text_denotes(mac: [u8; 6], h: Seq<char>)
    requires
        canonical_label(h),
    ensures
        free_of(entry_text(mac, h), ','),
        config_entry(entry_text(mac, h)) == Some((mac, h)),
{
    let pairs = Seq::new(6, |i: int| hex_pair(mac@[i]));
    assert(pairs =~= Seq::new(mac@.len(), |i: int| hex_pair(mac@[i])));
    let parts = pairs.push(h);
    let text = entry_text(mac, h);
    lemma_join_push(pairs, h, ':');
    assert(join(parts, ':') == text);
    assert forall|i: int| 0 <= i < parts.len() implies free_of(#[trigger] parts[i], ':') by {
        if i < 6 {
            lemma_hex_byte_of_pair(mac@[i]);
        } else {
            assert forall|j: int| 0 <= j < h.len() implies #[trigger] h[j] != ':' by {
                assert(label_char(h[j]));
            }
        }
    }
    lemma_split_join(parts, ':');
    lemma_mac_of_pairs(mac, parts);
    // no comma
    assert forall|i: int| 0 <= i < pairs.len() implies free_of(#[trigger] pairs[i], ',') by {
        lemma_hex_byte_of_pair(mac@[i]);
    }
    lemma_join_free_of(pairs, ':', ',');
    assert forall|j: int| 0 <= j < text.len() implies #[trigger] text[j] != ',' by {
        let k = mac_text(mac@).len() as int;
        if j < k {
            assert(text[j] == mac_text(mac@)[j]);
        } else if j == k {
        } else {
            assert(text[j] == h[j - k - 1]);
            assert(label_char(h[j - k - 1]));
        }
    }
    // no whitespace at the ends
    lemma_join_starts_with_first(pairs, ':');
    assert(mac_text(mac@).take(2) == pairs[0]);
    assert(text[0] == mac_text(mac@)[0]);
    assert(mac_text(mac@)[0] == mac_text(mac@).take(2)[0]);
    assert(text[0] == hex_pair(mac@[0])[0]);
    assert(!whitespace(text[0]));
    assert(text.last() == h.last());
    assert(label_char(h.last()));
    assert(!whitespace(text.last()));
    assert(trim_start(text, blank()) == text);
    assert(trim_end(text, blank()) == text);
}

/// Reading the textual forms of the mappings of a well-formed registry from position `k`
/// on, into the registry of the mappings before `k`, rebuilds the registry, and every entry
/// adds a mapping.
pub proof fn lemma_entries_rebuild(m: Seq<([u8; 6], Seq<char>)>, k: int)
    requires
        well_formed(m),
        0 <= k <= m.len(),
    ensures
        after_entries(m.take(k), entry_texts(m).skip(k)) == m,
        loaded_entries(m.take(k), entry_texts(m).skip(k)) == m.len() - k,
    decreases m.len() - k,
{
    let pieces = entry_texts(m).skip(k);
    let before = m.take(k);
    if k == m.len() {
        assert(m.take(k) =~= m);
    } else {
        let mac = m[k].0;
        let h = m[k].1;
        assert(pieces[0] == entry_text(mac, h));
        lemma_entry_text_denotes(mac, h);
        lemma_sanitize_keeps_canonical(h);
        assert(!has_hostname(before, h)) by {
            if has_hostname(before, h) {
                let i = index_of_hostname(before, h);
                assert(before[i] == m[i]);
            }
        }
        assert(!has_mac(before, mac)) by {
            if has_mac(before, mac) {
                let i = index_of_mac(before, mac);
                assert(before[i] == m[i]);
            }
        }
        assert(add_outcome(before, mac, h) is Ok);
        assert(after_entry(before, pieces[0]) =~= m.take(k + 1));
        assert(pieces.drop_first() =~= entry_texts(m).skip(k + 1));
        lemma_entries_rebuild(m, k + 1);
    }
}

/// Loading what a well-formed registry exports into an empty registry rebuilds it: the
/// same mappings in the same order, each entry counted.
pub proof fn lemma_load_exported(m: Seq<([u8; 6], Seq<char>)>)
    requires
        well_formed(m),
    ensures
        after_load(Seq::<([u8; 6], Seq<char>)>::empty(), config_text(m)) == m,
        load_count(Seq::<([u8; 6], Seq<char>)>::empty(), config_text(m)) == m.len(),
{
    let none = Seq::<([u8; 6], Seq<char>)>::empty();
    let texts = entry_texts(m);
    if m.len() == 0 {
        let text = config_text(m);
        assert(text.len() == 0);
        assert(split(text, ',') =~= seq![text]);
        assert(trim(text, blank()) == text);
        assert(split(text, ':') =~= seq![text]);
        assert(config_entry(text) is None);
        let pieces = split(text, ',');
        assert(pieces.drop_first().len() == 0);
        assert(after_entry(none, pieces[0]) == none);
        assert(after_entries(none, pieces.drop_first()) == none);
        assert(loaded_entries(none, pieces.drop_first()) == 0);
        assert(after_entries(none, pieces) == none);
        assert(loaded_entries(none, pieces) == 0);
        assert(m =~= none);
    } else {
        assert forall|i: int| 0 <= i < texts.len() implies free_of(#[trigger] texts[i], ',') by {
            lemma_entry_text_denotes(m[i].0, m[i].1);
        }
        lemma_split_join(texts, ',');
        assert(split(config_text(m), ',') == texts);
        assert(m.take(0) =~= none);
        assert(texts.skip(0) =~= texts);
        lemma_entries_rebuild(m, 0);
    }
}

/// Reading the textual forms of the mappings of a well-formed registry from position `k`
/// on, into that registry itself, changes nothing, and every entry counts.
pub proof fn lemma_entries_are_kept(m: Seq<([u8; 6], Seq<char>)>, k: int)
    requires
        well_formed(m),
        0 <= k <= m.len(),
    ensures
        after_entries(m, entry_texts(m).skip(k)) == m,
        loaded_entries(m, entry_texts(m).skip(k)) == m.len() - k,
    decreases m.len() - k,
{
    let pieces = entry_texts(m).skip(k);
    if k < m.len() {
        let mac = m[k].0;
        let h = m[k].1;
        assert(pieces[0] == entry_text(mac, h));
        lemma_entry_text_denotes(mac, h);
        lemma_sanitize_keeps_canonical(h);
        lemma_lookup_at(m, k);
        assert(add_outcome(m, mac, h) is Ok);
        assert(after_entry(m, pieces[0]) =~= m);
        assert(pieces.drop_first() =~= entry_texts(m).skip(k + 1));
        lemma_entries_are_kept(m, k + 1);
    }
}

/// Loading what a well-formed registry exports into that registry itself changes nothing:
/// every entry is accepted as an addition that is already there.
pub proof fn lemma_load_own_export(m: Seq<([u8; 6], Seq<char>)>)
    requires
        well_formed(m),
        m.len() > 0,
    ensures
        after_load(m, config_text(m)) == m,
        load_count(m, config_text(m)) == m.len(),
{
    let texts = entry_texts(m);
    assert forall|i: int| 0 <= i < texts.len() implies free_of(#[trigger] texts[i], ',') by {
        lemma_entry_text_denotes(m[i].0, m[i].1);
    }
    lemma_split_join(texts, ',');
    assert(texts.skip(0) =~= texts);
    lemma_entries_are_kept(m, 0);
}

/// The line that shows one mapping: two spaces, the MAC address, an arrow and the hostname
/// in the local domain.
pub open spec fn mapping_line(mac: [u8; 6], h: Seq<char>) -> Seq<char> {
    "  "@ + mac_text(mac@) + " -> "@ + h + ".local"@
}

/// The lines that report the mappings of a registry: one line that says that there are
/// none, or a heading with their number and a line for each.
pub open spec fn mapping_lines(m: Seq<([u8; 6], Seq<char>)>) -> Seq<Seq<char>> {
    if m.len() == 0 {
        seq!["No static MAC hostname mappings configured"@]
    } else {
        seq!["Static MAC hostname mappings ("@ + decimal(m.len()) + "):"@] + Seq::new(
            m.len(),
            |i: int| mapping_line(m[i].0, m[i].1),
        )
    }
}

impl MacHostnameConfig {
    /// The lines that report the mappings of the registry, for a caller to print.
    pub fn print_mappings(&self) -> (r: Vec<String>)
        ensures
            string_views(r@) == mapping_lines(self@),
    {
        let mappings = self.list_mappings();
        assert(pairs_of(mappings@).len() == mappings@.len());
        let mut r: Vec<String> = Vec::new();
        if mappings.len() == 0 {
            r.push(string_of(&chars_of("No static MAC hostname mappings configured")));
            assert(string_views(r@) =~= mapping_lines(self@));
            return r;
        }
        let mut head: Vec<char> = Vec::new();
        push_str(&mut head, "Static MAC hostname mappings (");
        push_decimal(&mut head, mappings.len());
        push_str(&mut head, "):");
        assert(head@ =~= "Static MAC hostname mappings ("@ + decimal(self@.len()) + "):"@);
        r.push(string_of(&head));
        let mut i: usize = 0;
        while i < mappings.len()
            invariant
                i <= mappings.len(),
                mappings.len() == self@.len(),
                pairs_of(mappings@) == self@,
                r.len() == i + 1,
                r@[0]@ == "Static MAC hostname mappings ("@ + decimal(self@.len()) + "):"@,
                forall|j: int|
                    0 <= j < i ==> (#[trigger] r@[j + 1])@ == mapping_line(self@[j].0, self@[j].1),
            decreases mappings.len() - i,
        {
            assert(self@[i as int] == (mappings@[i as int].0, mappings@[i as int].1@));
            let mut line: Vec<char> = Vec::new();
            push_str(&mut line, "  ");
            push_all(&mut line, &mac_chars(&mappings[i].0));
            push_str(&mut line, " -> ");
            push_str(&mut line, mappings[i].1.as_str());
            push_str(&mut line, ".local");
            assert(line@ =~= mapping_line(self@[i as int].0, self@[i as int].1));
            r.push(string_of(&line));
            i += 1;
        }
        assert forall|j: int| 0 <= j < r@.len() implies #[trigger] r@[j]@ == mapping_lines(
            self@,
        )[j] by {
            if j > 0 {
                assert(r@[(j - 1) + 1]@ == mapping_line(self@[j - 1].0, self@[j - 1].1));
            }
        }
        assert(string_views(r@) =~= mapping_lines(self@));
        r
    }
}

} // verus!
