//! The registry of static mappings between MAC addresses and hostnames.
//!
//! A registry is a list of pairs, in the order in which the devices were first added. No MAC
//! address and no hostname occurs twice in it, and every hostname is a valid label in lower
//! case. Looking a hostname up by its MAC address and a MAC address up by its hostname are
//! therefore inverse to each other.

use crate::error::HostnameError;
use crate::mac::{parse_mac, parsed_mac};
use crate::hostname::{
    canonical_label, is_valid, lemma_sanitize_keeps_canonical,
    lemma_valid_sanitized_is_canonical, sanitize_local, sanitized_local, valid_label,
};
use vstd::prelude::*;

verus! {

/// `m` holds a pair for the MAC address `mac`.
pub open spec fn has_mac(m: Seq<([u8; 6], Seq<char>)>, mac: [u8; 6]) -> bool {
    exists|i: int| 0 <= i < m.len() && (#[trigger] m[i]).0 == mac
}

/// `m` holds a pair for the hostname `h`.
pub open spec fn has_hostname(m: Seq<([u8; 6], Seq<char>)>, h: Seq<char>) -> bool {
    exists|i: int| 0 <= i < m.len() && (#[trigger] m[i]).1 == h
}

/// The position of a pair for the MAC address `mac`.
pub open spec fn index_of_mac(m: Seq<([u8; 6], Seq<char>)>, mac: [u8; 6]) -> int {
    choose|i: int| 0 <= i < m.len() && (#[trigger] m[i]).0 == mac
}

/// The position of a pair for the hostname `h`.
pub open spec fn index_of_hostname(m: Seq<([u8; 6], Seq<char>)>, h: Seq<char>) -> int {
    choose|i: int| 0 <= i < m.len() && (#[trigger] m[i]).1 == h
}

/// The forward lookup: the hostname mapped to `mac`.
pub open spec fn hostname_of(m: Seq<([u8; 6], Seq<char>)>, mac: [u8; 6]) -> Option<Seq<char>> {
    if has_mac(m, mac) {
        Some(m[index_of_mac(m, mac)].1)
    } else {
        None
    }
}

/// The reverse lookup: the MAC address for which `h` is reserved.
pub open spec fn mac_of(m: Seq<([u8; 6], Seq<char>)>, h: Seq<char>) -> Option<[u8; 6]> {
    if has_hostname(m, h) {
        Some(m[index_of_hostname(m, h)].0)
    } else {
        None
    }
}

/// The invariant of a registry: every hostname is a valid label in lower case, and neither a
/// MAC address nor a hostname occurs twice.
pub open spec fn well_formed(m: Seq<([u8; 6], Seq<char>)>) -> bool {
    &&& forall|i: int| 0 <= i < m.len() ==> canonical_label((#[trigger] m[i]).1)
    &&& forall|i: int, j: int|
        0 <= i < m.len() && 0 <= j < m.len() && i != j ==> (#[trigger] m[i]).0 != (
        #[trigger] m[j]).0
    &&& forall|i: int, j: int|
        0 <= i < m.len() && 0 <= j < m.len() && i != j ==> (#[trigger] m[i]).1 != (
        #[trigger] m[j]).1
}

/// How adding the raw hostname `raw` for `mac` ends: the sanitized hostname must be a valid
/// label, and must not be reserved for another MAC address.
pub open spec fn add_outcome(m: Seq<([u8; 6], Seq<char>)>, mac: [u8; 6], raw: Seq<char>) -> Result<
    (),
    HostnameError,
> {
    let h = sanitized_local(raw);
    if !valid_label(h) {
        Err(HostnameError::InvalidHostname)
    } else if has_hostname(m, h) && mac_of(m, h) != Some(mac) {
        Err(HostnameError::HostnameConflict { holder: mac_of(m, h)->0 })
    } else {
        Ok(())
    }
}

/// `m` with `h` as the hostname of `mac`: a device that is already there keeps its place and
/// gives up its earlier hostname, a new one goes to the end.
pub open spec fn with_mapping(m: Seq<([u8; 6], Seq<char>)>, mac: [u8; 6], h: Seq<char>) -> Seq<
    ([u8; 6], Seq<char>),
> {
    if has_mac(m, mac) {
        m.update(index_of_mac(m, mac), (mac, h))
    } else {
        m.push((mac, h))
    }
}

/// The registry after the attempt to add the raw hostname `raw` for `mac`: a refused
/// addition changes nothing.
pub open spec fn after_add(m: Seq<([u8; 6], Seq<char>)>, mac: [u8; 6], raw: Seq<char>) -> Seq<
    ([u8; 6], Seq<char>),
> {
    if add_outcome(m, mac, raw) is Ok {
        with_mapping(m, mac, sanitized_local(raw))
    } else {
        m
    }
}

/// `m` without the pair for `mac`.
pub open spec fn without_mac(m: Seq<([u8; 6], Seq<char>)>, mac: [u8; 6]) -> Seq<
    ([u8; 6], Seq<char>),
> {
    if has_mac(m, mac) {
        m.remove(index_of_mac(m, mac))
    } else {
        m
    }
}

/// The registry after the attempts to add each of `items`, in order.
pub open spec fn after_add_all(
    m: Seq<([u8; 6], Seq<char>)>,
    items: Seq<([u8; 6], Seq<char>)>,
) -> Seq<([u8; 6], Seq<char>)>
    decreases items.len(),
{
    if items.len() == 0 {
        m
    } else {
        after_add_all(after_add(m, items[0].0, items[0].1), items.drop_first())
    }
}

/// The view of an optional string.
pub open spec fn text_of(o: Option<String>) -> Option<Seq<char>> {
    match o {
        Some(s) => Some(s@),
        None => None,
    }
}

/// The pairs of a list of mappings, each hostname by its view.
pub open spec fn pairs_of(v: Seq<([u8; 6], String)>) -> Seq<([u8; 6], Seq<char>)> {
    Seq::new(v.len(), |i: int| (v[i].0, v[i].1@))
}

/// In a well-formed registry the pair at position `i` is the one that both lookups find.
pub proof fn lemma_lookup_at(m: Seq<([u8; 6], Seq<char>)>, i: int)
    requires
        well_formed(m),
        0 <= i < m.len(),
    ensures
        has_mac(m, m[i].0),
        index_of_mac(m, m[i].0) == i,
        hostname_of(m, m[i].0) == Some(m[i].1),
        has_hostname(m, m[i].1),
        index_of_hostname(m, m[i].1) == i,
        mac_of(m, m[i].1) == Some(m[i].0),
{
    assert(has_mac(m, m[i].0));
    assert(has_hostname(m, m[i].1));
}

/// Adding keeps a registry well-formed.
pub proof fn lemma_add_keeps_well_formed(m: Seq<([u8; 6], Seq<char>)>, mac: [u8; 6], raw: Seq<char>)
    requires
        well_formed(m),
    ensures
        well_formed(after_add(m, mac, raw)),
{
    let h = sanitized_local(raw);
    let n = after_add(m, mac, raw);
    if add_outcome(m, mac, raw) is Ok {
        lemma_valid_sanitized_is_canonical(raw);
        if has_hostname(m, h) {
            lemma_lookup_at(m, index_of_hostname(m, h));
        }
        if has_mac(m, mac) {
            let k = index_of_mac(m, mac);
            lemma_lookup_at(m, k);
            assert forall|i: int, j: int|
                0 <= i < n.len() && 0 <= j < n.len() && i != j implies (#[trigger] n[i]).1 != (
            #[trigger] n[j]).1 by {
                if i == k {
                    if m[j].1 == h {
                        lemma_lookup_at(m, j);
                    }
                } else if j == k {
                    if m[i].1 == h {
                        lemma_lookup_at(m, i);
                    }
                }
            }
            assert(well_formed(n));
        } else {
            assert forall|i: int, j: int|
                0 <= i < n.len() && 0 <= j < n.len() && i != j implies (#[trigger] n[i]).1 != (
            #[trigger] n[j]).1 by {
                if i == m.len() {
                    if m[j].1 == h {
                        lemma_lookup_at(m, j);
                    }
                } else if j == m.len() {
                    if m[i].1 == h {
                        lemma_lookup_at(m, i);
                    }
                }
            }
            assert forall|i: int, j: int|
                0 <= i < n.len() && 0 <= j < n.len() && i != j implies (#[trigger] n[i]).0 != (
            #[trigger] n[j]).0 by {
                if i == m.len() {
                    assert(m[j].0 != mac);
                } else if j == m.len() {
                    assert(m[i].0 != mac);
                }
            }
            assert(well_formed(n));
        }
    }
}

/// Removing keeps a registry well-formed.
pub proof fn lemma_remove_keeps_well_formed(m: Seq<([u8; 6], Seq<char>)>, mac: [u8; 6])
    requires
        well_formed(m),
    ensures
        well_formed(without_mac(m, mac)),
        !has_mac(without_mac(m, mac), mac),
{
    let n = without_mac(m, mac);
    if has_mac(m, mac) {
        let k = index_of_mac(m, mac);
        assert forall|i: int| 0 <= i < n.len() implies #[trigger] n[i] == m[if i < k {
            i
        } else {
            i + 1
        }] by {}
        assert(well_formed(n));
        assert(!has_mac(n, mac));
    }
}

/// True where the two MAC addresses are the same.
pub fn same_mac(a: &[u8; 6], b: &[u8; 6]) -> (r: bool)
    ensures
        r == (*a == *b),
{
    let r = a[0] == b[0] && a[1] == b[1] && a[2] == b[2] && a[3] == b[3] && a[4] == b[4] && a[5]
        == b[5];
    if r {
        assert(*a =~= *b);
    }
    r
}

/// One static mapping.
struct Mapping {
    mac: [u8; 6],
    hostname: String,
}

/// The registry of static mappings between MAC addresses and hostnames.
pub struct MacHostnameConfig {
    mappings: Vec<Mapping>,
}

impl MacHostnameConfig {
    /// The pairs of the registry, in the order in which the devices were first added.
    pub closed spec fn view(&self) -> Seq<([u8; 6], Seq<char>)> {
        Seq::new(
            self.mappings@.len(),
            |i: int| (self.mappings@[i].mac, self.mappings@[i].hostname@),
        )
    }

    /// The registry is well-formed. Every constructor establishes this and every method
    /// keeps it.
    pub open spec fn wf(&self) -> bool {
        well_formed(self@)
    }

    /// Creates an empty registry.
    pub fn new() -> (r: Self)
        ensures
            r@ == Seq::<([u8; 6], Seq<char>)>::empty(),
            r.wf(),
    {
        let r = MacHostnameConfig { mappings: Vec::new() };
        assert(r@ =~= Seq::<([u8; 6], Seq<char>)>::empty());
        r
    }

    /// Creates a registry from predefined mappings, added in order as `add_mapping` adds
    /// them: a hostname is sanitized, and a mapping that `add_mapping` would refuse is left
    /// out.
    pub fn with_mappings(mappings: Vec<([u8; 6], String)>) -> (r: Self)
        ensures
            r@ == after_add_all(Seq::<([u8; 6], Seq<char>)>::empty(), pairs_of(mappings@)),
            r.wf(),
    {
        let mut r = MacHostnameConfig::new();
        let ghost items = pairs_of(mappings@);
        let mut i: usize = 0;
        assert(items.skip(0) =~= items);
        while i < mappings.len()
            invariant
                i <= mappings.len(),
                items == pairs_of(mappings@),
                r.wf(),
                after_add_all(r@, items.skip(i as int)) == after_add_all(
                    Seq::<([u8; 6], Seq<char>)>::empty(),
                    items,
                ),
            decreases mappings.len() - i,
        {
            let mac = mappings[i].0;
            let hostname = mappings[i].1.clone();
            assert(items.skip(i as int)[0] == (mac, hostname@));
            assert(items.skip(i as int).drop_first() =~= items.skip(i + 1));
            let _ = r.add_mapping(mac, hostname);
            i += 1;
        }
        r
    }

    /// The position of the mapping for `mac`.
    fn position_of_mac(&self, mac: &[u8; 6]) -> (r: Option<usize>)
        ensures
            match r {
                Some(i) => i < self@.len() && self@[i as int].0 == *mac,
                None => !has_mac(self@, *mac),
            },
    {
        let mut i: usize = 0;
        while i < self.mappings.len()
            invariant
                i <= self.mappings.len(),
                forall|j: int| 0 <= j < i ==> (#[trigger] self@[j]).0 != *mac,
            decreases self.mappings.len() - i,
        {
            if same_mac(&self.mappings[i].mac, mac) {
                assert(self@[i as int].0 == *mac);
                return Some(i);
            }
            i += 1;
        }
        None
    }

    /// The position of the mapping for the hostname `h`.
    fn position_of_hostname(&self, h: &String) -> (r: Option<usize>)
        ensures
            match r {
                Some(i) => i < self@.len() && self@[i as int].1 == h@,
                None => !has_hostname(self@, h@),
            },
    {
        let mut i: usize = 0;
        while i < self.mappings.len()
            invariant
                i <= self.mappings.len(),
                forall|j: int| 0 <= j < i ==> (#[trigger] self@[j]).1 != h@,
            decreases self.mappings.len() - i,
        {
            if self.mappings[i].hostname == *h {
                assert(self@[i as int].1 == h@);
                return Some(i);
            }
            i += 1;
        }
        None
    }

    /// Adds a static mapping. The hostname is sanitized first. The addition is refused with
    /// `InvalidHostname` where the sanitized hostname is no valid label, and with
    /// `HostnameConflict` where it is reserved for another MAC address; the registry is then
    /// unchanged. Otherwise the hostname is reserved for `mac`, in place of the hostname
    /// that `mac` had before, if any.
    pub fn add_mapping(&mut self, mac: [u8; 6], hostname: String) -> (r: Result<(), HostnameError>)
        requires
            old(self).wf(),
        ensures
            r == add_outcome(old(self)@, mac, hostname@),
            final(self)@ == after_add(old(self)@, mac, hostname@),
            final(self).wf(),
    {
        proof {
            lemma_add_keeps_well_formed(self@, mac, hostname@);
        }
        let clean = sanitize_local(hostname.as_str());
        if !is_valid(clean.as_str()) {
            return Err(HostnameError::InvalidHostname);
        }
        match self.position_of_hostname(&clean) {
            Some(j) => {
                proof {
                    lemma_lookup_at(self@, j as int);
                }
                if !same_mac(&self.mappings[j].mac, &mac) {
                    return Err(HostnameError::HostnameConflict { holder: self.mappings[j].mac });
                }
            },
            None => {},
        }
        match self.position_of_mac(&mac) {
            Some(i) => {
                proof {
                    lemma_lookup_at(self@, i as int);
                }
                self.mappings.set(i, Mapping { mac, hostname: clean });
                assert(self@ =~= old(self)@.update(i as int, (mac, clean@)));
            },
            None => {
                self.mappings.push(Mapping { mac, hostname: clean });
                assert(self@ =~= old(self)@.push((mac, clean@)));
            },
        }
        Ok(())
    }

    /// Removes the mapping of `mac` and returns its hostname, which is free again.
    pub fn remove_mapping(&mut self, mac: [u8; 6]) -> (r: Option<String>)
        requires
            old(self).wf(),
        ensures
            text_of(r) == hostname_of(old(self)@, mac),
            final(self)@ == without_mac(old(self)@, mac),
            final(self).wf(),
    {
        proof {
            lemma_remove_keeps_well_formed(self@, mac);
        }
        match self.position_of_mac(&mac) {
            Some(i) => {
                proof {
                    lemma_lookup_at(self@, i as int);
                }
                let gone = self.mappings.remove(i);
                assert(self@ =~= old(self)@.remove(i as int));
                Some(gone.hostname)
            },
            None => None,
        }
    }

    /// The hostname mapped to `mac`.
    pub fn get_hostname(&self, mac: [u8; 6]) -> (r: Option<String>)
        requires
            self.wf(),
        ensures
            text_of(r) == hostname_of(self@, mac),
    {
        match self.position_of_mac(&mac) {
            Some(i) => {
                proof {
                    lemma_lookup_at(self@, i as int);
                }
                Some(self.mappings[i].hostname.clone())
            },
            None => None,
        }
    }

    /// The MAC address for which `hostname`, once sanitized, is reserved.
    pub fn get_mac(&self, hostname: &str) -> (r: Option<[u8; 6]>)
        requires
            self.wf(),
        ensures
            r == mac_of(self@, sanitized_local(hostname@)),
    {
        let clean = sanitize_local(hostname);
        match self.position_of_hostname(&clean) {
            Some(i) => {
                proof {
                    lemma_lookup_at(self@, i as int);
                }
                Some(self.mappings[i].mac)
            },
            None => None,
        }
    }

    /// True where `hostname`, once sanitized, is reserved.
    pub fn is_hostname_reserved(&self, hostname: &str) -> (r: bool)
        ensures
            r == has_hostname(self@, sanitized_local(hostname@)),
    {
        let clean = sanitize_local(hostname);
        self.position_of_hostname(&clean).is_some()
    }

    /// True where `mac` has a static mapping.
    pub fn has_static_mapping(&self, mac: [u8; 6]) -> (r: bool)
        ensures
            r == has_mac(self@, mac),
    {
        self.position_of_mac(&mac).is_some()
    }

    /// All static mappings, in the order in which the devices were first added.
    pub fn list_mappings(&self) -> (r: Vec<([u8; 6], String)>)
        ensures
            pairs_of(r@) == self@,
    {
        let mut r: Vec<([u8; 6], String)> = Vec::new();
        let mut i: usize = 0;
        while i < self.mappings.len()
            invariant
                i <= self.mappings.len(),
                r.len() == i,
                forall|j: int| 0 <= j < i ==> (#[trigger] r@[j]).0 == self@[j].0 && r@[j].1@ == self@[j].1,
            decreases self.mappings.len() - i,
        {
            r.push((self.mappings[i].mac, self.mappings[i].hostname.clone()));
            i += 1;
        }
        assert(pairs_of(r@) =~= self@);
        r
    }

    /// The number of static mappings.
    pub fn mapping_count(&self) -> (r: usize)
        ensures
            r == self@.len(),
    {
        self.mappings.len()
    }

    /// Removes every mapping.
    pub fn clear_mappings(&mut self)
        ensures
            final(self)@ == Seq::<([u8; 6], Seq<char>)>::empty(),
            final(self).wf(),
    {
        self.mappings.clear();
        assert(self@ =~= Seq::<([u8; 6], Seq<char>)>::empty());
    }

    /// Turns arbitrary text into a label, as the registry does before it stores or looks up
    /// a hostname: see `sanitize_local`.
    pub fn sanitize_hostname(hostname: &str) -> (r: String)
        ensures
            r@ == sanitized_local(hostname@),
    {
        sanitize_local(hostname)
    }

    /// The single-label rule: see `is_valid`.
    pub fn is_valid_hostname(hostname: &str) -> (r: bool)
        ensures
            r == valid_label(hostname@),
    {
        is_valid(hostname)
    }
}

/// The two lookups of a well-formed registry are inverse to each other: `h` is the hostname
/// of `mac` exactly where `h` is reserved for `mac`.
pub proof fn lemma_lookups_are_inverse(m: Seq<([u8; 6], Seq<char>)>, mac: [u8; 6], h: Seq<char>)
    requires
        well_formed(m),
    ensures
        hostname_of(m, mac) == Some(h) <==> mac_of(m, h) == Some(mac),
{
    if has_mac(m, mac) {
        lemma_lookup_at(m, index_of_mac(m, mac));
    }
    if has_hostname(m, h) {
        lemma_lookup_at(m, index_of_hostname(m, h));
    }
}

/// After a successful addition both lookups find the new mapping, under the sanitized
/// hostname.
pub proof fn lemma_added_mapping_is_found(m: Seq<([u8; 6], Seq<char>)>, mac: [u8; 6], raw: Seq<char>)
    requires
        well_formed(m),
        add_outcome(m, mac, raw) is Ok,
    ensures
        hostname_of(after_add(m, mac, raw), mac) == Some(sanitized_local(raw)),
        mac_of(after_add(m, mac, raw), sanitized_local(raw)) == Some(mac),
{
    let n = after_add(m, mac, raw);
    lemma_add_keeps_well_formed(m, mac, raw);
    if has_mac(m, mac) {
        lemma_lookup_at(n, index_of_mac(m, mac));
    } else {
        lemma_lookup_at(n, m.len() as int);
    }
}

/// A valid hostname in lower case that no other device holds can be added for `mac`, and
/// is then what the forward lookup returns for `mac`, while the reverse lookup returns `mac`
/// for it.
pub proof fn lemma_add_then_lookup(m: Seq<([u8; 6], Seq<char>)>, mac: [u8; 6], h: Seq<char>)
    requires
        well_formed(m),
        canonical_label(h),
        mac_of(m, h) is None || mac_of(m, h) == Some(mac),
    ensures
        add_outcome(m, mac, h) == Ok::<(), HostnameError>(()),
        hostname_of(after_add(m, mac, h), mac) == Some(h),
        mac_of(after_add(m, mac, h), h) == Some(mac),
{
    lemma_sanitize_keeps_canonical(h);
    lemma_added_mapping_is_found(m, mac, h);
}

/// Adding a mapping for one device leaves the hostname of every other device as it was.
pub proof fn lemma_add_keeps_other_devices(
    m: Seq<([u8; 6], Seq<char>)>,
    mac: [u8; 6],
    raw: Seq<char>,
    other: [u8; 6],
)
    requires
        well_formed(m),
        other != mac,
    ensures
        hostname_of(after_add(m, mac, raw), other) == hostname_of(m, other),
{
    let n = after_add(m, mac, raw);
    lemma_add_keeps_well_formed(m, mac, raw);
    if add_outcome(m, mac, raw) is Ok {
        if has_mac(m, other) {
            let k = index_of_mac(m, other);
            lemma_lookup_at(m, k);
            assert(n[k] == m[k]);
            lemma_lookup_at(n, k);
        } else if has_mac(n, other) {
            let k = index_of_mac(n, other);
            assert(k < m.len() ==> n[k].0 == m[k].0);
        }
    }
}

/// Once a hostname has been added for one device, adding it for another is refused as a
/// conflict that names the first device, and the registry still maps the two to each other.
pub proof fn lemma_conflict_is_refused(
    m: Seq<([u8; 6], Seq<char>)>,
    first: [u8; 6],
    second: [u8; 6],
    raw: Seq<char>,
)
    requires
        well_formed(m),
        add_outcome(m, first, raw) is Ok,
        first != second,
    ensures
        add_outcome(after_add(m, first, raw), second, raw) == Err::<(), HostnameError>(
            HostnameError::HostnameConflict { holder: first },
        ),
        after_add(after_add(m, first, raw), second, raw) == after_add(m, first, raw),
        hostname_of(after_add(m, first, raw), first) == Some(sanitized_local(raw)),
        mac_of(after_add(m, first, raw), sanitized_local(raw)) == Some(first),
{
    lemma_added_mapping_is_found(m, first, raw);
}

/// No MAC address occurs twice in `m`.
pub open spec fn unique_macs(m: Seq<([u8; 6], Seq<char>)>) -> bool {
    forall|i: int, j: int|
        0 <= i < m.len() && 0 <= j < m.len() && i != j ==> (#[trigger] m[i]).0 != (
        #[trigger] m[j]).0
}

/// Adding the mappings of a well-formed list to a registry that holds its first `k`
/// mappings rebuilds the list.
pub proof fn lemma_add_all_rebuilds(m: Seq<([u8; 6], Seq<char>)>, k: int)
    requires
        well_formed(m),
        0 <= k <= m.len(),
    ensures
        after_add_all(m.take(k), m.skip(k)) == m,
    decreases m.len() - k,
{
    let before = m.take(k);
    let items = m.skip(k);
    if k == m.len() {
        assert(m.take(k) =~= m);
    } else {
        let mac = m[k].0;
        let h = m[k].1;
        assert(items[0] == m[k]);
        lemma_sanitize_keeps_canonical(h);
        assert(!has_hostname(before, h)) by {
            if has_hostname(before, h) {
                let i = index_of_hostname(before, h);
                assert(before[i] == m[i]);
            }
        }
        assert(!has_mac(before, mac)) by {
            if has_mac(before, mac) {
                let i = index_of_mac(before, mac);
                assert(before[i] == m[i]);
            }
        }
        assert(after_add(before, mac, h) =~= m.take(k + 1));
        assert(items.drop_first() =~= m.skip(k + 1));
        lemma_add_all_rebuilds(m, k + 1);
    }
}

/// A registry made from a well-formed list of mappings holds exactly that list.
pub proof fn lemma_well_formed_list_is_kept(m: Seq<([u8; 6], Seq<char>)>)
    requires
        well_formed(m),
    ensures
        after_add_all(Seq::<([u8; 6], Seq<char>)>::empty(), m) == m,
{
    lemma_add_all_rebuilds(m, 0);
    assert(m.take(0) =~= Seq::<([u8; 6], Seq<char>)>::empty());
    assert(m.skip(0) =~= m);
}

/// Collects static mappings, one for each MAC address, and builds a registry from them.
pub struct StaticMappingsBuilder {
    mappings: Vec<([u8; 6], String)>,
}

impl StaticMappingsBuilder {
    /// The mappings collected so far, in the order in which the devices were first added.
    pub closed spec fn view(&self) -> Seq<([u8; 6], Seq<char>)> {
        pairs_of(self.mappings@)
    }

    /// No MAC address occurs twice. The constructor establishes this and every method
    /// keeps it.
    pub open spec fn wf(&self) -> bool {
        unique_macs(self@)
    }

    /// Creates a builder without mappings.
    pub fn new() -> (r: Self)
        ensures
            r@ == Seq::<([u8; 6], Seq<char>)>::empty(),
            r.wf(),
    {
        let r = StaticMappingsBuilder { mappings: Vec::new() };
        assert(r@ =~= Seq::<([u8; 6], Seq<char>)>::empty());
        r
    }

    /// Adds a mapping for the MAC address that `mac_str` denotes. The text is refused with
    /// `InvalidMacAddress` where it denotes none; then the hostname is handled as `add_mac`
    /// handles it.
    pub fn add(self, mac_str: &str, hostname: &str) -> (r: Result<Self, HostnameError>)
        requires
            self.wf(),
        ensures
            match r {
                Ok(b) => parsed_mac(mac_str@) is Some && valid_label(sanitized_local(hostname@))
                    && b@ == with_mapping(
                    self@,
                    parsed_mac(mac_str@)->0,
                    sanitized_local(hostname@),
                ) && b.wf(),
                Err(e) => e == (if parsed_mac(mac_str@) is None {
                    HostnameError::InvalidMacAddress
                } else {
                    HostnameError::InvalidHostname
                }) && (parsed_mac(mac_str@) is None || !valid_label(sanitized_local(hostname@))),
            },
    {
        match parse_mac(mac_str) {
            Ok(mac) => self.add_mac(mac, hostname),
            Err(e) => Err(e),
        }
    }

    /// Adds a mapping for `mac`. The hostname is sanitized, and refused with
    /// `InvalidHostname` where the result is no valid label. A device that has a mapping
    /// already gets the new hostname in its place. Conflicts between devices are left to
    /// `build`.
    pub fn add_mac(self, mac: [u8; 6], hostname: &str) -> (r: Result<Self, HostnameError>)
        requires
            self.wf(),
        ensures
            match r {
                Ok(b) => valid_label(sanitized_local(hostname@)) && b@ == with_mapping(
                    self@,
                    mac,
                    sanitized_local(hostname@),
                ) && b.wf(),
                Err(e) => e == HostnameError::InvalidHostname && !valid_label(
                    sanitized_local(hostname@),
                ),
            },
    {
        let clean = sanitize_local(hostname);
        if !is_valid(clean.as_str()) {
            return Err(HostnameError::InvalidHostname);
        }
        let mut b = self;
        let ghost before = b@;
        let mut i: usize = 0;
        while i < b.mappings.len()
            invariant
                i <= b.mappings.len(),
                b@ == before,
                before == self@,
                clean@ == sanitized_local(hostname@),
                valid_label(clean@),
                b.wf(),
                forall|j: int| 0 <= j < i ==> (#[trigger] before[j]).0 != mac,
            decreases b.mappings.len() - i,
        {
            if same_mac(&b.mappings[i].0, &mac) {
                assert(before[i as int].0 == mac);
                assert(has_mac(before, mac));
                assert(index_of_mac(before, mac) == i);
                b.mappings.set(i, (mac, clean));
                assert(b@ =~= before.update(i as int, (mac, clean@)));
                return Ok(b);
            }
            i += 1;
        }
        b.mappings.push((mac, clean));
        assert(b@ =~= before.push((mac, clean@)));
        assert(b.wf()) by {
            let n = b@;
            assert forall|i: int, j: int|
                0 <= i < n.len() && 0 <= j < n.len() && i != j implies (#[trigger] n[i]).0 != (
            #[trigger] n[j]).0 by {
                if i == before.len() {
                    assert(before[j].0 != mac);
                } else if j == before.len() {
                    assert(before[i].0 != mac);
                }
            }
        }
        Ok(b)
    }

    /// Builds the registry: the mappings are added in order, as `add_mapping` adds them, so
    /// a hostname that an earlier device holds is not given to a later one.
    pub fn build(self) -> (r: MacHostnameConfig)
        ensures
            r@ == after_add_all(Seq::<([u8; 6], Seq<char>)>::empty(), self@),
            r.wf(),
    {
        MacHostnameConfig::with_mappings(self.mappings)
    }
}

/// The mappings of the example registry: five devices of a household.
pub open spec fn example_mappings() -> Seq<([u8; 6], Seq<char>)> {
    seq![
        ([0xaau8, 0xbbu8, 0xccu8, 0xddu8, 0xeeu8, 0xffu8], "my-laptop"@),
        ([0x11u8, 0x22u8, 0x33u8, 0x44u8, 0x55u8, 0x66u8], "raspberry-pi"@),
        ([0x77u8, 0x88u8, 0x99u8, 0xaau8, 0xbbu8, 0xccu8], "arduino-iot"@),
        ([0xddu8, 0xeeu8, 0xffu8, 0x11u8, 0x22u8, 0x33u8], "security-camera"@),
        ([0x44u8, 0x55u8, 0x66u8, 0x77u8, 0x88u8, 0x99u8], "smart-tv"@),
    ]
}

/// Creates the example registry.
pub fn create_example_mappings() -> (r: Result<MacHostnameConfig, HostnameError>)
    ensures
        r is Ok,
        r->Ok_0@ == example_mappings(),
        r->Ok_0.wf(),
{
    proof {
        reveal_strlit("my-laptop");
        lemma_sanitize_keeps_canonical("my-laptop"@);
        reveal_strlit("raspberry-pi");
        lemma_sanitize_keeps_canonical("raspberry-pi"@);
        reveal_strlit("arduino-iot");
        lemma_sanitize_keeps_canonical("arduino-iot"@);
        reveal_strlit("security-camera");
        lemma_sanitize_keeps_canonical("security-camera"@);
        reveal_strlit("smart-tv");
        lemma_sanitize_keeps_canonical("smart-tv"@);
    }
    let b = StaticMappingsBuilder::new();
    let b = b.add_mac([0xaa, 0xbb, 0xcc, 0xdd, 0xee, 0xff], "my-laptop")?;
    let b = b.add_mac([0x11, 0x22, 0x33, 0x44, 0x55, 0x66], "raspberry-pi")?;
    let b = b.add_mac([0x77, 0x88, 0x99, 0xaa, 0xbb, 0xcc], "arduino-iot")?;
    let b = b.add_mac([0xdd, 0xee, 0xff, 0x11, 0x22, 0x33], "security-camera")?;
    let b = b.add_mac([0x44, 0x55, 0x66, 0x77, 0x88, 0x99], "smart-tv")?;
    assert(b@ =~= example_mappings());
    proof {
        lemma_well_formed_list_is_kept(b@);
    }
    Ok(b.build())
}

impl Default for MacHostnameConfig {
    /// The empty registry.
    fn default() -> (r: Self)
        ensures
            r@ == Seq::<([u8; 6], Seq<char>)>::empty(),
            r.wf(),
    {
        MacHostnameConfig::new()
    }
}

impl Default for StaticMappingsBuilder {
    /// The builder without mappings.
    fn default() -> (r: Self)
        ensures
            r@ == Seq::<([u8; 6], Seq<char>)>::empty(),
            r.wf(),
    {
        StaticMappingsBuilder::new()
    }
}

} // verus!
