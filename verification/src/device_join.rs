//! What happens when a device joins the access point and is given an address: the device
//! gets a name, and the name is registered with both resolvers.

use crate::chars::{lower_char, to_lower_char};
use crate::dns_server::DnsServer;
use crate::hostname::sanitized_local;
use crate::mac_hostname_config::{
    has_mac, hostname_of, index_of_mac, pairs_of, same_mac, text_of, unique_macs,
    MacHostnameConfig,
};
use crate::mdns_service::MdnsService;
use crate::resolution::{device_label, device_label_chars, device_name, with_record};
use crate::text::{chars_of, string_of, string_views};
use vstd::prelude::*;

verus! {

/// The friendly name of `mac`: the one that it was given before, else the last name of
/// the pool, else `fallback`.
pub open spec fn assigned_name(
    known: Seq<([u8; 6], Seq<char>)>,
    pool: Seq<Seq<char>>,
    mac: [u8; 6],
    fallback: Seq<char>,
) -> Seq<char> {
    match hostname_of(known, mac) {
        Some(name) => name,
        None => if pool.len() > 0 {
            pool.last()
        } else {
            fallback
        },
    }
}

/// The names given so far, after `mac` has asked for its friendly name: a new device is
/// remembered with the name that it was given.
pub open spec fn known_after(
    known: Seq<([u8; 6], Seq<char>)>,
    pool: Seq<Seq<char>>,
    mac: [u8; 6],
    fallback: Seq<char>,
) -> Seq<([u8; 6], Seq<char>)> {
    if has_mac(known, mac) {
        known
    } else {
        known.push((mac, assigned_name(known, pool, mac, fallback)))
    }
}

/// The pool after `mac` has asked for its friendly name: a new device takes the last name
/// out of it.
pub open spec fn pool_after(known: Seq<([u8; 6], Seq<char>)>, pool: Seq<Seq<char>>, mac: [u8; 6]) -> Seq<
    Seq<char>,
> {
    if has_mac(known, mac) || pool.len() == 0 {
        pool
    } else {
        pool.drop_last()
    }
}

/// The hostname made from a friendly name: spaces become hyphens and upper-case ASCII
/// letters are lowered.
pub open spec fn dashed(s: Seq<char>) -> Seq<char> {
    Seq::new(
        s.len(),
        |i: int|
            if s[i] == ' ' {
                '-'
            } else {
                lower_char(s[i])
            },
    )
}

/// The friendly names of devices without a static mapping: those given so far, and the
/// pool of names that are still free.
pub struct NamePool {
    known: Vec<([u8; 6], String)>,
    pool: Vec<String>,
}

impl NamePool {
    /// The names given so far, in the order in which the devices asked.
    pub closed spec fn known(&self) -> Seq<([u8; 6], Seq<char>)> {
        pairs_of(self.known@)
    }

    /// The names that are still free; the last one is given out next.
    pub closed spec fn pool(&self) -> Seq<Seq<char>> {
        string_views(self.pool@)
    }

    /// No device occurs twice among the names given so far. The constructor establishes
    /// this and every method keeps it.
    pub open spec fn wf(&self) -> bool {
        unique_macs(self.known())
    }

    /// Creates a pool of free names, none of them given out yet.
    pub fn new(pool: Vec<String>) -> (r: Self)
        ensures
            r.known() == Seq::<([u8; 6], Seq<char>)>::empty(),
            r.pool() == string_views(pool@),
            r.wf(),
    {
        let r = NamePool { known: Vec::new(), pool };
        assert(r.known() =~= Seq::<([u8; 6], Seq<char>)>::empty());
        r
    }

    /// The number of names that are still free.
    pub fn remaining(&self) -> (r: usize)
        ensures
            r == self.pool().len(),
    {
        self.pool.len()
    }

    /// The friendly name of the device `mac`. A device that asked before gets the same name
    /// again. A new device gets the last free name of the pool, or `fallback` where the
    /// pool is used up, and is remembered with it.
    pub fn name_for(&mut self, mac: [u8; 6], fallback: &str) -> (r: String)
        requires
            old(self).wf(),
        ensures
            r@ == assigned_name(old(self).known(), old(self).pool(), mac, fallback@),
            final(self).known() == known_after(old(self).known(), old(self).pool(), mac, fallback@),
            final(self).pool() == pool_after(old(self).known(), old(self).pool(), mac),
            final(self).wf(),
    {
        let mut i: usize = 0;
        while i < self.known.len()
            invariant
                i <= self.known.len(),
                self.known() == old(self).known(),
                self.pool() == old(self).pool(),
                self.wf(),
                forall|j: int| 0 <= j < i ==> (#[trigger] self.known()[j]).0 != mac,
            decreases self.known.len() - i,
        {
            if same_mac(&self.known[i].0, &mac) {
                assert(self.known()[i as int].0 == mac);
                assert(has_mac(self.known(), mac));
                assert(index_of_mac(self.known(), mac) == i);
                return self.known[i].1.clone();
            }
            i += 1;
        }
        assert(!has_mac(self.known(), mac));
        let ghost before = self.known();
        let ghost free = self.pool();
        let name = match self.pool.pop() {
            Some(name) => {
                assert(name@ == free.last());
                assert(self.pool() =~= free.drop_last());
                name
            },
            None => string_of(&chars_of(fallback)),
        };
        self.known.push((mac, name.clone()));
        assert(self.known() =~= before.push((mac, name@)));
        assert(self.wf()) by {
            let n = self.known();
            assert forall|i: int, j: int|
                0 <= i < n.len() && 0 <= j < n.len() && i != j implies (#[trigger] n[i]).0 != (
            #[trigger] n[j]).0 by {
                if i == before.len() {
                    assert(before[j].0 != mac);
                } else if j == before.len() {
                    assert(before[i].0 != mac);
                }
            }
        }
        name
    }
}

/// One call of `next` on the default generator of the crate `names`: a random name made of
/// an adjective and a noun. The name depends on chance, so nothing is promised of it.
#[verifier::external_body]
fn random_name() -> (r: Option<String>) {
    names::Generator::default().next()
}

/// Draws the free names for a pool: `count` random names, or fewer where the generator
/// runs dry. The names themselves depend on chance.
pub fn draw_names(count: usize) -> (r: Vec<String>)
    ensures
        r@.len() <= count,
{
    let mut drawn: Vec<String> = Vec::new();
    let mut i: usize = 0;
    while i < count
        invariant
            i <= count,
            drawn@.len() == i,
        decreases count - i,
    {
        match random_name() {
            Some(name) => {
                drawn.push(name);
            },
            None => {
                return drawn;
            },
        }
        i += 1;
    }
    drawn
}

/// The hostname made from the friendly name `name`.
pub fn dashed_hostname(name: &str) -> (r: String)
    ensures
        r@ == dashed(name@),
{
    let v = chars_of(name);
    let mut out: Vec<char> = Vec::new();
    let mut i: usize = 0;
    while i < v.len()
        invariant
            i <= v.len(),
            out.len() == i,
            forall|j: int| 0 <= j < i ==> out@[j] == dashed(v@)[j],
        decreases v.len() - i,
    {
        if v[i] == ' ' {
            out.push('-');
        } else {
            out.push(to_lower_char(v[i]));
        }
        i += 1;
    }
    assert(out@ =~= dashed(v@));
    string_of(&out)
}

/// What a device that joined was given.
pub struct JoinedDevice {
    /// Its friendly name: its static hostname, or a name of the pool.
    pub friendly_name: String,
    /// The hostname under which the DNS server resolves it.
    pub hostname: String,
    /// The hostname under which the mDNS service answers for it; `None` where that service
    /// is not initialized.
    pub mdns_hostname: Option<String>,
}

/// The friendly name of a device that joins: its static hostname where the registry holds
/// one, else the name that the pool assigns, with `device-` and the last three bytes of the
/// MAC address as the fallback.
pub open spec fn joined_friendly_name(
    registry: Seq<([u8; 6], Seq<char>)>,
    known: Seq<([u8; 6], Seq<char>)>,
    pool: Seq<Seq<char>>,
    mac: [u8; 6],
) -> Seq<char> {
    match hostname_of(registry, mac) {
        Some(h) => h,
        None => assigned_name(known, pool, mac, device_label(mac)),
    }
}

/// The hostname of a device that joins: its static hostname, else the hostname made from
/// its friendly name.
pub open spec fn joined_hostname(
    registry: Seq<([u8; 6], Seq<char>)>,
    known: Seq<([u8; 6], Seq<char>)>,
    pool: Seq<Seq<char>>,
    mac: [u8; 6],
) -> Seq<char> {
    match hostname_of(registry, mac) {
        Some(h) => h,
        None => dashed(assigned_name(known, pool, mac, device_label(mac))),
    }
}

/// Handles a device that joined the access point and was given the address `ip`. The
/// device keeps its static hostname where the registry holds one; else it gets a friendly
/// name from the pool. Its hostname is registered with the DNS server, and the device is
/// registered with the mDNS service, which picks a free hostname for it. The pool is
/// touched only for a device without a static hostname.
pub fn register_joined_device(
    registry: &MacHostnameConfig,
    names: &mut NamePool,
    dns: &mut DnsServer,
    mdns: &mut MdnsService,
    mac: [u8; 6],
    ip: [u8; 4],
) -> (r: JoinedDevice)
    requires
        registry.wf(),
        old(names).wf(),
        old(dns).wf(),
        old(mdns).wf(),
    ensures
        r.friendly_name@ == joined_friendly_name(
            registry@,
            old(names).known(),
            old(names).pool(),
            mac,
        ),
        r.hostname@ == joined_hostname(registry@, old(names).known(), old(names).pool(), mac),
        has_mac(registry@, mac) ==> final(names).known() == old(names).known(),
        has_mac(registry@, mac) ==> final(names).pool() == old(names).pool(),
        !has_mac(registry@, mac) ==> final(names).known() == known_after(
            old(names).known(),
            old(names).pool(),
            mac,
            device_label(mac),
        ) && final(names).pool() == pool_after(old(names).known(), old(names).pool(), mac),
        final(dns)@ == with_record(old(dns)@, sanitized_local(r.hostname@), ip),
        final(mdns).initialized() == old(mdns).initialized(),
        old(mdns).initialized() ==> text_of(r.mdns_hostname) == Some(
            device_name(old(mdns)@, mac, r.friendly_name@),
        ) && final(mdns)@ == with_record(
            old(mdns)@,
            device_name(old(mdns)@, mac, r.friendly_name@),
            ip,
        ),
        !old(mdns).initialized() ==> r.mdns_hostname is None && final(mdns)@ == old(mdns)@,
        final(names).wf(),
        final(dns).wf(),
        final(mdns).wf(),
{
    let (friendly_name, hostname) = match registry.get_hostname(mac) {
        Some(static_hostname) => (static_hostname.clone(), static_hostname),
        None => {
            let fallback = string_of(&device_label_chars(&mac));
            let friendly_name = names.name_for(mac, fallback.as_str());
            let hostname = dashed_hostname(friendly_name.as_str());
            (friendly_name, hostname)
        },
    };
    dns.register_hostname(hostname.clone(), ip);
    let mdns_hostname = match mdns.register_device(mac, friendly_name.as_str(), ip) {
        Ok(name) => Some(name),
        Err(_) => None,
    };
    JoinedDevice { friendly_name, hostname, mdns_hostname }
}

} // verus!
