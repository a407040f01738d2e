//! The DNS side of the local domain: what the resolver answers for `<name>.local`.

use crate::error::HostnameError;
use crate::hostname::{
    is_valid, lemma_sanitize_keeps_canonical, lemma_valid_sanitized_is_canonical, sanitize,
    no_upper, sanitized, sanitized_local, valid_label,
};
use crate::resolution::{
    address_of, device_name, full_device_label, has_name, records_of, shown, unique_names,
    with_record, without_name, HostnameTable,
};
use vstd::prelude::*;

verus! {

/// The hostnames that the DNS server resolves, each with its address.
pub struct DnsServer {
    hostname_map: HostnameTable,
}

impl DnsServer {
    /// The records of the server, in the order in which the hostnames were first
    /// registered.
    pub closed spec fn view(&self) -> Seq<(Seq<char>, [u8; 4])> {
        self.hostname_map@
    }

    /// No hostname occurs twice. The constructor establishes this and every method keeps it.
    pub open spec fn wf(&self) -> bool {
        unique_names(self@)
    }

    /// Creates a server without records.
    pub fn new() -> (r: Self)
        ensures
            r@ == Seq::<(Seq<char>, [u8; 4])>::empty(),
            r.wf(),
    {
        DnsServer { hostname_map: HostnameTable::new() }
    }

    /// Registers `hostname`, once sanitized, with the address `ip`. The last registration of
    /// a hostname wins: there is no conflict between devices here.
    pub fn register_hostname(&mut self, hostname: String, ip: [u8; 4])
        requires
            old(self).wf(),
        ensures
            final(self)@ == with_record(old(self)@, sanitized_local(hostname@), ip),
            final(self).wf(),
    {
        self.hostname_map.register(hostname.as_str(), ip);
    }

    /// Removes the record of `hostname`, once sanitized; without one, nothing happens.
    pub fn unregister_hostname(&mut self, hostname: &str)
        requires
            old(self).wf(),
        ensures
            final(self)@ == without_name(old(self)@, sanitized_local(hostname@)),
            final(self).wf(),
    {
        let _ = self.hostname_map.unregister(hostname);
    }

    /// The address that `hostname`, once sanitized, resolves to.
    pub fn resolve_hostname(&self, hostname: &str) -> (r: Option<[u8; 4]>)
        requires
            self.wf(),
        ensures
            r == address_of(self@, sanitized_local(hostname@)),
    {
        self.hostname_map.resolve(hostname)
    }

    /// All records as they are shown, each hostname with `.local` behind it.
    pub fn list_hostnames(&self) -> (r: Vec<(String, [u8; 4])>)
        ensures
            records_of(r@) == shown(self@),
    {
        self.hostname_map.list()
    }

    /// Registers `hostname` only where it sanitizes to a valid label, and returns that
    /// label. Otherwise the registration is refused with `InvalidHostname` and nothing
    /// changes.
    pub fn register_hostname_safe(&mut self, hostname: &str, ip: [u8; 4]) -> (r: Result<
        String,
        HostnameError,
    >)
        requires
            old(self).wf(),
        ensures
            match r {
                Ok(name) => valid_label(sanitized(hostname@)) && name@ == sanitized(hostname@)
                    && final(self)@ == with_record(old(self)@, sanitized(hostname@), ip),
                Err(e) => e == HostnameError::InvalidHostname && !valid_label(
                    sanitized(hostname@),
                ) && final(self)@ == old(self)@,
            },
            final(self).wf(),
    {
        let clean = sanitize(hostname);
        if !is_valid(clean.as_str()) {
            return Err(HostnameError::InvalidHostname);
        }
        proof {
            lemma_valid_sanitized_is_canonical(hostname@);
            lemma_sanitize_keeps_canonical(clean@);
        }
        self.hostname_map.register(clean.as_str(), ip);
        Ok(clean)
    }

    /// Registers a device and returns the hostname that it was given: its friendly name in
    /// lower case where that is a valid label, else `device-` and the last three bytes of
    /// its MAC address; where that name is taken, the name with the first free suffix from
    /// `-1` to `-98`, cut in front of the suffix so that it stays within 63 characters; and
    /// where all of these are taken, `device-` and the whole MAC address. The hostname is a
    /// valid label in lower case and is stored as it is. A conflict is resolved by renaming,
    /// never refused: the result is always `Ok`.
    pub fn register_device(&mut self, mac: [u8; 6], friendly_name: &str, ip: [u8; 4]) -> (r: Result<
        String,
        HostnameError,
    >)
        requires
            old(self).wf(),
        ensures
            r is Ok,
            r->Ok_0@ == device_name(old(self)@, mac, friendly_name@),
            valid_label(r->Ok_0@),
            no_upper(r->Ok_0@),
            !has_name(old(self)@, r->Ok_0@) || r->Ok_0@ == full_device_label(mac),
            final(self)@ == with_record(old(self)@, r->Ok_0@, ip),
            final(self).wf(),
    {
        Ok(self.hostname_map.register_device(mac, friendly_name, ip))
    }

    /// Turns arbitrary text into a label: see `sanitize`.
    pub fn sanitize_hostname(hostname: &str) -> (r: String)
        ensures
            r@ == sanitized(hostname@),
    {
        sanitize(hostname)
    }

    /// The single-label rule: see `is_valid`.
    pub fn is_valid_hostname(hostname: &str) -> (r: bool)
        ensures
            r == valid_label(hostname@),
    {
        is_valid(hostname)
    }
}

} // verus!
