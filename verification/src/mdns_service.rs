//! The mDNS side of the local domain: a second table of hostnames and addresses, which
//! serves only between its initialization and its stop.

use crate::error::HostnameError;
use crate::hostname::{is_valid, no_upper, sanitize_local, sanitized_local, valid_label};
use crate::resolution::{
    address_of, device_name, full_device_label, has_name, records_of, report_lines, shown,
    unique_names, with_record, without_name, HostnameTable,
};
use crate::text::string_views;
use vstd::prelude::*;

verus! {

/// The hostnames that the mDNS service answers for, each with its address.
pub struct MdnsService {
    hostname_map: HostnameTable,
    is_initialized: bool,
}

impl MdnsService {
    /// The records of the service, in the order in which the hostnames were first
    /// registered.
    pub closed spec fn view(&self) -> Seq<(Seq<char>, [u8; 4])> {
        self.hostname_map@
    }

    /// True between `init` and `stop`.
    pub closed spec fn initialized(&self) -> bool {
        self.is_initialized
    }

    /// No hostname occurs twice, and a service that is not initialized holds no record. The
    /// constructor establishes this and every method keeps it.
    pub open spec fn wf(&self) -> bool {
        &&& unique_names(self@)
        &&& !self.initialized() ==> self@.len() == 0
    }

    /// Creates a service that is not initialized yet.
    pub fn new() -> (r: Self)
        ensures
            r@ == Seq::<(Seq<char>, [u8; 4])>::empty(),
            !r.initialized(),
            r.wf(),
    {
        MdnsService { hostname_map: HostnameTable::new(), is_initialized: false }
    }

    /// True between `init` and `stop`.
    pub fn is_initialized(&self) -> (r: bool)
        ensures
            r == self.initialized(),
    {
        self.is_initialized
    }

    /// Initializes the service. On a service that is initialized already nothing changes.
    pub fn init(&mut self) -> (r: Result<(), HostnameError>)
        requires
            old(self).wf(),
        ensures
            r is Ok,
            final(self).initialized(),
            final(self)@ == old(self)@,
            final(self).wf(),
    {
        self.is_initialized = true;
        Ok(())
    }

    /// Registers `hostname`, once sanitized, with the address `ip`; the last registration of
    /// a hostname wins. Before `init` the registration is refused with
    /// `ServiceNotInitialized` and nothing changes.
    pub fn register_hostname(&mut self, hostname: String, ip: [u8; 4]) -> (r: Result<
        (),
        HostnameError,
    >)
        requires
            old(self).wf(),
        ensures
            final(self).initialized() == old(self).initialized(),
            old(self).initialized() ==> r is Ok && final(self)@ == with_record(
                old(self)@,
                sanitized_local(hostname@),
                ip,
            ),
            !old(self).initialized() ==> r == Err::<(), HostnameError>(
                HostnameError::ServiceNotInitialized,
            ) && final(self)@ == old(self)@,
            final(self).wf(),
    {
        if !self.is_initialized {
            return Err(HostnameError::ServiceNotInitialized);
        }
        self.hostname_map.register(hostname.as_str(), ip);
        Ok(())
    }

    /// Removes the record of `hostname`, once sanitized; without one, nothing happens.
    /// Before `init` the call is refused with `ServiceNotInitialized`.
    pub fn unregister_hostname(&mut self, hostname: &str) -> (r: Result<(), HostnameError>)
        requires
            old(self).wf(),
        ensures
            final(self).initialized() == old(self).initialized(),
            old(self).initialized() ==> r is Ok && final(self)@ == without_name(
                old(self)@,
                sanitized_local(hostname@),
            ),
            !old(self).initialized() ==> r == Err::<(), HostnameError>(
                HostnameError::ServiceNotInitialized,
            ) && final(self)@ == old(self)@,
            final(self).wf(),
    {
        if !self.is_initialized {
            return Err(HostnameError::ServiceNotInitialized);
        }
        let _ = self.hostname_map.unregister(hostname);
        Ok(())
    }

    /// The address that `hostname`, once sanitized, resolves to.
    pub fn query_hostname(&self, hostname: &str) -> (r: Option<[u8; 4]>)
        requires
            self.wf(),
        ensures
            r == address_of(self@, sanitized_local(hostname@)),
    {
        self.hostname_map.resolve(hostname)
    }

    /// All records as they are shown, each hostname with `.local` behind it.
    pub fn list_hostnames(&self) -> (r: Vec<(String, [u8; 4])>)
        ensures
            records_of(r@) == shown(self@),
    {
        self.hostname_map.list()
    }

    /// Registers a device and returns the hostname that it was given, picked as
    /// `DnsServer::register_device` picks it. Before `init` the registration is refused with
    /// `ServiceNotInitialized` and nothing changes.
    pub fn register_device(&mut self, mac: [u8; 6], friendly_name: &str, ip: [u8; 4]) -> (r: Result<
        String,
        HostnameError,
    >)
        requires
            old(self).wf(),
        ensures
            final(self).initialized() == old(self).initialized(),
            match r {
                Ok(name) => old(self).initialized() && name@ == device_name(
                    old(self)@,
                    mac,
                    friendly_name@,
                ) && valid_label(name@) && no_upper(name@) && (!has_name(old(self)@, name@)
                    || name@ == full_device_label(mac)) && final(self)@ == with_record(
                    old(self)@,
                    name@,
                    ip,
                ),
                Err(e) => !old(self).initialized() && e == HostnameError::ServiceNotInitialized
                    && final(self)@ == old(self)@,
            },
            final(self).wf(),
    {
        if !self.is_initialized {
            return Err(HostnameError::ServiceNotInitialized);
        }
        Ok(self.hostname_map.register_device(mac, friendly_name, ip))
    }

    /// Stops the service: every record goes, and the service is as before `init`. On a
    /// service that is not initialized nothing changes.
    pub fn stop(&mut self) -> (r: Result<(), HostnameError>)
        requires
            old(self).wf(),
        ensures
            r is Ok,
            !final(self).initialized(),
            final(self)@ == Seq::<(Seq<char>, [u8; 4])>::empty(),
            final(self).wf(),
    {
        if !self.is_initialized {
            assert(self@ =~= Seq::<(Seq<char>, [u8; 4])>::empty());
            return Ok(());
        }
        self.hostname_map.clear();
        self.is_initialized = false;
        Ok(())
    }

    /// The number of registered hostnames.
    pub fn get_hostname_count(&self) -> (r: usize)
        ensures
            r == self@.len(),
    {
        self.hostname_map.len()
    }

    /// The lines that report the registered hostnames: one line that says that there are
    /// none, or a heading with their number and a line for each.
    pub fn print_hostnames(&self) -> (r: Vec<String>)
        ensures
            string_views(r@) == report_lines(self@),
    {
        self.hostname_map.report()
    }

    /// Turns arbitrary text into a label: see `sanitize_local`.
    pub fn sanitize_hostname(hostname: &str) -> (r: String)
        ensures
            r@ == sanitized_local(hostname@),
    {
        sanitize_local(hostname)
    }

    /// The single-label rule: see `is_valid`.
    pub fn is_valid_hostname(hostname: &str) -> (r: bool)
        ensures
            r == valid_label(hostname@),
    {
        is_valid(hostname)
    }
}

} // verus!
