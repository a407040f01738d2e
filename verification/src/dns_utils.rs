//! Utilities around the resolvers: full hostnames of several labels, names made of MAC
//! addresses, private address ranges, and the resolver configuration.

use crate::error::{ConfigError, HostnameError};
use crate::hostname::{
    is_valid_chars, local_suffix, local_suffix_chars, sanitize, sanitized, valid_label,
};
use crate::mac::{hex_pair, mac_chars, mac_text, parsed_mac, push_hex_pair};
use crate::resolution::{
    address_of, ip_text, push_ip, records_of, shown, unique_names, with_record,
    without_name, HostnameTable,
};
use crate::text::{
    chars_of, push_all, push_str, split, split_chars, string_of, string_of_range,
    strip_suffix, strip_suffix_len, views,
};
use vstd::prelude::*;

verus! {

/// The longest full hostname that DNS allows, in characters.
pub const MAX_HOSTNAME_LEN: usize = 253;

/// The rule for full hostnames: 1 to 253 characters, and every dot-separated label a valid
/// label.
pub open spec fn valid_hostname(s: Seq<char>) -> bool {
    &&& 1 <= s.len() <= MAX_HOSTNAME_LEN
    &&& forall|i: int| 0 <= i < split(s, '.').len() ==> valid_label(#[trigger] split(s, '.')[i])
}

/// The name made of a prefix and the last three bytes of a MAC address in hexadecimal.
pub open spec fn mac_hostname(mac: [u8; 6], prefix: Seq<char>) -> Seq<char> {
    prefix + seq!['-'] + hex_pair(mac@[3]) + hex_pair(mac@[4]) + hex_pair(mac@[5])
}

/// The hostname generated for a device: its friendly name sanitized, where there is a
/// friendly name and the result is valid; else `device` and the last three bytes of the MAC
/// address.
pub open spec fn generated_hostname(mac: [u8; 6], friendly: Option<Seq<char>>) -> Seq<char> {
    match friendly {
        Some(name) => if valid_hostname(sanitized(name)) {
            sanitized(name)
        } else {
            mac_hostname(mac, "device"@)
        },
        None => mac_hostname(mac, "device"@),
    }
}

/// The private and link-local ranges of IPv4: 10.0.0.0/8, 172.16.0.0/12, 192.168.0.0/16
/// and 169.254.0.0/16.
pub open spec fn private_ip(ip: [u8; 4]) -> bool {
    ||| ip@[0] == 10
    ||| (ip@[0] == 172 && 16 <= ip@[1] <= 31)
    ||| (ip@[0] == 192 && ip@[1] == 168)
    ||| (ip@[0] == 169 && ip@[1] == 254)
}

/// The line that describes a device.
pub open spec fn device_info_text(hostname: Seq<char>, ip: [u8; 4], mac: [u8; 6]) -> Seq<char> {
    "Device: "@ + hostname + ".local -> "@ + ip_text(ip) + " (MAC: "@ + mac_text(mac@) + ")"@
}

/// The first fault of a resolver configuration, in the order in which they are checked.
pub open spec fn config_fault(config: DnsConfig) -> Option<ConfigError> {
    if config.domain_suffix@.len() == 0 {
        Some(ConfigError::EmptyDomainSuffix)
    } else if config.domain_suffix@[0] != '.' {
        Some(ConfigError::DomainSuffixWithoutDot)
    } else if config.cache_ttl == 0 {
        Some(ConfigError::ZeroCacheTtl)
    } else if config.max_cache_entries == 0 {
        Some(ConfigError::ZeroCacheEntries)
    } else {
        None
    }
}

/// The configuration of the resolver.
pub struct DnsConfig {
    /// The domain suffix of local devices.
    pub domain_suffix: String,
    /// The time to live of a cache entry, in seconds.
    pub cache_ttl: u32,
    /// The largest number of hostnames in the cache.
    pub max_cache_entries: usize,
}

impl Default for DnsConfig {
    /// The suffix `.local`, five minutes to live, a hundred entries.
    fn default() -> (r: Self)
        ensures
            r.domain_suffix@ == local_suffix(),
            r.cache_ttl == 300,
            r.max_cache_entries == 100,
            config_fault(r) is None,
    {
        let suffix = string_of(&local_suffix_chars());
        DnsConfig { domain_suffix: suffix, cache_ttl: 300, max_cache_entries: 100 }
    }
}

/// Utilities for hostnames, MAC addresses and addresses.
pub struct DnsUtils;

impl DnsUtils {
    /// True where `hostname` is a valid full hostname: 1 to 253 characters, every
    /// dot-separated label a valid label.
    pub fn is_valid_hostname(hostname: &str) -> (r: bool)
        ensures
            r == valid_hostname(hostname@),
    {
        let v = chars_of(hostname);
        if v.len() == 0 || v.len() > MAX_HOSTNAME_LEN {
            return false;
        }
        let labels = split_chars(&v, '.');
        let mut i: usize = 0;
        while i < labels.len()
            invariant
                i <= labels.len(),
                v@ == hostname@,
                1 <= v.len() <= MAX_HOSTNAME_LEN,
                views(labels@) == split(v@, '.'),
                forall|j: int| 0 <= j < i ==> valid_label(#[trigger] split(v@, '.')[j]),
            decreases labels.len() - i,
        {
            assert(views(labels@)[i as int] == labels@[i as int]@);
            if !is_valid_chars(&labels[i]) {
                assert(!valid_label(split(v@, '.')[i as int]));
                return false;
            }
            i += 1;
        }
        true
    }

    /// True where `label` is a valid label: 1 to 63 characters, each an ASCII letter, an
    /// ASCII digit or a hyphen, the first and the last a letter or a digit.
    pub fn is_valid_label(label: &str) -> (r: bool)
        ensures
            r == valid_label(label@),
    {
        let v = chars_of(label);
        is_valid_chars(&v)
    }

    /// Turns arbitrary text into a label: upper-case ASCII letters are lowered, every
    /// character that is not an ASCII letter, an ASCII digit or a hyphen becomes a hyphen,
    /// hyphens at both ends are dropped, and at most 63 characters are kept. The result may
    /// be empty or invalid: it is to be validated before use.
    pub fn sanitize_hostname(input: &str) -> (r: String)
        ensures
            r@ == sanitized(input@),
    {
        sanitize(input)
    }

    /// The name made of `prefix`, a hyphen and the last three bytes of `mac` in lower-case
    /// hexadecimal, such as `device-ddeeff`.
    pub fn hostname_from_mac(mac: [u8; 6], prefix: &str) -> (r: String)
        ensures
            r@ == mac_hostname(mac, prefix@),
    {
        let mut out = chars_of(prefix);
        out.push('-');
        push_hex_pair(&mut out, mac[3]);
        push_hex_pair(&mut out, mac[4]);
        push_hex_pair(&mut out, mac[5]);
        assert(out@ =~= mac_hostname(mac, prefix@));
        string_of(&out)
    }

    /// The hostname for a device: its friendly name sanitized, where it has one and the
    /// result is valid; else `device` and the last three bytes of its MAC address.
    pub fn generate_hostname(mac: [u8; 6], friendly_name: Option<&str>) -> (r: String)
        ensures
            r@ == generated_hostname(
                mac,
                match friendly_name {
                    Some(name) => Some(name@),
                    None => None,
                },
            ),
    {
        match friendly_name {
            Some(name) => {
                let clean = Self::sanitize_hostname(name);
                if Self::is_valid_hostname(clean.as_str()) {
                    return clean;
                }
            },
            None => {},
        }
        Self::hostname_from_mac(mac, "device")
    }

    /// True where `ip` lies in a private or link-local range.
    pub fn is_private_ip(ip: [u8; 4]) -> (r: bool)
        ensures
            r == private_ip(ip),
    {
        ip[0] == 10 || (ip[0] == 172 && 16 <= ip[1] && ip[1] <= 31) || (ip[0] == 192 && ip[1]
            == 168) || (ip[0] == 169 && ip[1] == 254)
    }

    /// Formats a MAC address for display, such as `aa:bb:cc:dd:ee:ff`.
    pub fn format_mac(mac: [u8; 6]) -> (r: String)
        ensures
            r@ == mac_text(mac@),
    {
        crate::mac::format_mac(mac)
    }

    /// Parses a MAC address from six colon-separated hexadecimal bytes; anything else is
    /// refused as `InvalidMacAddress`.
    pub fn parse_mac(mac_str: &str) -> (r: Result<[u8; 6], HostnameError>)
        ensures
            r == match parsed_mac(mac_str@) {
                Some(mac) => Ok::<[u8; 6], HostnameError>(mac),
                None => Err::<[u8; 6], HostnameError>(HostnameError::InvalidMacAddress),
            },
    {
        crate::mac::parse_mac(mac_str)
    }

    /// Makes a record for the resolver from a hostname that may carry `.local` at its end:
    /// the hostname without that suffix, and the address. The record is refused with
    /// `InvalidHostname` where what is left is no valid full hostname.
    pub fn create_test_entry(hostname: &str, ip: [u8; 4]) -> (r: Result<
        (String, [u8; 4]),
        HostnameError,
    >)
        ensures
            match r {
                Ok(entry) => valid_hostname(strip_suffix(hostname@, local_suffix())) && entry.0@
                    == strip_suffix(hostname@, local_suffix()) && entry.1 == ip,
                Err(e) => e == HostnameError::InvalidHostname && !valid_hostname(
                    strip_suffix(hostname@, local_suffix()),
                ),
            },
    {
        let v = chars_of(hostname);
        let end = strip_suffix_len(&v, &local_suffix_chars());
        let clean = string_of_range(&v, 0, end);
        assert(v@.subrange(0, end as int) =~= v@.take(end as int));
        if !Self::is_valid_hostname(clean.as_str()) {
            return Err(HostnameError::InvalidHostname);
        }
        Ok((clean, ip))
    }

    /// The line that describes a device: its hostname in the local domain, its address and
    /// its MAC address.
    pub fn device_info(hostname: &str, ip: [u8; 4], mac: [u8; 6]) -> (r: String)
        ensures
            r@ == device_info_text(hostname@, ip, mac),
    {
        let mut out: Vec<char> = Vec::new();
        push_str(&mut out, "Device: ");
        push_str(&mut out, hostname);
        push_str(&mut out, ".local -> ");
        push_ip(&mut out, &ip);
        push_str(&mut out, " (MAC: ");
        push_all(&mut out, &mac_chars(&mac));
        push_str(&mut out, ")");
        assert(out@ =~= device_info_text(hostname@, ip, mac));
        string_of(&out)
    }

    /// Validates a resolver configuration: the domain suffix starts with a dot, and neither
    /// the time to live nor the size of the cache is zero. The first fault is reported.
    pub fn validate_config(config: &DnsConfig) -> (r: Result<(), ConfigError>)
        ensures
            r == match config_fault(*config) {
                Some(e) => Err::<(), ConfigError>(e),
                None => Ok::<(), ConfigError>(()),
            },
    {
        let suffix = chars_of(config.domain_suffix.as_str());
        if suffix.len() == 0 {
            return Err(ConfigError::EmptyDomainSuffix);
        }
        if suffix[0] != '.' {
            return Err(ConfigError::DomainSuffixWithoutDot);
        }
        if config.cache_ttl == 0 {
            return Err(ConfigError::ZeroCacheTtl);
        }
        if config.max_cache_entries == 0 {
            return Err(ConfigError::ZeroCacheEntries);
        }
        Ok(())
    }
}

/// A table of records for trying the resolver out. A hostname is stored as it is given,
/// without `.local` at its end, and must be a valid full hostname.
pub struct DnsTest {
    test_entries: HostnameTable,
}

impl DnsTest {
    /// The records, in the order in which the hostnames were first added.
    pub closed spec fn view(&self) -> Seq<(Seq<char>, [u8; 4])> {
        self.test_entries@
    }

    /// No hostname occurs twice. The constructor establishes this and every method keeps it.
    pub open spec fn wf(&self) -> bool {
        unique_names(self@)
    }

    /// Creates a table without records.
    pub fn new() -> (r: Self)
        ensures
            r@ == Seq::<(Seq<char>, [u8; 4])>::empty(),
            r.wf(),
    {
        DnsTest { test_entries: HostnameTable::new() }
    }

    /// Adds a record, as `DnsUtils::create_test_entry` makes it; a hostname that is there
    /// already gets the new address.
    pub fn add_test_entry(&mut self, hostname: &str, ip: [u8; 4]) -> (r: Result<(), HostnameError>)
        requires
            old(self).wf(),
        ensures
            match r {
                Ok(_) => valid_hostname(strip_suffix(hostname@, local_suffix())) && final(self)@
                    == with_record(old(self)@, strip_suffix(hostname@, local_suffix()), ip),
                Err(e) => e == HostnameError::InvalidHostname && !valid_hostname(
                    strip_suffix(hostname@, local_suffix()),
                ) && final(self)@ == old(self)@,
            },
            final(self).wf(),
    {
        match DnsUtils::create_test_entry(hostname, ip) {
            Ok(entry) => {
                self.test_entries.insert(entry.0, ip);
                Ok(())
            },
            Err(e) => Err(e),
        }
    }

    /// Removes the record of `hostname`, taken without `.local` at its end; without one,
    /// nothing happens.
    pub fn remove_test_entry(&mut self, hostname: &str)
        requires
            old(self).wf(),
        ensures
            final(self)@ == without_name(old(self)@, strip_suffix(hostname@, local_suffix())),
            final(self).wf(),
    {
        let v = chars_of(hostname);
        let end = strip_suffix_len(&v, &local_suffix_chars());
        let clean = string_of_range(&v, 0, end);
        assert(v@.subrange(0, end as int) =~= v@.take(end as int));
        let _ = self.test_entries.remove(&clean);
    }

    /// The address of `hostname`, taken without `.local` at its end.
    pub fn query_test_entry(&self, hostname: &str) -> (r: Option<[u8; 4]>)
        requires
            self.wf(),
        ensures
            r == address_of(self@, strip_suffix(hostname@, local_suffix())),
    {
        let v = chars_of(hostname);
        let end = strip_suffix_len(&v, &local_suffix_chars());
        let clean = string_of_range(&v, 0, end);
        assert(v@.subrange(0, end as int) =~= v@.take(end as int));
        self.test_entries.get(&clean)
    }

    /// All records as they are shown, each hostname with `.local` behind it.
    pub fn list_test_entries(&self) -> (r: Vec<(String, [u8; 4])>)
        ensures
            records_of(r@) == shown(self@),
    {
        self.test_entries.list()
    }
}

impl Default for DnsTest {
    /// The table without records.
    fn default() -> (r: Self)
        ensures
            r@ == Seq::<(Seq<char>, [u8; 4])>::empty(),
            r.wf(),
    {
        DnsTest::new()
    }
}

} // verus!
