//! The errors that the registries and the textual formats report.

use vstd::prelude::*;

verus! {

/// Why an operation on a registry or on one of the textual formats was refused.
#[derive(Clone, Copy, Debug, PartialEq, Eq)]
pub enum HostnameError {
    /// The text does not sanitize to a valid label.
    InvalidHostname,
    /// The label is reserved for another device, whose MAC address is `holder`.
    HostnameConflict { holder: [u8; 6] },
    /// A configuration entry is not six hexadecimal bytes and a hostname, separated by colons.
    MalformedConfigEntry,
    /// The service was used before it was initialized.
    ServiceNotInitialized,
    /// The text is not six hexadecimal bytes separated by colons.
    InvalidMacAddress,
}

/// Why a resolver configuration was refused.
#[derive(Clone, Copy, Debug, PartialEq, Eq)]
pub enum ConfigError {
    /// The domain suffix is empty.
    EmptyDomainSuffix,
    /// The domain suffix does not start with a dot.
    DomainSuffixWithoutDot,
    /// The time to live of the cache is zero.
    ZeroCacheTtl,
    /// The cache has room for no entry.
    ZeroCacheEntries,
}

/// Why the credentials of a Wi-Fi network cannot be used.
#[derive(Clone, Copy, Debug, PartialEq, Eq)]
pub enum CredentialsError {
    /// The network name is longer than 32 bytes.
    SsidTooLong,
    /// The password is longer than 64 bytes.
    PasswordTooLong,
}

} // verus!
