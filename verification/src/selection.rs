//! Picking from the configured lists: the Wi-Fi network to join next, whether its
//! credentials can be used, and the friendly name of a device.

use crate::error::CredentialsError;
use vstd::prelude::*;
use vstd::utf8::encode_utf8;

verus! {

/// The position of the network after `current_index` among `count` networks, going round
/// from the last to the first; 0 where there is no network.
pub open spec fn next_network(current_index: int, count: int) -> int {
    if count == 0 {
        0
    } else {
        (current_index + 1) % count
    }
}

/// The position of the network to join after the one at `current_index`, among `count`
/// configured networks.
pub fn cycle_to_next_network(current_index: usize, count: usize) -> (r: usize)
    ensures
        r == next_network(current_index as int, count as int),
        count > 0 ==> r < count,
{
    if count == 0 {
        0
    } else {
        let reduced: usize = current_index % count;
        proof {
            vstd::arithmetic::div_mod::lemma_add_mod_noop_right(
                1,
                current_index as int,
                count as int,
            );
        }
        (reduced + 1) % count
    }
}

/// The position of the friendly name of the device `mac` among `count` names: the last byte
/// of the MAC address picks it.
pub fn mac_to_name_index(mac: &[u8; 6], count: usize) -> (r: usize)
    requires
        count > 0,
    ensures
        r == (mac@[5] as int) % (count as int),
        r < count,
{
    (mac[5] as usize) % count
}

/// The longest network name that a Wi-Fi configuration holds, in bytes.
pub const MAX_SSID_LEN: usize = 32;

/// The longest password that a Wi-Fi configuration holds, in bytes.
pub const MAX_PASSWORD_LEN: usize = 64;

/// What keeps the credentials of a network out of a Wi-Fi configuration: the name is held
/// in 32 bytes of UTF-8 and the password in 64. The name is looked at first.
pub open spec fn credentials_fault(ssid: Seq<char>, password: Seq<char>) -> Option<
    CredentialsError,
> {
    if encode_utf8(ssid).len() > MAX_SSID_LEN {
        Some(CredentialsError::SsidTooLong)
    } else if encode_utf8(password).len() > MAX_PASSWORD_LEN {
        Some(CredentialsError::PasswordTooLong)
    } else {
        None
    }
}

/// Checks that the credentials of a network fit into a Wi-Fi configuration.
pub fn check_credentials(ssid: &str, password: &str) -> (r: Result<(), CredentialsError>)
    ensures
        r == match credentials_fault(ssid@, password@) {
            Some(e) => Err::<(), CredentialsError>(e),
            None => Ok::<(), CredentialsError>(()),
        },
{
    if ssid.as_bytes().len() > MAX_SSID_LEN {
        Err(CredentialsError::SsidTooLong)
    } else if password.as_bytes().len() > MAX_PASSWORD_LEN {
        Err(CredentialsError::PasswordTooLong)
    } else {
        Ok(())
    }
}

} // verus!
