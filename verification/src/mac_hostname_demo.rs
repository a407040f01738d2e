//! Ready-made registries of sample devices, and a workload for measuring a registry.

use crate::chars::{label_char, upper};
use crate::error::HostnameError;
use crate::hostname::{canonical_label, lemma_sanitize_keeps_canonical, sanitized_local};
use crate::mac_hostname_config::{
    add_outcome, after_add, has_hostname, has_mac, index_of_hostname, index_of_mac,
    lemma_add_keeps_well_formed, lemma_well_formed_list_is_kept, well_formed,
    MacHostnameConfig, StaticMappingsBuilder,
};
use crate::text::{
    decimal, decimal_chars, lemma_decimal_shape, lemma_padded_decimal_differs, pow10, push_all,
    push_str, string_of, zero_padded, zeros,
};
use vstd::prelude::*;

verus! {

/// The sample devices: ten devices of a household.
pub open spec fn sample_devices() -> Seq<([u8; 6], Seq<char>)> {
    seq![
        ([0xaau8, 0xbbu8, 0xccu8, 0xddu8, 0xeeu8, 0xffu8], "johns-macbook"@),
        ([0x11u8, 0x22u8, 0x33u8, 0x44u8, 0x55u8, 0x66u8], "raspberry-pi-4b"@),
        ([0x77u8, 0x88u8, 0x99u8, 0xaau8, 0xbbu8, 0xccu8], "arduino-weather"@),
        ([0xddu8, 0xeeu8, 0xffu8, 0x11u8, 0x22u8, 0x33u8], "security-cam-front"@),
        ([0x44u8, 0x55u8, 0x66u8, 0x77u8, 0x88u8, 0x99u8], "smart-tv-living"@),
        ([0x00u8, 0x11u8, 0x22u8, 0x33u8, 0x44u8, 0x55u8], "thermostat-main"@),
        ([0x66u8, 0x77u8, 0x88u8, 0x99u8, 0xaau8, 0xbbu8], "doorbell-camera"@),
        ([0xccu8, 0xddu8, 0xeeu8, 0xffu8, 0x00u8, 0x11u8], "garage-door-sensor"@),
        ([0x22u8, 0x33u8, 0x44u8, 0x55u8, 0x66u8, 0x77u8], "kitchen-tablet"@),
        ([0x88u8, 0x99u8, 0xaau8, 0xbbu8, 0xccu8, 0xddu8], "office-printer"@),
    ]
}

/// The devices of a home office.
pub open spec fn home_office_devices() -> Seq<([u8; 6], Seq<char>)> {
    seq![
        ([0xaau8, 0xbbu8, 0xccu8, 0x11u8, 0x22u8, 0x33u8], "work-laptop"@),
        ([0xddu8, 0xeeu8, 0xffu8, 0x44u8, 0x55u8, 0x66u8], "personal-desktop"@),
        ([0x11u8, 0x22u8, 0x33u8, 0x77u8, 0x88u8, 0x99u8], "printer-home-office"@),
        ([0x44u8, 0x55u8, 0x66u8, 0xaau8, 0xbbu8, 0xccu8], "webcam-desk"@),
        ([0x77u8, 0x88u8, 0x99u8, 0xddu8, 0xeeu8, 0xffu8], "tablet-notes"@),
    ]
}

/// The devices of a smart home.
pub open spec fn smart_home_devices() -> Seq<([u8; 6], Seq<char>)> {
    seq![
        ([0x10u8, 0x20u8, 0x30u8, 0x40u8, 0x50u8, 0x60u8], "thermostat-living"@),
        ([0x11u8, 0x21u8, 0x31u8, 0x41u8, 0x51u8, 0x61u8], "doorbell-front"@),
        ([0x12u8, 0x22u8, 0x32u8, 0x42u8, 0x52u8, 0x62u8], "camera-backyard"@),
        ([0x13u8, 0x23u8, 0x33u8, 0x43u8, 0x53u8, 0x63u8], "smart-speaker-kitchen"@),
        ([0x14u8, 0x24u8, 0x34u8, 0x44u8, 0x54u8, 0x64u8], "light-switch-bedroom"@),
        ([0x15u8, 0x25u8, 0x35u8, 0x45u8, 0x55u8, 0x65u8], "motion-sensor-hallway"@),
        ([0x16u8, 0x26u8, 0x36u8, 0x46u8, 0x56u8, 0x66u8], "smart-lock-front-door"@),
        ([0x17u8, 0x27u8, 0x37u8, 0x47u8, 0x57u8, 0x67u8], "garage-door-opener"@),
    ]
}

/// The devices of a small business network.
pub open spec fn business_devices() -> Seq<([u8; 6], Seq<char>)> {
    seq![
        ([0xb0u8, 0xb1u8, 0xb2u8, 0xb3u8, 0xb4u8, 0xb5u8], "server-main"@),
        ([0xb1u8, 0xb2u8, 0xb3u8, 0xb4u8, 0xb5u8, 0xb6u8], "workstation-admin"@),
        ([0xb2u8, 0xb3u8, 0xb4u8, 0xb5u8, 0xb6u8, 0xb7u8], "laptop-sales-01"@),
        ([0xb3u8, 0xb4u8, 0xb5u8, 0xb6u8, 0xb7u8, 0xb8u8], "laptop-sales-02"@),
        ([0xb4u8, 0xb5u8, 0xb6u8, 0xb7u8, 0xb8u8, 0xb9u8], "printer-office-main"@),
        ([0xb5u8, 0xb6u8, 0xb7u8, 0xb8u8, 0xb9u8, 0xbau8], "scanner-reception"@),
        ([0xb6u8, 0xb7u8, 0xb8u8, 0xb9u8, 0xbau8, 0xbbu8], "voip-phone-reception"@),
        ([0xb7u8, 0xb8u8, 0xb9u8, 0xbau8, 0xbbu8, 0xbcu8], "access-point-floor1"@),
        ([0xb8u8, 0xb9u8, 0xbau8, 0xbbu8, 0xbcu8, 0xbdu8], "security-camera-entrance"@),
    ]
}

/// A registry for trying things out, together with the ready-made registries.
pub struct MacHostnameDemo {
    config: MacHostnameConfig,
}

impl MacHostnameDemo {
    /// The mappings of the registry of the demo.
    pub closed spec fn view(&self) -> Seq<([u8; 6], Seq<char>)> {
        self.config@
    }

    /// The registry of the demo is well-formed. Every constructor establishes this.
    pub open spec fn wf(&self) -> bool {
        well_formed(self@)
    }

    /// Creates a demo with an empty registry.
    pub fn new() -> (r: Self)
        ensures
            r@ == Seq::<([u8; 6], Seq<char>)>::empty(),
            r.wf(),
    {
        MacHostnameDemo { config: MacHostnameConfig::new() }
    }

    /// Creates a demo whose registry holds the sample devices.
    pub fn with_sample_devices() -> (r: Result<Self, HostnameError>)
        ensures
            r is Ok,
            r->Ok_0@ == sample_devices(),
            r->Ok_0.wf(),
    {
        proof {
            reveal_strlit("johns-macbook");
            lemma_sanitize_keeps_canonical("johns-macbook"@);
            reveal_strlit("raspberry-pi-4b");
            lemma_sanitize_keeps_canonical("raspberry-pi-4b"@);
            reveal_strlit("arduino-weather");
            lemma_sanitize_keeps_canonical("arduino-weather"@);
            reveal_strlit("security-cam-front");
            lemma_sanitize_keeps_canonical("security-cam-front"@);
            reveal_strlit("smart-tv-living");
            lemma_sanitize_keeps_canonical("smart-tv-living"@);
            reveal_strlit("thermostat-main");
            lemma_sanitize_keeps_canonical("thermostat-main"@);
            reveal_strlit("doorbell-camera");
            lemma_sanitize_keeps_canonical("doorbell-camera"@);
            reveal_strlit("garage-door-sensor");
            lemma_sanitize_keeps_canonical("garage-door-sensor"@);
            reveal_strlit("kitchen-tablet");
            lemma_sanitize_keeps_canonical("kitchen-tablet"@);
            reveal_strlit("office-printer");
            lemma_sanitize_keeps_canonical("office-printer"@);
        }
        let b = StaticMappingsBuilder::new();
        let b = b.add_mac([0xaa, 0xbb, 0xcc, 0xdd, 0xee, 0xff], "johns-macbook")?;
        let b = b.add_mac([0x11, 0x22, 0x33, 0x44, 0x55, 0x66], "raspberry-pi-4b")?;
        let b = b.add_mac([0x77, 0x88, 0x99, 0xaa, 0xbb, 0xcc], "arduino-weather")?;
        let b = b.add_mac([0xdd, 0xee, 0xff, 0x11, 0x22, 0x33], "security-cam-front")?;
        let b = b.add_mac([0x44, 0x55, 0x66, 0x77, 0x88, 0x99], "smart-tv-living")?;
        let b = b.add_mac([0x00, 0x11, 0x22, 0x33, 0x44, 0x55], "thermostat-main")?;
        let b = b.add_mac([0x66, 0x77, 0x88, 0x99, 0xaa, 0xbb], "doorbell-camera")?;
        let b = b.add_mac([0xcc, 0xdd, 0xee, 0xff, 0x00, 0x11], "garage-door-sensor")?;
        let b = b.add_mac([0x22, 0x33, 0x44, 0x55, 0x66, 0x77], "kitchen-tablet")?;
        let b = b.add_mac([0x88, 0x99, 0xaa, 0xbb, 0xcc, 0xdd], "office-printer")?;
        assert(b@ =~= sample_devices());
        proof {
            lemma_well_formed_list_is_kept(b@);
        }
        Ok(MacHostnameDemo { config: b.build() })
    }

    /// The registry of the demo.
    pub fn config(&self) -> (r: &MacHostnameConfig)
        ensures
            r@ == self@,
    {
        &self.config
    }

    /// Creates the registry of a home office.
    pub fn create_home_office_config(&self) -> (r: Result<MacHostnameConfig, HostnameError>)
        ensures
            r is Ok,
            r->Ok_0@ == home_office_devices(),
            r->Ok_0.wf(),
    {
        proof {
            reveal_strlit("work-laptop");
            lemma_sanitize_keeps_canonical("work-laptop"@);
            reveal_strlit("personal-desktop");
            lemma_sanitize_keeps_canonical("personal-desktop"@);
            reveal_strlit("printer-home-office");
            lemma_sanitize_keeps_canonical("printer-home-office"@);
            reveal_strlit("webcam-desk");
            lemma_sanitize_keeps_canonical("webcam-desk"@);
            reveal_strlit("tablet-notes");
            lemma_sanitize_keeps_canonical("tablet-notes"@);
        }
        let b = StaticMappingsBuilder::new();
        let b = b.add_mac([0xaa, 0xbb, 0xcc, 0x11, 0x22, 0x33], "work-laptop")?;
        let b = b.add_mac([0xdd, 0xee, 0xff, 0x44, 0x55, 0x66], "personal-desktop")?;
        let b = b.add_mac([0x11, 0x22, 0x33, 0x77, 0x88, 0x99], "printer-home-office")?;
        let b = b.add_mac([0x44, 0x55, 0x66, 0xaa, 0xbb, 0xcc], "webcam-desk")?;
        let b = b.add_mac([0x77, 0x88, 0x99, 0xdd, 0xee, 0xff], "tablet-notes")?;
        assert(b@ =~= home_office_devices());
        proof {
            lemma_well_formed_list_is_kept(b@);
        }
        Ok(b.build())
    }

    /// Creates the registry of a smart home.
    pub fn create_smart_home_config(&self) -> (r: Result<MacHostnameConfig, HostnameError>)
        ensures
            r is Ok,
            r->Ok_0@ == smart_home_devices(),
            r->Ok_0.wf(),
    {
        proof {
            reveal_strlit("thermostat-living");
            lemma_sanitize_keeps_canonical("thermostat-living"@);
            reveal_strlit("doorbell-front");
            lemma_sanitize_keeps_canonical("doorbell-front"@);
            reveal_strlit("camera-backyard");
            lemma_sanitize_keeps_canonical("camera-backyard"@);
            reveal_strlit("smart-speaker-kitchen");
            lemma_sanitize_keeps_canonical("smart-speaker-kitchen"@);
            reveal_strlit("light-switch-bedroom");
            lemma_sanitize_keeps_canonical("light-switch-bedroom"@);
            reveal_strlit("motion-sensor-hallway");
            lemma_sanitize_keeps_canonical("motion-sensor-hallway"@);
            reveal_strlit("smart-lock-front-door");
            lemma_sanitize_keeps_canonical("smart-lock-front-door"@);
            reveal_strlit("garage-door-opener");
            lemma_sanitize_keeps_canonical("garage-door-opener"@);
        }
        let b = StaticMappingsBuilder::new();
        let b = b.add_mac([0x10, 0x20, 0x30, 0x40, 0x50, 0x60], "thermostat-living")?;
        let b = b.add_mac([0x11, 0x21, 0x31, 0x41, 0x51, 0x61], "doorbell-front")?;
        let b = b.add_mac([0x12, 0x22, 0x32, 0x42, 0x52, 0x62], "camera-backyard")?;
        let b = b.add_mac([0x13, 0x23, 0x33, 0x43, 0x53, 0x63], "smart-speaker-kitchen")?;
        let b = b.add_mac([0x14, 0x24, 0x34, 0x44, 0x54, 0x64], "light-switch-bedroom")?;
        let b = b.add_mac([0x15, 0x25, 0x35, 0x45, 0x55, 0x65], "motion-sensor-hallway")?;
        let b = b.add_mac([0x16, 0x26, 0x36, 0x46, 0x56, 0x66], "smart-lock-front-door")?;
        let b = b.add_mac([0x17, 0x27, 0x37, 0x47, 0x57, 0x67], "garage-door-opener")?;
        assert(b@ =~= smart_home_devices());
        proof {
            lemma_well_formed_list_is_kept(b@);
        }
        Ok(b.build())
    }

    /// Creates the registry of a small business network.
    pub fn create_business_config(&self) -> (r: Result<MacHostnameConfig, HostnameError>)
        ensures
            r is Ok,
            r->Ok_0@ == business_devices(),
            r->Ok_0.wf(),
    {
        proof {
            reveal_strlit("server-main");
            lemma_sanitize_keeps_canonical("server-main"@);
            reveal_strlit("workstation-admin");
            lemma_sanitize_keeps_canonical("workstation-admin"@);
            reveal_strlit("laptop-sales-01");
            lemma_sanitize_keeps_canonical("laptop-sales-01"@);
            reveal_strlit("laptop-sales-02");
            lemma_sanitize_keeps_canonical("laptop-sales-02"@);
            reveal_strlit("printer-office-main");
            lemma_sanitize_keeps_canonical("printer-office-main"@);
            reveal_strlit("scanner-reception");
            lemma_sanitize_keeps_canonical("scanner-reception"@);
            reveal_strlit("voip-phone-reception");
            lemma_sanitize_keeps_canonical("voip-phone-reception"@);
            reveal_strlit("access-point-floor1");
            lemma_sanitize_keeps_canonical("access-point-floor1"@);
            reveal_strlit("security-camera-entrance");
            lemma_sanitize_keeps_canonical("security-camera-entrance"@);
        }
        let b = StaticMappingsBuilder::new();
        let b = b.add_mac([0xb0, 0xb1, 0xb2, 0xb3, 0xb4, 0xb5], "server-main")?;
        let b = b.add_mac([0xb1, 0xb2, 0xb3, 0xb4, 0xb5, 0xb6], "workstation-admin")?;
        let b = b.add_mac([0xb2, 0xb3, 0xb4, 0xb5, 0xb6, 0xb7], "laptop-sales-01")?;
        let b = b.add_mac([0xb3, 0xb4, 0xb5, 0xb6, 0xb7, 0xb8], "laptop-sales-02")?;
        let b = b.add_mac([0xb4, 0xb5, 0xb6, 0xb7, 0xb8, 0xb9], "printer-office-main")?;
        let b = b.add_mac([0xb5, 0xb6, 0xb7, 0xb8, 0xb9, 0xba], "scanner-reception")?;
        let b = b.add_mac([0xb6, 0xb7, 0xb8, 0xb9, 0xba, 0xbb], "voip-phone-reception")?;
        let b = b.add_mac([0xb7, 0xb8, 0xb9, 0xba, 0xbb, 0xbc], "access-point-floor1")?;
        let b = b.add_mac([0xb8, 0xb9, 0xba, 0xbb, 0xbc, 0xbd], "security-camera-entrance")?;
        assert(b@ =~= business_devices());
        proof {
            lemma_well_formed_list_is_kept(b@);
        }
        Ok(b.build())
    }
}

/// The MAC address of the `i`-th device of the workload: a fixed first half, and the low
/// three bytes of `i`.
pub open spec fn workload_mac(i: nat) -> [u8; 6] {
    [0xaau8, 0xbbu8, 0xccu8, ((i / 65536) % 256) as u8, ((i / 256) % 256) as u8, (i % 256) as u8]
}

/// The hostname of the `i`-th device of the workload: `test-device-` and `i` in decimal, with
/// at least four digits.
pub open spec fn workload_hostname(i: nat) -> Seq<char> {
    "test-device-"@ + zero_padded(decimal(i), 4)
}

/// `h` is the hostname of one of the first `i` devices of the workload.
pub open spec fn from_workload(h: Seq<char>, i: nat) -> bool {
    exists|j: nat| j < i && h == workload_hostname(j)
}

/// What a run of the workload counted.
#[derive(Clone, Copy, Debug, PartialEq, Eq)]
pub struct PerformanceCounts {
    /// How many mappings the registry accepted.
    pub added: usize,
    /// How many devices the registry then knew.
    pub found: usize,
}

/// The hostnames of the workload are valid labels in lower case.
pub proof fn lemma_workload_hostname_is_canonical(i: nat)
    requires
        i <= usize::MAX,
    ensures
        canonical_label(workload_hostname(i)),
{
    let d = decimal(i);
    let p = zero_padded(d, 4);
    let h = workload_hostname(i);
    assert(pow10(20) == 100000000000000000000) by {
        reveal_with_fuel(pow10, 21);
    }
    lemma_decimal_shape(i, 20);
    reveal_strlit("test-device-");
    assert forall|k: int| 0 <= k < p.len() implies '0' <= #[trigger] p[k] <= '9' by {
        if d.len() < 4 {
            if k >= 4 - d.len() {
                assert(p[k] == d[k - (4 - d.len())]);
            }
        }
    }
    assert forall|k: int| 0 <= k < h.len() implies label_char(#[trigger] h[k]) && !upper(
        h[k],
    ) by {
        if k >= 12 {
            assert(h[k] == p[k - 12]);
        }
    }
    assert(h.last() == p.last());
}

/// Different devices of the workload have different hostnames.
pub proof fn lemma_workload_hostnames_differ(i: nat, j: nat)
    requires
        i != j,
    ensures
        workload_hostname(i) != workload_hostname(j),
{
    lemma_padded_decimal_differs(i, j, 4);
    let a = workload_hostname(i);
    let b = workload_hostname(j);
    if a == b {
        let n = "test-device-"@.len() as int;
        assert(a.skip(n) =~= zero_padded(decimal(i), 4));
        assert(b.skip(n) =~= zero_padded(decimal(j), 4));
    }
}

/// Adding the `i`-th device of the workload to a registry that holds the devices before it
/// succeeds, and the registry then holds the devices up to the `i`-th.
pub proof fn lemma_workload_step(m: Seq<([u8; 6], Seq<char>)>, i: nat)
    requires
        well_formed(m),
        i <= usize::MAX,
        forall|k: int| 0 <= k < m.len() ==> from_workload((#[trigger] m[k]).1, i),
        forall|j: nat| j < i ==> has_mac(m, #[trigger] workload_mac(j)),
    ensures
        sanitized_local(workload_hostname(i)) == workload_hostname(i),
        add_outcome(m, workload_mac(i), workload_hostname(i)) == Ok::<(), HostnameError>(()),
        well_formed(after_add(m, workload_mac(i), workload_hostname(i))),
        forall|k: int|
            0 <= k < after_add(m, workload_mac(i), workload_hostname(i)).len() ==> from_workload(
                (#[trigger] after_add(m, workload_mac(i), workload_hostname(i))[k]).1,
                i + 1,
            ),
        forall|j: nat|
            j < i + 1 ==> has_mac(
                after_add(m, workload_mac(i), workload_hostname(i)),
                #[trigger] workload_mac(j),
            ),
{
    let mac = workload_mac(i);
    let h = workload_hostname(i);
    lemma_workload_hostname_is_canonical(i);
    lemma_sanitize_keeps_canonical(h);
    assert(!has_hostname(m, h)) by {
        if has_hostname(m, h) {
            let k = index_of_hostname(m, h);
            assert(from_workload(m[k].1, i));
            let j = choose|j: nat| j < i && m[k].1 == workload_hostname(j);
            lemma_workload_hostnames_differ(j, i);
        }
    }
    let n = after_add(m, mac, h);
    lemma_add_keeps_well_formed(m, mac, h);
    assert forall|k: int| 0 <= k < n.len() implies from_workload((#[trigger] n[k]).1, i + 1) by {
        if n[k].1 == h {
            assert(i < i + 1 && n[k].1 == workload_hostname(i));
        } else {
            assert(n[k] == m[k]);
            assert(from_workload(m[k].1, i));
            let j = choose|j: nat| j < i && m[k].1 == workload_hostname(j);
            assert(j < i + 1 && n[k].1 == workload_hostname(j));
        }
    }
    assert forall|j: nat| j < i + 1 implies has_mac(n, #[trigger] workload_mac(j)) by {
        if has_mac(m, workload_mac(j)) {
            let k = index_of_mac(m, workload_mac(j));
            assert(n[k].0 == workload_mac(j));
        } else {
            assert(j == i);
            assert(n[m.len() as int].0 == mac);
        }
    }
}

/// The MAC address of the `i`-th device of the workload.
pub fn workload_mac_of(i: usize) -> (r: [u8; 6])
    ensures
        r == workload_mac(i as nat),
{
    let r: [u8; 6] = [
        0xaa,
        0xbb,
        0xcc,
        ((i / 65536) % 256) as u8,
        ((i / 256) % 256) as u8,
        (i % 256) as u8,
    ];
    assert(r =~= workload_mac(i as nat));
    r
}

/// The hostname of the `i`-th device of the workload, such as `test-device-0007`.
pub fn workload_hostname_of(i: usize) -> (r: String)
    ensures
        r@ == workload_hostname(i as nat),
{
    let digits = decimal_chars(i);
    let padding: usize = if digits.len() < 4 {
        4 - digits.len()
    } else {
        0
    };
    let mut out: Vec<char> = Vec::new();
    push_str(&mut out, "test-device-");
    assert(out@ =~= "test-device-"@ + zeros(0));
    let mut k: usize = 0;
    while k < padding
        invariant
            k <= padding,
            out@ == "test-device-"@ + zeros(k as nat),
        decreases padding - k,
    {
        out.push('0');
        assert(out@ =~= "test-device-"@ + zeros((k + 1) as nat));
        k += 1;
    }
    push_all(&mut out, &digits);
    assert(out@ =~= workload_hostname(i as nat));
    string_of(&out)
}

impl MacHostnameDemo {
    /// Runs the workload on a fresh registry: adds the first `num_mappings` devices of the
    /// workload, then looks each of them up, and returns how many were added and how many
    /// were found. Every device is added and found.
    pub fn run_performance_test(&self, num_mappings: usize) -> (r: Result<
        PerformanceCounts,
        HostnameError,
    >)
        ensures
            r == Ok::<PerformanceCounts, HostnameError>(
                (PerformanceCounts { added: num_mappings, found: num_mappings }),
            ),
    {
        let mut registry = MacHostnameConfig::new();
        let mut added: usize = 0;
        let mut i: usize = 0;
        while i < num_mappings
            invariant
                i <= num_mappings,
                added == i,
                registry.wf(),
                forall|k: int|
                    0 <= k < registry@.len() ==> from_workload((#[trigger] registry@[k]).1, i as nat),
                forall|j: nat| j < i ==> has_mac(registry@, #[trigger] workload_mac(j)),
            decreases num_mappings - i,
        {
            proof {
                lemma_workload_step(registry@, i as nat);
            }
            let mac = workload_mac_of(i);
            let hostname = workload_hostname_of(i);
            match registry.add_mapping(mac, hostname) {
                Ok(()) => {
                    added += 1;
                },
                Err(_) => {},
            }
            i += 1;
        }
        let mut found: usize = 0;
        let mut i: usize = 0;
        while i < num_mappings
            invariant
                i <= num_mappings,
                found == i,
                registry.wf(),
                forall|j: nat| j < num_mappings ==> has_mac(registry@, #[trigger] workload_mac(j)),
            decreases num_mappings - i,
        {
            let mac = workload_mac_of(i);
            assert(has_mac(registry@, workload_mac(i as nat)));
            if registry.get_hostname(mac).is_some() {
                found += 1;
            }
            i += 1;
        }
        Ok(PerformanceCounts { added, found })
    }
}

impl Default for MacHostnameDemo {
    /// The demo with an empty registry.
    fn default() -> (r: Self)
        ensures
            r@ == Seq::<([u8; 6], Seq<char>)>::empty(),
            r.wf(),
    {
        MacHostnameDemo::new()
    }
}

} // verus!
