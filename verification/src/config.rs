//! Settings of the switcher, with the values used when a key is absent.

use vstd::prelude::*;

verus! {

/// Name of the configuration file, relative to the working directory.
pub const DEFAULT_CONFIG: &'static str = "config.json";

/// Everything that can be configured.
#[derive(Debug, Clone)]
pub struct Config {
    /// Vendor id of the headset receiver's HID collections.
    pub vendor_id: u16,
    /// Product id of the headset receiver's HID collections.
    pub product_id: u16,
    /// Text that identifies the headset among the playback endpoints; case is ignored.
    pub audio_keyword: String,
    /// Roles switched on power-on and restored on power-off
    /// (`console`, `multimedia`, `communications`).
    pub roles: Vec<String>,
    /// Interval between two enumerations of HID devices, in milliseconds.
    pub rescan_interval_ms: u64,
    /// Upper bound of one HID read, in milliseconds.
    pub read_timeout_ms: i32,
    /// How long to wait for the headset endpoint after power-on, in milliseconds.
    pub endpoint_wait_ms: u64,
    /// Only report what would be switched.
    pub dry_run: bool,
    /// `error`, `warn`, `info` or `debug`.
    pub log_level: String,
    /// Size limit of one log file, in KiB; 0 means no limit.
    pub log_max_kb: u64,
}

impl Config {
    /// The configuration used when the file names no value.
    pub open spec fn is_default(&self) -> bool {
        &&& self.vendor_id == 1008
        &&& self.product_id == 2702
        &&& self.audio_keyword@ == "HyperX Cloud Stinger Core Wireless"@
        &&& self.roles@.len() == 3
        &&& self.roles@[0]@ == "console"@
        &&& self.roles@[1]@ == "multimedia"@
        &&& self.roles@[2]@ == "communications"@
        &&& self.rescan_interval_ms == 1500
        &&& self.read_timeout_ms == 200
        &&& self.endpoint_wait_ms == 15000
        &&& !self.dry_run
        &&& self.log_level@ == "info"@
        &&& self.log_max_kb == 512
    }
}

impl Default for Config {
    fn default() -> (c: Self)
        ensures
            c.is_default(),
    {
        let roles: Vec<String> = vec![
            String::from_str("console"),
            String::from_str("multimedia"),
            String::from_str("communications"),
        ];
        Config {
            vendor_id: 1008,
            product_id: 2702,
            audio_keyword: String::from_str("HyperX Cloud Stinger Core Wireless"),
            roles,
            rescan_interval_ms: 1500,
            read_timeout_ms: 200,
            endpoint_wait_ms: 15000,
            dry_run: false,
            log_level: String::from_str("info"),
            log_max_kb: 512,
        }
    }
}

} // verus!
