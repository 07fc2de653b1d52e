use sound_switch::config::Config;
use sound_switch::hid::{accepts_device, parse_report, short_label, HidEvent, WarnedPaths};

#[test]
fn power_on_report_is_recognised() {
    assert_eq!(parse_report(&[0x64, 0x01]), Some(HidEvent::PowerOn));
}

#[test]
fn power_off_report_is_recognised() {
    assert_eq!(parse_report(&[0x64, 0x03]), Some(HidEvent::PowerOff));
}

#[test]
fn volume_reports_are_recognised() {
    assert_eq!(parse_report(&[0x01, 0x01, 0x00, 0x00, 0x00]), Some(HidEvent::VolumeUp));
    assert_eq!(parse_report(&[0x01, 0x02, 0x00, 0x00, 0x00]), Some(HidEvent::VolumeDown));
}

#[test]
fn both_microphone_reports_toggle() {
    assert_eq!(parse_report(&[0x65, 0x00]), Some(HidEvent::MicToggle));
    assert_eq!(parse_report(&[0x65, 0x04]), Some(HidEvent::MicToggle));
}

#[test]
fn leading_report_id_is_tolerated() {
    assert_eq!(parse_report(&[0x00, 0x64, 0x01]), Some(HidEvent::PowerOn));
    assert_eq!(parse_report(&[0x00, 0x64, 0x03]), Some(HidEvent::PowerOff));
    assert_eq!(parse_report(&[0x00, 0x65, 0x04]), Some(HidEvent::MicToggle));
    assert_eq!(
        parse_report(&[0x00, 0x01, 0x02, 0x00, 0x00, 0x00]),
        Some(HidEvent::VolumeDown)
    );
}

#[test]
fn only_one_leading_report_id_is_tolerated() {
    assert_eq!(parse_report(&[0x00, 0x00, 0x64, 0x01]), None);
}

#[test]
fn unknown_and_partial_reports_are_ignored() {
    assert_eq!(parse_report(&[]), None);
    assert_eq!(parse_report(&[0x00]), None);
    assert_eq!(parse_report(&[0x64]), None);
    assert_eq!(parse_report(&[0x64, 0x02]), None);
    assert_eq!(parse_report(&[0x64, 0x01, 0x00]), None);
    assert_eq!(parse_report(&[0x01, 0x01, 0x00, 0x00]), None);
}

#[test]
fn label_runs_from_vendor_id_to_next_hash() {
    let path = r"\\?\HID#VID_03F0&PID_0A8E&MI_03&Col02#8&2b1d5ec0&0&0001#{4d1e55b2-f16f-11cf-88cb-001111000030}";
    assert_eq!(short_label(path), "VID_03F0&PID_0A8E&MI_03&Col02");
}

#[test]
fn label_without_hash_after_vendor_id_keeps_the_rest() {
    assert_eq!(short_label("dev/VID_1234&PID_5678"), "VID_1234&PID_5678");
}

#[test]
fn label_without_vendor_id_stops_at_last_hash() {
    assert_eq!(short_label("a#b#c"), "a#b");
    assert_eq!(short_label("plain"), "plain");
    assert_eq!(short_label(""), "");
}

#[test]
fn failing_path_is_reported_once() {
    let mut warned = WarnedPaths::new();
    assert!(warned.insert("p1"));
    assert!(!warned.insert("p1"));
    assert!(warned.insert("p2"));
    warned.remove("p1");
    assert!(warned.insert("p1"));
    assert!(!warned.insert("p2"));
}

#[test]
fn device_filter_needs_both_ids() {
    let cfg = Config::default();
    assert!(accepts_device(&cfg, 1008, 2702));
    assert!(!accepts_device(&cfg, 1008, 2703));
    assert!(!accepts_device(&cfg, 1009, 2702));
}
