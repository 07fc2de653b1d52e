use sound_switch::log::{debug, dry_run, error, info, init, level_num, warn, Level, Sink};

fn sink(file_open: bool, written: u64) -> Sink {
    Sink { file_open, written }
}

#[test]
fn level_names_rank_ignoring_case() {
    assert_eq!(level_num("error"), 0);
    assert_eq!(level_num("WARN"), 1);
    assert_eq!(level_num("Info"), 2);
    assert_eq!(level_num("debug"), 3);
    assert_eq!(level_num("verbose"), 2);
    assert_eq!(level_num(""), 2);
}

#[test]
fn limit_is_given_in_kib() {
    let l = init("logs/sound_switch.log".to_string(), "info", false, 512, sink(true, 0));
    assert_eq!(l.max_bytes, 512 * 1024);
    assert_eq!(l.level, 2);
    let huge = init(String::new(), "info", false, u64::MAX, sink(true, 0));
    assert_eq!(huge.max_bytes, u64::MAX);
}

#[test]
fn messages_above_the_level_are_dropped() {
    let l = init(String::new(), "info", false, 512, sink(true, 0));
    assert!(debug(Some(&l), "raw data", "T").is_none());
    assert!(info(Some(&l), "switched", "T").is_some());
    assert!(warn(Some(&l), "w", "T").is_some());
    assert!(error(Some(&l), "e", "T").is_some());
    let quiet = init(String::new(), "error", false, 512, sink(true, 0));
    assert!(warn(Some(&quiet), "w", "T").is_none());
}

#[test]
fn nothing_is_written_before_setup() {
    assert!(error(None, "e", "T").is_none());
    assert!(!dry_run(None));
}

#[test]
fn line_layout() {
    let l = init(String::new(), "debug", false, 512, sink(true, 0));
    let e = warn(Some(&l), "打开失败", "2026-09-10 00:20:00.000").unwrap();
    assert_eq!(e.line, "2026-09-10 00:20:00.000 [WARN] 打开失败\n");
    assert!(!e.rotate_first);
}

#[test]
fn dry_run_marks_info_and_debug_only() {
    let l = init(String::new(), "debug", true, 512, sink(true, 0));
    assert!(dry_run(Some(&l)));
    assert_eq!(info(Some(&l), "m", "T").unwrap().line, "T [INFO] [dry-run] m\n");
    assert_eq!(debug(Some(&l), "m", "T").unwrap().line, "T [DEBUG] [dry-run] m\n");
    assert_eq!(error(Some(&l), "m", "T").unwrap().line, "T [ERROR] m\n");
}

#[test]
fn rotation_before_exceeding_the_limit() {
    // "T [INFO] m\n" is 11 bytes; the limit is 1 KiB
    let almost = init(String::new(), "info", false, 1, sink(true, 1024 - 11));
    assert!(!sound_switch::log::write(Some(&almost), Level::Info, "m", "T").unwrap().rotate_first);
    let full = init(String::new(), "info", false, 1, sink(true, 1024 - 10));
    assert!(sound_switch::log::write(Some(&full), Level::Info, "m", "T").unwrap().rotate_first);
}

#[test]
fn no_rotation_without_limit_or_file() {
    let unlimited = init(String::new(), "info", false, 0, sink(true, u64::MAX - 3));
    assert!(!info(Some(&unlimited), "m", "T").unwrap().rotate_first);
    let console_only = init(String::new(), "info", false, 1, sink(false, 5000));
    assert!(!info(Some(&console_only), "m", "T").unwrap().rotate_first);
}

#[test]
fn byte_length_counts_utf8() {
    // "T [INFO] 耳\n" is 13 bytes but 11 characters
    let l = init(String::new(), "info", false, 1, sink(true, 1024 - 12));
    assert!(info(Some(&l), "耳", "T").unwrap().rotate_first);
}

#[test]
fn file_bookkeeping() {
    let mut l = init(String::new(), "info", false, 1, sink(true, 1000));
    l.rotated(Some(0));
    assert_eq!(l.sink, sink(true, 0));
    l.file_written(true, 11);
    assert_eq!(l.sink, sink(true, 11));
    l.file_written(false, 11);
    assert_eq!(l.sink, sink(false, 11));
    l.rotated(None);
    assert_eq!(l.sink, sink(false, 0));
}

#[test]
fn byte_count_stops_at_the_largest_value() {
    let mut l = init(String::new(), "info", false, 0, sink(true, u64::MAX - 5));
    l.file_written(true, 11);
    assert_eq!(l.sink, sink(true, u64::MAX));
}
