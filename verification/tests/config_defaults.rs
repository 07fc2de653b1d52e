use sound_switch::cli::{parse_args, ArgError, Args, Cli};
use sound_switch::config::{Config, DEFAULT_CONFIG};
use sound_switch::state::{State, DEFAULT_STATE};
use sound_switch::launch::pick_workdir;

fn strings(v: &[&str]) -> Vec<String> {
    v.iter().map(|s| s.to_string()).collect()
}

#[test]
fn default_configuration_matches_the_readme() {
    let c = Config::default();
    assert_eq!(c.vendor_id, 1008);
    assert_eq!(c.product_id, 2702);
    assert_eq!(c.audio_keyword, "HyperX Cloud Stinger Core Wireless");
    assert_eq!(c.roles, strings(&["console", "multimedia", "communications"]));
    assert_eq!(c.rescan_interval_ms, 1500);
    assert_eq!(c.read_timeout_ms, 200);
    assert_eq!(c.endpoint_wait_ms, 15000);
    assert!(!c.dry_run);
    assert_eq!(c.log_level, "info");
    assert_eq!(c.log_max_kb, 512);
    assert_eq!(DEFAULT_CONFIG, "config.json");
}

#[test]
fn default_state_records_nothing() {
    let s = State::default();
    assert!(!s.headset_active);
    assert!(s.previous_defaults.is_empty());
    assert_eq!(s.headset_endpoint_id, None);
    assert_eq!(DEFAULT_STATE, "state.json");
}

#[test]
fn no_arguments_means_run_with_default_config() {
    assert_eq!(
        parse_args(&Vec::new()),
        Ok(Cli::Run(Args { cmd: "run".to_string(), config: "config.json".to_string(), dry_run: false }))
    );
}

#[test]
fn command_config_and_dry_run_are_read() {
    assert_eq!(
        parse_args(&strings(&["list", "--config", "other.json", "--dry-run"])),
        Ok(Cli::Run(Args { cmd: "list".to_string(), config: "other.json".to_string(), dry_run: true }))
    );
}

#[test]
fn last_command_wins() {
    assert_eq!(
        parse_args(&strings(&["status", "restore"])),
        Ok(Cli::Run(Args { cmd: "restore".to_string(), config: "config.json".to_string(), dry_run: false }))
    );
}

#[test]
fn help_stops_reading() {
    assert_eq!(parse_args(&strings(&["--help", "--bogus"])), Ok(Cli::Help));
    assert_eq!(parse_args(&strings(&["list", "-h"])), Ok(Cli::Help));
}

#[test]
fn config_needs_a_value() {
    assert_eq!(parse_args(&strings(&["--config"])), Err(ArgError::MissingConfigValue));
}

#[test]
fn unknown_option_is_refused() {
    assert_eq!(
        parse_args(&strings(&["--verbose"])),
        Err(ArgError::Unknown("--verbose".to_string()))
    );
    assert_eq!(parse_args(&strings(&["-x"])), Ok(Cli::Run(Args { cmd: "-x".to_string(), config: "config.json".to_string(), dry_run: false })));
}

#[test]
fn launcher_keeps_a_working_directory_with_config() {
    assert_eq!(pick_workdir(true, &vec![true, true, true]), None);
    assert_eq!(pick_workdir(false, &vec![false, true, true]), Some(1));
    assert_eq!(pick_workdir(false, &vec![true, false, false]), Some(0));
    assert_eq!(pick_workdir(false, &vec![false, false, false]), None);
    assert_eq!(pick_workdir(false, &vec![]), None);
}
