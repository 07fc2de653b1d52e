use sound_switch::app::{Actions, Command, Job, Note, Outcome, Step};
use sound_switch::audio::{AudioEndpoint, Role};
use sound_switch::config::Config;
use sound_switch::hid::HidEvent;
use sound_switch::state::State;

fn headset() -> AudioEndpoint {
    AudioEndpoint {
        id: "{0.0.0.00000000}.{hs}".to_string(),
        name: "扬声器 (HyperX Cloud Stinger Core Wireless DTS)".to_string(),
    }
}

fn finish(save: bool) -> Command {
    Command::Finish { save }
}

fn actions_with_roles(roles: &[&str]) -> Actions {
    let mut c = Config::default();
    c.roles = roles.iter().map(|s| s.to_string()).collect();
    Actions::new(c, State::default())
}

/// Runs a whole power-on: every role had `realtek` as its default.
fn switch_on(a: &mut Actions, now: u64) -> Vec<Step> {
    let mut steps = vec![a.on_event(HidEvent::PowerOn, now)];
    loop {
        let outcome = match &steps.last().unwrap().command {
            Command::FindEndpoint { .. } => Outcome::Endpoint(Ok(Some(headset()))),
            Command::QueryDefault { .. } => Outcome::CurrentDefault(Ok(Some("realtek".to_string()))),
            Command::SetDefault { .. } => Outcome::Switched(Ok(())),
            Command::Sleep { .. } => Outcome::Slept,
            Command::Finish { .. } => return steps,
        };
        steps.push(a.resume(outcome, now));
    }
}

#[test]
fn new_actions_use_the_state_file() {
    let a = Actions::new(Config::default(), State::default());
    assert_eq!(a.state_path, "state.json");
    assert_eq!(a.job, Job::Idle);
    assert_eq!(a.last_power, None);
    assert!(!a.is_busy());
}

#[test]
fn volume_and_microphone_do_nothing() {
    let mut a = actions_with_roles(&["console"]);
    for ev in [HidEvent::VolumeUp, HidEvent::VolumeDown, HidEvent::MicToggle] {
        let s = a.on_event(ev, 10);
        assert_eq!(s.notes, vec![Note::Ignored(ev)]);
        assert_eq!(s.command, finish(false));
    }
    assert_eq!(a.last_power, None);
}

#[test]
fn power_on_switches_every_role_and_records_the_old_default() {
    let mut a = actions_with_roles(&["console", "multimedia", "communications"]);
    let steps = switch_on(&mut a, 0);
    assert_eq!(
        steps[0].command,
        Command::FindEndpoint { keyword: "HyperX Cloud Stinger Core Wireless".to_string() }
    );
    assert_eq!(steps[0].notes, vec![Note::PowerOnReceived]);
    assert_eq!(steps[1].command, Command::QueryDefault { role: Role::Console });
    assert_eq!(
        steps[2].command,
        Command::SetDefault { endpoint_id: headset().id, role: Role::Console }
    );
    assert_eq!(steps[2].notes, vec![Note::RolePrevious(Role::Console, "realtek".to_string())]);
    assert_eq!(steps.last().unwrap().command, finish(true));
    assert!(a.state.headset_active);
    assert_eq!(a.state.headset_endpoint_id, Some(headset().id));
    assert_eq!(a.state.previous_defaults.len(), 3);
    for i in 0..3 {
        assert_eq!(a.state.previous_defaults.entry(i).1, "realtek");
    }
    assert!(!a.is_busy());
}

#[test]
fn power_off_restores_and_clears() {
    let mut a = actions_with_roles(&["console", "multimedia"]);
    switch_on(&mut a, 0);
    let s = a.on_event(HidEvent::PowerOff, 5000);
    assert_eq!(s.notes, vec![Note::PowerOffReceived]);
    assert_eq!(s.command, Command::QueryDefault { role: Role::Console });
    let s = a.resume(Outcome::CurrentDefault(Ok(Some(headset().id))), 5001);
    assert_eq!(s.command, Command::SetDefault { endpoint_id: "realtek".to_string(), role: Role::Console });
    let s = a.resume(Outcome::Switched(Ok(())), 5002);
    assert_eq!(s.command, Command::QueryDefault { role: Role::Multimedia });
    let s = a.resume(Outcome::CurrentDefault(Err("no device".to_string())), 5003);
    assert_eq!(s.command, Command::SetDefault { endpoint_id: "realtek".to_string(), role: Role::Multimedia });
    let s = a.resume(Outcome::Switched(Err("denied".to_string())), 5004);
    assert_eq!(s.notes, vec![Note::RestoreFailed(Role::Multimedia, "denied".to_string())]);
    assert_eq!(s.command, finish(true));
    assert!(a.state.previous_defaults.is_empty());
    assert!(!a.state.headset_active);
}

#[test]
fn restore_skips_a_role_already_back() {
    let mut a = actions_with_roles(&["console"]);
    switch_on(&mut a, 0);
    a.on_event(HidEvent::PowerOff, 5000);
    let s = a.resume(Outcome::CurrentDefault(Ok(Some("realtek".to_string()))), 5001);
    assert_eq!(s.notes, vec![Note::RestoreNotNeeded(Role::Console)]);
    assert_eq!(s.command, finish(true));
    assert!(a.state.previous_defaults.is_empty());
}

#[test]
fn power_off_without_records_changes_nothing() {
    let mut a = actions_with_roles(&["console"]);
    a.state.headset_active = true;
    let s = a.on_event(HidEvent::PowerOff, 0);
    assert_eq!(s.notes, vec![Note::PowerOffReceived, Note::NothingToRestore]);
    assert_eq!(s.command, finish(false));
    assert!(a.state.headset_active);
}

#[test]
fn repeated_power_report_within_two_seconds_is_ignored() {
    let mut a = actions_with_roles(&["console"]);
    a.on_event(HidEvent::PowerOff, 1000);
    let s = a.on_event(HidEvent::PowerOff, 2999);
    assert!(s.notes.is_empty());
    assert_eq!(s.command, finish(false));
    assert_eq!(a.last_power, Some((HidEvent::PowerOff, 1000)));
    let s = a.on_event(HidEvent::PowerOff, 3000);
    assert_eq!(s.notes, vec![Note::PowerOffReceived, Note::NothingToRestore]);
    assert_eq!(a.last_power, Some((HidEvent::PowerOff, 3000)));
}

#[test]
fn opposite_power_report_is_not_debounced() {
    let mut a = actions_with_roles(&["console"]);
    a.on_event(HidEvent::PowerOff, 1000);
    let s = a.on_event(HidEvent::PowerOn, 1001);
    assert_eq!(s.notes, vec![Note::PowerOnReceived]);
}

#[test]
fn power_on_while_active_is_ignored() {
    let mut a = actions_with_roles(&["console"]);
    a.state.headset_active = true;
    let s = a.on_event(HidEvent::PowerOn, 0);
    assert_eq!(s.notes, vec![Note::AlreadyActive]);
    assert_eq!(s.command, finish(false));
    assert_eq!(a.last_power, Some((HidEvent::PowerOn, 0)));
}

#[test]
fn manual_switch_ignores_the_active_mark() {
    let mut a = actions_with_roles(&["console"]);
    a.state.headset_active = true;
    a.last_power = Some((HidEvent::PowerOn, 0));
    let s = a.manual_set_headset_default(10);
    assert_eq!(s.notes, vec![Note::PowerOnReceived]);
    assert_eq!(a.last_power, None);
    assert_eq!(a.job, Job::Locating { deadline: 15010 });
}

#[test]
fn endpoint_search_waits_then_gives_up() {
    let mut a = actions_with_roles(&["console"]);
    a.on_event(HidEvent::PowerOn, 0);
    let s = a.resume(Outcome::Endpoint(Ok(None)), 100);
    assert_eq!(s.notes, vec![Note::EndpointPending]);
    assert_eq!(s.command, Command::Sleep { ms: 1000 });
    let s = a.resume(Outcome::Slept, 600);
    assert_eq!(s.command, Command::FindEndpoint { keyword: "HyperX Cloud Stinger Core Wireless".to_string() });
    let s = a.resume(Outcome::Endpoint(Ok(None)), 15000);
    assert_eq!(
        s.notes,
        vec![Note::EndpointNotFound("HyperX Cloud Stinger Core Wireless".to_string())]
    );
    assert_eq!(s.command, finish(false));
    assert!(!a.state.headset_active);
}

#[test]
fn endpoint_search_error_gives_up_at_once() {
    let mut a = actions_with_roles(&["console"]);
    a.on_event(HidEvent::PowerOn, 0);
    let s = a.resume(Outcome::Endpoint(Err("COM".to_string())), 1);
    assert_eq!(
        s.notes,
        vec![
            Note::EndpointLookupFailed("COM".to_string()),
            Note::EndpointNotFound("HyperX Cloud Stinger Core Wireless".to_string())
        ]
    );
    assert_eq!(s.command, finish(false));
}

#[test]
fn unknown_roles_are_skipped_with_a_warning() {
    let mut a = actions_with_roles(&["speaker", "Console"]);
    a.on_event(HidEvent::PowerOn, 0);
    let s = a.resume(Outcome::Endpoint(Ok(Some(headset()))), 1);
    assert_eq!(
        s.notes,
        vec![
            Note::TargetEndpoint(headset().name, headset().id),
            Note::UnknownRole("speaker".to_string())
        ]
    );
    assert_eq!(s.command, Command::QueryDefault { role: Role::Console });
}

#[test]
fn role_already_on_headset_is_not_recorded() {
    let mut a = actions_with_roles(&["console"]);
    a.on_event(HidEvent::PowerOn, 0);
    a.resume(Outcome::Endpoint(Ok(Some(headset()))), 1);
    let s = a.resume(Outcome::CurrentDefault(Ok(Some(headset().id))), 2);
    assert_eq!(s.notes, vec![Note::RoleAlreadyHeadset(Role::Console), Note::NothingSwitched]);
    assert_eq!(s.command, finish(false));
    assert!(a.state.previous_defaults.is_empty());
    assert!(!a.state.headset_active);
}

#[test]
fn failed_switch_is_not_recorded() {
    let mut a = actions_with_roles(&["console", "multimedia"]);
    a.on_event(HidEvent::PowerOn, 0);
    a.resume(Outcome::Endpoint(Ok(Some(headset()))), 1);
    a.resume(Outcome::CurrentDefault(Ok(Some("realtek".to_string()))), 2);
    let s = a.resume(Outcome::Switched(Err("denied".to_string())), 3);
    assert_eq!(s.notes, vec![Note::SwitchFailed("denied".to_string())]);
    assert_eq!(s.command, Command::QueryDefault { role: Role::Multimedia });
    let s = a.resume(Outcome::CurrentDefault(Ok(None)), 4);
    assert_eq!(s.notes, vec![Note::RoleHasNoDefault(Role::Multimedia), Note::NothingSwitched]);
    assert_eq!(s.command, finish(false));
    assert!(a.state.previous_defaults.is_empty());
}

#[test]
fn manual_restore_puts_back_recorded_devices() {
    let mut a = actions_with_roles(&["communications"]);
    switch_on(&mut a, 0);
    let s = a.manual_restore();
    assert_eq!(s.notes, vec![Note::PowerOffReceived]);
    assert_eq!(s.command, Command::QueryDefault { role: Role::Communications });
    assert_eq!(a.last_power, None);
}

/// Answers each command as a system whose defaults are `sys` would.
fn run_against(a: &mut Actions, first: Step, sys: &mut Vec<(Role, String)>) {
    let mut step = first;
    loop {
        let outcome = match &step.command {
            Command::FindEndpoint { .. } => Outcome::Endpoint(Ok(Some(headset()))),
            Command::QueryDefault { role } => {
                let cur = sys.iter().find(|(r, _)| r == role).map(|(_, id)| id.clone());
                Outcome::CurrentDefault(Ok(cur))
            }
            Command::SetDefault { endpoint_id, role } => {
                for entry in sys.iter_mut() {
                    if entry.0 == *role {
                        entry.1 = endpoint_id.clone();
                    }
                }
                Outcome::Switched(Ok(()))
            }
            Command::Sleep { .. } => Outcome::Slept,
            Command::Finish { .. } => return,
        };
        step = a.resume(outcome, 0);
    }
}

#[test]
fn power_cycle_gives_each_role_its_own_device_back() {
    let mut a = actions_with_roles(&["console", "multimedia", "communications"]);
    let before = vec![
        (Role::Console, "speakers".to_string()),
        (Role::Multimedia, "monitor".to_string()),
        (Role::Communications, "webcam-mic".to_string()),
    ];
    let mut sys = before.clone();
    let s = a.on_event(HidEvent::PowerOn, 10_000);
    run_against(&mut a, s, &mut sys);
    for (_, id) in &sys {
        assert_eq!(id, &headset().id);
    }
    assert!(a.state.headset_active);
    let s = a.on_event(HidEvent::PowerOff, 20_000);
    run_against(&mut a, s, &mut sys);
    assert_eq!(sys, before);
    assert!(a.state.previous_defaults.is_empty());
    assert!(!a.state.headset_active);
    assert_eq!(a.state.headset_endpoint_id, Some(headset().id));
}

#[test]
fn endpoint_deadline_saturates_at_the_clock_end() {
    let mut a = actions_with_roles(&["console"]);
    let s = a.manual_set_headset_default(u64::MAX - 5);
    assert_eq!(s.notes, vec![Note::PowerOnReceived]);
    assert_eq!(a.job, Job::Locating { deadline: u64::MAX });
}

#[test]
fn power_cycle_skips_unknown_names_and_roles_on_the_headset() {
    let mut a = actions_with_roles(&["console", "speakers", "multimedia"]);
    let before = vec![
        (Role::Console, "speakers-dev".to_string()),
        (Role::Multimedia, "monitor".to_string()),
        (Role::Communications, headset().id),
    ];
    let mut sys = before.clone();
    let s = a.on_event(HidEvent::PowerOn, 10_000);
    run_against(&mut a, s, &mut sys);
    assert_eq!(a.state.previous_defaults.len(), 2);
    assert!(a.state.headset_active);
    let s = a.on_event(HidEvent::PowerOff, 20_000);
    run_against(&mut a, s, &mut sys);
    assert_eq!(sys, before);
    assert!(a.state.previous_defaults.is_empty());
    assert!(!a.state.headset_active);
    assert_eq!(a.state.headset_endpoint_id, Some(headset().id));
}

#[test]
fn power_cycle_with_every_role_on_the_headset_changes_nothing() {
    let mut a = actions_with_roles(&["console", "communications"]);
    let before = vec![(Role::Console, headset().id), (Role::Communications, headset().id)];
    let mut sys = before.clone();
    let s = a.on_event(HidEvent::PowerOn, 10_000);
    run_against(&mut a, s, &mut sys);
    assert!(!a.state.headset_active);
    let s = a.on_event(HidEvent::PowerOff, 20_000);
    assert_eq!(s.notes, vec![Note::PowerOffReceived, Note::NothingToRestore]);
    run_against(&mut a, s, &mut sys);
    assert_eq!(sys, before);
    assert!(a.state.previous_defaults.is_empty());
    assert_eq!(a.state.headset_endpoint_id, None);
}

#[test]
fn power_cycle_leaves_a_role_without_device_alone() {
    let mut a = actions_with_roles(&["console", "multimedia"]);
    // multimedia has no default device; communications, not configured, has an empty id
    let before = vec![(Role::Console, "speakers-dev".to_string()), (Role::Communications, String::new())];
    let mut sys = before.clone();
    let s = a.on_event(HidEvent::PowerOn, 10_000);
    run_against(&mut a, s, &mut sys);
    assert_eq!(a.state.previous_defaults.len(), 1);
    let s = a.on_event(HidEvent::PowerOff, 20_000);
    run_against(&mut a, s, &mut sys);
    assert_eq!(sys, before);
    assert!(a.state.previous_defaults.is_empty());
    assert!(!a.state.headset_active);
}
