//! From headset events to audio actions.
//!
//! A power-on report makes the headset the default playback device for each
//! configured role, remembering the device it replaced; a power-off report
//! puts the remembered devices back. Finding the endpoint, asking for and
//! setting a default device, waiting and persisting the state are work for
//! the caller: `Actions` answers every event and every result of that work
//! with the next `Step`, the notes to log and the command to perform.

use vstd::prelude::*;
use crate::audio::{parse_role, role_from_name, AudioEndpoint, Role};
use crate::config::Config;
use crate::hid::HidEvent;
use crate::state::{State, DEFAULT_STATE};

verus! {

/// A repeated power report of the same kind within this many milliseconds is ignored.
pub const DEBOUNCE_MS: u64 = 2000;

/// Pause between two searches for the headset endpoint, in milliseconds: the
/// endpoint is looked for again every second until `endpoint_wait_ms` has passed.
pub const ENDPOINT_RETRY_MS: u64 = 1000;

/// Something worth a log line, in the order it happened.
#[derive(Debug, Clone, PartialEq, Eq)]
pub enum Note {
    /// A volume or microphone report, which calls for no action (debug level).
    Ignored(HidEvent),
    /// Power-on while the headset is already the default (debug level).
    AlreadyActive,
    /// A power-on report is being handled.
    PowerOnReceived,
    /// The headset endpoint is not listed yet; waiting (debug level).
    EndpointPending,
    /// Listing the endpoints failed with this message (error level).
    EndpointLookupFailed(String),
    /// No endpoint matched the keyword in time; nothing is switched (error level).
    EndpointNotFound(String),
    /// The endpoint that will become the default: name and id.
    TargetEndpoint(String, String),
    /// A configured role name that names no role (warning level).
    UnknownRole(String),
    /// The role's default already is the headset; nothing is recorded for it.
    RoleAlreadyHeadset(Role),
    /// The role's default before the switch.
    RolePrevious(Role, String),
    /// Setting the default failed with this message (error level).
    SwitchFailed(String),
    /// The role has no default device (warning level).
    RoleHasNoDefault(Role),
    /// Asking for the default failed with this message (error level).
    DefaultQueryFailed(String),
    /// No role was switched.
    NothingSwitched,
    /// A power-off report is being handled.
    PowerOffReceived,
    /// There is no recorded device to put back.
    NothingToRestore,
    /// The role's default already is the recorded device.
    RestoreNotNeeded(Role),
    /// Putting the recorded device back failed with this message (error level).
    RestoreFailed(Role, String),
}

/// Work for the caller.
#[derive(Debug, Clone, PartialEq, Eq)]
pub enum Command {
    /// List the active playback endpoints and pick the one matching the keyword;
    /// answer with `Outcome::Endpoint`.
    FindEndpoint { keyword: String },
    /// Wait this many milliseconds; answer with `Outcome::Slept`.
    Sleep { ms: u64 },
    /// Ask for the role's default playback device; answer with `Outcome::CurrentDefault`.
    QueryDefault { role: Role },
    /// Make the endpoint the role's default; answer with `Outcome::Switched`.
    SetDefault { endpoint_id: String, role: Role },
    /// The event is handled; when `save` holds, write `state` to `state_path` first.
    Finish { save: bool },
}

/// The notes to log, then the command to perform.
#[derive(Debug, Clone, PartialEq, Eq)]
pub struct Step {
    pub notes: Vec<Note>,
    pub command: Command,
}

/// The result of a command, handed back to `Actions::resume`.
#[derive(Debug, PartialEq, Eq)]
pub enum Outcome {
    Endpoint(Result<Option<AudioEndpoint>, String>),
    Slept,
    CurrentDefault(Result<Option<String>, String>),
    Switched(Result<(), String>),
}

/// The operation in progress and the command it waits for.
#[derive(Debug, Clone, PartialEq, Eq)]
pub enum Job {
    Idle,
    /// Searching for the headset endpoint until `deadline`.
    Locating { deadline: u64 },
    /// Pausing before the next search.
    Pausing { deadline: u64 },
    /// Asking for the default of `config.roles[index]`.
    Querying { target: AudioEndpoint, index: usize, role: Role, any_switch: bool },
    /// Switching `config.roles[index]` away from `previous`.
    Switching {
        target: AudioEndpoint,
        index: usize,
        role: Role,
        any_switch: bool,
        previous: String,
    },
    /// Asking for the current default before putting back record `index`.
    CheckingRestore { index: usize, role: Role },
    /// Putting back record `index`.
    Restoring { index: usize, role: Role },
}

/// Whether `outcome` answers the command that `job` waits for.
pub open spec fn answers(job: Job, outcome: Outcome) -> bool {
    match job {
        Job::Idle => false,
        Job::Locating { .. } => outcome is Endpoint,
        Job::Pausing { .. } => outcome is Slept,
        Job::Querying { .. } => outcome is CurrentDefault,
        Job::CheckingRestore { .. } => outcome is CurrentDefault,
        Job::Switching { .. } => outcome is Switched,
        Job::Restoring { .. } => outcome is Switched,
    }
}

/// The first position at or after `i` whose role name names a role.
pub open spec fn next_known_role(roles: Seq<String>, i: int) -> int
    decreases roles.len() - i,
{
    if i >= roles.len() {
        roles.len() as int
    } else if role_from_name(roles[i]@) is Some {
        i
    } else {
        next_known_role(roles, i + 1)
    }
}

/// The warnings for the role names skipped between `from` and `to`.
pub open spec fn skipped_roles(roles: Seq<String>, from: int, to: int) -> Seq<Note> {
    Seq::new((to - from) as nat, |k: int| Note::UnknownRole(roles[from + k]))
}

/// A record is put back when its device id is not empty and its name names a role.
pub open spec fn restorable(entry: (Seq<char>, Seq<char>)) -> bool {
    entry.1.len() > 0 && role_from_name(entry.0) is Some
}

/// The first record at or after `i` that is put back.
pub open spec fn next_restorable(entries: Seq<(Seq<char>, Seq<char>)>, i: int) -> int
    decreases entries.len() - i,
{
    if i >= entries.len() {
        entries.len() as int
    } else if restorable(entries[i]) {
        i
    } else {
        next_restorable(entries, i + 1)
    }
}

/// The end of the search for the headset endpoint: `wait` milliseconds after
/// `now`, or the end of the clock when that lies beyond it.
pub open spec fn deadline_after(now: u64, wait: u64) -> u64 {
    if now + wait > u64::MAX {
        u64::MAX
    } else {
        (now + wait) as u64
    }
}

/// Elapsed milliseconds since `at`, zero when `now` is earlier.
pub open spec fn elapsed(at: u64, now: u64) -> int {
    if now >= at {
        now - at
    } else {
        0
    }
}

/// A power report `ev` at `now` repeats the last one within the debounce window.
pub open spec fn debounced(last: Option<(HidEvent, u64)>, ev: HidEvent, now: u64) -> bool {
    match last {
        Some((prev, at)) => ((prev == HidEvent::PowerOn) == (ev == HidEvent::PowerOn)) && elapsed(
            at,
            now,
        ) < DEBOUNCE_MS,
        None => false,
    }
}

/// The state holds these values.
pub open spec fn state_is(
    s: State,
    active: bool,
    defaults: Map<Seq<char>, Seq<char>>,
    endpoint: Option<String>,
) -> bool {
    &&& s.headset_active == active
    &&& s.previous_defaults@ == defaults
    &&& s.headset_endpoint_id == endpoint
}

/// Event handling and the state it keeps.
pub struct Actions {
    pub config: Config,
    pub state_path: String,
    pub state: State,
    /// The last power report acted upon and when it came, in milliseconds.
    pub last_power: Option<(HidEvent, u64)>,
    /// The operation in progress; change it only through the methods below.
    pub job: Job,
}

/// The configuration and the state file stay as they were.
pub open spec fn same_setup(pre: Actions, post: Actions) -> bool {
    &&& post.config == pre.config
    &&& post.state_path == pre.state_path
}

/// Nothing changes but the job, which ends, and the step finishes without saving.
pub open spec fn finished_unchanged(pre: Actions, post: Actions, notes: Seq<Note>, step: Step) -> bool {
    &&& same_setup(pre, post)
    &&& post.last_power == pre.last_power
    &&& post.state == pre.state
    &&& post.job == Job::Idle
    &&& step.notes@ == notes
    &&& step.command == (Command::Finish { save: false })
}

/// Power-on handling has started: the search for the headset endpoint begins.
pub open spec fn power_on_started(pre: Actions, post: Actions, now: u64, notes: Seq<Note>, step: Step) -> bool {
    &&& post.config == pre.config
    &&& post.state_path == pre.state_path
    &&& post.state == pre.state
    &&& post.job == (Job::Locating { deadline: deadline_after(now, pre.config.endpoint_wait_ms) })
    &&& step.command == (Command::FindEndpoint { keyword: pre.config.audio_keyword })
    &&& step.notes@ == notes.push(Note::PowerOnReceived)
}

/// Switching goes on at role position `i`, with the record holding `defaults`:
/// unknown role names are skipped with a warning; the next known role is
/// queried; after the last one, the headset is marked active and the state
/// saved when some role was switched.
pub open spec fn switching_continued(
    pre: Actions,
    post: Actions,
    target: AudioEndpoint,
    i: int,
    any_switch: bool,
    defaults: Map<Seq<char>, Seq<char>>,
    notes: Seq<Note>,
    step: Step,
) -> bool {
    let roles = pre.config.roles@;
    let j = next_known_role(roles, i);
    &&& same_setup(pre, post)
    &&& if j < roles.len() {
        let role = role_from_name(roles[j]@)->0;
        &&& state_is(
            post.state,
            pre.state.headset_active,
            defaults,
            pre.state.headset_endpoint_id,
        )
        &&& post.job == (Job::Querying { target, index: j as usize, role, any_switch })
        &&& step.command == (Command::QueryDefault { role })
        &&& step.notes@ == notes + skipped_roles(roles, i, j)
    } else if any_switch {
        &&& state_is(post.state, true, defaults, Some(target.id))
        &&& post.job == Job::Idle
        &&& step.command == (Command::Finish { save: true })
        &&& step.notes@ == notes + skipped_roles(roles, i, j)
    } else {
        &&& state_is(
            post.state,
            pre.state.headset_active,
            defaults,
            pre.state.headset_endpoint_id,
        )
        &&& post.job == Job::Idle
        &&& step.command == (Command::Finish { save: false })
        &&& step.notes@ == (notes + skipped_roles(roles, i, j)).push(Note::NothingSwitched)
    }
}

/// Putting back goes on at record position `i` (records are visited in
/// ascending order of role name; empty ids and unknown names are skipped);
/// after the last record, the records are cleared, the headset is marked
/// inactive and the state saved.
pub open spec fn restoring_continued(
    pre: Actions,
    post: Actions,
    i: int,
    notes: Seq<Note>,
    step: Step,
) -> bool {
    let entries = pre.state.previous_defaults.entries();
    let j = next_restorable(entries, i);
    &&& same_setup(pre, post)
    &&& step.notes@ == notes
    &&& if j < entries.len() {
        let role = role_from_name(entries[j].0)->0;
        &&& post.state == pre.state
        &&& post.job == (Job::CheckingRestore { index: j as usize, role })
        &&& step.command == (Command::QueryDefault { role })
    } else {
        &&& state_is(
            post.state,
            false,
            Map::<Seq<char>, Seq<char>>::empty(),
            pre.state.headset_endpoint_id,
        )
        &&& post.state.previous_defaults.entries() == Seq::<(Seq<char>, Seq<char>)>::empty()
        &&& post.job == Job::Idle
        &&& step.command == (Command::Finish { save: true })
    }
}

/// Power-off handling has started: with records, putting back starts at the
/// first one; without, nothing changes.
pub open spec fn power_off_started(pre: Actions, post: Actions, notes: Seq<Note>, step: Step) -> bool {
    let notes = notes.push(Note::PowerOffReceived);
    if pre.state.previous_defaults.entries().len() == 0 {
        &&& post.config == pre.config
        &&& post.state_path == pre.state_path
        &&& post.state == pre.state
        &&& post.job == Job::Idle
        &&& step.notes@ == notes.push(Note::NothingToRestore)
        &&& step.command == (Command::Finish { save: false })
    } else {
        &&& restoring_continued(pre, post, 0, notes, step)
    }
}

/// What handling one HID event leads to: volume and microphone reports and
/// repeated power reports change nothing; power-on while the headset is
/// active only notes it; otherwise power-on starts the search for the
/// headset and power-off starts putting the records back.
pub open spec fn event_handled(pre: Actions, post: Actions, ev: HidEvent, now: u64, step: Step) -> bool {
    match ev {
        HidEvent::PowerOn | HidEvent::PowerOff => if debounced(pre.last_power, ev, now) {
            finished_unchanged(pre, post, Seq::empty(), step)
        } else {
            &&& post.last_power == Some((ev, now))
            &&& if ev == HidEvent::PowerOff {
                power_off_started(pre, post, Seq::empty(), step)
            } else if pre.state.headset_active {
                &&& post.config == pre.config
                &&& post.state_path == pre.state_path
                &&& post.state == pre.state
                &&& post.job == Job::Idle
                &&& step.notes@ == seq![Note::AlreadyActive]
                &&& step.command == (Command::Finish { save: false })
            } else {
                power_on_started(pre, post, now, Seq::empty(), step)
            }
        },
        _ => finished_unchanged(pre, post, seq![Note::Ignored(ev)], step),
    }
}

/// What one answer to the command in progress leads to.
pub open spec fn resumed(pre: Actions, post: Actions, outcome: Outcome, now: u64, step: Step) -> bool {
    let defaults = pre.state.previous_defaults@;
    &&& post.last_power == pre.last_power
    &&& match pre.job {
        Job::Locating { deadline } => match outcome {
            Outcome::Endpoint(Ok(Some(ep))) => switching_continued(
                pre,
                post,
                ep,
                0,
                false,
                defaults,
                seq![Note::TargetEndpoint(ep.name, ep.id)],
                step,
            ),
            Outcome::Endpoint(Ok(None)) => if now >= deadline {
                finished_unchanged(
                    pre,
                    post,
                    seq![Note::EndpointNotFound(pre.config.audio_keyword)],
                    step,
                )
            } else {
                &&& same_setup(pre, post)
                &&& post.state == pre.state
                &&& post.job == (Job::Pausing { deadline })
                &&& step.notes@ == seq![Note::EndpointPending]
                &&& step.command == (Command::Sleep { ms: ENDPOINT_RETRY_MS })
            },
            Outcome::Endpoint(Err(e)) => finished_unchanged(
                pre,
                post,
                seq![Note::EndpointLookupFailed(e), Note::EndpointNotFound(pre.config.audio_keyword)],
                step,
            ),
            _ => false,
        },
        Job::Pausing { deadline } => {
            &&& same_setup(pre, post)
            &&& post.state == pre.state
            &&& post.job == (Job::Locating { deadline })
            &&& step.notes@ == Seq::<Note>::empty()
            &&& step.command == (Command::FindEndpoint { keyword: pre.config.audio_keyword })
        },
        Job::Querying { target, index, role, any_switch } => match outcome {
            Outcome::CurrentDefault(Ok(Some(cur))) => if cur@ == target.id@ {
                switching_continued(
                    pre,
                    post,
                    target,
                    index + 1,
                    any_switch,
                    defaults,
                    seq![Note::RoleAlreadyHeadset(role)],
                    step,
                )
            } else {
                &&& same_setup(pre, post)
                &&& post.state == pre.state
                &&& post.job == (Job::Switching { target, index, role, any_switch, previous: cur })
                &&& step.notes@ == seq![Note::RolePrevious(role, cur)]
                &&& step.command == (Command::SetDefault { endpoint_id: target.id, role })
            },
            Outcome::CurrentDefault(Ok(None)) => switching_continued(
                pre,
                post,
                target,
                index + 1,
                any_switch,
                defaults,
                seq![Note::RoleHasNoDefault(role)],
                step,
            ),
            Outcome::CurrentDefault(Err(e)) => switching_continued(
                pre,
                post,
                target,
                index + 1,
                any_switch,
                defaults,
                seq![Note::DefaultQueryFailed(e)],
                step,
            ),
            _ => false,
        },
        Job::Switching { target, index, role, any_switch, previous } => match outcome {
            Outcome::Switched(Ok(())) => switching_continued(
                pre,
                post,
                target,
                index + 1,
                true,
                defaults.insert(pre.config.roles@[index as int]@, previous@),
                Seq::empty(),
                step,
            ),
            Outcome::Switched(Err(e)) => switching_continued(
                pre,
                post,
                target,
                index + 1,
                any_switch,
                defaults,
                seq![Note::SwitchFailed(e)],
                step,
            ),
            _ => false,
        },
        Job::CheckingRestore { index, role } => {
            let recorded = pre.state.previous_defaults.entries()[index as int].1;
            let needed = match outcome {
                Outcome::CurrentDefault(Ok(Some(cur))) => cur@ != recorded,
                _ => true,
            };
            if needed {
                &&& same_setup(pre, post)
                &&& post.state == pre.state
                &&& post.job == (Job::Restoring { index, role })
                &&& step.notes@ == Seq::<Note>::empty()
                &&& step.command matches Command::SetDefault { endpoint_id, role: r }
                &&& endpoint_id@ == recorded
                &&& r == role
            } else {
                restoring_continued(pre, post, index + 1, seq![Note::RestoreNotNeeded(role)], step)
            }
        },
        Job::Restoring { index, role } => match outcome {
            Outcome::Switched(Ok(())) => restoring_continued(pre, post, index + 1, Seq::empty(), step),
            Outcome::Switched(Err(e)) => restoring_continued(
                pre,
                post,
                index + 1,
                seq![Note::RestoreFailed(role, e)],
                step,
            ),
            _ => false,
        },
        Job::Idle => false,
    }
}

/// Scans role names from `start`: warns about each unknown one and stops at
/// the first known one.
fn first_known_role(roles: &Vec<String>, start: usize, notes: &mut Vec<Note>) -> (r: (
    usize,
    Option<Role>,
))
    requires
        start <= roles@.len(),
    ensures
        r.0 == next_known_role(roles@, start as int),
        r.0 <= roles@.len(),
        final(notes)@ == old(notes)@ + skipped_roles(roles@, start as int, r.0 as int),
        r.0 < roles@.len() ==> r.1 == role_from_name(roles@[r.0 as int]@),
        r.0 < roles@.len() ==> r.1 is Some,
        r.0 == roles@.len() ==> r.1 is None,
{
    let ghost first = old(notes)@;
    let mut i: usize = start;
    let mut found: Option<Role> = None;
    assert(skipped_roles(roles@, start as int, start as int) =~= Seq::<Note>::empty());
    assert(first + Seq::<Note>::empty() =~= first);
    while i < roles.len()
        invariant_except_break
            found is None,
        invariant
            start <= i <= roles@.len(),
            next_known_role(roles@, start as int) == next_known_role(roles@, i as int),
            notes@ == first + skipped_roles(roles@, start as int, i as int),
        ensures
            start <= i <= roles@.len(),
            next_known_role(roles@, start as int) == next_known_role(roles@, i as int),
            notes@ == first + skipped_roles(roles@, start as int, i as int),
            i < roles@.len() ==> found == role_from_name(roles@[i as int]@) && found is Some,
            i == roles@.len() ==> found is None,
        decreases roles@.len() - i,
    {
        let role = parse_role(roles[i].as_str());
        if role.is_some() {
            found = role;
            break;
        }
        let name = roles[i].clone();
        notes.push(Note::UnknownRole(name));
        assert(skipped_roles(roles@, start as int, i + 1) =~= skipped_roles(
            roles@,
            start as int,
            i as int,
        ).push(Note::UnknownRole(roles@[i as int])));
        i += 1;
    }
    (i, found)
}

/// Scans records from `start` for the next one to put back.
fn first_restorable(state: &State, start: usize) -> (r: (usize, Option<Role>))
    requires
        start <= state.previous_defaults.entries().len(),
    ensures
        r.0 == next_restorable(state.previous_defaults.entries(), start as int),
        r.0 <= state.previous_defaults.entries().len(),
        r.0 < state.previous_defaults.entries().len() ==> r.1 == role_from_name(
            state.previous_defaults.entries()[r.0 as int].0,
        ),
        r.0 < state.previous_defaults.entries().len() ==> r.1 is Some,
        r.0 < state.previous_defaults.entries().len() ==> restorable(
            state.previous_defaults.entries()[r.0 as int],
        ),
        r.0 == state.previous_defaults.entries().len() ==> r.1 is None,
{
    let ghost entries = state.previous_defaults.entries();
    let n = state.previous_defaults.len();
    let mut i: usize = start;
    while i < n
        invariant
            entries == state.previous_defaults.entries(),
            n == entries.len(),
            start <= i <= n,
            next_restorable(entries, start as int) == next_restorable(entries, i as int),
        decreases n - i,
    {
        let (name, id) = state.previous_defaults.entry(i);
        if !id.as_str().is_empty() {
            let role = parse_role(name.as_str());
            if role.is_some() {
                return (i, role);
            }
        }
        i += 1;
    }
    (i, None)
}

impl Actions {
    /// The job refers to a role name or record that exists.
    pub open spec fn wf(&self) -> bool {
        match self.job {
            Job::Querying { index, role, .. } => index < self.config.roles@.len()
                && role_from_name(self.config.roles@[index as int]@) == Some(role),
            Job::Switching { index, role, target, previous, .. } => index
                < self.config.roles@.len() && role_from_name(self.config.roles@[index as int]@)
                == Some(role) && previous@ != target.id@,
            Job::CheckingRestore { index, role } => index
                < self.state.previous_defaults.entries().len() && restorable(
                self.state.previous_defaults.entries()[index as int],
            ) && role_from_name(self.state.previous_defaults.entries()[index as int].0) == Some(
                role,
            ),
            Job::Restoring { index, role } => index < self.state.previous_defaults.entries().len()
                && restorable(self.state.previous_defaults.entries()[index as int])
                && role_from_name(self.state.previous_defaults.entries()[index as int].0) == Some(
                role,
            ),
            _ => true,
        }
    }

    /// Starts with the given configuration and the state read from `state.json`.
    pub fn new(config: Config, state: State) -> (a: Self)
        ensures
            a.config == config,
            a.state == state,
            a.state_path@ == DEFAULT_STATE@,
            a.last_power is None,
            a.job == Job::Idle,
            a.wf(),
    {
        Actions {
            config,
            state_path: String::from_str(DEFAULT_STATE),
            state,
            last_power: None,
            job: Job::Idle,
        }
    }

    /// Whether an operation waits for the result of a command.
    pub fn is_busy(&self) -> (r: bool)
        ensures
            r == !(self.job is Idle),
    {
        match self.job {
            Job::Idle => false,
            _ => true,
        }
    }

    fn start_power_on(&mut self, now: u64, notes: Vec<Note>) -> (step: Step)
        ensures
            power_on_started(*old(self), *final(self), now, notes@, step),
            final(self).last_power == old(self).last_power,
            final(self).wf(),
    {
        let mut notes = notes;
        notes.push(Note::PowerOnReceived);
        let wait = self.config.endpoint_wait_ms;
        let deadline = if wait > u64::MAX - now {
            u64::MAX
        } else {
            now + wait
        };
        self.job = Job::Locating { deadline };
        let keyword = self.config.audio_keyword.clone();
        Step { notes, command: Command::FindEndpoint { keyword } }
    }

    fn continue_switching(
        &mut self,
        target: AudioEndpoint,
        start: usize,
        any_switch: bool,
        notes: Vec<Note>,
    ) -> (step: Step)
        requires
            start <= old(self).config.roles@.len(),
        ensures
            switching_continued(
                *old(self),
                *final(self),
                target,
                start as int,
                any_switch,
                old(self).state.previous_defaults@,
                notes@,
                step,
            ),
            final(self).state.previous_defaults == old(self).state.previous_defaults,
            final(self).last_power == old(self).last_power,
            final(self).wf(),
    {
        let mut notes = notes;
        let (j, role) = first_known_role(&self.config.roles, start, &mut notes);
        match role {
            Some(role) => {
                self.job = Job::Querying { target, index: j, role, any_switch };
                Step { notes, command: Command::QueryDefault { role } }
            },
            None => {
                self.job = Job::Idle;
                if any_switch {
                    self.state.headset_endpoint_id = Some(target.id);
                    self.state.headset_active = true;
                    Step { notes, command: Command::Finish { save: true } }
                } else {
                    notes.push(Note::NothingSwitched);
                    Step { notes, command: Command::Finish { save: false } }
                }
            },
        }
    }

    fn continue_restoring(&mut self, start: usize, notes: Vec<Note>) -> (step: Step)
        requires
            start <= old(self).state.previous_defaults.entries().len(),
        ensures
            restoring_continued(*old(self), *final(self), start as int, notes@, step),
            final(self).last_power == old(self).last_power,
            final(self).wf(),
    {
        let (j, role) = first_restorable(&self.state, start);
        match role {
            Some(role) => {
                self.job = Job::CheckingRestore { index: j, role };
                Step { notes, command: Command::QueryDefault { role } }
            },
            None => {
                self.job = Job::Idle;
                self.state.previous_defaults.clear();
                self.state.headset_active = false;
                Step { notes, command: Command::Finish { save: true } }
            },
        }
    }

    fn start_power_off(&mut self, notes: Vec<Note>) -> (step: Step)
        ensures
            power_off_started(*old(self), *final(self), notes@, step),
            final(self).last_power == old(self).last_power,
            final(self).wf(),
    {
        let mut notes = notes;
        notes.push(Note::PowerOffReceived);
        if self.state.previous_defaults.is_empty() {
            notes.push(Note::NothingToRestore);
            self.job = Job::Idle;
            return Step { notes, command: Command::Finish { save: false } };
        }
        self.continue_restoring(0, notes)
    }

    /// Handles one HID event received at `now` (milliseconds of a monotonic clock).
    pub fn on_event(&mut self, ev: HidEvent, now: u64) -> (step: Step)
        requires
            old(self).wf(),
            old(self).job is Idle,
        ensures
            final(self).wf(),
            event_handled(*old(self), *final(self), ev, now, step),
    {
        let on = match ev {
            HidEvent::PowerOn => true,
            HidEvent::PowerOff => false,
            _ => {
                let mut notes: Vec<Note> = Vec::new();
                notes.push(Note::Ignored(ev));
                return Step { notes, command: Command::Finish { save: false } };
            },
        };
        if let Some((prev, at)) = self.last_power {
            let prev_on = match prev {
                HidEvent::PowerOn => true,
                _ => false,
            };
            let same = prev_on == on;
            let since: u64 = if now >= at {
                now - at
            } else {
                0
            };
            if same && since < DEBOUNCE_MS {
                return Step { notes: Vec::new(), command: Command::Finish { save: false } };
            }
        }
        self.last_power = Some((ev, now));
        if on {
            if self.state.headset_active {
                let mut notes: Vec<Note> = Vec::new();
                notes.push(Note::AlreadyActive);
                return Step { notes, command: Command::Finish { save: false } };
            }
            self.start_power_on(now, Vec::new())
        } else {
            self.start_power_off(Vec::new())
        }
    }

    /// Continues the operation in progress with the result of its command,
    /// received at `now` (milliseconds of the same clock as for `on_event`).
    pub fn resume(&mut self, outcome: Outcome, now: u64) -> (step: Step)
        requires
            old(self).wf(),
            answers(old(self).job, outcome),
        ensures
            final(self).wf(),
            resumed(*old(self), *final(self), outcome, now, step),
    {
        let role_count = self.config.roles.len();
        let record_count = self.state.previous_defaults.len();
        let mut job = Job::Idle;
        std::mem::swap(&mut job, &mut self.job);
        match job {
            Job::Locating { deadline } => match outcome {
                Outcome::Endpoint(Ok(Some(ep))) => {
                    let mut notes: Vec<Note> = Vec::new();
                    notes.push(Note::TargetEndpoint(ep.name.clone(), ep.id.clone()));
                    self.continue_switching(ep, 0, false, notes)
                },
                Outcome::Endpoint(Ok(None)) => {
                    let mut notes: Vec<Note> = Vec::new();
                    if now >= deadline {
                        notes.push(Note::EndpointNotFound(self.config.audio_keyword.clone()));
                        Step { notes, command: Command::Finish { save: false } }
                    } else {
                        notes.push(Note::EndpointPending);
                        self.job = Job::Pausing { deadline };
                        Step { notes, command: Command::Sleep { ms: ENDPOINT_RETRY_MS } }
                    }
                },
                Outcome::Endpoint(Err(e)) => {
                    let mut notes: Vec<Note> = Vec::new();
                    notes.push(Note::EndpointLookupFailed(e));
                    notes.push(Note::EndpointNotFound(self.config.audio_keyword.clone()));
                    let st = Step { notes, command: Command::Finish { save: false } };
                    assert(st.notes@ == seq![Note::EndpointLookupFailed(e), Note::EndpointNotFound(self.config.audio_keyword)]);
                    st
                },
                _ => Step { notes: Vec::new(), command: Command::Finish { save: false } },
            },
            Job::Pausing { deadline } => {
                self.job = Job::Locating { deadline };
                let keyword = self.config.audio_keyword.clone();
                Step { notes: Vec::new(), command: Command::FindEndpoint { keyword } }
            },
            Job::Querying { target, index, role, any_switch } => match outcome {
                Outcome::CurrentDefault(Ok(Some(cur))) => {
                    let mut notes: Vec<Note> = Vec::new();
                    if cur == target.id {
                        notes.push(Note::RoleAlreadyHeadset(role));
                        self.continue_switching(target, index + 1, any_switch, notes)
                    } else {
                        notes.push(Note::RolePrevious(role, cur.clone()));
                        let endpoint_id = target.id.clone();
                        self.job = Job::Switching { target, index, role, any_switch, previous: cur };
                        Step { notes, command: Command::SetDefault { endpoint_id, role } }
                    }
                },
                Outcome::CurrentDefault(Ok(None)) => {
                    let mut notes: Vec<Note> = Vec::new();
                    notes.push(Note::RoleHasNoDefault(role));
                    self.continue_switching(target, index + 1, any_switch, notes)
                },
                Outcome::CurrentDefault(Err(e)) => {
                    let mut notes: Vec<Note> = Vec::new();
                    notes.push(Note::DefaultQueryFailed(e));
                    self.continue_switching(target, index + 1, any_switch, notes)
                },
                _ => Step { notes: Vec::new(), command: Command::Finish { save: false } },
            },
            Job::Switching { target, index, role, any_switch, previous } => match outcome {
                Outcome::Switched(Ok(())) => {
                    let name = self.config.roles[index].clone();
                    self.state.previous_defaults.insert(name, previous);
                    self.continue_switching(target, index + 1, true, Vec::new())
                },
                Outcome::Switched(Err(e)) => {
                    let mut notes: Vec<Note> = Vec::new();
                    notes.push(Note::SwitchFailed(e));
                    self.continue_switching(target, index + 1, any_switch, notes)
                },
                _ => Step { notes: Vec::new(), command: Command::Finish { save: false } },
            },
            Job::CheckingRestore { index, role } => {
                let (_, recorded) = self.state.previous_defaults.entry(index);
                let needed = match &outcome {
                    Outcome::CurrentDefault(Ok(Some(cur))) => !(*cur == *recorded),
                    _ => true,
                };
                if needed {
                    let endpoint_id = recorded.clone();
                    self.job = Job::Restoring { index, role };
                    Step { notes: Vec::new(), command: Command::SetDefault { endpoint_id, role } }
                } else {
                    let mut notes: Vec<Note> = Vec::new();
                    notes.push(Note::RestoreNotNeeded(role));
                    self.continue_restoring(index + 1, notes)
                }
            },
            Job::Restoring { index, role } => match outcome {
                Outcome::Switched(Ok(())) => self.continue_restoring(index + 1, Vec::new()),
                Outcome::Switched(Err(e)) => {
                    let mut notes: Vec<Note> = Vec::new();
                    notes.push(Note::RestoreFailed(role, e));
                    self.continue_restoring(index + 1, notes)
                },
                _ => Step { notes: Vec::new(), command: Command::Finish { save: false } },
            },
            Job::Idle => Step { notes: Vec::new(), command: Command::Finish { save: false } },
        }
    }

    /// Switches to the headset as on power-on, without debouncing and without
    /// looking at whether the headset is already marked active.
    pub fn manual_set_headset_default(&mut self, now: u64) -> (step: Step)
        requires
            old(self).wf(),
            old(self).job is Idle,
        ensures
            final(self).wf(),
            final(self).last_power is None,
            power_on_started(*old(self), *final(self), now, Seq::empty(), step),
    {
        self.last_power = None;
        self.start_power_on(now, Vec::new())
    }

    /// Puts the recorded devices back as on power-off, without debouncing.
    pub fn manual_restore(&mut self) -> (step: Step)
        requires
            old(self).wf(),
            old(self).job is Idle,
        ensures
            final(self).wf(),
            final(self).last_power is None,
            power_off_started(*old(self), *final(self), Seq::empty(), step),
    {
        self.last_power = None;
        self.start_power_off(Vec::new())
    }
}

/// A successful switch records, under the configured name of the switched
/// role, the device that was the default before, and that device is never
/// the headset itself.
pub proof fn lemma_switch_records_replaced_device(pre: Actions, post: Actions, now: u64, step: Step)
    requires
        pre.wf(),
        pre.job is Switching,
        resumed(pre, post, Outcome::Switched(Ok(())), now, step),
    ensures
        match pre.job {
            Job::Switching { target, index, previous, role, .. } => {
                &&& post.state.previous_defaults@ == pre.state.previous_defaults@.insert(
                    pre.config.roles@[index as int]@,
                    previous@,
                )
                &&& post.state.previous_defaults@[pre.config.roles@[index as int]@] != target.id@
                &&& role_from_name(pre.config.roles@[index as int]@) == Some(role)
            },
            _ => false,
        },
{
}

/// While the headset is being made the default, the record only grows, by
/// the device a role had before: no recorded device is dropped or replaced
/// by the headset.
pub proof fn lemma_switching_keeps_records(
    pre: Actions,
    post: Actions,
    outcome: Outcome,
    now: u64,
    step: Step,
)
    requires
        pre.wf(),
        answers(pre.job, outcome),
        !(pre.job is CheckingRestore || pre.job is Restoring),
        resumed(pre, post, outcome, now, step),
    ensures
        forall|k: Seq<char>|
            pre.state.previous_defaults@.contains_key(k) ==> #[trigger] post.state.previous_defaults@.contains_key(k),
        post.state.previous_defaults@ == pre.state.previous_defaults@ || match pre.job {
            Job::Switching { target, index, previous, .. } => post.state.previous_defaults@
                == pre.state.previous_defaults@.insert(pre.config.roles@[index as int]@, previous@)
                && previous@ != target.id@,
            _ => false,
        },
{
}

/// Once putting back has finished, nothing is recorded any more and the
/// headset is no longer marked active.
pub proof fn lemma_restore_run_clears(
    pre: Actions,
    post: Actions,
    outcome: Outcome,
    now: u64,
    step: Step,
)
    requires
        pre.wf(),
        answers(pre.job, outcome),
        pre.job is CheckingRestore || pre.job is Restoring,
        resumed(pre, post, outcome, now, step),
        post.job is Idle,
    ensures
        post.state.previous_defaults@ == Map::<Seq<char>, Seq<char>>::empty(),
        !post.state.headset_active,
        step.command == (Command::Finish { save: true }),
{
}

/// A record is put back into the role its name names, which is the role it
/// was taken from, with the device it holds; it is skipped only when that
/// role's default already is that device.
pub proof fn lemma_restore_targets_recorded_role(
    pre: Actions,
    post: Actions,
    outcome: Outcome,
    now: u64,
    step: Step,
)
    requires
        pre.wf(),
        pre.job is CheckingRestore,
        answers(pre.job, outcome),
        resumed(pre, post, outcome, now, step),
    ensures
        ({
            let entry = pre.state.previous_defaults.entries()[pre.job->CheckingRestore_index as int];
            let already = match outcome {
                Outcome::CurrentDefault(Ok(Some(cur))) => cur@ == entry.1,
                _ => false,
            };
            !already ==> (step.command matches Command::SetDefault { endpoint_id, role }
                && endpoint_id@ == entry.1 && role_from_name(entry.0) == Some(role))
        }),
{
}

/// The next record to put back from `i` on: every record passed over is not
/// to be put back, and the one found is.
proof fn lemma_next_restorable_found(entries: Seq<(Seq<char>, Seq<char>)>, i: int)
    requires
        0 <= i <= entries.len(),
    ensures
        i <= next_restorable(entries, i) <= entries.len(),
        forall|k: int| i <= k < next_restorable(entries, i) ==> !restorable(#[trigger] entries[k]),
        next_restorable(entries, i) < entries.len() ==> restorable(entries[next_restorable(entries, i)]),
        (exists|k: int| i <= k < entries.len() && restorable(#[trigger] entries[k])) ==> next_restorable(entries, i)
            < entries.len(),
    decreases entries.len() - i,
{
    if i < entries.len() && !restorable(entries[i]) {
        lemma_next_restorable_found(entries, i + 1);
    }
}

/// A failed restore does not stop putting back: when a later record is to be
/// put back, nothing is cleared and that record, the first such, is checked
/// next.
pub proof fn lemma_failed_restore_goes_on(pre: Actions, post: Actions, e: String, now: u64, step: Step)
    requires
        pre.wf(),
        pre.job is Restoring,
        pre.state.previous_defaults.entries().len() <= usize::MAX,
        resumed(pre, post, Outcome::Switched(Err(e)), now, step),
        exists|k: int|
            pre.job->Restoring_index < k < pre.state.previous_defaults.entries().len() && restorable(
                #[trigger] pre.state.previous_defaults.entries()[k],
            ),
    ensures
        post.state == pre.state,
        post.job matches Job::CheckingRestore { index, role } && {
            let entries = pre.state.previous_defaults.entries();
            &&& pre.job->Restoring_index < index < entries.len()
            &&& restorable(entries[index as int])
            &&& role_from_name(entries[index as int].0) == Some(role)
            &&& forall|k: int| pre.job->Restoring_index < k < index ==> !restorable(#[trigger] entries[k])
        },
        step.command matches Command::QueryDefault { .. },
        step.notes@ == seq![Note::RestoreFailed(pre.job->Restoring_role, e)],
{
    let entries = pre.state.previous_defaults.entries();
    let i = pre.job->Restoring_index as int;
    lemma_next_restorable_found(entries, i + 1);
    let j = next_restorable(entries, i + 1);
    assert(j < entries.len());
    assert((j as usize) as int == j);
}

/// A failed restore goes on as a successful one would: the same next job,
/// the same state and the same command; only a note tells of the failure.
pub proof fn lemma_failed_restore_as_successful(
    pre: Actions,
    post_ok: Actions,
    step_ok: Step,
    post_err: Actions,
    step_err: Step,
    e: String,
    now_ok: u64,
    now_err: u64,
)
    requires
        pre.job is Restoring,
        resumed(pre, post_ok, Outcome::Switched(Ok(())), now_ok, step_ok),
        resumed(pre, post_err, Outcome::Switched(Err(e)), now_err, step_err),
    ensures
        post_err.job == post_ok.job,
        post_err.state.previous_defaults@ == post_ok.state.previous_defaults@,
        post_err.state.previous_defaults.entries() == post_ok.state.previous_defaults.entries(),
        post_err.state.headset_active == post_ok.state.headset_active,
        post_err.state.headset_endpoint_id == post_ok.state.headset_endpoint_id,
        post_err.last_power == post_ok.last_power,
        step_err.command == step_ok.command,
        step_ok.notes@ == Seq::<Note>::empty(),
        step_err.notes@ == seq![Note::RestoreFailed(pre.job->Restoring_role, e)],
{
}

/// A record found already in place does not stop putting back: when a later
/// record is to be put back, nothing is cleared and that record, the first
/// such, is checked next.
pub proof fn lemma_restore_not_needed_goes_on(pre: Actions, post: Actions, cur: String, now: u64, step: Step)
    requires
        pre.wf(),
        pre.job is CheckingRestore,
        pre.state.previous_defaults.entries().len() <= usize::MAX,
        cur@ == pre.state.previous_defaults.entries()[pre.job->CheckingRestore_index as int].1,
        resumed(pre, post, Outcome::CurrentDefault(Ok(Some(cur))), now, step),
        exists|k: int|
            pre.job->CheckingRestore_index < k < pre.state.previous_defaults.entries().len() && restorable(
                #[trigger] pre.state.previous_defaults.entries()[k],
            ),
    ensures
        post.state == pre.state,
        post.job matches Job::CheckingRestore { index, role } && {
            let entries = pre.state.previous_defaults.entries();
            &&& pre.job->CheckingRestore_index < index < entries.len()
            &&& restorable(entries[index as int])
            &&& role_from_name(entries[index as int].0) == Some(role)
            &&& forall|k: int| pre.job->CheckingRestore_index < k < index ==> !restorable(#[trigger] entries[k])
        },
        step.command matches Command::QueryDefault { .. },
        step.notes@ == seq![Note::RestoreNotNeeded(pre.job->CheckingRestore_role)],
{
    let entries = pre.state.previous_defaults.entries();
    let i = pre.job->CheckingRestore_index as int;
    lemma_next_restorable_found(entries, i + 1);
    let j = next_restorable(entries, i + 1);
    assert(j < entries.len());
    assert((j as usize) as int == j);
}

/// The next configured name from `i` on that names a role: the names passed
/// over name none.
proof fn lemma_next_known_role_found(roles: Seq<String>, i: int)
    requires
        0 <= i <= roles.len(),
    ensures
        i <= next_known_role(roles, i) <= roles.len(),
        forall|k: int| i <= k < next_known_role(roles, i) ==> (#[trigger] role_from_name(roles[k]@)) is None,
        next_known_role(roles, i) < roles.len() ==> role_from_name(roles[next_known_role(roles, i)]@) is Some,
        (exists|k: int| i <= k < roles.len() && (#[trigger] role_from_name(roles[k]@)) is Some) ==> next_known_role(
            roles,
            i,
        ) < roles.len(),
    decreases roles.len() - i,
{
    if i < roles.len() && role_from_name(roles[i]@) is None {
        lemma_next_known_role_found(roles, i + 1);
    }
}

/// A role that cannot be switched (its default cannot be read, it has none,
/// or setting it fails) does not stop power-on: when a later configured name
/// names a role, nothing is recorded for this one and that role, the first
/// such, is queried next.
pub proof fn lemma_switching_goes_on_after_failure(
    pre: Actions,
    post: Actions,
    outcome: Outcome,
    now: u64,
    step: Step,
)
    requires
        pre.wf(),
        pre.config.roles@.len() <= usize::MAX,
        (pre.job is Querying && (outcome matches Outcome::CurrentDefault(r) && (r is Err || r == Ok::<
            Option<String>,
            String,
        >(None)))) || (pre.job is Switching && (outcome matches Outcome::Switched(r) && r is Err)),
        resumed(pre, post, outcome, now, step),
        exists|k: int|
            (if pre.job is Querying {
                pre.job->Querying_index
            } else {
                pre.job->Switching_index
            }) < k < pre.config.roles@.len() && (#[trigger] role_from_name(pre.config.roles@[k]@)) is Some,
    ensures
        post.state.previous_defaults@ == pre.state.previous_defaults@,
        post.state.headset_active == pre.state.headset_active,
        post.state.headset_endpoint_id == pre.state.headset_endpoint_id,
        ({
            let roles = pre.config.roles@;
            let from = if pre.job is Querying {
                pre.job->Querying_index
            } else {
                pre.job->Switching_index
            };
            let target = if pre.job is Querying {
                pre.job->Querying_target
            } else {
                pre.job->Switching_target
            };
            let any_switch = if pre.job is Querying {
                pre.job->Querying_any_switch
            } else {
                pre.job->Switching_any_switch
            };
            post.job matches Job::Querying { target: t, index, role, any_switch: a } && {
                &&& t == target
                &&& a == any_switch
                &&& from < index < roles.len()
                &&& role_from_name(roles[index as int]@) == Some(role)
                &&& forall|k: int| from < k < index ==> (#[trigger] role_from_name(roles[k]@)) is None
                &&& step.command == (Command::QueryDefault { role })
            }
        }),
{
    let roles = pre.config.roles@;
    let i = if pre.job is Querying {
        pre.job->Querying_index as int
    } else {
        pre.job->Switching_index as int
    };
    lemma_next_known_role_found(roles, i + 1);
    let j = next_known_role(roles, i + 1);
    assert(j < roles.len());
    assert((j as usize) as int == j);
}

/// A power report of the same kind as the last one acted upon that comes
/// less than `DEBOUNCE_MS` later (or while the clock reads earlier) is
/// ignored: nothing changes and the step only finishes.
pub proof fn lemma_repeated_report_ignored(pre: Actions, post: Actions, ev: HidEvent, at: u64, now: u64, step: Step)
    requires
        ev == HidEvent::PowerOn || ev == HidEvent::PowerOff,
        pre.last_power == Some((ev, at)),
        now < at || now - at < DEBOUNCE_MS,
        event_handled(pre, post, ev, now, step),
    ensures
        post.state == pre.state,
        post.config == pre.config,
        post.last_power == pre.last_power,
        post.job is Idle,
        step.notes@ == Seq::<Note>::empty(),
        step.command == (Command::Finish { save: false }),
{
}

/// A power report is acted upon when no power report came before, when the
/// last one was of the other kind, or when it came `DEBOUNCE_MS` or more
/// earlier: the report becomes the last one acted upon.
pub proof fn lemma_fresh_report_acted_on(pre: Actions, post: Actions, ev: HidEvent, now: u64, step: Step)
    requires
        ev == HidEvent::PowerOn || ev == HidEvent::PowerOff,
        match pre.last_power {
            None => true,
            Some((prev, at)) => (prev == HidEvent::PowerOn || prev == HidEvent::PowerOff) && (prev
                != ev || (now >= at && now - at >= DEBOUNCE_MS)),
        },
        event_handled(pre, post, ev, now, step),
    ensures
        post.last_power == Some((ev, now)),
        step.notes@.len() > 0,
{
    if ev == HidEvent::PowerOff {
        if pre.state.previous_defaults.entries().len() != 0 {
            let notes = Seq::<Note>::empty().push(Note::PowerOffReceived);
            assert(notes.len() == 1);
        }
    }
}

/// The headset is marked active exactly when some device is recorded, and
/// an active headset has a known endpoint.
pub open spec fn state_consistent(s: State) -> bool {
    &&& s.headset_active == (s.previous_defaults@ != Map::<Seq<char>, Seq<char>>::empty())
    &&& s.headset_active ==> s.headset_endpoint_id is Some
}

/// What holds of the state while an operation is under way: between events
/// the state is consistent; while roles are switched, an inactive headset has
/// records exactly when some role was switched in this run.
pub open spec fn progress_consistent(a: Actions) -> bool {
    let recorded = a.state.previous_defaults@ != Map::<Seq<char>, Seq<char>>::empty();
    match a.job {
        Job::Querying { any_switch, .. } | Job::Switching { any_switch, .. } => {
            &&& a.state.headset_active ==> recorded && a.state.headset_endpoint_id is Some
            &&& !a.state.headset_active ==> (recorded == any_switch)
        },
        Job::CheckingRestore { .. } | Job::Restoring { .. } => true,
        _ => state_consistent(a.state),
    }
}

/// Starting to switch on, or to put back, from a consistent state keeps it so.
pub proof fn lemma_start_keeps_consistency(pre: Actions, post: Actions, now: u64, notes: Seq<Note>, step: Step)
    requires
        state_consistent(pre.state),
        power_on_started(pre, post, now, notes, step) || power_off_started(pre, post, notes, step),
    ensures
        progress_consistent(post),
{
}

/// Handling an event from a consistent state leaves the operation it starts consistent.
pub proof fn lemma_event_keeps_consistency(pre: Actions, post: Actions, ev: HidEvent, now: u64, step: Step)
    requires
        state_consistent(pre.state),
        event_handled(pre, post, ev, now, step),
    ensures
        progress_consistent(post),
{
}

/// Each answer keeps an operation consistent; in particular the state is
/// consistent again whenever the operation has finished.
pub proof fn lemma_resume_keeps_consistency(
    pre: Actions,
    post: Actions,
    outcome: Outcome,
    now: u64,
    step: Step,
)
    requires
        progress_consistent(pre),
        resumed(pre, post, outcome, now, step),
    ensures
        progress_consistent(post),
        post.job is Idle ==> state_consistent(post.state),
{
    let empty = Map::<Seq<char>, Seq<char>>::empty();
    match pre.job {
        Job::Switching { target, index, previous, .. } => {
            let inserted = pre.state.previous_defaults@.insert(pre.config.roles@[index as int]@, previous@);
            assert(inserted.contains_key(pre.config.roles@[index as int]@));
            assert(inserted != empty);
        },
        _ => {},
    }
}

/// Every answer of a finished event handling, whatever the system answered.
pub open spec fn answered_run(states: Seq<Actions>, steps: Seq<Step>, outcomes: Seq<Outcome>, times: Seq<u64>) -> bool {
    &&& states.len() > 0
    &&& steps.len() == states.len()
    &&& outcomes.len() == states.len()
    &&& times.len() == states.len()
    &&& states.last().job is Idle
    &&& forall|k: int|
        0 <= k < states.len() - 1 ==> #[trigger] resumed(
            states[k],
            states[k + 1],
            outcomes[k],
            times[k + 1],
            steps[k + 1],
        )
}

/// Handling an event, through every answer until it finishes, takes a
/// consistent state to a consistent state, whatever the answers were.
pub proof fn lemma_event_run_keeps_consistency(
    pre: Actions,
    ev: HidEvent,
    now: u64,
    states: Seq<Actions>,
    steps: Seq<Step>,
    outcomes: Seq<Outcome>,
    times: Seq<u64>,
)
    requires
        state_consistent(pre.state),
        event_handled(pre, states[0], ev, now, steps[0]),
        answered_run(states, steps, outcomes, times),
    ensures
        state_consistent(states.last().state),
{
    lemma_event_keeps_consistency(pre, states[0], ev, now, steps[0]);
    lemma_run_keeps_consistency(states, steps, outcomes, times, 0);
}

proof fn lemma_run_keeps_consistency(
    states: Seq<Actions>,
    steps: Seq<Step>,
    outcomes: Seq<Outcome>,
    times: Seq<u64>,
    k: int,
)
    requires
        answered_run(states, steps, outcomes, times),
        0 <= k < states.len(),
        progress_consistent(states[k]),
    ensures
        state_consistent(states.last().state),
    decreases states.len() - k,
{
    if k < states.len() - 1 {
        assert(resumed(states[k], states[k + 1], outcomes[k], times[k + 1], steps[k + 1]));
        lemma_resume_keeps_consistency(states[k], states[k + 1], outcomes[k], times[k + 1], steps[k + 1]);
        lemma_run_keeps_consistency(states, steps, outcomes, times, k + 1);
    }
}

} // verus!
