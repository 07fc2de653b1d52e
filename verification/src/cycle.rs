//! The event handler against a model of the audio system.
//!
//! In the model every call succeeds: the headset endpoint is found at once, a
//! query answers the role's current default device, or none, and setting a
//! default makes it so. A power-on run followed by a power-off run, each answered by
//! the model, gives every role its previous default back.

use vstd::prelude::*;
use crate::app::{
    debounced, event_handled, next_known_role, next_restorable, resumed, switching_continued, Actions, Command,
    Job, Note, Outcome, Step,
};
use crate::audio::{role_from_name, AudioEndpoint, Role};
use crate::hid::HidEvent;
use crate::state::{has_key, key_index, keys_ascending, lemma_map_of_at};

verus! {

/// How the model answers a command: `sys` holds each role's default device,
/// `None` for a role without one; `headset` is the endpoint found.
pub open spec fn model_answer(sys: Map<Role, Option<String>>, cmd: Command, headset: AudioEndpoint) -> (
    Map<Role, Option<String>>,
    Outcome,
) {
    match cmd {
        Command::FindEndpoint { .. } => (sys, Outcome::Endpoint(Ok(Some(headset)))),
        Command::Sleep { .. } => (sys, Outcome::Slept),
        Command::QueryDefault { role } => (sys, Outcome::CurrentDefault(Ok(sys[role]))),
        Command::SetDefault { endpoint_id, role } => (
            sys.insert(role, Some(endpoint_id)),
            Outcome::Switched(Ok(())),
        ),
        Command::Finish { .. } => (sys, Outcome::Slept),
    }
}

/// Link `k` of a run: the model answers the command of `steps[k]`, which
/// leads from `states[k]` to `states[k + 1]`.
pub open spec fn model_link(
    states: Seq<Actions>,
    steps: Seq<Step>,
    systems: Seq<Map<Role, Option<String>>>,
    times: Seq<u64>,
    headset: AudioEndpoint,
    k: int,
) -> bool {
    let answer = model_answer(systems[k], steps[k].command, headset);
    &&& !(steps[k].command is Finish)
    &&& systems[k + 1] == answer.0
    &&& resumed(states[k], states[k + 1], answer.1, times[k + 1], steps[k + 1])
}

/// One handled event answered by the model: `states[k]` waits on the command
/// of `steps[k]` while the system is `systems[k]`; the last step finishes.
pub open spec fn model_run(
    states: Seq<Actions>,
    steps: Seq<Step>,
    systems: Seq<Map<Role, Option<String>>>,
    times: Seq<u64>,
    headset: AudioEndpoint,
) -> bool {
    &&& states.len() > 0
    &&& steps.len() == states.len()
    &&& systems.len() == states.len()
    &&& times.len() == states.len()
    &&& steps.last().command is Finish
    &&& forall|k: int|
        0 <= k < states.len() - 1 ==> #[trigger] model_link(states, steps, systems, times, headset, k)
}

/// Some configured name before position `i` names `r`.
pub open spec fn named_before(roles: Seq<String>, i: int, r: Role) -> bool {
    exists|j: int| 0 <= j < i && #[trigger] role_from_name(roles[j]@) == Some(r)
}

/// Power-on reaches `r` before position `i` and switches it: a configured
/// name before `i` names `r`, and `r`'s first default is a device other than
/// the headset.
pub open spec fn switched_before(
    roles: Seq<String>,
    i: int,
    r: Role,
    sys0: Map<Role, Option<String>>,
    headset: AudioEndpoint,
) -> bool {
    named_before(roles, i, r) && other_device(sys0[r], headset)
}

/// `d` is a device, and not the headset.
pub open spec fn other_device(d: Option<String>, headset: AudioEndpoint) -> bool {
    d is Some && d->0@ != headset.id@
}

/// `a` and `b` are the same device by id, or both no device.
pub open spec fn same_device(a: Option<String>, b: Option<String>) -> bool {
    match (a, b) {
        (Some(x), Some(y)) => x@ == y@,
        (None, None) => true,
        _ => false,
    }
}

/// Power-on switches some role.
pub open spec fn some_role_switched(roles: Seq<String>, sys0: Map<Role, Option<String>>, headset: AudioEndpoint) -> bool {
    exists|r: Role| #[trigger] switched_before(roles, roles.len() as int, r, sys0, headset)
}

/// Some recorded name names `r`.
pub open spec fn role_recorded(rec: Map<Seq<char>, Seq<char>>, r: Role) -> bool {
    exists|k: Seq<char>| rec.contains_key(k) && #[trigger] role_from_name(k) == Some(r)
}

/// While switching reaches position `i`: the roles switched before it have
/// the headset as default, the others their first default.
pub open spec fn sys_switched_up_to(
    sys: Map<Role, Option<String>>,
    sys0: Map<Role, Option<String>>,
    roles: Seq<String>,
    i: int,
    headset: AudioEndpoint,
) -> bool {
    forall|r: Role|
        #![trigger sys[r]]
        #![trigger sys.dom().contains(r)]
        sys.contains_key(r) && sys[r] == if switched_before(roles, i, r, sys0, headset) {
            Some(headset.id)
        } else {
            sys0[r]
        }
}

/// The record holds, for names of switched roles only, the first default of
/// the role each names; every role switched before position `i` is recorded.
pub open spec fn record_up_to(
    rec: Map<Seq<char>, Seq<char>>,
    sys0: Map<Role, Option<String>>,
    roles: Seq<String>,
    i: int,
    headset: AudioEndpoint,
) -> bool {
    &&& forall|k: Seq<char>|
        #[trigger] rec.contains_key(k) ==> role_from_name(k) is Some && switched_before(
            roles,
            roles.len() as int,
            role_from_name(k)->0,
            sys0,
            headset,
        ) && rec[k] == sys0[role_from_name(k)->0]->0@
    &&& forall|r: Role| switched_before(roles, i, r, sys0, headset) ==> #[trigger] role_recorded(rec, r)
}

/// Where a power-on run stands: at a configured role, or finished after the last.
pub open spec fn switching_at(
    a0: Actions,
    a: Actions,
    step: Step,
    sys: Map<Role, Option<String>>,
    sys0: Map<Role, Option<String>>,
    headset: AudioEndpoint,
) -> bool {
    let roles = a0.config.roles@;
    let rec = a.state.previous_defaults@;
    &&& a.config == a0.config
    &&& match a.job {
        Job::Querying { target, index, role, any_switch } => {
            &&& target == headset
            &&& index < roles.len()
            &&& role_from_name(roles[index as int]@) == Some(role)
            &&& any_switch == (rec != Map::<Seq<char>, Seq<char>>::empty())
            &&& !a.state.headset_active
            &&& a.state.headset_endpoint_id == a0.state.headset_endpoint_id
            &&& step.command == (Command::QueryDefault { role })
            &&& sys_switched_up_to(sys, sys0, roles, index as int, headset)
            &&& record_up_to(rec, sys0, roles, index as int, headset)
        },
        Job::Switching { target, index, role, any_switch, previous } => {
            &&& target == headset
            &&& index < roles.len()
            &&& role_from_name(roles[index as int]@) == Some(role)
            &&& any_switch == (rec != Map::<Seq<char>, Seq<char>>::empty())
            &&& !a.state.headset_active
            &&& a.state.headset_endpoint_id == a0.state.headset_endpoint_id
            &&& sys0[role] == Some(previous)
            &&& previous@ != headset.id@
            &&& !switched_before(roles, index as int, role, sys0, headset)
            &&& step.command == (Command::SetDefault { endpoint_id: headset.id, role })
            &&& sys_switched_up_to(sys, sys0, roles, index as int, headset)
            &&& record_up_to(rec, sys0, roles, index as int, headset)
        },
        Job::Idle => {
            &&& step.command is Finish
            &&& sys_switched_up_to(sys, sys0, roles, roles.len() as int, headset)
            &&& record_up_to(rec, sys0, roles, roles.len() as int, headset)
            &&& a.state.headset_active == (rec != Map::<Seq<char>, Seq<char>>::empty())
            &&& if a.state.headset_active {
                a.state.headset_endpoint_id == Some(headset.id)
            } else {
                a.state.headset_endpoint_id == a0.state.headset_endpoint_id
            }
        },
        _ => false,
    }
}

/// The assumptions on the configuration and the first system: the system
/// knows every role, and each device that is the default of a configured
/// role has a non-empty id.
pub open spec fn cycle_setup(a0: Actions, sys0: Map<Role, Option<String>>) -> bool {
    let roles = a0.config.roles@;
    &&& roles.len() <= usize::MAX
    &&& forall|r: Role| #[trigger] sys0.contains_key(r)
    &&& forall|r: Role|
        named_before(roles, roles.len() as int, r) && #[trigger] sys0[r] is Some ==> sys0[r]->0@.len() > 0
}

proof fn lemma_named_step(roles: Seq<String>, i: int, r: Role)
    requires
        0 <= i,
    ensures
        named_before(roles, i + 1, r) == (named_before(roles, i, r) || role_from_name(roles[i]@) == Some(r)),
{
    if named_before(roles, i + 1, r) {
        let j = choose|j: int| 0 <= j < i + 1 && #[trigger] role_from_name(roles[j]@) == Some(r);
        if j < i {
            assert(named_before(roles, i, r));
        }
    }
    if named_before(roles, i, r) {
        let j = choose|j: int| 0 <= j < i && #[trigger] role_from_name(roles[j]@) == Some(r);
        assert(0 <= j < i + 1 && role_from_name(roles[j]@) == Some(r));
    }
    if role_from_name(roles[i]@) == Some(r) {
        assert(0 <= i < i + 1 && role_from_name(roles[i]@) == Some(r));
    }
}

/// Skipping unknown names: the names passed over name no role.
proof fn lemma_skip_unknown(roles: Seq<String>, i: int, r: Role)
    requires
        0 <= i <= roles.len(),
    ensures
        i <= next_known_role(roles, i) <= roles.len(),
        named_before(roles, next_known_role(roles, i), r) == named_before(roles, i, r),
        next_known_role(roles, i) < roles.len() ==> role_from_name(roles[next_known_role(roles, i)]@) is Some,
    decreases roles.len() - i,
{
    if i < roles.len() && role_from_name(roles[i]@) is None {
        lemma_skip_unknown(roles, i + 1, r);
        lemma_named_step(roles, i, r);
    }
}

/// Switching goes on at position `i`: the run is at the next known role, or
/// finished.
proof fn lemma_switching_goes_on(
    a0: Actions,
    a: Actions,
    b: Actions,
    step: Step,
    sys: Map<Role, Option<String>>,
    sys0: Map<Role, Option<String>>,
    headset: AudioEndpoint,
    i: int,
    any_switch: bool,
    defaults: Map<Seq<char>, Seq<char>>,
    notes: Seq<Note>,
)
    requires
        cycle_setup(a0, sys0),
        a.config == a0.config,
        !a.state.headset_active,
        a.state.headset_endpoint_id == a0.state.headset_endpoint_id,
        0 <= i <= a0.config.roles@.len(),
        sys_switched_up_to(sys, sys0, a0.config.roles@, i, headset),
        record_up_to(defaults, sys0, a0.config.roles@, i, headset),
        any_switch == (defaults != Map::<Seq<char>, Seq<char>>::empty()),
        switching_continued(a, b, headset, i, any_switch, defaults, notes, step),
    ensures
        switching_at(a0, b, step, sys, sys0, headset),
{
    let roles = a0.config.roles@;
    let j = next_known_role(roles, i);
    lemma_skip_unknown(roles, i, Role::Console);
    assert forall|r: Role| #![trigger sys[r]] #![trigger sys.dom().contains(r)] sys.contains_key(r) && sys[r] == if switched_before(roles, j, r, sys0, headset) {
        Some(headset.id)
    } else {
        sys0[r]
    } by {
        lemma_skip_unknown(roles, i, r);
    }
    assert forall|r: Role| switched_before(roles, j, r, sys0, headset) implies #[trigger] role_recorded(defaults, r) by {
        lemma_skip_unknown(roles, i, r);
    }
    if j < roles.len() {
        assert((j as usize) as int == j);
    }
}

/// A power-on run, from a point where it stands at a configured role or has
/// finished, ends finished.
proof fn lemma_switching_run(
    a0: Actions,
    states: Seq<Actions>,
    steps: Seq<Step>,
    systems: Seq<Map<Role, Option<String>>>,
    times: Seq<u64>,
    sys0: Map<Role, Option<String>>,
    headset: AudioEndpoint,
    k: int,
)
    requires
        cycle_setup(a0, sys0),
        model_run(states, steps, systems, times, headset),
        0 <= k < states.len(),
        switching_at(a0, states[k], steps[k], systems[k], sys0, headset),
        states[k].last_power == states[0].last_power,
    ensures
        states.last().job is Idle,
        states.last().last_power == states[0].last_power,
        switching_at(a0, states.last(), steps.last(), systems.last(), sys0, headset),
    decreases states.len() - k,
{
    let roles = a0.config.roles@;
    let a = states[k];
    let sys = systems[k];
    if a.job is Idle {
        if k < states.len() - 1 {
            assert(model_link(states, steps, systems, times, headset, k));
        }
        return;
    }
    assert(!(steps[k].command is Finish));
    assert(k < states.len() - 1);
    assert(model_link(states, steps, systems, times, headset, k));
    let b = states[k + 1];
    let sys1 = systems[k + 1];
    let rec = a.state.previous_defaults@;
    match a.job {
        Job::Querying { target, index, role, any_switch } => {
            let i = index as int;
            assert(sys1 == sys);
            let cur = sys[role];
            if !other_device(sys0[role], headset) || switched_before(roles, i, role, sys0, headset) {
                // the role has no device or has the headset already: nothing is
                // switched or recorded
                if cur is Some {
                    assert(cur->0@ == headset.id@);
                }
                assert forall|r: Role| #![trigger sys1[r]] #![trigger sys1.dom().contains(r)] sys1.contains_key(r) && sys1[r] == if switched_before(roles, i + 1, r, sys0, headset) {
                    Some(headset.id)
                } else {
                    sys0[r]
                } by {
                    lemma_named_step(roles, i, r);
                    assert(sys.contains_key(r));
                }
                assert forall|r: Role| switched_before(roles, i + 1, r, sys0, headset) implies #[trigger] role_recorded(rec, r) by {
                    lemma_named_step(roles, i, r);
                }
                let note = if cur is Some {
                    Note::RoleAlreadyHeadset(role)
                } else {
                    Note::RoleHasNoDefault(role)
                };
                lemma_switching_goes_on(a0, a, b, steps[k + 1], sys1, sys0, headset, i + 1, any_switch, rec, seq![note]);
            } else {
                assert(cur == sys0[role]);
            }
            lemma_switching_run(a0, states, steps, systems, times, sys0, headset, k + 1);
        },
        Job::Switching { target, index, role, any_switch, previous } => {
            let i = index as int;
            let name = roles[i]@;
            assert(sys1 == sys.insert(role, Some(headset.id)));
            let rec1 = rec.insert(name, previous@);
            assert(rec1.contains_key(name));
            assert(rec1 != Map::<Seq<char>, Seq<char>>::empty());
            assert forall|r: Role| #![trigger sys1[r]] #![trigger sys1.dom().contains(r)] sys1.contains_key(r) && sys1[r] == if switched_before(roles, i + 1, r, sys0, headset) {
                Some(headset.id)
            } else {
                sys0[r]
            } by {
                lemma_named_step(roles, i, r);
                assert(sys.contains_key(r));
            }
            assert forall|kk: Seq<char>| #[trigger] rec1.contains_key(kk) implies role_from_name(kk) is Some
                && switched_before(roles, roles.len() as int, role_from_name(kk)->0, sys0, headset)
                && rec1[kk] == sys0[role_from_name(kk)->0]->0@ by {
                if kk == name {
                    assert(0 <= i < roles.len() && role_from_name(roles[i]@) == Some(role));
                }
            }
            assert forall|r: Role| switched_before(roles, i + 1, r, sys0, headset) implies #[trigger] role_recorded(rec1, r) by {
                lemma_named_step(roles, i, r);
                if r == role {
                    assert(rec1.contains_key(name) && role_from_name(name) == Some(r));
                } else {
                    assert(role_recorded(rec, r));
                    let kk = choose|kk: Seq<char>| rec.contains_key(kk) && #[trigger] role_from_name(kk) == Some(r);
                    assert(rec1.contains_key(kk));
                }
            }
            lemma_switching_goes_on(a0, a, b, steps[k + 1], sys1, sys0, headset, i + 1, true, rec1, Seq::empty());
            lemma_switching_run(a0, states, steps, systems, times, sys0, headset, k + 1);
        },
        _ => {},
    }
}

/// Some record before position `i` names `r`.
pub open spec fn restored_before(entries: Seq<(Seq<char>, Seq<char>)>, i: int, r: Role) -> bool {
    exists|j: int| 0 <= j < i && #[trigger] role_from_name(entries[j].0) == Some(r)
}

/// Every record names a switched role and holds that role's first default.
pub open spec fn entries_fit(
    entries: Seq<(Seq<char>, Seq<char>)>,
    sys0: Map<Role, Option<String>>,
    roles: Seq<String>,
    headset: AudioEndpoint,
) -> bool {
    forall|j: int|
        0 <= j < entries.len() ==> (#[trigger] role_from_name(entries[j].0)) is Some
            && switched_before(roles, roles.len() as int, role_from_name(entries[j].0)->0, sys0, headset)
            && entries[j].1 == sys0[role_from_name(entries[j].0)->0]->0@
}

/// While putting back reaches record `i`: the roles of the records before it
/// have their first default back, the other switched roles still have the
/// headset, the rest were never touched.
pub open spec fn sys_restored_up_to(
    sys: Map<Role, Option<String>>,
    sys0: Map<Role, Option<String>>,
    roles: Seq<String>,
    entries: Seq<(Seq<char>, Seq<char>)>,
    i: int,
    headset: AudioEndpoint,
) -> bool {
    forall|r: Role|
        #![trigger sys[r]]
        #![trigger sys.dom().contains(r)]
        sys.contains_key(r) && if restored_before(entries, i, r) {
            same_device(sys[r], sys0[r])
        } else if switched_before(roles, roles.len() as int, r, sys0, headset) {
            sys[r] == Some(headset.id)
        } else {
            sys[r] == sys0[r]
        }
}

/// Where a power-off run stands while it goes through the records of `mid`.
pub open spec fn restoring_at(
    mid: Actions,
    a: Actions,
    step: Step,
    sys: Map<Role, Option<String>>,
    sys0: Map<Role, Option<String>>,
    headset: AudioEndpoint,
) -> bool {
    let roles = mid.config.roles@;
    let entries = mid.state.previous_defaults.entries();
    &&& a.state == mid.state
    &&& match a.job {
        Job::CheckingRestore { index, role } => {
            &&& index < entries.len()
            &&& role_from_name(entries[index as int].0) == Some(role)
            &&& step.command == (Command::QueryDefault { role })
            &&& sys_restored_up_to(sys, sys0, roles, entries, index as int, headset)
        },
        Job::Restoring { index, role } => {
            &&& index < entries.len()
            &&& role_from_name(entries[index as int].0) == Some(role)
            &&& !restored_before(entries, index as int, role)
            &&& step.command matches Command::SetDefault { endpoint_id, role: r }
            &&& endpoint_id@ == entries[index as int].1
            &&& r == role
            &&& sys_restored_up_to(sys, sys0, roles, entries, index as int, headset)
        },
        _ => false,
    }
}

proof fn lemma_restored_step(entries: Seq<(Seq<char>, Seq<char>)>, i: int, r: Role)
    requires
        0 <= i < entries.len(),
    ensures
        restored_before(entries, i + 1, r) == (restored_before(entries, i, r) || role_from_name(
            entries[i].0,
        ) == Some(r)),
{
    if restored_before(entries, i + 1, r) {
        let j = choose|j: int| 0 <= j < i + 1 && #[trigger] role_from_name(entries[j].0) == Some(r);
        if j < i {
            assert(restored_before(entries, i, r));
        }
    }
    if restored_before(entries, i, r) {
        let j = choose|j: int| 0 <= j < i && #[trigger] role_from_name(entries[j].0) == Some(r);
        assert(0 <= j < i + 1 && role_from_name(entries[j].0) == Some(r));
    }
    if role_from_name(entries[i].0) == Some(r) {
        assert(0 <= i < i + 1 && role_from_name(entries[i].0) == Some(r));
    }
}

/// Every record is put back: the record is to be put back at each position.
proof fn lemma_all_restorable(
    a0: Actions,
    entries: Seq<(Seq<char>, Seq<char>)>,
    sys0: Map<Role, Option<String>>,
    headset: AudioEndpoint,
    i: int,
)
    requires
        0 <= i <= entries.len(),
        cycle_setup(a0, sys0),
        entries_fit(entries, sys0, a0.config.roles@, headset),
    ensures
        next_restorable(entries, i) == i,
{
    if i < entries.len() {
        let r = role_from_name(entries[i].0)->0;
        assert(sys0[r]->0@.len() > 0);
    }
}

/// A power-off run, from its first record on, ends with nothing recorded,
/// the headset inactive and every record's role given its first default.
proof fn lemma_restoring_run(
    a0: Actions,
    mid: Actions,
    states: Seq<Actions>,
    steps: Seq<Step>,
    systems: Seq<Map<Role, Option<String>>>,
    times: Seq<u64>,
    sys0: Map<Role, Option<String>>,
    headset: AudioEndpoint,
    k: int,
)
    requires
        cycle_setup(a0, sys0),
        mid.config == a0.config,
        entries_fit(mid.state.previous_defaults.entries(), sys0, a0.config.roles@, headset),
        mid.state.previous_defaults.entries().len() <= usize::MAX,
        model_run(states, steps, systems, times, headset),
        0 <= k < states.len(),
        restoring_at(mid, states[k], steps[k], systems[k], sys0, headset),
    ensures
        ({
            let entries = mid.state.previous_defaults.entries();
            let last = states.last();
            &&& last.state.previous_defaults@ == Map::<Seq<char>, Seq<char>>::empty()
            &&& !last.state.headset_active
            &&& last.state.headset_endpoint_id == mid.state.headset_endpoint_id
            &&& sys_restored_up_to(systems.last(), sys0, a0.config.roles@, entries, entries.len() as int, headset)
        }),
    decreases states.len() - k,
{
    let roles = a0.config.roles@;
    let entries = mid.state.previous_defaults.entries();
    let a = states[k];
    let sys = systems[k];
    assert(!(steps[k].command is Finish));
    assert(k < states.len() - 1);
    assert(model_link(states, steps, systems, times, headset, k));
    let b = states[k + 1];
    let sys1 = systems[k + 1];
    match a.job {
        Job::CheckingRestore { index, role } => {
            let i = index as int;
            let v = entries[i].1;
            assert(v == sys0[role]->0@);
            assert(sys1 == sys);
            lemma_all_restorable(a0, entries, sys0, headset, i + 1);
            if restored_before(entries, i, role) {
                assert(sys[role] is Some && sys[role]->0@ == v);
                assert forall|r: Role| #![trigger sys1[r]] #![trigger sys1.dom().contains(r)] sys1.contains_key(r) && if restored_before(entries, i + 1, r) {
                    same_device(sys1[r], sys0[r])
                } else if switched_before(roles, roles.len() as int, r, sys0, headset) {
                    sys1[r] == Some(headset.id)
                } else {
                    sys1[r] == sys0[r]
                } by {
                    lemma_restored_step(entries, i, r);
                    assert(sys.contains_key(r));
                }
                if i + 1 < entries.len() {
                    lemma_restoring_run(a0, mid, states, steps, systems, times, sys0, headset, k + 1);
                } else if k + 1 < states.len() - 1 {
                    assert(model_link(states, steps, systems, times, headset, k + 1));
                }
            } else {
                assert(sys.contains_key(role));
                assert(sys[role] == Some(headset.id));
                assert(headset.id@ != v);
                lemma_restoring_run(a0, mid, states, steps, systems, times, sys0, headset, k + 1);
            }
        },
        Job::Restoring { index, role } => {
            let i = index as int;
            let v = entries[i].1;
            lemma_all_restorable(a0, entries, sys0, headset, i + 1);
            let endpoint_id = steps[k].command->SetDefault_endpoint_id;
            assert(sys1 == sys.insert(role, Some(endpoint_id)));
            assert(endpoint_id@ == sys0[role]->0@);
            assert forall|r: Role| #![trigger sys1[r]] #![trigger sys1.dom().contains(r)] sys1.contains_key(r) && if restored_before(entries, i + 1, r) {
                same_device(sys1[r], sys0[r])
            } else if switched_before(roles, roles.len() as int, r, sys0, headset) {
                sys1[r] == Some(headset.id)
            } else {
                sys1[r] == sys0[r]
            } by {
                lemma_restored_step(entries, i, r);
                assert(sys.contains_key(r));
            }
            if i + 1 < entries.len() {
                lemma_restoring_run(a0, mid, states, steps, systems, times, sys0, headset, k + 1);
            } else if k + 1 < states.len() - 1 {
                assert(model_link(states, steps, systems, times, headset, k + 1));
            }
        },
        _ => {},
    }
}

/// Switching the headset on and then off, every call succeeding: when every
/// device that is the default of a configured role has a non-empty id, the
/// power-off run gives every role its default from before the power-on back
/// (no device stays no device). Configured names that name no role are
/// skipped, and so is a role without a default or whose default already is
/// the headset; nothing stays recorded and the headset is no longer marked
/// active. Power-on marks the headset active exactly when it switches some
/// role; then its endpoint id stays known, else the id is left as it was.
/// The runs are any that the model answers; the record starts empty and the
/// headset inactive.
pub proof fn lemma_power_cycle_restores(
    a0: Actions,
    on_at: u64,
    on_states: Seq<Actions>,
    on_steps: Seq<Step>,
    on_systems: Seq<Map<Role, Option<String>>>,
    on_times: Seq<u64>,
    off_at: u64,
    off_states: Seq<Actions>,
    off_steps: Seq<Step>,
    off_systems: Seq<Map<Role, Option<String>>>,
    off_times: Seq<u64>,
    headset: AudioEndpoint,
)
    requires
        cycle_setup(a0, on_systems[0]),
        a0.state.previous_defaults@ == Map::<Seq<char>, Seq<char>>::empty(),
        !a0.state.headset_active,
        !debounced(a0.last_power, HidEvent::PowerOn, on_at),
        event_handled(a0, on_states[0], HidEvent::PowerOn, on_at, on_steps[0]),
        model_run(on_states, on_steps, on_systems, on_times, headset),
        keys_ascending(on_states.last().state.previous_defaults.entries()),
        on_states.last().state.previous_defaults.entries().len() <= usize::MAX,
        event_handled(on_states.last(), off_states[0], HidEvent::PowerOff, off_at, off_steps[0]),
        off_systems[0] == on_systems.last(),
        model_run(off_states, off_steps, off_systems, off_times, headset),
    ensures
        forall|r: Role| #[trigger] same_device(off_systems.last()[r], on_systems[0][r]),
        off_states.last().state.previous_defaults@ == Map::<Seq<char>, Seq<char>>::empty(),
        !off_states.last().state.headset_active,
        on_states.last().state.headset_active == some_role_switched(a0.config.roles@, on_systems[0], headset),
        off_states.last().state.headset_endpoint_id == if some_role_switched(
            a0.config.roles@,
            on_systems[0],
            headset,
        ) {
            Some(headset.id)
        } else {
            a0.state.headset_endpoint_id
        },
{
    let roles = a0.config.roles@;
    let sys0 = on_systems[0];
    let empty = Map::<Seq<char>, Seq<char>>::empty();
    // power-on: the endpoint is found and switching starts at the first name
    assert(on_states.len() > 1);
    assert(model_link(on_states, on_steps, on_systems, on_times, headset, 0));
    assert(sys_switched_up_to(on_systems[1], sys0, roles, 0, headset)) by {
        assert forall|r: Role| #![trigger on_systems[1][r]] #![trigger on_systems[1].dom().contains(r)] on_systems[1].contains_key(r) && on_systems[1][r] == if switched_before(roles, 0, r, sys0, headset) {
            Some(headset.id)
        } else {
            sys0[r]
        } by {
            assert(sys0.contains_key(r));
        }
    }
    lemma_switching_goes_on(
        a0,
        on_states[0],
        on_states[1],
        on_steps[1],
        on_systems[1],
        sys0,
        headset,
        0,
        false,
        empty,
        seq![Note::TargetEndpoint(headset.name, headset.id)],
    );
    lemma_switching_run(a0, on_states, on_steps, on_systems, on_times, sys0, headset, 1);
    let mid = on_states.last();
    let rec = mid.state.previous_defaults@;
    let entries = mid.state.previous_defaults.entries();
    let mid_sys = on_systems.last();
    mid.state.previous_defaults.lemma_view_is_entries();
    // power-on switches some role exactly when something was recorded
    if some_role_switched(roles, sys0, headset) {
        let r = choose|r: Role| #[trigger] switched_before(roles, roles.len() as int, r, sys0, headset);
        assert(role_recorded(rec, r));
        let kk = choose|kk: Seq<char>| rec.contains_key(kk) && #[trigger] role_from_name(kk) == Some(r);
        assert(rec != empty) by {
            assert(!empty.contains_key(kk));
        }
    }
    if rec != empty {
        let kk = choose|kk: Seq<char>| !(#[trigger] rec.contains_key(kk) == empty.contains_key(kk)
            && (rec.contains_key(kk) ==> rec[kk] == empty[kk]));
        assert(rec.contains_key(kk)) by {
            if !rec.contains_key(kk) {
                assert(rec =~= empty);
            }
        }
        assert(switched_before(roles, roles.len() as int, role_from_name(kk)->0, sys0, headset));
    }
    // every switched role is recorded, so power-off reaches it
    assert forall|r: Role| switched_before(roles, roles.len() as int, r, sys0, headset) implies restored_before(
        entries,
        entries.len() as int,
        r,
    ) by {
        assert(role_recorded(rec, r));
        let kk = choose|kk: Seq<char>| rec.contains_key(kk) && #[trigger] role_from_name(kk) == Some(r);
        assert(has_key(entries, kk));
        let j = key_index(entries, kk);
        assert(0 <= j < entries.len() && role_from_name(entries[j].0) == Some(r));
    }
    let last_sys = off_systems.last();
    if entries.len() == 0 {
        // nothing recorded: power-off has nothing to put back
        assert(rec =~= empty);
        assert(off_states.len() == 1) by {
            if off_states.len() > 1 {
                assert(model_link(off_states, off_steps, off_systems, off_times, headset, 0));
            }
        }
        assert forall|r: Role| #[trigger] same_device(last_sys[r], sys0[r]) by {
            assert(mid_sys.contains_key(r));
        }
    } else {
        // the records, in the order they are put back
        assert(entries_fit(entries, sys0, roles, headset)) by {
            assert forall|j: int| 0 <= j < entries.len() implies (#[trigger] role_from_name(entries[j].0)) is Some
                && switched_before(roles, roles.len() as int, role_from_name(entries[j].0)->0, sys0, headset)
                && entries[j].1 == sys0[role_from_name(entries[j].0)->0]->0@ by {
                lemma_map_of_at(entries, j);
                assert(rec.contains_key(entries[j].0));
            }
        }
        assert(rec.contains_key(entries[0].0)) by {
            lemma_map_of_at(entries, 0);
        }
        lemma_all_restorable(a0, entries, sys0, headset, 0);
        assert(off_states.len() > 1);
        assert forall|r: Role| #![trigger off_systems[0][r]] #![trigger off_systems[0].dom().contains(r)] off_systems[0].contains_key(r) && if restored_before(entries, 0, r) {
            same_device(off_systems[0][r], sys0[r])
        } else if switched_before(roles, roles.len() as int, r, sys0, headset) {
            off_systems[0][r] == Some(headset.id)
        } else {
            off_systems[0][r] == sys0[r]
        } by {
            assert(mid_sys.contains_key(r));
        }
        assert(restoring_at(mid, off_states[0], off_steps[0], off_systems[0], sys0, headset));
        lemma_restoring_run(a0, mid, off_states, off_steps, off_systems, off_times, sys0, headset, 0);
        assert forall|r: Role| #[trigger] same_device(last_sys[r], sys0[r]) by {
            assert(last_sys.contains_key(r));
        }
    }
}

} // verus!
