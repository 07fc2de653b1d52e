//! The windowless launcher's choice of working directory.

use vstd::prelude::*;

verus! {

/// The working directory for the started program: `None` keeps the current
/// directory, which is kept when it holds `config.json`; otherwise the first
/// candidate (the launcher's directory, its parent, its grandparent) that
/// holds it, or the current directory when none does.
pub open spec fn workdir_choice(cwd_has_config: bool, candidates: Seq<bool>) -> Option<int> {
    if cwd_has_config || !candidates.contains(true) {
        None
    } else {
        Some(first_true(candidates))
    }
}

/// The first position that holds `true`, when there is one.
pub open spec fn first_true(flags: Seq<bool>) -> int {
    choose|i: int| 0 <= i < flags.len() && flags[i] && forall|j: int| 0 <= j < i ==> !flags[j]
}

/// Picks the working directory from whether the current directory and each
/// candidate directory hold `config.json`.
pub fn pick_workdir(cwd_has_config: bool, candidate_has_config: &Vec<bool>) -> (r: Option<usize>)
    ensures
        match r {
            Some(i) => workdir_choice(cwd_has_config, candidate_has_config@) == Some(i as int),
            None => workdir_choice(cwd_has_config, candidate_has_config@) is None,
        },
{
    if cwd_has_config {
        return None;
    }
    let mut i: usize = 0;
    while i < candidate_has_config.len()
        invariant
            !cwd_has_config,
            i <= candidate_has_config@.len(),
            forall|j: int| 0 <= j < i ==> !candidate_has_config@[j],
        decreases candidate_has_config@.len() - i,
    {
        if candidate_has_config[i] {
            proof {
                let c = candidate_has_config@;
                assert(c.contains(true));
                assert(0 <= i < c.len() && c[i as int] && forall|j: int| 0 <= j < i ==> !c[j]);
                let k = first_true(c);
                if k < i {
                } else if k > i {
                }
                assert(k == i);
            }
            return Some(i);
        }
        i += 1;
    }
    None
}

} // verus!
