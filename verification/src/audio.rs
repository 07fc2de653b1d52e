//! Audio endpoints and default-device roles, as plain values.
//!
//! Enumerating endpoints and switching the system default is the caller's
//! work; this module names the roles and picks the headset endpoint out of a
//! list the caller has read.

use vstd::prelude::*;
use crate::text::{
    ascii_lowercase, contains_chars, contains_text, occurs_at, equals_ascii_lowercase, to_lowercase,
    unicode_lowercase,
};

verus! {

/// The role for which a playback device is the system default.
#[derive(Debug, Clone, Copy, PartialEq, Eq, Structural)]
pub enum Role {
    Console,
    Multimedia,
    Communications,
}

/// The canonical, lower-case name of a role.
pub open spec fn role_label(role: Role) -> Seq<char> {
    match role {
        Role::Console => "console"@,
        Role::Multimedia => "multimedia"@,
        Role::Communications => "communications"@,
    }
}

/// The role that a configured name denotes, ignoring ASCII case.
pub open spec fn role_from_name(name: Seq<char>) -> Option<Role> {
    let lower = ascii_lowercase(name);
    if lower == "console"@ {
        Some(Role::Console)
    } else if lower == "multimedia"@ {
        Some(Role::Multimedia)
    } else if lower == "communications"@ {
        Some(Role::Communications)
    } else {
        None
    }
}

/// Reads a role name from the configuration; names are matched without
/// regard to ASCII case.
pub fn parse_role(name: &str) -> (role: Option<Role>)
    ensures
        role == role_from_name(name@),
{
    if equals_ascii_lowercase(name, "console") {
        Some(Role::Console)
    } else if equals_ascii_lowercase(name, "multimedia") {
        Some(Role::Multimedia)
    } else if equals_ascii_lowercase(name, "communications") {
        Some(Role::Communications)
    } else {
        None
    }
}

/// The canonical name of a role.
pub fn role_name(role: &Role) -> (name: &'static str)
    ensures
        name@ == role_label(*role),
{
    match role {
        Role::Console => "console",
        Role::Multimedia => "multimedia",
        Role::Communications => "communications",
    }
}

/// Every role is read back from its own canonical name.
pub proof fn lemma_role_name_round_trip(role: Role)
    ensures
        role_from_name(role_label(role)) == Some(role),
{
    reveal_strlit("console");
    reveal_strlit("multimedia");
    reveal_strlit("communications");
    let l = role_label(role);
    assert(ascii_lowercase(l) =~= l);
    assert("console"@.len() == 7);
    assert("multimedia"@.len() == 10);
    assert("communications"@.len() == 14);
}

/// An active playback endpoint: its system id and its friendly name.
#[derive(Debug, Clone, PartialEq, Eq)]
pub struct AudioEndpoint {
    pub id: String,
    pub name: String,
}

/// An endpoint name matches the keyword when the keyword, lower-cased,
/// occurs in the lower-cased name.
pub open spec fn name_matches(name: Seq<char>, keyword: Seq<char>) -> bool {
    contains_chars(unicode_lowercase(name), unicode_lowercase(keyword))
}

/// `needle` sits in `hay` from position `i` on, character by character.
pub open spec fn sits_at(hay: Seq<char>, needle: Seq<char>, i: int) -> bool {
    &&& 0 <= i
    &&& i + needle.len() <= hay.len()
    &&& forall|p: int| 0 <= p < needle.len() ==> hay[i + p] == #[trigger] needle[p]
}

/// A name matches a keyword exactly when the whole keyword, lower-cased,
/// sits somewhere in the lower-cased name, every character of it in a row:
/// a name that lacks part of the keyword does not match.
pub proof fn lemma_match_is_whole_keyword(name: Seq<char>, keyword: Seq<char>)
    ensures
        name_matches(name, keyword) <==> exists|i: int|
            #[trigger] sits_at(unicode_lowercase(name), unicode_lowercase(keyword), i),
{
    let n = unicode_lowercase(name);
    let k = unicode_lowercase(keyword);
    if name_matches(name, keyword) {
        let i = choose|i: int| occurs_at(n, k, i);
        assert forall|p: int| 0 <= p < k.len() implies n[i + p] == #[trigger] k[p] by {
            assert(n.subrange(i, i + k.len())[p] == n[i + p]);
        }
        assert(sits_at(n, k, i));
    }
    if exists|i: int| #[trigger] sits_at(n, k, i) {
        let i = choose|i: int| #[trigger] sits_at(n, k, i);
        assert(n.subrange(i, i + k.len()) =~= k) by {
            assert forall|p: int| 0 <= p < k.len() implies n.subrange(i, i + k.len())[p] == k[p] by {
                assert(n[i + p] == k[p]);
            }
        }
        assert(occurs_at(n, k, i));
    }
}

/// Whether the endpoint name matches the keyword, ignoring case.
pub fn keyword_matches(name: &str, keyword: &str) -> (r: bool)
    ensures
        r == name_matches(name@, keyword@),
{
    let n = to_lowercase(name);
    let k = to_lowercase(keyword);
    contains_text(n.as_str(), k.as_str())
}

/// Picks, out of the active endpoints in the order the system listed them,
/// the first one whose name contains the keyword, ignoring case.
pub fn find_endpoint_by_keyword(endpoints: Vec<AudioEndpoint>, keyword: &str) -> (found: Option<
    AudioEndpoint,
>)
    ensures
        match found {
            Some(ep) => exists|i: int|
                0 <= i < endpoints@.len() && endpoints@[i] == ep && name_matches(ep.name@, keyword@)
                    && forall|j: int|
                    0 <= j < i ==> !name_matches(endpoints@[j].name@, keyword@),
            None => forall|i: int|
                0 <= i < endpoints@.len() ==> !name_matches(endpoints@[i].name@, keyword@),
        },
{
    let kw = to_lowercase(keyword);
    let mut i: usize = 0;
    while i < endpoints.len()
        invariant
            kw@ == unicode_lowercase(keyword@),
            i <= endpoints@.len(),
            forall|j: int| 0 <= j < i ==> !name_matches(endpoints@[j].name@, keyword@),
        decreases endpoints@.len() - i,
    {
        let lowered = to_lowercase(endpoints[i].name.as_str());
        if contains_text(lowered.as_str(), kw.as_str()) {
            let ghost all = endpoints@;
            let mut rest = endpoints;
            let ep = rest.swap_remove(i);
            assert(all[i as int] == ep);
            return Some(ep);
        }
        i += 1;
    }
    None
}

} // verus!
