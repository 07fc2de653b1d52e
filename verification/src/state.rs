//! The persisted record of which default devices the headset replaced.

use vstd::prelude::*;
use crate::text::chars_of;

verus! {

/// Lexicographic order on texts by code point, which is the order of
/// `String` by its UTF-8 bytes.
pub open spec fn text_less(a: Seq<char>, b: Seq<char>) -> bool
    decreases a.len(),
{
    if a.len() == 0 {
        b.len() > 0
    } else if b.len() == 0 {
        false
    } else if a[0] != b[0] {
        a[0] < b[0]
    } else {
        text_less(a.drop_first(), b.drop_first())
    }
}

/// No text is below itself.
pub proof fn lemma_text_less_irreflexive(a: Seq<char>)
    ensures
        !text_less(a, a),
    decreases a.len(),
{
    if a.len() > 0 {
        lemma_text_less_irreflexive(a.drop_first());
    }
}

/// The order is transitive.
pub proof fn lemma_text_less_transitive(a: Seq<char>, b: Seq<char>, c: Seq<char>)
    requires
        text_less(a, b),
        text_less(b, c),
    ensures
        text_less(a, c),
    decreases a.len(),
{
    if a.len() > 0 && b.len() > 0 && c.len() > 0 && a[0] == b[0] && b[0] == c[0] {
        lemma_text_less_transitive(a.drop_first(), b.drop_first(), c.drop_first());
    }
}

/// Two different texts are ordered one way or the other.
pub proof fn lemma_text_less_total(a: Seq<char>, b: Seq<char>)
    requires
        a != b,
    ensures
        text_less(a, b) || text_less(b, a),
    decreases a.len(),
{
    if a.len() > 0 && b.len() > 0 && a[0] == b[0] {
        if a.drop_first() == b.drop_first() {
            assert(a =~= seq![a[0]] + a.drop_first());
            assert(b =~= seq![b[0]] + b.drop_first());
        }
        lemma_text_less_total(a.drop_first(), b.drop_first());
    } else if a.len() == 0 && b.len() == 0 {
        assert(a =~= b);
    }
}

/// Comparing after a common prefix gives the same answer.
proof fn lemma_text_less_skip(a: Seq<char>, b: Seq<char>, i: int)
    requires
        0 <= i <= a.len(),
        i <= b.len(),
        forall|j: int| 0 <= j < i ==> a[j] == b[j],
    ensures
        text_less(a, b) == text_less(a.skip(i), b.skip(i)),
    decreases i,
{
    if i > 0 {
        lemma_text_less_skip(a.drop_first(), b.drop_first(), i - 1);
        assert(a.drop_first().skip(i - 1) =~= a.skip(i));
        assert(b.drop_first().skip(i - 1) =~= b.skip(i));
    } else {
        assert(a.skip(0) =~= a);
        assert(b.skip(0) =~= b);
    }
}

/// Whether `a` comes before `b` in code point order.
pub fn text_before(a: &Vec<char>, b: &Vec<char>) -> (r: bool)
    ensures
        r == text_less(a@, b@),
{
    let mut i: usize = 0;
    while i < a.len() && i < b.len()
        invariant
            i <= a@.len(),
            i <= b@.len(),
            forall|j: int| 0 <= j < i ==> a@[j] == b@[j],
        decreases a@.len() - i,
    {
        if a[i] != b[i] {
            proof {
                lemma_text_less_skip(a@, b@, i as int);
                assert(a@.skip(i as int)[0] == a@[i as int]);
                assert(b@.skip(i as int)[0] == b@[i as int]);
            }
            return a[i] < b[i];
        }
        i += 1;
    }
    proof {
        lemma_text_less_skip(a@, b@, i as int);
    }
    i < b.len()
}

/// Entries ordered by strictly ascending key.
pub open spec fn keys_ascending(entries: Seq<(Seq<char>, Seq<char>)>) -> bool {
    forall|i: int, j: int|
        0 <= i < j < entries.len() ==> text_less(#[trigger] entries[i].0, #[trigger] entries[j].0)
}

/// `key` is the key of some entry.
pub open spec fn has_key(entries: Seq<(Seq<char>, Seq<char>)>, key: Seq<char>) -> bool {
    exists|i: int| 0 <= i < entries.len() && #[trigger] entries[i].0 == key
}

/// A position at which `key` is the key of an entry, if there is one.
pub open spec fn key_index(entries: Seq<(Seq<char>, Seq<char>)>, key: Seq<char>) -> int {
    choose|i: int| 0 <= i < entries.len() && #[trigger] entries[i].0 == key
}

/// The map that a list of entries with distinct keys denotes.
pub open spec fn map_of(entries: Seq<(Seq<char>, Seq<char>)>) -> Map<Seq<char>, Seq<char>> {
    Map::new(|k: Seq<char>| has_key(entries, k), |k: Seq<char>| entries[key_index(entries, k)].1)
}

/// In ascending entries a key sits at one position only, which gives its value.
pub proof fn lemma_map_of_at(entries: Seq<(Seq<char>, Seq<char>)>, i: int)
    requires
        keys_ascending(entries),
        0 <= i < entries.len(),
    ensures
        map_of(entries).contains_key(entries[i].0),
        map_of(entries)[entries[i].0] == entries[i].1,
{
    let k = entries[i].0;
    assert(has_key(entries, k));
    assert(map_of(entries).dom().contains(k));
    let c = key_index(entries, k);
    assert(map_of(entries)[k] == entries[c].1);
    if c != i {
        if c < i {
            assert(text_less(entries[c].0, entries[i].0));
        } else {
            assert(text_less(entries[i].0, entries[c].0));
        }
        lemma_text_less_irreflexive(k);
    }
}

/// Dropping the first of ascending entries drops its key from the map.
proof fn lemma_map_of_drop_first(s: Seq<(Seq<char>, Seq<char>)>)
    requires
        keys_ascending(s),
        s.len() > 0,
    ensures
        map_of(s.drop_first()) == map_of(s).remove(s[0].0),
{
    let t = s.drop_first();
    assert(keys_ascending(t)) by {
        assert forall|i: int, j: int| 0 <= i < j < t.len() implies text_less(
            #[trigger] t[i].0,
            #[trigger] t[j].0,
        ) by {
            assert(t[i] == s[i + 1] && t[j] == s[j + 1]);
        }
    }
    assert forall|k: Seq<char>| #[trigger] map_of(t).contains_key(k) == map_of(s).remove(
        s[0].0,
    ).contains_key(k) by {
        if has_key(t, k) {
            let c = choose|c: int| 0 <= c < t.len() && #[trigger] t[c].0 == k;
            assert(s[c + 1].0 == k);
            assert(has_key(s, k));
            assert(text_less(s[0].0, s[c + 1].0));
            lemma_text_less_irreflexive(k);
        }
        if has_key(s, k) && k != s[0].0 {
            let c = choose|c: int| 0 <= c < s.len() && #[trigger] s[c].0 == k;
            assert(c != 0);
            assert(t[c - 1].0 == k);
        }
    }
    assert forall|k: Seq<char>| #[trigger] map_of(t).contains_key(k) implies map_of(t)[k] == map_of(
        s,
    ).remove(s[0].0)[k] by {
        let c = choose|c: int| 0 <= c < t.len() && #[trigger] t[c].0 == k;
        lemma_map_of_at(t, c);
        lemma_map_of_at(s, c + 1);
        assert(s[c + 1] == t[c]);
    }
    assert(map_of(t) =~= map_of(s).remove(s[0].0));
}

/// Entries kept in ascending key order are fixed by the map they denote: two
/// records holding the same role names with the same devices list them
/// identically, whatever order the names were recorded in.
pub proof fn lemma_entries_determined_by_map(
    a: Seq<(Seq<char>, Seq<char>)>,
    b: Seq<(Seq<char>, Seq<char>)>,
)
    requires
        keys_ascending(a),
        keys_ascending(b),
        map_of(a) == map_of(b),
    ensures
        a == b,
    decreases a.len(),
{
    if a.len() == 0 || b.len() == 0 {
        if a.len() > 0 {
            lemma_map_of_at(a, 0);
            assert(map_of(b).contains_key(a[0].0));
        }
        if b.len() > 0 {
            lemma_map_of_at(b, 0);
            assert(map_of(a).contains_key(b[0].0));
        }
        assert(a =~= b);
    } else {
        lemma_map_of_at(a, 0);
        lemma_map_of_at(b, 0);
        let ka = a[0].0;
        let kb = b[0].0;
        assert(has_key(b, ka));
        assert(has_key(a, kb));
        let c = choose|c: int| 0 <= c < b.len() && #[trigger] b[c].0 == ka;
        let d = choose|d: int| 0 <= d < a.len() && #[trigger] a[d].0 == kb;
        if c > 0 {
            assert(text_less(b[0].0, b[c].0));
            if d == 0 {
                lemma_text_less_irreflexive(ka);
            } else {
                assert(text_less(a[0].0, a[d].0));
                lemma_text_less_transitive(ka, kb, ka);
                lemma_text_less_irreflexive(ka);
            }
        }
        assert(ka == kb);
        assert(a[0] == b[0]);
        lemma_map_of_drop_first(a);
        lemma_map_of_drop_first(b);
        lemma_entries_determined_by_map(a.drop_first(), b.drop_first());
        assert(a =~= seq![a[0]] + a.drop_first());
        assert(b =~= seq![b[0]] + b.drop_first());
    }
}

/// Device ids recorded per role name before the headset took over, kept in
/// ascending order of role name, one entry per name.
#[derive(Debug)]
pub struct DefaultsMap {
    entries: Vec<(String, String)>,
}

impl DefaultsMap {
    /// The entries as texts, in the order they are kept.
    pub closed spec fn entries(&self) -> Seq<(Seq<char>, Seq<char>)> {
        self.entries@.map_values(|e: (String, String)| (e.0@, e.1@))
    }

    #[verifier::type_invariant]
    closed spec fn ascending(&self) -> bool {
        keys_ascending(self.entries())
    }

    /// The map holds exactly the kept entries.
    pub proof fn lemma_view_is_entries(&self)
        ensures
            self@ == map_of(self.entries()),
    {
    }

    /// The empty record.
    pub fn new() -> (m: Self)
        ensures
            m.entries() == Seq::<(Seq<char>, Seq<char>)>::empty(),
            m@ == Map::<Seq<char>, Seq<char>>::empty(),
    {
        let m = DefaultsMap { entries: Vec::new() };
        assert(m.entries() =~= Seq::<(Seq<char>, Seq<char>)>::empty());
        assert(m@ =~= Map::<Seq<char>, Seq<char>>::empty());
        m
    }

    /// Number of recorded roles.
    pub fn len(&self) -> (n: usize)
        ensures
            n == self.entries().len(),
            keys_ascending(self.entries()),
    {
        proof {
            use_type_invariant(self);
        }
        self.entries.len()
    }

    /// Whether nothing is recorded.
    pub fn is_empty(&self) -> (r: bool)
        ensures
            r == (self.entries().len() == 0),
            r == (self@ == Map::<Seq<char>, Seq<char>>::empty()),
    {
        proof {
            if self.entries().len() > 0 {
                use_type_invariant(self);
                lemma_map_of_at(self.entries(), 0);
                assert(self@.contains_key(self.entries()[0].0));
            } else {
                assert(self@ =~= Map::<Seq<char>, Seq<char>>::empty());
            }
        }
        self.entries.len() == 0
    }

    /// The entry at position `i` in ascending key order.
    pub fn entry(&self, i: usize) -> (e: (&String, &String))
        requires
            i < self.entries().len(),
        ensures
            (e.0@, e.1@) == self.entries()[i as int],
    {
        let e = &self.entries[i];
        (&e.0, &e.1)
    }

    /// Forgets every entry.
    pub fn clear(&mut self)
        ensures
            final(self).entries() == Seq::<(Seq<char>, Seq<char>)>::empty(),
            final(self)@ == Map::<Seq<char>, Seq<char>>::empty(),
    {
        self.entries = Vec::new();
        assert(self.entries() =~= Seq::<(Seq<char>, Seq<char>)>::empty());
        assert(self@ =~= Map::<Seq<char>, Seq<char>>::empty());
    }

    /// Records `value` for `key`, replacing what was recorded for it.
    pub fn insert(&mut self, key: String, value: String)
        ensures
            final(self)@ == old(self)@.insert(key@, value@),
    {
        proof {
            use_type_invariant(&*self);
        }
        let ghost old_entries = self.entries();
        let mut entries: Vec<(String, String)> = Vec::new();
        std::mem::swap(&mut entries, &mut self.entries);
        let ghost es = entries@.map_values(|e: (String, String)| (e.0@, e.1@));
        assert(es == old_entries);
        let kc = chars_of(key.as_str());
        let mut i: usize = 0;
        while i < entries.len()
            invariant
                es == entries@.map_values(|e: (String, String)| (e.0@, e.1@)),
                keys_ascending(es),
                kc@ == key@,
                i <= es.len(),
                forall|j: int| 0 <= j < i ==> text_less(#[trigger] es[j].0, key@),
            ensures
                i <= es.len(),
                forall|j: int| 0 <= j < i ==> text_less(#[trigger] es[j].0, key@),
                i < es.len() ==> !text_less(es[i as int].0, key@),
            decreases es.len() - i,
        {
            let ec = chars_of(entries[i].0.as_str());
            if !text_before(&ec, &kc) {
                break;
            }
            i += 1;
        }
        let ghost k = key@;
        let ghost v = value@;
        // every key before position i is below `key`; the one at i, if any, is not
        if i < entries.len() && entries[i].0 == key {
            entries.set(i, (key, value));
            let ghost ns = entries@.map_values(|e: (String, String)| (e.0@, e.1@));
            assert(ns =~= es.update(i as int, (k, v)));
            assert(es[i as int].0 == k);
            assert forall|j: int| 0 <= j < ns.len() implies #[trigger] ns[j].0 == es[j].0 by {}
            assert(keys_ascending(ns));
            proof {
                assert forall|kk: Seq<char>| #[trigger] map_of(ns).contains_key(kk) == map_of(
                    es,
                ).insert(k, v).contains_key(kk) by {
                    if has_key(ns, kk) {
                        let c = choose|c: int| 0 <= c < ns.len() && #[trigger] ns[c].0 == kk;
                        assert(c == i ==> kk == k);
                        assert(c != i ==> es[c].0 == kk);
                    }
                    if has_key(es, kk) {
                        let c = choose|c: int| 0 <= c < es.len() && #[trigger] es[c].0 == kk;
                        assert(ns[c].0 == kk);
                    }
                    if kk == k {
                        assert(ns[i as int].0 == kk);
                    }
                }
                assert forall|kk: Seq<char>| #[trigger] map_of(ns).contains_key(kk) implies map_of(
                    ns,
                )[kk] == map_of(es).insert(k, v)[kk] by {
                    let c = choose|c: int| 0 <= c < ns.len() && #[trigger] ns[c].0 == kk;
                    lemma_map_of_at(ns, c);
                    if c != i {
                        lemma_map_of_at(es, c);
                        if c < i {
                            assert(text_less(es[c].0, es[i as int].0));
                        } else {
                            assert(text_less(es[i as int].0, es[c].0));
                        }
                        lemma_text_less_irreflexive(k);
                        assert(kk != k);
                    }
                }
                assert(map_of(ns) =~= map_of(es).insert(k, v));
            }
            self.entries = entries;
        } else {
            proof {
                if i < es.len() {
                    assert(es[i as int].0 != k);
                    lemma_text_less_total(es[i as int].0, k);
                    assert(text_less(k, es[i as int].0));
                }
            }
            entries.insert(i, (key, value));
            let ghost ns = entries@.map_values(|e: (String, String)| (e.0@, e.1@));
            assert(ns =~= es.insert(i as int, (k, v)));
            proof {
                assert forall|a: int, b: int| 0 <= a < b < ns.len() implies text_less(
                    #[trigger] ns[a].0,
                    #[trigger] ns[b].0,
                ) by {
                    if b == i {
                    } else if a == i {
                        if b - 1 > i {
                            lemma_text_less_transitive(k, es[i as int].0, es[b - 1].0);
                        }
                    } else if a < i && b > i {
                        assert(text_less(es[a].0, k));
                        if b - 1 > i {
                            lemma_text_less_transitive(k, es[i as int].0, es[b - 1].0);
                        }
                        lemma_text_less_transitive(es[a].0, k, es[b - 1].0);
                    }
                }
                assert(!has_key(es, k)) by {
                    if has_key(es, k) {
                        let c = choose|c: int| 0 <= c < es.len() && #[trigger] es[c].0 == k;
                        if c < i {
                            lemma_text_less_irreflexive(k);
                        } else if c > i {
                            lemma_text_less_transitive(k, es[i as int].0, es[c].0);
                            lemma_text_less_irreflexive(k);
                        }
                    }
                }
                assert forall|kk: Seq<char>| #[trigger] map_of(ns).contains_key(kk) == map_of(
                    es,
                ).insert(k, v).contains_key(kk) by {
                    if has_key(ns, kk) {
                        let c = choose|c: int| 0 <= c < ns.len() && #[trigger] ns[c].0 == kk;
                        if c < i {
                            assert(es[c].0 == kk);
                        } else if c > i {
                            assert(es[c - 1].0 == kk);
                        }
                    }
                    if has_key(es, kk) {
                        let c = choose|c: int| 0 <= c < es.len() && #[trigger] es[c].0 == kk;
                        if c < i {
                            assert(ns[c].0 == kk);
                        } else {
                            assert(ns[c + 1].0 == kk);
                        }
                    }
                    if kk == k {
                        assert(ns[i as int].0 == kk);
                    }
                }
                assert forall|kk: Seq<char>| #[trigger] map_of(ns).contains_key(kk) implies map_of(
                    ns,
                )[kk] == map_of(es).insert(k, v)[kk] by {
                    let c = choose|c: int| 0 <= c < ns.len() && #[trigger] ns[c].0 == kk;
                    lemma_map_of_at(ns, c);
                    if c < i {
                        lemma_map_of_at(es, c);
                    } else if c > i {
                        lemma_map_of_at(es, c - 1);
                    }
                }
                assert(map_of(ns) =~= map_of(es).insert(k, v));
            }
            self.entries = entries;
        }
    }
}

impl Clone for DefaultsMap {
    fn clone(&self) -> (c: Self)
        ensures
            c.entries() == self.entries(),
            c@ == self@,
    {
        proof {
            use_type_invariant(self);
        }
        let mut entries: Vec<(String, String)> = Vec::new();
        let mut i: usize = 0;
        while i < self.entries.len()
            invariant
                i <= self.entries@.len(),
                entries@.len() == i,
                forall|j: int|
                    0 <= j < i ==> (#[trigger] entries@[j]).0@ == self.entries@[j].0@ && entries@[j].1@
                        == self.entries@[j].1@,
            decreases self.entries@.len() - i,
        {
            let k = self.entries[i].0.clone();
            let v = self.entries[i].1.clone();
            entries.push((k, v));
            i += 1;
        }
        let ghost ne = entries@.map_values(|e: (String, String)| (e.0@, e.1@));
        assert(ne =~= self.entries());
        let c = DefaultsMap { entries };
        assert(c.entries() == ne);
        c
    }
}

impl View for DefaultsMap {
    type V = Map<Seq<char>, Seq<char>>;

    closed spec fn view(&self) -> Map<Seq<char>, Seq<char>> {
        map_of(self.entries())
    }
}

} // verus!

verus! {

/// Name of the state file, relative to the working directory.
pub const DEFAULT_STATE: &'static str = "state.json";

/// What survives a restart of the program.
#[derive(Debug, Clone)]
pub struct State {
    /// The headset was made the default by the last power-on.
    pub headset_active: bool,
    /// Per role name, the device that was the default before the headset.
    pub previous_defaults: DefaultsMap,
    /// The headset endpoint id found at the last switch.
    pub headset_endpoint_id: Option<String>,
}

impl Default for State {
    fn default() -> (s: Self)
        ensures
            !s.headset_active,
            s.previous_defaults@ == Map::<Seq<char>, Seq<char>>::empty(),
            s.previous_defaults.entries() == Seq::<(Seq<char>, Seq<char>)>::empty(),
            s.headset_endpoint_id is None,
    {
        State { headset_active: false, previous_defaults: DefaultsMap::new(), headset_endpoint_id: None }
    }
}

} // verus!
