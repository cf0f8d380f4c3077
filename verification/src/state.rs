//! The original fonts of profiles, kept so that they can be restored.
use vstd::prelude::*;

use crate::text::str_eq;

verus! {

/// Original font of each GNOME Terminal profile whose font was changed,
/// keyed by profile UUID.
///
/// vstd specifies `HashMap` only for keys that follow its key model, which
/// `String` does not; the profiles are therefore a list in which each
/// profile occurs once, seen as a `Map`.
pub struct SavedState {
    profiles: Vec<(String, String)>,
}

/// The map that a list of (key, value) entries describes, later entries
/// taking precedence.
pub open spec fn entries_map(s: Seq<(Seq<char>, Seq<char>)>) -> Map<Seq<char>, Seq<char>>
    decreases s.len(),
{
    if s.len() == 0 {
        Map::empty()
    } else {
        entries_map(s.drop_last()).insert(s.last().0, s.last().1)
    }
}

/// No key occurs twice in the entries.
pub open spec fn keys_distinct(s: Seq<(Seq<char>, Seq<char>)>) -> bool {
    forall|i: int, j: int| 0 <= i < j < s.len() ==> (#[trigger] s[i]).0 != (#[trigger] s[j]).0
}

/// The entries of a list of string pairs, as character sequences.
pub open spec fn pairs_view(v: Seq<(String, String)>) -> Seq<(Seq<char>, Seq<char>)> {
    v.map_values(|p: (String, String)| (p.0@, p.1@))
}

/// The profile fonts to be restored: what was recorded before a change.
pub open spec fn remembered(
    m: Map<Seq<char>, Seq<char>>,
    uuid: Seq<char>,
    font: Seq<char>,
) -> Map<Seq<char>, Seq<char>> {
    if m.dom().contains(uuid) {
        m
    } else {
        m.insert(uuid, font)
    }
}

proof fn lemma_entries_dom(s: Seq<(Seq<char>, Seq<char>)>, k: Seq<char>)
    ensures
        entries_map(s).dom().contains(k) <==> exists|i: int| 0 <= i < s.len() && (#[trigger] s[i]).0 == k,
    decreases s.len(),
{
    if s.len() > 0 {
        lemma_entries_dom(s.drop_last(), k);
        if entries_map(s.drop_last()).dom().contains(k) {
            let i = choose|i: int| 0 <= i < s.drop_last().len() && (#[trigger] s.drop_last()[i]).0 == k;
            assert(s[i].0 == k);
        }
        if exists|i: int| 0 <= i < s.len() && (#[trigger] s[i]).0 == k {
            let i = choose|i: int| 0 <= i < s.len() && (#[trigger] s[i]).0 == k;
            if i < s.len() - 1 {
                assert(s.drop_last()[i].0 == k);
            }
        }
    }
}

proof fn lemma_entries_value(s: Seq<(Seq<char>, Seq<char>)>, i: int)
    requires
        keys_distinct(s),
        0 <= i < s.len(),
    ensures
        entries_map(s).dom().contains(s[i].0),
        entries_map(s)[s[i].0] == s[i].1,
    decreases s.len(),
{
    lemma_entries_dom(s, s[i].0);
    if i < s.len() - 1 {
        assert(keys_distinct(s.drop_last()));
        assert(s.drop_last()[i] == s[i]);
        lemma_entries_value(s.drop_last(), i);
        assert(s[i].0 != s.last().0);
    }
}

proof fn lemma_entries_update(s: Seq<(Seq<char>, Seq<char>)>, i: int, v: Seq<char>)
    requires
        keys_distinct(s),
        0 <= i < s.len(),
    ensures
        keys_distinct(s.update(i, (s[i].0, v))),
        entries_map(s.update(i, (s[i].0, v))) == entries_map(s).insert(s[i].0, v),
    decreases s.len(),
{
    let t = s.update(i, (s[i].0, v));
    assert(keys_distinct(t)) by {
        assert forall|a: int, b: int| 0 <= a < b < t.len() implies (#[trigger] t[a]).0 != (
        #[trigger] t[b]).0 by {
            assert(s[a].0 == t[a].0);
            assert(s[b].0 == t[b].0);
        }
    }
    if i == s.len() - 1 {
        assert(t.drop_last() =~= s.drop_last());
        lemma_entries_dom(s.drop_last(), s[i].0);
        assert(entries_map(s).insert(s[i].0, v) =~= entries_map(s.drop_last()).insert(s[i].0, v));
    } else {
        assert(t.drop_last() =~= s.drop_last().update(i, (s[i].0, v)));
        assert(keys_distinct(s.drop_last()));
        lemma_entries_update(s.drop_last(), i, v);
        assert(s.last().0 != s[i].0);
        assert(entries_map(t) =~= entries_map(s).insert(s[i].0, v));
    }
}

impl View for SavedState {
    type V = Map<Seq<char>, Seq<char>>;

    closed spec fn view(&self) -> Map<Seq<char>, Seq<char>> {
        entries_map(pairs_view(self.profiles@))
    }
}

impl SavedState {
    /// Every profile occurs once.
    #[verifier::type_invariant]
    spec fn profiles_distinct(self) -> bool {
        keys_distinct(pairs_view(self.profiles@))
    }

    /// The recorded (profile UUID, original font) pairs, each profile once.
    pub closed spec fn entries(&self) -> Seq<(Seq<char>, Seq<char>)> {
        pairs_view(self.profiles@)
    }

    /// Nothing recorded.
    pub fn new() -> (s: Self)
        ensures
            s@ == Map::<Seq<char>, Seq<char>>::empty(),
    {
        SavedState { profiles: Vec::new() }
    }

    /// Position of profile `uuid` among the entries.
    fn position(&self, uuid: &str) -> (r: Option<usize>)
        ensures
            r matches Some(i) ==> i < self.profiles@.len() && self.entries()[i as int].0 == uuid@,
            r is None ==> forall|i: int|
                0 <= i < self.profiles@.len() ==> (#[trigger] self.entries()[i]).0 != uuid@,
    {
        let mut i: usize = 0;
        while i < self.profiles.len()
            invariant
                0 <= i <= self.profiles@.len(),
                forall|j: int| 0 <= j < i ==> (#[trigger] self.entries()[j]).0 != uuid@,
            decreases self.profiles@.len() - i,
        {
            if str_eq(self.profiles[i].0.as_str(), uuid) {
                return Some(i);
            }
            i += 1;
        }
        None
    }

    /// Whether a font is recorded for profile `uuid`.
    pub fn contains_profile(&self, uuid: &str) -> (r: bool)
        ensures
            r == self@.dom().contains(uuid@),
    {
        proof {
            lemma_entries_dom(self.entries(), uuid@);
        }
        self.position(uuid).is_some()
    }

    /// The font recorded for profile `uuid`.
    pub fn original_font(&self, uuid: &str) -> (r: Option<String>)
        ensures
            self@.dom().contains(uuid@) ==> (r matches Some(f) && f@ == self@[uuid@]),
            !self@.dom().contains(uuid@) ==> r is None,
    {
        proof {
            use_type_invariant(self);
            lemma_entries_dom(self.entries(), uuid@);
        }
        match self.position(uuid) {
            Some(i) => {
                proof {
                    lemma_entries_value(self.entries(), i as int);
                }
                Some(self.profiles[i].1.clone())
            },
            None => None,
        }
    }

    /// Record `font` for profile `uuid`, replacing what was recorded before.
    pub fn insert(&mut self, uuid: String, font: String)
        ensures
            final(self)@ == old(self)@.insert(uuid@, font@),
    {
        proof {
            use_type_invariant(&*self);
        }
        let ghost before = self.entries();
        let found = self.position(uuid.as_str());
        let mut profiles: Vec<(String, String)> = Vec::new();
        std::mem::swap(&mut profiles, &mut self.profiles);
        assert(pairs_view(profiles@) == before);
        let ghost k = uuid@;
        let ghost fv = font@;
        match found {
            Some(i) => {
                profiles.set(i, (uuid, font));
                proof {
                    assert(pairs_view(profiles@) =~= before.update(i as int, (before[i as int].0, fv)));
                    lemma_entries_update(before, i as int, fv);
                }
            },
            None => {
                profiles.push((uuid, font));
                proof {
                    let after = pairs_view(profiles@);
                    assert(after =~= before.push((k, fv)));
                    assert(after.drop_last() =~= before);
                    assert(keys_distinct(after)) by {
                        assert forall|a: int, b: int|
                            0 <= a < b < after.len() implies (#[trigger] after[a]).0 != (
                        #[trigger] after[b]).0 by {
                            assert(after[a] == before[a]);
                            if b < before.len() {
                                assert(after[b] == before[b]);
                            }
                        }
                    }
                }
            },
        }
        self.profiles = profiles;
    }

    /// Record the original font of profile `uuid`, unless one is already
    /// recorded: an already-scaled font never overwrites the original.
    /// Returns whether anything was recorded.
    pub fn remember_original(&mut self, uuid: &str, font: &str) -> (added: bool)
        ensures
            added == !old(self)@.dom().contains(uuid@),
            final(self)@ == remembered(old(self)@, uuid@, font@),
    {
        if self.contains_profile(uuid) {
            false
        } else {
            self.insert(String::from_str(uuid), String::from_str(font));
            true
        }
    }

    /// Whether nothing is recorded.
    pub fn is_empty(&self) -> (r: bool)
        ensures
            r == (self@.dom() =~= Set::<Seq<char>>::empty()),
    {
        proof {
            if self.profiles@.len() > 0 {
                lemma_entries_dom(self.entries(), self.entries()[0].0);
            }
        }
        self.profiles.len() == 0
    }

    /// The recorded (profile UUID, original font) pairs.
    pub fn profiles(&self) -> (r: &Vec<(String, String)>)
        ensures
            keys_distinct(pairs_view(r@)),
            entries_map(pairs_view(r@)) == self@,
    {
        proof {
            use_type_invariant(self);
        }
        &self.profiles
    }
}

/// Recording a profile's original font leaves every other profile as it
/// was: recorded exactly when it was before, with the same font; the profile
/// itself is recorded afterwards, and with `font` when it was not before.
pub proof fn lemma_remember_keeps_others(
    m: Map<Seq<char>, Seq<char>>,
    uuid: Seq<char>,
    font: Seq<char>,
    other: Seq<char>,
)
    requires
        other != uuid,
    ensures
        remembered(m, uuid, font).dom().contains(other) == m.dom().contains(other),
        m.dom().contains(other) ==> remembered(m, uuid, font)[other] == m[other],
        remembered(m, uuid, font).dom().contains(uuid),
        m.dom().contains(uuid) ==> remembered(m, uuid, font)[uuid] == m[uuid],
        !m.dom().contains(uuid) ==> remembered(m, uuid, font)[uuid] == font,
{
}

/// Recording the original font is idempotent: once a profile's font is
/// recorded, recording again, with any font, changes nothing.
pub proof fn lemma_remember_keeps_original(
    m: Map<Seq<char>, Seq<char>>,
    uuid: Seq<char>,
    first: Seq<char>,
    later: Seq<char>,
)
    ensures
        remembered(remembered(m, uuid, first), uuid, later) == remembered(m, uuid, first),
        remembered(m, uuid, first).dom().contains(uuid),
        !m.dom().contains(uuid) ==> remembered(m, uuid, first)[uuid] == first,
{
}

} // verus!
