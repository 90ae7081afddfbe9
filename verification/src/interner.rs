//! Interning of label and color strings: each distinct string gets the
//! position at which it was first seen.

use vstd::prelude::*;

verus! {

/// A `hashbrown::HashMap` from strings to their positions.
#[verifier::external_body]
pub struct StringPositions {
    map: hashbrown::HashMap<String, u32>,
}

/// The entries of a [`StringPositions`], keyed by the strings' text.
pub uninterp spec fn positions_of(positions: StringPositions) -> Map<Seq<char>, u32>;

impl StringPositions {
    /// An empty map.
    ///
    /// Calls `hashbrown::HashMap::new`, which creates a map with no entries.
    #[verifier::external_body]
    pub fn new() -> (positions: Self)
        ensures
            positions_of(positions).dom() == Set::<Seq<char>>::empty(),
    {
        StringPositions { map: hashbrown::HashMap::new() }
    }

    /// Removes every entry.
    ///
    /// Calls `hashbrown::HashMap::clear`, which removes all key-value pairs.
    #[verifier::external_body]
    pub fn clear(&mut self)
        ensures
            positions_of(*final(self)).dom() == Set::<Seq<char>>::empty(),
    {
        self.map.clear();
    }

    /// The position recorded for `key`, if any.
    ///
    /// Calls `hashbrown::HashMap::get`, which returns the value stored under a
    /// key equal to `key`, or `None` when there is none.
    #[verifier::external_body]
    pub fn get(&self, key: &str) -> (position: Option<u32>)
        ensures
            position == (if positions_of(*self).contains_key(key@) {
                Some(positions_of(*self)[key@])
            } else {
                None
            }),
    {
        self.map.get(key).copied()
    }

    /// Records `position` for `key`, replacing any earlier entry.
    ///
    /// Calls `hashbrown::HashMap::insert`, which stores the value under the key,
    /// replacing the value of an equal key already present.
    #[verifier::external_body]
    pub fn insert(&mut self, key: String, position: u32)
        ensures
            positions_of(*final(self)) == positions_of(*old(self)).insert(key@, position),
    {
        self.map.insert(key, position);
    }
}

/// The strings interned so far, in order of first appearance.
pub struct Interner {
    positions: StringPositions,
    strings: Vec<String>,
}

/// The state after interning `key`: an unseen string is appended.
pub open spec fn intern(strings: Seq<Seq<char>>, key: Seq<char>) -> Seq<Seq<char>> {
    if strings.contains(key) {
        strings
    } else {
        strings.push(key)
    }
}

/// The position of `key` once interned: where it was first seen.
pub open spec fn interned_position(strings: Seq<Seq<char>>, key: Seq<char>) -> int {
    if strings.contains(key) {
        strings.index_of(key)
    } else {
        strings.len() as int
    }
}

/// Interning gives back the string at its position, and interning the same
/// string again changes nothing and gives the same position.
pub proof fn lemma_intern_idempotent(strings: Seq<Seq<char>>, key: Seq<char>)
    requires
        strings.no_duplicates(),
    ensures
        intern(strings, key)[interned_position(strings, key)] == key,
        intern(strings, key).no_duplicates(),
        intern(intern(strings, key), key) == intern(strings, key),
        interned_position(intern(strings, key), key) == interned_position(strings, key),
{
    let t = intern(strings, key);
    if strings.contains(key) {
        let i = strings.index_of(key);
        assert(strings[i] == key);
    } else {
        assert(t[strings.len() as int] == key);
        assert(t.contains(key));
        let j = t.index_of(key);
        assert(t[j] == key);
        if j < strings.len() {
            assert(strings[j] == key);
        }
    }
}

impl View for Interner {
    type V = Seq<Seq<char>>;

    closed spec fn view(&self) -> Seq<Seq<char>> {
        self.strings@.map_values(|s: String| s@)
    }
}

impl Interner {
    /// The strings are distinct and the map sends each to its position.
    pub closed spec fn wf(&self) -> bool {
        &&& self@.no_duplicates()
        &&& forall|k: Seq<char>|
            #[trigger] positions_of(self.positions).contains_key(k) <==> self@.contains(k)
        &&& forall|i: int|
            0 <= i < self@.len() ==> positions_of(self.positions)[#[trigger] self@[i]] == i
    }

    /// An interner with no strings.
    pub fn new() -> (interner: Self)
        ensures
            interner.wf(),
            interner@ == Seq::<Seq<char>>::empty(),
    {
        let interner = Interner { positions: StringPositions::new(), strings: Vec::new() };
        assert(interner@ =~= Seq::<Seq<char>>::empty());
        interner
    }

    /// The interned strings, in order of first appearance.
    pub fn strings(&self) -> (strings: &[String])
        ensures
            strings@.map_values(|s: String| s@) == self@,
    {
        self.strings.as_slice()
    }

    /// Forgets every string.
    pub fn clear(&mut self)
        ensures
            final(self).wf(),
            final(self)@ == Seq::<Seq<char>>::empty(),
    {
        self.positions.clear();
        self.strings.clear();
        assert(self@ =~= Seq::<Seq<char>>::empty());
    }

    /// The position of `key`, interning it first if it is new.
    pub fn resolve(&mut self, key: &str) -> (position: u32)
        requires
            old(self).wf(),
            old(self)@.len() <= u32::MAX,
        ensures
            final(self).wf(),
            final(self)@ == intern(old(self)@, key@),
            position == interned_position(old(self)@, key@),
            final(self)@.no_duplicates(),
            final(self)@[position as int] == key@,
    {
        if let Some(position) = self.positions.get(key) {
            proof {
                let i = self@.index_of(key@);
                assert(self@[i] == key@);
                assert(self@.no_duplicates());
            }
            return position;
        }
        let position = self.strings.len() as u32;
        let source = key.to_owned();
        let copy = source.clone();
        self.strings.push(source);
        self.positions.insert(copy, position);
        proof {
            assert(self@ =~= old(self)@.push(key@));
            assert forall|k: Seq<char>| #[trigger] positions_of(self.positions).contains_key(k)
                <==> self@.contains(k) by {
                if k != key@ {
                    if old(self)@.contains(k) {
                        let i = old(self)@.index_of(k);
                        assert(self@[i] == k);
                    }
                    if self@.contains(k) {
                        let i = choose|i: int| 0 <= i < self@.len() && self@[i] == k;
                        assert(old(self)@[i] == k);
                    }
                } else {
                    assert(self@[old(self)@.len() as int] == k);
                }
            }
            assert forall|i: int| 0 <= i < self@.len() implies positions_of(self.positions)[
                #[trigger] self@[i]] == i by {
                if i < old(self)@.len() {
                    assert(old(self)@[i] != key@);
                }
            }
        }
        position
    }
}

} // verus!
