//! Names numbered in the order in which they first appear.

use vstd::hash_map::StringHashMap;
use vstd::prelude::*;
use vstd::string::*;

verus! {

/// A list of distinct names that finds the place of a name without searching.
pub struct NameIndex {
    names: Vec<String>,
    places: StringHashMap<usize>,
}

/// The texts of names.
pub open spec fn texts(names: Seq<String>) -> Seq<Seq<char>> {
    Seq::new(names.len(), |i: int| names[i]@)
}

impl View for NameIndex {
    type V = Seq<Seq<char>>;

    closed spec fn view(&self) -> Seq<Seq<char>> {
        texts(self.names@)
    }
}

impl NameIndex {
    /// Every name is found at its place, and every place found holds its name.
    pub closed spec fn well_formed(&self) -> bool {
        &&& forall|i: int|
            0 <= i < self@.len() ==> #[trigger] self.places@.contains_key(self@[i])
                && self.places@[self@[i]] == i
        &&& forall|name: Seq<char>| #[trigger]
            self.places@.contains_key(name) ==> self.places@[name] < self@.len()
                && self@[self.places@[name] as int] == name
    }

    /// An index without names.
    pub fn new() -> (r: NameIndex)
        ensures
            r.well_formed(),
            r@ == Seq::<Seq<char>>::empty(),
    {
        let r = NameIndex { names: Vec::new(), places: StringHashMap::new() };
        assert(r@ =~= Seq::<Seq<char>>::empty());
        r
    }

    /// How many names there are.
    pub fn len(&self) -> (r: usize)
        ensures
            r == self@.len(),
    {
        self.names.len()
    }

    /// The place of a name, which is added at the end where it is new.
    pub fn place_of(&mut self, name: &str) -> (r: usize)
        requires
            old(self).well_formed(),
        ensures
            final(self).well_formed(),
            r < final(self)@.len(),
            final(self)@[r as int] == name@,
            final(self)@ == (if old(self)@.contains(name@) {
                old(self)@
            } else {
                old(self)@.push(name@)
            }),
    {
        if let Some(place) = self.places.get(name) {
            let place: usize = *place;
            assert(self@[place as int] == name@);
            return place;
        }
        let place: usize = self.names.len();
        let ghost before = *self;
        assert(!self@.contains(name@));
        self.names.push(name.to_string());
        self.places.insert(name.to_string(), place);
        proof {
            assert(self@ =~= before@.push(name@));
            assert forall|i: int| 0 <= i < self@.len() implies #[trigger] self.places@.contains_key(
                self@[i],
            ) && self.places@[self@[i]] == i by {
                if i < place {
                    assert(self@[i] == before@[i]);
                    assert(before.places@.contains_key(before@[i]));
                    assert(before@[i] != name@);
                }
            }
            assert forall|n: Seq<char>| #[trigger] self.places@.contains_key(n) implies self.places@[n]
                < self@.len() && self@[self.places@[n] as int] == n by {
                if n != name@ {
                    assert(before.places@.contains_key(n));
                    assert(self@[self.places@[n] as int] == before@[self.places@[n] as int]);
                }
            }
        }
        place
    }

    /// The name at a place.
    pub fn name_at(&self, place: usize) -> (r: String)
        requires
            place < self@.len(),
        ensures
            r@ == self@[place as int],
    {
        self.names[place].clone()
    }

    /// No name stands in two places.
    pub proof fn names_are_distinct(&self)
        requires
            self.well_formed(),
        ensures
            self@.no_duplicates(),
    {
        assert forall|i: int, j: int|
            0 <= i < self@.len() && 0 <= j < self@.len() && i != j implies self@[i] != self@[j] by {
            assert(self.places@.contains_key(self@[i]));
            assert(self.places@.contains_key(self@[j]));
        }
    }
}

} // verus!
