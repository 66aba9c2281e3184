//! Values under names.

use vstd::prelude::*;

use crate::collections::{
    text_position_map_get, text_position_map_insert, text_position_map_new, TextPositionMap,
};

verus! {

/// Values under names, in the order in which the names first came.
pub struct NamedValues<T> {
    positions: TextPositionMap,
    entries: Vec<(String, T)>,
}

impl<T> NamedValues<T> {
    #[verifier::type_invariant]
    spec fn inv(self) -> bool {
        let positions = crate::collections::text_position_entries(self.positions);
        &&& forall|name: Seq<char>|
            #[trigger] positions.contains_key(name) ==> positions[name] < self.entries@.len()
                && self.entries@[positions[name] as int].0@ == name
        &&& forall|i: int|
            0 <= i < self.entries@.len() ==> positions.contains_key((#[trigger] self.entries@[i]).0@)
                && positions[self.entries@[i].0@] == i
    }

    /// The values by name.
    pub closed spec fn view(&self) -> Map<Seq<char>, T> {
        let positions = crate::collections::text_position_entries(self.positions);
        Map::new(
            |name: Seq<char>| positions.contains_key(name),
            |name: Seq<char>| self.entries@[positions[name] as int].1,
        )
    }

    /// The names, in the order in which they first came.
    pub closed spec fn names(&self) -> Seq<Seq<char>> {
        Seq::new(self.entries@.len(), |i: int| self.entries@[i].0@)
    }

    /// No value.
    pub fn new() -> (r: Self)
        ensures
            r@ == (Map::<Seq<char>, T>::empty()),
            r.names() == Seq::<Seq<char>>::empty(),
    {
        let r = NamedValues { positions: text_position_map_new(), entries: Vec::new() };
        assert(r@ =~= Map::<Seq<char>, T>::empty());
        assert(r.names() =~= Seq::<Seq<char>>::empty());
        r
    }

    /// The number of names. Each name that has a value is among them, and none is there twice.
    pub fn len(&self) -> (r: usize)
        ensures
            r == self.names().len(),
            forall|name: Seq<char>|
                #[trigger] self@.contains_key(name) == self.names().contains(name),
            self.names().no_duplicates(),
    {
        proof {
            use_type_invariant(self);
            let positions = crate::collections::text_position_entries(self.positions);
            assert forall|name: Seq<char>| #[trigger] self@.contains_key(name) == self.names().contains(
                name,
            ) by {
                if self@.contains_key(name) {
                    assert(self.names()[positions[name] as int] == name);
                }
                if self.names().contains(name) {
                    let i = choose|i: int| 0 <= i < self.names().len() && self.names()[i] == name;
                    assert(self.entries@[i].0@ == name);
                }
            }
            assert forall|i: int, j: int|
                0 <= i < self.names().len() && 0 <= j < self.names().len() && i
                    != j implies self.names()[i] != self.names()[j] by {
                assert(positions[self.entries@[i].0@] == i);
                assert(positions[self.entries@[j].0@] == j);
            }
        }
        self.entries.len()
    }

    /// The name and the value at a position.
    pub fn entry(&self, i: usize) -> (r: (&str, &T))
        requires
            i < self.names().len(),
        ensures
            r.0@ == self.names()[i as int],
            self@.contains_key(self.names()[i as int]),
            *r.1 == self@[self.names()[i as int]],
    {
        proof {
            use_type_invariant(self);
        }
        let entry = &self.entries[i];
        (entry.0.as_str(), &entry.1)
    }

    /// The value under a name.
    pub fn get(&self, name: &str) -> (r: Option<&T>)
        ensures
            r is Some == self@.contains_key(name@),
            r matches Some(value) ==> *value == self@[name@],
    {
        proof {
            use_type_invariant(self);
        }
        match text_position_map_get(&self.positions, name) {
            Some(position) => Some(&self.entries[position].1),
            None => None,
        }
    }

    /// Puts a value under a name, in place of one that is there.
    pub fn insert(&mut self, name: String, value: T)
        ensures
            final(self)@ == old(self)@.insert(name@, value),
            final(self).names() == (if old(self)@.contains_key(name@) {
                old(self).names()
            } else {
                old(self).names().push(name@)
            }),
    {
        proof {
            use_type_invariant(&*self);
        }
        let mut empty = NamedValues { positions: text_position_map_new(), entries: Vec::new() };
        core::mem::swap(self, &mut empty);
        let NamedValues { positions, entries } = empty;
        let mut positions = positions;
        let mut entries = entries;
        let ghost text = name@;
        let ghost given = value;
        match text_position_map_get(&positions, name.as_str()) {
            Some(position) => {
                entries.set(position, (name, value));
            },
            None => {
                let position: usize = entries.len();
                text_position_map_insert(&mut positions, name.clone(), position);
                entries.push((name, value));
            },
        }
        *self = NamedValues { positions, entries };
        assert(self@ =~= old(self)@.insert(text, given));
        assert(self.names() =~= (if old(self)@.contains_key(text) {
            old(self).names()
        } else {
            old(self).names().push(text)
        }));
    }
}

}
