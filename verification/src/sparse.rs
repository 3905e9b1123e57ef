//! A sparse vector: a growable array addressed by arbitrary indexes, where
//! most slots are empty.  The change tracker uses one per version kind,
//! indexed by archetype id.

use vstd::prelude::*;

verus! {

/// A map from small integer indexes to values, backed by a dense vector of
/// options.  Its view is the partial map of occupied slots.
pub struct SparseVec<T> {
    slots: Vec<Option<T>>,
}

impl<T> SparseVec<T> {
    /// The partial map this sparse vector represents.
    pub closed spec fn view(&self) -> Map<int, T> {
        Map::new(
            |i: int| 0 <= i < self.slots@.len() && self.slots@[i] is Some,
            |i: int| self.slots@[i]->0,
        )
    }

    pub fn new() -> (r: Self)
        ensures
            r@ == Map::<int, T>::empty(),
    {
        let r = SparseVec { slots: Vec::new() };
        proof {
            assert(r@ =~= Map::<int, T>::empty());
        }
        r
    }

    pub fn get(&self, index: usize) -> (r: Option<&T>)
        ensures
            match r {
                Some(v) => self@.contains_key(index as int) && *v == self@[index as int],
                None => !self@.contains_key(index as int),
            },
    {
        if index < self.slots.len() {
            self.slots[index].as_ref()
        } else {
            None
        }
    }

    pub fn set(&mut self, index: usize, value: T)
        ensures
            final(self)@ == old(self)@.insert(index as int, value),
    {
        let ghost orig = self.slots@;
        while self.slots.len() <= index
            invariant
                orig.len() <= self.slots@.len(),
                self.slots@.subrange(0, orig.len() as int) == orig,
                forall|i: int| orig.len() <= i < self.slots@.len() ==> self.slots@[i] is None,
            decreases index + 1 - self.slots@.len(),
        {
            self.slots.push(None);
        }
        self.slots[index] = Some(value);
        proof {
            assert(forall|i: int|
                0 <= i < orig.len() && i != index ==> self.slots@[i] == orig[i]);
            assert(self@ =~= old(self)@.insert(index as int, value));
        }
    }
}

} // verus!
