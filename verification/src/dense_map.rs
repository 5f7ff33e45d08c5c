//! A fixed-size, ordinal-indexed map from atoms to values of one type.
//!
//! Storage is a plain array of optional slots, one per atom, addressed
//! directly by the atom's dense ordinal: no hashing, no allocation per
//! operation, and every keyed operation touches its one slot alone.

use vstd::prelude::*;

use crate::identity::Atom;
use crate::iterators::{Iter, IterMut, Keys, Values};

verus! {

/// A map with one optional slot per atom of an `N`-atom vocabulary,
/// indexed by ordinal. Its view is the slot sequence.
pub struct DenseAtomMap<V> {
    slots: Vec<Option<V>>,
}

impl<V> View for DenseAtomMap<V> {
    type V = Seq<Option<V>>;

    closed spec fn view(&self) -> Seq<Option<V>> {
        self.slots@
    }
}

impl<V> DenseAtomMap<V> {
    /// An empty map for a vocabulary of `n` atoms.
    pub fn new(n: usize) -> (r: Self)
        ensures
            r@.len() == n,
            forall|i: int| 0 <= i < n ==> r@[i] is None,
    {
        let mut slots: Vec<Option<V>> = Vec::new();
        let mut i: usize = 0;
        while i < n
            invariant
                0 <= i <= n,
                slots@.len() == i,
                forall|k: int| 0 <= k < i ==> slots@[k] is None,
            decreases n - i,
        {
            slots.push(None);
            i = i + 1;
        }
        DenseAtomMap { slots }
    }

    /// The number of slots: the vocabulary size this map was made for.
    pub fn len(&self) -> (n: usize)
        ensures
            n == self@.len(),
    {
        self.slots.len()
    }

    /// The slot addressed by `key`.
    pub fn entry(&self, key: Atom) -> (r: &Option<V>)
        requires
            0 <= key@ < self@.len(),
        ensures
            *r == self@[key@],
    {
        &self.slots[key.ordinal()]
    }

    /// Mutable access to the slot addressed by `key`; no other slot is
    /// touched.
    pub fn entry_mut(&mut self, key: Atom) -> (r: &mut Option<V>)
        requires
            0 <= key@ < old(self)@.len(),
        ensures
            *r == old(self)@[key@],
            final(self)@ == old(self)@.update(key@, *final(r)),
    {
        &mut self.slots[key.ordinal()]
    }

    /// The value under `key`, if one is stored.
    pub fn get(&self, key: Atom) -> (r: Option<&V>)
        requires
            0 <= key@ < self@.len(),
        ensures
            r matches Some(v) ==> self@[key@] == Some(*v),
            r is None <==> self@[key@] is None,
    {
        self.entry(key).as_ref()
    }

    /// Mutable access to the value under `key`, if one is stored.
    pub fn get_mut(&mut self, key: Atom) -> (r: Option<&mut V>)
        requires
            0 <= key@ < old(self)@.len(),
        ensures
            r matches Some(v) ==> old(self)@[key@] == Some(*v) && final(self)@ == old(
                self,
            )@.update(key@, Some(*final(v))),
            r is None ==> old(self)@[key@] is None && final(self)@ == old(self)@,
    {
        let e = self.entry_mut(key);
        e.as_mut()
    }

    /// Store `value` under `key`, handing back whatever the slot held.
    pub fn insert(&mut self, key: Atom, value: V) -> (prev: Option<V>)
        requires
            0 <= key@ < old(self)@.len(),
        ensures
            prev == old(self)@[key@],
            final(self)@ == old(self)@.update(key@, Some(value)),
    {
        let e = self.entry_mut(key);
        let prev = e.take();
        *e = Some(value);
        prev
    }

    /// Empty the slot under `key`, handing back whatever it held.
    pub fn remove(&mut self, key: Atom) -> (prev: Option<V>)
        requires
            0 <= key@ < old(self)@.len(),
        ensures
            prev == old(self)@[key@],
            final(self)@ == old(self)@.update(key@, None),
    {
        self.entry_mut(key).take()
    }

    /// The value under `key`, storing `value` there first if the slot was
    /// empty.
    pub fn get_or_insert(&mut self, key: Atom, value: V) -> (r: &mut V)
        requires
            0 <= key@ < old(self)@.len(),
        ensures
            old(self)@[key@] matches Some(v) ==> *r == v,
            old(self)@[key@] is None ==> *r == value,
            final(self)@ == old(self)@.update(key@, Some(*final(r))),
    {
        let e = self.entry_mut(key);
        if e.is_none() {
            *e = Some(value);
        }
        match e.as_mut() {
            Some(v) => v,
            None => vstd::pervasive::unreached(),
        }
    }

    /// The value under `key`, storing what `f` yields there first if the
    /// slot was empty; `f` is called only in that case.
    pub fn get_or_insert_with<F: FnOnce() -> V>(&mut self, key: Atom, f: F) -> (r: &mut V)
        requires
            0 <= key@ < old(self)@.len(),
            old(self)@[key@] is None ==> f.requires(()),
        ensures
            old(self)@[key@] matches Some(v) ==> *r == v,
            old(self)@[key@] is None ==> f.ensures((), *r),
            final(self)@ == old(self)@.update(key@, Some(*final(r))),
    {
        let e = self.entry_mut(key);
        if e.is_none() {
            *e = Some(f());
        }
        match e.as_mut() {
            Some(v) => v,
            None => vstd::pervasive::unreached(),
        }
    }

    /// Walk the populated entries in ascending ordinal order.
    pub fn iter(&self) -> (r: Iter<'_, V>)
        ensures
            r.entries_view() == self@,
            r.pos() == 0,
    {
        Iter::new(self.slots.as_slice())
    }

    /// Walk the populated entries in ascending ordinal order, with mutable
    /// access to each value.
    pub fn iter_mut(&mut self) -> (r: IterMut<'_, V>)
        ensures
            r.entries_view() == old(self)@,
            r.pos() == 0,
    {
        IterMut::new(self.slots.as_mut_slice())
    }

    /// Walk the atoms of the populated entries in ascending ordinal order.
    pub fn keys(&self) -> (r: Keys<'_, V>)
        ensures
            r.entries_view() == self@,
            r.pos() == 0,
    {
        Keys::new(self.slots.as_slice())
    }

    /// Walk the values of the populated entries in ascending ordinal
    /// order.
    pub fn values(&self) -> (r: Values<'_, V>)
        ensures
            r.entries_view() == self@,
            r.pos() == 0,
    {
        Values::new(self.slots.as_slice())
    }
}

/// The keyed operations compose as a map should, stated over the slot view
/// their contracts share: a store is read back exactly, a removal reads
/// back as nothing, and either way every other ordinal's slot is left as
/// it was.
pub proof fn lemma_store_then_read<V>(slots: Seq<Option<V>>, key: int, value: V)
    requires
        0 <= key < slots.len(),
    ensures
        slots.update(key, Some(value))[key] == Some(value),
        slots.update(key, None::<V>)[key] is None,
        forall|j: int|
            0 <= j < slots.len() && j != key ==> slots.update(key, Some(value))[j] == slots[j]
                && slots.update(key, None::<V>)[j] == slots[j],
{
}

} // verus!
