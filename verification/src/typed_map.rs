//! A fixed-arity heterogeneous map: one differently-typed optional slot per
//! atom, addressed at compile time by the atom's marker type.
//!
//! A caller supplies the value type of each slot through a [`Mapping`] from
//! marker types to value types. Slot selection happens entirely in the type
//! system: asking for a marker resolves, at compile time, to the one
//! implementation owning that marker's slot, so a marker outside the
//! declared set is rejected before the program runs, and no runtime tag is
//! ever checked.

use vstd::prelude::*;

verus! {

/// A caller-defined association from an atom's marker type to the value
/// type stored in that atom's slot.
pub trait Mapping<A> {
    type Value;
}

/// Access to the slot a marker addresses, in a map whose slots may each
/// hold a different type.
///
/// `slot` names the slot's content; `with_slot` names the whole map with
/// only that slot replaced, so every mutating contract also says that the
/// other slots stay untouched.
pub trait TypedAtomMap<A, M: Mapping<A>>: Sized {
    /// The content of the slot this marker addresses.
    spec fn slot(&self) -> Option<M::Value>;

    /// The same map with this marker's slot replaced and every other slot
    /// kept.
    spec fn with_slot(&self, v: Option<M::Value>) -> Self;

    /// Replacing the slot stores exactly the given content there.
    proof fn slot_of_with_slot(&self, v: Option<M::Value>)
        ensures
            self.with_slot(v).slot() == v,
    ;

    /// The slot addressed by this marker.
    fn entry(&self) -> (r: &Option<M::Value>)
        ensures
            *r == self.slot(),
    ;

    /// Mutable access to the slot addressed by this marker; no other slot
    /// is touched.
    fn entry_mut(&mut self) -> (r: &mut Option<M::Value>)
        ensures
            *r == old(self).slot(),
            *final(self) == old(self).with_slot(*final(r)),
    ;

    /// The value under this marker, if one is stored.
    fn get(&self) -> (r: Option<&M::Value>)
        ensures
            r matches Some(v) ==> self.slot() == Some(*v),
            r is None <==> self.slot() is None,
    {
        self.entry().as_ref()
    }

    /// Mutable access to the value under this marker, if one is stored;
    /// every other marker's slot keeps its content.
    fn get_mut(&mut self) -> (r: Option<&mut M::Value>)
        ensures
            r matches Some(v) ==> old(self).slot() == Some(*v) && *final(self) == old(
                self,
            ).with_slot(Some(*final(v))),
            r is None ==> old(self).slot() is None && *final(self) == old(self).with_slot(None),
    {
        self.entry_mut().as_mut()
    }

    /// Store `value` under this marker, handing back whatever the slot
    /// held; every other marker's slot keeps its content.
    fn insert(&mut self, value: M::Value) -> (prev: Option<M::Value>)
        ensures
            prev == old(self).slot(),
            *final(self) == old(self).with_slot(Some(value)),
    {
        let e = self.entry_mut();
        let prev = e.take();
        *e = Some(value);
        prev
    }

    /// Empty this marker's slot, handing back whatever it held; every
    /// other marker's slot keeps its content.
    fn remove(&mut self) -> (prev: Option<M::Value>)
        ensures
            prev == old(self).slot(),
            *final(self) == old(self).with_slot(None),
    {
        self.entry_mut().take()
    }

    /// The value under this marker, storing `value` there first if the
    /// slot was empty.
    fn get_or_insert(&mut self, value: M::Value) -> (r: &mut M::Value)
        ensures
            old(self).slot() matches Some(v) ==> *r == v,
            old(self).slot() is None ==> *r == value,
            *final(self) == old(self).with_slot(Some(*final(r))),
    {
        let e = self.entry_mut();
        if e.is_none() {
            *e = Some(value);
        }
        match e.as_mut() {
            Some(v) => v,
            None => vstd::pervasive::unreached(),
        }
    }

    /// The value under this marker, storing what `f` yields there first if
    /// the slot was empty; `f` is called only in that case.
    fn get_or_insert_with<F: FnOnce() -> M::Value>(&mut self, f: F) -> (r: &mut M::Value)
        requires
            old(self).slot() is None ==> f.requires(()),
        ensures
            old(self).slot() matches Some(v) ==> *r == v,
            old(self).slot() is None ==> f.ensures((), *r),
            *final(self) == old(self).with_slot(Some(*final(r))),
    {
        let e = self.entry_mut();
        if e.is_none() {
            *e = Some(f());
        }
        match e.as_mut() {
            Some(v) => v,
            None => vstd::pervasive::unreached(),
        }
    }
}

/// Marker of the first declared atom.
pub struct Marker0;

/// Marker of the second declared atom.
pub struct Marker1;

/// Marker of the third declared atom.
pub struct Marker2;

/// A typed map for a three-atom vocabulary: one slot per marker, each
/// slot's value type chosen by the caller's `Mapping`.
pub struct TypedMap3<M: Mapping<Marker0> + Mapping<Marker1> + Mapping<Marker2>> {
    s0: Option<<M as Mapping<Marker0>>::Value>,
    s1: Option<<M as Mapping<Marker1>>::Value>,
    s2: Option<<M as Mapping<Marker2>>::Value>,
}

impl<M: Mapping<Marker0> + Mapping<Marker1> + Mapping<Marker2>> TypedMap3<M> {
    /// The first marker's slot.
    pub closed spec fn slot0(&self) -> Option<<M as Mapping<Marker0>>::Value> {
        self.s0
    }

    /// The second marker's slot.
    pub closed spec fn slot1(&self) -> Option<<M as Mapping<Marker1>>::Value> {
        self.s1
    }

    /// The third marker's slot.
    pub closed spec fn slot2(&self) -> Option<<M as Mapping<Marker2>>::Value> {
        self.s2
    }

    /// A map with every slot empty.
    pub fn new() -> (r: Self)
        ensures
            r.slot0() is None,
            r.slot1() is None,
            r.slot2() is None,
    {
        TypedMap3 { s0: None, s1: None, s2: None }
    }
}

impl<M: Mapping<Marker0> + Mapping<Marker1> + Mapping<Marker2>> TypedAtomMap<Marker0, M> for TypedMap3<M> {
    open spec fn slot(&self) -> Option<<M as Mapping<Marker0>>::Value> {
        self.slot0()
    }

    closed spec fn with_slot(&self, v: Option<<M as Mapping<Marker0>>::Value>) -> Self {
        TypedMap3 { s0: v, s1: self.s1, s2: self.s2 }
    }

    proof fn slot_of_with_slot(&self, v: Option<<M as Mapping<Marker0>>::Value>) {
    }

    fn entry(&self) -> (r: &Option<<M as Mapping<Marker0>>::Value>) {
        &self.s0
    }

    fn entry_mut(&mut self) -> (r: &mut Option<<M as Mapping<Marker0>>::Value>) {
        &mut self.s0
    }
}

impl<M: Mapping<Marker0> + Mapping<Marker1> + Mapping<Marker2>> TypedAtomMap<Marker1, M> for TypedMap3<M> {
    open spec fn slot(&self) -> Option<<M as Mapping<Marker1>>::Value> {
        self.slot1()
    }

    closed spec fn with_slot(&self, v: Option<<M as Mapping<Marker1>>::Value>) -> Self {
        TypedMap3 { s0: self.s0, s1: v, s2: self.s2 }
    }

    proof fn slot_of_with_slot(&self, v: Option<<M as Mapping<Marker1>>::Value>) {
    }

    fn entry(&self) -> (r: &Option<<M as Mapping<Marker1>>::Value>) {
        &self.s1
    }

    fn entry_mut(&mut self) -> (r: &mut Option<<M as Mapping<Marker1>>::Value>) {
        &mut self.s1
    }
}

impl<M: Mapping<Marker0> + Mapping<Marker1> + Mapping<Marker2>> TypedAtomMap<Marker2, M> for TypedMap3<M> {
    open spec fn slot(&self) -> Option<<M as Mapping<Marker2>>::Value> {
        self.slot2()
    }

    closed spec fn with_slot(&self, v: Option<<M as Mapping<Marker2>>::Value>) -> Self {
        TypedMap3 { s0: self.s0, s1: self.s1, s2: v }
    }

    proof fn slot_of_with_slot(&self, v: Option<<M as Mapping<Marker2>>::Value>) {
    }

    fn entry(&self) -> (r: &Option<<M as Mapping<Marker2>>::Value>) {
        &self.s2
    }

    fn entry_mut(&mut self) -> (r: &mut Option<<M as Mapping<Marker2>>::Value>) {
        &mut self.s2
    }
}

/// Slot isolation: replacing the slot of one marker stores exactly that
/// content there and never changes what any other marker's slot holds, so
/// a value written under one atom can never be observed under another.
pub proof fn lemma_slot_isolation<M: Mapping<Marker0> + Mapping<Marker1> + Mapping<Marker2>>(
    m: TypedMap3<M>,
    v0: Option<<M as Mapping<Marker0>>::Value>,
    v1: Option<<M as Mapping<Marker1>>::Value>,
    v2: Option<<M as Mapping<Marker2>>::Value>,
)
    ensures
        TypedAtomMap::<Marker0, M>::with_slot(&m, v0).slot0() == v0,
        TypedAtomMap::<Marker0, M>::with_slot(&m, v0).slot1() == m.slot1(),
        TypedAtomMap::<Marker0, M>::with_slot(&m, v0).slot2() == m.slot2(),
        TypedAtomMap::<Marker1, M>::with_slot(&m, v1).slot1() == v1,
        TypedAtomMap::<Marker1, M>::with_slot(&m, v1).slot0() == m.slot0(),
        TypedAtomMap::<Marker1, M>::with_slot(&m, v1).slot2() == m.slot2(),
        TypedAtomMap::<Marker2, M>::with_slot(&m, v2).slot2() == v2,
        TypedAtomMap::<Marker2, M>::with_slot(&m, v2).slot0() == m.slot0(),
        TypedAtomMap::<Marker2, M>::with_slot(&m, v2).slot1() == m.slot1(),
{
}

} // verus!
