//! Lazy, restartable walks over the populated slots of a dense map.
//!
//! Each cursor scans the slot array once, in ascending ordinal order,
//! yielding only populated entries: keys and values, keys alone, or values
//! alone.

use vstd::prelude::*;

use crate::identity::Atom;

verus! {

/// The first populated slot at or after `from`, if any.
pub open spec fn next_populated<V>(s: Seq<Option<V>>, from: int) -> Option<int>
    decreases s.len() - from,
{
    if from < 0 || from >= s.len() {
        None
    } else if s[from] is Some {
        Some(from)
    } else {
        next_populated(s, from + 1)
    }
}

/// The walks visit exactly the populated slots, in ascending ordinal
/// order: each step lands on a populated slot, skips only empty ones, and
/// once no step is possible every slot from the cursor on is empty.
pub proof fn lemma_iteration_order<V>(s: Seq<Option<V>>, from: int)
    requires
        0 <= from,
    ensures
        next_populated(s, from) matches Some(j) ==> from <= j < s.len() && s[j] is Some && (
        forall|k: int| from <= k < j ==> s[k] is None),
        next_populated(s, from) is None ==> forall|k: int| from <= k < s.len() ==> s[k] is None,
    decreases s.len() - from,
{
    if from < s.len() && s[from] is None {
        lemma_iteration_order(s, from + 1);
    }
}

/// Cursor over the populated slots, yielding each ordinal's atom and a
/// reference to its value.
pub struct Iter<'a, V> {
    entries: &'a [Option<V>],
    index: usize,
}

impl<'a, V> Iter<'a, V> {
    /// The slots being walked.
    pub closed spec fn entries_view(&self) -> Seq<Option<V>> {
        self.entries@
    }

    /// How far the walk has come.
    pub closed spec fn pos(&self) -> int {
        self.index as int
    }

    /// Start a walk over `slice` at the first ordinal.
    pub fn new(slice: &'a [Option<V>]) -> (r: Self)
        ensures
            r.entries_view() == slice@,
            r.pos() == 0,
    {
        Iter { entries: slice, index: 0 }
    }

    /// The next populated entry in ordinal order, or nothing once all
    /// populated slots have been visited.
    pub fn next(&mut self) -> (r: Option<(Atom, &'a V)>)
        requires
            old(self).pos() <= old(self).entries_view().len(),
        ensures
            final(self).entries_view() == old(self).entries_view(),
            match next_populated(old(self).entries_view(), old(self).pos()) {
                Some(j) => {
                    &&& r matches Some((a, v)) && a@ == j && old(self).entries_view()[j] == Some(
                        *v,
                    )
                    &&& final(self).pos() == j + 1
                },
                None => r is None && final(self).pos() == old(self).entries_view().len(),
            },
    {
        while self.index < self.entries.len()
            invariant
                0 <= self.index <= self.entries@.len(),
                self.entries@ == old(self).entries_view(),
                next_populated(self.entries@, old(self).pos()) == next_populated(
                    self.entries@,
                    self.index as int,
                ),
            decreases self.entries@.len() - self.index,
        {
            let i = self.index;
            match &self.entries[i] {
                Some(v) => {
                    self.index = i + 1;
                    return Some((Atom::from_index(i), v));
                },
                None => {
                    self.index = i + 1;
                },
            }
        }
        None
    }
}

/// Cursor over the populated slots, yielding each ordinal's atom.
pub struct Keys<'a, V> {
    entries: &'a [Option<V>],
    index: usize,
}

impl<'a, V> Keys<'a, V> {
    /// The slots being walked.
    pub closed spec fn entries_view(&self) -> Seq<Option<V>> {
        self.entries@
    }

    /// How far the walk has come.
    pub closed spec fn pos(&self) -> int {
        self.index as int
    }

    /// Start a walk over `slice` at the first ordinal.
    pub fn new(slice: &'a [Option<V>]) -> (r: Self)
        ensures
            r.entries_view() == slice@,
            r.pos() == 0,
    {
        Keys { entries: slice, index: 0 }
    }

    /// The atom of the next populated slot in ordinal order.
    pub fn next(&mut self) -> (r: Option<Atom>)
        requires
            old(self).pos() <= old(self).entries_view().len(),
        ensures
            final(self).entries_view() == old(self).entries_view(),
            match next_populated(old(self).entries_view(), old(self).pos()) {
                Some(j) => {
                    &&& r matches Some(a) && a@ == j
                    &&& final(self).pos() == j + 1
                },
                None => r is None && final(self).pos() == old(self).entries_view().len(),
            },
    {
        while self.index < self.entries.len()
            invariant
                0 <= self.index <= self.entries@.len(),
                self.entries@ == old(self).entries_view(),
                next_populated(self.entries@, old(self).pos()) == next_populated(
                    self.entries@,
                    self.index as int,
                ),
            decreases self.entries@.len() - self.index,
        {
            let i = self.index;
            self.index = i + 1;
            if self.entries[i].is_some() {
                return Some(Atom::from_index(i));
            }
        }
        None
    }
}

/// Cursor over the populated slots, yielding each value.
pub struct Values<'a, V> {
    entries: &'a [Option<V>],
    index: usize,
}

impl<'a, V> Values<'a, V> {
    /// The slots being walked.
    pub closed spec fn entries_view(&self) -> Seq<Option<V>> {
        self.entries@
    }

    /// How far the walk has come.
    pub closed spec fn pos(&self) -> int {
        self.index as int
    }

    /// Start a walk over `slice` at the first ordinal.
    pub fn new(slice: &'a [Option<V>]) -> (r: Self)
        ensures
            r.entries_view() == slice@,
            r.pos() == 0,
    {
        Values { entries: slice, index: 0 }
    }

    /// The value of the next populated slot in ordinal order.
    pub fn next(&mut self) -> (r: Option<&'a V>)
        requires
            old(self).pos() <= old(self).entries_view().len(),
        ensures
            final(self).entries_view() == old(self).entries_view(),
            match next_populated(old(self).entries_view(), old(self).pos()) {
                Some(j) => {
                    &&& r matches Some(v) && old(self).entries_view()[j] == Some(*v)
                    &&& final(self).pos() == j + 1
                },
                None => r is None && final(self).pos() == old(self).entries_view().len(),
            },
    {
        while self.index < self.entries.len()
            invariant
                0 <= self.index <= self.entries@.len(),
                self.entries@ == old(self).entries_view(),
                next_populated(self.entries@, old(self).pos()) == next_populated(
                    self.entries@,
                    self.index as int,
                ),
            decreases self.entries@.len() - self.index,
        {
            let i = self.index;
            match &self.entries[i] {
                Some(v) => {
                    self.index = i + 1;
                    return Some(v);
                },
                None => {
                    self.index = i + 1;
                },
            }
        }
        None
    }
}

/// Cursor over the populated slots, yielding each ordinal's atom and
/// mutable access to its value.
///
/// Each yielded borrow lives until the next call; the walk itself holds
/// the slots exclusively for its whole lifetime.
pub struct IterMut<'a, V> {
    entries: &'a mut [Option<V>],
    index: usize,
}

impl<'a, V> IterMut<'a, V> {
    /// The slots being walked, as they stand now.
    pub closed spec fn entries_view(&self) -> Seq<Option<V>> {
        self.entries@
    }

    /// How far the walk has come.
    pub closed spec fn pos(&self) -> int {
        self.index as int
    }

    /// Start a walk over `slice` at the first ordinal.
    pub fn new(slice: &'a mut [Option<V>]) -> (r: Self)
        ensures
            r.entries_view() == old(slice)@,
            r.pos() == 0,
    {
        IterMut { entries: slice, index: 0 }
    }

    /// The next populated entry in ordinal order, with mutable access to
    /// its value; the walk's own view shows any change the caller makes
    /// through it.
    pub fn next(&mut self) -> (r: Option<(Atom, &mut V)>)
        requires
            old(self).pos() <= old(self).entries_view().len(),
        ensures
            final(self).entries_view().len() == old(self).entries_view().len(),
            match next_populated(old(self).entries_view(), old(self).pos()) {
                Some(j) => {
                    &&& r matches Some((a, v)) && a@ == j && old(self).entries_view()[j] == Some(
                        *v,
                    ) && final(self).entries_view() == old(self).entries_view().update(
                        j,
                        Some(*final(v)),
                    )
                    &&& final(self).pos() == j + 1
                },
                None => r is None && final(self).pos() == old(self).entries_view().len()
                    && final(self).entries_view() == old(self).entries_view(),
            },
    {
        let n = self.entries.len();
        let mut i = self.index;
        while i < n && self.entries[i].is_none()
            invariant
                old(self).pos() <= i <= n == self.entries@.len(),
                self == old(self),
                next_populated(self.entries@, old(self).pos()) == next_populated(
                    self.entries@,
                    i as int,
                ),
            decreases n - i,
        {
            i = i + 1;
        }
        if i < n {
            self.index = i + 1;
            match &mut self.entries[i] {
                Some(v) => Some((Atom::from_index(i), v)),
                None => vstd::pervasive::unreached(),
            }
        } else {
            self.index = n;
            None
        }
    }
}

} // verus!
