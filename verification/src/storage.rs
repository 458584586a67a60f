//! Generic component storage: one slot per entity ever created.
//!
//! A `Storage<T>` keeps the components of one kind, keyed by entity
//! identifier. Slots are added only by the `World` when an entity is
//! created, so every storage of a well-formed world has the same length.

use vstd::prelude::*;

use crate::components::Entity;

verus! {

/// The components of one kind, one optional slot per entity.
pub struct Storage<T> {
    slots: Vec<Option<T>>,
}

impl<T> View for Storage<T> {
    type V = Seq<Option<T>>;

    closed spec fn view(&self) -> Seq<Option<T>> {
        self.slots@
    }
}

impl<T> Storage<T> {
    /// Whether entity `e` currently holds a component of this kind.
    pub open spec fn spec_has(&self, e: Entity) -> bool {
        e.0 < self@.len() && self@[e.0 as int] is Some
    }

    pub(crate) fn new() -> (s: Self)
        ensures
            s@ == Seq::<Option<T>>::empty(),
    {
        Storage { slots: Vec::new() }
    }

    pub fn len(&self) -> (n: usize)
        ensures
            n == self@.len(),
    {
        self.slots.len()
    }

    /// Adds a slot for a newly created entity; it starts empty.
    pub(crate) fn grow(&mut self)
        ensures
            final(self)@ == old(self)@.push(None),
    {
        self.slots.push(None);
    }

    pub fn contains(&self, e: Entity) -> (r: bool)
        ensures
            r == self.spec_has(e),
    {
        e.0 < self.slots.len() && self.slots[e.0].is_some()
    }

    pub fn get(&self, e: Entity) -> (r: Option<&T>)
        ensures
            match r {
                Some(v) => self.spec_has(e) && self@[e.0 as int] == Some(*v),
                None => !self.spec_has(e),
            },
    {
        if e.0 < self.slots.len() {
            match &self.slots[e.0] {
                Some(v) => Some(v),
                None => None,
            }
        } else {
            None
        }
    }

    /// Attaches (or overwrites) the component of entity `e`.
    pub fn insert(&mut self, e: Entity, value: T)
        requires
            e.0 < old(self)@.len(),
        ensures
            final(self)@ == old(self)@.update(e.0 as int, Some(value)),
    {
        self.slots[e.0] = Some(value);
    }

    /// Detaches the component of entity `e`, if any; out-of-range
    /// entities are left as they are.
    pub fn remove(&mut self, e: Entity)
        ensures
            final(self)@ == if e.0 < old(self)@.len() {
                old(self)@.update(e.0 as int, None)
            } else {
                old(self)@
            },
    {
        if e.0 < self.slots.len() {
            self.slots[e.0] = None;
        }
    }

    /// Detaches and returns the component of entity `e`.
    pub fn take(&mut self, e: Entity) -> (r: Option<T>)
        ensures
            r == if e.0 < old(self)@.len() {
                old(self)@[e.0 as int]
            } else {
                None::<T>
            },
            final(self)@ == if e.0 < old(self)@.len() {
                old(self)@.update(e.0 as int, None)
            } else {
                old(self)@
            },
    {
        if e.0 < self.slots.len() {
            let slot: &mut Option<T> = &mut self.slots[e.0];
            slot.take()
        } else {
            None
        }
    }

    /// Detaches every component of this kind, keeping the slot count.
    pub fn clear(&mut self)
        ensures
            final(self)@.len() == old(self)@.len(),
            forall|i: int| 0 <= i < final(self)@.len() ==> final(self)@[i] is None,
    {
        let n = self.slots.len();
        let mut i: usize = 0;
        while i < n
            invariant
                n == self@.len(),
                i <= n,
                forall|j: int| 0 <= j < i ==> self@[j] is None,
            decreases n - i,
        {
            self.slots[i] = None;
            i = i + 1;
        }
    }
}

} // verus!
