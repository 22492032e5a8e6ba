//! An arena that owns values of one type and hands out small opaque handles.
//!
//! Handles are issued monotonically and are never reused or overwritten; a
//! lookup with a handle the catalog never issued returns `None` rather than
//! panicking.

use vstd::prelude::*;

verus! {

/// An opaque, copyable, equality-comparable token referencing a value stored
/// in a [`Catalog`] of the same element type. The type parameter tags the
/// handle so that handles of different catalogs cannot be confused even when
/// numerically equal.
#[derive(Debug)]
pub struct Id<T> {
    raw: u64,
    marker: core::marker::PhantomData<T>,
}

impl<T> Id<T> {
    /// The position this handle refers to inside its catalog.
    pub closed spec fn spec_index(self) -> int {
        self.raw as int
    }

    pub fn index(self) -> (r: u64)
        ensures
            r as int == self.spec_index(),
    {
        self.raw
    }
}

impl<T> Clone for Id<T> {
    fn clone(&self) -> (r: Self)
        ensures
            r == *self,
    {
        Id { raw: self.raw, marker: core::marker::PhantomData }
    }
}

impl<T> Copy for Id<T> {

}

impl<T> PartialEq for Id<T> {
    fn eq(&self, other: &Self) -> (r: bool)
        ensures
            r == (self.spec_index() == other.spec_index()),
    {
        self.raw == other.raw
    }
}

impl<T> Eq for Id<T> {

}

impl<T> vstd::std_specs::cmp::PartialEqSpecImpl for Id<T> {
    open spec fn obeys_eq_spec() -> bool {
        true
    }

    open spec fn eq_spec(&self, other: &Self) -> bool {
        self.spec_index() == other.spec_index()
    }
}

/// Owns a mapping from handles to values. Values live as long as the catalog
/// itself; there is no removal operation in this subsystem.
pub struct Catalog<T> {
    items: Vec<T>,
}

impl<T> Catalog<T> {
    /// The sequence of stored values; the handle issued by the `k`-th `add`
    /// refers to position `k`.
    pub closed spec fn view(&self) -> Seq<T> {
        self.items@
    }

    /// Whether `id` was issued by this catalog (and therefore resolves).
    pub open spec fn contains_id(&self, id: Id<T>) -> bool {
        0 <= id.spec_index() < self@.len()
    }

    /// The value a lookup returns: `None` exactly for foreign handles.
    pub open spec fn spec_get(&self, id: Id<T>) -> Option<T> {
        if self.contains_id(id) {
            Some(self@[id.spec_index()])
        } else {
            None
        }
    }

    pub fn new() -> (r: Self)
        ensures
            r@ == Seq::<T>::empty(),
    {
        Catalog { items: Vec::new() }
    }

    pub fn get(&self, id: Id<T>) -> (r: Option<&T>)
        ensures
            match r {
                Some(v) => self.spec_get(id) == Some(*v),
                None => self.spec_get(id) is None,
            },
    {
        if id.raw < self.items.len() as u64 {
            Some(&self.items[id.raw as usize])
        } else {
            None
        }
    }

    pub fn get_opt(&self, id: Option<Id<T>>) -> (r: Option<&T>)
        ensures
            match id {
                Some(i) => match r {
                    Some(v) => self.spec_get(i) == Some(*v),
                    None => self.spec_get(i) is None,
                },
                None => r is None,
            },
    {
        match id {
            Some(i) => self.get(i),
            None => None,
        }
    }

    pub fn get_mut(&mut self, id: Id<T>) -> (r: Option<&mut T>)
        ensures
            match r {
                Some(v) => {
                    &&& old(self).contains_id(id)
                    &&& *v == old(self)@[id.spec_index()]
                    &&& final(self)@ == old(self)@.update(id.spec_index(), *final(v))
                },
                None => {
                    &&& !old(self).contains_id(id)
                    &&& final(self)@ == old(self)@
                },
            },
    {
        if id.raw < self.items.len() as u64 {
            Some(&mut self.items[id.raw as usize])
        } else {
            None
        }
    }

    /// Stores `value` and returns a fresh handle for it. Existing handles keep
    /// referring to their old values: nothing is overwritten.
    pub fn add(&mut self, value: T) -> (r: Id<T>)
        ensures
            final(self)@ == old(self)@.push(value),
            r.spec_index() == old(self)@.len(),
            final(self).spec_get(r) == Some(value),
            forall|id: Id<T>| old(self).contains_id(id) ==> final(self).spec_get(id)
                == old(self).spec_get(id),
    {
        let id = Id { raw: self.items.len() as u64, marker: core::marker::PhantomData };
        self.items.push(value);
        id
    }

    /// The number of stored values.
    pub fn len(&self) -> (r: usize)
        ensures
            r == self@.len(),
    {
        self.items.len()
    }

    /// All stored values, in handle order.
    pub fn iter(&self) -> (r: &Vec<T>)
        ensures
            r@ == self@,
    {
        &self.items
    }

    /// Every entry paired with its handle, in issue order.
    pub fn iter_with_id<'a>(&'a self) -> (r: Vec<(Id<T>, &'a T)>)
        ensures
            r@.len() == self@.len(),
            forall|k: int|
                0 <= k < r@.len() ==> (#[trigger] r@[k]).0.spec_index() == k && *r@[k].1
                    == self@[k],
    {
        let mut out: Vec<(Id<T>, &T)> = Vec::new();
        let n = self.items.len();
        for k in 0..n
            invariant
                n == self@.len(),
                out@.len() == k,
                forall|j: int|
                    0 <= j < k ==> (#[trigger] out@[j]).0.spec_index() == j && *out@[j].1
                        == self@[j],
        {
            out.push((Id { raw: k as u64, marker: core::marker::PhantomData }, &self.items[k]));
        }
        out
    }

    /// The handles this catalog has issued, in issue order.
    pub fn iter_ids(&self) -> (r: Vec<Id<T>>)
        ensures
            r@.len() == self@.len(),
            forall|k: int| 0 <= k < r@.len() ==> (#[trigger] r@[k]).spec_index() == k,
    {
        let mut ids: Vec<Id<T>> = Vec::new();
        let n = self.items.len();
        for k in 0..n
            invariant
                n == self@.len(),
                ids@.len() == k,
                forall|j: int| 0 <= j < k ==> (#[trigger] ids@[j]).spec_index() == j,
        {
            ids.push(Id { raw: k as u64, marker: core::marker::PhantomData });
        }
        ids
    }
}

} // verus!
