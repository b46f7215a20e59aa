//! The handle that an interning table gives out for a value.

use core::marker::PhantomData;
use vstd::prelude::*;

verus! {

/// A handle for a value held by a table of values of type `T`.
///
/// The handle is a positive number; zero is never used and stays free to mean
/// "no symbol" wherever a handle is stored as a bare number. The type parameter
/// keeps handles of tables over different value types apart.
#[derive(Debug, PartialEq, Eq)]
pub struct Symbol<T> {
    id: u32,
    marker: PhantomData<T>,
}

impl<T> Clone for Symbol<T> {
    fn clone(&self) -> (copy: Self)
        ensures
            copy == *self,
    {
        *self
    }
}

impl<T> Copy for Symbol<T> {}

/// A handle for an interned string.
pub type StringSymbol = Symbol<&'static str>;

impl<T> View for Symbol<T> {
    type V = nat;

    /// The number of the handle.
    closed spec fn view(&self) -> nat {
        self.id as nat
    }
}

impl<T> Symbol<T> {
    #[verifier::type_invariant]
    spec fn positive(self) -> bool {
        self.id != 0
    }

    /// The handle with number `id`, or `None` for zero, which names nothing.
    pub fn from_raw(id: u32) -> (sym: Option<Self>)
        ensures
            id == 0 <==> sym is None,
            sym matches Some(s) ==> s@ == id,
    {
        if id == 0 {
            None
        } else {
            Some(Symbol { id, marker: PhantomData })
        }
    }

    /// The handle of the value at `position` of a table's sequence.
    pub(crate) fn at(position: usize) -> (sym: Self)
        requires
            position < u32::MAX,
        ensures
            sym@ == position + 1,
    {
        Symbol { id: (position + 1) as u32, marker: PhantomData }
    }

    /// The position in a table's sequence that the handle points at.
    pub(crate) fn position(&self) -> (position: usize)
        ensures
            position == self@ - 1,
    {
        proof {
            use_type_invariant(self);
        }
        (self.id - 1) as usize
    }

    /// The number of the handle.
    pub fn id(&self) -> (id: u32)
        ensures
            id == self@,
            id >= 1,
    {
        proof {
            use_type_invariant(self);
        }
        self.id
    }
}

} // verus!
