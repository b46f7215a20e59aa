//! The interning table.

use crate::model::{
    id_of, interned, interned_all, lemma_id_of_position, lemma_interned_all_grows,
    lemma_interned_all_step, resolved,
};
use crate::symbol::Symbol;
use std::collections::BTreeMap;
use vstd::laws_cmp::obeys_cmp;
use vstd::laws_eq::obeys_concrete_eq;
use vstd::prelude::*;

verus! {

/// What a lookup asks of the type of the values: the order of `T` is a total
/// order, and two values are equal in that order exactly when they are the
/// same value.
pub open spec fn order_laws<T: Ord>() -> bool {
    &&& obeys_cmp::<T>()
    &&& obeys_concrete_eq::<T>()
}

/// What a table asks of the type of the values it takes in: the laws of the
/// order, and that a clone of a value is that value again.
///
/// For the integers, and for references, options and tuples of types that meet
/// the laws of the order, vstd proves those laws in its groups
/// `vstd::laws_cmp::group_laws_cmp` and `vstd::laws_eq::group_laws_eq`.
pub open spec fn value_laws<T: Ord + Clone>() -> bool {
    &&& order_laws::<T>()
    &&& forall|a: T, b: T| #[trigger] cloned(a, b) ==> a == b
}

/// The 64-bit unsigned integers meet the laws; the other integer types meet
/// them by the same proof.
pub proof fn lemma_u64_meets_value_laws()
    ensures
        value_laws::<u64>(),
{
    broadcast use vstd::laws_cmp::group_laws_cmp;
    broadcast use vstd::laws_eq::group_laws_eq;

}

/// A table that holds each distinct value once and gives it a stable id.
///
/// The values are kept in the order in which each was first interned; the value
/// at position `p` has the id `p + 1`. A lookup structure beside the sequence
/// finds the position of a value; it is derived from the sequence alone.
#[derive(Debug, PartialEq, Eq)]
pub struct Interner<T> {
    map: BTreeMap<T, usize>,
    vec: Vec<T>,
}

/// A table of strings.
pub type StringInterner = Interner<&'static str>;

impl<T> View for Interner<T> {
    type V = Seq<T>;

    /// The distinct values, in the order in which each was first interned.
    closed spec fn view(&self) -> Seq<T> {
        self.vec@
    }
}

impl<T> Interner<T> {
    /// The lookup structure and the sequence agree: the structure maps each
    /// value of the sequence to its position, and holds nothing else.
    pub closed spec fn lookup_agrees(&self) -> bool {
        &&& forall|v: T| #[trigger]
            self.map@.contains_key(v) ==> self.map@[v] < self.vec@.len()
                && self.vec@[self.map@[v] as int] == v
        &&& forall|i: int|
            0 <= i < self.vec@.len() ==> self.map@.contains_key(#[trigger] self.vec@[i])
                && self.map@[self.vec@[i]] == i
    }

    /// The invariant of a table: no value occurs twice, every position has an
    /// id that fits in 32 bits, and the lookup structure agrees with the
    /// sequence.
    pub open spec fn wf(&self) -> bool {
        &&& self@.no_duplicates()
        &&& self@.len() <= u32::MAX
        &&& self.lookup_agrees()
    }

    /// The number of distinct values in the table, which is also the highest id
    /// that it has given out.
    pub fn len(&self) -> (n: usize)
        ensures
            n == self@.len(),
    {
        self.vec.len()
    }

    /// The distinct values in the order in which each was first interned: the
    /// part of a table that is written out when it is stored.
    pub fn values(&self) -> (values: &[T])
        ensures
            values@ == self@,
    {
        self.vec.as_slice()
    }

    /// Gives up the table for its values, in the order in which each was first
    /// interned.
    pub fn into_values(self) -> (values: Vec<T>)
        ensures
            values@ == self@,
    {
        self.vec
    }
}

impl<T: Ord> Interner<T> {
    /// An empty table.
    pub fn new() -> (table: Self)
        ensures
            table.wf(),
            table@ == Seq::<T>::empty(),
    {
        Self { map: BTreeMap::new(), vec: Vec::new() }
    }

    /// The handle of `s` where the table holds an equal value, else `None`.
    /// The table stays as it is.
    pub fn get(&self, s: &T) -> (found: Option<Symbol<T>>)
        requires
            self.wf(),
            order_laws::<T>(),
        ensures
            found is Some <==> self@.contains(*s),
            found matches Some(sym) ==> sym@ == id_of(self@, *s) && self@[sym@ - 1] == *s,
    {
        broadcast use vstd::std_specs::btree::group_btree_axioms;

        match self.map.get(s) {
            Some(position) => {
                proof {
                    lemma_id_of_position(self@, *s, *position as int);
                }
                Some(Symbol::at(*position))
            },
            None => None,
        }
    }
}

impl<T: Ord + Clone> Interner<T> {
    /// Interns `s` and returns its handle: the handle it already has where an
    /// equal value was interned before, else a new one, for which `s` is
    /// appended to the sequence.
    ///
    /// The ids are 32 bits wide. A table that holds `u32::MAX` values is full,
    /// and takes only values that it already holds.
    pub fn intern_or_get(&mut self, s: T) -> (sym: Symbol<T>)
        requires
            old(self).wf(),
            value_laws::<T>(),
            old(self)@.contains(s) || old(self)@.len() < u32::MAX,
        ensures
            final(self).wf(),
            final(self)@ == interned(old(self)@, s),
            old(self)@.is_prefix_of(final(self)@),
            sym@ == id_of(final(self)@, s),
            1 <= sym@ <= final(self)@.len(),
            final(self)@[sym@ - 1] == s,
            !old(self)@.contains(s) ==> sym@ == old(self)@.len() + 1,
    {
        match self.get(&s) {
            Some(sym) => sym,
            None => {
                let next = self.vec.len();
                let key = s.clone();
                assert(cloned(s, key));
                self.map.insert(key, next);
                self.vec.push(s);
                proof {
                    lemma_id_of_position(self@, s, next as int);
                }
                Symbol::at(next)
            },
        }
    }

    /// The table that results when `values` are interned into an empty one, in
    /// order: what rebuilds a table, lookup structure included, from the values
    /// that were written out for it.
    pub fn from_values(values: Vec<T>) -> (table: Self)
        requires
            value_laws::<T>(),
            interned_all(Seq::<T>::empty(), values@).len() <= u32::MAX,
        ensures
            table.wf(),
            table@ == interned_all(Seq::<T>::empty(), values@),
    {
        let ghost all = values@;
        let mut table = Self::new();
        for v in it: values
            invariant
                value_laws::<T>(),
                it.seq() == all,
                interned_all(Seq::<T>::empty(), all).len() <= u32::MAX,
                table.wf(),
                table@ == interned_all(Seq::<T>::empty(), all.take(it.index() as int)),
        {
            proof {
                lemma_interned_all_step(Seq::<T>::empty(), all, it.index() as int);
                lemma_interned_all_grows(Seq::<T>::empty(), all, it.index() + 1);
            }
            table.intern_or_get(v);
        }
        proof {
            assert(all.take(all.len() as int) =~= all);
        }
        table
    }

    /// The value that `sym` stands for, or `None` where it stands for none in
    /// this table.
    pub fn resolve(&self, sym: Symbol<T>) -> (value: Option<&T>)
        ensures
            value is Some <==> 1 <= sym@ <= self@.len(),
            match value {
                Some(v) => resolved(self@, sym@ as int) == Some(*v),
                None => resolved(self@, sym@ as int) is None,
            },
    {
        let position = sym.position();
        if position >= self.vec.len() {
            return None;
        }
        Some(&self.vec[position])
    }
}

} // verus!
