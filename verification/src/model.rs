//! The mathematical model of an interning table: the sequence of the distinct
//! values it holds, in the order in which each was first interned. The value at
//! position `p` of the sequence has the id `p + 1`.

use vstd::prelude::*;

verus! {

/// The table that results when `v` is interned into the table `s`: `s` itself
/// where `v` is already in it, else `s` with `v` appended.
pub open spec fn interned<T>(s: Seq<T>, v: T) -> Seq<T> {
    if s.contains(v) {
        s
    } else {
        s.push(v)
    }
}

/// The id under which the table `s` holds `v`: the position of `v`, counted
/// from one. It says nothing of a value that `s` does not hold.
pub open spec fn id_of<T>(s: Seq<T>, v: T) -> int {
    s.index_of(v) + 1
}

/// The value that `id` stands for in the table `s`, if it stands for any.
pub open spec fn resolved<T>(s: Seq<T>, id: int) -> Option<T> {
    if 1 <= id <= s.len() {
        Some(s[id - 1])
    } else {
        None
    }
}

/// The table that results when the values `vs` are interned into the table
/// `s`, one after the other.
pub open spec fn interned_all<T>(s: Seq<T>, vs: Seq<T>) -> Seq<T>
    decreases vs.len(),
{
    if vs.len() == 0 {
        s
    } else {
        interned(interned_all(s, vs.drop_last()), vs.last())
    }
}

/// The ids that come back, in order, when the values `vs` are interned into
/// the table `s`, one after the other.
pub open spec fn ids_of_all<T>(s: Seq<T>, vs: Seq<T>) -> Seq<int> {
    Seq::new(vs.len(), |i: int| id_of(interned_all(s, vs.take(i + 1)), vs[i]))
}

/// In a table without duplicates, a value found at position `p` has the id
/// `p + 1` and no other.
pub proof fn lemma_id_of_position<T>(s: Seq<T>, v: T, p: int)
    requires
        s.no_duplicates(),
        0 <= p < s.len(),
        s[p] == v,
    ensures
        s.contains(v),
        id_of(s, v) == p + 1,
{
}

/// Interning keeps a table free of duplicates.
pub proof fn lemma_interned_distinct<T>(s: Seq<T>, v: T)
    requires
        s.no_duplicates(),
    ensures
        interned(s, v).no_duplicates(),
        interned(s, v).contains(v),
{
    if s.contains(v) {
    } else {
        assert(s.push(v)[s.len() as int] == v);
    }
}

/// Interning one value more: the table after the first `n + 1` values of `vs`
/// is the table after the first `n`, with `vs[n]` interned into it.
pub proof fn lemma_interned_all_step<T>(s: Seq<T>, vs: Seq<T>, n: int)
    requires
        0 <= n < vs.len(),
    ensures
        interned_all(s, vs.take(n + 1)) == interned(interned_all(s, vs.take(n)), vs[n]),
{
    assert(vs.take(n + 1).drop_last() =~= vs.take(n));
}

/// Interning only appends: the table `s` stays at the front of the table after
/// `vs`, which grows by one value for each new one and by no more.
pub proof fn lemma_interned_all_extends<T>(s: Seq<T>, vs: Seq<T>)
    ensures
        s.is_prefix_of(interned_all(s, vs)),
        interned_all(s, vs).len() <= s.len() + vs.len(),
    decreases vs.len(),
{
    if vs.len() > 0 {
        lemma_interned_all_extends(s, vs.drop_last());
    }
}

/// A table that is free of duplicates stays so, whatever is interned into it.
pub proof fn lemma_interned_all_distinct<T>(s: Seq<T>, vs: Seq<T>)
    requires
        s.no_duplicates(),
    ensures
        interned_all(s, vs).no_duplicates(),
    decreases vs.len(),
{
    if vs.len() > 0 {
        lemma_interned_all_distinct(s, vs.drop_last());
        lemma_interned_distinct(interned_all(s, vs.drop_last()), vs.last());
    }
}

/// The table after the first `n` values of `vs` is the front of the table
/// after all of them.
pub proof fn lemma_interned_all_grows<T>(s: Seq<T>, vs: Seq<T>, n: int)
    requires
        0 <= n <= vs.len(),
    ensures
        interned_all(s, vs.take(n)).is_prefix_of(interned_all(s, vs)),
    decreases vs.len() - n,
{
    if n == vs.len() {
        assert(vs.take(n) =~= vs);
    } else {
        lemma_interned_all_step(s, vs, n);
        lemma_interned_all_grows(s, vs, n + 1);
    }
}

} // verus!
