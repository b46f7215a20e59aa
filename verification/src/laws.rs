//! What holds of every table, stated over the model and proved from it.
//!
//! The functions of a table promise their results in terms of `interned`,
//! `id_of` and `resolved`; a run of calls that intern the values `vs` one after
//! the other into a table `s` returns the ids `ids_of_all(s, vs)` and leaves the
//! table `interned_all(s, vs)`.

use crate::model::{
    id_of, ids_of_all, interned, interned_all, lemma_id_of_position, lemma_interned_all_distinct,
    lemma_interned_all_extends, lemma_interned_all_grows, lemma_interned_all_step,
    lemma_interned_distinct, resolved,
};
use vstd::prelude::*;
use vstd::set_lib::set_int_range;

verus! {

/// Whether `vs[i]` is new when its turn comes: neither the table `s` nor the
/// values interned before it hold an equal value.
pub open spec fn is_new_at<T>(s: Seq<T>, vs: Seq<T>, i: int) -> bool {
    !interned_all(s, vs.take(i)).contains(vs[i])
}

/// A value has the same id in a table and in every table that extends it.
proof fn lemma_id_kept<T>(t: Seq<T>, u: Seq<T>, v: T)
    requires
        t.is_prefix_of(u),
        u.no_duplicates(),
        t.contains(v),
    ensures
        id_of(u, v) == id_of(t, v),
        1 <= id_of(t, v) <= t.len(),
        t[id_of(t, v) - 1] == v,
{
    let p = t.index_of(v);
    assert(t[p] == u.subrange(0, t.len() as int)[p]);
    assert forall|i: int, j: int| 0 <= i < t.len() && 0 <= j < t.len() && i != j implies t[i]
        != t[j] by {
        assert(t[i] == u.subrange(0, t.len() as int)[i]);
        assert(t[j] == u.subrange(0, t.len() as int)[j]);
    }
    lemma_id_of_position(t, v, p);
    lemma_id_of_position(u, v, p);
}

/// The table after the first `n` values is the front of the table after the
/// first `m`, for `n <= m`.
proof fn lemma_tables_nest<T>(s: Seq<T>, vs: Seq<T>, n: int, m: int)
    requires
        0 <= n <= m <= vs.len(),
    ensures
        interned_all(s, vs.take(n)).is_prefix_of(interned_all(s, vs.take(m))),
{
    assert(vs.take(m).take(n) =~= vs.take(n));
    lemma_interned_all_grows(s, vs.take(m), n);
}

/// What the `i`-th call returns and leaves behind.
proof fn lemma_id_at<T>(s: Seq<T>, vs: Seq<T>, i: int)
    requires
        s.no_duplicates(),
        0 <= i < vs.len(),
    ensures
        ({
            let before = interned_all(s, vs.take(i));
            let after = interned_all(s, vs.take(i + 1));
            let id = ids_of_all(s, vs)[i];
            &&& before.no_duplicates()
            &&& after.no_duplicates()
            &&& after == interned(before, vs[i])
            &&& id == id_of(after, vs[i])
            &&& 1 <= id <= after.len()
            &&& after[id - 1] == vs[i]
            &&& is_new_at(s, vs, i) ==> id == before.len() + 1
        }),
{
    let before = interned_all(s, vs.take(i));
    let after = interned_all(s, vs.take(i + 1));
    lemma_interned_all_step(s, vs, i);
    lemma_interned_all_distinct(s, vs.take(i));
    lemma_interned_distinct(before, vs[i]);
    lemma_id_kept(after, after, vs[i]);
    if is_new_at(s, vs, i) {
        lemma_id_of_position(after, vs[i], before.len() as int);
    }
}

/// Ids and values of a table stand one to one: the value that an id of the
/// table resolves to has that id, and the id of a value of the table resolves
/// to that value.
pub proof fn law_ids_match_values<T>(s: Seq<T>, id: int, v: T)
    requires
        s.no_duplicates(),
    ensures
        resolved(s, id) matches Some(w) ==> id_of(s, w) == id,
        s.contains(v) ==> resolved(s, id_of(s, v)) == Some(v),
{
    if 1 <= id <= s.len() {
        lemma_id_of_position(s, s[id - 1], id - 1);
    }
    if s.contains(v) {
        lemma_id_kept(s, s, v);
    }
}

/// Equal values get equal ids, and different values different ids: of the
/// values `vs` interned in order into the table `s`, two have the same id
/// exactly when they are equal, whatever was interned between them.
pub proof fn law_same_id_iff_same_value<T>(s: Seq<T>, vs: Seq<T>, i: int, j: int)
    requires
        s.no_duplicates(),
        0 <= i < vs.len(),
        0 <= j < vs.len(),
    ensures
        ids_of_all(s, vs)[i] == ids_of_all(s, vs)[j] <==> vs[i] == vs[j],
{
    if i <= j {
        lemma_same_id_iff_same_value_ordered(s, vs, i, j);
    } else {
        lemma_same_id_iff_same_value_ordered(s, vs, j, i);
    }
}

proof fn lemma_same_id_iff_same_value_ordered<T>(s: Seq<T>, vs: Seq<T>, i: int, j: int)
    requires
        s.no_duplicates(),
        0 <= i <= j < vs.len(),
    ensures
        ids_of_all(s, vs)[i] == ids_of_all(s, vs)[j] <==> vs[i] == vs[j],
{
    let early = interned_all(s, vs.take(i + 1));
    let late = interned_all(s, vs.take(j + 1));
    lemma_id_at(s, vs, i);
    lemma_id_at(s, vs, j);
    lemma_tables_nest(s, vs, i + 1, j + 1);
    let d = ids_of_all(s, vs)[i];
    assert(early[d - 1] == late.subrange(0, early.len() as int)[d - 1]);
    if vs[i] == vs[j] {
        lemma_id_kept(early, late, vs[i]);
    }
}

/// A new value gets an id above every id given out before it: where `vs[i]`
/// is new at its turn, its id is higher than that of each earlier `vs[j]`.
pub proof fn law_new_value_gets_highest_id<T>(s: Seq<T>, vs: Seq<T>, j: int, i: int)
    requires
        s.no_duplicates(),
        0 <= j < i < vs.len(),
        is_new_at(s, vs, i),
    ensures
        ids_of_all(s, vs)[j] < ids_of_all(s, vs)[i],
        ids_of_all(s, vs)[i] == interned_all(s, vs.take(i)).len() + 1,
{
    lemma_id_at(s, vs, i);
    lemma_id_at(s, vs, j);
    lemma_tables_nest(s, vs, j + 1, i);
}

/// The ids of a run never fall and rise exactly at the new values, on every
/// run in which a value that was seen before is interned again only directly
/// after itself. (On any other run the id of a value seen earlier comes back,
/// which is lower than the one before it.)
pub proof fn law_ids_rise_exactly_at_new_values<T>(s: Seq<T>, vs: Seq<T>)
    requires
        s.no_duplicates(),
        forall|i: int| 1 <= i < vs.len() && !is_new_at(s, vs, i) ==> vs[i] == vs[i - 1],
    ensures
        forall|i: int|
            #![trigger ids_of_all(s, vs)[i]]
            1 <= i < vs.len() ==> {
                &&& ids_of_all(s, vs)[i - 1] <= ids_of_all(s, vs)[i]
                &&& ids_of_all(s, vs)[i - 1] < ids_of_all(s, vs)[i] <==> is_new_at(s, vs, i)
            },
{
    assert forall|i: int| #![trigger ids_of_all(s, vs)[i]] 1 <= i < vs.len() implies {
        &&& ids_of_all(s, vs)[i - 1] <= ids_of_all(s, vs)[i]
        &&& ids_of_all(s, vs)[i - 1] < ids_of_all(s, vs)[i] <==> is_new_at(s, vs, i)
    } by {
        if is_new_at(s, vs, i) {
            law_new_value_gets_highest_id(s, vs, i - 1, i);
        } else {
            law_same_id_iff_same_value(s, vs, i - 1, i);
        }
    }
}

/// Resolving the id that interning a value gave returns that value.
pub proof fn law_resolve_returns_interned<T>(s: Seq<T>, v: T)
    requires
        s.no_duplicates(),
    ensures
        resolved(interned(s, v), id_of(interned(s, v), v)) == Some(v),
{
    lemma_interned_distinct(s, v);
    lemma_id_kept(interned(s, v), interned(s, v), v);
}

/// An id stays good for the life of the table: whatever is interned later, a
/// value of the table keeps its id, and the id resolves to that value.
pub proof fn law_id_stays_valid<T>(s: Seq<T>, v: T, later: Seq<T>)
    requires
        s.no_duplicates(),
        s.contains(v),
    ensures
        id_of(interned_all(s, later), v) == id_of(s, v),
        resolved(interned_all(s, later), id_of(s, v)) == Some(v),
{
    let grown = interned_all(s, later);
    lemma_interned_all_extends(s, later);
    lemma_interned_all_distinct(s, later);
    lemma_id_kept(s, grown, v);
    let d = id_of(s, v);
    assert(s[d - 1] == grown.subrange(0, s.len() as int)[d - 1]);
}

/// A value is in the table after a run exactly when the table held it before
/// or the run interned it.
pub proof fn lemma_interned_all_holds<T>(s: Seq<T>, vs: Seq<T>, v: T)
    ensures
        interned_all(s, vs).contains(v) <==> s.contains(v) || vs.contains(v),
    decreases vs.len(),
{
    if vs.len() > 0 {
        let front = vs.drop_last();
        let before = interned_all(s, front);
        lemma_interned_all_holds(s, front, v);
        if vs.contains(v) {
            let i = vs.index_of(v);
            if i < vs.len() - 1 {
                assert(front[i] == v);
            }
        }
        if front.contains(v) {
            let i = front.index_of(v);
            assert(vs[i] == v);
        }
        if before.contains(v) {
            let p = before.index_of(v);
            assert(interned(before, vs.last())[p] == v);
        }
        if vs.last() == v {
            assert(vs[vs.len() - 1] == v);
            if !before.contains(v) {
                assert(before.push(v)[before.len() as int] == v);
            }
        }
        if interned_all(s, vs).contains(v) && !before.contains(v) {
            let p = interned_all(s, vs).index_of(v);
            assert(p == before.len());
        }
    }
}

/// Every id that the run added to the table was returned by one of its calls.
proof fn lemma_each_id_returned<T>(s: Seq<T>, vs: Seq<T>, n: int, d: int)
    requires
        s.no_duplicates(),
        0 <= n <= vs.len(),
        s.len() < d <= interned_all(s, vs.take(n)).len(),
    ensures
        exists|i: int| 0 <= i < n && ids_of_all(s, vs)[i] == d,
    decreases n,
{
    if n == 0 {
        assert(vs.take(0) =~= Seq::<T>::empty());
    } else {
        let before = interned_all(s, vs.take(n - 1));
        lemma_id_at(s, vs, n - 1);
        if d <= before.len() {
            lemma_each_id_returned(s, vs, n - 1, d);
        } else {
            assert(ids_of_all(s, vs)[n - 1] == d);
        }
    }
}

/// Ids are dense and start at one: the ids that come back when `vs` are
/// interned into an empty table are exactly the numbers from 1 to `k`, where
/// `k` is the number of distinct values among `vs`, which is also the length
/// of the table they leave.
pub proof fn law_ids_are_dense<T>(vs: Seq<T>)
    ensures
        ({
            let k = interned_all(Seq::<T>::empty(), vs).len() as int;
            &&& ids_of_all(Seq::<T>::empty(), vs).to_set() == set_int_range(1, k + 1)
            &&& k == vs.to_set().len()
        }),
{
    let s = Seq::<T>::empty();
    let table = interned_all(s, vs);
    let ids = ids_of_all(s, vs);
    let k = table.len() as int;
    assert(vs.take(vs.len() as int) =~= vs);
    assert forall|d: int| ids.to_set().contains(d) <==> set_int_range(1, k + 1).contains(d) by {
        if ids.to_set().contains(d) {
            let i = ids.index_of(d);
            lemma_id_at(s, vs, i);
            lemma_tables_nest(s, vs, i + 1, vs.len() as int);
        }
        if 1 <= d <= k {
            lemma_each_id_returned(s, vs, vs.len() as int, d);
            let i = choose|i: int| 0 <= i < vs.len() && ids[i] == d;
            assert(ids[i] == d);
        }
    }
    assert(ids.to_set() =~= set_int_range(1, k + 1));
    assert forall|v: T| table.to_set().contains(v) <==> vs.to_set().contains(v) by {
        lemma_interned_all_holds(s, vs, v);
    }
    assert(table.to_set() =~= vs.to_set());
    lemma_interned_all_distinct(s, vs);
    table.unique_seq_to_set();
}

/// The values of a table, interned into an empty one in their order, give the
/// table again: a table is rebuilt from what was written out for it.
pub proof fn law_replay_restores<T>(s: Seq<T>)
    requires
        s.no_duplicates(),
    ensures
        interned_all(Seq::<T>::empty(), s) == s,
    decreases s.len(),
{
    if s.len() == 0 {
        assert(s =~= Seq::<T>::empty());
    } else {
        let front = s.drop_last();
        law_replay_restores(front);
        if front.contains(s.last()) {
            let i = front.index_of(s.last());
            assert(s[i] == s[s.len() - 1]);
        }
        assert(front.push(s.last()) =~= s);
    }
}

} // verus!
