//! Lists in a fixed order, so that two identical reads agree.
use vstd::prelude::*;

verus! {

/// A kind of row that is reported in a fixed order.
pub trait Ranked: View + Sized {
    /// Whether `a` is reported before `b`.
    spec fn above(a: Self::V, b: Self::V) -> bool;

    /// Of two rows at most one is above the other.
    proof fn above_is_strict(a: Self::V, b: Self::V)
        requires
            Self::above(a, b),
        ensures
            !Self::above(b, a),
    ;

    /// Not being above carries over.
    proof fn not_above_chains(a: Self::V, b: Self::V, c: Self::V)
        requires
            !Self::above(a, b),
            !Self::above(b, c),
        ensures
            !Self::above(a, c),
    ;

    fn is_above(&self, other: &Self) -> (r: bool)
        ensures
            r == Self::above(self@, other@),
    ;
}

/// The views of a list of rows.
pub open spec fn views<T: View>(rows: Seq<T>) -> Seq<T::V> {
    rows.map_values(|x: T| x@)
}

/// `ranked` with a row more, behind those that it is not above.
pub open spec fn placed<T: Ranked>(ranked: Seq<T::V>, x: T::V) -> Seq<T::V>
    decreases ranked.len(),
{
    if ranked.len() == 0 {
        seq![x]
    } else if T::above(x, ranked.last()) {
        placed::<T>(ranked.drop_last(), x).push(ranked.last())
    } else {
        ranked.push(x)
    }
}

/// The rows in their order; those that rank alike stay as they came.
pub open spec fn ranked<T: Ranked>(rows: Seq<T::V>) -> Seq<T::V>
    decreases rows.len(),
{
    if rows.len() == 0 {
        seq![]
    } else {
        placed::<T>(ranked::<T>(rows.drop_last()), rows.last())
    }
}

/// The first `n` of a list, or all of it where it is shorter.
pub open spec fn at_most<V>(rows: Seq<V>, n: nat) -> Seq<V> {
    if rows.len() <= n {
        rows
    } else {
        rows.take(n as int)
    }
}

/// No row is above one that stands before it.
pub open spec fn in_order<T: Ranked>(rows: Seq<T::V>) -> bool {
    forall|i: int, j: int|
        0 <= i < j < rows.len() ==> !T::above(#[trigger] rows[j], #[trigger] rows[i])
}

/// Put a row where it belongs.
pub fn place<T: Ranked>(rows: &mut Vec<T>, x: T)
    ensures
        views(final(rows)@) == placed::<T>(views(old(rows)@), x@),
{
    let ghost before = views(rows@);
    let ghost xv = x@;
    let mut at: usize = rows.len();
    proof {
        assert(before.take(before.len() as int) =~= before);
        assert(placed::<T>(before, xv) + before.skip(before.len() as int) =~= placed::<T>(
            before,
            xv,
        ));
    }
    while at > 0 && x.is_above(&rows[at - 1])
        invariant
            before == views(rows@),
            xv == x@,
            at <= rows@.len(),
            placed::<T>(before, xv) == placed::<T>(before.take(at as int), xv) + before.skip(
                at as int,
            ),
        decreases at,
    {
        proof {
            let now = before.take(at as int);
            assert(now.last() == rows@[at - 1]@);
            assert(now.drop_last() =~= before.take(at - 1));
            assert(placed::<T>(before.take(at - 1), xv).push(now.last()) + before.skip(at as int)
                =~= placed::<T>(before.take(at - 1), xv) + before.skip(at - 1));
        }
        at -= 1;
    }
    proof {
        let now = before.take(at as int);
        if at > 0 {
            assert(now.last() == rows@[at - 1]@);
        }
        assert(placed::<T>(now, xv) =~= now.push(xv));
    }
    rows.insert(at, x);
    proof {
        assert(views(rows@) =~= before.take(at as int).push(xv) + before.skip(at as int));
    }
}

proof fn lemma_placed<T: Ranked>(rows: Seq<T::V>, x: T::V)
    requires
        in_order::<T>(rows),
    ensures
        placed::<T>(rows, x).to_multiset() =~= rows.to_multiset().insert(x),
        placed::<T>(rows, x).len() == rows.len() + 1,
        in_order::<T>(placed::<T>(rows, x)),
    decreases rows.len(),
{
    broadcast use vstd::seq_lib::group_to_multiset_ensures;

    let after = placed::<T>(rows, x);
    if rows.len() == 0 {
        assert(after =~= rows.push(x));
    } else if T::above(x, rows.last()) {
        let front = rows.drop_last();
        assert forall|i: int, j: int| 0 <= i < j < front.len() implies !T::above(
            #[trigger] front[j],
            #[trigger] front[i],
        ) by {
            assert(!T::above(rows[j], rows[i]));
        }
        lemma_placed::<T>(front, x);
        let mid = placed::<T>(front, x);
        assert(rows =~= front.push(rows.last()));
        assert forall|i: int, j: int| 0 <= i < j < after.len() implies !T::above(
            #[trigger] after[j],
            #[trigger] after[i],
        ) by {
            if j < mid.len() {
                assert(!T::above(mid[j], mid[i]));
            } else {
                assert(mid.contains(mid[i]));
                assert(mid.to_multiset().count(mid[i]) > 0);
                if mid[i] == x {
                    T::above_is_strict(x, rows.last());
                } else {
                    assert(front.to_multiset().count(mid[i]) > 0);
                    assert(front.contains(mid[i]));
                    let k = choose|k: int| 0 <= k < front.len() && front[k] == mid[i];
                    assert(!T::above(rows[rows.len() - 1], rows[k]));
                }
            }
        }
    } else {
        assert forall|i: int, j: int| 0 <= i < j < after.len() implies !T::above(
            #[trigger] after[j],
            #[trigger] after[i],
        ) by {
            if j < rows.len() {
                assert(!T::above(rows[j], rows[i]));
            } else if i < rows.len() - 1 {
                assert(!T::above(rows[rows.len() - 1], rows[i]));
                T::not_above_chains(x, rows.last(), rows[i]);
            }
        }
    }
}

/// Ranking puts the rows in order and loses or adds none.
pub proof fn ranking_orders_and_keeps<T: Ranked>(rows: Seq<T::V>)
    ensures
        in_order::<T>(ranked::<T>(rows)),
        ranked::<T>(rows).to_multiset() =~= rows.to_multiset(),
        ranked::<T>(rows).len() == rows.len(),
    decreases rows.len(),
{
    broadcast use vstd::seq_lib::group_to_multiset_ensures;

    if rows.len() > 0 {
        ranking_orders_and_keeps::<T>(rows.drop_last());
        lemma_placed::<T>(ranked::<T>(rows.drop_last()), rows.last());
        assert(rows =~= rows.drop_last().push(rows.last()));
    }
}

/// A row that is above none of those that came before it stands behind them all: rows that
/// rank alike stay as they came.
pub proof fn ties_stay_as_they_came<T: Ranked>(rows: Seq<T::V>, x: T::V)
    requires
        forall|i: int| 0 <= i < ranked::<T>(rows).len() ==> !T::above(x, #[trigger] ranked::<T>(rows)[i]),
    ensures
        ranked::<T>(rows.push(x)) == ranked::<T>(rows).push(x),
{
    assert(rows.push(x).drop_last() =~= rows);
    let sorted = ranked::<T>(rows);
    if sorted.len() > 0 {
        assert(!T::above(x, sorted[sorted.len() - 1]));
    } else {
        assert(seq![x] =~= sorted.push(x));
    }
}

/// A limit keeps the first rows, as many as it allows.
pub proof fn limits_keep_the_first<V>(rows: Seq<V>, n: nat, i: int)
    ensures
        at_most(rows, n).len() == (if rows.len() <= n { rows.len() } else { n }),
        0 <= i < at_most(rows, n).len() ==> at_most(rows, n)[i] == rows[i],
{
}

} // verus!
