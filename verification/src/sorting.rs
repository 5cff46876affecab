//! Sorting by rank, with and without duplicates.

use vstd::prelude::*;

verus! {

/// Values with a rank: a strict order in which two values may rank the same.
pub trait Ranked: Sized {
    spec fn precedes(self, other: Self) -> bool;

    proof fn precedes_irreflexive(a: Self)
        ensures
            !a.precedes(a),
    ;

    proof fn precedes_transitive(a: Self, b: Self, c: Self)
        requires
            a.precedes(b),
            b.precedes(c),
        ensures
            a.precedes(c),
    ;

    /// Whoever does not precede does not precede anything further on.
    proof fn precedes_weakly(a: Self, b: Self, c: Self)
        requires
            !a.precedes(b),
            !b.precedes(c),
        ensures
            !a.precedes(c),
    ;
}

/// Values whose ranks can be told apart at run time.
pub trait Sortable: DeepView + Sized where Self::V: Ranked {
    fn before(&self, other: &Self) -> (r: bool)
        ensures
            r == self.deep_view().precedes(other.deep_view()),
    ;
}

pub open spec fn same_rank<M: Ranked>(a: M, b: M) -> bool {
    !a.precedes(b) && !b.precedes(a)
}

/// A sorted list with a value behind all that do not rank behind it.
pub open spec fn placed<M: Ranked>(sorted: Seq<M>, x: M) -> Seq<M>
    decreases sorted.len(),
{
    if sorted.len() == 0 || !x.precedes(sorted.last()) {
        sorted.push(x)
    } else {
        placed(sorted.drop_last(), x).push(sorted.last())
    }
}

/// The values of a list by rank; values of one rank keep their order.
pub open spec fn by_rank<M: Ranked>(list: Seq<M>) -> Seq<M>
    decreases list.len(),
{
    if list.len() == 0 {
        Seq::empty()
    } else {
        placed(by_rank(list.drop_last()), list.last())
    }
}

/// A sorted list with a value at its place, unless it holds one of that rank.
pub open spec fn placed_once<M: Ranked>(sorted: Seq<M>, x: M) -> Seq<M>
    decreases sorted.len(),
{
    if sorted.len() == 0 || sorted.last().precedes(x) {
        sorted.push(x)
    } else if !x.precedes(sorted.last()) {
        sorted
    } else {
        placed_once(sorted.drop_last(), x).push(sorted.last())
    }
}

/// The values of a list by rank, and of each rank the first.
pub open spec fn by_rank_once<M: Ranked>(list: Seq<M>) -> Seq<M>
    decreases list.len(),
{
    if list.len() == 0 {
        Seq::empty()
    } else {
        placed_once(by_rank_once(list.drop_last()), list.last())
    }
}

/// No value of the list ranks before an earlier one.
pub open spec fn in_rank_order<M: Ranked>(list: Seq<M>) -> bool {
    forall|i: int, j: int| 0 <= i < j < list.len() ==> !(#[trigger] list[j]).precedes(#[trigger] list[i])
}

/// Every value of the list ranks before each later one.
pub open spec fn in_strict_order<M: Ranked>(list: Seq<M>) -> bool {
    forall|i: int, j: int| 0 <= i < j < list.len() ==> (#[trigger] list[i]).precedes(#[trigger] list[j])
}

proof fn placed_orders<M: Ranked>(sorted: Seq<M>, x: M)
    requires
        in_rank_order(sorted),
    ensures
        in_rank_order(placed(sorted, x)),
        placed(sorted, x).to_multiset() == sorted.to_multiset().insert(x),
        forall|y: M| #[trigger] placed(sorted, x).contains(y) ==> y == x || sorted.contains(y),
    decreases sorted.len(),
{
    broadcast use vstd::seq_lib::group_to_multiset_ensures;
    let all = placed(sorted, x);
    if sorted.len() == 0 || !x.precedes(sorted.last()) {
        assert forall|i: int, j: int| 0 <= i < j < all.len() implies !(#[trigger] all[j]).precedes(#[trigger] all[i]) by {
            if j == sorted.len() && i < sorted.len() - 1 {
                M::precedes_weakly(x, sorted.last(), sorted[i]);
            }
        }
        assert forall|y: M| #[trigger] all.contains(y) implies y == x || sorted.contains(y) by {
            let k = choose|k: int| 0 <= k < all.len() && all[k] == y;
            if k < sorted.len() {
                assert(sorted[k] == y);
            }
        }
    } else {
        let init = sorted.drop_last();
        placed_orders(init, x);
        let grown = placed(init, x);
        assert(sorted =~= init.push(sorted.last()));
        assert(all.to_multiset() =~= sorted.to_multiset().insert(x));
        assert forall|y: M| #[trigger] all.contains(y) implies y == x || sorted.contains(y) by {
            let k = choose|k: int| 0 <= k < all.len() && all[k] == y;
            if k < grown.len() {
                assert(grown[k] == y);
                assert(grown.contains(y));
                if y != x {
                    let m = choose|m: int| 0 <= m < init.len() && init[m] == y;
                    assert(sorted[m] == y);
                }
            } else {
                assert(sorted[sorted.len() - 1] == y);
            }
        }
        assert forall|i: int, j: int| 0 <= i < j < all.len() implies !(#[trigger] all[j]).precedes(#[trigger] all[i]) by {
            if j == all.len() - 1 {
                let y = grown[i];
                assert(grown.contains(y));
                if y == x {
                    if sorted.last().precedes(x) {
                        M::precedes_transitive(x, sorted.last(), x);
                        M::precedes_irreflexive(x);
                    }
                } else {
                    let m = choose|m: int| 0 <= m < init.len() && init[m] == y;
                    assert(sorted[m] == y);
                    assert(!sorted[sorted.len() - 1].precedes(sorted[m]));
                }
            } else {
                assert(all[i] == grown[i]);
                assert(all[j] == grown[j]);
            }
        }
    }
}

/// Sorting puts the values in rank order and neither adds nor loses one.
pub proof fn by_rank_sorts<M: Ranked>(list: Seq<M>)
    ensures
        in_rank_order(by_rank(list)),
        by_rank(list).to_multiset() == list.to_multiset(),
    decreases list.len(),
{
    broadcast use vstd::seq_lib::group_to_multiset_ensures;
    if list.len() > 0 {
        by_rank_sorts(list.drop_last());
        placed_orders(by_rank(list.drop_last()), list.last());
        assert(list =~= list.drop_last().push(list.last()));
    } else {
        assert(list =~= Seq::<M>::empty());
    }
}

proof fn placed_once_orders<M: Ranked>(sorted: Seq<M>, x: M)
    requires
        in_strict_order(sorted),
    ensures
        in_strict_order(placed_once(sorted, x)),
        forall|y: M| #[trigger] placed_once(sorted, x).contains(y) ==> y == x || sorted.contains(y),
        forall|y: M| #[trigger] sorted.contains(y) ==> placed_once(sorted, x).contains(y),
        exists|y: M| #[trigger] placed_once(sorted, x).contains(y) && same_rank(y, x),
    decreases sorted.len(),
{
    let all = placed_once(sorted, x);
    if sorted.len() == 0 || sorted.last().precedes(x) {
        assert forall|i: int, j: int| 0 <= i < j < all.len() implies (#[trigger] all[i]).precedes(#[trigger] all[j]) by {
            if j == sorted.len() && i < sorted.len() - 1 {
                M::precedes_transitive(sorted[i], sorted.last(), x);
            }
        }
        assert forall|y: M| #[trigger] all.contains(y) implies y == x || sorted.contains(y) by {
            let k = choose|k: int| 0 <= k < all.len() && all[k] == y;
            if k < sorted.len() {
                assert(sorted[k] == y);
            }
        }
        assert forall|y: M| #[trigger] sorted.contains(y) implies all.contains(y) by {
            let k = choose|k: int| 0 <= k < sorted.len() && sorted[k] == y;
            assert(all[k] == y);
        }
        assert(all[sorted.len() as int] == x);
        assert(all.contains(x));
        M::precedes_irreflexive(x);
    } else if !x.precedes(sorted.last()) {
        assert(sorted[sorted.len() - 1] == sorted.last());
        assert(all.contains(sorted.last()));
    } else {
        let init = sorted.drop_last();
        let last = sorted.last();
        placed_once_orders(init, x);
        let grown = placed_once(init, x);
        assert forall|y: M| #[trigger] all.contains(y) implies y == x || sorted.contains(y) by {
            let k = choose|k: int| 0 <= k < all.len() && all[k] == y;
            if k < grown.len() {
                assert(grown[k] == y);
                assert(grown.contains(y));
                if y != x {
                    let m = choose|m: int| 0 <= m < init.len() && init[m] == y;
                    assert(sorted[m] == y);
                }
            } else {
                assert(sorted[sorted.len() - 1] == y);
            }
        }
        assert forall|y: M| #[trigger] sorted.contains(y) implies all.contains(y) by {
            let k = choose|k: int| 0 <= k < sorted.len() && sorted[k] == y;
            if k < init.len() {
                assert(init[k] == y);
                assert(init.contains(y));
                let m = choose|m: int| 0 <= m < grown.len() && grown[m] == y;
                assert(all[m] == y);
            } else {
                assert(all[all.len() - 1] == y);
            }
        }
        assert forall|i: int, j: int| 0 <= i < j < all.len() implies (#[trigger] all[i]).precedes(#[trigger] all[j]) by {
            if j == all.len() - 1 {
                let y = grown[i];
                assert(grown.contains(y));
                if y != x {
                    let m = choose|m: int| 0 <= m < init.len() && init[m] == y;
                    assert(sorted[m] == y);
                    assert(sorted[m].precedes(sorted[sorted.len() - 1]));
                }
            } else {
                assert(all[i] == grown[i]);
                assert(all[j] == grown[j]);
            }
        }
        let y = choose|y: M| #[trigger] placed_once(init, x).contains(y) && same_rank(y, x);
        let m = choose|m: int| 0 <= m < grown.len() && grown[m] == y;
        assert(all[m] == y);
        assert(all.contains(y));
    }
}

/// Sorting without duplicates puts the values in strict rank order, adds none,
/// and keeps one of every rank.
pub proof fn by_rank_once_sorts<M: Ranked>(list: Seq<M>)
    ensures
        in_strict_order(by_rank_once(list)),
        forall|y: M| #[trigger] by_rank_once(list).contains(y) ==> list.contains(y),
        forall|x: M| #[trigger] list.contains(x) ==> exists|y: M| #[trigger] by_rank_once(list).contains(y) && same_rank(y, x),
    decreases list.len(),
{
    if list.len() > 0 {
        let init = list.drop_last();
        let before = by_rank_once(init);
        let all = by_rank_once(list);
        by_rank_once_sorts(init);
        placed_once_orders(before, list.last());
        assert forall|y: M| #[trigger] all.contains(y) implies list.contains(y) by {
            if y == list.last() {
                assert(list[list.len() - 1] == y);
            } else {
                assert(before.contains(y));
                assert(init.contains(y));
                let k = choose|k: int| 0 <= k < init.len() && init[k] == y;
                assert(list[k] == y);
            }
        }
        assert forall|x: M| #[trigger] list.contains(x) implies exists|y: M| #[trigger] all.contains(y) && same_rank(y, x) by {
            let k = choose|k: int| 0 <= k < list.len() && list[k] == x;
            if k < init.len() {
                assert(init[k] == x);
                assert(init.contains(x));
                let y = choose|y: M| #[trigger] before.contains(y) && same_rank(y, x);
                assert(before.contains(y));
                assert(all.contains(y));
            }
        }
    }
}

proof fn placed_at<M: Ranked>(sorted: Seq<M>, x: M, i: int)
    requires
        0 <= i <= sorted.len(),
        forall|j: int| i <= j < sorted.len() ==> x.precedes(#[trigger] sorted[j]),
        i == 0 || !x.precedes(sorted[i - 1]),
    ensures
        placed(sorted, x) == sorted.insert(i, x),
    decreases sorted.len(),
{
    if i == sorted.len() {
        assert(sorted.insert(i, x) =~= sorted.push(x));
    } else {
        assert(x.precedes(sorted[sorted.len() - 1]));
        placed_at(sorted.drop_last(), x, i);
        assert(sorted.drop_last().insert(i, x).push(sorted.last()) =~= sorted.insert(i, x));
    }
}

proof fn placed_once_at<M: Ranked>(sorted: Seq<M>, x: M, i: int)
    requires
        0 <= i <= sorted.len(),
        forall|j: int| i <= j < sorted.len() ==> x.precedes(#[trigger] sorted[j]) && !sorted[j].precedes(x),
        i == 0 || sorted[i - 1].precedes(x),
    ensures
        placed_once(sorted, x) == sorted.insert(i, x),
    decreases sorted.len(),
{
    if i == sorted.len() {
        assert(sorted.insert(i, x) =~= sorted.push(x));
    } else {
        assert(x.precedes(sorted[sorted.len() - 1]));
        placed_once_at(sorted.drop_last(), x, i);
        assert(sorted.drop_last().insert(i, x).push(sorted.last()) =~= sorted.insert(i, x));
    }
}

proof fn placed_once_found<M: Ranked>(sorted: Seq<M>, x: M, i: int)
    requires
        0 < i <= sorted.len(),
        forall|j: int| i <= j < sorted.len() ==> x.precedes(#[trigger] sorted[j]) && !sorted[j].precedes(x),
        same_rank(sorted[i - 1], x),
    ensures
        placed_once(sorted, x) == sorted,
    decreases sorted.len(),
{
    if i < sorted.len() {
        assert(x.precedes(sorted[sorted.len() - 1]));
        placed_once_found(sorted.drop_last(), x, i);
        assert(sorted.drop_last().push(sorted.last()) =~= sorted);
    }
}

/// Puts a value into a sorted list, behind the values of its rank.
pub fn place<T: Sortable>(sorted: &mut Vec<T>, x: T) where T::V: Ranked
    ensures
        final(sorted).deep_view() == placed(old(sorted).deep_view(), x.deep_view()),
{
    let ghost before = sorted.deep_view();
    let mut i: usize = sorted.len();
    while i > 0 && x.before(&sorted[i - 1])
        invariant
            i <= sorted.len(),
            sorted.deep_view() == before,
            forall|j: int| i <= j < before.len() ==> x.deep_view().precedes(#[trigger] before[j]),
        decreases i,
    {
        assert(before[i - 1] == sorted@[i - 1].deep_view());
        i -= 1;
    }
    proof {
        if i > 0 {
            assert(before[i - 1] == sorted@[i - 1].deep_view());
        }
        placed_at(before, x.deep_view(), i as int);
    }
    sorted.insert(i, x);
    assert(sorted.deep_view() =~= before.insert(i as int, x.deep_view()));
}

/// Puts a value into a sorted list unless one of its rank is there.
pub fn place_once<T: Sortable>(sorted: &mut Vec<T>, x: T) where T::V: Ranked
    ensures
        final(sorted).deep_view() == placed_once(old(sorted).deep_view(), x.deep_view()),
{
    let ghost before = sorted.deep_view();
    let ghost value = x.deep_view();
    let mut i: usize = sorted.len();
    while i > 0
        invariant
            i <= sorted.len(),
            sorted.deep_view() == before,
            value == x.deep_view(),
            forall|j: int| i <= j < before.len() ==> value.precedes(#[trigger] before[j]) && !before[j].precedes(value),
        ensures
            i == 0 || before[i - 1].precedes(value),
        decreases i,
    {
        assert(before[i - 1] == sorted@[i - 1].deep_view());
        if sorted[i - 1].before(&x) {
            break;
        }
        if !x.before(&sorted[i - 1]) {
            proof {
                placed_once_found(before, value, i as int);
            }
            return;
        }
        i -= 1;
    }
    proof {
        placed_once_at(before, value, i as int);
    }
    sorted.insert(i, x);
    assert(sorted.deep_view() =~= before.insert(i as int, value));
}


/// Every value of one list has one of the same rank in the other.
pub open spec fn covers<M: Ranked>(a: Seq<M>, b: Seq<M>) -> bool {
    forall|i: int| 0 <= i < a.len() ==> has_rank(b, #[trigger] a[i])
}

pub open spec fn has_rank<M: Ranked>(list: Seq<M>, x: M) -> bool {
    exists|j: int| 0 <= j < list.len() && same_rank(#[trigger] list[j], x)
}

proof fn lasts_agree<M: Ranked>(a: Seq<M>, b: Seq<M>)
    requires
        in_strict_order(a),
        in_strict_order(b),
        covers(a, b),
        covers(b, a),
        a.len() > 0,
        b.len() > 0,
    ensures
        same_rank(a[a.len() - 1], b[b.len() - 1]),
{
    let m = a.len() - 1;
    let n = b.len() - 1;
    assert(has_rank(b, a[m]));
    let j = choose|j: int| 0 <= j < b.len() && same_rank(#[trigger] b[j], a[m]);
    assert(has_rank(a, b[n]));
    let i = choose|i: int| 0 <= i < a.len() && same_rank(#[trigger] a[i], b[n]);
    if j < n {
        assert(b[j].precedes(b[n]));
        if i < m {
            assert(a[i].precedes(a[m]));
            if !b[n].precedes(a[m]) {
                M::precedes_weakly(a[i], b[n], a[m]);
            }
            M::precedes_transitive(b[j], b[n], a[m]);
        } else {
            M::precedes_weakly(b[j], a[m], b[n]);
        }
    }
}

proof fn covers_without_lasts<M: Ranked>(a: Seq<M>, b: Seq<M>)
    requires
        in_strict_order(a),
        covers(a, b),
        a.len() > 0,
        b.len() > 0,
        same_rank(a[a.len() - 1], b[b.len() - 1]),
    ensures
        covers(a.drop_last(), b.drop_last()),
{
    let m = a.len() - 1;
    let n = b.len() - 1;
    let p = a.drop_last();
    let q = b.drop_last();
    assert forall|k: int| 0 <= k < p.len() implies has_rank(q, #[trigger] p[k]) by {
        assert(has_rank(b, a[k]));
        let l = choose|l: int| 0 <= l < b.len() && same_rank(#[trigger] b[l], a[k]);
        if l == n {
            assert(a[k].precedes(a[m]));
            M::precedes_weakly(a[k], b[n], a[m]);
        }
        assert(q[l] == b[l]);
    }
}

/// Two lists in strict order that hold the same ranks hold them in the same
/// places.
pub proof fn strict_orders_agree<M: Ranked>(a: Seq<M>, b: Seq<M>)
    requires
        in_strict_order(a),
        in_strict_order(b),
        covers(a, b),
        covers(b, a),
    ensures
        a.len() == b.len(),
        forall|i: int| 0 <= i < a.len() ==> same_rank(#[trigger] a[i], b[i]),
    decreases a.len(),
{
    if a.len() == 0 {
        if b.len() > 0 {
            assert(has_rank(a, b[0]));
        }
    } else {
        let m = a.len() - 1;
        assert(has_rank(b, a[m]));
        let n = b.len() - 1;
        lasts_agree(a, b);
        let p = a.drop_last();
        let q = b.drop_last();
        covers_without_lasts(a, b);
        covers_without_lasts(b, a);
        strict_orders_agree(p, q);
        assert forall|k: int| 0 <= k < a.len() implies same_rank(#[trigger] a[k], b[k]) by {
            if k < m {
                assert(same_rank(p[k], q[k]));
            }
        }
    }
}

proof fn sorting_keeps_the_rank<M: Ranked>(list: Seq<M>, x: M)
    requires
        list.contains(x),
    ensures
        has_rank(by_rank_once(list), x),
{
    by_rank_once_sorts(list);
    let all = by_rank_once(list);
    let y = choose|y: M| #[trigger] all.contains(y) && same_rank(y, x);
    let j = choose|j: int| 0 <= j < all.len() && all[j] == y;
    assert(same_rank(all[j], x));
}

proof fn sorting_adds_nothing<M: Ranked>(list: Seq<M>, i: int)
    requires
        0 <= i < by_rank_once(list).len(),
    ensures
        list.contains(by_rank_once(list)[i]),
{
    by_rank_once_sorts(list);
    assert(by_rank_once(list).contains(by_rank_once(list)[i]));
}

proof fn sorting_is_ordered<M: Ranked>(list: Seq<M>)
    ensures
        in_strict_order(by_rank_once(list)),
{
    by_rank_once_sorts(list);
}

/// Lists of the same values, sorted without duplicates, hold the same ranks in
/// the same places.
pub proof fn same_members_rank_alike<M: Ranked>(a: Seq<M>, b: Seq<M>)
    requires
        forall|x: M| #[trigger] a.contains(x) == b.contains(x),
    ensures
        by_rank_once(a).len() == by_rank_once(b).len(),
        forall|i: int|
            0 <= i < by_rank_once(a).len() ==> same_rank(#[trigger] by_rank_once(a)[i], by_rank_once(b)[i]),
{
    let p = by_rank_once(a);
    let q = by_rank_once(b);
    sorting_is_ordered(a);
    sorting_is_ordered(b);
    assert forall|i: int| 0 <= i < p.len() implies has_rank(q, #[trigger] p[i]) by {
        sorting_adds_nothing(a, i);
        assert(a.contains(p[i]) == b.contains(p[i]));
        sorting_keeps_the_rank(b, p[i]);
    }
    assert forall|i: int| 0 <= i < q.len() implies has_rank(p, #[trigger] q[i]) by {
        sorting_adds_nothing(b, i);
        assert(a.contains(q[i]) == b.contains(q[i]));
        sorting_keeps_the_rank(a, q[i]);
    }
    strict_orders_agree(p, q);
}

} // verus!
