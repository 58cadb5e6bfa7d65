//! Rows in ascending order of identity.
//!
//! The order of a list of identities is a list of positions: it names the
//! position of the lowest identity first. Of equal identities the one that
//! stands first in the list comes first in the order.

use vstd::prelude::*;

verus! {

/// Where an identity goes among the positions `order`, which stand in
/// ascending order of identity: behind the last position whose identity is
/// no higher.
pub open spec fn place(order: Seq<usize>, ids: Seq<i32>, id: i32) -> int
    decreases order.len(),
{
    if order.len() == 0 || ids[order.last() as int] <= id {
        order.len() as int
    } else {
        place(order.drop_last(), ids, id)
    }
}

/// The first `n` positions of `ids` in ascending order of identity.
pub open spec fn order_upto(ids: Seq<i32>, n: int) -> Seq<usize>
    decreases n,
{
    if n <= 0 {
        Seq::empty()
    } else {
        let before = order_upto(ids, n - 1);
        before.insert(place(before, ids, ids[n - 1]), (n - 1) as usize)
    }
}

/// The positions of `ids` in ascending order of identity.
pub open spec fn order_of(ids: Seq<i32>) -> Seq<usize> {
    order_upto(ids, ids.len() as int)
}

/// The rows at the positions `order`, in that order.
pub open spec fn arranged<T>(rows: Seq<T>, order: Seq<usize>) -> Seq<T> {
    Seq::new(order.len(), |k: int| rows[order[k] as int])
}

/// Whether the positions stand in ascending order of identity.
pub open spec fn ascending(order: Seq<usize>, ids: Seq<i32>) -> bool {
    forall|a: int, b: int|
        0 <= a < b < order.len() ==> ids[#[trigger] order[a] as int] <= ids[#[trigger] order[b] as int]
}

proof fn lemma_place(order: Seq<usize>, ids: Seq<i32>, id: i32)
    requires
        ascending(order, ids),
    ensures
        0 <= place(order, ids, id) <= order.len(),
        forall|k: int| 0 <= k < place(order, ids, id) ==> ids[#[trigger] order[k] as int] <= id,
        forall|k: int|
            place(order, ids, id) <= k < order.len() ==> ids[#[trigger] order[k] as int] > id,
    decreases order.len(),
{
    if order.len() == 0 || ids[order.last() as int] <= id {
        assert forall|k: int| 0 <= k < order.len() implies ids[#[trigger] order[k] as int]
            <= id by {
            if k < order.len() - 1 {
                assert(ids[order[k] as int] <= ids[order[order.len() - 1] as int]);
            }
        }
    } else {
        let init = order.drop_last();
        assert forall|a: int, b: int| 0 <= a < b < init.len() implies ids[#[trigger] init[a] as int]
            <= ids[#[trigger] init[b] as int] by {
            assert(init[a] == order[a] && init[b] == order[b]);
        }
        lemma_place(init, ids, id);
        assert forall|k: int| 0 <= k < place(order, ids, id) implies ids[#[trigger] order[k] as int]
            <= id by {
            assert(init[k] == order[k]);
        }
        assert forall|k: int| place(order, ids, id) <= k < order.len() implies ids[
            #[trigger] order[k] as int
        ] > id by {
            if k < init.len() {
                assert(init[k] == order[k]);
            }
        }
    }
}

/// The order names every one of the first `n` positions once, and the
/// identities at the positions it names ascend.
pub proof fn lemma_order_upto(ids: Seq<i32>, n: int)
    requires
        0 <= n <= ids.len() <= usize::MAX,
    ensures
        order_upto(ids, n).len() == n,
        forall|k: int| 0 <= k < n ==> (#[trigger] order_upto(ids, n)[k]) < n,
        order_upto(ids, n).no_duplicates(),
        ascending(order_upto(ids, n), ids),
    decreases n,
{
    if n > 0 {
        lemma_order_upto(ids, n - 1);
        let before = order_upto(ids, n - 1);
        let id = ids[n - 1];
        lemma_place(before, ids, id);
        let p = place(before, ids, id);
        let order = before.insert(p, (n - 1) as usize);
        assert(order_upto(ids, n) == order);
        assert forall|k: int| 0 <= k < n implies (#[trigger] order[k]) < n by {
            if k < p {
                assert(order[k] == before[k]);
            } else if k > p {
                assert(order[k] == before[k - 1]);
            }
        }
        assert forall|a: int, b: int| 0 <= a < order.len() && 0 <= b < order.len() && a
            != b implies order[a] != order[b] by {
            let x = if a < p {
                a
            } else {
                a - 1
            };
            let y = if b < p {
                b
            } else {
                b - 1
            };
            if a != p {
                assert(order[a] == before[x]);
                assert(before[x] < n - 1);
            }
            if b != p {
                assert(order[b] == before[y]);
                assert(before[y] < n - 1);
            }
            assert(order[p] == (n - 1) as usize);
        }
        assert forall|a: int, b: int| 0 <= a < b < order.len() implies ids[
            #[trigger] order[a] as int
        ] <= ids[#[trigger] order[b] as int] by {
            let x = if a < p {
                a
            } else {
                a - 1
            };
            let y = if b < p {
                b
            } else {
                b - 1
            };
            if a != p {
                assert(order[a] == before[x]);
            }
            if b != p {
                assert(order[b] == before[y]);
            }
            assert(order[p] == (n - 1) as usize);
            if a != p && b != p {
                assert(ids[before[x] as int] <= ids[before[y] as int]);
            } else if a == p {
                assert(ids[before[y] as int] > id);
            } else {
                assert(ids[before[x] as int] <= id);
            }
        }
    }
}

/// Identities that ascend already stay as they stand.
pub proof fn lemma_order_of_ascending(ids: Seq<i32>, n: int)
    requires
        0 <= n <= ids.len() <= usize::MAX,
        forall|i: int, j: int| 0 <= i < j < ids.len() ==> ids[i] <= ids[j],
    ensures
        order_upto(ids, n) == Seq::new(n as nat, |k: int| k as usize),
    decreases n,
{
    if n > 0 {
        lemma_order_of_ascending(ids, n - 1);
        lemma_order_upto(ids, n - 1);
        let before = order_upto(ids, n - 1);
        if n > 1 {
            assert(before[n - 2] == (n - 2) as usize);
            assert(before.last() == before[n - 2]);
        }
        assert(place(before, ids, ids[n - 1]) == n - 1);
        assert(before.insert(n - 1, (n - 1) as usize) =~= Seq::new(n as nat, |k: int| k as usize));
    } else {
        assert(order_upto(ids, n) =~= Seq::new(n as nat, |k: int| k as usize));
    }
}

/// The positions of `ids` in ascending order of identity.
pub fn sorted_order(ids: &Vec<i32>) -> (order: Vec<usize>)
    ensures
        order@ == order_of(ids@),
        order.len() == ids.len(),
        forall|k: int| 0 <= k < order.len() ==> (#[trigger] order[k]) < ids.len(),
{
    let mut order: Vec<usize> = Vec::new();
    let mut i: usize = 0;
    while i < ids.len()
        invariant
            i <= ids.len(),
            order@ == order_upto(ids@, i as int),
        decreases ids.len() - i,
    {
        proof {
            lemma_order_upto(ids@, i as int);
        }
        let id = ids[i];
        let mut p: usize = order.len();
        assert(order@.take(p as int) =~= order@);
        while p > 0 && ids[order[p - 1]] > id
            invariant
                p <= order.len(),
                i < ids.len(),
                order.len() == i,
                forall|k: int| 0 <= k < order.len() ==> (#[trigger] order[k]) < i,
                place(order@, ids@, id) == place(order@.take(p as int), ids@, id),
            decreases p,
        {
            assert(order@.take(p as int).drop_last() =~= order@.take(p - 1));
            p -= 1;
        }
        order.insert(p, i);
        i += 1;
    }
    proof {
        lemma_order_upto(ids@, ids@.len() as int);
    }
    order
}

} // verus!
