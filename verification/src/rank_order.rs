//! Ordering node positions by drawn ranks.
//!
//! Every position gets a rank; the positions are then listed by ascending
//! rank, and two positions of equal rank stay in ascending order. That
//! tie-break makes the order a function of the ranks alone.

use vstd::prelude::*;

verus! {

/// Whether position `a` comes before position `b` in rank order.
pub open spec fn precedes(ranks: Seq<u16>, a: usize, b: usize) -> bool {
    ranks[a as int] < ranks[b as int] || (ranks[a as int] == ranks[b as int] && a < b)
}

/// `order` with position `i` put behind every position whose rank is not
/// above the rank of `i`.
pub open spec fn insert_by_rank(order: Seq<usize>, ranks: Seq<u16>, i: usize) -> Seq<usize>
    decreases order.len(),
{
    if order.len() == 0 || ranks[order.last() as int] <= ranks[i as int] {
        order.push(i)
    } else {
        insert_by_rank(order.drop_last(), ranks, i).push(order.last())
    }
}

/// The positions `0 .. k` in rank order.
pub open spec fn rank_order(ranks: Seq<u16>, k: nat) -> Seq<usize>
    decreases k,
{
    if k == 0 {
        Seq::empty()
    } else {
        insert_by_rank(rank_order(ranks, (k - 1) as nat), ranks, (k - 1) as usize)
    }
}

/// Whether `order` lists each of the positions `0 .. k` exactly once.
pub open spec fn is_arrangement(order: Seq<usize>, k: nat) -> bool {
    &&& order.len() == k
    &&& order.no_duplicates()
    &&& forall|p: int| 0 <= p < order.len() ==> (#[trigger] order[p]) < k
    &&& forall|i: usize| i < k ==> order.contains(i)
}

/// Whether `order` ascends strictly in rank order.
pub open spec fn is_ranked(order: Seq<usize>, ranks: Seq<u16>) -> bool {
    forall|p: int, q: int| 0 <= p < q < order.len() ==> precedes(ranks, order[p], order[q])
}

proof fn lemma_insert_by_rank(order: Seq<usize>, ranks: Seq<u16>, i: usize)
    requires
        order.no_duplicates(),
        is_ranked(order, ranks),
        forall|p: int| 0 <= p < order.len() ==> (#[trigger] order[p]) < i,
        i < ranks.len(),
    ensures
        insert_by_rank(order, ranks, i).len() == order.len() + 1,
        insert_by_rank(order, ranks, i).no_duplicates(),
        is_ranked(insert_by_rank(order, ranks, i), ranks),
        forall|x: usize|
            (#[trigger] insert_by_rank(order, ranks, i).contains(x)) <==> (order.contains(x) || x
                == i),
    decreases order.len(),
{
    let out = insert_by_rank(order, ranks, i);
    if order.len() == 0 || ranks[order.last() as int] <= ranks[i as int] {
        assert(out == order.push(i));
        assert forall|x: usize| out.contains(x) <==> (order.contains(x) || x == i) by {
            if out.contains(x) {
                let p = choose|p: int| 0 <= p < out.len() && out[p] == x;
                if p < order.len() {
                    assert(order[p] == x);
                }
            }
            if order.contains(x) {
                let p = choose|p: int| 0 <= p < order.len() && order[p] == x;
                assert(out[p] == x);
            }
            if x == i {
                assert(out[order.len() as int] == x);
            }
        }
        assert forall|p: int, q: int| 0 <= p < q < out.len() implies precedes(
            ranks,
            out[p],
            out[q],
        ) by {
            if q == order.len() {
                let last = order.len() - 1;
                assert(order[p] < i);
                if p < last {
                    assert(precedes(ranks, order[p], order[last]));
                }
            }
        }
    } else {
        let front = order.drop_last();
        let last = order.last();
        assert forall|p: int, q: int| 0 <= p < q < front.len() implies precedes(
            ranks,
            front[p],
            front[q],
        ) by {
            assert(precedes(ranks, order[p], order[q]));
        }
        assert forall|p: int| 0 <= p < front.len() implies (#[trigger] front[p]) < i by {
            assert(order[p] < i);
        }
        lemma_insert_by_rank(front, ranks, i);
        let mid = insert_by_rank(front, ranks, i);
        assert(out == mid.push(last));
        assert(order[order.len() - 1] < i);
        assert forall|x: usize| out.contains(x) <==> (order.contains(x) || x == i) by {
            if out.contains(x) {
                let p = choose|p: int| 0 <= p < out.len() && out[p] == x;
                if p < mid.len() {
                    assert(mid[p] == x);
                    assert(mid.contains(x));
                    if front.contains(x) {
                        let q = choose|q: int| 0 <= q < front.len() && front[q] == x;
                        assert(order[q] == x);
                    }
                } else {
                    assert(order[order.len() - 1] == x);
                }
            }
            if order.contains(x) {
                let p = choose|p: int| 0 <= p < order.len() && order[p] == x;
                if p < front.len() {
                    assert(front[p] == x);
                    assert(front.contains(x));
                    assert(mid.contains(x));
                    let q = choose|q: int| 0 <= q < mid.len() && mid[q] == x;
                    assert(out[q] == x);
                } else {
                    assert(out[mid.len() as int] == x);
                }
            }
            if x == i {
                assert(mid.contains(x));
                let q = choose|q: int| 0 <= q < mid.len() && mid[q] == x;
                assert(out[q] == x);
            }
        }
        assert(!mid.contains(last)) by {
            if front.contains(last) {
                let q = choose|q: int| 0 <= q < front.len() && front[q] == last;
                assert(order[q] == order[order.len() - 1]);
            }
        }
        assert forall|p: int, q: int| 0 <= p < q < out.len() && out[p] == out[q] implies false by {
            if q < mid.len() {
                assert(mid[p] == mid[q]);
            } else {
                assert(mid[p] == last);
                assert(mid.contains(last));
            }
        }
        assert forall|p: int, q: int| 0 <= p < q < out.len() implies precedes(
            ranks,
            out[p],
            out[q],
        ) by {
            if q < mid.len() {
                assert(precedes(ranks, mid[p], mid[q]));
            } else {
                let x = mid[p];
                assert(mid.contains(x));
                if x != i {
                    assert(front.contains(x));
                    let r = choose|r: int| 0 <= r < front.len() && front[r] == x;
                    assert(precedes(ranks, order[r], order[order.len() - 1]));
                }
            }
        }
    }
}

/// The rank order of the positions `0 .. k` lists each of them exactly
/// once, by ascending rank, and positions of equal rank in ascending
/// order.
pub proof fn lemma_rank_order(ranks: Seq<u16>, k: nat)
    requires
        k <= ranks.len(),
        k <= usize::MAX,
    ensures
        is_arrangement(rank_order(ranks, k), k),
        is_ranked(rank_order(ranks, k), ranks),
    decreases k,
{
    if k > 0 {
        let before = rank_order(ranks, (k - 1) as nat);
        lemma_rank_order(ranks, (k - 1) as nat);
        lemma_insert_by_rank(before, ranks, (k - 1) as usize);
        let out = rank_order(ranks, k);
        assert forall|p: int| 0 <= p < out.len() implies (#[trigger] out[p]) < k by {
            assert(out.contains(out[p]));
            if before.contains(out[p]) {
                let q = choose|q: int| 0 <= q < before.len() && before[q] == out[p];
                assert(before[q] < k - 1);
            }
        }
        assert forall|i: usize| i < k implies out.contains(i) by {
            if i < k - 1 {
                assert(before.contains(i));
            }
        }
    }
}

/// Puts position `i` into `order`, which holds smaller positions in rank
/// order.
fn insert_position(order: &mut Vec<usize>, ranks: &Vec<u16>, i: usize)
    requires
        i < ranks.len(),
        forall|p: int| 0 <= p < old(order)@.len() ==> (#[trigger] old(order)@[p]) < ranks.len(),
    ensures
        final(order)@ == insert_by_rank(old(order)@, ranks@, i),
{
    let ghost start = order@;
    let mut p: usize = order.len();
    proof {
        assert(start.take(p as int) =~= start);
        assert(insert_by_rank(start, ranks@, i) + start.skip(p as int) =~= insert_by_rank(
            start,
            ranks@,
            i,
        ));
    }
    while p > 0 && ranks[order[p - 1]] > ranks[i]
        invariant
            p <= order.len(),
            i < ranks.len(),
            order@ == start,
            forall|q: int| 0 <= q < start.len() ==> (#[trigger] start[q]) < ranks.len(),
            insert_by_rank(start, ranks@, i) == insert_by_rank(start.take(p as int), ranks@, i)
                + start.skip(p as int),
        decreases p,
    {
        proof {
            let head = start.take(p as int);
            assert(head.last() == start[p - 1]);
            assert(head.drop_last() =~= start.take(p - 1));
            assert(insert_by_rank(head, ranks@, i) == insert_by_rank(
                start.take(p - 1),
                ranks@,
                i,
            ).push(start[p - 1]));
            assert(insert_by_rank(start.take(p - 1), ranks@, i).push(start[p - 1]) + start.skip(
                p as int,
            ) =~= insert_by_rank(start.take(p - 1), ranks@, i) + start.skip(p - 1));
        }
        p -= 1;
    }
    proof {
        let head = start.take(p as int);
        if p > 0 {
            assert(head.last() == start[p - 1]);
        }
        assert(insert_by_rank(head, ranks@, i) == head.push(i));
        assert(head.push(i) + start.skip(p as int) =~= start.insert(p as int, i));
    }
    order.insert(p, i);
}

/// The positions of `ranks` in rank order.
pub fn order_by_rank(ranks: &Vec<u16>) -> (order: Vec<usize>)
    ensures
        order@ == rank_order(ranks@, ranks@.len()),
{
    let mut order: Vec<usize> = Vec::new();
    let mut k: usize = 0;
    while k < ranks.len()
        invariant
            k <= ranks.len(),
            order@ == rank_order(ranks@, k as nat),
        decreases ranks.len() - k,
    {
        proof {
            lemma_rank_order(ranks@, k as nat);
        }
        insert_position(&mut order, ranks, k);
        k += 1;
    }
    order
}

} // verus!
