//! The pairs of nodes that are cut off from each other.
//!
//! A pair `(a, b)` in the state means that `a` cannot reach `b` at
//! present. Nothing is said of `(b, a)` by that: the state is directed.
//! The pairs are kept in an `scc::HashSet`.

use vstd::prelude::*;
use crate::concurrent::{held_pairs, pairs_contains, pairs_insert, pairs_new, pairs_remove};
use crate::message::NID;

verus! {

/// The pairs of nodes that cannot communicate at present.
pub struct PartitionState {
    pairs: scc::HashSet<(NID, NID)>,
}

impl View for PartitionState {
    type V = Set<(NID, NID)>;

    closed spec fn view(&self) -> Set<(NID, NID)> {
        held_pairs(self.pairs)
    }
}

/// The pairs `(a, b)` of a node `a` of `first` and another node `b` of
/// `second`.
pub open spec fn cross_pairs(first: Seq<NID>, second: Seq<NID>) -> Set<(NID, NID)> {
    Set::new(
        |pair: (NID, NID)| first.contains(pair.0) && second.contains(pair.1) && pair.0 != pair.1,
    )
}

impl PartitionState {
    /// A state in which every node reaches every other.
    pub fn new() -> (state: PartitionState)
        ensures
            state@ == Set::<(NID, NID)>::empty(),
    {
        PartitionState { pairs: pairs_new() }
    }

    /// Cuts `a` off from `b`.
    pub fn block(&mut self, a: NID, b: NID)
        ensures
            final(self)@ == old(self)@.insert((a, b)),
    {
        pairs_insert(&mut self.pairs, (a, b));
    }

    /// Lets `a` reach `b` again.
    pub fn unblock(&mut self, a: NID, b: NID)
        ensures
            final(self)@ == old(self)@.remove((a, b)),
    {
        pairs_remove(&mut self.pairs, (a, b));
    }

    /// Whether `a` is cut off from `b`.
    pub fn is_blocked(&self, a: NID, b: NID) -> (blocked: bool)
        ensures
            blocked == self@.contains((a, b)),
    {
        pairs_contains(&self.pairs, (a, b))
    }

    /// Whether `a` can reach `b`.
    pub fn can_connect(&self, a: NID, b: NID) -> (open: bool)
        ensures
            open == !self@.contains((a, b)),
    {
        !self.is_blocked(a, b)
    }

    /// Cuts every node of `first` off from every other node of `second`.
    pub fn partition_start(&mut self, first: &Vec<NID>, second: &Vec<NID>)
        ensures
            final(self)@ == old(self)@.union(cross_pairs(first@, second@)),
    {
        let ghost before = self@;
        let mut i: usize = 0;
        while i < first.len()
            invariant
                i <= first.len(),
                self@ == before.union(cross_pairs(first@.take(i as int), second@)),
            decreases first.len() - i,
        {
            let ghost row = self@;
            let mut j: usize = 0;
            while j < second.len()
                invariant
                    i < first.len(),
                    j <= second.len(),
                    self@ == row.union(cross_pairs(seq![first@[i as int]], second@.take(j as int))),
                decreases second.len() - j,
            {
                let ghost cell = self@;
                if first[i] != second[j] {
                    self.block(first[i], second[j]);
                }
                proof {
                    lemma_cross_pairs_next(seq![first@[i as int]], second@, j as int);
                    assert(self@ =~= row.union(
                        cross_pairs(seq![first@[i as int]], second@.take(j + 1)),
                    ));
                }
                j += 1;
            }
            proof {
                assert(second@.take(j as int) =~= second@);
                lemma_cross_pairs_row(first@, second@, i as int);
                assert(self@ =~= before.union(cross_pairs(first@.take(i + 1), second@)));
            }
            i += 1;
        }
        proof {
            assert(first@.take(i as int) =~= first@);
        }
    }

    /// Lets every node of `first` reach every other node of `second`
    /// again.
    pub fn partition_end(&mut self, first: &Vec<NID>, second: &Vec<NID>)
        ensures
            final(self)@ == old(self)@.difference(cross_pairs(first@, second@)),
    {
        let ghost before = self@;
        let mut i: usize = 0;
        while i < first.len()
            invariant
                i <= first.len(),
                self@ == before.difference(cross_pairs(first@.take(i as int), second@)),
            decreases first.len() - i,
        {
            let ghost row = self@;
            let mut j: usize = 0;
            while j < second.len()
                invariant
                    i < first.len(),
                    j <= second.len(),
                    self@ == row.difference(
                        cross_pairs(seq![first@[i as int]], second@.take(j as int)),
                    ),
                decreases second.len() - j,
            {
                if first[i] != second[j] {
                    self.unblock(first[i], second[j]);
                }
                proof {
                    lemma_cross_pairs_next(seq![first@[i as int]], second@, j as int);
                    assert(self@ =~= row.difference(
                        cross_pairs(seq![first@[i as int]], second@.take(j + 1)),
                    ));
                }
                j += 1;
            }
            proof {
                assert(second@.take(j as int) =~= second@);
                lemma_cross_pairs_row(first@, second@, i as int);
                assert(self@ =~= before.difference(cross_pairs(first@.take(i + 1), second@)));
            }
            i += 1;
        }
        proof {
            assert(first@.take(i as int) =~= first@);
        }
    }
}

/// Membership in a list that grows by one element.
proof fn lemma_take_next(s: Seq<NID>, k: int)
    requires
        0 <= k < s.len(),
    ensures
        forall|x: NID| s.take(k + 1).contains(x) <==> (s.take(k).contains(x) || x == s[k]),
{
    let short = s.take(k);
    let long = s.take(k + 1);
    assert forall|x: NID| long.contains(x) <==> (short.contains(x) || x == s[k]) by {
        if long.contains(x) {
            let p = choose|p: int| 0 <= p < long.len() && long[p] == x;
            if p < k {
                assert(short[p] == x);
            }
        }
        if short.contains(x) {
            let p = choose|p: int| 0 <= p < short.len() && short[p] == x;
            assert(long[p] == x);
        }
        if x == s[k] {
            assert(long[k] == x);
        }
    }
}

proof fn lemma_cross_pairs_next(first: Seq<NID>, second: Seq<NID>, j: int)
    requires
        0 <= j < second.len(),
        first.len() == 1,
    ensures
        cross_pairs(first, second.take(j + 1)) == if first[0] != second[j] {
            cross_pairs(first, second.take(j)).insert((first[0], second[j]))
        } else {
            cross_pairs(first, second.take(j))
        },
{
    lemma_take_next(second, j);
    assert(first.contains(first[0]));
    let grown = if first[0] != second[j] {
        cross_pairs(first, second.take(j)).insert((first[0], second[j]))
    } else {
        cross_pairs(first, second.take(j))
    };
    assert forall|pair: (NID, NID)|
        cross_pairs(first, second.take(j + 1)).contains(pair) <==> grown.contains(pair) by {
        assert(pair == (pair.0, pair.1));
        assert(second.take(j + 1).contains(pair.1) <==> (second.take(j).contains(pair.1) || pair.1
            == second[j]));
        if first.contains(pair.0) {
            let p = choose|p: int| 0 <= p < first.len() && first[p] == pair.0;
            assert(pair.0 == first[0]);
        }
    }
    assert(cross_pairs(first, second.take(j + 1)) =~= grown);
}

proof fn lemma_cross_pairs_row(first: Seq<NID>, second: Seq<NID>, i: int)
    requires
        0 <= i < first.len(),
    ensures
        cross_pairs(first.take(i + 1), second) == cross_pairs(first.take(i), second).union(
            cross_pairs(seq![first[i]], second),
        ),
{
    lemma_take_next(first, i);
    let one = seq![first[i]];
    assert(one[0] == first[i]);
    assert forall|pair: (NID, NID)|
        cross_pairs(first.take(i + 1), second).contains(pair) <==> cross_pairs(
            first.take(i),
            second,
        ).union(cross_pairs(one, second)).contains(pair) by {
        if one.contains(pair.0) {
            let p = choose|p: int| 0 <= p < one.len() && one[p] == pair.0;
        }
        if pair.0 == first[i] {
            assert(one.contains(pair.0));
        }
    }
    assert(cross_pairs(first.take(i + 1), second) =~= cross_pairs(first.take(i), second).union(
        cross_pairs(one, second),
    ));
}

} // verus!
