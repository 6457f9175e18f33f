//! Node lists as sets: ascending, each node once.

use vstd::prelude::*;
use crate::message::NID;

verus! {

/// Whether a list of nodes ascends strictly, so that it names each of its
/// nodes once.
pub open spec fn strictly_increasing(s: Seq<NID>) -> bool {
    forall|i: int, j: int| 0 <= i < j < s.len() ==> s[i] < s[j]
}

/// The nodes of `nodes`, ascending and each once.
pub fn node_set(nodes: &Vec<NID>) -> (out: Vec<NID>)
    ensures
        strictly_increasing(out@),
        out@.to_set() == nodes@.to_set(),
{
    let mut out: Vec<NID> = Vec::new();
    let mut i: usize = 0;
    while i < nodes.len()
        invariant
            i <= nodes.len(),
            strictly_increasing(out@),
            forall|v: NID| out@.contains(v) <==> nodes@.take(i as int).contains(v),
        decreases nodes.len() - i,
    {
        let x = nodes[i];
        let mut p: usize = 0;
        while p < out.len() && out[p] < x
            invariant
                p <= out.len(),
                strictly_increasing(out@),
                forall|q: int| 0 <= q < p ==> out@[q] < x,
            decreases out.len() - p,
        {
            p += 1;
        }
        let ghost before = out@;
        let ghost seen = nodes@.take(i as int);
        let ghost seen_next = nodes@.take(i + 1);
        if p == out.len() || out[p] != x {
            out.insert(p, x);
            proof {
                let after = out@;
                assert forall|a: int, b: int| 0 <= a < b < after.len() implies after[a]
                    < after[b] by {
                    if b < p {
                        assert(before[a] < before[b]);
                    } else if b == p {
                    } else if a < p {
                        assert(before[a] < before[b - 1]);
                    } else if a == p {
                        if b - 1 > p {
                            assert(before[p as int] < before[b - 1]);
                        }
                    } else {
                        assert(before[a - 1] < before[b - 1]);
                    }
                }
                assert forall|v: NID| after.contains(v) <==> seen_next.contains(v) by {
                    if after.contains(v) {
                        let q = choose|q: int| 0 <= q < after.len() && after[q] == v;
                        if q == p {
                            assert(seen_next[i as int] == v);
                        } else {
                            if q < p {
                                assert(before[q] == v);
                            } else {
                                assert(before[q - 1] == v);
                            }
                            assert(before.contains(v));
                            assert(seen.contains(v));
                            let r = choose|r: int| 0 <= r < seen.len() && seen[r] == v;
                            assert(seen_next[r] == v);
                        }
                    }
                    if seen_next.contains(v) {
                        let r = choose|r: int| 0 <= r < seen_next.len() && seen_next[r] == v;
                        if r == i {
                            assert(after[p as int] == v);
                        } else {
                            assert(seen[r] == v);
                            assert(seen.contains(v));
                            assert(before.contains(v));
                            let q = choose|q: int| 0 <= q < before.len() && before[q] == v;
                            if q < p {
                                assert(after[q] == v);
                            } else {
                                assert(after[q + 1] == v);
                            }
                        }
                    }
                }
            }
        } else {
            proof {
                assert forall|v: NID| before.contains(v) <==> seen_next.contains(v) by {
                    if before.contains(v) {
                        assert(seen.contains(v));
                        let r = choose|r: int| 0 <= r < seen.len() && seen[r] == v;
                        assert(seen_next[r] == v);
                    }
                    if seen_next.contains(v) {
                        let r = choose|r: int| 0 <= r < seen_next.len() && seen_next[r] == v;
                        if r == i {
                            assert(before[p as int] == v);
                        } else {
                            assert(seen[r] == v);
                            assert(seen.contains(v));
                        }
                    }
                }
            }
        }
        i += 1;
    }
    proof {
        assert(nodes@.take(i as int) =~= nodes@);
        assert(out@.to_set() =~= nodes@.to_set());
    }
    out
}

} // verus!
