//! What holds of the driver's shared state over its whole life.

use vstd::prelude::*;
use crate::fuzzy_command::FuzzyCommandView;
use crate::fuzzy_driver::{
    admitted,
    apply,
    assigns,
    delivers,
    ids_taken,
    released,
    run,
    DriverView,
    InnerView,
    Op,
    StepView,
};
use crate::message::NID;
use crate::partition_state::cross_pairs;

verus! {

/// While the sequence has not wrapped round, the ids taken count up from
/// where it stood.
proof fn lemma_ids_count_up(s: InnerView, ops: Seq<Op>)
    requires
        s.sequence + ops.len() <= u64::MAX,
    ensures
        ids_taken(s, ops).len() <= ops.len(),
        run(s, ops).sequence == s.sequence + ids_taken(s, ops).len(),
        forall|k: int|
            0 <= k < ids_taken(s, ops).len() ==> (#[trigger] ids_taken(s, ops)[k]) == s.sequence
                + k,
    decreases ops.len(),
{
    if ops.len() > 0 {
        lemma_ids_count_up(s, ops.drop_last());
    }
}

/// Sequence monotonicity: as long as the sequence does not wrap round,
/// the ids that a driver assigns, to generated events and to deliveries
/// alike, rise strictly from the first to the last, so that none comes
/// twice; they start where the sequence stood and end below where it
/// stands.
pub proof fn lemma_sequence_monotonic(s: InnerView, ops: Seq<Op>)
    requires
        s.sequence + ops.len() <= u64::MAX,
    ensures
        forall|i: int, j: int|
            0 <= i < j < ids_taken(s, ops).len() ==> ids_taken(s, ops)[i] < ids_taken(s, ops)[j],
        forall|k: int|
            0 <= k < ids_taken(s, ops).len() ==> s.sequence <= (#[trigger] ids_taken(s, ops)[k])
                < run(s, ops).sequence,
{
    lemma_ids_count_up(s, ops);
}

/// Events that are given ids take one id each, counting up from where
/// the sequence stood, as long as it does not wrap round.
pub proof fn lemma_events_take_consecutive_ids(s: InnerView, n: nat)
    requires
        s.sequence + n <= u64::MAX,
    ensures
        ids_taken(s, assigns(n)).len() == n,
        forall|k: int| 0 <= k < n ==> (#[trigger] ids_taken(s, assigns(n))[k]) == s.sequence + k,
        run(s, assigns(n)).sequence == s.sequence + n,
        run(s, assigns(n)).blocked == s.blocked,
    decreases n,
{
    if n > 0 {
        assert(assigns(n).drop_last() =~= assigns((n - 1) as nat));
        lemma_events_take_consecutive_ids(s, (n - 1) as nat);
    }
    lemma_ids_count_up(s, assigns(n));
}

/// Once the barrier is down it stays down: the driver lets every command
/// pass and holds none back.
pub proof fn lemma_barrier_stays_down(s: DriverView, c: FuzzyCommandView)
    requires
        s.active,
    ensures
        admitted(s, c) == s,
        released(s, c) == seq![c],
{
}

/// While the barrier is up, a command is released only together with
/// the barrier's fall, and then no node is awaited any more.
pub proof fn lemma_barrier_holds(s: DriverView, c: FuzzyCommandView)
    requires
        !s.active,
    ensures
        released(s, c).len() > 0 ==> admitted(s, c).active,
        admitted(s, c).active <==> admitted(s, c).awaited == Set::<crate::message::NID>::empty(),
        admitted(s, c).active ==> admitted(s, c).held_back.len() == 0,
        admitted(s, c).inner == s.inner,
{
}

/// Whether `op` reconnects `a` to `b`.
pub open spec fn reopens(op: Op, a: NID, b: NID) -> bool {
    op matches Op::Perform(_, StepView::Unblock(first, second)) && cross_pairs(
        first,
        second,
    ).contains((a, b))
}

/// Whether `op`, in the state `s`, lets a message from `a` to `b`
/// through, so that a delivery is recorded for it.
pub open spec fn lets_through(s: InnerView, op: Op, a: NID, b: NID) -> bool {
    op matches Op::Perform(_, StepView::Deliver(m)) && m.source == a && m.dest == b && delivers(
        s,
        StepView::Deliver(m),
    )
}

/// A pair that is cut off stays cut off until an operation reconnects
/// it, and no message passes from its first node to its second
/// meanwhile.
pub proof fn lemma_blocked_until_reopened(s: InnerView, ops: Seq<Op>, a: NID, b: NID)
    requires
        s.blocked.contains((a, b)),
        forall|k: int| 0 <= k < ops.len() ==> !reopens(#[trigger] ops[k], a, b),
    ensures
        run(s, ops).blocked.contains((a, b)),
        forall|k: int|
            0 <= k < ops.len() ==> !lets_through(run(s, ops.take(k)), #[trigger] ops[k], a, b),
    decreases ops.len(),
{
    if ops.len() > 0 {
        let earlier = ops.drop_last();
        assert forall|k: int| 0 <= k < earlier.len() implies !reopens(
            #[trigger] earlier[k],
            a,
            b,
        ) by {
            assert(earlier[k] == ops[k]);
        }
        lemma_blocked_until_reopened(s, earlier, a, b);
        assert(!reopens(ops[ops.len() - 1], a, b));
        assert forall|k: int| 0 <= k < ops.len() implies !lets_through(
            run(s, ops.take(k)),
            #[trigger] ops[k],
            a,
            b,
        ) by {
            if k < earlier.len() {
                assert(earlier.take(k) =~= ops.take(k));
                assert(earlier[k] == ops[k]);
            } else {
                assert(ops.take(k) =~= earlier);
            }
        }
    }
}

/// Partition enforcement: once a partition of `first` from `second` has
/// started, a pair `(a, b)` that it cuts off lets no message through,
/// whatever else is done, until an operation reconnects that pair.
pub proof fn lemma_partition_enforcement(
    s: InnerView,
    action_id: u64,
    first: Seq<NID>,
    second: Seq<NID>,
    ops: Seq<Op>,
    a: NID,
    b: NID,
)
    requires
        cross_pairs(first, second).contains((a, b)),
        forall|k: int| 0 <= k < ops.len() ==> !reopens(#[trigger] ops[k], a, b),
    ensures
        forall|k: int|
            0 <= k < ops.len() ==> !lets_through(
                run(apply(s, Op::Perform(action_id, StepView::Block(first, second))), ops.take(k)),
                #[trigger] ops[k],
                a,
                b,
            ),
{
    lemma_blocked_until_reopened(
        apply(s, Op::Perform(action_id, StepView::Block(first, second))),
        ops,
        a,
        b,
    );
}

} // verus!
