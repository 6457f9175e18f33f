//! What holds of every run of the event generator.

use vstd::prelude::*;
use crate::entropy::{after_draw, can_draw, drawn};
use crate::event_gen::{
    asked_size,
    base_stage,
    bounded,
    crash_enabled,
    crash_stage,
    follows,
    group,
    lemma_rank_draws_len,
    message_stage,
    outcome,
    partition_stage,
    rank_draws,
    repeat_stage,
    repeats,
    sequel,
    EventGenView,
    Outcome,
};
use crate::fuzzy_event::{event_views, FuzzyEvent, FuzzyEventView};
use crate::fuzzy_setting::FuzzySettingView;
use crate::message::{MessageView, NID};
use crate::node_set::strictly_increasing;
use crate::rank_order::{is_arrangement, lemma_rank_order, rank_order};

verus! {

/// Whether `p` holds of each of the events.
pub open spec fn all_events(
    events: Seq<FuzzyEventView>,
    p: spec_fn(FuzzyEventView) -> bool,
) -> bool {
    forall|k: int| 0 <= k < events.len() ==> p(#[trigger] events[k])
}

/// Whether the delay of a `Delay` event lies under the bound: below it,
/// or 0 where the bound is 0. Other events pass.
pub open spec fn delay_within(e: FuzzyEventView, bound: u64) -> bool {
    e matches FuzzyEventView::Delay(ms, _) ==> (if bound == 0 {
        ms == 0
    } else {
        ms < bound
    })
}

/// Whether a `Crash` or `Restart` event is one that the settings allow:
/// there is a payload pair to take, and the restart comes within the
/// bound. Other events pass.
pub open spec fn crash_allowed(e: FuzzyEventView, s: FuzzySettingView) -> bool {
    &&& e is Crash ==> crash_enabled(s)
    &&& e matches FuzzyEventView::Restart(ms, _) ==> crash_enabled(s) && ms
        < s.restart_after_max_ms
}

/// Whether two groups split the nodes: none is empty, no node is in both,
/// and every node is in one of them.
pub open spec fn is_split(first: Seq<NID>, second: Seq<NID>, nodes: Seq<NID>) -> bool {
    &&& first.len() > 0
    &&& second.len() > 0
    &&& first.len() + second.len() == nodes.len()
    &&& first.to_set().disjoint(second.to_set())
    &&& first.to_set().union(second.to_set()) == nodes.to_set()
}

/// Whether a partition event splits the nodes, and a recovery comes
/// within the bound. Other events pass.
pub open spec fn partition_sound(e: FuzzyEventView, nodes: Seq<NID>, s: FuzzySettingView) -> bool {
    &&& e matches FuzzyEventView::PartitionStart(first, second) ==> is_split(first, second, nodes)
    &&& e matches FuzzyEventView::PartitionRecovery(ms, first, second) ==> is_split(
        first,
        second,
        nodes,
    ) && ms < s.partition_end_after_max_ms
}

/// The number of `Delay` events among the events.
pub open spec fn delay_count(events: Seq<FuzzyEventView>) -> nat
    decreases events.len(),
{
    if events.len() == 0 {
        0
    } else {
        delay_count(events.drop_last()) + if events.last() is Delay {
            1nat
        } else {
            0nat
        }
    }
}

proof fn lemma_bounded(n: nat, bound: u64)
    ensures
        bound > 0 ==> bounded(n, bound) < bound,
        bound == 0 ==> bounded(n, bound) == 0,
{
    if bound > 0 {
        assert(0 <= n % (bound as nat) < bound) by (nonlinear_arith)
            requires
                bound > 0,
        ;
    }
}

proof fn lemma_sequel_all(first: Outcome, next: Outcome, p: spec_fn(FuzzyEventView) -> bool)
    requires
        all_events(first.events, p),
        all_events(next.events, p),
    ensures
        all_events(sequel(first, next).events, p),
{
    let joined = sequel(first, next).events;
    assert forall|k: int| 0 <= k < joined.len() implies p(#[trigger] joined[k]) by {
        if first.complete {
            if k < first.events.len() {
                assert(joined[k] == first.events[k]);
            } else {
                assert(joined[k] == next.events[k - first.events.len()]);
            }
        }
    }
}

proof fn lemma_repeats_all(
    m: MessageView,
    s: FuzzySettingView,
    bytes: Seq<u8>,
    count: nat,
    p: spec_fn(FuzzyEventView) -> bool,
)
    requires
        forall|n: nat| p(#[trigger] crate::event_gen::delayed(m, s, n)),
    ensures
        all_events(repeats(m, s, bytes, count).events, p),
        repeats(m, s, bytes, count).events.len() <= count,
        delay_count(repeats(m, s, bytes, count).events) <= count,
    decreases count,
{
    if count > 0 && can_draw(bytes, 8) {
        let head = crate::event_gen::settled(
            seq![crate::event_gen::delayed(m, s, drawn(bytes, 8))],
            after_draw(bytes, 8),
        );
        let tail = repeats(m, s, after_draw(bytes, 8), (count - 1) as nat);
        lemma_repeats_all(m, s, after_draw(bytes, 8), (count - 1) as nat, p);
        assert(all_events(head.events, p));
        lemma_sequel_all(head, tail, p);
        lemma_delay_count_add(head.events, tail.events);
        lemma_delay_count_one(head.events[0]);
        assert(head.events =~= seq![head.events[0]]);
    } else {
        assert(delay_count(repeats(m, s, bytes, count).events) == 0);
    }
}

proof fn lemma_delay_count_one(e: FuzzyEventView)
    ensures
        delay_count(seq![e]) == if e is Delay {
            1nat
        } else {
            0nat
        },
{
    assert(seq![e].drop_last() =~= Seq::<FuzzyEventView>::empty());
    assert(delay_count(seq![e].drop_last()) == 0);
    assert(seq![e].last() == e);
}

proof fn lemma_delay_count_add(a: Seq<FuzzyEventView>, b: Seq<FuzzyEventView>)
    ensures
        delay_count(a + b) == delay_count(a) + delay_count(b),
    decreases b.len(),
{
    if b.len() == 0 {
        assert(a + b =~= a);
    } else {
        assert((a + b).drop_last() =~= a + b.drop_last());
        assert((a + b).last() == b.last());
        lemma_delay_count_add(a, b.drop_last());
    }
}

proof fn lemma_delay_count_sequel(first: Outcome, next: Outcome)
    ensures
        delay_count(sequel(first, next).events) <= delay_count(first.events) + delay_count(
            next.events,
        ),
{
    if first.complete {
        lemma_delay_count_add(first.events, next.events);
    }
}

proof fn lemma_delay_count_two(a: FuzzyEventView, b: FuzzyEventView)
    requires
        !(a is Delay),
        !(b is Delay),
    ensures
        delay_count(seq![a, b]) == 0,
{
    assert(seq![a, b] =~= seq![a] + seq![b]);
    lemma_delay_count_add(seq![a], seq![b]);
    lemma_delay_count_one(a);
    lemma_delay_count_one(b);
}

/// Whether `p` holds of every event that any of the four decisions of a
/// run can yield.
pub open spec fn holds_of_each_decision(
    g: EventGenView,
    m: MessageView,
    p: spec_fn(FuzzyEventView) -> bool,
) -> bool {
    &&& forall|bytes: Seq<u8>| all_events(#[trigger] base_stage(m, g.setting, bytes).events, p)
    &&& forall|bytes: Seq<u8>| all_events(#[trigger] repeat_stage(m, g.setting, bytes).events, p)
    &&& forall|bytes: Seq<u8>|
        all_events(#[trigger] crash_stage(m.dest, g.setting, bytes).events, p)
    &&& forall|bytes: Seq<u8>|
        all_events(#[trigger] partition_stage(g.nodes, g.setting, bytes).events, p)
}

proof fn lemma_outcome_all(
    g: EventGenView,
    m: MessageView,
    bytes: Seq<u8>,
    p: spec_fn(FuzzyEventView) -> bool,
)
    requires
        holds_of_each_decision(g, m, p),
    ensures
        all_events(outcome(g, m, bytes).events, p),
{
    let base = base_stage(m, g.setting, bytes);
    let again = repeat_stage(m, g.setting, base.rest);
    lemma_sequel_all(base, again, p);
    let first = message_stage(m, g.setting, bytes);
    let crash = crash_stage(m.dest, g.setting, first.rest);
    lemma_sequel_all(first, crash, p);
    let second = sequel(first, crash);
    lemma_sequel_all(second, partition_stage(g.nodes, g.setting, second.rest), p);
}

/// Determinism: two runs on the same generator, message and bytes that
/// begin with the same events end with the same events, the same bytes
/// left and the same answer.
pub proof fn lemma_generation_is_deterministic(
    g: EventGenView,
    m: MessageView,
    bytes: Seq<u8>,
    before_one: Seq<FuzzyEvent>,
    after_one: Seq<FuzzyEvent>,
    rest_one: Seq<u8>,
    complete_one: bool,
    before_two: Seq<FuzzyEvent>,
    after_two: Seq<FuzzyEvent>,
    rest_two: Seq<u8>,
    complete_two: bool,
)
    requires
        follows(outcome(g, m, bytes), before_one, after_one, rest_one, complete_one),
        follows(outcome(g, m, bytes), before_two, after_two, rest_two, complete_two),
        event_views(before_one) == event_views(before_two),
    ensures
        event_views(after_one) == event_views(after_two),
        rest_one == rest_two,
        complete_one == complete_two,
{
}

/// One base delivery: a run whose first decision was served begins with
/// exactly one delivery of the message, delayed or not, before anything
/// else.
pub proof fn lemma_one_base_delivery(g: EventGenView, m: MessageView, bytes: Seq<u8>)
    requires
        base_stage(m, g.setting, bytes).complete,
    ensures
        base_stage(m, g.setting, bytes).events.len() == 1,
        outcome(g, m, bytes).events.len() >= 1,
        outcome(g, m, bytes).events[0] == base_stage(m, g.setting, bytes).events[0],
        outcome(g, m, bytes).events[0] matches FuzzyEventView::Delay(_, delivered) && delivered
            == m,
{
}

/// Delay bound: every `Delay` event of a run has a delay below
/// `message_max_delay_ms`, or of 0 where that bound is 0.
pub proof fn lemma_delay_bound(g: EventGenView, m: MessageView, bytes: Seq<u8>)
    ensures
        all_events(
            outcome(g, m, bytes).events,
            |e: FuzzyEventView| delay_within(e, g.setting.message_max_delay_ms),
        ),
{
    let s = g.setting;
    let p = |e: FuzzyEventView| delay_within(e, s.message_max_delay_ms);
    assert forall|n: nat| p(#[trigger] crate::event_gen::delayed(m, s, n)) by {
        lemma_bounded(n, s.message_max_delay_ms);
    }
    assert forall|b: Seq<u8>| all_events(#[trigger] base_stage(m, s, b).events, p) by {
        lemma_bounded(drawn(after_draw(b, 1), 8), s.message_max_delay_ms);
    }
    assert forall|b: Seq<u8>| all_events(#[trigger] repeat_stage(m, s, b).events, p) by {
        lemma_repeats_all(
            m,
            s,
            after_draw(after_draw(b, 1), 8),
            bounded(drawn(after_draw(b, 1), 8), s.message_max_duplicated) as nat,
            p,
        );
    }
    lemma_outcome_all(g, m, bytes, p);
}

/// Repeat bound: the repeat decision yields fewer than
/// `message_max_duplicated` events, none where that bound is 0, and a
/// whole run yields at most one `Delay` event more than that.
pub proof fn lemma_repeat_bound(g: EventGenView, m: MessageView, bytes: Seq<u8>)
    ensures
        g.setting.message_max_duplicated == 0 ==> repeat_stage(m, g.setting, bytes).events.len()
            == 0 && delay_count(outcome(g, m, bytes).events) <= 1,
        g.setting.message_max_duplicated > 0 ==> repeat_stage(m, g.setting, bytes).events.len()
            < g.setting.message_max_duplicated && delay_count(outcome(g, m, bytes).events)
            <= g.setting.message_max_duplicated,
{
    let s = g.setting;
    let always = |e: FuzzyEventView| true;
    assert forall|b: Seq<u8>|
        (#[trigger] repeat_stage(m, s, b)).events.len() <= bounded(
            drawn(after_draw(b, 1), 8),
            s.message_max_duplicated,
        ) && delay_count(repeat_stage(m, s, b).events) <= bounded(
            drawn(after_draw(b, 1), 8),
            s.message_max_duplicated,
        ) by {
        lemma_repeats_all(
            m,
            s,
            after_draw(after_draw(b, 1), 8),
            bounded(drawn(after_draw(b, 1), 8), s.message_max_duplicated) as nat,
            always,
        );
        assert(delay_count(Seq::<FuzzyEventView>::empty()) == 0);
    }
    let limit = if s.message_max_duplicated == 0 {
        1
    } else {
        s.message_max_duplicated
    };
    assert forall|b: Seq<u8>| #![auto] bounded(drawn(b, 8), s.message_max_duplicated) < limit by {
        lemma_bounded(drawn(b, 8), s.message_max_duplicated);
    }
    let base = base_stage(m, s, bytes);
    let again = repeat_stage(m, s, base.rest);
    let first = message_stage(m, s, bytes);
    let crash = crash_stage(m.dest, s, first.rest);
    let second = sequel(first, crash);
    let part = partition_stage(g.nodes, s, second.rest);
    assert(delay_count(base.events) <= 1) by {
        if base.events.len() > 0 {
            assert(base.events =~= seq![base.events[0]]);
            lemma_delay_count_one(base.events[0]);
        }
    }
    assert(delay_count(crash.events) == 0) by {
        if crash.events.len() > 0 {
            assert(crash.events =~= seq![crash.events[0], crash.events[1]]);
            lemma_delay_count_two(crash.events[0], crash.events[1]);
        }
    }
    assert(delay_count(part.events) == 0) by {
        if part.events.len() > 0 {
            assert(part.events =~= seq![part.events[0], part.events[1]]);
            lemma_delay_count_two(part.events[0], part.events[1]);
        }
    }
    lemma_delay_count_sequel(base, again);
    lemma_delay_count_sequel(first, crash);
    lemma_delay_count_sequel(second, part);
}

/// Crash gating: a run yields a `Crash` or a `Restart` event only where
/// `crash_restart_payload` is not empty and `restart_after_max_ms` is
/// above 0, and every restart comes within that bound.
pub proof fn lemma_crash_gating(g: EventGenView, m: MessageView, bytes: Seq<u8>)
    ensures
        all_events(outcome(g, m, bytes).events, |e: FuzzyEventView| crash_allowed(e, g.setting)),
{
    let s = g.setting;
    let p = |e: FuzzyEventView| crash_allowed(e, s);
    assert forall|n: nat| p(#[trigger] crate::event_gen::delayed(m, s, n)) by {}
    assert forall|b: Seq<u8>| all_events(#[trigger] repeat_stage(m, s, b).events, p) by {
        lemma_repeats_all(
            m,
            s,
            after_draw(after_draw(b, 1), 8),
            bounded(drawn(after_draw(b, 1), 8), s.message_max_duplicated) as nat,
            p,
        );
    }
    assert forall|b: Seq<u8>| all_events(#[trigger] crash_stage(m.dest, s, b).events, p) by {
        lemma_bounded(drawn(after_draw(after_draw(b, 1), 4), 8), s.restart_after_max_ms);
    }
    lemma_outcome_all(g, m, bytes, p);
}

/// The two groups that a partition decision forms split the nodes.
proof fn lemma_groups_split(nodes: Seq<NID>, order: Seq<usize>, size: int)
    requires
        strictly_increasing(nodes),
        nodes.len() <= usize::MAX,
        is_arrangement(order, nodes.len()),
        0 < size < nodes.len(),
    ensures
        is_split(
            group(nodes, order, 0, size),
            group(nodes, order, size, nodes.len() as int),
            nodes,
        ),
{
    let first = group(nodes, order, 0, size);
    let second = group(nodes, order, size, nodes.len() as int);
    assert forall|x: NID| !(first.to_set().contains(x) && second.to_set().contains(x)) by {
        if first.contains(x) && second.contains(x) {
            let i = choose|i: int| 0 <= i < first.len() && first[i] == x;
            let j = choose|j: int| 0 <= j < second.len() && second[j] == x;
            let a = order[i];
            let b = order[size + j];
            assert(nodes[a as int] == nodes[b as int]);
            if a < b {
                assert(nodes[a as int] < nodes[b as int]);
            } else if b < a {
                assert(nodes[b as int] < nodes[a as int]);
            }
            assert(order[i] == order[size + j]);
        }
    }
    assert forall|x: NID|
        first.to_set().union(second.to_set()).contains(x) <==> nodes.to_set().contains(x) by {
        if first.contains(x) {
            let i = choose|i: int| 0 <= i < first.len() && first[i] == x;
            assert(nodes[order[i] as int] == x);
        }
        if second.contains(x) {
            let j = choose|j: int| 0 <= j < second.len() && second[j] == x;
            assert(nodes[order[size + j] as int] == x);
        }
        if nodes.contains(x) {
            let k = choose|k: int| 0 <= k < nodes.len() && nodes[k] == x;
            assert(order.contains(k as usize));
            let p = choose|p: int| 0 <= p < order.len() && order[p] == k as usize;
            if p < size {
                assert(first[p] == x);
            } else {
                assert(second[p - size] == x);
            }
        }
    }
    assert(first.to_set().union(second.to_set()) =~= nodes.to_set());
}

/// Partition completeness: where the nodes of the generator ascend
/// strictly, as those of every [`crate::event_gen::EventGen`] do, and
/// are no more than a list can hold, the two groups of every partition
/// event of a run are not empty, share no node and hold all the nodes
/// together, and every recovery comes within
/// `partition_end_after_max_ms`.
pub proof fn lemma_partition_completeness(g: EventGenView, m: MessageView, bytes: Seq<u8>)
    requires
        strictly_increasing(g.nodes),
        g.nodes.len() <= usize::MAX,
    ensures
        all_events(
            outcome(g, m, bytes).events,
            |e: FuzzyEventView| partition_sound(e, g.nodes, g.setting),
        ),
{
    let s = g.setting;
    let nodes = g.nodes;
    let p = |e: FuzzyEventView| partition_sound(e, nodes, s);
    assert forall|n: nat| p(#[trigger] crate::event_gen::delayed(m, s, n)) by {}
    assert forall|b: Seq<u8>| all_events(#[trigger] repeat_stage(m, s, b).events, p) by {
        lemma_repeats_all(
            m,
            s,
            after_draw(after_draw(b, 1), 8),
            bounded(drawn(after_draw(b, 1), 8), s.message_max_duplicated) as nat,
            p,
        );
    }
    assert forall|b: Seq<u8>| all_events(#[trigger] partition_stage(nodes, s, b).events, p) by {
        let stage = partition_stage(nodes, s, b);
        if stage.events.len() > 0 {
            let b1 = after_draw(b, 1);
            let b2 = after_draw(b1, 8);
            let b3 = after_draw(b2, 8);
            let size = asked_size(drawn(b1, 8), nodes);
            let draws = rank_draws(b3, nodes.len());
            lemma_rank_draws_len(b3, nodes.len());
            lemma_rank_order(draws.ranks, nodes.len());
            lemma_groups_split(nodes, rank_order(draws.ranks, nodes.len()), size as int);
            lemma_bounded(drawn(b2, 8), s.partition_end_after_max_ms);
        }
    }
    lemma_outcome_all(g, m, bytes, p);
}

/// Whether `rest` is what is left of `bytes` after some of its first
/// bytes were taken.
pub open spec fn is_rest_of(rest: Seq<u8>, bytes: Seq<u8>) -> bool {
    rest.len() <= bytes.len() && rest == bytes.skip(bytes.len() - rest.len())
}

proof fn lemma_rest_of_rest(a: Seq<u8>, b: Seq<u8>, c: Seq<u8>)
    requires
        is_rest_of(a, b),
        is_rest_of(b, c),
    ensures
        is_rest_of(a, c),
{
    assert(a =~= c.skip(c.len() - a.len()));
}

proof fn lemma_rest_after_draw(bytes: Seq<u8>, width: nat)
    requires
        can_draw(bytes, width),
    ensures
        is_rest_of(after_draw(bytes, width), bytes),
        is_rest_of(bytes, bytes),
{
    assert(bytes =~= bytes.skip(0));
}

proof fn lemma_rest_after_sequel(first: Outcome, next: Outcome, bytes: Seq<u8>)
    requires
        is_rest_of(first.rest, bytes),
        is_rest_of(next.rest, first.rest),
    ensures
        is_rest_of(sequel(first, next).rest, bytes),
{
    lemma_rest_of_rest(next.rest, first.rest, bytes);
}

proof fn lemma_rest_after_repeats(m: MessageView, s: FuzzySettingView, bytes: Seq<u8>, count: nat)
    ensures
        is_rest_of(repeats(m, s, bytes, count).rest, bytes),
    decreases count,
{
    assert(bytes =~= bytes.skip(0));
    if count > 0 && can_draw(bytes, 8) {
        lemma_rest_after_repeats(m, s, after_draw(bytes, 8), (count - 1) as nat);
        lemma_rest_after_draw(bytes, 8);
        lemma_rest_of_rest(
            repeats(m, s, after_draw(bytes, 8), (count - 1) as nat).rest,
            after_draw(bytes, 8),
            bytes,
        );
    }
}

proof fn lemma_rest_after_ranks(bytes: Seq<u8>, count: nat)
    ensures
        is_rest_of(rank_draws(bytes, count).rest, bytes),
    decreases count,
{
    assert(bytes =~= bytes.skip(0));
    if count > 0 && can_draw(bytes, 2) {
        lemma_rest_after_ranks(after_draw(bytes, 2), (count - 1) as nat);
        lemma_rest_after_draw(bytes, 2);
        lemma_rest_of_rest(
            rank_draws(after_draw(bytes, 2), (count - 1) as nat).rest,
            after_draw(bytes, 2),
            bytes,
        );
    }
}

proof fn lemma_rest_after_base(m: MessageView, s: FuzzySettingView, bytes: Seq<u8>)
    ensures
        is_rest_of(base_stage(m, s, bytes).rest, bytes),
{
    assert(bytes =~= bytes.skip(0));
    if can_draw(bytes, 1) {
        let b1 = after_draw(bytes, 1);
        lemma_rest_after_draw(bytes, 1);
        if can_draw(b1, 8) {
            lemma_rest_after_draw(b1, 8);
            lemma_rest_of_rest(after_draw(b1, 8), b1, bytes);
        }
    }
}

proof fn lemma_rest_after_repeat_stage(m: MessageView, s: FuzzySettingView, bytes: Seq<u8>)
    ensures
        is_rest_of(repeat_stage(m, s, bytes).rest, bytes),
{
    assert(bytes =~= bytes.skip(0));
    if can_draw(bytes, 1) {
        let b1 = after_draw(bytes, 1);
        lemma_rest_after_draw(bytes, 1);
        if can_draw(b1, 8) {
            let b2 = after_draw(b1, 8);
            let count = bounded(drawn(b1, 8), s.message_max_duplicated) as nat;
            lemma_rest_after_draw(b1, 8);
            lemma_rest_of_rest(b2, b1, bytes);
            lemma_rest_after_repeats(m, s, b2, count);
            lemma_rest_of_rest(repeats(m, s, b2, count).rest, b2, bytes);
        }
    }
}

proof fn lemma_rest_after_crash(node: NID, s: FuzzySettingView, bytes: Seq<u8>)
    ensures
        is_rest_of(crash_stage(node, s, bytes).rest, bytes),
{
    assert(bytes =~= bytes.skip(0));
    if can_draw(bytes, 1) {
        let b1 = after_draw(bytes, 1);
        lemma_rest_after_draw(bytes, 1);
        if can_draw(b1, 4) {
            let b2 = after_draw(b1, 4);
            lemma_rest_after_draw(b1, 4);
            lemma_rest_of_rest(b2, b1, bytes);
            if can_draw(b2, 8) {
                lemma_rest_after_draw(b2, 8);
                lemma_rest_of_rest(after_draw(b2, 8), b2, bytes);
            }
        }
    }
}

proof fn lemma_rest_after_partition(nodes: Seq<NID>, s: FuzzySettingView, bytes: Seq<u8>)
    ensures
        is_rest_of(partition_stage(nodes, s, bytes).rest, bytes),
{
    assert(bytes =~= bytes.skip(0));
    if can_draw(bytes, 1) {
        let b1 = after_draw(bytes, 1);
        lemma_rest_after_draw(bytes, 1);
        if can_draw(b1, 8) {
            let b2 = after_draw(b1, 8);
            lemma_rest_after_draw(b1, 8);
            lemma_rest_of_rest(b2, b1, bytes);
            if can_draw(b2, 8) {
                let b3 = after_draw(b2, 8);
                lemma_rest_after_draw(b2, 8);
                lemma_rest_of_rest(b3, b2, bytes);
                lemma_rest_after_ranks(b3, nodes.len());
                lemma_rest_of_rest(rank_draws(b3, nodes.len()).rest, b3, bytes);
            }
        }
    }
}

/// A run takes its bytes from the front of the cursor, each once: what
/// it leaves is the end of what it found.
pub proof fn lemma_bytes_are_taken_in_order(g: EventGenView, m: MessageView, bytes: Seq<u8>)
    ensures
        is_rest_of(outcome(g, m, bytes).rest, bytes),
{
    let s = g.setting;
    let base = base_stage(m, s, bytes);
    let again = repeat_stage(m, s, base.rest);
    lemma_rest_after_base(m, s, bytes);
    lemma_rest_after_repeat_stage(m, s, base.rest);
    lemma_rest_after_sequel(base, again, bytes);
    let first = message_stage(m, s, bytes);
    let crash = crash_stage(m.dest, s, first.rest);
    lemma_rest_after_crash(m.dest, s, first.rest);
    lemma_rest_after_sequel(first, crash, bytes);
    let second = sequel(first, crash);
    let part = partition_stage(g.nodes, s, second.rest);
    lemma_rest_after_partition(g.nodes, s, second.rest);
    lemma_rest_after_sequel(second, part, bytes);
}

} // verus!
