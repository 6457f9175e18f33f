//! The event generator: from one message and a byte cursor to the fault
//! events decided for it.
//!
//! Generation runs four decisions in a fixed order (base delivery,
//! repeats, crash, partition), each drawing from the cursor. What it
//! yields is the spec function [`outcome`] of the generator, the message
//! and the bytes: the same inputs give the same events. When the cursor
//! cannot serve a draw, generation stops there and keeps the events
//! decided so far.

use vstd::prelude::*;
use crate::entropy::{
    after_draw,
    can_draw,
    cursor_len,
    cursor_over,
    draw_u16,
    draw_u32,
    draw_u64,
    draw_u8,
    drawn,
    left_by_draw,
    lemma_drawn_one,
    remaining,
};
use crate::fuzzy_event::{event_views, lemma_event_views_push, FuzzyEvent, FuzzyEventView};
use crate::fuzzy_setting::{FuzzySetting, FuzzySettingView};
use crate::generator_laws::lemma_bytes_are_taken_in_order;
use crate::message::{Message, MessageView, NID};
use crate::node_set::{node_set, strictly_increasing};
use crate::rank_order::{lemma_rank_order, order_by_rank, rank_order};

verus! {

/// What a run of the generator, or of one of its decisions, yields.
pub struct Outcome {
    /// The events decided, in order.
    pub events: Seq<FuzzyEventView>,
    /// The bytes left in the cursor.
    pub rest: Seq<u8>,
    /// Whether every draw was served. If not, generation stopped early.
    pub complete: bool,
}

/// A decision that could not draw: nothing decided, `rest` left.
pub open spec fn stopped(rest: Seq<u8>) -> Outcome {
    Outcome { events: Seq::empty(), rest, complete: false }
}

/// A decision that ran to its end.
pub open spec fn settled(events: Seq<FuzzyEventView>, rest: Seq<u8>) -> Outcome {
    Outcome { events, rest, complete: true }
}

/// `first`, followed by `next` where `first` ran to its end. `next` is
/// the outcome of the following decision on the bytes that `first` left.
pub open spec fn sequel(first: Outcome, next: Outcome) -> Outcome {
    if first.complete {
        Outcome { events: first.events + next.events, rest: next.rest, complete: next.complete }
    } else {
        first
    }
}

/// The drawn number `n` brought under an exclusive bound; 0 where the
/// bound is 0.
pub open spec fn bounded(n: nat, bound: u64) -> u64 {
    if bound == 0 {
        0
    } else {
        (n % (bound as nat)) as u64
    }
}

/// The delivery of `m` after a delay taken from the drawn number `n`.
pub open spec fn delayed(m: MessageView, s: FuzzySettingView, n: nat) -> FuzzyEventView {
    FuzzyEventView::Delay(bounded(n, s.message_max_delay_ms), m)
}

/// The base delivery: one byte decides whether the message is delayed,
/// and a delayed message draws its delay. Either way one event.
pub open spec fn base_stage(m: MessageView, s: FuzzySettingView, bytes: Seq<u8>) -> Outcome {
    if !can_draw(bytes, 1) {
        stopped(bytes)
    } else if !s.message_delay_ratio.admits(bytes[0]) {
        settled(seq![FuzzyEventView::Delay(0, m)], after_draw(bytes, 1))
    } else if !can_draw(after_draw(bytes, 1), 8) {
        stopped(after_draw(bytes, 1))
    } else {
        settled(
            seq![delayed(m, s, drawn(after_draw(bytes, 1), 8))],
            after_draw(after_draw(bytes, 1), 8),
        )
    }
}

/// `count` further deliveries of `m`, each with a delay of its own.
pub open spec fn repeats(m: MessageView, s: FuzzySettingView, bytes: Seq<u8>, count: nat) -> Outcome
    decreases count,
{
    if count == 0 {
        settled(Seq::empty(), bytes)
    } else if !can_draw(bytes, 8) {
        stopped(bytes)
    } else {
        sequel(
            settled(seq![delayed(m, s, drawn(bytes, 8))], after_draw(bytes, 8)),
            repeats(m, s, after_draw(bytes, 8), (count - 1) as nat),
        )
    }
}

/// The repeat decision: one byte decides whether the message is
/// repeated, and a repeated message draws how often.
pub open spec fn repeat_stage(m: MessageView, s: FuzzySettingView, bytes: Seq<u8>) -> Outcome {
    if !can_draw(bytes, 1) {
        stopped(bytes)
    } else if !s.message_repeat_ratio.admits(bytes[0]) {
        settled(Seq::empty(), after_draw(bytes, 1))
    } else if !can_draw(after_draw(bytes, 1), 8) {
        stopped(after_draw(bytes, 1))
    } else {
        repeats(
            m,
            s,
            after_draw(after_draw(bytes, 1), 8),
            bounded(drawn(after_draw(bytes, 1), 8), s.message_max_duplicated) as nat,
        )
    }
}

/// The base delivery, then the repeats.
pub open spec fn message_stage(m: MessageView, s: FuzzySettingView, bytes: Seq<u8>) -> Outcome {
    sequel(base_stage(m, s, bytes), repeat_stage(m, s, base_stage(m, s, bytes).rest))
}

/// A message with the given payload that `node` sends to itself.
pub open spec fn self_addressed(payload: Seq<char>, node: NID) -> MessageView {
    MessageView { payload, source: node, dest: node }
}

/// Whether the settings allow a crash to be injected at all.
pub open spec fn crash_enabled(s: FuzzySettingView) -> bool {
    s.crash_restart_payload.len() > 0 && s.restart_after_max_ms > 0
}

/// The crash decision for `node`: one byte decides whether the node
/// crashes; then a payload pair and the time until the restart are drawn.
pub open spec fn crash_stage(node: NID, s: FuzzySettingView, bytes: Seq<u8>) -> Outcome {
    let b1 = after_draw(bytes, 1);
    let b2 = after_draw(b1, 4);
    if !can_draw(bytes, 1) {
        stopped(bytes)
    } else if !s.crash_ratio.admits(bytes[0]) || !crash_enabled(s) {
        settled(Seq::empty(), b1)
    } else if !can_draw(b1, 4) {
        stopped(b1)
    } else if !can_draw(b2, 8) {
        stopped(b2)
    } else {
        let pair = s.crash_restart_payload[(drawn(b1, 4) % s.crash_restart_payload.len()) as int];
        settled(
            seq![
                FuzzyEventView::Crash(self_addressed(pair.0, node)),
                FuzzyEventView::Restart(
                    bounded(drawn(b2, 8), s.restart_after_max_ms),
                    self_addressed(pair.1, node),
                ),
            ],
            after_draw(b2, 8),
        )
    }
}

/// The ranks drawn for a partition.
pub struct RankDraws {
    /// The ranks that were drawn, in the order of the draws.
    pub ranks: Seq<u16>,
    /// The bytes left in the cursor.
    pub rest: Seq<u8>,
    /// Whether all of the ranks could be drawn.
    pub complete: bool,
}

/// `count` ranks drawn one after the other.
pub open spec fn rank_draws(bytes: Seq<u8>, count: nat) -> RankDraws
    decreases count,
{
    if count == 0 {
        RankDraws { ranks: Seq::empty(), rest: bytes, complete: true }
    } else if !can_draw(bytes, 2) {
        RankDraws { ranks: Seq::empty(), rest: bytes, complete: false }
    } else {
        let tail = rank_draws(after_draw(bytes, 2), (count - 1) as nat);
        RankDraws {
            ranks: seq![drawn(bytes, 2) as u16] + tail.ranks,
            rest: tail.rest,
            complete: tail.complete,
        }
    }
}

/// The nodes at the positions `order[from] .. order[to]`.
pub open spec fn group(nodes: Seq<NID>, order: Seq<usize>, from: int, to: int) -> Seq<NID> {
    Seq::new((to - from) as nat, |j: int| nodes[order[from + j] as int])
}

/// Whether the settings and the node list allow a partition at all.
pub open spec fn partition_enabled(nodes: Seq<NID>, s: FuzzySettingView) -> bool {
    nodes.len() > 1 && s.partition_end_after_max_ms > 0
}

/// The size of the first group that the drawn number `n` asks for.
pub open spec fn asked_size(n: nat, nodes: Seq<NID>) -> nat {
    n % nodes.len() + 1
}

/// The partition decision: one byte decides whether the network is
/// partitioned; then the size of the first group, the time until the
/// recovery and one rank for each node are drawn. The first group holds
/// the nodes that come first in rank order, the second group the others.
pub open spec fn partition_stage(nodes: Seq<NID>, s: FuzzySettingView, bytes: Seq<u8>) -> Outcome {
    let b1 = after_draw(bytes, 1);
    let b2 = after_draw(b1, 8);
    let b3 = after_draw(b2, 8);
    let size = asked_size(drawn(b1, 8), nodes);
    let draws = rank_draws(b3, nodes.len());
    let order = rank_order(draws.ranks, nodes.len());
    let first = group(nodes, order, 0, size as int);
    let second = group(nodes, order, size as int, nodes.len() as int);
    if !can_draw(bytes, 1) {
        stopped(bytes)
    } else if !s.network_partition_ratio.admits(bytes[0]) || !partition_enabled(nodes, s) {
        settled(Seq::empty(), b1)
    } else if !can_draw(b1, 8) {
        stopped(b1)
    } else if size >= nodes.len() {
        settled(Seq::empty(), b2)
    } else if !can_draw(b2, 8) {
        stopped(b2)
    } else if !draws.complete {
        stopped(draws.rest)
    } else {
        settled(
            seq![
                FuzzyEventView::PartitionStart(first, second),
                FuzzyEventView::PartitionRecovery(
                    bounded(drawn(b2, 8), s.partition_end_after_max_ms),
                    first,
                    second,
                ),
            ],
            draws.rest,
        )
    }
}

/// What an [`EventGen`] is, mathematically.
pub struct EventGenView {
    /// The nodes under test, ascending.
    pub nodes: Seq<NID>,
    pub setting: FuzzySettingView,
}

/// What the generator `g` yields for the message `m` on the bytes
/// `bytes`: the message decisions, then the crash decision for the
/// receiver of `m`, then the partition decision.
pub open spec fn outcome(g: EventGenView, m: MessageView, bytes: Seq<u8>) -> Outcome {
    let first = message_stage(m, g.setting, bytes);
    let second = sequel(first, crash_stage(m.dest, g.setting, first.rest));
    sequel(second, partition_stage(g.nodes, g.setting, second.rest))
}

/// Whether a run that began with the events `before` ended with the
/// events `after`, the bytes `rest` and the answer `complete` as the
/// outcome `o` says.
pub open spec fn follows(
    o: Outcome,
    before: Seq<FuzzyEvent>,
    after: Seq<FuzzyEvent>,
    rest: Seq<u8>,
    complete: bool,
) -> bool {
    &&& event_views(after) == event_views(before) + o.events
    &&& rest == o.rest
    &&& complete == o.complete
}

/// Draws a delay for `m`.
fn delayed_message(m: &Message, setting: &FuzzySetting, u: &mut arbitrary::Unstructured) -> (r:
    Option<FuzzyEvent>)
    ensures
        r.is_some() == can_draw(remaining(*old(u)), 8),
        r matches Some(e) ==> e@ == delayed(m@, setting@, drawn(remaining(*old(u)), 8)),
        remaining(*final(u)) == left_by_draw(remaining(*old(u)), 8),
{
    match draw_u64(u) {
        None => None,
        Some(n) => {
            let ms: u64 = if setting.message_max_delay_ms == 0 {
                0
            } else {
                n % setting.message_max_delay_ms
            };
            Some(FuzzyEvent::Delay(ms, m.clone()))
        },
    }
}

/// Decides whether `m` is delayed, and by how much.
fn base_delivery(
    m: &Message,
    setting: &FuzzySetting,
    u: &mut arbitrary::Unstructured,
    output: &mut Vec<FuzzyEvent>,
) -> (complete: bool)
    ensures
        follows(
            base_stage(m@, setting@, remaining(*old(u))),
            old(output)@,
            final(output)@,
            remaining(*final(u)),
            complete,
        ),
{
    let ghost bytes = remaining(*u);
    let ghost before = output@;
    let ghost base = base_stage(m@, setting@, bytes);
    proof {
        lemma_nothing_added(before);
    }
    let is_delayed = match draw_u8(u) {
        None => {
            return false;
        },
        Some(b) => {
            proof {
                lemma_drawn_one(bytes);
            }
            setting.message_delay_ratio.passes(b)
        },
    };
    let e = if is_delayed {
        match delayed_message(m, setting, u) {
            None => {
                return false;
            },
            Some(e) => e,
        }
    } else {
        FuzzyEvent::Delay(0, m.clone())
    };
    proof {
        lemma_event_views_push(before, e);
        assert(event_views(before).push(e@) =~= event_views(before) + base.events);
    }
    output.push(e);
    true
}

/// Delivers `m` another `count` times, each time with a delay of its own.
fn repeat_deliveries(
    m: &Message,
    setting: &FuzzySetting,
    u: &mut arbitrary::Unstructured,
    output: &mut Vec<FuzzyEvent>,
    count: u64,
) -> (complete: bool)
    ensures
        follows(
            repeats(m@, setting@, remaining(*old(u)), count as nat),
            old(output)@,
            final(output)@,
            remaining(*final(u)),
            complete,
        ),
{
    let ghost before = output@;
    let ghost all = repeats(m@, setting@, remaining(*u), count as nat);
    let mut i: u64 = 0;
    while i < count
        invariant
            i <= count,
            before == old(output)@,
            all == repeats(m@, setting@, remaining(*old(u)), count as nat),
            event_views(output@) + repeats(
                m@,
                setting@,
                remaining(*u),
                (count - i) as nat,
            ).events == event_views(before) + all.events,
            repeats(m@, setting@, remaining(*u), (count - i) as nat).rest == all.rest,
            repeats(m@, setting@, remaining(*u), (count - i) as nat).complete == all.complete,
        decreases count - i,
    {
        let ghost now = remaining(*u);
        let ghost so_far = output@;
        let ghost tail = repeats(m@, setting@, after_draw(now, 8), (count - i - 1) as nat);
        match delayed_message(m, setting, u) {
            None => {
                proof {
                    lemma_nothing_added(so_far);
                }
                return false;
            },
            Some(e) => {
                proof {
                    lemma_event_views_push(so_far, e);
                    assert(event_views(so_far).push(e@) + tail.events =~= event_views(so_far)
                        + (seq![e@] + tail.events));
                }
                output.push(e);
            },
        }
        i += 1;
    }
    proof {
        lemma_nothing_added(output@);
    }
    true
}

/// Decides whether `m` is delivered again, and how often.
fn repeated_message(
    m: &Message,
    setting: &FuzzySetting,
    u: &mut arbitrary::Unstructured,
    output: &mut Vec<FuzzyEvent>,
) -> (complete: bool)
    ensures
        follows(
            repeat_stage(m@, setting@, remaining(*old(u))),
            old(output)@,
            final(output)@,
            remaining(*final(u)),
            complete,
        ),
{
    let ghost bytes = remaining(*u);
    proof {
        lemma_nothing_added(output@);
    }
    let is_repeated = match draw_u8(u) {
        None => {
            return false;
        },
        Some(b) => {
            proof {
                lemma_drawn_one(bytes);
            }
            setting.message_repeat_ratio.passes(b)
        },
    };
    if !is_repeated {
        return true;
    }
    let count: u64 = match draw_u64(u) {
        None => {
            return false;
        },
        Some(n) => {
            if setting.message_max_duplicated == 0 {
                0
            } else {
                n % setting.message_max_duplicated
            }
        },
    };
    repeat_deliveries(m, setting, u, output, count)
}

/// Decides how `m` is delivered: once, delayed or not, and then possibly
/// again.
fn fuzz_message_event(
    m: &Message,
    setting: &FuzzySetting,
    u: &mut arbitrary::Unstructured,
    output: &mut Vec<FuzzyEvent>,
) -> (complete: bool)
    ensures
        follows(
            message_stage(m@, setting@, remaining(*old(u))),
            old(output)@,
            final(output)@,
            remaining(*final(u)),
            complete,
        ),
{
    let ghost before = output@;
    let ghost base = base_stage(m@, setting@, remaining(*u));
    if !base_delivery(m, setting, u, output) {
        return false;
    }
    let ghost based = output@;
    let complete = repeated_message(m, setting, u, output);
    proof {
        lemma_follows_sequel(
            base,
            repeat_stage(m@, setting@, base.rest),
            before,
            based,
            output@,
            remaining(*u),
            complete,
        );
    }
    complete
}

/// Adding no event leaves the events as they are.
proof fn lemma_nothing_added(events: Seq<FuzzyEvent>)
    ensures
        event_views(events) + Seq::<FuzzyEventView>::empty() == event_views(events),
{
    assert(event_views(events) + Seq::<FuzzyEventView>::empty() =~= event_views(events));
}

/// A run that follows `first` to its end and then `next` follows their
/// sequel.
proof fn lemma_follows_sequel(
    first: Outcome,
    next: Outcome,
    before: Seq<FuzzyEvent>,
    between: Seq<FuzzyEvent>,
    after: Seq<FuzzyEvent>,
    rest: Seq<u8>,
    complete: bool,
)
    requires
        follows(first, before, between, first.rest, true),
        follows(next, between, after, rest, complete),
    ensures
        follows(sequel(first, next), before, after, rest, complete),
{
    assert(event_views(before) + first.events + next.events =~= event_views(before) + (first.events
        + next.events));
}

/// Decides whether `node` crashes, and with which payloads and how long.
fn fuzz_crash(
    node: NID,
    setting: &FuzzySetting,
    u: &mut arbitrary::Unstructured,
    output: &mut Vec<FuzzyEvent>,
) -> (complete: bool)
    ensures
        follows(
            crash_stage(node, setting@, remaining(*old(u))),
            old(output)@,
            final(output)@,
            remaining(*final(u)),
            complete,
        ),
{
    let ghost bytes = remaining(*u);
    let ghost before = output@;
    let ghost stage = crash_stage(node, setting@, bytes);
    proof {
        lemma_nothing_added(before);
    }
    let is_crash = match draw_u8(u) {
        None => {
            return false;
        },
        Some(b) => {
            proof {
                lemma_drawn_one(bytes);
            }
            setting.crash_ratio.passes(b)
        },
    };
    if !is_crash || setting.crash_restart_payload.len() == 0 || setting.restart_after_max_ms == 0 {
        return true;
    }
    let index: usize = match draw_u32(u) {
        None => {
            return false;
        },
        Some(n) => n as usize % setting.crash_restart_payload.len(),
    };
    let ms: u64 = match draw_u64(u) {
        None => {
            return false;
        },
        Some(n) => n % setting.restart_after_max_ms,
    };
    let pair = &setting.crash_restart_payload[index];
    let crash = FuzzyEvent::Crash(Message::new(pair.0.clone(), node, node));
    let restart = FuzzyEvent::Restart(ms, Message::new(pair.1.clone(), node, node));
    proof {
        let listed = setting@.crash_restart_payload[index as int];
        assert(listed == (pair.0@, pair.1@));
        lemma_event_views_push(before, crash);
        lemma_event_views_push(before.push(crash), restart);
        assert(event_views(before).push(crash@).push(restart@) =~= event_views(before)
            + stage.events);
    }
    output.push(crash);
    output.push(restart);
    true
}

/// Draws one rank for each of `count` nodes, or stops where the cursor
/// cannot serve a draw.
fn draw_ranks(u: &mut arbitrary::Unstructured, count: usize) -> (r: Option<Vec<u16>>)
    ensures
        r.is_some() == rank_draws(remaining(*old(u)), count as nat).complete,
        r matches Some(ranks) ==> ranks@ == rank_draws(remaining(*old(u)), count as nat).ranks,
        remaining(*final(u)) == rank_draws(remaining(*old(u)), count as nat).rest,
{
    let ghost all = rank_draws(remaining(*u), count as nat);
    let mut ranks: Vec<u16> = Vec::new();
    let mut k: usize = 0;
    while k < count
        invariant
            k <= count,
            all == rank_draws(remaining(*old(u)), count as nat),
            ranks@ + rank_draws(remaining(*u), (count - k) as nat).ranks == all.ranks,
            rank_draws(remaining(*u), (count - k) as nat).rest == all.rest,
            rank_draws(remaining(*u), (count - k) as nat).complete == all.complete,
        decreases count - k,
    {
        let ghost now = remaining(*u);
        let ghost tail = rank_draws(after_draw(now, 2), (count - k - 1) as nat);
        match draw_u16(u) {
            None => {
                return None;
            },
            Some(rank) => {
                proof {
                    assert(ranks@.push(rank) + tail.ranks =~= ranks@ + (seq![rank] + tail.ranks));
                }
                ranks.push(rank);
            },
        }
        k += 1;
    }
    proof {
        assert(ranks@ + Seq::<u16>::empty() =~= ranks@);
    }
    Some(ranks)
}

/// The nodes at the positions `order[from] .. order[to]`.
fn nodes_at(nodes: &Vec<NID>, order: &Vec<usize>, from: usize, to: usize) -> (picked: Vec<NID>)
    requires
        from <= to <= order.len(),
        forall|p: int| 0 <= p < order.len() ==> (#[trigger] order@[p]) < nodes.len(),
    ensures
        picked@ == group(nodes@, order@, from as int, to as int),
{
    let mut picked: Vec<NID> = Vec::new();
    let mut k: usize = from;
    while k < to
        invariant
            from <= k <= to <= order.len(),
            forall|p: int| 0 <= p < order.len() ==> (#[trigger] order@[p]) < nodes.len(),
            picked@ == group(nodes@, order@, from as int, k as int),
        decreases to - k,
    {
        picked.push(nodes[order[k]]);
        proof {
            assert(picked@ =~= group(nodes@, order@, from as int, k + 1));
        }
        k += 1;
    }
    picked
}

/// Decides whether the network is partitioned, into which two groups and
/// for how long.
fn fuzz_partition(
    nodes: &Vec<NID>,
    setting: &FuzzySetting,
    u: &mut arbitrary::Unstructured,
    output: &mut Vec<FuzzyEvent>,
) -> (complete: bool)
    ensures
        follows(
            partition_stage(nodes@, setting@, remaining(*old(u))),
            old(output)@,
            final(output)@,
            remaining(*final(u)),
            complete,
        ),
{
    let ghost bytes = remaining(*u);
    let ghost before = output@;
    let ghost stage = partition_stage(nodes@, setting@, bytes);
    proof {
        lemma_nothing_added(before);
    }
    let partition = match draw_u8(u) {
        None => {
            return false;
        },
        Some(b) => {
            proof {
                lemma_drawn_one(bytes);
            }
            setting.network_partition_ratio.passes(b)
        },
    };
    if !partition || nodes.len() <= 1 || setting.partition_end_after_max_ms == 0 {
        return true;
    }
    let size: usize = match draw_u64(u) {
        None => {
            return false;
        },
        Some(n) => (n % (nodes.len() as u64)) as usize + 1,
    };
    if size >= nodes.len() {
        return true;
    }
    let ms: u64 = match draw_u64(u) {
        None => {
            return false;
        },
        Some(n) => n % setting.partition_end_after_max_ms,
    };
    let ranks = match draw_ranks(u, nodes.len()) {
        None => {
            return false;
        },
        Some(ranks) => ranks,
    };
    proof {
        lemma_rank_draws_len(after_draw(after_draw(after_draw(bytes, 1), 8), 8), nodes@.len());
        lemma_rank_order(ranks@, ranks@.len());
    }
    let order = order_by_rank(&ranks);
    let first = nodes_at(nodes, &order, 0, size);
    let second = nodes_at(nodes, &order, size, nodes.len());
    let start = FuzzyEvent::PartitionStart(first.clone(), second.clone());
    let recovery = FuzzyEvent::PartitionRecovery(ms, first, second);
    proof {
        lemma_event_views_push(before, start);
        lemma_event_views_push(before.push(start), recovery);
        assert(event_views(before).push(start@).push(recovery@) =~= event_views(before)
            + stage.events);
    }
    output.push(start);
    output.push(recovery);
    true
}

/// Ranks that were all drawn are as many as were asked for.
pub proof fn lemma_rank_draws_len(bytes: Seq<u8>, count: nat)
    ensures
        rank_draws(bytes, count).complete ==> rank_draws(bytes, count).ranks.len() == count,
    decreases count,
{
    if count > 0 && can_draw(bytes, 2) {
        lemma_rank_draws_len(after_draw(bytes, 2), (count - 1) as nat);
    }
}

/// What a run of the generator over a byte string yielded.
#[derive(Debug)]
pub struct Generated {
    /// The events decided, in order.
    pub events: Vec<FuzzyEvent>,
    /// The number of bytes that the run took from the front of the
    /// string.
    pub consumed: usize,
    /// Whether the string served every draw.
    pub complete: bool,
}

/// The event generator: the nodes under test and the settings of the
/// fault model.
#[derive(Debug)]
pub struct EventGen {
    nodes: Vec<NID>,
    setting: FuzzySetting,
}

impl View for EventGen {
    type V = EventGenView;

    closed spec fn view(&self) -> EventGenView {
        EventGenView { nodes: self.nodes@, setting: self.setting@ }
    }
}

impl EventGen {
    #[verifier::type_invariant]
    spec fn nodes_ascend(self) -> bool {
        strictly_increasing(self.nodes@)
    }

    /// A generator for the given nodes. The nodes are kept as a set:
    /// ascending, each once.
    pub fn new(nodes: Vec<NID>, setting: FuzzySetting) -> (g: EventGen)
        ensures
            strictly_increasing(g@.nodes),
            g@.nodes.to_set() == nodes@.to_set(),
            g@.setting == setting@,
    {
        EventGen { nodes: node_set(&nodes), setting }
    }

    /// Decides the fate of `message`: appends the events decided to `vec`
    /// and says whether the cursor served every draw. Where it did not,
    /// generation stopped at that draw.
    pub fn fuzz_message(
        &self,
        message: &Message,
        u: &mut arbitrary::Unstructured,
        vec: &mut Vec<FuzzyEvent>,
    ) -> (complete: bool)
        ensures
            follows(
                outcome(self@, message@, remaining(*old(u))),
                old(vec)@,
                final(vec)@,
                remaining(*final(u)),
                complete,
            ),
            strictly_increasing(self@.nodes),
    {
        proof {
            use_type_invariant(self);
        }
        let ghost before = vec@;
        let ghost first = message_stage(message@, self.setting@, remaining(*u));
        if !fuzz_message_event(message, &self.setting, u, vec) {
            return false;
        }
        let ghost one = vec@;
        let ghost crash = crash_stage(message@.dest, self.setting@, first.rest);
        let crashed = fuzz_crash(message.dest(), &self.setting, u, vec);
        proof {
            lemma_follows_sequel(first, crash, before, one, vec@, remaining(*u), crashed);
        }
        if !crashed {
            return false;
        }
        let ghost two = vec@;
        let ghost second = sequel(first, crash);
        let parted = fuzz_partition(&self.nodes, &self.setting, u, vec);
        proof {
            lemma_follows_sequel(
                second,
                partition_stage(self.nodes@, self.setting@, second.rest),
                before,
                two,
                vec@,
                remaining(*u),
                parted,
            );
        }
        parted
    }

    /// Decides the fate of `message` on the bytes `data`, from their
    /// front.
    pub fn generate(&self, message: &Message, data: &[u8]) -> (g: Generated)
        ensures
            event_views(g.events@) == outcome(self@, message@, data@).events,
            g.consumed + outcome(self@, message@, data@).rest.len() == data@.len(),
            g.complete == outcome(self@, message@, data@).complete,
    {
        let mut u = cursor_over(data);
        let mut events: Vec<FuzzyEvent> = Vec::new();
        proof {
            let o = outcome(self@, message@, data@);
            lemma_bytes_are_taken_in_order(self@, message@, data@);
            assert(event_views(events@) + o.events =~= o.events);
        }
        let complete = self.fuzz_message(message, &mut u, &mut events);
        let consumed = data.len() - cursor_len(&u);
        Generated { events, consumed, complete }
    }
}

impl Clone for EventGen {
    fn clone(&self) -> (g: EventGen)
        ensures
            g@ == self@,
    {
        proof {
            use_type_invariant(self);
        }
        let nodes = self.nodes.clone();
        assert(nodes@ == self.nodes@);
        EventGen { nodes, setting: self.setting.clone() }
    }
}

} // verus!
