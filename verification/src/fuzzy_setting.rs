//! The configuration of the fault model: how often a fault is injected,
//! and the bounds within which its parameters are drawn.

use vstd::prelude::*;
use crate::message::NID;

verus! {

/// A probability with denominator 255.
///
/// A decision byte `b` is read as the fraction `b / 255` and passes the
/// ratio when that fraction lies strictly below it, that is when
/// `b < per_255`. `Ratio { per_255: 0 }` never passes and
/// `Ratio { per_255: 255 }` passes on every byte but 255.
#[derive(Clone, Copy, Debug, PartialEq, Eq, Structural)]
pub struct Ratio {
    pub per_255: u8,
}

impl Ratio {
    /// Whether the decision byte `b` lies below this ratio.
    pub open spec fn admits(self, b: u8) -> bool {
        b < self.per_255
    }

    /// The ratio `per_255 / 255`.
    pub fn new(per_255: u8) -> (r: Ratio)
        ensures
            r.per_255 == per_255,
    {
        Ratio { per_255 }
    }

    /// Compares the decision byte `b` with this ratio.
    pub fn passes(&self, b: u8) -> (yes: bool)
        ensures
            yes == self.admits(b),
    {
        b < self.per_255
    }
}

/// Ratios and bounds of the fault model.
#[derive(Debug)]
pub struct FuzzySetting {
    /// The possible (crash, restart) payload texts.
    pub crash_restart_payload: Vec<(String, String)>,
    /// Exclusive bound of the delay between a crash and its restart.
    pub restart_after_max_ms: u64,
    /// The nodes under test.
    pub node: Vec<NID>,
    /// Exclusive bound of the number of duplicates of one message.
    pub message_max_duplicated: u64,
    /// Exclusive bound of a message delay, in milliseconds.
    pub message_max_delay_ms: u64,
    pub crash_ratio: Ratio,
    pub network_partition_ratio: Ratio,
    /// Exclusive bound of the lifetime of a partition, in milliseconds.
    pub partition_end_after_max_ms: u64,
    pub message_delay_ratio: Ratio,
    pub message_repeat_ratio: Ratio,
    pub message_lost_ratio: Ratio,
}

/// What a [`FuzzySetting`] is, mathematically.
pub struct FuzzySettingView {
    pub crash_restart_payload: Seq<(Seq<char>, Seq<char>)>,
    pub restart_after_max_ms: u64,
    pub node: Seq<NID>,
    pub message_max_duplicated: u64,
    pub message_max_delay_ms: u64,
    pub crash_ratio: Ratio,
    pub network_partition_ratio: Ratio,
    pub partition_end_after_max_ms: u64,
    pub message_delay_ratio: Ratio,
    pub message_repeat_ratio: Ratio,
    pub message_lost_ratio: Ratio,
}

/// The texts of a list of payload pairs.
pub open spec fn payload_pairs(pairs: Seq<(String, String)>) -> Seq<(Seq<char>, Seq<char>)> {
    pairs.map_values(|p: (String, String)| (p.0@, p.1@))
}

impl View for FuzzySetting {
    type V = FuzzySettingView;

    open spec fn view(&self) -> FuzzySettingView {
        FuzzySettingView {
            crash_restart_payload: payload_pairs(self.crash_restart_payload@),
            restart_after_max_ms: self.restart_after_max_ms,
            node: self.node@,
            message_max_duplicated: self.message_max_duplicated,
            message_max_delay_ms: self.message_max_delay_ms,
            crash_ratio: self.crash_ratio,
            network_partition_ratio: self.network_partition_ratio,
            partition_end_after_max_ms: self.partition_end_after_max_ms,
            message_delay_ratio: self.message_delay_ratio,
            message_repeat_ratio: self.message_repeat_ratio,
            message_lost_ratio: self.message_lost_ratio,
        }
    }
}

/// A copy of a list of payload pairs.
fn clone_pairs(pairs: &Vec<(String, String)>) -> (copy: Vec<(String, String)>)
    ensures
        payload_pairs(copy@) == payload_pairs(pairs@),
{
    let mut copy: Vec<(String, String)> = Vec::new();
    let mut i: usize = 0;
    while i < pairs.len()
        invariant
            i <= pairs.len(),
            copy.len() == i,
            forall|k: int|
                0 <= k < i ==> copy@[k].0@ == pairs@[k].0@ && copy@[k].1@ == pairs@[k].1@,
        decreases pairs.len() - i,
    {
        copy.push((pairs[i].0.clone(), pairs[i].1.clone()));
        i += 1;
    }
    assert(payload_pairs(copy@) =~= payload_pairs(pairs@));
    copy
}

impl Clone for FuzzySetting {
    fn clone(&self) -> (s: FuzzySetting)
        ensures
            s@ == self@,
    {
        FuzzySetting {
            crash_restart_payload: clone_pairs(&self.crash_restart_payload),
            restart_after_max_ms: self.restart_after_max_ms,
            node: self.node.clone(),
            message_max_duplicated: self.message_max_duplicated,
            message_max_delay_ms: self.message_max_delay_ms,
            crash_ratio: self.crash_ratio,
            network_partition_ratio: self.network_partition_ratio,
            partition_end_after_max_ms: self.partition_end_after_max_ms,
            message_delay_ratio: self.message_delay_ratio,
            message_repeat_ratio: self.message_repeat_ratio,
            message_lost_ratio: self.message_lost_ratio,
        }
    }
}

} // verus!
