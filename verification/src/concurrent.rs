//! The `scc` collections that the library keeps its state in.
//!
//! The collections are concurrent; the library holds each of them alone
//! and changes it through an exclusive reference, so that what a
//! collection holds changes only where a function here says so. What
//! each holds is named by a spec function, and each function here makes
//! one call into `scc` and says what the call does to that content.

use vstd::prelude::*;
use crate::message::NID;
use crate::texts::{append_text, copy_texts, texts};

verus! {

/// `scc::HashSet`, carried through as an opaque value.
#[verifier::external_type_specification]
#[verifier::external_body]
#[verifier::reject_recursive_types(K)]
#[verifier::reject_recursive_types(H)]
pub struct ExConcurrentHashSet<K, H: core::hash::BuildHasher>(scc::HashSet<K, H>);

/// The pairs that a set of pairs holds.
pub uninterp spec fn held_pairs(set: scc::HashSet<(NID, NID)>) -> Set<(NID, NID)>;

/// `scc::HashSet::new`: a set that holds nothing.
#[verifier::external_body]
pub(crate) fn pairs_new() -> (set: scc::HashSet<(NID, NID)>)
    ensures
        held_pairs(set) == Set::<(NID, NID)>::empty(),
{
    scc::HashSet::new()
}

/// `scc::HashSet::insert`: the set then holds the pair as well.
#[verifier::external_body]
pub(crate) fn pairs_insert(set: &mut scc::HashSet<(NID, NID)>, pair: (NID, NID))
    ensures
        held_pairs(*final(set)) == held_pairs(*old(set)).insert(pair),
{
    let _ = set.insert(pair);
}

/// `scc::HashSet::remove`: the set then holds the pair no more.
#[verifier::external_body]
pub(crate) fn pairs_remove(set: &mut scc::HashSet<(NID, NID)>, pair: (NID, NID))
    ensures
        held_pairs(*final(set)) == held_pairs(*old(set)).remove(pair),
{
    let _ = set.remove(&pair);
}

/// `scc::HashSet::contains`: whether the set holds the pair.
#[verifier::external_body]
pub(crate) fn pairs_contains(set: &scc::HashSet<(NID, NID)>, pair: (NID, NID)) -> (held: bool)
    ensures
        held == held_pairs(*set).contains(pair),
{
    set.contains(&pair)
}

/// `scc::HashMap`, carried through as an opaque value.
#[verifier::external_type_specification]
#[verifier::external_body]
#[verifier::reject_recursive_types(K)]
#[verifier::reject_recursive_types(V)]
#[verifier::reject_recursive_types(H)]
pub struct ExConcurrentHashMap<K, V, H: core::hash::BuildHasher>(scc::HashMap<K, V, H>);

/// The nodes that a set of nodes holds.
pub uninterp spec fn held_nodes(set: scc::HashSet<NID>) -> Set<NID>;

/// `scc::HashSet::new`: a set that holds nothing.
#[verifier::external_body]
pub(crate) fn nodes_new() -> (set: scc::HashSet<NID>)
    ensures
        held_nodes(set) == Set::<NID>::empty(),
{
    scc::HashSet::new()
}

/// `scc::HashSet::insert`: the set then holds the node as well.
#[verifier::external_body]
pub(crate) fn nodes_insert(set: &mut scc::HashSet<NID>, node: NID)
    ensures
        held_nodes(*final(set)) == held_nodes(*old(set)).insert(node),
{
    let _ = set.insert(node);
}

/// `scc::HashSet::remove`: the set then holds the node no more.
#[verifier::external_body]
pub(crate) fn nodes_remove(set: &mut scc::HashSet<NID>, node: NID)
    ensures
        held_nodes(*final(set)) == held_nodes(*old(set)).remove(node),
{
    let _ = set.remove(&node);
}

/// `scc::HashSet::is_empty`: whether the set holds nothing.
#[verifier::external_body]
pub(crate) fn nodes_is_empty(set: &scc::HashSet<NID>) -> (empty: bool)
    ensures
        empty == (held_nodes(*set) == Set::<NID>::empty()),
{
    set.is_empty()
}

/// The names that a set of names holds.
pub uninterp spec fn held_names(set: scc::HashSet<String>) -> Set<Seq<char>>;

/// The sequence of texts that a map holds under each of its names.
pub uninterp spec fn held_sequences(table: scc::HashMap<String, Vec<String>>) -> Map<
    Seq<char>,
    Seq<Seq<char>>,
>;

/// The map that holds no sequence.
pub open spec fn no_sequences() -> Map<Seq<char>, Seq<Seq<char>>> {
    Map::empty()
}

/// `scc::HashSet::new`: a set that holds nothing.
#[verifier::external_body]
pub(crate) fn names_new() -> (set: scc::HashSet<String>)
    ensures
        held_names(set) == Set::<Seq<char>>::empty(),
{
    scc::HashSet::new()
}

/// `scc::HashSet::insert`: the set then holds the name as well; `true`
/// where it did not hold it before.
#[verifier::external_body]
pub(crate) fn names_insert(set: &mut scc::HashSet<String>, name: String) -> (added: bool)
    ensures
        held_names(*final(set)) == held_names(*old(set)).insert(name@),
        added == !held_names(*old(set)).contains(name@),
{
    set.insert(name).is_ok()
}

/// `scc::HashSet::remove`: the set then holds the name no more.
#[verifier::external_body]
pub(crate) fn names_remove(set: &mut scc::HashSet<String>, name: &str)
    ensures
        held_names(*final(set)) == held_names(*old(set)).remove(name@),
{
    let _ = set.remove(name);
}

/// `scc::HashSet::contains`: whether the set holds the name.
#[verifier::external_body]
pub(crate) fn names_contains(set: &scc::HashSet<String>, name: &str) -> (held: bool)
    ensures
        held == held_names(*set).contains(name@),
{
    set.contains(name)
}

/// `scc::HashMap::new`: a map that holds nothing.
#[verifier::external_body]
pub(crate) fn sequences_new() -> (table: scc::HashMap<String, Vec<String>>)
    ensures
        held_sequences(table) == no_sequences(),
{
    scc::HashMap::new()
}

/// `scc::HashMap::insert`: where the map holds nothing under the name, it
/// then holds the sequence there; where it holds something, it stays as
/// it is.
#[verifier::external_body]
pub(crate) fn sequences_insert(
    table: &mut scc::HashMap<String, Vec<String>>,
    name: String,
    items: Vec<String>,
)
    ensures
        held_sequences(*final(table)) == if held_sequences(*old(table)).contains_key(name@) {
            held_sequences(*old(table))
        } else {
            held_sequences(*old(table)).insert(name@, texts(items@))
        },
{
    let _ = table.insert(name, items);
}

/// `scc::HashMap::remove`: the map then holds nothing under the name.
#[verifier::external_body]
pub(crate) fn sequences_remove(table: &mut scc::HashMap<String, Vec<String>>, name: &str)
    ensures
        held_sequences(*final(table)) == held_sequences(*old(table)).remove(name@),
{
    let _ = table.remove(name);
}

/// `scc::HashMap::read`, with a reader that copies: the sequence that the
/// map holds under the name, if any.
#[verifier::external_body]
pub(crate) fn sequences_read(
    table: &scc::HashMap<String, Vec<String>>,
    name: &str,
) -> (found: Option<Vec<String>>)
    ensures
        found.is_some() == held_sequences(*table).contains_key(name@),
        found matches Some(items) ==> texts(items@) == held_sequences(*table)[name@],
{
    table.read(name, |_, items| copy_texts(items))
}

/// `scc::HashMap::update`, with an updater that appends: where the map
/// holds a sequence under the name, that sequence is then longer by the
/// text, and the answer is `true`; where it holds none, it stays as it
/// is.
#[verifier::external_body]
pub(crate) fn sequences_append(
    table: &mut scc::HashMap<String, Vec<String>>,
    name: &str,
    item: String,
) -> (appended: bool)
    ensures
        appended == held_sequences(*old(table)).contains_key(name@),
        held_sequences(*final(table)) == if appended {
            held_sequences(*old(table)).insert(
                name@,
                held_sequences(*old(table))[name@].push(item@),
            )
        } else {
            held_sequences(*old(table))
        },
{
    table.update(name, |_, items| append_text(items, item)).is_some()
}

} // verus!
