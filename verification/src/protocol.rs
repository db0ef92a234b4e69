//! The protocol between the application thread and the engine thread.
//!
//! Input travels in two ways. High-frequency samples go through a ring that
//! may drop or overwrite them. Control events, which mark semantic boundaries
//! such as the begin and end of a stroke, must be delivered reliably.
//!
//! Feedback frames go through a mailbox: a frame that has not been read yet is
//! merged with the next one.
use std::collections::HashMap;
use std::hash::Hash;
use vstd::prelude::*;

use crate::scalar::FloatBits;

verus! {

broadcast use vstd::std_specs::hash::group_hash_axioms;

/// One sample of the input ring. Samples of one `epoch` share the same
/// semantic state, which can only change between epochs.
#[derive(Debug, Clone, Copy, PartialEq)]
pub struct InputRingSample {
    pub epoch: u32,
    pub cursor_x: FloatBits,
    pub cursor_y: FloatBits,
    pub pressure: FloatBits,
    pub tilt: FloatBits,
    pub twist: FloatBits,
}

#[derive(Debug, Clone, Copy, PartialEq, Eq, Structural)]
pub enum InputControlEvent {
    Notify,
}

#[derive(Debug, Clone, Copy, PartialEq, Eq, PartialOrd, Ord, Structural)]
pub struct PresentFrameId(pub u64);

#[derive(Debug, Clone, Copy, PartialEq, Eq, PartialOrd, Ord, Structural)]
pub struct SubmitWaterline(pub u64);

#[derive(Debug, Clone, Copy, PartialEq, Eq, PartialOrd, Ord, Structural)]
pub struct ExecutedBatchWaterline(pub u64);

#[derive(Debug, Clone, Copy, PartialEq, Eq, PartialOrd, Ord, Structural)]
pub struct CompleteWaterline(pub u64);

#[derive(Debug, Clone, PartialEq, Eq)]
pub enum GpuCmdMsg<Command> {
    Command(Command),
}

/// What the engine tells the application about one frame. The receipts and
/// errors are increments that must not get lost: they are not contiguous, so
/// that no waterline can stand for them.
#[derive(Debug, Clone, PartialEq, Eq)]
pub struct GpuFeedbackFrame<Receipt, Error> {
    pub present_frame_id: PresentFrameId,
    pub submit_waterline: SubmitWaterline,
    pub executed_batch_waterline: ExecutedBatchWaterline,
    pub complete_waterline: CompleteWaterline,
    pub receipts: Vec<Receipt>,
    pub errors: Vec<Error>,
}

/// How a vector of increments takes in a later one.
///
/// The spec functions say what an implementation stands for. One that is written
/// in ordinary Rust leaves them as they are.
pub trait MergeVec: Sized {
    /// The two can be merged.
    closed spec fn can_merge(current: Seq<Self>, incoming: Seq<Self>) -> bool {
        arbitrary()
    }

    /// The result of merging them.
    closed spec fn merged(current: Seq<Self>, incoming: Seq<Self>) -> Seq<Self> {
        arbitrary()
    }

    fn merge_vec(current: &mut Vec<Self>, incoming: Vec<Self>)
        requires
            Self::can_merge(old(current)@, incoming@),
        ensures
            final(current)@ == Self::merged(old(current)@, incoming@),
    ;
}

/// An increment that is identified by a key. Increments with the same key are
/// reconciled when they are merged.
///
/// The spec functions say what an implementation stands for. One that is written
/// in ordinary Rust leaves them as they are.
pub trait MergeItem: Sized {
    type MergeKey: Eq + Hash;

    /// The key, which is the same for one logical entity in every frame.
    closed spec fn key(&self) -> Self::MergeKey {
        arbitrary()
    }

    /// The item type has a policy for this duplicate.
    closed spec fn reconcilable(existing: Self, incoming: Self) -> bool {
        arbitrary()
    }

    /// What becomes of an item when a duplicate of it comes in.
    closed spec fn reconciled(existing: Self, incoming: Self) -> Self {
        arbitrary()
    }

    fn merge_key(&self) -> (key: Self::MergeKey)
        ensures
            key == self.key(),
    ;

    /// Reconciles an item with a duplicate of it. An item type that expects no
    /// duplicates allows none.
    fn merge_duplicate(existing: &mut Self, incoming: Self)
        requires
            Self::reconcilable(*old(existing), incoming),
        ensures
            *final(existing) == Self::reconciled(*old(existing), incoming),
    ;
}

/// The keys under which items are filed.
pub open spec fn keys_of<Item: MergeItem>(items: Seq<Item>) -> Seq<Item::MergeKey> {
    items.map_values(|item: Item| item.key())
}

/// Items and the keys under which they are filed. The key is that of the item
/// which came first.
pub struct Filed<Item, Id> {
    pub items: Seq<Item>,
    pub keys: Seq<Id>,
}

/// One more item: it is reconciled with the item filed under its key, or else
/// filed last.
pub open spec fn file_item<Item: MergeItem>(
    filed: Filed<Item, Item::MergeKey>,
    incoming: Item,
) -> Filed<Item, Item::MergeKey> {
    if filed.keys.contains(incoming.key()) {
        let index = filed.keys.index_of(incoming.key());
        Filed {
            items: filed.items.update(index, Item::reconciled(filed.items[index], incoming)),
            keys: filed.keys,
        }
    } else {
        Filed { items: filed.items.push(incoming), keys: filed.keys.push(incoming.key()) }
    }
}

/// The items of `current`, and then those of `incoming` one after the other.
pub open spec fn file_items<Item: MergeItem>(
    current: Seq<Item>,
    incoming: Seq<Item>,
) -> Filed<Item, Item::MergeKey>
    decreases incoming.len(),
{
    if incoming.len() == 0 {
        Filed { items: current, keys: keys_of(current) }
    } else {
        file_item(file_items(current, incoming.drop_last()), incoming.last())
    }
}

/// Every duplicate among the incoming items has a policy.
pub open spec fn all_reconcilable<Item: MergeItem>(
    current: Seq<Item>,
    incoming: Seq<Item>,
) -> bool {
    forall|i: int|
        #![trigger incoming[i]]
        0 <= i < incoming.len() ==> {
            let filed = file_items(current, incoming.take(i));
            filed.keys.contains(incoming[i].key()) ==> Item::reconcilable(
                filed.items[filed.keys.index_of(incoming[i].key())],
                incoming[i],
            )
        }
}

impl<Item> MergeVec for Item where Item: MergeItem {
    /// No two current items have the same key, keys hash as they compare, and
    /// every duplicate has a policy.
    open spec fn can_merge(current: Seq<Self>, incoming: Seq<Self>) -> bool {
        &&& keys_of(current).no_duplicates()
        &&& all_reconcilable(current, incoming)
        &&& vstd::std_specs::hash::obeys_key_model::<Item::MergeKey>()
    }

    open spec fn merged(current: Seq<Self>, incoming: Seq<Self>) -> Seq<Self> {
        file_items(current, incoming).items
    }

    fn merge_vec(current: &mut Vec<Self>, incoming: Vec<Self>) {
        let ghost start = current@;
        let ghost all = incoming@;
        let mut index_by_key: HashMap<Item::MergeKey, usize> = HashMap::new();
        let mut index: usize = 0;
        while index < current.len()
            invariant
                index <= current@.len(),
                current@ == start,
                keys_of(start).no_duplicates(),
                vstd::std_specs::hash::obeys_key_model::<Item::MergeKey>(),
                indexes(index_by_key@, keys_of(start).take(index as int)),
            decreases current@.len() - index,
        {
            let key = current[index].merge_key();
            proof {
                assert(key == keys_of(start)[index as int]);
                lemma_index_push(index_by_key@, keys_of(start).take(index as int), key, index);
                assert(keys_of(start).take(index + 1) =~= keys_of(start).take(index as int).push(
                    key,
                ));
            }
            index_by_key.insert(key, index);
            index += 1;
        }
        proof {
            assert(keys_of(start).take(index as int) =~= keys_of(start));
            assert(all.take(0) =~= Seq::empty());
        }
        for incoming_item in iter: incoming
            invariant
                iter.seq() == all,
                all_reconcilable(start, all),
                vstd::std_specs::hash::obeys_key_model::<Item::MergeKey>(),
                current@ == file_items(start, all.take(iter.index() as int)).items,
                indexes(
                    index_by_key@,
                    file_items(start, all.take(iter.index() as int)).keys,
                ),
                file_items(start, all.take(iter.index() as int)).keys.len() == current@.len(),
                file_items(start, all.take(iter.index() as int)).keys.no_duplicates(),
        {
            let ghost position = iter.index() as int;
            let ghost filed = file_items(start, all.take(position));
            proof {
                assert(all[position] == incoming_item);
                assert(all.take(position + 1).drop_last() =~= all.take(position));
                assert(file_items(start, all.take(position + 1)) == file_item(
                    filed,
                    incoming_item,
                ));
            }
            let key = incoming_item.merge_key();
            let found = match index_by_key.get(&key) {
                Some(existing_index) => Some(*existing_index),
                None => None,
            };
            match found {
                Some(existing_index) => {
                    proof {
                        lemma_index_found(index_by_key@, filed.keys, key);
                    }
                    Item::merge_duplicate(&mut current[existing_index], incoming_item);
                },
                None => {
                    let new_index: usize = current.len();
                    proof {
                        lemma_index_push(index_by_key@, filed.keys, key, new_index);
                    }
                    current.push(incoming_item);
                    index_by_key.insert(key, new_index);
                },
            }
        }
        proof {
            assert(all.take(all.len() as int) =~= all);
        }
    }
}

/// The map takes each key to the position at which it is filed.
spec fn indexes<Id>(map: Map<Id, usize>, keys: Seq<Id>) -> bool {
    &&& forall|i: int|
        0 <= i < keys.len() ==> map.contains_key(#[trigger] keys[i]) && map[keys[i]] == i
    &&& forall|key: Id| #[trigger] map.contains_key(key) ==> keys.contains(key)
}

proof fn lemma_index_found<Id>(map: Map<Id, usize>, keys: Seq<Id>, key: Id)
    requires
        indexes(map, keys),
        map.contains_key(key),
    ensures
        keys.contains(key),
        map[key] == keys.index_of(key),
        map[key] < keys.len(),
{
    assert(keys.contains(key));
    let i = keys.index_of(key);
    assert(keys[i] == key);
}

proof fn lemma_index_push<Id>(map: Map<Id, usize>, keys: Seq<Id>, key: Id, position: usize)
    requires
        indexes(map, keys),
        position == keys.len(),
    ensures
        !keys.contains(key) ==> indexes(map.insert(key, position), keys.push(key)),
        !keys.contains(key) ==> !map.contains_key(key),
{
    if !keys.contains(key) {
        let longer = keys.push(key);
        let bigger = map.insert(key, position);
        assert forall|i: int| 0 <= i < longer.len() implies bigger.contains_key(
            #[trigger] longer[i],
        ) && bigger[longer[i]] == i by {
            if i < keys.len() {
                assert(longer[i] == keys[i]);
                assert(keys.contains(keys[i]));
            }
        }
        assert forall|k: Id| #[trigger] bigger.contains_key(k) implies longer.contains(k) by {
            if k == key {
                assert(longer[keys.len() as int] == key);
            } else {
                assert(keys.contains(k));
                let i = keys.index_of(k);
                assert(longer[i] == k);
            }
        }
    }
}

/// The larger of two numbers.
pub open spec fn larger(left: u64, right: u64) -> u64 {
    if left >= right {
        left
    } else {
        right
    }
}

fn larger_of(left: u64, right: u64) -> (number: u64)
    ensures
        number == larger(left, right),
{
    if left >= right {
        left
    } else {
        right
    }
}

impl<Receipt, Error> GpuFeedbackFrame<Receipt, Error> where Receipt: MergeVec, Error: MergeVec {
    /// Merges a frame that has not been read yet with a newer one: each
    /// waterline is the higher of the two, and the increments of both are kept.
    pub fn merge_mailbox(current: Self, newer: Self) -> (merged: Self)
        requires
            Receipt::can_merge(current.receipts@, newer.receipts@),
            Error::can_merge(current.errors@, newer.errors@),
        ensures
            merged.present_frame_id.0 == larger(
                current.present_frame_id.0,
                newer.present_frame_id.0,
            ),
            merged.submit_waterline.0 == larger(
                current.submit_waterline.0,
                newer.submit_waterline.0,
            ),
            merged.executed_batch_waterline.0 == larger(
                current.executed_batch_waterline.0,
                newer.executed_batch_waterline.0,
            ),
            merged.complete_waterline.0 == larger(
                current.complete_waterline.0,
                newer.complete_waterline.0,
            ),
            merged.receipts@ == Receipt::merged(current.receipts@, newer.receipts@),
            merged.errors@ == Error::merged(current.errors@, newer.errors@),
    {
        let mut receipts = current.receipts;
        let mut errors = current.errors;
        Receipt::merge_vec(&mut receipts, newer.receipts);
        Error::merge_vec(&mut errors, newer.errors);
        GpuFeedbackFrame {
            present_frame_id: PresentFrameId(
                larger_of(current.present_frame_id.0, newer.present_frame_id.0),
            ),
            submit_waterline: SubmitWaterline(
                larger_of(current.submit_waterline.0, newer.submit_waterline.0),
            ),
            executed_batch_waterline: ExecutedBatchWaterline(
                larger_of(current.executed_batch_waterline.0, newer.executed_batch_waterline.0),
            ),
            complete_waterline: CompleteWaterline(
                larger_of(current.complete_waterline.0, newer.complete_waterline.0),
            ),
            receipts,
            errors,
        }
    }
}

/// A reconciliation policy under which merging the same increments again
/// changes nothing: the key stays, an item that has taken in a duplicate keeps
/// having taken it in, and an item has taken in itself.
pub open spec fn absorbing_policy<Item: MergeItem>() -> bool {
    &&& forall|a: Item, b: Item|
        a.key() == b.key() ==> (#[trigger] Item::reconciled(a, b)).key() == a.key()
    &&& forall|a: Item, b: Item|
        a.key() == b.key() ==> Item::reconciled(#[trigger] Item::reconciled(a, b), b)
            == Item::reconciled(a, b)
    &&& forall|a: Item, b: Item, c: Item|
        a.key() == b.key() && a.key() == c.key() && Item::reconciled(a, b) == a
            ==> #[trigger] Item::reconciled(#[trigger] Item::reconciled(a, c), b)
            == Item::reconciled(a, c)
    &&& forall|a: Item| #[trigger] Item::reconciled(a, a) == a
}

/// The item filed under the key of `taken` has taken it in.
spec fn has_taken_in<Item: MergeItem>(filed: Filed<Item, Item::MergeKey>, taken: Item) -> bool {
    &&& filed.keys.contains(taken.key())
    &&& Item::reconciled(filed.items[filed.keys.index_of(taken.key())], taken)
        == filed.items[filed.keys.index_of(taken.key())]
}

/// Keys stay at their places, and no key is filed twice.
pub proof fn lemma_keys_stay<Item: MergeItem>(current: Seq<Item>, incoming: Seq<Item>)
    requires
        keys_of(current).no_duplicates(),
    ensures
        file_items(current, incoming).keys.no_duplicates(),
        file_items(current, incoming).keys.len() == file_items(current, incoming).items.len(),
        keys_of(current).is_prefix_of(file_items(current, incoming).keys),
    decreases incoming.len(),
{
    if incoming.len() > 0 {
        lemma_keys_stay(current, incoming.drop_last());
        let before = file_items(current, incoming.drop_last());
        let after = file_items(current, incoming);
        if !before.keys.contains(incoming.last().key()) {
            assert(after.keys.no_duplicates());
            assert forall|i: int| 0 <= i < keys_of(current).len() implies keys_of(current)[i]
                == after.keys[i] by {
                assert(before.keys[i] == after.keys[i]);
            }
        }
    }
}

/// Nothing gets lost: the key of every incoming item is filed.
pub proof fn lemma_no_key_is_lost<Item: MergeItem>(
    current: Seq<Item>,
    incoming: Seq<Item>,
    index: int,
)
    requires
        0 <= index < incoming.len(),
    ensures
        file_items(current, incoming).keys.contains(incoming[index].key()),
    decreases incoming.len(),
{
    let before = file_items(current, incoming.drop_last());
    let after = file_items(current, incoming);
    if index == incoming.len() - 1 {
        if !before.keys.contains(incoming.last().key()) {
            assert(after.keys[before.keys.len() as int] == incoming.last().key());
        }
    } else {
        lemma_no_key_is_lost(current, incoming.drop_last(), index);
        let key = incoming[index].key();
        assert(incoming.drop_last()[index] == incoming[index]);
        let i = before.keys.index_of(key);
        assert(after.keys[i] == key);
    }
}

/// Under a policy that keeps keys, an item is filed under its own key.
proof fn lemma_filed_under_own_key<Item: MergeItem>(current: Seq<Item>, incoming: Seq<Item>)
    requires
        absorbing_policy::<Item>(),
        keys_of(current).no_duplicates(),
    ensures
        file_items(current, incoming).keys =~= keys_of(file_items(current, incoming).items),
    decreases incoming.len(),
{
    if incoming.len() > 0 {
        lemma_filed_under_own_key(current, incoming.drop_last());
        lemma_keys_stay(current, incoming.drop_last());
        let before = file_items(current, incoming.drop_last());
        let item = incoming.last();
        if before.keys.contains(item.key()) {
            let i = before.keys.index_of(item.key());
            assert(keys_of(before.items)[i] == before.items[i].key());
            assert(Item::reconciled(before.items[i], item).key() == before.items[i].key());
            let after = file_items(current, incoming);
            assert forall|k: int| 0 <= k < after.keys.len() implies after.keys[k] == keys_of(
                after.items,
            )[k] by {
                assert(keys_of(before.items)[k] == before.keys[k]);
            }
        } else {
            let after = file_items(current, incoming);
            assert forall|k: int| 0 <= k < after.keys.len() implies after.keys[k] == keys_of(
                after.items,
            )[k] by {
                if k < before.keys.len() {
                    assert(keys_of(before.items)[k] == before.keys[k]);
                }
            }
        }
    }
}

/// Every incoming item has been taken in.
proof fn lemma_all_taken_in<Item: MergeItem>(
    current: Seq<Item>,
    incoming: Seq<Item>,
    index: int,
)
    requires
        absorbing_policy::<Item>(),
        keys_of(current).no_duplicates(),
        0 <= index < incoming.len(),
    ensures
        has_taken_in(file_items(current, incoming), incoming[index]),
    decreases incoming.len(),
{
    let shorter = incoming.drop_last();
    let before = file_items(current, shorter);
    let after = file_items(current, incoming);
    let item = incoming.last();
    lemma_keys_stay(current, shorter);
    lemma_keys_stay(current, incoming);
    lemma_filed_under_own_key(current, shorter);
    if index == incoming.len() - 1 {
        if before.keys.contains(item.key()) {
            let i = before.keys.index_of(item.key());
            assert(before.items[i].key() == keys_of(before.items)[i]);
            assert(after.items[i] == Item::reconciled(before.items[i], item));
        } else {
            let i = before.keys.len() as int;
            assert(after.keys[i] == item.key());
            assert(after.keys.index_of(item.key()) == i);
            assert(Item::reconciled(item, item) == item);
        }
    } else {
        lemma_all_taken_in(current, shorter, index);
        let taken = incoming[index];
        assert(shorter[index] == taken);
        let i = before.keys.index_of(taken.key());
        assert(after.keys[i] == taken.key());
        assert(after.keys.index_of(taken.key()) == i);
        assert(before.items[i].key() == keys_of(before.items)[i]);
        if before.keys.contains(item.key()) {
            let k = before.keys.index_of(item.key());
            if k == i {
                assert(item.key() == taken.key());
                assert(Item::reconciled(Item::reconciled(before.items[i], item), taken)
                    == Item::reconciled(before.items[i], item));
            }
        }
    }
}

/// Merging increments that have all been taken in changes nothing.
proof fn lemma_file_again<Item: MergeItem>(merged: Seq<Item>, incoming: Seq<Item>, count: int)
    requires
        keys_of(merged).no_duplicates(),
        0 <= count <= incoming.len(),
        forall|i: int|
            0 <= i < incoming.len() ==> has_taken_in(
                (Filed { items: merged, keys: keys_of(merged) }),
                #[trigger] incoming[i],
            ),
    ensures
        file_items(merged, incoming.take(count)) == (Filed {
            items: merged,
            keys: keys_of(merged),
        }),
    decreases count,
{
    if count > 0 {
        lemma_file_again(merged, incoming, count - 1);
        assert(incoming.take(count).drop_last() =~= incoming.take(count - 1));
        let item = incoming[count - 1];
        let filed = Filed { items: merged, keys: keys_of(merged) };
        assert(has_taken_in(filed, item));
        let i = filed.keys.index_of(item.key());
        assert(merged.update(i, merged[i]) =~= merged);
    }
}

/// Merging the same increments twice gives the same as merging them once.
pub proof fn lemma_merge_is_idempotent<Item: MergeItem>(current: Seq<Item>, incoming: Seq<Item>)
    requires
        absorbing_policy::<Item>(),
        keys_of(current).no_duplicates(),
    ensures
        file_items(file_items(current, incoming).items, incoming).items == file_items(
            current,
            incoming,
        ).items,
{
    let once = file_items(current, incoming);
    lemma_keys_stay(current, incoming);
    lemma_filed_under_own_key(current, incoming);
    assert(once.keys == keys_of(once.items));
    assert forall|i: int| 0 <= i < incoming.len() implies has_taken_in(
        Filed { items: once.items, keys: keys_of(once.items) },
        #[trigger] incoming[i],
    ) by {
        lemma_all_taken_in(current, incoming, i);
    }
    lemma_file_again(once.items, incoming, incoming.len() as int);
    assert(incoming.take(incoming.len() as int) =~= incoming);
}

/// The higher waterline is the same in either order, never falls behind either
/// of the two, and stays when the same frame comes again.
pub proof fn lemma_waterlines(left: u64, right: u64)
    ensures
        larger(left, right) == larger(right, left),
        larger(left, right) >= left,
        larger(left, right) >= right,
        larger(larger(left, right), right) == larger(left, right),
{
}

} // verus!
