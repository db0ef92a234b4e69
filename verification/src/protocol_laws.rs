//! What becomes of increments when they are merged.
use vstd::prelude::*;

use crate::protocol::MergeItem;

verus! {

/// What an item becomes when it takes in those from one place up to another that have a
/// key, one after the other.
pub open spec fn taken_in<Item: MergeItem>(
    start: Item,
    incoming: Seq<Item>,
    key: Item::MergeKey,
    first: int,
    end: int,
) -> Item
    decreases end - first,
{
    if end <= first {
        start
    } else if incoming[end - 1].key() == key {
        Item::reconciled(taken_in(start, incoming, key, first, end - 1), incoming[end - 1])
    } else {
        taken_in(start, incoming, key, first, end - 1)
    }
}

/// The places of the incoming items with a key that neither a current item nor an earlier
/// one has.
pub open spec fn newcomers<Item: MergeItem>(
    current: Seq<Item>,
    incoming: Seq<Item>,
    count: nat,
) -> Seq<int>
    decreases count,
{
    if count == 0 {
        Seq::empty()
    } else {
        let earlier = newcomers(current, incoming, (count - 1) as nat);
        if is_new(current, incoming, count - 1) {
            earlier.push(count - 1)
        } else {
            earlier
        }
    }
}

/// No current item and no earlier one has the key of this one.
pub open spec fn is_new<Item: MergeItem>(
    current: Seq<Item>,
    incoming: Seq<Item>,
    place: int,
) -> bool {
    &&& forall|i: int| 0 <= i < current.len() ==> (#[trigger] current[i]).key() != incoming[place].key()
    &&& forall|i: int|
        0 <= i < place ==> (#[trigger] incoming[i]).key() != incoming[place].key()
}

/// The items are the current ones in their order, and then the new ones in the order in
/// which they came, and each has taken in those that came later with its key.
pub open spec fn are_merged<Item: MergeItem>(
    items: Seq<Item>,
    current: Seq<Item>,
    incoming: Seq<Item>,
    count: nat,
) -> bool {
    let new = newcomers(current, incoming, count);
    &&& items.len() == current.len() + new.len()
    &&& forall|i: int|
        0 <= i < current.len() ==> #[trigger] items[i] == taken_in(
            current[i],
            incoming,
            current[i].key(),
            0,
            count as int,
        )
    &&& forall|i: int|
        0 <= i < new.len() ==> items[current.len() + i] == taken_in(
            incoming[#[trigger] new[i]],
            incoming,
            incoming[new[i]].key(),
            new[i] + 1,
            count as int,
        )
}

/// Merging keeps the current items at their places and adds the new ones behind, in the
/// order in which they came. Each item takes in those that came later with its key, in
/// their order.
pub proof fn lemma_increments_are_merged_in_order<Item: MergeItem>(
    current: Seq<Item>,
    incoming: Seq<Item>,
)
    requires
        crate::protocol::keys_of(current).no_duplicates(),
    ensures
        are_merged(
            crate::protocol::file_items(current, incoming).items,
            current,
            incoming,
            incoming.len(),
        ),
{
    lemma_first_increments_are_merged(current, incoming, incoming.len());
    assert(incoming.take(incoming.len() as int) =~= incoming);
}

/// The keys of the current items, and behind them those of the new ones.
spec fn are_keys<Item: MergeItem>(
    keys: Seq<Item::MergeKey>,
    current: Seq<Item>,
    incoming: Seq<Item>,
    count: nat,
) -> bool {
    let new = newcomers(current, incoming, count);
    &&& keys.len() == current.len() + new.len()
    &&& forall|i: int| 0 <= i < current.len() ==> #[trigger] keys[i] == current[i].key()
    &&& forall|i: int|
        0 <= i < new.len() ==> 0 <= #[trigger] new[i] < count && keys[current.len() + i]
            == incoming[new[i]].key()
}

proof fn lemma_first_increments_are_merged<Item: MergeItem>(
    current: Seq<Item>,
    incoming: Seq<Item>,
    count: nat,
)
    requires
        crate::protocol::keys_of(current).no_duplicates(),
        count <= incoming.len(),
    ensures
        ({
            let filed = crate::protocol::file_items(current, incoming.take(count as int));
            &&& are_merged(filed.items, current, incoming, count)
            &&& are_keys(filed.keys, current, incoming, count)
        }),
    decreases count,
{
    let some = incoming.take(count as int);
    let filed = crate::protocol::file_items(current, some);
    if count > 0 {
        let fewer = (count - 1) as nat;
        let before = crate::protocol::file_items(current, incoming.take(fewer as int));
        let old_new = newcomers(current, incoming, fewer);
        let item = incoming[fewer as int];
        let size = current.len();
        lemma_first_increments_are_merged(current, incoming, fewer);
        crate::protocol::lemma_keys_stay(current, incoming.take(fewer as int));
        assert(some.drop_last() =~= incoming.take(fewer as int));
        assert(some.last() == item);
        if before.keys.contains(item.key()) {
            let at = before.keys.index_of(item.key());
            assert(before.keys[at] == item.key());
            if at < size {
                assert(current[at].key() == item.key());
            } else {
                let place = old_new[at - size];
                assert(incoming[place].key() == item.key());
            }
            assert(!is_new(current, incoming, fewer as int));
            assert forall|i: int| 0 <= i < size implies #[trigger] filed.items[i] == taken_in(
                current[i],
                incoming,
                current[i].key(),
                0,
                count as int,
            ) by {
                assert(before.keys[i] == current[i].key());
                assert(before.items[i] == taken_in(
                    current[i],
                    incoming,
                    current[i].key(),
                    0,
                    fewer as int,
                ));
            }
            assert forall|i: int| 0 <= i < old_new.len() implies filed.items[size + i] == taken_in(
                incoming[#[trigger] old_new[i]],
                incoming,
                incoming[old_new[i]].key(),
                old_new[i] + 1,
                count as int,
            ) by {
                assert(before.keys[size + i] == incoming[old_new[i]].key());
            }
        } else {
            assert forall|i: int| 0 <= i < size implies (#[trigger] current[i]).key()
                != item.key() by {
                assert(before.keys[i] == current[i].key());
            }
            assert forall|i: int| 0 <= i < fewer implies (#[trigger] incoming[i]).key()
                != item.key() by {
                crate::protocol::lemma_no_key_is_lost(current, incoming.take(fewer as int), i);
                assert(incoming.take(fewer as int)[i] == incoming[i]);
            }
            assert(is_new(current, incoming, fewer as int));
            let new = newcomers(current, incoming, count);
            assert forall|i: int| 0 <= i < size implies #[trigger] filed.items[i] == taken_in(
                current[i],
                incoming,
                current[i].key(),
                0,
                count as int,
            ) by {
                assert(before.items[i] == filed.items[i]);
            }
            assert forall|i: int| 0 <= i < size implies #[trigger] filed.keys[i]
                == current[i].key() by {
                assert(before.keys[i] == filed.keys[i]);
            }
            assert forall|i: int| 0 <= i < new.len() implies filed.items[size + i] == taken_in(
                incoming[#[trigger] new[i]],
                incoming,
                incoming[new[i]].key(),
                new[i] + 1,
                count as int,
            ) by {
                if i < old_new.len() {
                    assert(old_new[i] == new[i]);
                    assert(before.items[size + i] == filed.items[size + i]);
                    assert(incoming[new[i]].key() != item.key());
                }
            }
            assert forall|i: int| 0 <= i < new.len() implies 0 <= #[trigger] new[i] < count
                && filed.keys[size + i] == incoming[new[i]].key() by {
                if i < old_new.len() {
                    assert(old_new[i] == new[i]);
                    assert(before.keys[size + i] == filed.keys[size + i]);
                }
            }
        }
    } else {
        assert(some =~= Seq::<Item>::empty());
    }
}

} // verus!
