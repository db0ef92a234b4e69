//! Small associative containers with insertion order, used wherever the
//! library looks something up by a key that is not an array index.
use vstd::prelude::*;

verus! {

/// A value that can be used as a key: a plain copyable value whose comparison
/// is structural equality.
pub trait Key: Copy + Sized {
    fn same(&self, other: &Self) -> (same: bool)
        ensures
            same == (*self == *other),
    ;
}

impl Key for u64 {
    fn same(&self, other: &Self) -> (same: bool) {
        *self == *other
    }
}

impl Key for u32 {
    fn same(&self, other: &Self) -> (same: bool) {
        *self == *other
    }
}

impl Key for u8 {
    fn same(&self, other: &Self) -> (same: bool) {
        *self == *other
    }
}

impl Key for usize {
    fn same(&self, other: &Self) -> (same: bool) {
        *self == *other
    }
}

/// A finite set of keys. The elements are kept in the order in which they
/// were first inserted.
#[derive(Debug)]
pub struct KeySet<K> {
    items: Vec<K>,
}

impl<K> View for KeySet<K> {
    type V = Set<K>;

    closed spec fn view(&self) -> Set<K> {
        self.items@.to_set()
    }
}

impl<K> KeySet<K> {
    #[verifier::type_invariant]
    spec fn distinct(&self) -> bool {
        self.items@.no_duplicates()
    }

    /// The elements in insertion order.
    pub closed spec fn order(&self) -> Seq<K> {
        self.items@
    }
}

impl<K: Key> KeySet<K> {
    pub fn new() -> (set: Self)
        ensures
            set@ == Set::<K>::empty(),
            set.order() == Seq::<K>::empty(),
    {
        let items: Vec<K> = Vec::new();
        proof {
            assert(items@.to_set() =~= Set::<K>::empty());
        }
        KeySet { items }
    }

    /// Tells whether `key` is an element.
    pub fn contains(&self, key: K) -> (found: bool)
        ensures
            found == self@.contains(key),
    {
        let mut index: usize = 0;
        while index < self.items.len()
            invariant
                index <= self.items.len(),
                forall|i: int| 0 <= i < index ==> self.items@[i] != key,
            decreases self.items.len() - index,
        {
            if self.items[index].same(&key) {
                assert(self.items@.contains(key));
                return true;
            }
            index += 1;
        }
        false
    }

    /// Inserts `key`, and tells whether it was absent before.
    pub fn insert(&mut self, key: K) -> (added: bool)
        ensures
            added == !old(self)@.contains(key),
            final(self)@ == old(self)@.insert(key),
            final(self).order() == (if added {
                old(self).order().push(key)
            } else {
                old(self).order()
            }),
    {
        proof {
            use_type_invariant(&*self);
        }
        if self.contains(key) {
            assert(self@.insert(key) =~= self@);
            return false;
        }
        let mut items: Vec<K> = Vec::new();
        std::mem::swap(&mut items, &mut self.items);
        let ghost before = items@;
        items.push(key);
        proof {
            assert(items@.no_duplicates());
            assert(items@.to_set() =~= before.to_set().insert(key)) by {
                assert forall|k: K| before.to_set().insert(key).contains(k) implies
                    items@.to_set().contains(k) by {
                    if k == key {
                        assert(items@[before.len() as int] == key);
                    } else {
                        let i = choose|i: int| 0 <= i < before.len() && before[i] == k;
                        assert(items@[i] == k);
                    }
                }
            }
        }
        self.items = items;
        true
    }

    /// The number of elements.
    pub fn len(&self) -> (len: usize)
        ensures
            self@.finite(),
            len == self@.len(),
            len == self.order().len(),
    {
        proof {
            use_type_invariant(self);
            self.items@.unique_seq_to_set();
        }
        self.items.len()
    }

    /// Tells whether there is no element.
    pub fn is_empty(&self) -> (empty: bool)
        ensures
            empty == (self@ == Set::<K>::empty()),
            empty == (self.order().len() == 0),
    {
        if self.items.len() == 0 {
            assert(self@ =~= Set::<K>::empty());
            true
        } else {
            assert(self@.contains(self.items@[0]));
            false
        }
    }

    /// The element inserted at position `index`.
    pub fn at(&self, index: usize) -> (key: K)
        requires
            index < self.order().len(),
        ensures
            key == self.order()[index as int],
            self@.contains(key),
    {
        assert(self.items@.contains(self.items@[index as int]));
        self.items[index]
    }

    /// The elements in insertion order.
    pub fn to_vec(&self) -> (items: Vec<K>)
        ensures
            items@ == self.order(),
            items@.no_duplicates(),
            items@.to_set() == self@,
    {
        proof {
            use_type_invariant(self);
        }
        let mut items: Vec<K> = Vec::new();
        let mut index: usize = 0;
        while index < self.items.len()
            invariant
                index <= self.items.len(),
                items@ == self.items@.take(index as int),
            decreases self.items.len() - index,
        {
            items.push(self.items[index]);
            index += 1;
            assert(items@ =~= self.items@.take(index as int));
        }
        assert(items@ =~= self.items@);
        items
    }

    /// Inserts every element of `other`.
    pub fn extend(&mut self, other: &KeySet<K>)
        ensures
            final(self)@ == old(self)@.union(other@),
    {
        let mut index: usize = 0;
        let count: usize = other.len();
        while index < count
            invariant
                index <= count,
                count == other.order().len(),
                self@ == old(self)@.union(other.order().take(index as int).to_set()),
            decreases count - index,
        {
            let key = other.at(index);
            self.insert(key);
            index += 1;
            proof {
                lemma_take_set(other.order(), index as int);
                assert(self@ =~= old(self)@.union(other.order().take(index as int).to_set()));
            }
        }
        proof {
            assert(other.order().take(count as int) =~= other.order());
            assert(other.order().to_set() == other@);
        }
    }

    /// A set with the same elements in the same order.
    pub fn duplicate(&self) -> (copy: Self)
        ensures
            copy@ == self@,
            copy.order() == self.order(),
    {
        let items = self.to_vec();
        KeySet { items }
    }

    /// A set of the elements of `items`, which are distinct, in that order.
    pub fn from_distinct(items: Vec<K>) -> (set: Self)
        requires
            items@.no_duplicates(),
        ensures
            set@ == items@.to_set(),
            set.order() == items@,
    {
        KeySet { items }
    }

    /// The elements that are also in `other`, in the order of this set.
    pub fn intersection(&self, other: &KeySet<K>) -> (common: Self)
        ensures
            common@ == self@.intersect(other@),
    {
        let mut common: KeySet<K> = KeySet::new();
        let mut index: usize = 0;
        let count: usize = self.len();
        proof {
            assert(self.order().take(0).to_set() =~= Set::<K>::empty());
            assert(common@ =~= self.order().take(0).to_set().intersect(other@));
        }
        while index < count
            invariant
                index <= count,
                count == self.order().len(),
                common@ == self.order().take(index as int).to_set().intersect(other@),
            decreases count - index,
        {
            let key = self.at(index);
            if other.contains(key) {
                common.insert(key);
            }
            index += 1;
            proof {
                lemma_take_set(self.order(), index as int);
                assert(common@ =~= self.order().take(index as int).to_set().intersect(other@));
            }
        }
        proof {
            assert(self.order().take(count as int) =~= self.order());
            self.lemma_order();
        }
        common
    }

    /// Removes every element.
    pub fn clear(&mut self)
        ensures
            final(self)@ == Set::<K>::empty(),
            final(self).order() == Seq::<K>::empty(),
    {
        let empty = KeySet::new();
        *self = empty;
    }
}

impl<K> KeySet<K> {
    /// The order lists each element exactly once.
    pub proof fn lemma_order(&self)
        ensures
            self.order().to_set() == self@,
    {
    }
}

/// One more element of a sequence adds that element to the set of its prefix.
pub proof fn lemma_take_set<K>(s: Seq<K>, count: int)
    requires
        0 < count <= s.len(),
    ensures
        s.take(count).to_set() == s.take(count - 1).to_set().insert(s[count - 1]),
{
    let shorter = s.take(count - 1);
    let longer = s.take(count);
    assert(longer =~= shorter.push(s[count - 1]));
    lemma_push_set(shorter, s[count - 1]);
}

/// Pushing an element adds it to the set of a sequence's elements.
pub proof fn lemma_push_set<K>(s: Seq<K>, key: K)
    ensures
        s.push(key).to_set() == s.to_set().insert(key),
{
    let longer = s.push(key);
    assert forall|k: K| s.to_set().insert(key).contains(k) implies longer.to_set().contains(k) by {
        if k == key {
            assert(longer[s.len() as int] == key);
        } else {
            let i = choose|i: int| 0 <= i < s.len() && s[i] == k;
            assert(longer[i] == k);
        }
    }
    assert(longer.to_set() =~= s.to_set().insert(key));
}

/// Tells whether some entry has the key `key`.
pub open spec fn entries_have<K, V>(entries: Seq<(K, V)>, key: K) -> bool {
    exists|i: int| 0 <= i < entries.len() && #[trigger] entries[i].0 == key
}

/// The position of an entry with the key `key`.
pub open spec fn entry_index<K, V>(entries: Seq<(K, V)>, key: K) -> int {
    choose|i: int| 0 <= i < entries.len() && #[trigger] entries[i].0 == key
}

/// The map that a list of entries stands for.
pub open spec fn entries_map<K, V>(entries: Seq<(K, V)>) -> Map<K, V> {
    Map::new(
        |key: K| entries_have(entries, key),
        |key: K| entries[entry_index(entries, key)].1,
    )
}

/// No two entries have the same key.
pub open spec fn entries_distinct<K, V>(entries: Seq<(K, V)>) -> bool {
    forall|i: int, j: int|
        0 <= i < j < entries.len() ==> #[trigger] entries[i].0 != #[trigger] entries[j].0
}

/// A finite map. The entries are kept in the order in which their keys were
/// inserted.
#[derive(Debug)]
pub struct KeyMap<K, V> {
    entries: Vec<(K, V)>,
}

impl<K, V> View for KeyMap<K, V> {
    type V = Map<K, V>;

    closed spec fn view(&self) -> Map<K, V> {
        entries_map(self.entries@)
    }
}

impl<K, V> KeyMap<K, V> {
    #[verifier::type_invariant]
    spec fn distinct(&self) -> bool {
        entries_distinct(self.entries@)
    }

    /// The keys in insertion order.
    pub closed spec fn order(&self) -> Seq<K> {
        self.entries@.map_values(|entry: (K, V)| entry.0)
    }
}

/// Entry `i` of a list without repeated keys is what the map holds at its key.
proof fn lemma_entry<K, V>(entries: Seq<(K, V)>, i: int)
    requires
        entries_distinct(entries),
        0 <= i < entries.len(),
    ensures
        entries_map(entries).dom().contains(entries[i].0),
        entries_map(entries)[entries[i].0] == entries[i].1,
        entry_index(entries, entries[i].0) == i,
{
    assert(entries_have(entries, entries[i].0));
    let j = entry_index(entries, entries[i].0);
    assert(entries[j].0 == entries[i].0);
    if j < i {
        assert(entries[j].0 != entries[i].0);
    } else if i < j {
        assert(entries[i].0 != entries[j].0);
    }
}

/// Pushing an entry with a new key inserts it.
proof fn lemma_push_entry<K, V>(entries: Seq<(K, V)>, key: K, value: V)
    requires
        entries_distinct(entries),
        !entries_have(entries, key),
    ensures
        entries_distinct(entries.push((key, value))),
        entries_map(entries.push((key, value))) == entries_map(entries).insert(key, value),
{
    let longer = entries.push((key, value));
    assert(entries_distinct(longer));
    lemma_entry(longer, entries.len() as int);
    assert forall|k: K|
        entries_map(longer).dom().contains(k) == entries_map(entries).insert(
            key,
            value,
        ).dom().contains(k) by {
        if entries_have(entries, k) {
            let i = entry_index(entries, k);
            assert(longer[i].0 == k);
        }
        if entries_have(longer, k) && k != key {
            let i = entry_index(longer, k);
            assert(entries[i].0 == k);
        }
    }
    assert forall|k: K| entries_map(longer).dom().contains(k) implies entries_map(longer)[k]
        == entries_map(entries).insert(key, value)[k] by {
        if k != key {
            let i = entry_index(entries, k);
            assert(entries_have(entries, k));
            assert(longer[i].0 == k);
            lemma_entry(longer, i);
        }
    }
    assert(entries_map(longer) =~= entries_map(entries).insert(key, value));
}

/// Overwriting the value of an entry inserts the new value at its key.
proof fn lemma_update_entry<K, V>(entries: Seq<(K, V)>, index: int, value: V)
    requires
        entries_distinct(entries),
        0 <= index < entries.len(),
    ensures
        entries_distinct(entries.update(index, (entries[index].0, value))),
        entries_map(entries.update(index, (entries[index].0, value))) == entries_map(entries).insert(
            entries[index].0,
            value,
        ),
{
    let key = entries[index].0;
    let changed = entries.update(index, (key, value));
    assert(forall|i: int| 0 <= i < entries.len() ==> #[trigger] changed[i].0 == entries[i].0);
    assert(entries_distinct(changed));
    lemma_entry(changed, index);
    assert forall|k: K|
        entries_map(changed).dom().contains(k) == entries_map(entries).insert(
            key,
            value,
        ).dom().contains(k) by {
        if entries_have(entries, k) {
            let i = entry_index(entries, k);
            assert(changed[i].0 == k);
        }
        if entries_have(changed, k) {
            let i = entry_index(changed, k);
            assert(entries[i].0 == k);
        }
    }
    assert forall|k: K| entries_map(changed).dom().contains(k) implies entries_map(changed)[k]
        == entries_map(entries).insert(key, value)[k] by {
        let i = entry_index(changed, k);
        assert(entries_have(changed, k));
        assert(entries[i].0 == k);
        lemma_entry(entries, i);
        lemma_entry(changed, i);
    }
    assert(entries_map(changed) =~= entries_map(entries).insert(key, value));
}

/// Removing an entry removes its key.
proof fn lemma_remove_entry<K, V>(entries: Seq<(K, V)>, index: int)
    requires
        entries_distinct(entries),
        0 <= index < entries.len(),
    ensures
        entries_distinct(entries.remove(index)),
        entries_map(entries.remove(index)) == entries_map(entries).remove(entries[index].0),
{
    let key = entries[index].0;
    let shorter = entries.remove(index);
    assert(forall|i: int| 0 <= i < index ==> #[trigger] shorter[i] == entries[i]);
    assert(forall|i: int| index <= i < shorter.len() ==> #[trigger] shorter[i] == entries[i + 1]);
    assert(entries_distinct(shorter));
    assert forall|k: K|
        entries_map(shorter).dom().contains(k) == entries_map(entries).remove(key).dom().contains(
            k,
        ) by {
        if entries_have(shorter, k) {
            let i = entry_index(shorter, k);
            assert(shorter[i].0 == k);
            if i < index {
                assert(entries[i].0 == k);
            } else {
                assert(entries[i + 1].0 == k);
            }
        }
        if entries_have(entries, k) && k != key {
            let i = entry_index(entries, k);
            if i < index {
                assert(shorter[i].0 == k);
            } else {
                assert(shorter[i - 1].0 == k);
            }
        }
    }
    assert forall|k: K| entries_map(shorter).dom().contains(k) implies entries_map(shorter)[k]
        == entries_map(entries).remove(key)[k] by {
        assert(entries_have(shorter, k));
        let i = entry_index(shorter, k);
        let j = if i < index { i } else { i + 1 };
        assert(entries[j].0 == k);
        lemma_entry(entries, j);
        lemma_entry(shorter, i);
    }
    assert(entries_map(shorter) =~= entries_map(entries).remove(key));
}

impl<K: Key, V> KeyMap<K, V> {
    pub fn new() -> (map: Self)
        ensures
            map@ == Map::<K, V>::empty(),
            map.order() == Seq::<K>::empty(),
    {
        let entries: Vec<(K, V)> = Vec::new();
        proof {
            assert(entries_map(entries@) =~= Map::<K, V>::empty());
            assert(entries@.map_values(|entry: (K, V)| entry.0) =~= Seq::<K>::empty());
        }
        KeyMap { entries }
    }

    /// The position of the entry with the key `key`, if there is one.
    fn find(&self, key: K) -> (found: Option<usize>)
        ensures
            match found {
                Some(index) => index < self.entries@.len() && self.entries@[index as int].0 == key
                    && self@.dom().contains(key) && self@[key] == self.entries@[index as int].1,
                None => !self@.dom().contains(key),
            },
    {
        proof {
            use_type_invariant(self);
        }
        let mut index: usize = 0;
        while index < self.entries.len()
            invariant
                index <= self.entries.len(),
                entries_distinct(self.entries@),
                forall|i: int| 0 <= i < index ==> #[trigger] self.entries@[i].0 != key,
            decreases self.entries.len() - index,
        {
            if self.entries[index].0.same(&key) {
                proof {
                    lemma_entry(self.entries@, index as int);
                }
                return Some(index);
            }
            index += 1;
        }
        None
    }

    /// Tells whether the map holds a value at `key`.
    pub fn contains_key(&self, key: K) -> (found: bool)
        ensures
            found == self@.dom().contains(key),
    {
        self.find(key).is_some()
    }

    /// The value at `key`.
    pub fn get(&self, key: K) -> (found: Option<&V>)
        ensures
            match found {
                Some(value) => self@.dom().contains(key) && self@[key] == *value,
                None => !self@.dom().contains(key),
            },
    {
        match self.find(key) {
            Some(index) => Some(&self.entries[index].1),
            None => None,
        }
    }

    /// Puts `value` at `key`, and gives back the value that was there.
    pub fn insert(&mut self, key: K, value: V) -> (previous: Option<V>)
        ensures
            final(self)@ == old(self)@.insert(key, value),
            match previous {
                Some(replaced) => old(self)@.dom().contains(key) && old(self)@[key] == replaced,
                None => !old(self)@.dom().contains(key),
            },
    {
        proof {
            use_type_invariant(&*self);
        }
        let found = self.find(key);
        let mut entries: Vec<(K, V)> = Vec::new();
        std::mem::swap(&mut entries, &mut self.entries);
        let ghost before = entries@;
        match found {
            Some(index) => {
                let mut slot = (key, value);
                std::mem::swap(&mut entries[index], &mut slot);
                proof {
                    lemma_entry(before, index as int);
                    lemma_update_entry(before, index as int, value);
                    assert(entries@ =~= before.update(index as int, (key, value)));
                }
                self.entries = entries;
                Some(slot.1)
            },
            None => {
                entries.push((key, value));
                proof {
                    lemma_push_entry(before, key, value);
                }
                self.entries = entries;
                None
            },
        }
    }

    /// Takes the value at `key` out of the map.
    pub fn remove(&mut self, key: K) -> (removed: Option<V>)
        ensures
            final(self)@ == old(self)@.remove(key),
            match removed {
                Some(value) => old(self)@.dom().contains(key) && old(self)@[key] == value,
                None => !old(self)@.dom().contains(key),
            },
    {
        proof {
            use_type_invariant(&*self);
        }
        let found = self.find(key);
        match found {
            Some(index) => {
                let mut entries: Vec<(K, V)> = Vec::new();
                std::mem::swap(&mut entries, &mut self.entries);
                let ghost before = entries@;
                let entry = entries.remove(index);
                proof {
                    lemma_entry(before, index as int);
                    lemma_remove_entry(before, index as int);
                }
                self.entries = entries;
                Some(entry.1)
            },
            None => {
                assert(self@.remove(key) =~= self@);
                None
            },
        }
    }

    /// The number of entries.
    pub fn len(&self) -> (len: usize)
        ensures
            len == self.order().len(),
    {
        self.entries.len()
    }

    /// Tells whether the map is empty.
    pub fn is_empty(&self) -> (empty: bool)
        ensures
            empty == (self@ == Map::<K, V>::empty()),
    {
        if self.entries.len() == 0 {
            assert(self@ =~= Map::<K, V>::empty());
            true
        } else {
            proof {
                use_type_invariant(self);
                lemma_entry(self.entries@, 0);
            }
            assert(self@.dom().contains(self.entries@[0].0));
            false
        }
    }

    /// The keys in insertion order.
    pub fn keys(&self) -> (keys: Vec<K>)
        ensures
            keys@ == self.order(),
            keys@.no_duplicates(),
            keys@.to_set() == self@.dom(),
    {
        proof {
            use_type_invariant(self);
        }
        let mut keys: Vec<K> = Vec::new();
        let mut index: usize = 0;
        while index < self.entries.len()
            invariant
                index <= self.entries.len(),
                keys@ == self.order().take(index as int),
            decreases self.entries.len() - index,
        {
            keys.push(self.entries[index].0);
            index += 1;
            assert(keys@ =~= self.order().take(index as int));
        }
        proof {
            assert(keys@ =~= self.order());
            assert forall|i: int, j: int|
                0 <= i < keys@.len() && 0 <= j < keys@.len() && i != j implies keys@[i]
                != keys@[j] by {
                assert(keys@[i] == self.entries@[i].0);
                assert(keys@[j] == self.entries@[j].0);
            }
            assert forall|k: K| keys@.to_set().contains(k) == self@.dom().contains(k) by {
                if keys@.to_set().contains(k) {
                    let i = choose|i: int| 0 <= i < keys@.len() && keys@[i] == k;
                    assert(self.entries@[i].0 == k);
                }
                if self@.dom().contains(k) {
                    let i = entry_index(self.entries@, k);
                    assert(keys@[i] == k);
                }
            }
            assert(keys@.to_set() =~= self@.dom());
        }
        keys
    }

    /// Removes every entry.
    pub fn clear(&mut self)
        ensures
            final(self)@ == Map::<K, V>::empty(),
    {
        let empty = KeyMap::new();
        *self = empty;
    }

    /// Keeps the entries whose key is in `live`.
    pub fn retain_keys(&mut self, live: &KeySet<K>)
        ensures
            final(self)@ == old(self)@.restrict(live@),
    {
        let keys = self.keys();
        let mut index: usize = 0;
        while index < keys.len()
            invariant
                index <= keys.len(),
                keys@.to_set() == old(self)@.dom(),
                forall|k: K| #[trigger]
                    self@.dom().contains(k) <==> old(self)@.dom().contains(k) && (live@.contains(k)
                        || !keys@.take(index as int).contains(k)),
                forall|k: K| #[trigger] self@.dom().contains(k) ==> self@[k] == old(self)@[k],
            decreases keys.len() - index,
        {
            let key = keys[index];
            let ghost before = self@;
            if !live.contains(key) {
                self.remove(key);
            }
            index += 1;
            proof {
                assert(keys@.take(index as int) =~= keys@.take(index - 1).push(key));
                assert forall|k: K|
                    keys@.take(index as int).contains(k) == (keys@.take(index - 1).contains(k)
                        || k == key) by {
                    if k == key {
                        assert(keys@.take(index as int)[index - 1] == key);
                    } else if keys@.take(index - 1).contains(k) {
                        let shorter = keys@.take(index - 1);
                        let i = choose|i: int| 0 <= i < shorter.len() && shorter[i] == k;
                        assert(keys@.take(index as int)[i] == k);
                    }
                }
            }
        }
        proof {
            assert(keys@.take(keys@.len() as int) =~= keys@);
            assert forall|k: K| old(self)@.dom().contains(k) implies keys@.contains(k) by {
                assert(keys@.to_set().contains(k));
            }
            assert(self@ =~= old(self)@.restrict(live@));
        }
    }
}

impl<K: Key + Copy, V: Copy> KeyMap<K, V> {
    /// Another map with the same entries.
    pub fn duplicate(&self) -> (copy: Self)
        ensures
            copy@ == self@,
            copy.order() == self.order(),
    {
        proof {
            use_type_invariant(self);
        }
        let mut entries: Vec<(K, V)> = Vec::new();
        let mut index: usize = 0;
        while index < self.entries.len()
            invariant
                index <= self.entries@.len(),
                entries@ == self.entries@.take(index as int),
            decreases self.entries@.len() - index,
        {
            let entry = self.entries[index];
            entries.push(entry);
            proof {
                assert(self.entries@.take(index + 1) =~= self.entries@.take(index as int).push(
                    entry,
                ));
            }
            index += 1;
        }
        assert(entries@ =~= self.entries@);
        KeyMap { entries }
    }
}

/// The map with each value replaced by its view.
pub open spec fn viewed<K, V: View>(map: Map<K, V>) -> Map<K, V::V> {
    map.map_values(|value: V| value@)
}

/// The sequence with each element replaced by its view.
pub open spec fn viewed_seq<V: View>(items: Seq<V>) -> Seq<V::V> {
    items.map_values(|value: V| value@)
}

pub broadcast proof fn lemma_viewed_insert<K, V: View>(map: Map<K, V>, key: K, value: V)
    ensures
        #[trigger] viewed(map.insert(key, value)) == viewed(map).insert(key, value@),
{
    assert(viewed(map.insert(key, value)) =~= viewed(map).insert(key, value@));
}

pub broadcast proof fn lemma_viewed_remove<K, V: View>(map: Map<K, V>, key: K)
    ensures
        #[trigger] viewed(map.remove(key)) == viewed(map).remove(key),
{
    assert(viewed(map.remove(key)) =~= viewed(map).remove(key));
}

pub proof fn lemma_viewed_restrict<K, V: View>(map: Map<K, V>, keys: Set<K>)
    ensures
        viewed(map.restrict(keys)) == viewed(map).restrict(keys),
{
    assert(viewed(map.restrict(keys)) =~= viewed(map).restrict(keys));
}

pub broadcast proof fn lemma_viewed_empty<K, V: View>()
    ensures
        #[trigger] viewed(Map::<K, V>::empty()) == Map::<K, V::V>::empty(),
{
    assert(viewed(Map::<K, V>::empty()) =~= Map::<K, V::V>::empty());
}

pub broadcast proof fn lemma_viewed_push<V: View>(items: Seq<V>, item: V)
    ensures
        #[trigger] viewed_seq(items.push(item)) == viewed_seq(items).push(item@),
{
    assert(viewed_seq(items.push(item)) =~= viewed_seq(items).push(item@));
}

pub broadcast group group_viewed {
    lemma_viewed_insert,
    lemma_viewed_remove,
    lemma_viewed_empty,
    lemma_viewed_push,
}

} // verus!
