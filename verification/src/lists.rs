//! The list store: every key names an ordered sequence of text values that
//! grows at either end and is read by signed, inclusive index ranges.

use std::collections::VecDeque;
use vstd::hash_map::StringHashMap;
use vstd::prelude::*;

verus! {

/// The first position of the range that a signed `start` index selects in a
/// list of `len` items: as given when non-negative, counted from the end when
/// negative, and the head of the list when it reaches back beyond it.
pub open spec fn range_start(len: int, start: int) -> int {
    if start >= 0 {
        start
    } else if start > -len {
        len + start
    } else {
        0
    }
}

/// The position just past the range that a signed, inclusive `end` index
/// selects in a list of `len` items.
pub open spec fn range_end(len: int, end: int) -> int {
    if end >= 0 {
        if end + 1 < len {
            end + 1
        } else {
            len
        }
    } else if end > -len {
        len + end + 1
    } else {
        0
    }
}

/// The items of `list` that the signed index range `start..=end` selects.
pub open spec fn range_of<T>(list: Seq<T>, start: int, end: int) -> Seq<T> {
    let len = list.len() as int;
    let from = range_start(len, start);
    let to = range_end(len, end);
    if from >= len || from > to {
        Seq::empty()
    } else {
        list.subrange(from, to)
    }
}

/// Works out where the signed index range `start..=end` begins and where it
/// ends in a list of `len` items.
pub fn range_bounds(len: usize, start: i32, end: i32) -> (bounds: (usize, usize))
    ensures
        bounds.0 == range_start(len as int, start as int),
        bounds.1 == range_end(len as int, end as int),
{
    let len = len as i128;
    let start = start as i128;
    let end = end as i128;
    let from = if start >= 0 {
        start
    } else if start > -len {
        len + start
    } else {
        0
    };
    let to = if end >= 0 {
        if end + 1 < len {
            end + 1
        } else {
            len
        }
    } else if end > -len {
        len + end + 1
    } else {
        0
    };
    (from as usize, to as usize)
}

/// The list that `lists` holds under `key`; a key that is not there stands
/// for the empty list.
pub open spec fn list_at(lists: Map<Seq<char>, Seq<Seq<char>>>, key: Seq<char>) -> Seq<Seq<char>> {
    if lists.contains_key(key) {
        lists[key]
    } else {
        Seq::empty()
    }
}

/// The store's parts, held together so that they can be taken out of the
/// store, changed, and put back as one value. The index gives each key the
/// slot of its list: the map hands out no mutable reference to what it
/// holds, and through its slot a list grows in place, at either end.
struct Shelves {
    index: StringHashMap<usize>,
    slots: Vec<VecDeque<String>>,
}

impl Shelves {
    spec fn well_formed(self) -> bool {
        &&& forall|k: Seq<char>| #[trigger]
            self.index@.contains_key(k) ==> self.index@[k] < self.slots.len()
        &&& forall|j: Seq<char>, k: Seq<char>|
            #[trigger] self.index@.contains_key(j) && #[trigger] self.index@.contains_key(k) && j
                != k ==> self.index@[j] != self.index@[k]
    }

    spec fn lists(self) -> Map<Seq<char>, Seq<Seq<char>>> {
        Map::new(
            |k: Seq<char>| self.index@.contains_key(k),
            |k: Seq<char>| self.slots@[self.index@[k] as int].deep_view(),
        )
    }

    fn empty() -> (shelves: Self)
        ensures
            shelves.well_formed(),
            shelves.lists() == Map::<Seq<char>, Seq<Seq<char>>>::empty(),
    {
        let shelves = Shelves { index: StringHashMap::new(), slots: Vec::new() };
        assert(shelves.lists() =~= Map::<Seq<char>, Seq<Seq<char>>>::empty());
        shelves
    }

    fn slot_for(&mut self, key: &str) -> (slot: usize)
        requires
            old(self).well_formed(),
        ensures
            final(self).well_formed(),
            final(self).lists() == old(self).lists().insert(key@, list_at(old(self).lists(), key@)),
            final(self).index@.contains_key(key@),
            final(self).index@[key@] == slot,
    {
        match self.index.get(key) {
            Some(found) => {
                let slot = *found;
                assert(self.lists() =~= old(self).lists().insert(
                    key@,
                    list_at(old(self).lists(), key@),
                ));
                slot
            },
            None => {
                let slot = self.slots.len();
                self.slots.push(VecDeque::new());
                self.index.insert(key.to_owned(), slot);
                assert(self.slots@[slot as int].deep_view() =~= Seq::<Seq<char>>::empty());
                assert(self.lists() =~= old(self).lists().insert(
                    key@,
                    list_at(old(self).lists(), key@),
                ));
                slot
            },
        }
    }

    proof fn lemma_one_list_changed(self, before: Self, key: Seq<char>, list: Seq<Seq<char>>)
        requires
            before.well_formed(),
            before.index@.contains_key(key),
            self.index == before.index,
            self.slots@.len() == before.slots@.len(),
            self.slots@[before.index@[key] as int].deep_view() == list,
            forall|i: int|
                0 <= i < before.slots@.len() && i != before.index@[key] ==> self.slots@[i]
                    == before.slots@[i],
        ensures
            self.well_formed(),
            self.lists() == before.lists().insert(key, list),
    {
        assert forall|k: Seq<char>| #[trigger] self.lists().contains_key(k) && k != key implies self.lists()[k]
            == before.lists()[k] by {
            assert(before.index@.contains_key(k));
            assert(before.index@[k] != before.index@[key]);
        }
        assert(self.lists() =~= before.lists().insert(key, list));
    }

    fn push_back(&mut self, slot: usize, value: String, Ghost(key): Ghost<Seq<char>>)
        requires
            old(self).well_formed(),
            old(self).index@.contains_key(key),
            old(self).index@[key] == slot,
        ensures
            final(self).well_formed(),
            final(self).index == old(self).index,
            final(self).lists() == old(self).lists().insert(
                key,
                old(self).lists()[key].push(value@),
            ),
    {
        self.slots[slot].push_back(value);
        proof {
            let list = old(self).lists()[key].push(value@);
            assert(self.slots@[slot as int].deep_view() =~= list);
            self.lemma_one_list_changed(*old(self), key, list);
        }
    }

    fn push_front(&mut self, slot: usize, value: String, Ghost(key): Ghost<Seq<char>>)
        requires
            old(self).well_formed(),
            old(self).index@.contains_key(key),
            old(self).index@[key] == slot,
        ensures
            final(self).well_formed(),
            final(self).index == old(self).index,
            final(self).lists() == old(self).lists().insert(
                key,
                seq![value@] + old(self).lists()[key],
            ),
    {
        self.slots[slot].push_front(value);
        proof {
            let list = seq![value@] + old(self).lists()[key];
            assert(self.slots@[slot as int].deep_view() =~= list);
            self.lemma_one_list_changed(*old(self), key, list);
        }
    }
}

/// A map from keys to lists of text values.
pub struct ListStore {
    shelves: Shelves,
}

impl View for ListStore {
    type V = Map<Seq<char>, Seq<Seq<char>>>;

    closed spec fn view(&self) -> Map<Seq<char>, Seq<Seq<char>>> {
        self.shelves.lists()
    }
}

impl ListStore {
    #[verifier::type_invariant]
    spec fn well_formed(self) -> bool {
        self.shelves.well_formed()
    }

    /// A store without any key.
    pub fn new() -> (store: Self)
        ensures
            store@ == Map::<Seq<char>, Seq<Seq<char>>>::empty(),
    {
        ListStore { shelves: Shelves::empty() }
    }

    /// Appends `values`, in their order, to the list under `key`, which is
    /// created when it is not there yet, and returns the length of the list
    /// after that.
    pub fn rpush(&mut self, key: &str, values: &Vec<String>) -> (len: usize)
        ensures
            final(self)@ == old(self)@.insert(
                key@,
                list_at(old(self)@, key@) + values.deep_view(),
            ),
            len == list_at(old(self)@, key@).len() + values.len(),
    {
        proof {
            use_type_invariant(&*self);
        }
        let mut shelves = Shelves::empty();
        std::mem::swap(&mut self.shelves, &mut shelves);
        let slot = shelves.slot_for(key);
        let ghost start = list_at(old(self)@, key@);
        let mut i: usize = 0;
        while i < values.len()
            invariant
                0 <= i <= values.len(),
                shelves.well_formed(),
                shelves.index@.contains_key(key@),
                shelves.index@[key@] == slot,
                shelves.lists() == old(self)@.insert(
                    key@,
                    start + values.deep_view().subrange(0, i as int),
                ),
            decreases values.len() - i,
        {
            let value = values[i].clone();
            shelves.push_back(slot, value, Ghost(key@));
            i += 1;
            proof {
                let wanted = start + values.deep_view().subrange(0, i as int);
                assert(values.deep_view().subrange(0, i as int) =~= values.deep_view().subrange(
                    0,
                    i - 1,
                ).push(value@));
                assert(shelves.lists() =~= old(self)@.insert(key@, wanted));
            }
        }
        proof {
            assert(values.deep_view().subrange(0, i as int) =~= values.deep_view());
            assert(shelves.lists()[key@].len() == shelves.slots@[slot as int]@.len());
        }
        let len = shelves.slots[slot].len();
        std::mem::swap(&mut self.shelves, &mut shelves);
        len
    }

    /// Puts `values`, in their order, in front of the list under `key`, which
    /// is created when it is not there yet, and returns the length of the
    /// list after that. The first of `values` becomes the head of the list.
    pub fn lpush(&mut self, key: &str, values: &Vec<String>) -> (len: usize)
        ensures
            final(self)@ == old(self)@.insert(
                key@,
                values.deep_view() + list_at(old(self)@, key@),
            ),
            len == values.len() + list_at(old(self)@, key@).len(),
    {
        proof {
            use_type_invariant(&*self);
        }
        let mut shelves = Shelves::empty();
        std::mem::swap(&mut self.shelves, &mut shelves);
        let slot = shelves.slot_for(key);
        let ghost start = list_at(old(self)@, key@);
        let mut i: usize = values.len();
        while i > 0
            invariant
                0 <= i <= values.len(),
                shelves.well_formed(),
                shelves.index@.contains_key(key@),
                shelves.index@[key@] == slot,
                shelves.lists() == old(self)@.insert(
                    key@,
                    values.deep_view().subrange(i as int, values.len() as int) + start,
                ),
            decreases i,
        {
            i -= 1;
            let value = values[i].clone();
            shelves.push_front(slot, value, Ghost(key@));
            proof {
                let tail = values.deep_view().subrange(i as int, values.len() as int);
                let rest = values.deep_view().subrange(i + 1, values.len() as int);
                assert(tail =~= seq![value@] + rest);
                assert(tail + start =~= seq![value@] + (rest + start));
                assert(shelves.lists() =~= old(self)@.insert(key@, tail + start));
            }
        }
        proof {
            assert(values.deep_view().subrange(0, values.len() as int) =~= values.deep_view());
            assert(shelves.lists()[key@].len() == shelves.slots@[slot as int]@.len());
        }
        let len = shelves.slots[slot].len();
        std::mem::swap(&mut self.shelves, &mut shelves);
        len
    }

    /// The items that the signed, inclusive index range `start..=end` selects
    /// in the list under `key`; none where the key is not there.
    pub fn lrange(&self, key: &str, start: i32, end: i32) -> (items: Vec<String>)
        ensures
            items.deep_view() == range_of(list_at(self@, key@), start as int, end as int),
    {
        proof {
            use_type_invariant(self);
        }
        let mut items: Vec<String> = Vec::new();
        match self.shelves.index.get(key) {
            None => {
                assert(items.deep_view() =~= Seq::<Seq<char>>::empty());
            },
            Some(found) => {
                let list = &self.shelves.slots[*found];
                assert(list_at(self@, key@) == list.deep_view());
                let len: usize = list.len();
                let (from, to) = range_bounds(len, start, end);
                if from < len && from <= to {
                    let mut i: usize = from;
                    while i < to
                        invariant
                            from <= i <= to <= len,
                            len == list@.len(),
                            items.deep_view() == list.deep_view().subrange(from as int, i as int),
                        decreases to - i,
                    {
                        let ghost sofar = items.deep_view();
                        let item = list[i].clone();
                        items.push(item);
                        i += 1;
                        assert(items.deep_view() =~= sofar.push(item@));
                        assert(items.deep_view() =~= list.deep_view().subrange(
                            from as int,
                            i as int,
                        ));
                    }
                } else {
                    assert(items.deep_view() =~= Seq::<Seq<char>>::empty());
                }
            },
        }
        items
    }
}

} // verus!
