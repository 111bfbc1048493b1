//! The scalar store: every key names one text value, which may carry a
//! deadline after which it counts as gone.
//!
//! Time is counted in nanoseconds since the Unix epoch. A reading of the
//! clock is a `u64`; a deadline is a `u128`, wide enough for any reading plus
//! a time to live of any `u64` number of milliseconds.

use vstd::hash_map::StringHashMap;
use vstd::prelude::*;

verus! {

/// What the scalar store holds, as a map from each key to its value and its
/// deadline, if it has one.
pub type Entries = Map<Seq<char>, (Seq<char>, Option<u128>)>;

/// Tells whether a value with this deadline is gone at the instant `now`: it
/// is once `now` lies strictly after the deadline, and never without one.
pub open spec fn expired(deadline: Option<u128>, now: u64) -> bool {
    deadline matches Some(instant) && now > instant
}

/// The value that a read of `key` at the instant `now` gives.
pub open spec fn lookup(entries: Entries, key: Seq<char>, now: u64) -> Option<Seq<char>> {
    if entries.contains_key(key) && !expired(entries[key].1, now) {
        Some(entries[key].0)
    } else {
        None
    }
}

/// What the store holds after a read of `key` at the instant `now`: the read
/// removes the key when it finds its value gone.
pub open spec fn after_lookup(entries: Entries, key: Seq<char>, now: u64) -> Entries {
    if entries.contains_key(key) && expired(entries[key].1, now) {
        entries.remove(key)
    } else {
        entries
    }
}

struct Entry {
    value: String,
    deadline: Option<u128>,
}

/// A map from keys to text values with optional deadlines.
pub struct ScalarStore {
    entries: StringHashMap<Entry>,
}

impl View for ScalarStore {
    type V = Entries;

    closed spec fn view(&self) -> Entries {
        Map::new(
            |k: Seq<char>| self.entries@.contains_key(k),
            |k: Seq<char>| (self.entries@[k].value@, self.entries@[k].deadline),
        )
    }
}

impl ScalarStore {
    /// A store without any key.
    pub fn new() -> (store: Self)
        ensures
            store@ == Entries::empty(),
    {
        let store = ScalarStore { entries: StringHashMap::new() };
        assert(store@ =~= Entries::empty());
        store
    }

    /// Puts `value` under `key` with the given deadline, in place of whatever
    /// value and deadline the key had.
    pub fn set(&mut self, key: String, value: String, deadline: Option<u128>)
        ensures
            final(self)@ == old(self)@.insert(key@, (value@, deadline)),
    {
        self.entries.insert(key, Entry { value, deadline });
        assert(self@ =~= old(self)@.insert(key@, (value@, deadline)));
    }

    /// Reads the value under `key` at the instant `now`. A value whose
    /// deadline has passed is not returned, and its key is removed.
    pub fn get(&mut self, key: &str, now: u64) -> (value: Option<String>)
        ensures
            match value {
                Some(text) => lookup(old(self)@, key@, now) == Some(text@),
                None => lookup(old(self)@, key@, now) is None,
            },
            final(self)@ == after_lookup(old(self)@, key@, now),
    {
        let (value, stale) = match self.entries.get(key) {
            None => (None, false),
            Some(entry) => match entry.deadline {
                None => (Some(entry.value.clone()), false),
                Some(instant) => if now as u128 > instant {
                    (None, true)
                } else {
                    (Some(entry.value.clone()), false)
                },
            },
        };
        if stale {
            self.entries.remove(key);
            assert(self@ =~= old(self)@.remove(key@));
        }
        value
    }
}

} // verus!
