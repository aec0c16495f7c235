//! The store: keys, their values, and the index of pending expirations.

use crate::buffer::{bytes_clone, bytes_view};
use crate::time::{deadline_of, duration_as_secs, duration_subsec, duration_view, NANOS_PER_SEC};
use bytes::Bytes;
use std::collections::BTreeMap;
use std::time::Duration;
use vstd::hash_map::StringHashMap;
use vstd::prelude::*;

verus! {

broadcast use {vstd::laws_cmp::group_laws_cmp, vstd::std_specs::btree::group_btree_axioms};

/// What is stored under a key.
#[derive(Debug)]
struct Entry {
    /// The number of the `set` that wrote the entry.
    id: u64,
    data: Bytes,
    /// When the entry expires, in nanoseconds of the store's clock.
    expires_at: Option<u128>,
}

/// What is stored under a key, as the contracts see it.
pub struct Stored {
    pub data: Seq<u8>,
    pub expires_at: Option<u128>,
}

/// Whether what is stored is due at `now`.
pub open spec fn expired(s: Stored, now: u64) -> bool {
    s.expires_at matches Some(t) && t <= now
}

/// What is left of `m` once everything due at `now` is gone.
pub open spec fn purged(m: Map<Seq<char>, Stored>, now: u64) -> Map<Seq<char>, Stored> {
    m.remove_keys(Set::new(|k: Seq<char>| m.contains_key(k) && expired(m[k], now)))
}

/// Whether `t` is the first deadline among all that is stored.
pub open spec fn is_earliest(m: Map<Seq<char>, Stored>, t: u128) -> bool {
    &&& exists|k: Seq<char>| m.contains_key(k) && #[trigger] m[k].expires_at == Some(t)
    &&& forall|k: Seq<char>|
        m.contains_key(k) ==> (#[trigger] m[k].expires_at matches Some(t2) ==> t <= t2)
}

/// Whether every deadline among all that is stored lies after `t`; so it
/// is where nothing has a deadline.
pub open spec fn all_later(m: Map<Seq<char>, Stored>, t: u128) -> bool {
    forall|k: Seq<char>|
        m.contains_key(k) ==> (#[trigger] m[k].expires_at matches Some(t2) ==> t < t2)
}

/// Whether nothing that is stored has a deadline.
pub open spec fn no_deadline(m: Map<Seq<char>, Stored>) -> bool {
    forall|k: Seq<char>| m.contains_key(k) ==> (#[trigger] m[k].expires_at) is None
}

/// When something written at `now` expires, in nanoseconds of the store's
/// clock.
pub open spec fn deadline(now: u64, expire: Option<Duration>) -> Option<u128> {
    match expire {
        Some(d) => deadline_of(now, Some(duration_view(d))),
        None => None,
    }
}

/// `BTreeMap::first_key_value`: the entry with the least key, where tuples
/// are ordered by their first component and then by their second; `None`
/// for an empty map.
#[verifier::external_body]
fn first_expiration(index: &BTreeMap<(u128, u64), String>) -> (r: Option<
    (&(u128, u64), &String),
>)
    ensures
        match r {
            Some((first, key)) => index@.contains_key(*first) && index@[*first] == *key
                && forall|t: u128, i: u64| #[trigger]
                    index@.contains_key((t, i)) ==> first.0 < t || (first.0 == t && first.1 <= i),
            None => index@ == Map::<(u128, u64), String>::empty(),
        },
{
    index.first_key_value()
}

/// The store. Time is what the caller's clock says, in nanoseconds since a
/// start of the caller's choice.
pub struct Db {
    entries: StringHashMap<Entry>,
    /// For each entry with a deadline, its key under the deadline and the
    /// number of the write.
    expirations: BTreeMap<(u128, u64), String>,
    next_id: u64,
    shutdown: bool,
}

/// What the task that purges expired keys does next.
#[derive(Debug, Clone, Copy, PartialEq, Eq, Structural)]
pub enum Reaper {
    /// The store is shut down: end.
    Exit,
    /// Sleep until this deadline or until woken, whichever is first.
    SleepUntil(u128),
    /// Nothing has a deadline: sleep until woken.
    Sleep,
}

impl View for Db {
    type V = Map<Seq<char>, Stored>;

    closed spec fn view(&self) -> Map<Seq<char>, Stored> {
        self.entries@.map_values(
            |e: Entry| Stored { data: bytes_view(e.data), expires_at: e.expires_at },
        )
    }
}

impl Db {
    /// The index holds one record for each entry with a deadline, under
    /// that deadline and the entry's own number, and nothing else; and each
    /// entry's number is below the next one to give out.
    pub closed spec fn wf(&self) -> bool {
        &&& forall|k: Seq<char>| #[trigger]
            self.entries@.contains_key(k) ==> {
                let e = self.entries@[k];
                &&& e.id < self.next_id
                &&& e.expires_at matches Some(t) ==> self.expirations@.contains_key((t, e.id))
                    && self.expirations@[(t, e.id)]@ == k
            }
        &&& forall|t: u128, i: u64| #[trigger]
            self.expirations@.contains_key((t, i)) ==> {
                let k = self.expirations@[(t, i)]@;
                &&& self.entries@.contains_key(k)
                &&& self.entries@[k].id == i
                &&& self.entries@[k].expires_at == Some(t)
            }
    }

    /// How many writes the store has seen.
    pub closed spec fn writes(&self) -> u64 {
        self.next_id
    }

    /// Whether the store was shut down.
    pub closed spec fn stopped(&self) -> bool {
        self.shutdown
    }

    /// An empty store.
    pub fn new() -> (db: Db)
        ensures
            db.wf(),
            db@ == Map::<Seq<char>, Stored>::empty(),
            db.writes() == 0,
            !db.stopped(),
    {
        let db = Db {
            entries: StringHashMap::new(),
            expirations: BTreeMap::new(),
            next_id: 0,
            shutdown: false,
        };
        db
    }

    /// A copy of the bytes stored under `key`.
    pub fn get(&self, key: &str) -> (r: Option<Bytes>)
        ensures
            match r {
                Some(data) => self@.contains_key(key@) && bytes_view(data) == self@[key@].data,
                None => !self@.contains_key(key@),
            },
    {
        match self.entries.get(key) {
            Some(entry) => Some(bytes_clone(&entry.data)),
            None => None,
        }
    }

    /// Whether the store can take another write: the writes are numbered
    /// in 64 bits.
    pub fn has_room(&self) -> (r: bool)
        ensures
            r == (self.writes() < u64::MAX),
    {
        self.next_id < u64::MAX
    }

    /// Stores `value` under `key`, in place of what was there. With
    /// `expire` the entry is due that long after `now`; without, it stays,
    /// whatever deadline the key had before. The result says whether the
    /// new deadline is earlier than every other, so that the task that
    /// purges expired keys has to be woken.
    pub fn set(&mut self, key: String, value: Bytes, expire: Option<Duration>, now: u64) -> (notify:
        bool)
        requires
            old(self).wf(),
            old(self).writes() < u64::MAX,
        ensures
            final(self).wf(),
            final(self)@ == old(self)@.insert(
                key@,
                Stored { data: bytes_view(value), expires_at: deadline(now, expire) },
            ),
            notify == (deadline(now, expire) matches Some(when) && all_later(old(self)@, when)),
            final(self).writes() == old(self).writes() + 1,
            final(self).stopped() == old(self).stopped(),
    {
        let id = self.next_id;
        self.next_id = id + 1;
        let mut notify = false;
        let expires_at = match expire {
            Some(duration) => {
                let when: u128 = now as u128 + duration_as_secs(&duration) as u128 * NANOS_PER_SEC
                    + duration_subsec(&duration) as u128;
                let first = self.next_expiration();
                notify =
                match first {
                    Some(first) => first > when,
                    None => true,
                };
                proof {
                    if let Some(f) = first {
                        if f <= when {
                            let k = choose|k: Seq<char>|
                                self@.contains_key(k) && #[trigger] self@[k].expires_at == Some(f);
                        }
                    }
                }
                self.expirations.insert((when, id), key.clone());
                Some(when)
            },
            None => None,
        };
        let prev: Option<(Option<u128>, u64)> = match self.entries.get(key.as_str()) {
            Some(entry) => Some((entry.expires_at, entry.id)),
            None => None,
        };
        self.entries.insert(key, Entry { id, data: value, expires_at });
        if let Some((Some(when), prev_id)) = prev {
            self.expirations.remove(&(when, prev_id));
        }
        notify
    }

    /// The first deadline among all that is stored.
    pub fn next_expiration(&self) -> (r: Option<u128>)
        requires
            self.wf(),
        ensures
            match r {
                Some(when) => is_earliest(self@, when),
                None => no_deadline(self@),
            },
    {
        let r = match first_expiration(&self.expirations) {
            Some((first, _)) => Some(first.0),
            None => None,
        };
        proof {
            self.lemma_first(r);
        }
        r
    }

    /// Whether `when` is the least deadline that the index holds.
    spec fn first_in_index(&self, when: u128) -> bool {
        &&& exists|i: u64| #[trigger] self.expirations@.contains_key((when, i))
        &&& forall|t: u128, j: u64| #[trigger] self.expirations@.contains_key((t, j)) ==> when <= t
    }

    /// In a well-formed store the first deadline of the index is the first
    /// deadline of the entries.
    proof fn lemma_first(&self, r: Option<u128>)
        requires
            self.wf(),
            match r {
                Some(when) => self.first_in_index(when),
                None => self.expirations@ == Map::<(u128, u64), String>::empty(),
            },
        ensures
            match r {
                Some(when) => is_earliest(self@, when),
                None => no_deadline(self@),
            },
    {
        match r {
            Some(when) => {
                let i = choose|i: u64| #[trigger] self.expirations@.contains_key((when, i));
                let k = self.expirations@[(when, i)]@;
                assert(self@.contains_key(k) && self@[k].expires_at == Some(when));
                assert forall|k2: Seq<char>| self@.contains_key(k2) implies (
                #[trigger] self@[k2].expires_at matches Some(t2) ==> when <= t2) by {
                }
            },
            None => {
                assert forall|k2: Seq<char>| self@.contains_key(k2) implies (
                #[trigger] self@[k2].expires_at) is None by {
                }
            },
        }
    }

    /// Whether the store was shut down.
    pub fn is_shutdown(&self) -> (r: bool)
        ensures
            r == self.stopped(),
    {
        self.shutdown
    }

    /// Shuts the store down: from now on nothing is purged.
    pub fn shutdown(&mut self)
        ensures
            final(self).stopped(),
            final(self)@ == old(self)@,
            final(self).writes() == old(self).writes(),
            old(self).wf() ==> final(self).wf(),
    {
        self.shutdown = true;
    }

    /// Removes everything that is due at `now` and says what the first
    /// deadline is after that. A store that was shut down is left as it is.
    pub fn purge_expired_keys(&mut self, now: u64) -> (r: Option<u128>)
        requires
            old(self).wf(),
        ensures
            final(self).wf(),
            final(self).writes() == old(self).writes(),
            final(self).stopped() == old(self).stopped(),
            old(self).stopped() ==> r is None && final(self)@ == old(self)@,
            !old(self).stopped() ==> final(self)@ == purged(old(self)@, now) && match r {
                Some(when) => is_earliest(final(self)@, when) && when > now,
                None => no_deadline(final(self)@),
            },
    {
        if self.shutdown {
            return None;
        }
        loop
            invariant
                self.wf(),
                !self.shutdown,
                self.next_id == old(self).next_id,
                self.shutdown == old(self).shutdown,
                forall|k: Seq<char>| #[trigger]
                    self@.contains_key(k) ==> old(self)@.contains_key(k) && self@[k] == old(
                        self,
                    )@[k],
                forall|k: Seq<char>| #[trigger]
                    old(self)@.contains_key(k) && !self@.contains_key(k) ==> expired(
                        old(self)@[k],
                        now,
                    ),
            decreases self.expirations@.len(),
        {
            match first_expiration(&self.expirations) {
                None => {
                    return None;
                },
                Some((first, key)) => {
                    let when = first.0;
                    let id = first.1;
                    if when > now as u128 {
                        proof {
                            assert(self@.contains_key(key@));
                        }
                        return Some(when);
                    }
                    let ghost before = *self;
                    self.entries.remove(key.as_str());
                    self.expirations.remove(&(when, id));
                    proof {
                        assert(self@ =~= before@.remove(key@));
                    }
                },
            }
        }
    }
}

/// One round of the task that purges expired keys: what was due at `now`
/// is removed, and the result says how long the task may sleep.
pub fn purge_expired_tasks(db: &mut Db, now: u64) -> (r: Reaper)
    requires
        old(db).wf(),
    ensures
        final(db).wf(),
        final(db).writes() == old(db).writes(),
        final(db).stopped() == old(db).stopped(),
        old(db).stopped() ==> r == Reaper::Exit && final(db)@ == old(db)@,
        !old(db).stopped() ==> final(db)@ == purged(old(db)@, now) && match r {
            Reaper::SleepUntil(when) => is_earliest(final(db)@, when) && when > now,
            Reaper::Sleep => no_deadline(final(db)@),
            Reaper::Exit => false,
        },
{
    if db.is_shutdown() {
        return Reaper::Exit;
    }
    match db.purge_expired_keys(now) {
        Some(when) => Reaper::SleepUntil(when),
        None => Reaper::Sleep,
    }
}

} // verus!
