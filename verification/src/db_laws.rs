//! What holds of the store, stated over what it holds: writes, reads and
//! the purge of what is due.

use crate::db::{expired, purged, Stored};
use vstd::prelude::*;

verus! {

/// One write: the key and what is stored under it.
pub struct Write {
    pub key: Seq<char>,
    pub stored: Stored,
}

/// What is stored after the writes of `writes` were made in order.
pub open spec fn after_writes(m: Map<Seq<char>, Stored>, writes: Seq<Write>) -> Map<
    Seq<char>,
    Stored,
>
    decreases writes.len(),
{
    if writes.len() == 0 {
        m
    } else {
        after_writes(m, writes.drop_last()).insert(writes.last().key, writes.last().stored)
    }
}

/// A read after a write gives what was written, and a second write to the
/// key leaves nothing of the first.
pub proof fn lemma_last_write_wins(
    m: Map<Seq<char>, Stored>,
    key: Seq<char>,
    first: Stored,
    second: Stored,
)
    ensures
        m.insert(key, first).contains_key(key),
        m.insert(key, first)[key] == first,
        m.insert(key, first).insert(key, second) == m.insert(key, second),
{
}

/// A write without a time to live clears the deadline that the key had:
/// the key outlasts every purge.
pub proof fn lemma_overwrite_clears_expiration(
    m: Map<Seq<char>, Stored>,
    key: Seq<char>,
    first: Stored,
    data: Seq<u8>,
    now: u64,
)
    ensures
        ({
            let written = m.insert(key, first).insert(key, Stored { data, expires_at: None });
            purged(written, now).contains_key(key) && purged(written, now)[key].data == data
        }),
{
}

/// What is written with a deadline is there until the deadline and gone
/// from the first purge at or after it.
pub proof fn lemma_expiry(
    m: Map<Seq<char>, Stored>,
    key: Seq<char>,
    data: Seq<u8>,
    when: u128,
    now: u64,
)
    ensures
        ({
            let written = m.insert(key, Stored { data, expires_at: Some(when) });
            &&& written.contains_key(key) && written[key].data == data
            &&& now < when ==> purged(written, now).contains_key(key) && purged(
                written,
                now,
            )[key].data == data
            &&& now >= when ==> !purged(written, now).contains_key(key)
        }),
{
}

/// A purge takes everything that is due and nothing else.
pub proof fn lemma_purge_exact(m: Map<Seq<char>, Stored>, now: u64, key: Seq<char>)
    ensures
        purged(m, now).contains_key(key) <==> m.contains_key(key) && !expired(m[key], now),
        purged(m, now).contains_key(key) ==> purged(m, now)[key] == m[key],
{
}

/// Two keys written with the same deadline are both gone once it has
/// passed: neither stands in the way of the other.
pub proof fn lemma_same_deadline_both_purged(
    m: Map<Seq<char>, Stored>,
    k1: Seq<char>,
    d1: Seq<u8>,
    k2: Seq<char>,
    d2: Seq<u8>,
    when: u128,
    now: u64,
)
    requires
        k1 != k2,
        now >= when,
    ensures
        ({
            let written = m.insert(k1, Stored { data: d1, expires_at: Some(when) }).insert(
                k2,
                Stored { data: d2, expires_at: Some(when) },
            );
            &&& written.contains_key(k1) && written.contains_key(k2)
            &&& !purged(written, now).contains_key(k1)
            &&& !purged(written, now).contains_key(k2)
        }),
{
}

/// After writes to keys that all differ, in whatever order they were made,
/// each key holds what was written to it.
pub proof fn lemma_writes_to_distinct_keys(m: Map<Seq<char>, Stored>, writes: Seq<Write>, i: int)
    requires
        0 <= i < writes.len(),
        forall|a: int, b: int|
            0 <= a < b < writes.len() ==> (#[trigger] writes[a]).key != (#[trigger] writes[b]).key,
    ensures
        after_writes(m, writes).contains_key(writes[i].key),
        after_writes(m, writes)[writes[i].key] == writes[i].stored,
    decreases writes.len(),
{
    if i < writes.len() - 1 {
        let rest = writes.drop_last();
        lemma_writes_to_distinct_keys(m, rest, i);
    }
}

/// Whether the `i`-th of `writes` is to `key` and is what is stored under
/// it in `m`.
pub open spec fn left_by(
    m: Map<Seq<char>, Stored>,
    writes: Seq<Write>,
    key: Seq<char>,
    i: int,
) -> bool {
    &&& 0 <= i < writes.len()
    &&& writes[i].key == key
    &&& m.contains_key(key)
    &&& m[key] == writes[i].stored
}

/// After writes in any order, a key holds one of the values written to it,
/// whole, or what it held before if none was written to it.
pub proof fn lemma_writes_leave_one_value(
    m: Map<Seq<char>, Stored>,
    writes: Seq<Write>,
    key: Seq<char>,
)
    ensures
        ({
            let after = after_writes(m, writes);
            ||| exists|i: int| left_by(after, writes, key, i)
            ||| {
                &&& forall|i: int| 0 <= i < writes.len() ==> (#[trigger] writes[i]).key != key
                &&& after.contains_key(key) <==> m.contains_key(key)
                &&& m.contains_key(key) ==> after[key] == m[key]
            }
        }),
    decreases writes.len(),
{
    if writes.len() > 0 {
        let rest = writes.drop_last();
        let after = after_writes(m, writes);
        if writes.last().key == key {
            assert(left_by(after, writes, key, writes.len() - 1));
        } else {
            lemma_writes_leave_one_value(m, rest, key);
            if exists|i: int| left_by(after_writes(m, rest), rest, key, i) {
                let i = choose|i: int| left_by(after_writes(m, rest), rest, key, i);
                assert(left_by(after, writes, key, i));
            } else {
                assert forall|i: int| 0 <= i < writes.len() implies (#[trigger] writes[i]).key
                    != key by {
                    if i < rest.len() {
                        assert(rest[i].key != key);
                    }
                }
            }
        }
    }
}

} // verus!
