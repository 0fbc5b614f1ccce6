//! The expiring key-value store.
//!
//! A [`Store`] maps byte-string keys to entries; each entry records its value,
//! an optional time-to-live in milliseconds, and the time it was written. An
//! entry whose time-to-live has elapsed is treated as absent on read; it is
//! never removed eagerly. The clock is an explicit argument: every operation
//! takes the current time in milliseconds, so that callers choose one clock
//! and expiry never depends on hidden state.
//!
//! The store itself is a single-threaded value; callers that share it across
//! connections guard it with a lock around each operation.
use vstd::prelude::*;

use crate::bytes::bytes_eq;

verus! {

/// One stored entry: the value, the optional time-to-live, and the write time.
pub struct Entry {
    pub value: Vec<u8>,
    pub ttl_ms: Option<u64>,
    pub created_at_ms: u64,
}

/// Mathematical image of an [`Entry`].
pub struct EntryV {
    pub value: Seq<u8>,
    pub ttl_ms: Option<u64>,
    pub created_at_ms: u64,
}

impl View for Entry {
    type V = EntryV;

    open spec fn view(&self) -> EntryV {
        EntryV { value: self.value@, ttl_ms: self.ttl_ms, created_at_ms: self.created_at_ms }
    }
}

/// An entry is live at `now_ms` unless its time-to-live has elapsed: an entry
/// with no time-to-live never expires, and one with time-to-live `t` is live
/// while no more than `t` milliseconds have passed since it was written.
pub open spec fn entry_live(e: EntryV, now_ms: u64) -> bool {
    match e.ttl_ms {
        Option::None => true,
        Option::Some(t) => now_ms - e.created_at_ms <= t,
    }
}

/// What a read of key `k` at time `now_ms` returns from contents `m`: the
/// value when the key is present and live, absent both when the key was never
/// written and when its time-to-live has elapsed.
pub open spec fn spec_read(m: Map<Seq<u8>, EntryV>, k: Seq<u8>, now_ms: u64) -> Option<Seq<u8>> {
    if m.dom().contains(k) && entry_live(m[k], now_ms) {
        Option::Some(m[k].value)
    } else {
        Option::None
    }
}

struct Slot {
    key: Vec<u8>,
    entry: Entry,
}

/// First-match lookup in the slot list; the newest write for a key sits
/// closest to the front.
spec fn lookup(slots: Seq<Slot>, k: Seq<u8>) -> Option<EntryV>
    decreases slots.len(),
{
    if slots.len() == 0 {
        Option::None
    } else if slots[0].key@ == k {
        Option::Some(slots[0].entry@)
    } else {
        lookup(slots.drop_first(), k)
    }
}

/// The mapping from key to entry. New writes go to the front of the slot
/// list, and reads take the first match, so stale slots further back are
/// unreachable.
pub struct Store {
    slots: Vec<Slot>,
}

impl Store {
    /// The mapping this store represents.
    pub closed spec fn contents(&self) -> Map<Seq<u8>, EntryV> {
        Map::new(
            |k: Seq<u8>| lookup(self.slots@, k) is Some,
            |k: Seq<u8>| lookup(self.slots@, k)->Some_0,
        )
    }

    /// Creates an empty store.
    pub fn new() -> (s: Store)
        ensures
            s.contents() == Map::<Seq<u8>, EntryV>::empty(),
    {
        let s = Store { slots: Vec::new() };
        proof {
            assert(s.contents() =~= Map::<Seq<u8>, EntryV>::empty());
        }
        s
    }
}

/// Inserts or replaces the entry for `key`, recording `now_ms` as the write
/// time and, when given, the time-to-live. Always succeeds.
pub fn write_to_storage(
    store: &mut Store,
    key: Vec<u8>,
    value: Vec<u8>,
    ttl_ms: Option<u64>,
    now_ms: u64,
)
    ensures
        final(store).contents() == old(store).contents().insert(
            key@,
            EntryV { value: value@, ttl_ms, created_at_ms: now_ms },
        ),
{
    let ghost old_slots = store.slots@;
    let ghost kv = key@;
    let ghost ev = EntryV { value: value@, ttl_ms, created_at_ms: now_ms };
    let slot = Slot { key, entry: Entry { value, ttl_ms, created_at_ms: now_ms } };
    store.slots.insert(0, slot);
    proof {
        assert(store.slots@.drop_first() =~= old_slots);
        assert(store.slots@[0].key@ == kv);
        assert(store.slots@[0].entry@ == ev);
        assert forall|k: Seq<u8>| true implies lookup(store.slots@, k) == (if k == kv {
            Option::Some(ev)
        } else {
            lookup(old_slots, k)
        }) by {
            if k == kv {
            } else {
                assert(store.slots@[0].key@ != k);
            }
        }
        assert(store.contents() =~= old(store).contents().insert(kv, ev));
    }
}

/// Returns the value stored under `key` when it is present and live at
/// `now_ms`; absent both for a key never written and for one whose
/// time-to-live has elapsed. Never returns a stale value.
pub fn read_from_storage(store: &Store, key: &Vec<u8>, now_ms: u64) -> (r: Option<Vec<u8>>)
    ensures
        match r {
            Option::Some(v) => spec_read(store.contents(), key@, now_ms) == Option::Some(v@),
            Option::None => spec_read(store.contents(), key@, now_ms) is None,
        },
{
    let n = store.slots.len();
    let mut i: usize = 0;
    proof {
        assert(store.slots@.skip(0) =~= store.slots@);
    }
    while i < n
        invariant
            n == store.slots.len(),
            i <= n,
            lookup(store.slots@, key@) == lookup(store.slots@.skip(i as int), key@),
        decreases n - i,
    {
        let slot = &store.slots[i];
        if bytes_eq(&slot.key, key) {
            proof {
                assert(store.slots@.skip(i as int)[0].key@ == key@);
                assert(lookup(store.slots@, key@) == Option::Some(store.slots@[i as int].entry@));
                assert(store.contents().dom().contains(key@));
                assert(store.contents()[key@] == store.slots@[i as int].entry@);
            }
            let live = match slot.entry.ttl_ms {
                Option::None => true,
                Option::Some(t) => {
                    let elapsed = if now_ms >= slot.entry.created_at_ms {
                        now_ms - slot.entry.created_at_ms
                    } else {
                        0
                    };
                    elapsed <= t
                },
            };
            if live {
                return Some(slot.entry.value.clone());
            } else {
                return None;
            }
        }
        proof {
            assert(store.slots@.skip(i as int).drop_first() =~= store.slots@.skip(i as int + 1));
        }
        i += 1;
    }
    proof {
        assert(store.slots@.skip(n as int) =~= Seq::<Slot>::empty());
        assert(lookup(store.slots@, key@) is None);
        assert(!store.contents().dom().contains(key@));
    }
    None
}

/// Writing a key and reading it back at any later time yields the value just
/// written, when no time-to-live was given.
pub proof fn lemma_write_then_read(
    m: Map<Seq<u8>, EntryV>,
    k: Seq<u8>,
    v: Seq<u8>,
    now_ms: u64,
    later_ms: u64,
)
    ensures
        spec_read(
            m.insert(k, EntryV { value: v, ttl_ms: Option::None, created_at_ms: now_ms }),
            k,
            later_ms,
        ) == Option::Some(v),
{
}

/// Reading a key that was never written yields absent, at any time.
pub proof fn lemma_read_unwritten(m: Map<Seq<u8>, EntryV>, k: Seq<u8>, now_ms: u64)
    requires
        !m.dom().contains(k),
    ensures
        spec_read(m, k, now_ms) is None,
{
}

/// Writing a key with time-to-live `t` and reading it back yields the value
/// while no more than `t` milliseconds have passed, and absent after more
/// than `t` milliseconds have passed.
pub proof fn lemma_write_ttl_then_read(
    m: Map<Seq<u8>, EntryV>,
    k: Seq<u8>,
    v: Seq<u8>,
    t: u64,
    now_ms: u64,
    later_ms: u64,
)
    ensures
        later_ms - now_ms <= t ==> spec_read(
            m.insert(k, EntryV { value: v, ttl_ms: Option::Some(t), created_at_ms: now_ms }),
            k,
            later_ms,
        ) == Option::Some(v),
        later_ms - now_ms > t ==> spec_read(
            m.insert(k, EntryV { value: v, ttl_ms: Option::Some(t), created_at_ms: now_ms }),
            k,
            later_ms,
        ) is None,
{
}

} // verus!
