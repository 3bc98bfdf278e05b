//! The key interning cache: a direct-mapped table of fixed capacity that
//! keeps the keys of recent short member names, so that a name met again is
//! served from the table in place of a new allocation.

use crate::hash::{cache_hash, spec_cache_hash};
use crate::value::Key;
use vstd::prelude::*;
use vstd::utf8::encode_utf8;

verus! {

/// The longest member name, in bytes, that the cache keeps.
pub const KEY_LIMIT: usize = 64;

/// The number of slots of a cache made by [`KeyCache::new`].
pub const DEFAULT_CAPACITY: usize = 2048;

/// One occupied slot: the hash under which the key was stored, and the key.
pub struct CacheEntry {
    pub hash: u64,
    pub key: Key,
}

/// The table. A slot is found from a hash alone, and a new entry replaces
/// whatever its slot held.
pub struct KeyCache {
    slots: Vec<Option<CacheEntry>>,
}

/// The table as plain values: for each slot, the hash and the text of the
/// entry that it holds, if it holds one.
pub type Table = Seq<Option<(u64, Seq<char>)>>;

/// The slot that a hash selects in a table of `capacity` slots.
pub open spec fn slot_of(hash: u64, capacity: nat) -> int {
    hash as int % capacity as int
}

/// Every entry sits in the slot its hash selects, under the hash of its own
/// text, and no text is over the limit.
pub open spec fn table_wf(table: Table) -> bool {
    &&& table.len() > 0
    &&& forall|i: int|
        0 <= i < table.len() ==> (#[trigger] table[i] matches Some(e) ==> {
            &&& e.0 == spec_cache_hash(encode_utf8(e.1))
            &&& slot_of(e.0, table.len()) == i
            &&& encode_utf8(e.1).len() <= KEY_LIMIT
        })
}

/// Whether the slot selected by `hash` holds an entry stored under `hash`.
pub open spec fn hit(table: Table, hash: u64) -> bool {
    table[slot_of(hash, table.len())] matches Some(e) && e.0 == hash
}

/// The text of the entry in the slot selected by `hash`.
pub open spec fn cached_text(table: Table, hash: u64) -> Option<Seq<char>> {
    match table[slot_of(hash, table.len())] {
        Some(e) => Some(e.1),
        None => None,
    }
}

/// No entry has the hash of `text` and another text.
pub open spec fn agrees_with(table: Table, text: Seq<char>) -> bool {
    forall|i: int|
        0 <= i < table.len() ==> (#[trigger] table[i] matches Some(e) ==> (e.0 == spec_cache_hash(
            encode_utf8(text),
        ) ==> e.1 == text))
}

/// The number of occupied slots.
pub open spec fn occupied_count(table: Table) -> nat
    decreases table.len(),
{
    if table.len() == 0 {
        0
    } else {
        occupied_count(table.drop_last()) + if table.last() is Some {
            1nat
        } else {
            0nat
        }
    }
}

/// What one interning of `text` does: `pre` is the table before, `post` the
/// table after, and `key` the text of the key handed out.
///
/// A name over the limit gets a key of its own and leaves the table alone.
/// A shorter name whose slot holds an entry of the same hash gets that entry's
/// key, whatever its text. Any other gets a key of its own, which takes the slot.
pub open spec fn interned(
    pre: Table,
    text: Seq<char>,
    post: Table,
    key: Seq<char>,
) -> bool {
    let hash = spec_cache_hash(encode_utf8(text));
    if encode_utf8(text).len() > KEY_LIMIT {
        post == pre && key == text
    } else if hit(pre, hash) {
        post == pre && Some(key) == cached_text(pre, hash)
    } else {
        key == text && post == pre.update(slot_of(hash, pre.len()), Some((hash, text)))
    }
}

/// The slots as plain values: for each slot, the hash and the text of the
/// entry that it holds.
pub open spec fn table_of(slots: Seq<Option<CacheEntry>>) -> Table {
    Seq::new(
        slots.len(),
        |i: int|
            match slots[i] {
                Some(e) => Some((e.hash, e.key@)),
                None => None,
            },
    )
}

impl View for KeyCache {
    type V = Table;

    /// The table as plain values.
    closed spec fn view(&self) -> Table {
        table_of(self.slots@)
    }
}

impl KeyCache {
    #[verifier::type_invariant]
    spec fn inv(&self) -> bool {
        table_wf(self@)
    }

    /// An empty cache of `capacity` slots; none where `capacity` is zero.
    pub fn with_capacity(capacity: usize) -> (cache: Option<KeyCache>)
        ensures
            capacity == 0 <==> cache is None,
            cache matches Some(c) ==> {
                &&& table_wf(c@)
                &&& c@ == Seq::new(capacity as nat, |i: int| None::<(u64, Seq<char>)>)
            },
    {
        if capacity == 0 {
            return None;
        }
        let mut slots: Vec<Option<CacheEntry>> = Vec::new();
        let mut i: usize = 0;
        while i < capacity
            invariant
                i <= capacity,
                slots@.len() == i,
                forall|j: int| 0 <= j < i ==> slots@[j] is None,
            decreases capacity - i,
        {
            slots.push(None);
            i += 1;
        }
        let cache = KeyCache { slots };
        assert(cache@ =~= Seq::new(capacity as nat, |i: int| None::<(u64, Seq<char>)>));
        Some(cache)
    }

    /// An empty cache of the default capacity.
    pub fn new() -> (cache: KeyCache)
        ensures
            table_wf(cache@),
            cache@ == Seq::new(DEFAULT_CAPACITY as nat, |i: int| None::<(u64, Seq<char>)>),
    {
        match KeyCache::with_capacity(DEFAULT_CAPACITY) {
            Some(cache) => cache,
            None => unreached(),
        }
    }

    /// The number of slots.
    pub fn capacity(&self) -> (n: usize)
        ensures
            n == self@.len(),
            n > 0,
    {
        proof {
            use_type_invariant(self);
        }
        self.slots.len()
    }

    /// The number of occupied slots.
    pub fn occupancy(&self) -> (n: usize)
        ensures
            n == occupied_count(self@),
    {
        let mut n: usize = 0;
        let mut i: usize = 0;
        while i < self.slots.len()
            invariant
                i <= self.slots@.len(),
                self@.len() == self.slots@.len(),
                n <= i,
                n == occupied_count(self@.take(i as int)),
            decreases self.slots@.len() - i,
        {
            proof {
                assert(self@.take(i + 1).drop_last() =~= self@.take(i as int));
            }
            if self.slots[i].is_some() {
                n += 1;
            }
            i += 1;
        }
        proof {
            assert(self@.take(i as int) =~= self@);
        }
        n
    }

    /// The key that `slot` holds.
    pub closed spec fn stored(&self, slot: int) -> Option<Key> {
        match self.slots@[slot] {
            Some(e) => Some(e.key),
            None => None,
        }
    }

    /// The hash and a share of the key of the entry in `slot`; none for an
    /// empty slot and for a slot that the table does not have.
    pub fn entry(&self, slot: usize) -> (r: Option<(u64, Key)>)
        ensures
            slot >= self@.len() ==> r is None,
            slot < self@.len() ==> match r {
                Some(e) => self@[slot as int] == Some((e.0, e.1@)) && self.stored(slot as int)
                    == Some(e.1),
                None => self@[slot as int] is None && self.stored(slot as int) is None,
            },
    {
        if slot >= self.slots.len() {
            return None;
        }
        match &self.slots[slot] {
            Some(e) => Some((e.hash, e.key.shared())),
            None => None,
        }
    }

    /// Empties every slot; the capacity stays.
    pub fn reset(&mut self)
        ensures
            table_wf(final(self)@),
            final(self)@ == Seq::new(old(self)@.len(), |i: int| None::<(u64, Seq<char>)>),
    {
        proof {
            use_type_invariant(&*self);
        }
        clear(&mut self.slots);
    }
}

/// Empties every slot.
fn clear(slots: &mut Vec<Option<CacheEntry>>)
    requires
        old(slots)@.len() > 0,
    ensures
        table_wf(table_of(final(slots)@)),
        table_of(final(slots)@) == Seq::new(
            old(slots)@.len(),
            |i: int| None::<(u64, Seq<char>)>,
        ),
    no_unwind
{
    let mut i: usize = 0;
    while i < slots.len()
        invariant
            i <= slots@.len(),
            slots@.len() == old(slots)@.len(),
            forall|j: int| 0 <= j < i ==> slots@[j] is None,
        decreases slots@.len() - i,
    {
        slots[i] = None;
        i += 1;
    }
    assert(table_of(slots@) =~= Seq::new(old(slots)@.len(), |i: int| None::<(u64, Seq<char>)>));
}

/// Puts `entry` into `slot`, over whatever the slot held.
fn store(slots: &mut Vec<Option<CacheEntry>>, slot: usize, entry: CacheEntry)
    requires
        table_wf(table_of(old(slots)@)),
        slot == slot_of(entry.hash, old(slots)@.len()),
        entry.hash == spec_cache_hash(encode_utf8(entry.key@)),
        encode_utf8(entry.key@).len() <= KEY_LIMIT,
    ensures
        final(slots)@ == old(slots)@.update(slot as int, Some(entry)),
        table_wf(table_of(final(slots)@)),
        table_of(final(slots)@) == table_of(old(slots)@).update(
            slot as int,
            Some((entry.hash, entry.key@)),
        ),
    no_unwind
{
    let ghost before = table_of(slots@);
    assert(0 <= slot < slots@.len());
    slots[slot] = Some(entry);
    proof {
        let after = table_of(slots@);
        assert(after =~= before.update(slot as int, Some((entry.hash, entry.key@))));
        assert forall|i: int| 0 <= i < after.len() implies (#[trigger] after[i] matches Some(e) ==> {
            &&& e.0 == spec_cache_hash(encode_utf8(e.1))
            &&& slot_of(e.0, after.len()) == i
            &&& encode_utf8(e.1).len() <= KEY_LIMIT
        }) by {
            if i != slot {
                assert(after[i] == before[i]);
            }
        }
    }
}

/// Which key one interning of `text` hands out, and which keys the cache
/// holds after it: `pre` is the cache before, `post` the cache after.
///
/// A name over the limit leaves the cache as it is. On a hit the cache stays
/// as it is and the key handed out is the key that the slot holds. On a miss
/// the slot holds the key handed out, and every other slot holds what it held.
pub open spec fn shared(pre: KeyCache, text: Seq<char>, post: KeyCache, key: Key) -> bool {
    let hash = spec_cache_hash(encode_utf8(text));
    let slot = slot_of(hash, pre@.len());
    if encode_utf8(text).len() > KEY_LIMIT {
        post == pre
    } else if hit(pre@, hash) {
        post == pre && pre.stored(slot) == Some(key)
    } else {
        &&& post.stored(slot) == Some(key)
        &&& forall|i: int|
            0 <= i < pre@.len() && i != slot ==> #[trigger] post.stored(i) == pre.stored(i)
    }
}

/// The key for the member name `key_str`, from the cache where it can be.
pub fn get_unicode_key(cache: &mut KeyCache, key_str: &str) -> (key: Key)
    ensures
        table_wf(old(cache)@),
        table_wf(final(cache)@),
        interned(old(cache)@, key_str@, final(cache)@, key@),
        shared(*old(cache), key_str@, *final(cache), key),
{
    proof {
        use_type_invariant(&*cache);
    }
    let bytes = key_str.as_bytes();
    if bytes.len() > KEY_LIMIT {
        return Key::fresh(key_str);
    }
    let hash = cache_hash(bytes);
    let slot = (hash % (cache.slots.len() as u64)) as usize;
    let cached: Option<Key> = match &cache.slots[slot] {
        Some(entry) => if entry.hash == hash {
            Some(entry.key.shared())
        } else {
            None
        },
        None => None,
    };
    match cached {
        Some(key) => key,
        None => {
            let key = Key::fresh(key_str);
            let stored = key.shared();
            store(&mut cache.slots, slot, CacheEntry { hash, key: stored });
            key
        },
    }
}

/// A name is interned under its own text, whether the key comes from the
/// table or is new, unless it is short and an entry of the table has its hash
/// and another text.
pub proof fn lemma_interned_text(pre: Table, text: Seq<char>, post: Table, key: Seq<char>)
    requires
        table_wf(pre),
        encode_utf8(text).len() <= KEY_LIMIT ==> agrees_with(pre, text),
        interned(pre, text, post, key),
    ensures
        key == text,
{
    let hash = spec_cache_hash(encode_utf8(text));
    let n = pre.len() as int;
    assert(0 <= hash as int % n < n) by (nonlinear_arith)
        requires
            n > 0,
            hash >= 0,
    ;
}

/// Two internings of one name, at any two moments of a cache's life, give
/// keys of equal text, unless the name is short and one of the two meets an
/// entry that has its hash and another text.
pub proof fn lemma_same_name_equal_keys(
    text: Seq<char>,
    pre1: Table,
    post1: Table,
    key1: Seq<char>,
    pre2: Table,
    post2: Table,
    key2: Seq<char>,
)
    requires
        table_wf(pre1),
        table_wf(pre2),
        encode_utf8(text).len() <= KEY_LIMIT ==> agrees_with(pre1, text) && agrees_with(pre2, text),
        interned(pre1, text, post1, key1),
        interned(pre2, text, post2, key2),
    ensures
        key1 == key2,
{
    lemma_interned_text(pre1, text, post1, key1);
    lemma_interned_text(pre2, text, post2, key2);
}

/// A short name interned twice in a row is served from the table the second
/// time: the same key text comes back, and the table stays as the first
/// interning left it.
pub proof fn lemma_second_interning_hits(
    text: Seq<char>,
    pre: Table,
    mid: Table,
    first: Seq<char>,
    post: Table,
    second: Seq<char>,
)
    requires
        table_wf(pre),
        encode_utf8(text).len() <= KEY_LIMIT,
        interned(pre, text, mid, first),
        interned(mid, text, post, second),
    ensures
        post == mid,
        second == first,
        hit(mid, spec_cache_hash(encode_utf8(text))),
{
    let hash = spec_cache_hash(encode_utf8(text));
    let n = pre.len() as int;
    assert(0 <= hash as int % n < n) by (nonlinear_arith)
        requires
            n > 0,
            hash >= 0,
    ;
}

/// A short name interned twice in a row gets the very same key the second
/// time: the key that the first interning handed out or found is the key that
/// the slot holds, and the second interning hands out that key.
pub proof fn lemma_second_key_is_first(
    text: Seq<char>,
    pre: KeyCache,
    mid: KeyCache,
    first: Key,
    post: KeyCache,
    second: Key,
)
    requires
        table_wf(pre@),
        encode_utf8(text).len() <= KEY_LIMIT,
        interned(pre@, text, mid@, first@),
        shared(pre, text, mid, first),
        interned(mid@, text, post@, second@),
        shared(mid, text, post, second),
    ensures
        post == mid,
        second == first,
{
    lemma_second_interning_hits(text, pre@, mid@, first@, post@, second@);
    lemma_interning_keeps_order(pre@, text, mid@, first@);
}

/// A name over the limit is never served from the cache and never stored in
/// it: the table, and with it the number of occupied slots, stays as it was.
pub proof fn lemma_long_name_bypasses(
    pre: Table,
    text: Seq<char>,
    post: Table,
    key: Seq<char>,
)
    requires
        encode_utf8(text).len() > KEY_LIMIT,
        interned(pre, text, post, key),
    ensures
        post == pre,
        occupied_count(post) == occupied_count(pre),
        key == text,
{
}

/// Interning keeps the table in order and never changes its capacity; the
/// number of occupied slots never falls and grows by one at most.
pub proof fn lemma_interning_keeps_order(
    pre: Table,
    text: Seq<char>,
    post: Table,
    key: Seq<char>,
)
    requires
        table_wf(pre),
        interned(pre, text, post, key),
    ensures
        table_wf(post),
        post.len() == pre.len(),
        occupied_count(pre) <= occupied_count(post) <= occupied_count(pre) + 1,
{
    let hash = spec_cache_hash(encode_utf8(text));
    let n = pre.len() as int;
    assert(0 <= hash as int % n < n) by (nonlinear_arith)
        requires
            n > 0,
            hash >= 0,
    ;
    if encode_utf8(text).len() <= KEY_LIMIT && !hit(pre, hash) {
        lemma_update_count(pre, slot_of(hash, pre.len()), Some((hash, text)));
    }
}

/// Filling or refilling one slot changes the number of occupied slots by the
/// difference at that slot.
pub proof fn lemma_update_count(
    table: Table,
    slot: int,
    entry: Option<(u64, Seq<char>)>,
)
    requires
        0 <= slot < table.len(),
    ensures
        occupied_count(table.update(slot, entry)) + (if table[slot] is Some {
            1nat
        } else {
            0nat
        }) == occupied_count(table) + (if entry is Some {
            1nat
        } else {
            0nat
        }),
    decreases table.len(),
{
    let updated = table.update(slot, entry);
    if slot == table.len() - 1 {
        assert(updated.drop_last() =~= table.drop_last());
    } else {
        assert(updated.drop_last() =~= table.drop_last().update(slot, entry));
        lemma_update_count(table.drop_last(), slot, entry);
    }
}

} // verus!
