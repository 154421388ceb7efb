//! The cache of recent messages: the keys of the envelopes that the router
//! has seen lately, oldest first. It is what stops a flood from circling, and
//! it is bounded: when it is full, the oldest key makes room for a new one.

use vstd::prelude::*;
use crate::peer::PeerIdentity;

verus! {

/// A key as contracts speak of it.
pub struct DedupKeyView {
    pub origin: Seq<u8>,
    pub sequence: u64,
}

/// What tells one published message from every other: the peer that
/// published it, and the number that the peer gave it.
#[derive(Debug, PartialEq, Eq, Hash)]
pub struct DedupKey {
    pub origin: PeerIdentity,
    pub sequence: u64,
}

impl View for DedupKey {
    type V = DedupKeyView;

    open spec fn view(&self) -> DedupKeyView {
        DedupKeyView { origin: self.origin@, sequence: self.sequence }
    }
}

/// The byte at index `at` of `bytes`, or 0 where `bytes` ends before it.
pub open spec fn byte_or_zero(bytes: Seq<u8>, at: int) -> nat {
    if 0 <= at < bytes.len() {
        bytes[at] as nat
    } else {
        0
    }
}

/// The number that the first eight bytes of `bytes` spell, the most
/// significant byte first; bytes that are missing count as 0.
pub open spec fn sequence_of(bytes: Seq<u8>) -> nat {
    byte_or_zero(bytes, 0) * 0x100_0000_0000_0000 + byte_or_zero(bytes, 1) * 0x1_0000_0000_0000
        + byte_or_zero(bytes, 2) * 0x100_0000_0000 + byte_or_zero(bytes, 3) * 0x1_0000_0000
        + byte_or_zero(bytes, 4) * 0x100_0000 + byte_or_zero(bytes, 5) * 0x1_0000 + byte_or_zero(
        bytes,
        6,
    ) * 0x100 + byte_or_zero(bytes, 7)
}

/// The byte at index `at` of `bytes`, or 0 where `bytes` ends before it.
fn byte_at(bytes: &[u8], at: usize) -> (byte: u64)
    ensures
        byte == byte_or_zero(bytes@, at as int),
{
    if at < bytes.len() {
        bytes[at] as u64
    } else {
        0
    }
}

/// The number of a message whose transport numbers messages with a byte
/// string: what the first eight bytes spell.
pub fn sequence_from_bytes(bytes: &[u8]) -> (sequence: u64)
    ensures
        sequence == sequence_of(bytes@),
{
    byte_at(bytes, 0) * 0x100_0000_0000_0000 + byte_at(bytes, 1) * 0x1_0000_0000_0000 + byte_at(
        bytes,
        2,
    ) * 0x100_0000_0000 + byte_at(bytes, 3) * 0x1_0000_0000 + byte_at(bytes, 4) * 0x100_0000
        + byte_at(bytes, 5) * 0x1_0000 + byte_at(bytes, 6) * 0x100 + byte_at(bytes, 7)
}

impl DedupKey {
    /// Whether `other` is the key of the same message.
    pub fn same_as(&self, other: &DedupKey) -> (same: bool)
        ensures
            same == (self@ == other@),
    {
        self.sequence == other.sequence && self.origin.same_as(&other.origin)
    }
}

impl Clone for DedupKey {
    fn clone(&self) -> (copy: Self)
        ensures
            copy@ == self@,
    {
        DedupKey { origin: self.origin.clone(), sequence: self.sequence }
    }
}

/// What a cache of at most `capacity` keys has to be: it has room for a key,
/// it holds no more than it may, and it holds no key twice.
pub open spec fn cache_wf(keys: Seq<DedupKeyView>, capacity: nat) -> bool {
    &&& capacity >= 1
    &&& keys.len() <= capacity
    &&& keys.no_duplicates()
}

/// The cache after `key` was recorded. A key that is held changes nothing; a
/// new key goes to the end, and where the cache is full the oldest key, the
/// one at the front, leaves first.
pub open spec fn recorded(keys: Seq<DedupKeyView>, key: DedupKeyView, capacity: nat) -> Seq<
    DedupKeyView,
> {
    if keys.contains(key) {
        keys
    } else if keys.len() >= capacity {
        keys.drop_first().push(key)
    } else {
        keys.push(key)
    }
}

/// The cache after each of `inserted` was recorded in turn, starting empty.
pub open spec fn recorded_all(inserted: Seq<DedupKeyView>, capacity: nat) -> Seq<DedupKeyView>
    decreases inserted.len(),
{
    if inserted.len() == 0 {
        Seq::empty()
    } else {
        recorded(recorded_all(inserted.drop_last(), capacity), inserted.last(), capacity)
    }
}

/// How often `key` occurs among `keys`.
pub open spec fn copies(keys: Seq<DedupKeyView>, key: DedupKeyView) -> nat
    decreases keys.len(),
{
    if keys.len() == 0 {
        0
    } else if keys.last() == key {
        copies(keys.drop_last(), key) + 1
    } else {
        copies(keys.drop_last(), key)
    }
}

/// A key that does not occur is counted zero times.
pub proof fn lemma_copies_absent(keys: Seq<DedupKeyView>, key: DedupKeyView)
    requires
        !keys.contains(key),
    ensures
        copies(keys, key) == 0,
    decreases keys.len(),
{
    if keys.len() > 0 {
        lemma_copies_absent(keys.drop_last(), key);
    }
}

/// In a list without repetition, a key that occurs is counted once.
pub proof fn lemma_copies_once(keys: Seq<DedupKeyView>, key: DedupKeyView)
    requires
        keys.no_duplicates(),
        keys.contains(key),
    ensures
        copies(keys, key) == 1,
    decreases keys.len(),
{
    let rest = keys.drop_last();
    let at = choose|at: int| 0 <= at < keys.len() && keys[at] == key;
    if keys.last() == key {
        lemma_copies_absent(rest, key);
    } else {
        assert(rest[at] == key);
        lemma_copies_once(rest, key);
    }
}

/// Recording a key keeps the cache well formed and within its bound, leaves
/// the key in it, as its newest, exactly once, and keeps every key that was
/// held but, where the cache was full and the key new, the oldest.
pub proof fn lemma_recorded(keys: Seq<DedupKeyView>, key: DedupKeyView, capacity: nat)
    requires
        cache_wf(keys, capacity),
    ensures
        cache_wf(recorded(keys, key, capacity), capacity),
        recorded(keys, key, capacity).contains(key),
        copies(recorded(keys, key, capacity), key) == 1,
        !keys.contains(key) ==> recorded(keys, key, capacity).last() == key,
        forall|i: int|
            (if keys.contains(key) || keys.len() < capacity {
                0int
            } else {
                1int
            }) <= i < keys.len() ==> recorded(keys, key, capacity).contains(#[trigger] keys[i]),
        recorded(recorded(keys, key, capacity), key, capacity) == recorded(keys, key, capacity),
{
    let after = recorded(keys, key, capacity);
    if !keys.contains(key) {
        let kept = if keys.len() >= capacity {
            keys.drop_first()
        } else {
            keys
        };
        assert(after[after.len() - 1] == key);
        assert forall|i: int| keys.len() - kept.len() <= i < keys.len() implies after.contains(
            #[trigger] keys[i],
        ) by {
            assert(after[i - (keys.len() - kept.len())] == keys[i]);
        }
    }
    lemma_copies_once(after, key);
}

/// However many keys are recorded, the cache stays well formed and within
/// its bound.
pub proof fn lemma_bounded_growth(inserted: Seq<DedupKeyView>, capacity: nat)
    requires
        capacity >= 1,
    ensures
        cache_wf(recorded_all(inserted, capacity), capacity),
        recorded_all(inserted, capacity).len() <= capacity,
    decreases inserted.len(),
{
    if inserted.len() > 0 {
        lemma_bounded_growth(inserted.drop_last(), capacity);
    }
}

/// Of distinct keys the cache keeps the newest, as many as it may hold, in
/// the order in which they came: the oldest are evicted first.
pub proof fn lemma_oldest_evicted_first(inserted: Seq<DedupKeyView>, capacity: nat)
    requires
        capacity >= 1,
        inserted.no_duplicates(),
    ensures
        recorded_all(inserted, capacity) == inserted.skip(
            if inserted.len() > capacity {
                inserted.len() - capacity
            } else {
                0
            },
        ),
    decreases inserted.len(),
{
    if inserted.len() > 0 {
        lemma_oldest_evicted_first(inserted.drop_last(), capacity);
    }
}

/// The keys of the messages seen lately, oldest first, at most as many as
/// the capacity that the cache was made with.
pub struct RecentMessageCache {
    keys: Vec<DedupKey>,
    capacity: usize,
}

impl View for RecentMessageCache {
    type V = Seq<DedupKeyView>;

    closed spec fn view(&self) -> Seq<DedupKeyView> {
        self.keys@.map_values(|key: DedupKey| key@)
    }
}

impl RecentMessageCache {
    /// The most keys that the cache may hold.
    pub closed spec fn bound(&self) -> nat {
        self.capacity as nat
    }

    /// Whether the cache is well formed. Every cache that this library hands
    /// out is, and its methods keep it so.
    pub open spec fn wf(&self) -> bool {
        cache_wf(self@, self.bound())
    }

    /// An empty cache for at most `capacity` keys; none where `capacity` is
    /// 0, for such a cache could not hold the key it is asked to record.
    pub fn new(capacity: usize) -> (cache: Option<RecentMessageCache>)
        ensures
            cache is Some <==> capacity > 0,
            cache is Some ==> cache.unwrap().wf() && cache.unwrap()@ == Seq::<DedupKeyView>::empty()
                && cache.unwrap().bound() == capacity,
    {
        if capacity == 0 {
            None
        } else {
            let cache = RecentMessageCache { keys: Vec::new(), capacity };
            Some(cache)
        }
    }

    /// How many keys the cache holds.
    pub fn len(&self) -> (n: usize)
        ensures
            n == self@.len(),
    {
        self.keys.len()
    }

    /// Whether the cache holds no key.
    pub fn is_empty(&self) -> (empty: bool)
        ensures
            empty == (self@.len() == 0),
    {
        self.keys.len() == 0
    }

    /// The most keys that the cache may hold.
    pub fn capacity(&self) -> (capacity: usize)
        ensures
            capacity == self.bound(),
    {
        self.capacity
    }

    /// Whether the cache holds `key`.
    pub fn contains(&self, key: &DedupKey) -> (held: bool)
        ensures
            held == self@.contains(key@),
    {
        let mut i: usize = 0;
        while i < self.keys.len()
            invariant
                i <= self.keys@.len(),
                self@.len() == self.keys@.len(),
                forall|j: int| 0 <= j < i ==> self@[j] != key@,
            decreases self.keys@.len() - i,
        {
            if self.keys[i].same_as(key) {
                assert(self@[i as int] == key@);
                return true;
            }
            i += 1;
        }
        false
    }

    /// Records `key`. Returns whether the key was new; a key that was held
    /// already leaves the cache as it is.
    pub fn insert(&mut self, key: DedupKey) -> (fresh: bool)
        requires
            old(self).wf(),
        ensures
            final(self).wf(),
            final(self).bound() == old(self).bound(),
            final(self)@ == recorded(old(self)@, key@, old(self).bound()),
            fresh == !old(self)@.contains(key@),
            copies(final(self)@, key@) == 1,
    {
        proof {
            lemma_recorded(self@, key@, self.bound());
        }
        if self.contains(&key) {
            return false;
        }
        if self.keys.len() >= self.capacity {
            self.keys.remove(0);
        }
        self.keys.push(key);
        assert(self@ =~= recorded(old(self)@, key@, old(self).bound()));
        true
    }
}

} // verus!
