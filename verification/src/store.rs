//! The transaction store: an append-only sink of byte strings and an index
//! from 32-byte hashes to the places where they were written.

use crate::codec::{le_u64_at, read_u64_le, Scan};
use crate::hash::{double_sha256, Hash32, Hash32Buf};
use crate::transaction::{transaction_at, MAX_TRANSACTION_SIZE};
use std::collections::HashMap;
use vstd::prelude::*;
use vstd::slice::slice_to_vec;

verus! {

/// An append-only sink of byte strings. A write returns a pointer; a read of
/// that pointer gives back what was written.
#[derive(Debug)]
pub struct BlockContent {
    blobs: Vec<Vec<u8>>,
}

impl View for BlockContent {
    type V = Seq<Seq<u8>>;

    closed spec fn view(&self) -> Seq<Seq<u8>> {
        Seq::new(self.blobs@.len(), |i: int| self.blobs@[i]@)
    }
}

impl BlockContent {
    /// An empty sink.
    pub fn new() -> (r: BlockContent)
        ensures
            r@ == Seq::<Seq<u8>>::empty(),
    {
        let r = BlockContent { blobs: Vec::new() };
        assert(r@ =~= Seq::<Seq<u8>>::empty());
        r
    }

    /// Appends a copy of `bytes` and returns the pointer to it: the number of
    /// byte strings written before. That number always fits a pointer.
    pub fn write(&mut self, bytes: &[u8]) -> (ptr: u64)
        ensures
            final(self)@ == old(self)@.push(bytes@),
            ptr == old(self)@.len(),
            final(self)@.len() <= u64::MAX,
    {
        let ptr = self.blobs.len() as u64;
        self.blobs.push(slice_to_vec(bytes));
        let count = self.blobs.len();
        assert(self@.len() == count);
        assert(self@ =~= old(self)@.push(bytes@));
        ptr
    }

    /// Whether `ptr` is a pointer that a write has returned.
    pub fn holds(&self, ptr: u64) -> (r: bool)
        ensures
            r == (ptr < self@.len()),
    {
        ptr < self.blobs.len() as u64
    }

    /// The bytes that were written at `ptr`.
    pub fn read(&self, ptr: u64) -> (r: &[u8])
        requires
            ptr < self@.len(),
        ensures
            r@ == self@[ptr as int],
    {
        let count = self.blobs.len();
        assert(self@.len() == count);
        let at = ptr as usize;
        assert(self@[at as int] == self.blobs@[at as int]@);
        self.blobs[at].as_slice()
    }
}

/// The map that a list of insertions builds, the later ones over the
/// earlier ones.
pub open spec fn entries_map(e: Seq<(Seq<u8>, u64)>) -> Map<Seq<u8>, u64>
    decreases e.len(),
{
    if e.len() == 0 {
        Map::empty()
    } else {
        entries_map(e.drop_last()).insert(e.last().0, e.last().1)
    }
}

/// The bucket that a hash is filed under: its first eight bytes, read as a
/// little-endian number.
pub open spec fn bucket_of(hash: Seq<u8>) -> u64 {
    le_u64_at(hash, 0)
}

/// The hashes and pointers of a bucket, in the order in which they were
/// recorded.
pub open spec fn listed(entries: Seq<(Hash32Buf, u64)>) -> Seq<(Seq<u8>, u64)> {
    Seq::new(entries.len(), |i: int| (entries[i].0@, entries[i].1))
}

/// A map from 32-byte hashes to pointers. The hashes are filed in buckets
/// by their first eight bytes.
#[derive(Debug)]
pub struct HashIndex {
    buckets: HashMap<u64, Vec<(Hash32Buf, u64)>>,
}

impl View for HashIndex {
    type V = Map<Seq<u8>, u64>;

    closed spec fn view(&self) -> Map<Seq<u8>, u64> {
        Map::new(
            |h: Seq<u8>|
                self.buckets@.contains_key(bucket_of(h)) && entries_map(
                    listed(self.buckets@[bucket_of(h)]@),
                ).contains_key(h),
            |h: Seq<u8>| entries_map(listed(self.buckets@[bucket_of(h)]@))[h],
        )
    }
}

/// The pointer that was recorded last for `hash` in a bucket, if there is
/// one.
fn find_in_bucket(entries: &Vec<(Hash32Buf, u64)>, hash: Hash32<'_>) -> (r: Option<u64>)
    ensures
        r == if entries_map(listed(entries@)).contains_key(hash@) {
            Some(entries_map(listed(entries@))[hash@])
        } else {
            None
        },
{
    let ghost all = listed(entries@);
    let mut i: usize = entries.len();
    assert(all.take(i as int) =~= all);
    while i > 0
        invariant
            i <= entries@.len(),
            all == listed(entries@),
            entries_map(all).contains_key(hash@) == entries_map(all.take(i as int)).contains_key(
                hash@,
            ),
            entries_map(all).contains_key(hash@) ==> entries_map(all)[hash@] == entries_map(
                all.take(i as int),
            )[hash@],
        decreases i,
    {
        let ghost upto = all.take(i as int);
        assert(upto.drop_last() =~= all.take(i - 1));
        assert(upto.last() == all[i - 1]);
        i -= 1;
        let entry = &entries[i];
        if entry.0.as_ref().same_as(&hash) {
            return Some(entry.1);
        }
    }
    None
}

/// The bucket of a hash.
fn bucket(hash: Hash32<'_>) -> (r: u64)
    ensures
        r == bucket_of(hash@),
{
    match read_u64_le(hash.as_bytes(), 0) {
        Ok((k, _)) => k,
        Err(_) => 0,
    }
}

impl HashIndex {
    /// An empty index.
    pub fn new() -> (r: HashIndex)
        ensures
            r@ == Map::<Seq<u8>, u64>::empty(),
    {
        let r = HashIndex { buckets: HashMap::new() };
        assert(r@ =~= Map::<Seq<u8>, u64>::empty());
        r
    }

    /// The pointer recorded for `hash`, if there is one.
    pub fn get(&self, hash: Hash32<'_>) -> (r: Option<u64>)
        ensures
            r == if self@.contains_key(hash@) {
                Some(self@[hash@])
            } else {
                None
            },
    {
        broadcast use vstd::std_specs::hash::group_hash_axioms;

        let k = bucket(hash);
        match self.buckets.get(&k) {
            None => None,
            Some(entries) => find_in_bucket(entries, hash),
        }
    }

    /// Records `ptr` for `hash`. A hash is recorded once: look it up first.
    pub fn set(&mut self, hash: Hash32<'_>, ptr: u64)
        requires
            !old(self)@.contains_key(hash@),
        ensures
            final(self)@ == old(self)@.insert(hash@, ptr),
    {
        broadcast use vstd::std_specs::hash::group_hash_axioms;

        let k = bucket(hash);
        let mut entries = match self.buckets.remove(&k) {
            Some(entries) => entries,
            None => Vec::new(),
        };
        let ghost before = listed(entries@);
        assert(!old(self).buckets@.contains_key(k) ==> before =~= Seq::empty());
        entries.push((Hash32Buf::from_hash(hash), ptr));
        let ghost after = listed(entries@);
        assert(after.drop_last() =~= before);
        assert(after.last() == (hash@, ptr));
        assert(entries_map(after) == entries_map(before).insert(hash@, ptr));
        self.buckets.insert(k, entries);
        proof {
            let was = old(self)@;
            let now = self@;
            assert forall|h: Seq<u8>| now.contains_key(h) == (h == hash@ || was.contains_key(
                h,
            )) by {
                if bucket_of(h) == k {
                    assert(self.buckets@[k]@ == entries@);
                } else {
                    assert(self.buckets@.contains_key(bucket_of(h)) == old(
                        self,
                    ).buckets@.contains_key(bucket_of(h)));
                }
            }
            assert forall|h: Seq<u8>| now.contains_key(h) implies now[h] == was.insert(
                hash@,
                ptr,
            )[h] by {
                if bucket_of(h) == k {
                    assert(self.buckets@[k]@ == entries@);
                }
            }
            assert(now =~= was.insert(hash@, ptr));
        }
    }
}

/// What a store holds.
pub struct StoreView {
    pub index: Map<Seq<u8>, u64>,
    pub content: Seq<Seq<u8>>,
}

/// `raw` is one transaction, from its first byte to its last.
pub open spec fn holds_transaction(raw: Seq<u8>) -> bool {
    transaction_at(raw, 0) matches Scan::Item { value, next } && next == raw.len()
}

impl StoreView {
    /// Every indexed hash points at the bytes of a transaction with that
    /// hash, no such transaction is larger than a transaction may be, and
    /// the byte strings are few enough for each to have a pointer.
    pub open spec fn wf(self) -> bool {
        &&& self.content.len() <= u64::MAX
        &&& forall|h: Seq<u8>| #[trigger]
            self.index.contains_key(h) ==> {
                &&& self.index[h] < self.content.len()
                &&& holds_transaction(self.content[self.index[h] as int])
                &&& double_sha256(self.content[self.index[h] as int]) == h
                &&& self.content[self.index[h] as int].len() <= MAX_TRANSACTION_SIZE
            }
    }

    /// The store after `raw` has been appended and indexed by its hash.
    pub open spec fn with_transaction(self, raw: Seq<u8>) -> StoreView {
        StoreView {
            index: self.index.insert(double_sha256(raw), self.content.len() as u64),
            content: self.content.push(raw),
        }
    }
}

/// Transactions by hash: the index says where in the content each one
/// stands.
#[derive(Debug)]
pub struct Store {
    pub index: HashIndex,
    pub block_content: BlockContent,
}

impl View for Store {
    type V = StoreView;

    open spec fn view(&self) -> StoreView {
        StoreView { index: self.index@, content: self.block_content@ }
    }
}

impl Store {
    /// An empty store.
    pub fn new() -> (r: Store)
        ensures
            r@.wf(),
            r@.index == Map::<Seq<u8>, u64>::empty(),
            r@.content == Seq::<Seq<u8>>::empty(),
    {
        Store { index: HashIndex::new(), block_content: BlockContent::new() }
    }
}

/// What is stored is found again: after `raw` has been appended and
/// indexed, its hash is in the index, and the pointer recorded for it reads
/// back `raw`.
pub proof fn lemma_stored_reads_back(before: StoreView, raw: Seq<u8>)
    requires
        before.wf(),
    ensures
        ({
            let after = before.with_transaction(raw);
            let hash = double_sha256(raw);
            &&& after.index.contains_key(hash)
            &&& after.index[hash] == before.content.len()
            &&& after.content[after.index[hash] as int] == raw
        }),
{
}

} // verus!
