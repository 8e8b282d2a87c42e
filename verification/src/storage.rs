//! The chunk store: content-addressed storage of file chunks.
//!
//! A store keeps one directory for each content hash, and a directory keeps
//! the chunks received so far, by index. Which chunks are present is the
//! only record of how far a transfer has come: a chunk that is present need
//! not be sent again, one that is absent has to be asked for.

use crate::chunks::{
    append_bytes, chunk_at, chunk_count, chunk_of, count_chunks, join, lemma_join_push,
    lemma_join_split, split,
};
use crate::error::TransferError;
use crate::hash::{content_hash, ContentHash};
use std::collections::HashMap;
use vstd::prelude::*;
use vstd::slice::*;

verus! {

broadcast use vstd::std_specs::hash::group_hash_axioms;

/// The indices below `total` that `dir` lacks, in ascending order.
pub open spec fn missing_below(dir: Map<u64, Seq<u8>>, total: nat) -> Seq<u64>
    decreases total,
{
    if total == 0 {
        Seq::empty()
    } else {
        let before = missing_below(dir, (total - 1) as nat);
        if dir.contains_key((total - 1) as u64) {
            before
        } else {
            before.push((total - 1) as u64)
        }
    }
}

/// The indices below `total` that `dir` holds, in ascending order: the
/// chunks received so far of a file of `total` chunks.
pub open spec fn received_below(dir: Map<u64, Seq<u8>>, total: nat) -> Seq<u64>
    decreases total,
{
    if total == 0 {
        Seq::empty()
    } else {
        let before = received_below(dir, (total - 1) as nat);
        if dir.contains_key((total - 1) as u64) {
            before.push((total - 1) as u64)
        } else {
            before
        }
    }
}

/// Whether `dir` holds every chunk of a file of `total` chunks.
pub open spec fn complete(dir: Map<u64, Seq<u8>>, total: nat) -> bool {
    forall|i: u64| i < total ==> dir.contains_key(i)
}

/// The first `total` chunks of `dir` laid end to end.
pub open spec fn assemble(dir: Map<u64, Seq<u8>>, total: nat) -> Seq<u8>
    decreases total,
{
    if total == 0 {
        Seq::empty()
    } else {
        assemble(dir, (total - 1) as nat) + dir[(total - 1) as u64]
    }
}

/// `dir` with each chunk of `data` below index `upto` added where `dir`
/// had none. A chunk that `dir` already holds is kept as it is.
pub open spec fn fill_below(dir: Map<u64, Seq<u8>>, data: Seq<u8>, size: nat, upto: nat) -> Map<
    u64,
    Seq<u8>,
> {
    Map::new(
        |i: u64| dir.contains_key(i) || i < upto,
        |i: u64|
            if dir.contains_key(i) {
                dir[i]
            } else {
                chunk_of(data, size, i as nat)
            },
    )
}

/// `dir` with every chunk of `data` added where `dir` had none.
pub open spec fn fill(dir: Map<u64, Seq<u8>>, data: Seq<u8>, size: nat) -> Map<u64, Seq<u8>> {
    fill_below(dir, data, size, chunk_count(data.len(), size))
}

/// Whether every chunk that `dir` holds below the chunk count of `data` is
/// the chunk of `data` with that index.
pub open spec fn agrees(dir: Map<u64, Seq<u8>>, data: Seq<u8>, size: nat) -> bool {
    forall|i: u64|
        i < chunk_count(data.len(), size) && #[trigger] dir.contains_key(i) ==> dir[i] == chunk_of(
            data,
            size,
            i as nat,
        )
}

/// `missing_below` lists exactly the absent indices, each once, in
/// ascending order.
pub proof fn lemma_missing_below(dir: Map<u64, Seq<u8>>, total: nat)
    requires
        total <= u64::MAX,
    ensures
        forall|i: u64|
            #![trigger missing_below(dir, total).contains(i)]
            #![trigger dir.contains_key(i)]
            missing_below(dir, total).contains(i) <==> i < total && !dir.contains_key(i),
        forall|j: int, k: int|
            0 <= j < k < missing_below(dir, total).len() ==> missing_below(dir, total)[j]
                < missing_below(dir, total)[k],
        missing_below(dir, total).len() <= total,
        missing_below(dir, total).len() == 0 <==> complete(dir, total),
    decreases total,
{
    if total > 0 {
        let prev = (total - 1) as nat;
        let before = missing_below(dir, prev);
        let now = missing_below(dir, total);
        lemma_missing_below(dir, prev);
        let last = prev as u64;
        if dir.contains_key(last) {
            assert(now == before);
            assert(complete(dir, prev) <==> complete(dir, total)) by {
                if complete(dir, prev) {
                    assert forall|i: u64| i < total implies dir.contains_key(i) by {
                        if i < prev {
                        }
                    }
                }
            }
        } else {
            assert(now == before.push(last));
            assert(now[now.len() - 1] == last);
            assert forall|i: u64| now.contains(i) implies i < total && !dir.contains_key(i) by {
                let k = choose|k: int| 0 <= k < now.len() && now[k] == i;
                if k < before.len() {
                    assert(before[k] == i);
                    assert(before.contains(i));
                }
            }
            assert forall|i: u64| i < total && !dir.contains_key(i) implies now.contains(i) by {
                if i == last {
                    assert(now[now.len() - 1] == i);
                } else {
                    assert(i < prev);
                    assert(before.contains(i));
                    let k = choose|k: int| 0 <= k < before.len() && before[k] == i;
                    assert(now[k] == i);
                }
            }
            assert forall|j: int, k: int| 0 <= j < k < now.len() implies now[j] < now[k] by {
                if k == now.len() - 1 {
                    assert(before[j] == now[j]);
                    assert(before.contains(before[j]));
                    assert(before[j] < prev);
                } else {
                    assert(before[j] == now[j]);
                    assert(before[k] == now[k]);
                }
            }
            assert(!complete(dir, total));
        }
    } else {
        assert(complete(dir, 0));
    }
}

/// Every chunk of a file is either received or missing, and the file is
/// complete when as many chunks are received as it has.
pub proof fn lemma_received_and_missing(dir: Map<u64, Seq<u8>>, total: nat)
    requires
        total <= u64::MAX,
    ensures
        received_below(dir, total).len() + missing_below(dir, total).len() == total,
        received_below(dir, total).len() == total <==> complete(dir, total),
        forall|i: u64|
            #![trigger received_below(dir, total).contains(i)]
            received_below(dir, total).contains(i) <==> i < total && dir.contains_key(i),
    decreases total,
{
    lemma_missing_below(dir, total);
    if total > 0 {
        let prev = (total - 1) as nat;
        let last = prev as u64;
        let before = received_below(dir, prev);
        let now = received_below(dir, total);
        lemma_received_and_missing(dir, prev);
        if dir.contains_key(last) {
            assert(now == before.push(last));
            assert(now[now.len() - 1] == last);
            assert forall|i: u64| now.contains(i) implies i < total && dir.contains_key(i) by {
                let k = choose|k: int| 0 <= k < now.len() && now[k] == i;
                if k < before.len() {
                    assert(before[k] == i);
                    assert(before.contains(i));
                }
            }
            assert forall|i: u64| i < total && dir.contains_key(i) implies now.contains(i) by {
                if i == last {
                    assert(now[now.len() - 1] == i);
                } else {
                    assert(before.contains(i));
                    let k = choose|k: int| 0 <= k < before.len() && before[k] == i;
                    assert(now[k] == i);
                }
            }
        } else {
            assert(now == before);
            assert forall|i: u64| i < total && dir.contains_key(i) implies now.contains(i) by {
                assert(i != last);
                assert(before.contains(i));
            }
        }
    }
}

/// Whatever else `dir` holds, its first `total` chunks are put together from
/// the chunks below `total` alone.
pub proof fn lemma_assemble_depends_on_prefix(
    a: Map<u64, Seq<u8>>,
    b: Map<u64, Seq<u8>>,
    total: nat,
)
    requires
        total <= u64::MAX,
        forall|i: u64| i < total ==> a[i] == b[i],
    ensures
        assemble(a, total) == assemble(b, total),
    decreases total,
{
    if total > 0 {
        lemma_assemble_depends_on_prefix(a, b, (total - 1) as nat);
    }
}

/// A complete directory whose chunks are those of `data` puts `data`
/// together again.
pub proof fn lemma_assemble_file(dir: Map<u64, Seq<u8>>, data: Seq<u8>, size: nat)
    requires
        size > 0,
        chunk_count(data.len(), size) <= u64::MAX,
        complete(dir, chunk_count(data.len(), size)),
        agrees(dir, data, size),
    ensures
        assemble(dir, chunk_count(data.len(), size)) == data,
{
    let total = chunk_count(data.len(), size);
    lemma_assemble_prefix(dir, data, size, total);
    lemma_join_split(data, size);
    assert(split(data, size).take(total as int) =~= split(data, size));
}

proof fn lemma_assemble_prefix(dir: Map<u64, Seq<u8>>, data: Seq<u8>, size: nat, k: nat)
    requires
        size > 0,
        k <= chunk_count(data.len(), size) <= u64::MAX,
        complete(dir, chunk_count(data.len(), size)),
        agrees(dir, data, size),
    ensures
        assemble(dir, k) == join(split(data, size).take(k as int)),
    decreases k,
{
    let all = split(data, size);
    if k == 0 {
        assert(all.take(0) =~= Seq::<Seq<u8>>::empty());
    } else {
        let prev = (k - 1) as nat;
        lemma_assemble_prefix(dir, data, size, prev);
        assert(dir.contains_key(prev as u64));
        assert(dir[prev as u64] == chunk_of(data, size, prev));
        assert(all.take(k as int) =~= all.take(prev as int).push(chunk_of(data, size, prev)));
        lemma_join_push(all.take(prev as int), chunk_of(data, size, prev));
    }
}

/// Filling a directory that agrees with `data` gives a complete directory
/// that agrees with `data`.
pub proof fn lemma_fill_complete(dir: Map<u64, Seq<u8>>, data: Seq<u8>, size: nat)
    requires
        agrees(dir, data, size),
    ensures
        complete(fill(dir, data, size), chunk_count(data.len(), size)),
        agrees(fill(dir, data, size), data, size),
{
}

/// Filling a directory a second time changes nothing.
pub proof fn lemma_fill_idempotent(dir: Map<u64, Seq<u8>>, data: Seq<u8>, size: nat)
    requires
        chunk_count(data.len(), size) <= u64::MAX,
    ensures
        fill(fill(dir, data, size), data, size) == fill(dir, data, size),
        missing_below(fill(dir, data, size), chunk_count(data.len(), size)).len() == 0,
{
    let once = fill(dir, data, size);
    assert(fill(once, data, size) =~= once);
    lemma_missing_below(once, chunk_count(data.len(), size));
}

/// What putting a file of `total` chunks together from `dir` gives: the
/// content where every chunk is present and the content hashes to `hash`,
/// `IncompleteTransfer` where a chunk is absent, `HashMismatch` where all are
/// present and the content hashes to something else.
pub open spec fn reassembled(dir: Map<u64, Seq<u8>>, hash: ContentHash, total: nat) -> Result<
    Seq<u8>,
    TransferError,
> {
    if !complete(dir, total) {
        Err(TransferError::IncompleteTransfer)
    } else if content_hash(assemble(dir, total)) != hash {
        Err(TransferError::HashMismatch)
    } else {
        Ok(assemble(dir, total))
    }
}

/// Whether two byte vectors hold the same bytes.
pub fn same_bytes(a: &[u8], b: &[u8]) -> (same: bool)
    ensures
        same == (a@ == b@),
{
    if a.len() != b.len() {
        return false;
    }
    let mut i: usize = 0;
    while i < a.len()
        invariant
            a@.len() == b@.len(),
            i <= a@.len(),
            forall|k: int| 0 <= k < i ==> a@[k] == b@[k],
        decreases a@.len() - i,
    {
        if a[i] != b[i] {
            return false;
        }
        i = i + 1;
    }
    assert(a@ =~= b@);
    true
}

/// The chunks held for one content hash: a sparse table from chunk index to
/// payload.
#[derive(Clone, Debug, PartialEq, Eq)]
pub struct ChunkDir {
    slots: HashMap<u64, Vec<u8>>,
}

impl View for ChunkDir {
    type V = Map<u64, Seq<u8>>;

    closed spec fn view(&self) -> Map<u64, Seq<u8>> {
        Map::new(|i: u64| self.slots@.contains_key(i), |i: u64| self.slots@[i]@)
    }
}

impl ChunkDir {
    /// A directory without chunks.
    pub fn new() -> (dir: ChunkDir)
        ensures
            dir@ == Map::<u64, Seq<u8>>::empty(),
    {
        let dir = ChunkDir { slots: HashMap::new() };
        assert(dir@ =~= Map::<u64, Seq<u8>>::empty());
        dir
    }

    /// Whether chunk `index` is present.
    pub fn contains(&self, index: u64) -> (present: bool)
        ensures
            present == self@.contains_key(index),
    {
        self.slots.contains_key(&index)
    }

    /// The payload of chunk `index`, if it is present.
    pub fn get(&self, index: u64) -> (payload: Option<&Vec<u8>>)
        ensures
            payload is Some <==> self@.contains_key(index),
            payload matches Some(p) ==> p@ == self@[index],
    {
        self.slots.get(&index)
    }

    /// Puts `payload` in slot `index`. The slot is written only where it was
    /// empty or held other bytes; the result says whether it was written.
    pub fn store(&mut self, index: u64, payload: Vec<u8>) -> (written: bool)
        ensures
            final(self)@ == old(self)@.insert(index, payload@),
            written == !(old(self)@.contains_key(index) && old(self)@[index] == payload@),
    {
        let unchanged = match self.slots.get(&index) {
            Some(held) => same_bytes(held.as_slice(), payload.as_slice()),
            None => false,
        };
        if unchanged {
            assert(self@ =~= old(self)@.insert(index, payload@));
            false
        } else {
            let _ = self.slots.insert(index, payload);
            assert(self@ =~= old(self)@.insert(index, payload@));
            true
        }
    }

    /// Takes chunk `index` out of the directory; says whether it was there.
    pub fn remove(&mut self, index: u64) -> (removed: bool)
        ensures
            final(self)@ == old(self)@.remove(index),
            removed == old(self)@.contains_key(index),
    {
        let gone = self.slots.remove(&index);
        assert(self@ =~= old(self)@.remove(index));
        gone.is_some()
    }

    /// The indices below `total` that are absent, in ascending order.
    pub fn missing(&self, total: u64) -> (gaps: Vec<u64>)
        ensures
            gaps@ == missing_below(self@, total as nat),
    {
        let mut gaps: Vec<u64> = Vec::new();
        let mut index: u64 = 0;
        while index < total
            invariant
                index <= total,
                gaps@ == missing_below(self@, index as nat),
            decreases total - index,
        {
            if !self.slots.contains_key(&index) {
                gaps.push(index);
            }
            index = index + 1;
        }
        gaps
    }

    /// The indices below `total` that are present, in ascending order.
    pub fn received(&self, total: u64) -> (held: Vec<u64>)
        ensures
            held@ == received_below(self@, total as nat),
    {
        let mut held: Vec<u64> = Vec::new();
        let mut index: u64 = 0;
        while index < total
            invariant
                index <= total,
                held@ == received_below(self@, index as nat),
            decreases total - index,
        {
            if self.slots.contains_key(&index) {
                held.push(index);
            }
            index = index + 1;
        }
        held
    }

    /// Whether every chunk below `total` is present.
    pub fn is_complete(&self, total: u64) -> (done: bool)
        ensures
            done == complete(self@, total as nat),
    {
        let mut index: u64 = 0;
        while index < total
            invariant
                index <= total,
                complete(self@, index as nat),
            decreases total - index,
        {
            if !self.slots.contains_key(&index) {
                assert(!self@.contains_key(index));
                return false;
            }
            index = index + 1;
        }
        true
    }

    /// The first `total` chunks laid end to end, or `IncompleteTransfer`
    /// where one of them is absent.
    pub fn assemble(&self, total: u64) -> (content: Result<Vec<u8>, TransferError>)
        ensures
            content is Ok <==> complete(self@, total as nat),
            content matches Ok(bytes) ==> bytes@ == assemble(self@, total as nat),
            content matches Err(e) ==> e == TransferError::IncompleteTransfer,
    {
        let mut bytes: Vec<u8> = Vec::new();
        let mut index: u64 = 0;
        while index < total
            invariant
                index <= total,
                complete(self@, index as nat),
                bytes@ == assemble(self@, index as nat),
            decreases total - index,
        {
            match self.slots.get(&index) {
                Some(payload) => {
                    append_bytes(&mut bytes, payload.as_slice());
                },
                None => {
                    assert(!self@.contains_key(index));
                    return Err(TransferError::IncompleteTransfer);
                },
            }
            index = index + 1;
        }
        Ok(bytes)
    }
}

/// What `ChunkStore::initialize_file` found and did.
#[derive(Clone, Debug, PartialEq, Eq)]
pub struct FileInfo {
    /// The content hash of the file.
    pub hash: ContentHash,
    /// The number of chunks the file is cut into.
    pub total_chunks: u64,
    /// The indices of the chunks that were written, in ascending order: those
    /// that the store did not hold before.
    pub written: Vec<u64>,
}

/// A chunk size in bytes; never zero.
#[derive(Clone, Copy, Debug, PartialEq, Eq)]
pub struct ChunkSize {
    bytes: usize,
}

impl ChunkSize {
    #[verifier::type_invariant]
    spec fn positive(self) -> bool {
        self.bytes > 0
    }

    /// The size in bytes.
    pub closed spec fn bytes(self) -> nat {
        self.bytes as nat
    }

    /// The chunk size of `bytes` bytes; `None` for zero.
    pub fn new(bytes: usize) -> (size: Option<ChunkSize>)
        ensures
            size is Some <==> bytes > 0,
            size matches Some(s) ==> s.bytes() == bytes,
    {
        if bytes == 0 {
            None
        } else {
            Some(ChunkSize { bytes })
        }
    }

    /// The size in bytes.
    pub fn get(&self) -> (bytes: usize)
        ensures
            bytes == self.bytes(),
            bytes > 0,
    {
        proof {
            use_type_invariant(self);
        }
        self.bytes
    }
}

/// Local content-addressed chunk storage: one chunk directory for each
/// content hash.
#[derive(Clone, Debug, PartialEq, Eq)]
pub struct ChunkStore {
    chunk_size: ChunkSize,
    dirs: HashMap<u128, ChunkDir>,
}

impl ChunkStore {
    /// The size of every chunk but the last of a file.
    pub closed spec fn chunk_size(self) -> nat {
        self.chunk_size.bytes()
    }

    /// The chunks held for `hash`; the empty map where none are held.
    pub closed spec fn dir(self, hash: ContentHash) -> Map<u64, Seq<u8>> {
        if self.dirs@.contains_key(hash.value) {
            self.dirs@[hash.value]@
        } else {
            Map::empty()
        }
    }

    /// Whether `other` holds the same chunks for every hash but `hash`, and
    /// cuts files into chunks of the same size.
    pub open spec fn same_but(self, other: ChunkStore, hash: ContentHash) -> bool {
        &&& self.chunk_size() == other.chunk_size()
        &&& forall|h: ContentHash| h != hash ==> #[trigger] self.dir(h) == other.dir(h)
    }

    /// An empty store that cuts files into chunks of `DEFAULT_CHUNK_SIZE`
    /// bytes.
    pub fn new() -> (store: ChunkStore)
        ensures
            store.chunk_size() == crate::chunks::DEFAULT_CHUNK_SIZE,
            forall|h: ContentHash| #[trigger] store.dir(h) == Map::<u64, Seq<u8>>::empty(),
    {
        ChunkStore {
            chunk_size: ChunkSize { bytes: crate::chunks::DEFAULT_CHUNK_SIZE },
            dirs: HashMap::new(),
        }
    }

    /// An empty store that cuts files into chunks of `chunk_size` bytes;
    /// `None` for a chunk size of zero.
    pub fn with_chunk_size(chunk_size: usize) -> (store: Option<ChunkStore>)
        ensures
            store is Some <==> chunk_size > 0,
            store matches Some(s) ==> s.chunk_size() == chunk_size && forall|h: ContentHash|
                #[trigger] s.dir(h) == Map::<u64, Seq<u8>>::empty(),
    {
        match ChunkSize::new(chunk_size) {
            Some(size) => Some(ChunkStore { chunk_size: size, dirs: HashMap::new() }),
            None => None,
        }
    }

    /// The size of every chunk but the last of a file; never zero.
    pub fn chunk_len(&self) -> (size: usize)
        ensures
            size == self.chunk_size(),
            size > 0,
    {
        self.chunk_size.get()
    }

    /// Takes the directory of `hash` out of the store.
    fn take_dir(&mut self, hash: ContentHash) -> (dir: ChunkDir)
        ensures
            dir@ == old(self).dir(hash),
            final(self).dir(hash) == Map::<u64, Seq<u8>>::empty(),
            final(self).same_but(*old(self), hash),
    {
        let held = self.dirs.remove(&hash.value);
        assert forall|h: ContentHash| h != hash implies #[trigger] self.dir(h) == old(self).dir(
            h,
        ) by {
            assert(h.value != hash.value);
        }
        match held {
            Some(dir) => dir,
            None => ChunkDir::new(),
        }
    }

    /// Puts `dir` in the store as the directory of `hash`.
    fn put_dir(&mut self, hash: ContentHash, dir: ChunkDir)
        ensures
            final(self).dir(hash) == dir@,
            final(self).same_but(*old(self), hash),
    {
        let _ = self.dirs.insert(hash.value, dir);
        assert forall|h: ContentHash| h != hash implies #[trigger] self.dir(h) == old(self).dir(
            h,
        ) by {
            assert(h.value != hash.value);
        }
    }

    /// Cuts `data` into chunks, hashes it, and writes each chunk that the
    /// directory of its hash does not hold yet. A chunk that is already held
    /// is neither written nor compared.
    pub fn initialize_file(&mut self, data: &[u8]) -> (info: FileInfo)
        ensures
            info.hash == content_hash(data@),
            info.total_chunks == chunk_count(data@.len(), old(self).chunk_size()),
            info.written@ == missing_below(old(self).dir(info.hash), info.total_chunks as nat),
            final(self).dir(info.hash) == fill(
                old(self).dir(info.hash),
                data@,
                old(self).chunk_size(),
            ),
            final(self).same_but(*old(self), info.hash),
    {
        let size = self.chunk_len();
        let hash = ContentHash::of(data);
        let total = count_chunks(data.len(), size);
        let mut dir = self.take_dir(hash);
        let mut written: Vec<u64> = Vec::new();
        let mut index: u64 = 0;
        let ghost before = old(self).dir(hash);
        assert(dir@ =~= fill_below(before, data@, size as nat, 0));
        while index < total
            invariant
                size > 0,
                total == chunk_count(data@.len(), size as nat),
                index <= total,
                dir@ == fill_below(before, data@, size as nat, index as nat),
                written@ == missing_below(before, index as nat),
            decreases total - index,
        {
            if !dir.contains(index) {
                let _ = dir.store(index, chunk_at(data, size, index));
                written.push(index);
            }
            assert(dir@ =~= fill_below(before, data@, size as nat, (index + 1) as nat));
            index = index + 1;
        }
        self.put_dir(hash, dir);
        FileInfo { hash, total_chunks: total, written }
    }

    /// Whether chunk `index` of `hash` is present.
    pub fn chunk_exists(&self, hash: ContentHash, index: u64) -> (present: bool)
        ensures
            present == self.dir(hash).contains_key(index),
    {
        match self.dirs.get(&hash.value) {
            Some(dir) => dir.contains(index),
            None => false,
        }
    }

    /// A copy of chunk `index` of `hash`, if it is present.
    pub fn chunk(&self, hash: ContentHash, index: u64) -> (payload: Option<Vec<u8>>)
        ensures
            payload is Some <==> self.dir(hash).contains_key(index),
            payload matches Some(p) ==> p@ == self.dir(hash)[index],
    {
        match self.dirs.get(&hash.value) {
            Some(dir) => match dir.get(index) {
                Some(held) => Some(slice_to_vec(held.as_slice())),
                None => None,
            },
            None => None,
        }
    }

    /// The chunk indices below `total_chunks` that are absent for `hash`, in
    /// ascending order.
    pub fn missing_chunks(&self, hash: ContentHash, total_chunks: u64) -> (gaps: Vec<u64>)
        ensures
            gaps@ == missing_below(self.dir(hash), total_chunks as nat),
    {
        match self.dirs.get(&hash.value) {
            Some(dir) => dir.missing(total_chunks),
            None => ChunkDir::new().missing(total_chunks),
        }
    }

    /// The chunk indices below `total_chunks` that are present for `hash`,
    /// in ascending order: the chunks received so far.
    pub fn received_chunks(&self, hash: ContentHash, total_chunks: u64) -> (held: Vec<u64>)
        ensures
            held@ == received_below(self.dir(hash), total_chunks as nat),
    {
        match self.dirs.get(&hash.value) {
            Some(dir) => dir.received(total_chunks),
            None => ChunkDir::new().received(total_chunks),
        }
    }

    /// Whether every chunk below `total_chunks` is present for `hash`.
    pub fn is_complete(&self, hash: ContentHash, total_chunks: u64) -> (done: bool)
        ensures
            done == complete(self.dir(hash), total_chunks as nat),
    {
        match self.dirs.get(&hash.value) {
            Some(dir) => dir.is_complete(total_chunks),
            None => ChunkDir::new().is_complete(total_chunks),
        }
    }

    /// Puts `payload` in slot `index` of `hash`. The slot is written only
    /// where it was empty or held other bytes; the result says whether it
    /// was written.
    pub fn store_chunk(&mut self, hash: ContentHash, index: u64, payload: Vec<u8>) -> (written:
        bool)
        ensures
            final(self).dir(hash) == old(self).dir(hash).insert(index, payload@),
            final(self).same_but(*old(self), hash),
            written == !(old(self).dir(hash).contains_key(index) && old(self).dir(hash)[index]
                == payload@),
    {
        let mut dir = self.take_dir(hash);
        let written = dir.store(index, payload);
        self.put_dir(hash, dir);
        written
    }

    /// Deletes chunk `index` of `hash`; says whether it was there.
    pub fn remove_chunk(&mut self, hash: ContentHash, index: u64) -> (removed: bool)
        ensures
            final(self).dir(hash) == old(self).dir(hash).remove(index),
            final(self).same_but(*old(self), hash),
            removed == old(self).dir(hash).contains_key(index),
    {
        let mut dir = self.take_dir(hash);
        let removed = dir.remove(index);
        self.put_dir(hash, dir);
        removed
    }

    /// Deletes every chunk of `hash`.
    pub fn remove_dir(&mut self, hash: ContentHash)
        ensures
            final(self).dir(hash) == Map::<u64, Seq<u8>>::empty(),
            final(self).same_but(*old(self), hash),
    {
        let _ = self.take_dir(hash);
    }

    /// Puts the file of `total_chunks` chunks together from the chunks kept
    /// for `hash`, and checks that it hashes to `hash`.
    ///
    /// Fails with `IncompleteTransfer` where a chunk below `total_chunks` is
    /// absent, and with `HashMismatch` where all are present and the content
    /// does not hash to `hash`. The chunks stay where they are.
    pub fn reassemble(&self, hash: ContentHash, total_chunks: u64) -> (content: Result<
        Vec<u8>,
        TransferError,
    >)
        ensures
            match content {
                Ok(bytes) => reassembled(self.dir(hash), hash, total_chunks as nat) == Ok::<
                    Seq<u8>,
                    TransferError,
                >(bytes@),
                Err(e) => reassembled(self.dir(hash), hash, total_chunks as nat) == Err::<
                    Seq<u8>,
                    TransferError,
                >(e),
            },
    {
        let joined = match self.dirs.get(&hash.value) {
            Some(dir) => dir.assemble(total_chunks),
            None => ChunkDir::new().assemble(total_chunks),
        };
        match joined {
            Ok(bytes) => {
                let found = ContentHash::of(bytes.as_slice());
                check_integrity(bytes, found, hash)
            },
            Err(e) => Err(e),
        }
    }
}

/// Hands `content` on where the hash `found` for it is the `expected` one;
/// otherwise fails with `HashMismatch`.
pub fn check_integrity(content: Vec<u8>, found: ContentHash, expected: ContentHash) -> (checked:
    Result<Vec<u8>, TransferError>)
    ensures
        match checked {
            Ok(bytes) => found == expected && bytes@ == content@,
            Err(e) => found != expected && e == TransferError::HashMismatch,
        },
{
    if found.value == expected.value {
        Ok(content)
    } else {
        Err(TransferError::HashMismatch)
    }
}

} // verus!
