//! Cutting a file's bytes into fixed-size chunks and joining chunks back.
//!
//! Every chunk of a file holds `size` bytes except the last, which holds what
//! is left. Chunk indices are dense and start at zero.

use vstd::prelude::*;

verus! {

/// The chunk size used when none is configured.
pub const DEFAULT_CHUNK_SIZE: usize = 4096;

/// How many chunks of `size` bytes a file of `len` bytes is cut into.
pub open spec fn chunk_count(len: nat, size: nat) -> nat
    recommends
        size > 0,
{
    if len % size == 0 {
        len / size
    } else {
        len / size + 1
    }
}

/// Where chunk `index` starts in a file of `len` bytes.
pub open spec fn chunk_start(len: nat, size: nat, index: nat) -> nat {
    if index * size <= len {
        index * size
    } else {
        len
    }
}

/// The bytes of chunk `index` of `data`.
pub open spec fn chunk_of(data: Seq<u8>, size: nat, index: nat) -> Seq<u8>
    recommends
        size > 0,
        index < chunk_count(data.len(), size),
{
    data.subrange(
        chunk_start(data.len(), size, index) as int,
        chunk_start(data.len(), size, index + 1) as int,
    )
}

/// All chunks of `data`, in index order.
pub open spec fn split(data: Seq<u8>, size: nat) -> Seq<Seq<u8>>
    recommends
        size > 0,
{
    Seq::new(chunk_count(data.len(), size), |i: int| chunk_of(data, size, i as nat))
}

/// The chunks laid end to end.
pub open spec fn join(chunks: Seq<Seq<u8>>) -> Seq<u8>
    decreases chunks.len(),
{
    if chunks.len() == 0 {
        Seq::empty()
    } else {
        join(chunks.drop_last()) + chunks.last()
    }
}

/// The byte sequences held by a vector of byte vectors.
pub open spec fn payloads(chunks: Seq<Vec<u8>>) -> Seq<Seq<u8>> {
    Seq::new(chunks.len(), |i: int| chunks[i]@)
}

/// `chunk_count` is the least number of chunks that covers `len` bytes.
pub proof fn lemma_chunk_count_bounds(len: nat, size: nat)
    requires
        size > 0,
    ensures
        chunk_count(len, size) * size >= len,
        chunk_count(len, size) > 0 ==> (chunk_count(len, size) - 1) * size < len,
        len == 0 <==> chunk_count(len, size) == 0,
        chunk_count(len, size) <= len,
{
    let q = len / size;
    let r = len % size;
    assert(len == q * size + r) by (nonlinear_arith)
        requires
            q == len / size,
            r == len % size,
            size > 0,
    ;
    assert(0 <= r < size) by (nonlinear_arith)
        requires
            r == len % size,
            size > 0,
    ;
    assert((q + 1) * size == q * size + size) by (nonlinear_arith);
    assert((q - 1) * size == q * size - size) by (nonlinear_arith);
    assert(q <= q * size) by (nonlinear_arith)
        requires
            size > 0,
            q >= 0,
    ;
}

/// A chunk that is not the last one starts and ends inside the file.
pub proof fn lemma_chunk_start(len: nat, size: nat, index: nat)
    requires
        size > 0,
        index <= chunk_count(len, size),
    ensures
        index < chunk_count(len, size) ==> chunk_start(len, size, index) == index * size,
        index < chunk_count(len, size) ==> index * size < len,
        index == chunk_count(len, size) ==> chunk_start(len, size, index) == len,
        chunk_start(len, size, index) <= len,
        index < chunk_count(len, size) ==> chunk_start(len, size, index) < chunk_start(
            len,
            size,
            index + 1,
        ),
        index < chunk_count(len, size) ==> chunk_start(len, size, index + 1) - chunk_start(
            len,
            size,
            index,
        ) <= size,
{
    lemma_chunk_count_bounds(len, size);
    let n = chunk_count(len, size);
    if index < n {
        assert(index * size <= (n - 1) * size) by (nonlinear_arith)
            requires
                index <= n - 1,
                size > 0,
        ;
        assert((index + 1) * size == index * size + size) by (nonlinear_arith);
    } else {
        assert(index * size >= len);
    }
}

/// Every chunk holds between one and `size` bytes, and only the last may
/// hold fewer than `size`.
pub proof fn lemma_chunk_len(data: Seq<u8>, size: nat, index: nat)
    requires
        size > 0,
        index < chunk_count(data.len(), size),
    ensures
        0 < chunk_of(data, size, index).len() <= size,
        index + 1 < chunk_count(data.len(), size) ==> chunk_of(data, size, index).len() == size,
{
    lemma_chunk_start(data.len(), size, index);
    lemma_chunk_start(data.len(), size, index + 1);
    assert((index + 1) * size == index * size + size) by (nonlinear_arith);
}

/// The first `k` chunks laid end to end are the bytes before chunk `k`.
pub proof fn lemma_join_prefix(data: Seq<u8>, size: nat, k: nat)
    requires
        size > 0,
        k <= chunk_count(data.len(), size),
    ensures
        join(split(data, size).take(k as int)) == data.take(
            chunk_start(data.len(), size, k) as int,
        ),
    decreases k,
{
    let all = split(data, size);
    let head = all.take(k as int);
    lemma_chunk_start(data.len(), size, k);
    if k == 0 {
        assert(0 * size == 0) by (nonlinear_arith);
        assert(join(head) =~= data.take(0));
    } else {
        let prev = (k - 1) as nat;
        lemma_join_prefix(data, size, prev);
        lemma_chunk_start(data.len(), size, prev);
        assert(head.drop_last() =~= all.take(prev as int));
        assert(head.last() == chunk_of(data, size, prev));
        assert(join(head) == join(all.take(prev as int)) + chunk_of(data, size, prev));
        assert(join(head) =~= data.take(chunk_start(data.len(), size, k) as int));
    }
}

/// Cutting a file into chunks and joining them gives the file back.
pub proof fn lemma_join_split(data: Seq<u8>, size: nat)
    requires
        size > 0,
    ensures
        join(split(data, size)) == data,
{
    let n = chunk_count(data.len(), size);
    lemma_join_prefix(data, size, n);
    lemma_chunk_start(data.len(), size, n);
    assert(split(data, size).take(n as int) =~= split(data, size));
    assert(data.take(data.len() as int) =~= data);
}

/// Joining one more chunk appends its bytes.
pub proof fn lemma_join_push(chunks: Seq<Seq<u8>>, last: Seq<u8>)
    ensures
        join(chunks.push(last)) == join(chunks) + last,
{
    assert(chunks.push(last).drop_last() =~= chunks);
}

/// The number of chunks of a file of `len` bytes.
pub fn count_chunks(len: usize, size: usize) -> (n: u64)
    requires
        size > 0,
    ensures
        n == chunk_count(len as nat, size as nat),
{
    let q: usize = len / size;
    let r: usize = len % size;
    proof {
        lemma_chunk_count_bounds(len as nat, size as nat);
    }
    if r == 0 {
        q as u64
    } else {
        q as u64 + 1
    }
}

/// A copy of chunk `index` of `data`.
pub fn chunk_at(data: &[u8], size: usize, index: u64) -> (chunk: Vec<u8>)
    requires
        size > 0,
        index < chunk_count(data@.len(), size as nat),
    ensures
        chunk@ == chunk_of(data@, size as nat, index as nat),
{
    proof {
        lemma_chunk_start(data@.len(), size as nat, index as nat);
        lemma_chunk_start(data@.len(), size as nat, (index + 1) as nat);
        assert((index + 1) * size == index * size + size) by (nonlinear_arith);
    }
    let len: usize = data.len();
    let start: usize = (index as usize) * size;
    let end: usize = if len - start <= size {
        len
    } else {
        start + size
    };
    let mut chunk: Vec<u8> = Vec::new();
    let mut i: usize = start;
    while i < end
        invariant
            start <= i <= end <= data@.len(),
            chunk@ == data@.subrange(start as int, i as int),
        decreases end - i,
    {
        chunk.push(data[i]);
        i = i + 1;
        assert(chunk@ =~= data@.subrange(start as int, i as int));
    }
    chunk
}

/// All chunks of `data`, in index order.
pub fn split_chunks(data: &[u8], size: usize) -> (chunks: Vec<Vec<u8>>)
    requires
        size > 0,
    ensures
        payloads(chunks@) == split(data@, size as nat),
{
    let total: u64 = count_chunks(data.len(), size);
    let mut chunks: Vec<Vec<u8>> = Vec::new();
    let mut index: u64 = 0;
    while index < total
        invariant
            size > 0,
            total == chunk_count(data@.len(), size as nat),
            index <= total,
            chunks@.len() == index,
            forall|k: int|
                0 <= k < index ==> (#[trigger] chunks@[k])@ == chunk_of(
                    data@,
                    size as nat,
                    k as nat,
                ),
        decreases total - index,
    {
        let chunk = chunk_at(data, size, index);
        chunks.push(chunk);
        index = index + 1;
    }
    assert(payloads(chunks@) =~= split(data@, size as nat));
    chunks
}

/// The chunks laid end to end.
pub fn join_chunks(chunks: &Vec<Vec<u8>>) -> (data: Vec<u8>)
    ensures
        data@ == join(payloads(chunks@)),
{
    let mut data: Vec<u8> = Vec::new();
    let mut k: usize = 0;
    assert(payloads(chunks@).take(0) =~= Seq::<Seq<u8>>::empty());
    while k < chunks.len()
        invariant
            k <= chunks@.len(),
            data@ == join(payloads(chunks@).take(k as int)),
        decreases chunks@.len() - k,
    {
        append_bytes(&mut data, chunks[k].as_slice());
        proof {
            let all = payloads(chunks@);
            assert(all.take(k + 1) =~= all.take(k as int).push(chunks@[k as int]@));
            lemma_join_push(all.take(k as int), chunks@[k as int]@);
        }
        k = k + 1;
    }
    assert(payloads(chunks@).take(k as int) =~= payloads(chunks@));
    data
}

/// Appends the bytes of `tail` to `data`.
pub fn append_bytes(data: &mut Vec<u8>, tail: &[u8])
    ensures
        final(data)@ == old(data)@ + tail@,
{
    let mut i: usize = 0;
    while i < tail.len()
        invariant
            i <= tail@.len(),
            data@ == old(data)@ + tail@.take(i as int),
        decreases tail@.len() - i,
    {
        data.push(tail[i]);
        i = i + 1;
        assert(data@ =~= old(data)@ + tail@.take(i as int));
    }
    assert(tail@.take(i as int) =~= tail@);
}

} // verus!
