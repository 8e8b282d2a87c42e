//! The wire format of the protocol messages.
//!
//! A datagram holds one message and nothing else. It starts with one byte
//! that tells the variant and the sixteen bytes of the content hash; the
//! variant's fields follow. Integers are little-endian, and a byte string or
//! an index list is preceded by its length as a 64-bit integer.
//!
//! | tag | variant       | fields after the hash                         |
//! |-----|---------------|-----------------------------------------------|
//! | 0   | Metadata      | total chunks (8)                              |
//! | 1   | ChunkData     | index (8), length (8), payload                |
//! | 2   | Ack           | index (8)                                     |
//! | 3   | Nak           | index (8)                                     |
//! | 4   | ExportRequest | mode (4), length (8), destination path        |
//! | 5   | SyncRequest   | count (8), that many indices (8 each)         |
//! | 6   | Done          | none                                          |
//! | 7   | Error         | reason (1)                                    |

use crate::chunks::append_bytes;
use crate::endian::{
    get_u128, get_u32, get_u64, lemma_u128_bytes, lemma_u32_bytes, lemma_u64_bytes, put_u32,
    put_u64, u128_of, u32_bytes, u32_of, u64_bytes, u64_of,
};
use crate::error::TransferError;
use crate::hash::{lemma_hash_bytes, ContentHash};
use crate::messages::{Message, MessageView};
use vstd::prelude::*;
use vstd::slice::*;

verus! {

/// Number of bytes before a message's own fields: the tag and the hash.
pub const HEADER_LEN: usize = 17;

/// Why a datagram is not a message.
#[derive(Clone, Copy, Debug, PartialEq, Eq, Structural)]
pub enum DecodeError {
    /// The datagram ends before the message does.
    Truncated,
    /// The first byte names no variant.
    UnknownTag,
    /// Bytes follow the end of the message.
    TrailingBytes,
    /// The reason of an `Error` message names no failure.
    UnknownReason,
}

/// The byte that tells the variant of `message`.
pub open spec fn tag_of(message: MessageView) -> u8 {
    match message {
        MessageView::Metadata { .. } => 0,
        MessageView::ChunkData { .. } => 1,
        MessageView::Ack { .. } => 2,
        MessageView::Nak { .. } => 3,
        MessageView::ExportRequest { .. } => 4,
        MessageView::SyncRequest { .. } => 5,
        MessageView::Done { .. } => 6,
        MessageView::Error { .. } => 7,
    }
}

/// The indices one after the other, eight bytes each.
pub open spec fn packed(indices: Seq<u64>) -> Seq<u8> {
    Seq::new(8 * indices.len(), |i: int| u64_bytes(indices[i / 8])[i % 8])
}

/// The `count` indices that `bytes` starts with.
pub open spec fn unpacked(bytes: Seq<u8>, count: nat) -> Seq<u64> {
    Seq::new(count, |k: int| u64_of(bytes.subrange(8 * k, 8 * k + 8)))
}

/// The 64-bit integer at offset `at` of `bytes`.
pub open spec fn u64_at(bytes: Seq<u8>, at: int) -> u64 {
    u64_of(bytes.subrange(at, at + 8))
}

/// The fields of `message` after the hash.
pub open spec fn body_of(message: MessageView) -> Seq<u8> {
    match message {
        MessageView::Metadata { total_chunks, .. } => u64_bytes(total_chunks),
        MessageView::ChunkData { index, payload, .. } => u64_bytes(index)
            + u64_bytes(payload.len() as u64) + payload,
        MessageView::Ack { index, .. } => u64_bytes(index),
        MessageView::Nak { index, .. } => u64_bytes(index),
        MessageView::ExportRequest { dest_path, mode, .. } => u32_bytes(mode)
            + u64_bytes(dest_path.len() as u64) + dest_path,
        MessageView::SyncRequest { missing, .. } => u64_bytes(missing.len() as u64)
            + packed(missing),
        MessageView::Done { .. } => Seq::empty(),
        MessageView::Error { reason, .. } => seq![reason.code()],
    }
}

/// The datagram that carries `message`.
pub open spec fn encoded(message: MessageView) -> Seq<u8> {
    seq![tag_of(message)] + message.hash().bytes() + body_of(message)
}

/// The number of bytes in the datagram that carries `message`.
pub open spec fn wire_len(message: MessageView) -> nat {
    17 + match message {
        MessageView::Metadata { .. } => 8,
        MessageView::ChunkData { payload, .. } => 16 + payload.len(),
        MessageView::Ack { .. } => 8,
        MessageView::Nak { .. } => 8,
        MessageView::ExportRequest { dest_path, .. } => 12 + dest_path.len(),
        MessageView::SyncRequest { missing, .. } => 8 + 8 * missing.len(),
        MessageView::Done { .. } => 0,
        MessageView::Error { .. } => 1,
    }
}

/// Whether the lengths in `message` fit the 64-bit length fields.
pub open spec fn fits(message: MessageView) -> bool {
    match message {
        MessageView::ChunkData { payload, .. } => payload.len() <= u64::MAX,
        MessageView::ExportRequest { dest_path, .. } => dest_path.len() <= u64::MAX,
        MessageView::SyncRequest { missing, .. } => missing.len() <= u64::MAX,
        _ => true,
    }
}

/// The message whose fields after the hash are `body`, for a valid `tag`.
pub open spec fn decoded_body(tag: u8, hash: ContentHash, body: Seq<u8>) -> Result<
    MessageView,
    DecodeError,
> {
    if tag == 0 || tag == 2 || tag == 3 {
        if body.len() < 8 {
            Err(DecodeError::Truncated)
        } else if body.len() > 8 {
            Err(DecodeError::TrailingBytes)
        } else if tag == 0 {
            Ok(MessageView::Metadata { hash, total_chunks: u64_at(body, 0) })
        } else if tag == 2 {
            Ok(MessageView::Ack { hash, index: u64_at(body, 0) })
        } else {
            Ok(MessageView::Nak { hash, index: u64_at(body, 0) })
        }
    } else if tag == 1 {
        if body.len() < 16 {
            Err(DecodeError::Truncated)
        } else if body.len() - 16 < u64_at(body, 8) {
            Err(DecodeError::Truncated)
        } else if body.len() - 16 > u64_at(body, 8) {
            Err(DecodeError::TrailingBytes)
        } else {
            Ok(MessageView::ChunkData { hash, index: u64_at(body, 0), payload: body.skip(16) })
        }
    } else if tag == 4 {
        if body.len() < 12 {
            Err(DecodeError::Truncated)
        } else if body.len() - 12 < u64_at(body, 4) {
            Err(DecodeError::Truncated)
        } else if body.len() - 12 > u64_at(body, 4) {
            Err(DecodeError::TrailingBytes)
        } else {
            Ok(
                MessageView::ExportRequest {
                    hash,
                    dest_path: body.skip(12),
                    mode: u32_of(body.subrange(0, 4)),
                },
            )
        }
    } else if tag == 5 {
        if body.len() < 8 {
            Err(DecodeError::Truncated)
        } else if body.len() - 8 < 8 * u64_at(body, 0) {
            Err(DecodeError::Truncated)
        } else if body.len() - 8 > 8 * u64_at(body, 0) {
            Err(DecodeError::TrailingBytes)
        } else {
            Ok(
                MessageView::SyncRequest {
                    hash,
                    missing: unpacked(body.skip(8), u64_at(body, 0) as nat),
                },
            )
        }
    } else if tag == 6 {
        if body.len() > 0 {
            Err(DecodeError::TrailingBytes)
        } else {
            Ok(MessageView::Done { hash })
        }
    } else {
        if body.len() < 1 {
            Err(DecodeError::Truncated)
        } else if body.len() > 1 {
            Err(DecodeError::TrailingBytes)
        } else {
            match TransferError::of_code(body[0]) {
                Some(reason) => Ok(MessageView::Error { hash, reason }),
                None => Err(DecodeError::UnknownReason),
            }
        }
    }
}

/// The message that the datagram `bytes` carries, or why it carries none.
pub open spec fn decoded(bytes: Seq<u8>) -> Result<MessageView, DecodeError> {
    if bytes.len() == 0 {
        Err(DecodeError::Truncated)
    } else if bytes[0] > 7 {
        Err(DecodeError::UnknownTag)
    } else if bytes.len() < 17 {
        Err(DecodeError::Truncated)
    } else {
        decoded_body(
            bytes[0],
            ContentHash { value: u128_of(bytes.subrange(1, 17)) },
            bytes.skip(17),
        )
    }
}

proof fn lemma_unpack_pack(indices: Seq<u64>)
    ensures
        packed(indices).len() == 8 * indices.len(),
        unpacked(packed(indices), indices.len()) == indices,
{
    lemma_u64_bytes();
    let bytes = packed(indices);
    assert forall|k: int| 0 <= k < indices.len() implies #[trigger] unpacked(
        bytes,
        indices.len(),
    )[k] == indices[k] by {
        let piece = bytes.subrange(8 * k, 8 * k + 8);
        let word = u64_bytes(indices[k]);
        assert(word.len() == 8);
        assert forall|j: int| 0 <= j < 8 implies piece[j] == word[j] by {
            assert((8 * k + j) / 8 == k);
            assert((8 * k + j) % 8 == j);
        }
        assert(piece =~= word);
    }
    assert(unpacked(bytes, indices.len()) =~= indices);
}

proof fn lemma_pack_unpack(bytes: Seq<u8>, count: nat)
    requires
        bytes.len() == 8 * count,
    ensures
        packed(unpacked(bytes, count)) == bytes,
{
    lemma_u64_bytes();
    let indices = unpacked(bytes, count);
    assert forall|i: int| 0 <= i < 8 * count implies #[trigger] packed(indices)[i] == bytes[i] by {
        let k = i / 8;
        let j = i % 8;
        let piece = bytes.subrange(8 * k, 8 * k + 8);
        assert(piece.len() == 8);
        assert(u64_bytes(u64_of(piece)) == piece);
        assert(piece[j] == bytes[8 * k + j]);
    }
    assert(packed(indices) =~= bytes);
}

/// A datagram starts with the tag of its message and is as long as
/// `wire_len` says.
pub proof fn lemma_encoded_len(message: MessageView)
    ensures
        encoded(message).len() == wire_len(message),
        encoded(message)[0] == tag_of(message),
{
    lemma_u64_bytes();
    lemma_u32_bytes();
    lemma_hash_bytes(message.hash());
    match message {
        MessageView::Metadata { total_chunks, .. } => {
            assert(u64_bytes(total_chunks).len() == 8);
        },
        MessageView::ChunkData { index, payload, .. } => {
            assert(u64_bytes(index).len() == 8);
            assert(u64_bytes(payload.len() as u64).len() == 8);
        },
        MessageView::Ack { index, .. } => {
            assert(u64_bytes(index).len() == 8);
        },
        MessageView::Nak { index, .. } => {
            assert(u64_bytes(index).len() == 8);
        },
        MessageView::ExportRequest { dest_path, mode, .. } => {
            assert(u32_bytes(mode).len() == 4);
            assert(u64_bytes(dest_path.len() as u64).len() == 8);
        },
        MessageView::SyncRequest { missing, .. } => {
            assert(u64_bytes(missing.len() as u64).len() == 8);
        },
        MessageView::Done { .. } => {},
        MessageView::Error { .. } => {},
    }
}

/// Decoding the datagram of a message gives the message back.
pub proof fn lemma_decode_encode(message: MessageView)
    requires
        fits(message),
    ensures
        decoded(encoded(message)) == Ok::<MessageView, DecodeError>(message),
{
    lemma_u64_bytes();
    lemma_u32_bytes();
    lemma_u128_bytes();
    let hash = message.hash();
    lemma_hash_bytes(hash);
    let bytes = encoded(message);
    let body = body_of(message);
    assert(bytes.subrange(1, 17) =~= hash.bytes());
    assert(bytes.skip(17) =~= body);
    assert(bytes[0] == tag_of(message));
    match message {
        MessageView::Metadata { total_chunks, .. } => {
            assert(u64_bytes(total_chunks).len() == 8);
            assert(body.subrange(0, 8) =~= u64_bytes(total_chunks));
        },
        MessageView::ChunkData { index, payload, .. } => {
            let n = payload.len() as u64;
            assert(u64_bytes(index).len() == 8);
            assert(u64_bytes(n).len() == 8);
            assert(body.subrange(0, 8) =~= u64_bytes(index));
            assert(body.subrange(8, 16) =~= u64_bytes(n));
            assert(body.skip(16) =~= payload);
        },
        MessageView::Ack { index, .. } => {
            assert(u64_bytes(index).len() == 8);
            assert(body.subrange(0, 8) =~= u64_bytes(index));
        },
        MessageView::Nak { index, .. } => {
            assert(u64_bytes(index).len() == 8);
            assert(body.subrange(0, 8) =~= u64_bytes(index));
        },
        MessageView::ExportRequest { dest_path, mode, .. } => {
            let n = dest_path.len() as u64;
            assert(u32_bytes(mode).len() == 4);
            assert(u64_bytes(n).len() == 8);
            assert(body.subrange(0, 4) =~= u32_bytes(mode));
            assert(body.subrange(4, 12) =~= u64_bytes(n));
            assert(body.skip(12) =~= dest_path);
        },
        MessageView::SyncRequest { missing, .. } => {
            let n = missing.len() as u64;
            lemma_unpack_pack(missing);
            assert(u64_bytes(n).len() == 8);
            assert(body.subrange(0, 8) =~= u64_bytes(n));
            assert(body.skip(8) =~= packed(missing));
        },
        MessageView::Done { .. } => {
            assert(body.len() == 0);
        },
        MessageView::Error { reason, .. } => {
            assert(body.len() == 1);
            assert(TransferError::of_code(reason.code()) == Some(reason));
        },
    }
}

/// A datagram that carries a message is the datagram of that message: no
/// message has two encodings.
pub proof fn lemma_encode_decode(bytes: Seq<u8>, message: MessageView)
    requires
        decoded(bytes) == Ok::<MessageView, DecodeError>(message),
    ensures
        encoded(message) == bytes,
        fits(message),
{
    lemma_u64_bytes();
    lemma_u32_bytes();
    lemma_u128_bytes();
    let tag = bytes[0];
    let hash = ContentHash { value: u128_of(bytes.subrange(1, 17)) };
    let body = bytes.skip(17);
    assert(message.hash() == hash);
    assert(tag_of(message) == tag);
    assert(bytes.subrange(1, 17).len() == 16);
    assert(hash.bytes() == bytes.subrange(1, 17));
    assert(bytes =~= seq![tag] + bytes.subrange(1, 17) + body);
    if tag == 0 || tag == 2 || tag == 3 {
        assert(body.subrange(0, 8) =~= body);
    } else if tag == 1 {
        assert(body.subrange(0, 8).len() == 8);
        assert(body.subrange(8, 16).len() == 8);
        assert(body =~= body.subrange(0, 8) + body.subrange(8, 16) + body.skip(16));
    } else if tag == 4 {
        assert(body.subrange(0, 4).len() == 4);
        assert(body.subrange(4, 12).len() == 8);
        assert(body =~= body.subrange(0, 4) + body.subrange(4, 12) + body.skip(12));
    } else if tag == 5 {
        let count = u64_at(body, 0);
        assert(body.subrange(0, 8).len() == 8);
        lemma_pack_unpack(body.skip(8), count as nat);
        assert(body =~= body.subrange(0, 8) + body.skip(8));
    } else if tag == 6 {
        assert(body =~= Seq::<u8>::empty());
    } else {
        assert(body =~= seq![body[0]]);
    }
}

/// The datagram that carries `message`.
pub fn encode(message: &Message) -> (bytes: Vec<u8>)
    ensures
        bytes@ == encoded(message@),
        bytes@.len() == wire_len(message@),
        bytes@[0] == tag_of(message@),
{
    proof {
        lemma_encoded_len(message@);
    }
    let mut out: Vec<u8> = Vec::new();
    let hash = message.hash();
    let tag: u8 = match message {
        Message::Metadata { .. } => 0,
        Message::ChunkData { .. } => 1,
        Message::Ack { .. } => 2,
        Message::Nak { .. } => 3,
        Message::ExportRequest { .. } => 4,
        Message::SyncRequest { .. } => 5,
        Message::Done { .. } => 6,
        Message::Error { .. } => 7,
    };
    out.push(tag);
    let hash_bytes = hash.to_bytes();
    append_bytes(&mut out, hash_bytes.as_slice());
    let ghost head = out@;
    assert(head =~= seq![tag_of(message@)] + message@.hash().bytes());
    match message {
        Message::Metadata { total_chunks, .. } => {
            put_u64(&mut out, *total_chunks);
        },
        Message::ChunkData { index, payload, .. } => {
            put_u64(&mut out, *index);
            put_u64(&mut out, payload.len() as u64);
            append_bytes(&mut out, payload.as_slice());
            assert(out@ =~= head + body_of(message@));
        },
        Message::Ack { index, .. } => {
            put_u64(&mut out, *index);
        },
        Message::Nak { index, .. } => {
            put_u64(&mut out, *index);
        },
        Message::ExportRequest { dest_path, mode, .. } => {
            put_u32(&mut out, *mode);
            put_u64(&mut out, dest_path.len() as u64);
            append_bytes(&mut out, dest_path.as_slice());
            assert(out@ =~= head + body_of(message@));
        },
        Message::SyncRequest { missing, .. } => {
            put_u64(&mut out, missing.len() as u64);
            let ghost start = out@;
            let mut k: usize = 0;
            proof {
                lemma_u64_bytes();
            }
            while k < missing.len()
                invariant
                    k <= missing@.len(),
                    out@ == start + packed(missing@.take(k as int)),
                decreases missing@.len() - k,
            {
                let ghost before = out@;
                put_u64(&mut out, missing[k]);
                proof {
                    lemma_u64_bytes();
                    let word = u64_bytes(missing@[k as int]);
                    assert(word.len() == 8);
                    let next = missing@.take(k + 1);
                    let prev = missing@.take(k as int);
                    assert forall|i: int| 0 <= i < 8 * (k + 1) implies #[trigger] packed(next)[i]
                        == (packed(prev) + word)[i] by {
                        if i < 8 * k {
                            assert(next[i / 8] == prev[i / 8]);
                        } else {
                            assert(i / 8 == k);
                            assert(i % 8 == i - 8 * k);
                        }
                    }
                    assert(packed(next) =~= packed(prev) + word);
                    assert(out@ =~= start + packed(next));
                }
                k = k + 1;
            }
            assert(missing@.take(k as int) =~= missing@);
            assert(out@ =~= head + body_of(message@));
        },
        Message::Done { .. } => {
            assert(out@ =~= head + body_of(message@));
        },
        Message::Error { reason, .. } => {
            out.push(reason.to_code());
            assert(out@ =~= head + body_of(message@));
        },
    }
    out
}

/// The message that the datagram `bytes` carries, or why it carries none.
pub fn decode(bytes: &[u8]) -> (message: Result<Message, DecodeError>)
    ensures
        match message {
            Ok(m) => decoded(bytes@) == Ok::<MessageView, DecodeError>(m@),
            Err(e) => decoded(bytes@) == Err::<MessageView, DecodeError>(e),
        },
{
    let len = bytes.len();
    if len == 0 {
        return Err(DecodeError::Truncated);
    }
    let tag: u8 = bytes[0];
    if tag > 7 {
        return Err(DecodeError::UnknownTag);
    }
    if len < HEADER_LEN {
        return Err(DecodeError::Truncated);
    }
    let hash = ContentHash { value: get_u128(slice_subrange(bytes, 1, HEADER_LEN)) };
    let body = slice_subrange(bytes, HEADER_LEN, len);
    assert(body@ =~= bytes@.skip(17));
    let size = body.len();
    if tag == 0 || tag == 2 || tag == 3 {
        if size < 8 {
            Err(DecodeError::Truncated)
        } else if size > 8 {
            Err(DecodeError::TrailingBytes)
        } else {
            let value = get_u64(slice_subrange(body, 0, 8));
            if tag == 0 {
                Ok(Message::Metadata { hash, total_chunks: value })
            } else if tag == 2 {
                Ok(Message::Ack { hash, index: value })
            } else {
                Ok(Message::Nak { hash, index: value })
            }
        }
    } else if tag == 1 {
        if size < 16 {
            return Err(DecodeError::Truncated);
        }
        let index = get_u64(slice_subrange(body, 0, 8));
        let announced = get_u64(slice_subrange(body, 8, 16));
        let rest = (size - 16) as u64;
        if rest < announced {
            Err(DecodeError::Truncated)
        } else if rest > announced {
            Err(DecodeError::TrailingBytes)
        } else {
            let payload = slice_to_vec(slice_subrange(body, 16, size));
            assert(payload@ =~= body@.skip(16));
            Ok(Message::ChunkData { hash, index, payload })
        }
    } else if tag == 4 {
        if size < 12 {
            return Err(DecodeError::Truncated);
        }
        let mode = get_u32(slice_subrange(body, 0, 4));
        let announced = get_u64(slice_subrange(body, 4, 12));
        let rest = (size - 12) as u64;
        if rest < announced {
            Err(DecodeError::Truncated)
        } else if rest > announced {
            Err(DecodeError::TrailingBytes)
        } else {
            let dest_path = slice_to_vec(slice_subrange(body, 12, size));
            assert(dest_path@ =~= body@.skip(12));
            Ok(Message::ExportRequest { hash, dest_path, mode })
        }
    } else if tag == 5 {
        if size < 8 {
            return Err(DecodeError::Truncated);
        }
        let count = get_u64(slice_subrange(body, 0, 8));
        let rest = size - 8;
        if ((rest / 8) as u64) < count {
            Err(DecodeError::Truncated)
        } else if (rest / 8) as u64 > count || rest % 8 != 0 {
            Err(DecodeError::TrailingBytes)
        } else {
            let packed_bytes = slice_subrange(body, 8, size);
            assert(packed_bytes@ =~= body@.skip(8));
            let mut missing: Vec<u64> = Vec::new();
            let mut k: usize = 0;
            while k < rest / 8
                invariant
                    rest == 8 * count,
                    packed_bytes@.len() == rest,
                    k <= count,
                    missing@ == unpacked(packed_bytes@, k as nat),
                decreases count - k,
            {
                let value = get_u64(slice_subrange(packed_bytes, 8 * k, 8 * k + 8));
                missing.push(value);
                k = k + 1;
                assert(missing@ =~= unpacked(packed_bytes@, k as nat));
            }
            Ok(Message::SyncRequest { hash, missing })
        }
    } else if tag == 6 {
        if size > 0 {
            Err(DecodeError::TrailingBytes)
        } else {
            Ok(Message::Done { hash })
        }
    } else {
        if size < 1 {
            Err(DecodeError::Truncated)
        } else if size > 1 {
            Err(DecodeError::TrailingBytes)
        } else {
            match TransferError::from_code(body[0]) {
                Some(reason) => Ok(Message::Error { hash, reason }),
                None => Err(DecodeError::UnknownReason),
            }
        }
    }
}

} // verus!
