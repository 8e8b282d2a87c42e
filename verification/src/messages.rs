//! The messages of the transfer protocol.
//!
//! Every message carries the content hash of the transfer it belongs to, so
//! that one channel can carry many transfers.

use crate::error::TransferError;
use crate::hash::ContentHash;
use vstd::prelude::*;

verus! {

/// A protocol message.
#[derive(Clone, Debug, PartialEq, Eq)]
pub enum Message {
    /// Announces a transfer of `total_chunks` chunks.
    Metadata { hash: ContentHash, total_chunks: u64 },
    /// Carries one chunk.
    ChunkData { hash: ContentHash, index: u64, payload: Vec<u8> },
    /// Acknowledges one chunk.
    Ack { hash: ContentHash, index: u64 },
    /// Asks for one chunk to be sent again.
    Nak { hash: ContentHash, index: u64 },
    /// Asks the receiver to write the complete file to `dest_path` with
    /// permission bits `mode`.
    ExportRequest { hash: ContentHash, dest_path: Vec<u8>, mode: u32 },
    /// Asks the sender for the chunks listed in `missing`.
    SyncRequest { hash: ContentHash, missing: Vec<u64> },
    /// Says that the transfer is complete.
    Done { hash: ContentHash },
    /// Reports a failure of the transfer.
    Error { hash: ContentHash, reason: TransferError },
}

/// What a message says: the message with its byte vectors and index lists as
/// sequences.
pub enum MessageView {
    Metadata { hash: ContentHash, total_chunks: u64 },
    ChunkData { hash: ContentHash, index: u64, payload: Seq<u8> },
    Ack { hash: ContentHash, index: u64 },
    Nak { hash: ContentHash, index: u64 },
    ExportRequest { hash: ContentHash, dest_path: Seq<u8>, mode: u32 },
    SyncRequest { hash: ContentHash, missing: Seq<u64> },
    Done { hash: ContentHash },
    Error { hash: ContentHash, reason: TransferError },
}

impl MessageView {
    /// The content hash of the transfer the message belongs to.
    pub open spec fn hash(self) -> ContentHash {
        match self {
            MessageView::Metadata { hash, .. } => hash,
            MessageView::ChunkData { hash, .. } => hash,
            MessageView::Ack { hash, .. } => hash,
            MessageView::Nak { hash, .. } => hash,
            MessageView::ExportRequest { hash, .. } => hash,
            MessageView::SyncRequest { hash, .. } => hash,
            MessageView::Done { hash } => hash,
            MessageView::Error { hash, .. } => hash,
        }
    }
}

impl View for Message {
    type V = MessageView;

    open spec fn view(&self) -> MessageView {
        match *self {
            Message::Metadata { hash, total_chunks } => MessageView::Metadata {
                hash,
                total_chunks,
            },
            Message::ChunkData { hash, index, payload } => MessageView::ChunkData {
                hash,
                index,
                payload: payload@,
            },
            Message::Ack { hash, index } => MessageView::Ack { hash, index },
            Message::Nak { hash, index } => MessageView::Nak { hash, index },
            Message::ExportRequest { hash, dest_path, mode } => MessageView::ExportRequest {
                hash,
                dest_path: dest_path@,
                mode,
            },
            Message::SyncRequest { hash, missing } => MessageView::SyncRequest {
                hash,
                missing: missing@,
            },
            Message::Done { hash } => MessageView::Done { hash },
            Message::Error { hash, reason } => MessageView::Error { hash, reason },
        }
    }
}

impl Message {
    /// The content hash of the transfer the message belongs to.
    pub fn hash(&self) -> (hash: ContentHash)
        ensures
            hash == self@.hash(),
    {
        match self {
            Message::Metadata { hash, .. } => *hash,
            Message::ChunkData { hash, .. } => *hash,
            Message::Ack { hash, .. } => *hash,
            Message::Nak { hash, .. } => *hash,
            Message::ExportRequest { hash, .. } => *hash,
            Message::SyncRequest { hash, .. } => *hash,
            Message::Done { hash } => *hash,
            Message::Error { hash, .. } => *hash,
        }
    }
}

} // verus!
