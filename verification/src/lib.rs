//! Flight-software services, verified.
//!
//! The heart of the crate is a resumable, content-addressed file transfer
//! over a link that may lose, repeat and reorder datagrams:
//!
//! * [`chunks`] cuts a file into fixed-size chunks and joins them again;
//! * [`hash`] names a file by the digest of its content;
//! * [`storage`] keeps chunks by content hash and chunk index, and puts a
//!   file together once all its chunks are there;
//! * [`layout`] names the files that chunks are kept in on disk;
//! * [`messages`] and [`codec`] define the protocol messages and their wire
//!   format, with integers laid out as [`endian`] says;
//! * [`protocol`] is the state machine of one transfer;
//! * [`service`] holds one session for each content hash and hands every
//!   message to the session it belongs to;
//! * [`guarantees`] states and proves what a transfer guarantees.
//!
//! Beside it stand the bookkeeping of the application registry
//! ([`registry`]), the front of the antenna service ([`antenna`]) and a small
//! stack machine ([`script`]).
//!
//! The library does no input or output. It takes what its caller read or
//! received as plain values and answers with what to send and to write.

pub mod antenna;
pub mod chunks;
pub mod codec;
pub mod endian;
pub mod error;
pub mod guarantees;
pub mod hash;
pub mod layout;
pub mod messages;
pub mod protocol;
pub mod registry;
pub mod script;
pub mod service;
pub mod storage;
pub mod vectors;
