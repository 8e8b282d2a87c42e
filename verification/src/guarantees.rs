//! What a transfer guarantees, proved over the protocol's model.
//!
//! The statements here speak of `transition`, the step function that
//! `Session::step` implements, and of the spec functions of the chunk store.
//! They hold for every file, every chunk size and every order of delivery
//! that their premises admit.
//!
//! * [`delivery`]: a receiver that is sent a file in any order, with any
//!   repetition, ends up with that file.
//! * [`exchange`]: an upload asks for and sends exactly the chunks that the
//!   receiver lacks, and reproduces the file.
//! * [`integrity`]: a chunk that was altered behind the store's back is
//!   found out.
//! * [`independence`]: transfers of different files do not touch each
//!   other.
//! * [`link`]: whatever the link loses, repeats or reorders, neither side
//!   fails and nothing but the file is written out.

pub mod delivery;
pub mod exchange;
pub mod independence;
pub mod integrity;
pub mod link;
