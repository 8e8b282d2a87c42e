//! Transfers of different files through one service.

use crate::hash::ContentHash;
use crate::messages::MessageView;
use crate::protocol::EventView;
use crate::service::ServiceView;
use vstd::prelude::*;

verus! {

/// The messages among `messages` that belong to the transfer `hash`, in
/// order.
pub open spec fn of_transfer(messages: Seq<MessageView>, hash: ContentHash) -> Seq<MessageView>
    decreases messages.len(),
{
    if messages.len() == 0 {
        messages
    } else if messages.last().hash() == hash {
        of_transfer(messages.drop_last(), hash).push(messages.last())
    } else {
        of_transfer(messages.drop_last(), hash)
    }
}

/// A message of one transfer leaves every other transfer as it is.
pub proof fn lemma_other_transfers_untouched(
    v: ServiceView,
    message: MessageView,
    hash: ContentHash,
)
    requires
        message.hash() != hash,
    ensures
        ({
            let after = v.handled(message.hash(), EventView::Received(message));
            &&& after.sessions.contains_key(hash) == v.sessions.contains_key(hash)
            &&& after.session_of(hash) == v.session_of(hash)
            &&& after.dir_of(hash) == v.dir_of(hash)
        }),
{
}

/// Transfers through one service do not touch each other.
///
/// Whatever messages of other transfers arrive in between, and in whatever
/// order, the session and the chunks of the transfer `hash` end as they
/// would had its own messages arrived alone, and every answer to a message
/// of the transfer is the same.
pub proof fn lemma_transfers_independent(
    v: ServiceView,
    messages: Seq<MessageView>,
    hash: ContentHash,
)
    ensures
        ({
            let mixed = v.delivered(messages);
            let alone = v.delivered(of_transfer(messages, hash));
            &&& mixed.sessions.contains_key(hash) == alone.sessions.contains_key(hash)
            &&& mixed.session_of(hash) == alone.session_of(hash)
            &&& mixed.dir_of(hash) == alone.dir_of(hash)
            &&& forall|event: EventView| #[trigger]
                mixed.answer(hash, event) == alone.answer(hash, event)
        }),
    decreases messages.len(),
{
    if messages.len() > 0 {
        let front = messages.drop_last();
        let last = messages.last();
        lemma_transfers_independent(v, front, hash);
        if last.hash() == hash {
            let own = of_transfer(front, hash);
            assert(own.push(last).drop_last() =~= own);
            assert(own.push(last).last() == last);
        } else {
            lemma_other_transfers_untouched(v.delivered(front), last, hash);
        }
    }
}

} // verus!
