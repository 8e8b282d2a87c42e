//! Chunks that were changed behind the store's back.

use crate::error::TransferError;
use crate::hash::content_hash;
use crate::messages::MessageView;
use crate::protocol::{failed, requested, transition, ActionView, EventView, SessionView, State};
use crate::storage::{assemble, complete, lemma_assemble_depends_on_prefix, reassembled};
use vstd::prelude::*;

verus! {

/// A chunk altered behind the store's back is found out.
///
/// Where a complete directory has one chunk replaced by other bytes, the
/// content put together is no longer what it was. Unless the altered
/// content happens to hash to the same hash, putting the file together
/// fails with `HashMismatch`, and a receiver told of the file fails with
/// `HashMismatch`, tells its peer, and writes nothing out.
pub proof fn lemma_corruption_detected(
    s: SessionView,
    dir: Map<u64, Seq<u8>>,
    total: u64,
    index: u64,
    bad: Seq<u8>,
)
    requires
        complete(dir, total as nat),
        index < total,
        bad != dir[index],
        s.state == State::Holding || s.state == State::Receiving || s.state == State::Done,
        s.total_chunks is Some ==> s.total_chunks == Some(total),
        content_hash(assemble(dir.insert(index, bad), total as nat)) != s.hash,
    ensures
        assemble(dir.insert(index, bad), total as nat) != assemble(dir, total as nat),
        reassembled(dir.insert(index, bad), s.hash, total as nat) == Err::<
            Seq<u8>,
            TransferError,
        >(TransferError::HashMismatch),
        ({
            let told = transition(
                s,
                dir.insert(index, bad),
                EventView::Received(MessageView::Metadata { hash: s.hash, total_chunks: total }),
            );
            &&& told.session.state == State::Failed
            &&& told.session.failure == Some(TransferError::HashMismatch)
            &&& told.actions == seq![
                ActionView::Send(
                    MessageView::Error { hash: s.hash, reason: TransferError::HashMismatch },
                ),
            ]
        }),
{
    let altered = dir.insert(index, bad);
    assert(complete(altered, total as nat));
    lemma_altered_content_differs(dir, total as nat, index, bad);
    let known = SessionView { total_chunks: Some(total), ..s };
    let told = transition(
        s,
        altered,
        EventView::Received(MessageView::Metadata { hash: s.hash, total_chunks: total }),
    );
    assert(told == requested(known, altered));
    assert(told == failed(known, altered, TransferError::HashMismatch));
}

/// Replacing one of the first `total` chunks by other bytes changes what
/// they put together.
pub proof fn lemma_altered_content_differs(
    dir: Map<u64, Seq<u8>>,
    total: nat,
    index: u64,
    bad: Seq<u8>,
)
    requires
        total <= u64::MAX,
        index < total,
        bad != dir[index],
    ensures
        assemble(dir.insert(index, bad), total) != assemble(dir, total),
    decreases total,
{
    let altered = dir.insert(index, bad);
    let last = (total - 1) as u64;
    let head = assemble(dir, (total - 1) as nat);
    let altered_head = assemble(altered, (total - 1) as nat);
    if index == last {
        assert forall|i: u64| i < total - 1 implies altered[i] == dir[i] by {}
        lemma_assemble_depends_on_prefix(altered, dir, (total - 1) as nat);
        assert(altered_head == head);
        if head + bad == head + dir[index] {
            lemma_append_cancels(head, bad, dir[index]);
        }
    } else {
        lemma_altered_content_differs(dir, (total - 1) as nat, index, bad);
        assert(altered[last] == dir[last]);
        if altered_head + dir[last] == head + dir[last] {
            lemma_append_cancels_right(altered_head, head, dir[last]);
        }
    }
}

proof fn lemma_append_cancels(head: Seq<u8>, a: Seq<u8>, b: Seq<u8>)
    requires
        head + a == head + b,
    ensures
        a == b,
{
    let x = head + a;
    let y = head + b;
    assert(x.len() == head.len() + a.len());
    assert(y.len() == head.len() + b.len());
    assert forall|i: int| 0 <= i < a.len() implies a[i] == b[i] by {
        assert(x[head.len() + i] == a[i]);
        assert(y[head.len() + i] == b[i]);
    }
    assert(a =~= b);
}

proof fn lemma_append_cancels_right(a: Seq<u8>, b: Seq<u8>, tail: Seq<u8>)
    requires
        a + tail == b + tail,
    ensures
        a == b,
{
    let x = a + tail;
    let y = b + tail;
    assert(x.len() == a.len() + tail.len());
    assert(y.len() == b.len() + tail.len());
    assert forall|i: int| 0 <= i < a.len() implies a[i] == b[i] by {
        assert(x[i] == a[i]);
        assert(y[i] == b[i]);
    }
    assert(a =~= b);
}

} // verus!
