use vstd::prelude::*;
use crossbeam_channel::Receiver;
use crossbeam_channel::Sender;
use crate::channel;
use crate::channel::Probe;
use crate::key::ChunkKey;
use crate::registry::PendingRegistry;
use crate::token::CancelToken;

verus! {

/// What one generation job produced: the payload and its supplemental spawn
/// data, or a failure carrying the identity of the original requester, if
/// any.  Failures are data, not faults; they travel the same path as
/// successes.
pub enum GenerationOutcome<C, S, R> {
    Success(C, S),
    Failure(Option<R>),
}

/// The message a job sends exactly once, even when it was canceled
/// mid-flight: the drain step is responsible for discarding stale ones.
pub type ResultMessage<C, S, R> = (ChunkKey, GenerationOutcome<C, S, R>);

/// The worker side has torn down: every sender is gone and the channel is
/// drained.  This is the one unrecoverable condition of the scheduler.
#[derive(Clone, Copy, PartialEq, Eq, Structural, Debug)]
pub struct ChannelClosed;

/// The three monotonically increasing counters: jobs accepted for
/// dispatch, results delivered, and entries explicitly canceled.
#[derive(Clone, Copy, PartialEq, Eq, Structural, Debug)]
pub struct Metrics {
    pub requested: u64,
    pub served: u64,
    pub canceled: u64,
}

/// Everything a worker needs to run one accepted job: the key, the
/// requester's identity, a shared handle on the job's cancellation token,
/// and a sender into the result channel.  The handle is consumed when the
/// result is reported, so each job reports at most once; a job must report
/// exactly once, even after observing its token set.
#[verifier::reject_recursive_types(C)]
#[verifier::reject_recursive_types(S)]
#[verifier::reject_recursive_types(R)]
pub struct JobHandle<C, S, R> {
    key: ChunkKey,
    requester: Option<R>,
    cancel: CancelToken,
    tx: Sender<ResultMessage<C, S, R>>,
}

impl<C, S, R> JobHandle<C, S, R> {
    /// The coordinate this job generates.
    pub closed spec fn key_of(self) -> ChunkKey {
        self.key
    }

    /// The identity of the requester, if one was named.
    pub closed spec fn requester_of(self) -> Option<R> {
        self.requester
    }

    pub fn key(&self) -> (r: ChunkKey)
        ensures
            r == self.key_of(),
    {
        self.key
    }

    /// The cancellation-check predicate for the generation algorithm: true
    /// once the scheduler has canceled this job.  Purely advisory.
    pub fn should_cancel(&self) -> bool {
        self.cancel.is_set()
    }

    /// Report a successful generation.  Never blocks.
    pub fn succeed(self, chunk: C, supplement: S) {
        channel::send(&self.tx, (self.key, GenerationOutcome::Success(chunk, supplement)));
    }

    /// Report a failed or cancellation-aborted generation, carrying the
    /// original requester's identity back to the caller.  Never blocks.
    pub fn fail(self) {
        channel::send(&self.tx, (self.key, GenerationOutcome::Failure(self.requester)));
    }
}

/// The generation scheduler: accepts requests keyed by coordinate,
/// guarantees at most one in-flight job per key, and lets the caller poll
/// for results without blocking.  `C` is the chunk payload, `S` the
/// supplemental spawn data, `R` the requester identity; all three are
/// opaque to the scheduler.
#[verifier::reject_recursive_types(C)]
#[verifier::reject_recursive_types(S)]
#[verifier::reject_recursive_types(R)]
pub struct ChunkGenerator<C, S, R> {
    chunk_tx: Sender<ResultMessage<C, S, R>>,
    chunk_rx: Receiver<ResultMessage<C, S, R>>,
    pending_chunks: PendingRegistry,
    requested: u64,
    served: u64,
    canceled: u64,
}

impl<C, S, R> ChunkGenerator<C, S, R> {
    /// The set of keys whose jobs are currently wanted.
    pub closed spec fn pending(self) -> Set<ChunkKey> {
        self.pending_chunks.key_set()
    }

    /// The pending keys as a snapshot sequence, in insertion order.
    pub closed spec fn pending_seq(self) -> Seq<ChunkKey> {
        self.pending_chunks.key_seq()
    }

    /// How many jobs are submitted but neither served nor canceled yet.
    pub closed spec fn pending_count(self) -> nat {
        self.pending_chunks.count()
    }

    pub closed spec fn requested_count(self) -> u64 {
        self.requested
    }

    pub closed spec fn served_count(self) -> u64 {
        self.served
    }

    pub closed spec fn canceled_count(self) -> u64 {
        self.canceled
    }

    /// The one-job-per-key invariant of the registry.
    pub closed spec fn registry_wf(self) -> bool {
        self.pending_chunks.wf()
    }

    /// Well-formedness: the registry holds each key at most once, and the
    /// counters reconcile — every accepted request was either served,
    /// canceled, or is still pending.
    pub open spec fn wf(self) -> bool {
        &&& self.registry_wf()
        &&& self.requested_count() as int == self.served_count() as int
            + self.canceled_count() as int + self.pending_count() as int
    }

    /// A fresh scheduler: nothing pending, all counters zero.
    pub fn new() -> (r: ChunkGenerator<C, S, R>)
        ensures
            r.wf(),
            r.pending() == Set::<ChunkKey>::empty(),
            r.pending_seq() == Seq::<ChunkKey>::empty(),
            r.pending_count() == 0,
            r.requested_count() == 0,
            r.served_count() == 0,
            r.canceled_count() == 0,
    {
        let (chunk_tx, chunk_rx) = channel::channel();
        let r = ChunkGenerator {
            chunk_tx,
            chunk_rx,
            pending_chunks: PendingRegistry::new(),
            requested: 0,
            served: 0,
            canceled: 0,
        };
        proof {
            assert(r.pending() =~= Set::<ChunkKey>::empty());
        }
        r
    }

    /// Accept a generation request for `key`.  If no job for `key` is in
    /// flight, registers one, counts it as requested, and hands back the
    /// job for the caller to submit to its worker pool: submission is the
    /// caller's, fire-and-forget, and nothing here blocks.  If a job is
    /// already in flight, refuses with no side effect at all.
    pub fn generate_chunk(&mut self, entity: Option<R>, key: ChunkKey) -> (r: Option<
        JobHandle<C, S, R>,
    >)
        requires
            old(self).wf(),
            old(self).requested_count() < u64::MAX,
        ensures
            final(self).wf(),
            r.is_some() == !old(self).pending().contains(key),
            final(self).pending() == old(self).pending().insert(key),
            r matches Some(h) ==> {
                &&& h.key_of() == key
                &&& h.requester_of() == entity
                &&& final(self).pending_seq() == old(self).pending_seq().push(key)
                &&& final(self).pending_count() == old(self).pending_count() + 1
                &&& final(self).requested_count() == old(self).requested_count() + 1
                &&& final(self).served_count() == old(self).served_count()
                &&& final(self).canceled_count() == old(self).canceled_count()
            },
            r.is_none() ==> *final(self) == *old(self),
    {
        if !self.pending_chunks.request(key) {
            proof {
                assert(self.pending().insert(key) =~= self.pending());
            }
            return None;
        }
        let token = self.pending_chunks.token(key).unwrap();
        self.requested = self.requested + 1;
        Some(
            JobHandle {
                key,
                requester: entity,
                cancel: token,
                tx: channel::clone_sender(&self.chunk_tx),
            },
        )
    }

    /// Drain one deliverable result, without blocking.  Probes the channel;
    /// a message whose key is still pending is delivered and counted as
    /// served; a stale message — its key canceled since — is discarded
    /// silently and the next message is probed.  Returns `Ok(None)` as soon
    /// as the channel is empty, and `Err` if the worker side has torn down.
    ///
    /// A delivered key was pending when the call began, so a canceled job's
    /// result is never delivered while its key stays canceled.
    pub fn recv_new_chunk(&mut self) -> (r: Result<
        Option<ResultMessage<C, S, R>>,
        ChannelClosed,
    >)
        requires
            old(self).wf(),
        ensures
            final(self).wf(),
            r matches Ok(Some(m)) ==> {
                &&& old(self).pending().contains(m.0)
                &&& final(self).pending() == old(self).pending().remove(m.0)
                &&& final(self).pending_count() + 1 == old(self).pending_count()
                &&& final(self).served_count() == old(self).served_count() + 1
                &&& final(self).requested_count() == old(self).requested_count()
                &&& final(self).canceled_count() == old(self).canceled_count()
            },
            r matches Ok(None) ==> *final(self) == *old(self),
            r matches Err(e) ==> *final(self) == *old(self),
    {
        // Each probe consumes one queued message, every accepted job sends
        // at most one message, and at most u64::MAX requests can ever have
        // been accepted; so this bound is never the reason the loop ends.
        let mut fuel: u64 = u64::MAX;
        loop
            invariant
                self.wf(),
                *self == *old(self),
            decreases fuel,
        {
            if fuel == 0 {
                return Ok(None);
            }
            fuel = fuel - 1;
            match channel::try_recv(&self.chunk_rx) {
                Probe::Message(m) => {
                    let (key, outcome) = m;
                    if self.pending_chunks.remove(key) {
                        proof {
                            assert(self.served as int + 1 <= self.requested as int);
                        }
                        self.served = self.served + 1;
                        return Ok(Some((key, outcome)));
                    }
                    // Stale: the key was canceled while the job ran.
                    // Discard and try the next queued message.
                },
                Probe::Empty => {
                    return Ok(None);
                },
                Probe::Disconnected => {
                    return Err(ChannelClosed);
                },
            }
        }
    }

    /// A read-only snapshot of the pending keys.
    pub fn pending_chunks(&self) -> (r: Vec<ChunkKey>)
        ensures
            r@ == self.pending_seq(),
    {
        self.pending_chunks.keys()
    }

    /// If a job for `key` is pending, remove it, set its token, and count
    /// one cancellation; otherwise do nothing.  Returns at once — the job
    /// is not interrupted, its eventual result is merely discarded — and a
    /// new request for `key` is accepted immediately afterwards.
    pub fn cancel_if_pending(&mut self, key: ChunkKey)
        requires
            old(self).wf(),
        ensures
            final(self).wf(),
            final(self).pending() == old(self).pending().remove(key),
            !final(self).pending().contains(key),
            old(self).pending().contains(key) ==> {
                &&& final(self).pending_count() + 1 == old(self).pending_count()
                &&& final(self).canceled_count() == old(self).canceled_count() + 1
                &&& final(self).requested_count() == old(self).requested_count()
                &&& final(self).served_count() == old(self).served_count()
            },
            !old(self).pending().contains(key) ==> *final(self) == *old(self),
    {
        if self.pending_chunks.cancel(key) {
            proof {
                assert(self.canceled as int + 1 <= self.requested as int);
            }
            self.canceled = self.canceled + 1;
        }
    }

    /// Cancel every pending job: set all tokens, clear the registry, and
    /// add the number of entries cleared to the canceled counter.
    pub fn cancel_all(&mut self)
        requires
            old(self).wf(),
        ensures
            final(self).wf(),
            final(self).pending() == Set::<ChunkKey>::empty(),
            final(self).pending_seq() == Seq::<ChunkKey>::empty(),
            final(self).pending_count() == 0,
            final(self).canceled_count() == old(self).canceled_count() + old(
                self,
            ).pending_count(),
            final(self).requested_count() == old(self).requested_count(),
            final(self).served_count() == old(self).served_count(),
    {
        let cleared = self.pending_chunks.cancel_all();
        proof {
            assert(self.canceled as int + cleared as int <= self.requested as int);
        }
        self.canceled = self.canceled + (cleared as u64);
    }

    /// The current values of the three counters.
    pub fn metrics(&self) -> (r: Metrics)
        ensures
            r.requested == self.requested_count(),
            r.served == self.served_count(),
            r.canceled == self.canceled_count(),
    {
        Metrics { requested: self.requested, served: self.served, canceled: self.canceled }
    }
}

} // verus!
