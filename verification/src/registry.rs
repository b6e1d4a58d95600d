use vstd::prelude::*;
use crate::key::ChunkKey;
use crate::token::CancelToken;

verus! {

/// One pending job: the key being generated and the token that can ask the
/// job to stop.
pub struct PendingEntry {
    pub key: ChunkKey,
    pub token: CancelToken,
}

/// The authoritative record of currently wanted generation jobs.  A key is
/// present exactly while one job for it is believed to be in flight; the
/// registry tracks current desire, not running threads, so a canceled job
/// may keep executing after its entry is gone.
pub struct PendingRegistry {
    entries: Vec<PendingEntry>,
}

impl PendingRegistry {
    /// The pending keys, in insertion order.
    pub closed spec fn key_seq(self) -> Seq<ChunkKey> {
        self.entries@.map_values(|e: PendingEntry| e.key)
    }

    /// The set of pending keys.
    pub open spec fn key_set(self) -> Set<ChunkKey> {
        self.key_seq().to_set()
    }

    /// How many jobs are pending.
    pub open spec fn count(self) -> nat {
        self.key_seq().len()
    }

    /// Each key appears at most once: at most one job in flight per key.
    pub open spec fn wf(self) -> bool {
        self.key_seq().no_duplicates()
    }

    /// An empty registry: nothing pending.
    pub fn new() -> (r: PendingRegistry)
        ensures
            r.wf(),
            r.key_seq() == Seq::<ChunkKey>::empty(),
            r.count() == 0,
    {
        let r = PendingRegistry { entries: Vec::new() };
        proof {
            assert(r.key_seq() =~= Seq::<ChunkKey>::empty());
        }
        r
    }

    /// The index of `key`'s entry, if one is pending.
    fn position(&self, key: ChunkKey) -> (r: Option<usize>)
        ensures
            match r {
                Some(i) => i < self.key_seq().len() && self.key_seq()[i as int] == key,
                None => !self.key_set().contains(key),
            },
    {
        let n = self.entries.len();
        let mut i: usize = 0;
        while i < n
            invariant
                n == self.entries.len(),
                i <= n,
                forall|j: int| 0 <= j < i ==> self.key_seq()[j] != key,
            decreases n - i,
        {
            if self.entries[i].key == key {
                return Some(i);
            }
            i += 1;
        }
        proof {
            assert(forall|j: int| 0 <= j < self.key_seq().len() ==> self.key_seq()[j] != key);
            assert(!self.key_seq().contains(key));
        }
        None
    }

    /// Whether a job for `key` is currently pending.
    pub fn contains(&self, key: ChunkKey) -> (r: bool)
        ensures
            r == self.key_set().contains(key),
    {
        self.position(key).is_some()
    }

    /// A handle to the pending job's token, sharing the job's own flag;
    /// present exactly when a job for `key` is pending.
    pub fn token(&self, key: ChunkKey) -> (r: Option<CancelToken>)
        ensures
            r.is_some() == self.key_set().contains(key),
    {
        match self.position(key) {
            Some(i) => Some(self.entries[i].token.clone()),
            None => None,
        }
    }

    /// If `key` is absent, insert a fresh token and accept: the caller must
    /// now dispatch a job.  If present, refuse with no side effect: a job is
    /// already running.
    pub fn request(&mut self, key: ChunkKey) -> (accepted: bool)
        requires
            old(self).wf(),
        ensures
            final(self).wf(),
            accepted == !old(self).key_set().contains(key),
            final(self).key_set() == old(self).key_set().insert(key),
            accepted ==> final(self).key_seq() == old(self).key_seq().push(key),
            accepted ==> final(self).count() == old(self).count() + 1,
            !accepted ==> *final(self) == *old(self),
    {
        match self.position(key) {
            Some(_) => {
                proof {
                    assert(self.key_set().insert(key) =~= self.key_set());
                }
                false
            },
            None => {
                let ghost old_keys = self.key_seq();
                self.entries.push(PendingEntry { key, token: CancelToken::new() });
                proof {
                    assert(self.key_seq() =~= old_keys.push(key));
                    assert forall|x: ChunkKey| self.key_set().contains(x) implies old(
                        self,
                    ).key_set().insert(key).contains(x) by {
                        let p = choose|p: int|
                            0 <= p < self.key_seq().len() && self.key_seq()[p] == x;
                        if p < old_keys.len() {
                            assert(old_keys[p] == x);
                            assert(old_keys.contains(x));
                        }
                    }
                    assert forall|x: ChunkKey| old(self).key_set().insert(key).contains(
                        x,
                    ) implies self.key_set().contains(x) by {
                        if x == key {
                            assert(self.key_seq()[old_keys.len() as int] == x);
                        } else {
                            let p = choose|p: int| 0 <= p < old_keys.len() && old_keys[p] == x;
                            assert(self.key_seq()[p] == x);
                        }
                        assert(self.key_seq().contains(x));
                    }
                    assert(self.key_set() =~= old(self).key_set().insert(key));
                }
                true
            },
        }
    }

    /// Remove `key`'s entry without touching its token; reports whether an
    /// entry was there.  The drain step uses this when a job's result is
    /// delivered.
    pub fn remove(&mut self, key: ChunkKey) -> (removed: bool)
        requires
            old(self).wf(),
        ensures
            final(self).wf(),
            removed == old(self).key_set().contains(key),
            final(self).key_set() == old(self).key_set().remove(key),
            removed ==> final(self).count() + 1 == old(self).count(),
            !removed ==> *final(self) == *old(self),
    {
        match self.position(key) {
            Some(i) => {
                let ghost old_keys = self.key_seq();
                let ghost old_entries = self.entries@;
                self.entries.remove(i);
                proof {
                    old_entries.remove_ensures(i as int);
                    old_keys.remove_ensures(i as int);
                    assert(self.key_seq() =~= old_keys.remove(i as int));
                    lemma_remove_at(old_keys, i as int, self.key_seq(), key);
                }
                true
            },
            None => {
                proof {
                    assert(self.key_set().remove(key) =~= self.key_set());
                }
                false
            },
        }
    }

    /// If a job for `key` is pending, set its token and drop the entry;
    /// reports whether one was.  Returns at once: the job is not waited
    /// for, it merely sees the flag at its next checkpoint.  A later
    /// request for `key` is accepted immediately.
    pub fn cancel(&mut self, key: ChunkKey) -> (canceled: bool)
        requires
            old(self).wf(),
        ensures
            final(self).wf(),
            canceled == old(self).key_set().contains(key),
            final(self).key_set() == old(self).key_set().remove(key),
            canceled ==> final(self).count() + 1 == old(self).count(),
            !canceled ==> *final(self) == *old(self),
    {
        match self.position(key) {
            Some(i) => {
                self.entries[i].token.set();
                let ghost old_keys = self.key_seq();
                let ghost old_entries = self.entries@;
                self.entries.remove(i);
                proof {
                    old_entries.remove_ensures(i as int);
                    old_keys.remove_ensures(i as int);
                    assert(self.key_seq() =~= old_keys.remove(i as int));
                    lemma_remove_at(old_keys, i as int, self.key_seq(), key);
                }
                true
            },
            None => {
                proof {
                    assert(self.key_set().remove(key) =~= self.key_set());
                }
                false
            },
        }
    }

    /// Set every pending job's token, clear the registry, and report how
    /// many entries were cleared.
    pub fn cancel_all(&mut self) -> (cleared: usize)
        requires
            old(self).wf(),
        ensures
            final(self).wf(),
            cleared == old(self).count(),
            final(self).key_seq() == Seq::<ChunkKey>::empty(),
            final(self).key_set() == Set::<ChunkKey>::empty(),
            final(self).count() == 0,
    {
        let n = self.entries.len();
        let mut i: usize = 0;
        while i < n
            invariant
                n == self.entries.len(),
                i <= n,
            decreases n - i,
        {
            self.entries[i].token.set();
            i += 1;
        }
        self.entries.clear();
        proof {
            assert(self.key_seq() =~= Seq::<ChunkKey>::empty());
            assert(self.key_set() =~= Set::<ChunkKey>::empty());
        }
        n
    }

    /// A read-only snapshot of the pending keys, for consumers such as
    /// view-distance pruning.
    pub fn keys(&self) -> (r: Vec<ChunkKey>)
        ensures
            r@ == self.key_seq(),
    {
        let n = self.entries.len();
        let mut out: Vec<ChunkKey> = Vec::new();
        let mut i: usize = 0;
        while i < n
            invariant
                n == self.entries.len(),
                i <= n,
                out@ == self.key_seq().subrange(0, i as int),
            decreases n - i,
        {
            out.push(self.entries[i].key);
            proof {
                assert(out@ =~= self.key_seq().subrange(0, i + 1));
            }
            i += 1;
        }
        proof {
            assert(out@ =~= self.key_seq());
        }
        out
    }
}

/// Dropping the entry at `i`, where `key` sits in a duplicate-free key
/// sequence, keeps the sequence duplicate-free, shortens it by one, and
/// shrinks the key set by exactly `key`.
proof fn lemma_remove_at(s: Seq<ChunkKey>, i: int, t: Seq<ChunkKey>, key: ChunkKey)
    requires
        s.no_duplicates(),
        0 <= i < s.len(),
        s[i] == key,
        t == s.remove(i),
    ensures
        t.no_duplicates(),
        t.len() + 1 == s.len(),
        t.to_set() == s.to_set().remove(key),
{
    s.remove_ensures(i);
    assert(t.no_duplicates()) by {
        assert(forall|p: int, q: int|
            0 <= p < q < t.len() ==> t[p] != t[q]) by {
            assert forall|p: int, q: int| 0 <= p < q < t.len() implies t[p] != t[q] by {
                let sp: int = if p < i { p } else { p + 1 };
                let sq: int = if q < i { q } else { q + 1 };
                assert(t[p] == s[sp]);
                assert(t[q] == s[sq]);
            }
        }
    }
    assert(t.to_set() =~= s.to_set().remove(key)) by {
        assert forall|x: ChunkKey| t.to_set().contains(x) implies s.to_set().remove(
            key,
        ).contains(x) by {
            let p = choose|p: int| 0 <= p < t.len() && t[p] == x;
            let sp: int = if p < i { p } else { p + 1 };
            assert(s[sp] == x);
            assert(s.contains(x));
            assert(x != key);
        }
        assert forall|x: ChunkKey| s.to_set().remove(key).contains(x) implies t.to_set().contains(
            x,
        ) by {
            let sp = choose|sp: int| 0 <= sp < s.len() && s[sp] == x;
            if sp < i {
                assert(t[sp] == x);
            } else {
                assert(sp > i);
                assert(t[sp - 1] == x);
            }
            assert(t.contains(x));
        }
    }
}

} // verus!
