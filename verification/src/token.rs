use vstd::prelude::*;
use core::sync::atomic::AtomicBool;
use core::sync::atomic::Ordering;
use std::sync::Arc;

verus! {

/// A shared, atomically readable and writable flag.  The registry holds one
/// handle per pending job and the running job holds another; the flag's
/// storage lives until every handle is gone.  Setting it asks the job to
/// stop at its next voluntary checkpoint.  Cancellation is advisory only,
/// so no contract here speaks about the values that later reads observe;
/// the scheduler's guarantees all come from the registry instead.
#[derive(Clone)]
pub struct CancelToken {
    flag: Arc<AtomicBool>,
}

impl CancelToken {
    /// A fresh token, initially unset.
    pub fn new() -> CancelToken {
        CancelToken { flag: Arc::new(AtomicBool::new(false)) }
    }

    /// Ask the job holding the other handle to stop.
    pub fn set(&self) {
        self.flag.store(true, Ordering::Relaxed);
    }

    /// Observe the flag; a job polls this between units of work.
    pub fn is_set(&self) -> bool {
        self.flag.load(Ordering::Relaxed)
    }
}

} // verus!
