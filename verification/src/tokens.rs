//! The host's stop and pause buttons: flags that any thread may set and the drive polls.
//! What a read of such a flag returns depends on the other threads, so nothing is stated of
//! it; what the engine does for either answer is stated where the answer is used.
use std::sync::atomic::AtomicBool;
use std::sync::atomic::Ordering;
use std::sync::Arc;
use vstd::prelude::*;

verus! {

/// The stop button: cancels the program at its next safe point. Copies share one flag.
pub struct CancelToken {
    flag: Arc<AtomicBool>,
}

impl CancelToken {
    /// A button that is not pressed.
    pub fn new() -> CancelToken {
        CancelToken { flag: Arc::new(AtomicBool::new(false)) }
    }

    /// The same button again.
    pub fn share(&self) -> (r: CancelToken)
        ensures
            r == *self,
    {
        CancelToken { flag: self.flag.clone() }
    }

    /// Requests cancellation.
    pub fn cancel(&self) {
        self.flag.store(true, Ordering::Relaxed);
    }

    /// Whether cancellation has been requested.
    pub fn is_cancelled(&self) -> bool {
        self.flag.load(Ordering::Relaxed)
    }
}

/// The pause button: stops the drive at its next safe point, once. Copies share one flag.
pub struct PauseToken {
    flag: Arc<AtomicBool>,
}

impl PauseToken {
    /// A button that is not pressed.
    pub fn new() -> PauseToken {
        PauseToken { flag: Arc::new(AtomicBool::new(false)) }
    }

    /// The same button again.
    pub fn share(&self) -> (r: PauseToken)
        ensures
            r == *self,
    {
        PauseToken { flag: self.flag.clone() }
    }

    /// Requests a pause.
    pub fn pause(&self) {
        self.flag.store(true, Ordering::Relaxed);
    }

    /// Whether a pause is requested and has not happened yet.
    pub fn is_pause_requested(&self) -> bool {
        self.flag.load(Ordering::Relaxed)
    }

    /// Whether a pause is requested; the request is taken back.
    pub fn take(&self) -> bool {
        self.flag.swap(false, Ordering::Relaxed)
    }
}

} // verus!
