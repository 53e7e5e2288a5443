//! The cancellation signal that the workers of one search share.

use std::sync::atomic::{AtomicBool, Ordering};
use std::sync::Arc;
use vstd::prelude::*;

verus! {

/// A holder's view of a broadcast-once flag: the flag starts lowered, any
/// holder may raise it, and nothing lowers it again.
///
/// The flag itself is shared between threads; every holder has a signal of
/// its own, made by cloning, that leads to the same flag. What a holder
/// reads of the flag depends on what the others have done, so nothing is
/// promised of a holder that has not yet seen the flag raised. What is
/// promised is what a holder knows: once it has raised the flag, or has seen
/// it raised, the flag is raised for it for good.
#[derive(Clone)]
pub struct CancellationSignal {
    shared: Arc<AtomicBool>,
    seen: bool,
}

impl CancellationSignal {
    /// Whether this holder knows that the flag is raised: it has raised it,
    /// or it has seen it raised.
    pub closed spec fn known_raised(&self) -> bool {
        self.seen
    }

    /// A signal over a new flag, which has not been raised.
    pub fn new() -> (r: Self)
        ensures
            !r.known_raised(),
    {
        CancellationSignal { shared: Arc::new(AtomicBool::new(false)), seen: false }
    }

    /// Raises the flag; the holder knows from then on that it is raised.
    /// Returns whether this call was the one that raised it: raising it
    /// again changes nothing, and a holder that knew the flag raised is
    /// never the one.
    pub fn raise(&mut self) -> (first: bool)
        ensures
            final(self).known_raised(),
            old(self).known_raised() ==> !first,
    {
        if self.seen {
            return false;
        }
        let before = self.shared.swap(true, Ordering::SeqCst);
        self.seen = true;
        !before
    }

    /// Whether the flag has been raised, as far as this holder can see. The
    /// answer is what the holder knows from then on: a holder that knew the
    /// flag raised is told so again, and a holder that is told so knows it.
    pub fn is_raised(&mut self) -> (r: bool)
        ensures
            old(self).known_raised() ==> r,
            final(self).known_raised() == r,
    {
        if !self.seen {
            self.seen = self.shared.load(Ordering::SeqCst);
        }
        self.seen
    }
}

} // verus!
