use vstd::prelude::*;

verus! {

/// Trait to dynamically set the amount of parallelism that
/// should be done.
pub trait ParallelismProvider {
    /// Number of threads that should be created at the start.
    fn max_parallelism(&self) -> usize;

    /// Called by a thread when the test starts.
    ///
    /// The implementation can block in this call in order
    /// to hold up a test thread.
    fn on_test_start(&self);

    fn on_test_end(&self);
}

/// The bookkeeping of a counting semaphore: how many permits exist and
/// how many are handed out. The blocking that waits for a permit is the
/// caller's concern; every transition of the counters is decided here.
pub struct PermitCounter {
    pub max: usize,
    pub used: usize,
}

impl PermitCounter {
    pub fn new(max_permits: usize) -> (r: Self)
        ensures
            r.max == max_permits,
            r.used == 0,
    {
        PermitCounter { max: max_permits, used: 0 }
    }

    /// Whether a caller asking for a permit would have to wait.
    pub fn would_block(&self) -> (r: bool)
        ensures
            r == (self.used >= self.max),
    {
        self.used >= self.max
    }

    /// Takes a permit when one is free; reports whether it did.
    pub fn try_acquire(&mut self) -> (r: bool)
        ensures
            r == (old(self).used < old(self).max),
            r ==> *final(self) == (PermitCounter {
                used: (old(self).used + 1) as usize,
                ..*old(self)
            }),
            !r ==> *final(self) == *old(self),
    {
        if self.used < self.max {
            self.used = self.used + 1;
            true
        } else {
            false
        }
    }

    /// Hands a permit back; reports whether a waiter should be woken.
    pub fn release(&mut self) -> (wake_one: bool)
        requires
            old(self).used >= 1,
        ensures
            *final(self) == (PermitCounter { used: (old(self).used - 1) as usize, ..*old(self) }),
            wake_one == (final(self).used < final(self).max),
    {
        self.used = self.used - 1;
        self.used < self.max
    }

    /// Changes the ceiling; reports whether every waiter should be woken,
    /// which is owed exactly when the ceiling grew.
    pub fn set_max(&mut self, n: usize) -> (wake_all: bool)
        ensures
            *final(self) == (PermitCounter { max: n, ..*old(self) }),
            wake_all == (n > old(self).max),
    {
        let is_greater = n > self.max;
        self.max = n;
        is_greater
    }
}

/// The bookkeeping of the notify primitive: one sticky flag. The blocking
/// wait and the condition-variable wake-up are the caller's concern; what
/// a waiter observes and what notifying leaves behind is decided here.
pub struct NotifyFlag {
    pub notified: bool,
}

impl NotifyFlag {
    pub fn new() -> (r: Self)
        ensures
            !r.notified,
    {
        NotifyFlag { notified: false }
    }

    /// What a waiter sees when it checks the flag, before or after its
    /// wait: once the flag is set, every later check reports it at once.
    pub fn observe(&self) -> (r: bool)
        ensures
            r == self.notified,
    {
        self.notified
    }

    /// Sets the sticky flag; it never goes back.
    pub fn set(&mut self)
        ensures
            final(self).notified,
    {
        self.notified = true;
    }
}

/// The process-wide count of active capture scopes. The shared handler is
/// installed only on the step from zero to one and removed only on the
/// step back to zero; this type decides those edges.
pub struct CaptureDepth {
    pub count: usize,
}

impl CaptureDepth {
    pub fn new() -> (r: Self)
        ensures
            r.count == 0,
    {
        CaptureDepth { count: 0 }
    }

    /// Records one more active scope; true exactly on the step from zero
    /// to one, when the shared handler must be installed.
    pub fn enter(&mut self) -> (install: bool)
        requires
            old(self).count < usize::MAX,
        ensures
            final(self).count == old(self).count + 1,
            install == (old(self).count == 0),
    {
        let install = self.count == 0;
        self.count = self.count + 1;
        install
    }

    /// Records one scope gone; true exactly on the step back to zero,
    /// when the shared handler must be removed.
    pub fn exit(&mut self) -> (uninstall: bool)
        requires
            old(self).count >= 1,
        ensures
            final(self).count == old(self).count - 1,
            uninstall == (old(self).count == 1),
    {
        self.count = self.count - 1;
        self.count == 0
    }
}

} // verus!
