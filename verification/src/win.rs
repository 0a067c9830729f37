//! Bookkeeping for Windows process tuning.
//!
//! Windows' default timer granularity is 15.6ms, and waits round *up* to it.
//! The output pump is built on shorter waits than that, so while a terminal is
//! open the application raises the system timer resolution, and gives it back
//! the moment the last session closes. The calls that do so are the
//! application's; how many holders there are, and so when to make them, is
//! counted here.
use vstd::prelude::*;

verus! {

/// How many raised-resolution guards are alive. The first one raises the
/// resolution and the last one drops it, so a machine with no terminals open
/// pays nothing.
pub struct TimerHolders {
    count: u32,
}

impl TimerHolders {
    /// The number of live guards.
    pub closed spec fn count(&self) -> nat {
        self.count as nat
    }

    pub fn new() -> (r: Self)
        ensures
            r.count() == 0,
    {
        TimerHolders { count: 0 }
    }

    /// Whether the count is at its limit, so no further guard can be taken.
    pub fn is_full(&self) -> (r: bool)
        ensures
            r == (self.count() == u32::MAX),
    {
        self.count == u32::MAX
    }

    /// A guard is taken. Returns whether this is the first, which must raise
    /// the resolution.
    pub fn acquire(&mut self) -> (raise: bool)
        requires
            old(self).count() < u32::MAX,
        ensures
            final(self).count() == old(self).count() + 1,
            raise == (old(self).count() == 0),
    {
        let raise = self.count == 0;
        self.count = self.count + 1;
        raise
    }

    /// A guard is released. Returns whether none is left, which must give
    /// the resolution back. Releasing with no guard alive changes nothing but
    /// still asks for the release, so a stray call cannot leave it raised.
    pub fn release(&mut self) -> (lower: bool)
        ensures
            final(self).count() == if old(self).count() == 0 {
                0
            } else {
                old(self).count() - 1
            },
            lower == (final(self).count() == 0),
    {
        if self.count > 0 {
            self.count = self.count - 1;
        }
        self.count == 0
    }
}

/// The holder count after each step in turn, from `start`: `true` takes a
/// guard, `false` releases one.
pub open spec fn holders_after(start: nat, steps: Seq<bool>) -> nat
    decreases steps.len(),
{
    if steps.len() == 0 {
        start
    } else {
        let before = holders_after(start, steps.drop_last());
        if steps.last() {
            before + 1
        } else if before == 0 {
            0
        } else {
            (before - 1) as nat
        }
    }
}

/// The number of acquisitions (`true`) in `steps` minus the releases.
pub open spec fn balance(steps: Seq<bool>) -> int
    decreases steps.len(),
{
    if steps.len() == 0 {
        0
    } else {
        balance(steps.drop_last()) + if steps.last() {
            1int
        } else {
            -1int
        }
    }
}

/// As long as nothing is released that was not taken, the holder count is
/// exactly the guards taken minus those released, so it is back at zero, and
/// the resolution given back, when every guard has been released.
pub proof fn lemma_holders_balance(steps: Seq<bool>)
    requires
        forall|k: int| 0 <= k <= steps.len() ==> balance(#[trigger] steps.take(k)) >= 0,
    ensures
        holders_after(0, steps) == balance(steps),
    decreases steps.len(),
{
    if steps.len() > 0 {
        let rest = steps.drop_last();
        assert forall|k: int| 0 <= k <= rest.len() implies balance(#[trigger] rest.take(k)) >= 0 by {
            assert(rest.take(k) =~= steps.take(k));
        }
        lemma_holders_balance(rest);
        assert(steps.take(steps.len() as int) =~= steps);
    }
}

} // verus!
