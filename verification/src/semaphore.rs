//! A counting semaphore.
use vstd::prelude::*;

verus! {

/// The count after a release.
pub open spec fn after_release(count: u8) -> u8 {
    (count + 1) as u8
}

/// What a non-blocking take gives, and the count after it: a unit taken
/// when the count is positive, a refusal otherwise.
pub open spec fn after_try_get(count: u8) -> (Result<(), ()>, u8) {
    if count > 0 {
        (Ok(()), (count - 1) as u8)
    } else {
        (Err(()), count)
    }
}

/// A counting semaphore over a `u8` count.
pub struct Semaphore {
    data: u8,
}

impl Semaphore {
    /// The count.
    pub closed spec fn count(&self) -> u8 {
        self.data
    }

    /// A semaphore whose count is `data`.
    pub fn new(data: u8) -> (s: Semaphore)
        ensures
            s.count() == data,
    {
        Semaphore { data }
    }

    /// Takes a unit; the count has to be positive (a caller that finds it
    /// zero waits, with `try_get`, until another thread releases one).
    pub fn get(&mut self)
        requires
            old(self).count() > 0,
        ensures
            final(self).count() == old(self).count() - 1,
    {
        self.data = self.data - 1;
    }

    /// Takes a unit if there is one.
    pub fn try_get(&mut self) -> (r: Result<(), ()>)
        ensures
            (r, final(self).count()) == after_try_get(old(self).count()),
    {
        if self.data > 0 {
            self.data = self.data - 1;
            Ok(())
        } else {
            Err(())
        }
    }

    /// Gives a unit back.
    pub fn release(&mut self)
        requires
            old(self).count() < u8::MAX,
        ensures
            final(self).count() == after_release(old(self).count()),
    {
        self.data = self.data + 1;
    }

    /// The count.
    pub fn data(&self) -> (r: u8)
        ensures
            r == self.count(),
    {
        self.data
    }
}

/// A release is undone by the take that follows it: the take succeeds and
/// the count is back where it was.
pub proof fn lemma_release_then_take(count: u8)
    requires
        count < u8::MAX,
    ensures
        after_try_get(after_release(count)) == (Ok::<(), ()>(()), count),
{
}

/// A non-blocking take succeeds exactly when the count is positive, and
/// never makes the count negative.
pub proof fn lemma_take_succeeds_iff_positive(count: u8)
    ensures
        after_try_get(count).0 is Ok <==> count > 0,
        after_try_get(count).1 <= count,
{
}

/// The count after a run of steps from `count`: `true` a release, `false`
/// a take that succeeds.
pub open spec fn after_run(count: u8, steps: Seq<bool>) -> u8
    decreases steps.len(),
{
    if steps.len() == 0 {
        count
    } else {
        let c = if steps[0] { after_release(count) } else { after_try_get(count).1 };
        after_run(c, steps.drop_first())
    }
}

/// Every step of the run from `count` is allowed: a release finds the count
/// below 255 and a take finds it positive.
pub open spec fn run_allowed(count: u8, steps: Seq<bool>) -> bool
    decreases steps.len(),
{
    if steps.len() == 0 {
        true
    } else {
        &&& (if steps[0] { count < u8::MAX } else { count > 0 })
        &&& run_allowed(
            if steps[0] { after_release(count) } else { after_try_get(count).1 },
            steps.drop_first(),
        )
    }
}

/// The number of releases in a run.
pub open spec fn releases(steps: Seq<bool>) -> nat
    decreases steps.len(),
{
    if steps.len() == 0 {
        0
    } else {
        (if steps[0] { 1nat } else { 0nat }) + releases(steps.drop_first())
    }
}

/// After a run of releases and successful takes that keeps the count within
/// `0..=255`, the count is the start plus the releases less the takes.
pub proof fn lemma_count_after_run(count: u8, steps: Seq<bool>)
    requires
        run_allowed(count, steps),
    ensures
        after_run(count, steps) == count + releases(steps) - (steps.len() - releases(steps)),
    decreases steps.len(),
{
    if steps.len() > 0 {
        let c = if steps[0] { after_release(count) } else { after_try_get(count).1 };
        lemma_count_after_run(c, steps.drop_first());
    }
}

} // verus!
