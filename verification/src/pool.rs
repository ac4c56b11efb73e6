//! Admission to the worker pool: which window is handed out next, and when.
//!
//! The pool itself runs outside this library. It reports how many of its
//! tasks are alive, and is told whether to launch the task of the next
//! pixel, to wait for a task to end, or that every task has been launched.
use vstd::prelude::*;

verus! {

/// What the pool is to do next.
#[derive(Clone, Copy, Debug, PartialEq, Eq, Structural)]
pub enum Admission {
    /// Launch the task of the pixel with this index.
    Launch(usize),
    /// As many tasks are alive as the pool may hold: launch nothing.
    Wait,
    /// The task of every pixel has been launched.
    Done,
}

/// The admission state of a pool that may hold `ceiling` tasks at a time and
/// has `pixel_count` tasks to launch, one per pixel, in the order of their
/// indices.
#[derive(Clone, Copy, Debug, PartialEq, Eq, Structural)]
pub struct WorkerPool {
    ceiling: usize,
    pixel_count: usize,
    next: usize,
}

/// The decision for a pool that has launched the tasks of the pixels below
/// `next` and holds `live` tasks.
pub open spec fn decide(next: usize, pixel_count: usize, ceiling: usize, live: usize) -> Admission {
    if next >= pixel_count {
        Admission::Done
    } else if live < ceiling {
        Admission::Launch(next)
    } else {
        Admission::Wait
    }
}

impl WorkerPool {
    /// The pool's invariant: it may hold a task, and has launched no more
    /// tasks than there are pixels.
    pub closed spec fn wf(&self) -> bool {
        self.ceiling >= 1 && self.next <= self.pixel_count
    }

    /// The number of tasks that the pool may hold at a time.
    pub closed spec fn spec_ceiling(&self) -> usize {
        self.ceiling
    }

    /// The number of tasks to launch.
    pub closed spec fn spec_pixel_count(&self) -> usize {
        self.pixel_count
    }

    /// The number of tasks launched so far, which is the index of the next.
    pub closed spec fn spec_launched(&self) -> usize {
        self.next
    }

    /// A pool that has launched nothing yet.
    pub fn new(ceiling: usize, pixel_count: usize) -> (pool: WorkerPool)
        requires
            ceiling >= 1,
        ensures
            pool.wf(),
            pool.ceiling() == ceiling,
            pool.pixel_count() == pixel_count,
            pool.launched() == 0,
    {
        WorkerPool { ceiling, pixel_count, next: 0 }
    }

    /// The number of tasks that the pool may hold at a time.
    #[verifier::when_used_as_spec(spec_ceiling)]
    pub fn ceiling(&self) -> (ceiling: usize)
        ensures
            ceiling == self.spec_ceiling(),
    {
        self.ceiling
    }

    /// The number of tasks to launch.
    #[verifier::when_used_as_spec(spec_pixel_count)]
    pub fn pixel_count(&self) -> (count: usize)
        ensures
            count == self.spec_pixel_count(),
    {
        self.pixel_count
    }

    /// The number of tasks launched so far.
    #[verifier::when_used_as_spec(spec_launched)]
    pub fn launched(&self) -> (count: usize)
        ensures
            count == self.spec_launched(),
    {
        self.next
    }

    /// Decides what the pool does next, given the number of its tasks that
    /// are alive. A launch is counted at once: the next decision is about the
    /// pixel after it.
    pub fn advance(&mut self, live: usize) -> (admission: Admission)
        requires
            old(self).wf(),
        ensures
            final(self).wf(),
            final(self).ceiling() == old(self).ceiling(),
            final(self).pixel_count() == old(self).pixel_count(),
            admission == decide(
                old(self).launched(),
                old(self).pixel_count(),
                old(self).ceiling(),
                live,
            ),
            admission is Launch ==> final(self).launched() == old(self).launched() + 1,
            !(admission is Launch) ==> final(self).launched() == old(self).launched(),
    {
        if self.next >= self.pixel_count {
            Admission::Done
        } else if live < self.ceiling {
            let index: usize = self.next;
            self.next = self.next + 1;
            Admission::Launch(index)
        } else {
            Admission::Wait
        }
    }
}

/// The indices launched over a series of decisions, one decision for each
/// reading of the number of live tasks, by a pool that has launched the
/// tasks of the pixels below `next`.
pub open spec fn launches(
    next: usize,
    pixel_count: usize,
    ceiling: usize,
    readings: Seq<usize>,
) -> Seq<usize>
    decreases readings.len(),
{
    if readings.len() == 0 {
        Seq::empty()
    } else if decide(next, pixel_count, ceiling, readings[0]) is Launch {
        seq![next] + launches((next + 1) as usize, pixel_count, ceiling, readings.drop_first())
    } else {
        launches(next, pixel_count, ceiling, readings.drop_first())
    }
}

/// Whatever the readings, the tasks are launched in the order of their
/// pixels, one after the other without a gap, none twice, and none behind
/// the last pixel.
pub proof fn lemma_launches_in_order(
    next: usize,
    pixel_count: usize,
    ceiling: usize,
    readings: Seq<usize>,
)
    requires
        next <= pixel_count,
    ensures
        next + launches(next, pixel_count, ceiling, readings).len() <= pixel_count,
        forall|k: int|
            0 <= k < launches(next, pixel_count, ceiling, readings).len()
                ==> #[trigger] launches(next, pixel_count, ceiling, readings)[k] == next + k,
    decreases readings.len(),
{
    if readings.len() > 0 {
        if decide(next, pixel_count, ceiling, readings[0]) is Launch {
            lemma_launches_in_order(
                (next + 1) as usize,
                pixel_count,
                ceiling,
                readings.drop_first(),
            );
        } else {
            lemma_launches_in_order(next, pixel_count, ceiling, readings.drop_first());
        }
    }
}

/// A launch keeps the pool within its ceiling, and names a pixel of the
/// image: the one after those already launched.
pub proof fn lemma_launch_is_bounded(
    next: usize,
    pixel_count: usize,
    ceiling: usize,
    live: usize,
    index: usize,
)
    requires
        decide(next, pixel_count, ceiling, live) == Admission::Launch(index),
    ensures
        index == next,
        index < pixel_count,
        live + 1 <= ceiling,
{
}

/// A pool with room launches as long as a pixel is left: it waits only when
/// it is full, and is done only when every task has been launched.
pub proof fn lemma_pool_with_room_launches(
    next: usize,
    pixel_count: usize,
    ceiling: usize,
    live: usize,
)
    ensures
        decide(next, pixel_count, ceiling, live) is Wait <==> next < pixel_count && live
            >= ceiling,
        decide(next, pixel_count, ceiling, live) is Done <==> next >= pixel_count,
        next < pixel_count && live < ceiling ==> decide(next, pixel_count, ceiling, live)
            == Admission::Launch(next),
{
}

} // verus!
