//! The decoded waveform, and the windows cut from it.
use crate::plan::lemma_window_inside;
use crate::plan::WindowPlan;
use vstd::prelude::*;

verus! {

/// The whole decoded track: one signed amplitude per sample, in the order in
/// which the decoder gave them. It is built once and only read afterwards,
/// so that any number of workers may share it.
///
/// A sample enters the transform as a complex number whose real part is the
/// amplitude and whose imaginary part is zero: the amplitude is all there is
/// to hold.
#[derive(Debug)]
pub struct SignalBuffer {
    samples: Vec<i16>,
}

impl View for SignalBuffer {
    type V = Seq<i16>;

    closed spec fn view(&self) -> Seq<i16> {
        self.samples@
    }
}

impl SignalBuffer {
    /// Takes over the samples of a decoded track.
    pub fn from_samples(samples: Vec<i16>) -> (buffer: SignalBuffer)
        ensures
            buffer@ == samples@,
    {
        SignalBuffer { samples }
    }

    /// The number of samples.
    pub fn len(&self) -> (length: usize)
        ensures
            length == self@.len(),
    {
        self.samples.len()
    }

    /// The sample at `position`.
    pub fn sample(&self, position: usize) -> (amplitude: i16)
        requires
            position < self@.len(),
        ensures
            amplitude == self@[position as int],
    {
        self.samples[position]
    }

    /// A private copy of the window that belongs to pixel `index`: the
    /// `window_size` samples from `index * step` on.
    pub fn window(&self, plan: &WindowPlan, index: usize) -> (window: Vec<i16>)
        requires
            plan.covers(self@.len() as int),
            index < plan.pixel_count,
        ensures
            window@ == self@.subrange(
                plan.start_of(index as int),
                plan.start_of(index as int) + plan.window_size,
            ),
    {
        let length: usize = self.samples.len();
        proof {
            lemma_window_inside(*plan, length as int, index as int);
        }
        let start: usize = index * plan.step;
        let mut window: Vec<i16> = Vec::with_capacity(plan.window_size);
        let mut taken: usize = 0;
        while taken < plan.window_size
            invariant
                taken <= plan.window_size,
                start + plan.window_size <= length == self.samples@.len(),
                window@ == self.samples@.subrange(start as int, start + taken),
            decreases plan.window_size - taken,
        {
            window.push(self.samples[start + taken]);
            taken += 1;
            assert(window@ =~= self.samples@.subrange(start as int, start + taken));
        }
        window
    }
}

} // verus!
