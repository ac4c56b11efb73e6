//! Window placement: where each analysis window starts on the signal.
use crate::error::PipelineError;
use vstd::arithmetic::div_mod::lemma_fundamental_div_mod;
use vstd::arithmetic::div_mod::lemma_hoist_over_denominator;
use vstd::prelude::*;

verus! {

/// The placement of `pixel_count` windows of `window_size` samples each, the
/// start of one `step` samples after the start of the one before.
#[derive(Clone, Copy, Debug, PartialEq, Eq, Structural)]
pub struct WindowPlan {
    pub window_size: usize,
    pub step: usize,
    pub pixel_count: usize,
}

/// The distance between the starts of consecutive windows: the window size,
/// corrected by the samples left over (or missing) per gap between windows,
/// rounded down. A single window does not move.
pub open spec fn plan_step(signal_length: int, window_size: int, pixel_count: int) -> int {
    if pixel_count == 1 {
        0
    } else {
        window_size + (signal_length - window_size * pixel_count) / (pixel_count - 1)
    }
}

/// The end of the last window when the windows are `step` apart.
pub open spec fn last_window_end(step: int, window_size: int, pixel_count: int) -> int {
    step * (pixel_count - 1) + window_size
}

/// Whether the planned step is usable: it does not go backwards, and the last
/// window ends at or before the end of the signal.
pub open spec fn plan_fits(signal_length: int, window_size: int, pixel_count: int) -> bool {
    let step = plan_step(signal_length, window_size, pixel_count);
    0 <= step && last_window_end(step, window_size, pixel_count) <= signal_length
}

impl WindowPlan {
    /// The plan's invariant on a signal of the given length: there is a
    /// window, and the last one ends inside the signal.
    pub open spec fn covers(&self, signal_length: int) -> bool {
        &&& self.pixel_count >= 1
        &&& last_window_end(self.step as int, self.window_size as int, self.pixel_count as int)
            <= signal_length
    }

    /// Where the window of the given pixel starts.
    pub open spec fn start_of(&self, index: int) -> int {
        index * self.step
    }

    /// Whether the plan holds on a signal of the given length.
    pub fn covers_signal(&self, signal_length: usize) -> (holds: bool)
        ensures
            holds == self.covers(signal_length as int),
    {
        if self.pixel_count == 0 {
            return false;
        }
        let step: u128 = self.step as u128;
        let gaps: u128 = (self.pixel_count - 1) as u128;
        assert(step * gaps <= 0xffff_ffff_ffff_ffff * 0xffff_ffff_ffff_ffff) by (nonlinear_arith)
            requires
                0 <= step <= 0xffff_ffff_ffff_ffff,
                0 <= gaps <= 0xffff_ffff_ffff_ffff,
        ;
        step * gaps + self.window_size as u128 <= signal_length as u128
    }
}

/// The planned step is the room that the signal leaves beside one window,
/// shared out over the gaps between windows.
pub proof fn lemma_plan_step_shares_room(signal_length: int, window_size: int, pixel_count: int)
    requires
        pixel_count > 1,
    ensures
        plan_step(signal_length, window_size, pixel_count)
            == (signal_length - window_size) / (pixel_count - 1),
{
    let gaps = pixel_count - 1;
    let deficit = signal_length - window_size * pixel_count;
    lemma_hoist_over_denominator(deficit, window_size, gaps as nat);
    assert(signal_length - window_size * pixel_count + window_size * gaps
        == signal_length - window_size) by (nonlinear_arith)
        requires
            gaps == pixel_count - 1,
    ;
}

/// A plan exists exactly when one window fits into the signal.
pub proof fn lemma_plan_fits_iff_window_fits(signal_length: int, window_size: int, pixel_count: int)
    requires
        pixel_count >= 1,
    ensures
        plan_fits(signal_length, window_size, pixel_count) <==> window_size <= signal_length,
{
    if pixel_count > 1 {
        let gaps = pixel_count - 1;
        let room = signal_length - window_size;
        lemma_plan_step_shares_room(signal_length, window_size, pixel_count);
        lemma_fundamental_div_mod(room, gaps);
        let step = room / gaps;
        assert(gaps * step == step * gaps) by (nonlinear_arith);
        if room < 0 {
            assert(step < 0) by (nonlinear_arith)
                requires
                    room == gaps * step + room % gaps,
                    0 <= room % gaps,
                    room < 0,
                    gaps > 0,
            ;
        }
    }
}

/// The windows use the whole signal: what is left behind the last window is
/// less than one sample per gap.
pub proof fn lemma_plan_spans_signal(signal_length: int, window_size: int, pixel_count: int)
    requires
        pixel_count > 1,
        window_size <= signal_length,
    ensures
        signal_length - last_window_end(
            plan_step(signal_length, window_size, pixel_count),
            window_size,
            pixel_count,
        ) < pixel_count - 1,
{
    let gaps = pixel_count - 1;
    let room = signal_length - window_size;
    lemma_plan_step_shares_room(signal_length, window_size, pixel_count);
    lemma_fundamental_div_mod(room, gaps);
    assert(gaps * (room / gaps) == (room / gaps) * gaps) by (nonlinear_arith);
}

/// Every window of a plan lies inside the signal that the plan covers.
pub proof fn lemma_window_inside(plan: WindowPlan, signal_length: int, index: int)
    requires
        plan.covers(signal_length),
        0 <= index < plan.pixel_count,
    ensures
        0 <= plan.start_of(index),
        plan.start_of(index) + plan.window_size <= signal_length,
{
    let step = plan.step as int;
    let last = plan.pixel_count - 1;
    assert(0 <= index * step <= step * last) by (nonlinear_arith)
        requires
            0 <= index <= last,
            0 <= step,
    ;
}

/// Spreads `pixel_count` windows of `window_size` samples evenly over a
/// signal of `signal_length` samples.
///
/// Fails when the signal is too short, and never hands out a plan whose last
/// window would end behind the signal.
pub fn plan(
    signal_length: usize,
    window_size: usize,
    pixel_count: usize,
) -> (result: Result<WindowPlan, PipelineError>)
    requires
        pixel_count >= 1,
    ensures
        result is Ok <==> plan_fits(signal_length as int, window_size as int, pixel_count as int),
        result is Err ==> result->Err_0 == PipelineError::InsufficientSignal,
        result is Ok ==> ({
            let planned = result->Ok_0;
            &&& planned.window_size == window_size
            &&& planned.pixel_count == pixel_count
            &&& planned.step == plan_step(
                signal_length as int,
                window_size as int,
                pixel_count as int,
            )
            &&& planned.covers(signal_length as int)
            &&& pixel_count == 1 ==> planned.step == 0
        }),
{
    proof {
        lemma_plan_fits_iff_window_fits(
            signal_length as int,
            window_size as int,
            pixel_count as int,
        );
    }
    if window_size > signal_length {
        return Err(PipelineError::InsufficientSignal);
    }
    let step: usize = if pixel_count == 1 {
        0
    } else {
        proof {
            lemma_plan_step_shares_room(
                signal_length as int,
                window_size as int,
                pixel_count as int,
            );
        }
        (signal_length - window_size) / (pixel_count - 1)
    };
    Ok(WindowPlan { window_size, step, pixel_count })
}

} // verus!
