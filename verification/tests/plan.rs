use bugglers::error::PipelineError;
use bugglers::plan::plan;
use bugglers::plan::WindowPlan;

#[test]
fn exact_fit_of_nine_windows() {
    let planned = plan(400_000, 40_000, 9).unwrap();
    assert_eq!(planned.step, 45_000);
    assert_eq!(planned.window_size, 40_000);
    assert_eq!(planned.pixel_count, 9);
    assert_eq!(planned.step * 8 + 40_000, 400_000);
}

#[test]
fn single_pixel_does_not_move() {
    let planned = plan(50_000, 40_000, 1).unwrap();
    assert_eq!(planned, WindowPlan { window_size: 40_000, step: 0, pixel_count: 1 });
    let exact = plan(40_000, 40_000, 1).unwrap();
    assert_eq!(exact.step, 0);
}

#[test]
fn short_signal_is_refused() {
    assert_eq!(plan(39_999, 40_000, 4), Err(PipelineError::InsufficientSignal));
    assert_eq!(plan(39_999, 40_000, 1), Err(PipelineError::InsufficientSignal));
    assert_eq!(plan(0, 1, 1), Err(PipelineError::InsufficientSignal));
}

#[test]
fn long_signal_spreads_windows_apart() {
    let planned = plan(1_000_000, 40_000, 9).unwrap();
    assert_eq!(planned.step, 120_000);
    assert_eq!(planned.step * 8 + 40_000, 1_000_000);
}

#[test]
fn short_signal_overlaps_windows() {
    let planned = plan(100, 40, 4).unwrap();
    assert_eq!(planned.step, 20);
    assert_eq!(planned.step * 3 + 40, 100);
}

#[test]
fn missing_samples_are_rounded_down() {
    let planned = plan(101, 40, 4).unwrap();
    assert_eq!(planned.step, 20);
    let tight = plan(41, 40, 4).unwrap();
    assert_eq!(tight.step, 0);
}

#[test]
fn window_as_long_as_signal_stands_still() {
    let planned = plan(40_000, 40_000, 230_400).unwrap();
    assert_eq!(planned.step, 0);
}

#[test]
fn empty_windows_are_planned() {
    let planned = plan(10, 0, 3).unwrap();
    assert_eq!(planned.step, 5);
}

#[test]
fn last_window_never_ends_behind_signal() {
    for signal_length in 0..60usize {
        for window_size in 0..20usize {
            for pixel_count in 1..12usize {
                match plan(signal_length, window_size, pixel_count) {
                    Ok(planned) => {
                        assert!(window_size <= signal_length);
                        let end = planned.step * (pixel_count - 1) + window_size;
                        assert!(end <= signal_length);
                        if pixel_count > 1 {
                            assert!(signal_length - end < pixel_count - 1);
                        } else {
                            assert_eq!(planned.step, 0);
                        }
                    }
                    Err(error) => {
                        assert_eq!(error, PipelineError::InsufficientSignal);
                        assert!(window_size > signal_length);
                    }
                }
            }
        }
    }
}

#[test]
fn largest_lengths_do_not_overflow() {
    let planned = plan(usize::MAX, usize::MAX, usize::MAX).unwrap();
    assert_eq!(planned.step, 0);
    let wide = plan(usize::MAX, 1, 2).unwrap();
    assert_eq!(wide.step, usize::MAX - 1);
}

#[test]
fn plan_is_checked_against_the_signal() {
    let planned = plan(400_000, 40_000, 9).unwrap();
    assert!(planned.covers_signal(400_000));
    assert!(planned.covers_signal(400_001));
    assert!(!planned.covers_signal(399_999));
    let made_up = WindowPlan { window_size: 4, step: 3, pixel_count: 0 };
    assert!(!made_up.covers_signal(100));
    let huge = WindowPlan { window_size: usize::MAX, step: usize::MAX, pixel_count: usize::MAX };
    assert!(!huge.covers_signal(usize::MAX));
    let still = WindowPlan { window_size: usize::MAX, step: 0, pixel_count: usize::MAX };
    assert!(still.covers_signal(usize::MAX));
}
