use bugglers::plan::plan;
use bugglers::signal::SignalBuffer;

#[test]
fn buffer_keeps_samples_in_order() {
    let buffer = SignalBuffer::from_samples(vec![3, -4, 5, i16::MIN, i16::MAX]);
    assert_eq!(buffer.len(), 5);
    assert_eq!(buffer.sample(0), 3);
    assert_eq!(buffer.sample(1), -4);
    assert_eq!(buffer.sample(3), i16::MIN);
    assert_eq!(buffer.sample(4), i16::MAX);
}

#[test]
fn windows_start_one_step_apart() {
    let samples: Vec<i16> = (0..10).collect();
    let buffer = SignalBuffer::from_samples(samples);
    let planned = plan(buffer.len(), 4, 3).unwrap();
    assert_eq!(planned.step, 3);
    assert_eq!(buffer.window(&planned, 0), vec![0, 1, 2, 3]);
    assert_eq!(buffer.window(&planned, 1), vec![3, 4, 5, 6]);
    assert_eq!(buffer.window(&planned, 2), vec![6, 7, 8, 9]);
}

#[test]
fn single_window_starts_at_the_front() {
    let buffer = SignalBuffer::from_samples(vec![7, 8, 9, 10, 11]);
    let planned = plan(buffer.len(), 3, 1).unwrap();
    assert_eq!(buffer.window(&planned, 0), vec![7, 8, 9]);
}

#[test]
fn standing_windows_are_equal() {
    let buffer = SignalBuffer::from_samples(vec![1, 2, 3]);
    let planned = plan(buffer.len(), 3, 5).unwrap();
    for index in 0..5 {
        assert_eq!(buffer.window(&planned, index), vec![1, 2, 3]);
    }
}

#[test]
fn empty_buffer_has_no_samples() {
    let buffer = SignalBuffer::from_samples(Vec::new());
    assert_eq!(buffer.len(), 0);
}
