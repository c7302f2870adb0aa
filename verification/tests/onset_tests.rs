use mega::onset::{locate_onset, OnsetError};
use std::collections::VecDeque;

fn buffer(quiet: usize, loud: usize, amplitude: i32) -> VecDeque<i32> {
    let mut samples: VecDeque<i32> = VecDeque::new();
    samples.extend(std::iter::repeat(0).take(quiet));
    samples.extend(std::iter::repeat(amplitude).take(loud));
    samples
}

#[test]
fn onset_is_half_a_window_before_the_first_crossing() {
    // Running totals over 4 samples: 0 0 0 40 80 120 160; the mean reaches 25 at index 5.
    let samples = buffer(3, 4, 40);
    assert_eq!(locate_onset(&samples, 4, 25), Ok(3));
    assert_eq!(locate_onset(&samples, 4, 10), Ok(1));
    assert_eq!(locate_onset(&samples, 4, 40), Ok(4));
}

#[test]
fn onset_does_not_go_before_the_buffer() {
    let samples = buffer(0, 10, 100);
    // The mean over 8 samples reaches 25 at index 1, and 1 - 4 stops at 0.
    assert_eq!(locate_onset(&samples, 8, 25), Ok(0));
}

#[test]
fn onset_counts_negative_samples_by_their_magnitude() {
    let samples: VecDeque<i32> = VecDeque::from(vec![0, 0, -30, 30, -30]);
    assert_eq!(locate_onset(&samples, 2, 30), Ok(2));
}

#[test]
fn onset_forgets_samples_that_left_the_window() {
    // A single spike lifts the mean over 2 samples to 50 at most.
    let samples: VecDeque<i32> = VecDeque::from(vec![100, 0, 0, 0, 60, 60]);
    assert_eq!(locate_onset(&samples, 2, 60), Ok(4));
    assert_eq!(locate_onset(&samples, 2, 50), Ok(0));
}

#[test]
fn no_crossing_is_an_error() {
    assert_eq!(locate_onset(&buffer(20, 0, 0), 4, 1), Err(OnsetError::NoCrossing));
    assert_eq!(locate_onset(&buffer(5, 3, 40), 4, 31), Err(OnsetError::NoCrossing));
    assert_eq!(locate_onset(&VecDeque::new(), 4, 0), Err(OnsetError::NoCrossing));
}

#[test]
fn window_of_no_samples_never_crosses() {
    assert_eq!(locate_onset(&buffer(0, 8, 1_000_000), 0, 1), Err(OnsetError::NoCrossing));
    assert_eq!(locate_onset(&buffer(0, 8, 1_000_000), 0, 0), Err(OnsetError::NoCrossing));
}

#[test]
fn onset_after_silence_lies_within_half_a_window() {
    for window_size in [1usize, 2, 3, 8, 9, 50] {
        for quiet in [0usize, 1, 4, 5, 30, 77] {
            for (amplitude, threshold) in [(10_000, 10_000u32), (10_001, 10_000), (900_000, 10_000), (5, 1)] {
                let samples = buffer(quiet, window_size + 3, amplitude);
                let onset = locate_onset(&samples, window_size, threshold).unwrap();
                let lowest = quiet.saturating_sub(window_size / 2);
                assert!(lowest <= onset, "{} {} {}", window_size, quiet, onset);
                assert!(onset <= quiet + window_size / 2, "{} {} {}", window_size, quiet, onset);
            }
        }
    }
}

#[test]
fn onset_handles_extreme_samples() {
    let samples: VecDeque<i32> = VecDeque::from(vec![i32::MIN, i32::MIN, i32::MAX, 0, 0, 0]);
    assert_eq!(locate_onset(&samples, 3, u32::MAX), Err(OnsetError::NoCrossing));
    assert_eq!(locate_onset(&samples, 3, 2_147_483_647), Ok(1));
}
