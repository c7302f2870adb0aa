use mega::window::{buffer_audio, sample_magnitude, SampleWindow};
use std::collections::VecDeque;

fn contents(window: &SampleWindow) -> Vec<i32> {
    window.samples().iter().copied().collect()
}

#[test]
fn buffer_audio_appends_chunks_in_order() {
    let mut buffer: VecDeque<f32> = VecDeque::new();
    buffer.push_back(0.5);
    buffer_audio(&mut buffer, vec![vec![1.0, 2.0], vec![], vec![3.0]], 10);
    assert_eq!(buffer, VecDeque::from(vec![0.5, 1.0, 2.0, 3.0]));
}

#[test]
fn buffer_audio_evicts_oldest_first() {
    let mut buffer: VecDeque<f32> = VecDeque::from(vec![0.1, 0.2, 0.3]);
    buffer_audio(&mut buffer, vec![vec![0.4, 0.5], vec![0.6]], 4);
    assert_eq!(buffer, VecDeque::from(vec![0.3, 0.4, 0.5, 0.6]));
}

#[test]
fn buffer_audio_with_no_chunks_only_trims() {
    let mut buffer: VecDeque<u8> = VecDeque::from(vec![1, 2, 3, 4, 5]);
    buffer_audio(&mut buffer, Vec::new(), 2);
    assert_eq!(buffer, VecDeque::from(vec![4, 5]));
}

#[test]
fn buffer_audio_with_zero_size_empties() {
    let mut buffer: VecDeque<u8> = VecDeque::from(vec![1, 2]);
    buffer_audio(&mut buffer, vec![vec![3]], 0);
    assert!(buffer.is_empty());
}

#[test]
fn buffer_audio_moves_owned_items() {
    let mut buffer: VecDeque<String> = VecDeque::new();
    buffer_audio(
        &mut buffer,
        vec![vec!["a".to_string(), "b".to_string()], vec!["c".to_string()]],
        2,
    );
    assert_eq!(buffer, VecDeque::from(vec!["b".to_string(), "c".to_string()]));
}

#[test]
fn new_window_is_empty() {
    let window = SampleWindow::new(8);
    assert_eq!(window.len(), 0);
    assert_eq!(window.capacity(), 8);
    assert_eq!(window.get(0), None);
    assert_eq!(window.loudness(4), 0);
}

#[test]
fn silent_window_is_full_of_zeros() {
    let window = SampleWindow::silent(5);
    assert_eq!(window.len(), 5);
    assert_eq!(window.capacity(), 5);
    assert_eq!(contents(&window), vec![0, 0, 0, 0, 0]);
    assert_eq!(window.loudness(5), 0);
}

#[test]
fn window_never_exceeds_capacity_and_keeps_newest() {
    let mut window = SampleWindow::new(4);
    let mut pushed: Vec<i32> = Vec::new();
    let chunks: Vec<Vec<i32>> = vec![vec![1, 2], vec![3], vec![], vec![4, 5, 6], vec![7, 8, 9, 10, 11]];
    for chunk in chunks {
        pushed.extend(chunk.iter().copied());
        window.push(chunk);
        assert!(window.len() <= 4);
        let keep = pushed.len().min(4);
        assert_eq!(contents(&window), pushed[pushed.len() - keep..].to_vec());
    }
    assert_eq!(contents(&window), vec![8, 9, 10, 11]);
}

#[test]
fn window_push_of_several_chunks_at_once() {
    let mut window = SampleWindow::silent(3);
    window.extend(vec![vec![5], vec![6, 7]]);
    assert_eq!(contents(&window), vec![5, 6, 7]);
    window.extend(Vec::new());
    assert_eq!(contents(&window), vec![5, 6, 7]);
    window.push(vec![8]);
    assert_eq!(contents(&window), vec![6, 7, 8]);
    assert_eq!(window.get(0), Some(6));
    assert_eq!(window.get(2), Some(8));
    assert_eq!(window.get(3), None);
}

#[test]
fn window_of_capacity_zero_holds_nothing() {
    let mut window = SampleWindow::new(0);
    window.push(vec![1, 2, 3]);
    assert_eq!(window.len(), 0);
    assert_eq!(window.loudness(1), 0);
}

#[test]
fn loudness_of_silence_is_zero() {
    let mut window = SampleWindow::new(16);
    window.push(vec![0; 16]);
    assert_eq!(window.loudness(1), 0);
    assert_eq!(window.loudness(8), 0);
    assert_eq!(window.loudness(100), 0);
}

#[test]
fn loudness_of_constant_amplitude_is_that_amplitude() {
    let mut window = SampleWindow::new(16);
    window.push(vec![12_345, -12_345, 12_345, -12_345, -12_345]);
    assert_eq!(window.loudness(1), 12_345);
    assert_eq!(window.loudness(3), 12_345);
    assert_eq!(window.loudness(5), 12_345);
    assert_eq!(window.loudness(500), 12_345);
}

#[test]
fn loudness_averages_the_newest_samples_only() {
    let mut window = SampleWindow::new(8);
    window.push(vec![1000, -3, 6, -9]);
    assert_eq!(window.loudness(2), 7);
    assert_eq!(window.loudness(3), 6);
    assert_eq!(window.loudness(4), 254);
    assert_eq!(window.loudness(9), 254);
}

#[test]
fn loudness_over_no_samples_is_zero() {
    let mut window = SampleWindow::new(8);
    window.push(vec![40, 50]);
    assert_eq!(window.loudness(0), 0);
}

#[test]
fn loudness_takes_the_most_negative_sample() {
    let mut window = SampleWindow::new(4);
    window.push(vec![i32::MIN, i32::MIN]);
    assert_eq!(window.loudness(2), 2_147_483_648);
    assert_eq!(sample_magnitude(i32::MIN), 2_147_483_648);
    assert_eq!(sample_magnitude(i32::MAX), 2_147_483_647);
    assert_eq!(sample_magnitude(-7), 7);
    assert_eq!(sample_magnitude(0), 0);
}

#[test]
fn snapshot_copies_from_the_given_start() {
    let mut window = SampleWindow::new(4);
    window.push(vec![1, 2, 3, 4, 5]);
    assert_eq!(window.snapshot_from(0), vec![2, 3, 4, 5]);
    assert_eq!(window.snapshot_from(2), vec![4, 5]);
    assert_eq!(window.snapshot_from(4), Vec::<i32>::new());
    assert_eq!(window.snapshot_from(9), Vec::<i32>::new());
}
