use autotype::capture::{
    amplitude_sum, start_request, stop_request, AudioCommand, CaptureBuffer, MAX_RECORDING_SAMPLES,
};

fn started(rate: u32) -> CaptureBuffer {
    let mut b = CaptureBuffer::new(rate);
    b.start();
    b
}

#[test]
fn new_buffer_is_idle_and_empty() {
    let b = CaptureBuffer::new(48000);
    assert!(!b.is_recording());
    assert_eq!(b.len(), 0);
}

#[test]
fn input_is_ignored_while_not_recording() {
    let mut b = CaptureBuffer::new(16000);
    b.push_input(&[1, 2, 3]);
    assert_eq!(b.len(), 0);
}

#[test]
fn target_rate_copies_input() {
    let mut b = started(16000);
    b.push_input(&[1, -2, 3]);
    b.push_input(&[4]);
    assert_eq!(b.stop(), vec![1, -2, 3, 4]);
}

#[test]
fn downsampling_by_three_takes_every_third_sample() {
    let mut b = started(48000);
    b.push_input(&[0, 300, 600, 900, 1200, 1500]);
    b.push_input(&[1800, 2100, 2400]);
    assert_eq!(b.stop(), vec![0, 900, 1800]);
}

#[test]
fn resampling_44100_interpolates_and_truncates() {
    let data: Vec<i16> = (0..10).map(|i| i * 100).collect();
    let mut b = started(44100);
    b.push_input(&data);
    assert_eq!(b.stop(), vec![0, 275, 551, 826]);
}

#[test]
fn negative_interpolation_rounds_toward_zero() {
    let data: Vec<i16> = (0..10).map(|i| -i * 100).collect();
    let mut b = started(44100);
    b.push_input(&data);
    assert_eq!(b.stop(), vec![0, -275, -551, -826]);
}

#[test]
fn phase_carries_over_between_blocks() {
    // 44100 Hz: positions advance by 44100/16000 input samples per output.
    let data: Vec<i16> = (0..10).map(|i| i * 100).collect();
    let mut whole = started(44100);
    whole.push_input(&data);
    whole.push_input(&data);
    let out = whole.stop();
    // 20 inputs * 16000 / 44100 rounded up = 8 outputs
    assert_eq!(out.len(), 8);
    // the fifth output lies at position 4 * 44100 = 176400, i.e. 16400 into
    // the second block: sample 1 plus 400/16000 of the way to sample 2
    assert_eq!(out[4], 102);
}

#[test]
fn upsampling_repeats_the_last_sample_of_a_block() {
    let mut b = started(8000);
    b.push_input(&[0, 1000]);
    assert_eq!(b.stop(), vec![0, 500, 1000, 1000]);
}

#[test]
fn start_clears_the_previous_recording() {
    let mut b = started(16000);
    b.push_input(&[5, 6]);
    let first = b.stop();
    assert_eq!(first, vec![5, 6]);
    b.push_input(&[7]);
    assert_eq!(b.len(), 2);
    b.start();
    assert_eq!(b.len(), 0);
    assert!(b.is_recording());
}

#[test]
fn recording_stops_at_ten_minutes() {
    let big = vec![1i16; MAX_RECORDING_SAMPLES + 5];
    let mut b = started(16000);
    b.push_input(&big);
    assert_eq!(b.len(), MAX_RECORDING_SAMPLES);
    b.push_input(&[2, 3]);
    assert_eq!(b.len(), MAX_RECORDING_SAMPLES);
}

#[test]
fn resampled_recording_stops_at_ten_minutes() {
    let big = vec![1i16; MAX_RECORDING_SAMPLES * 3 + 30];
    let mut b = started(48000);
    b.push_input(&big);
    assert_eq!(b.len(), MAX_RECORDING_SAMPLES);
    b.push_input(&[2, 3, 4]);
    assert_eq!(b.len(), MAX_RECORDING_SAMPLES);
}

#[test]
fn commands_start_and_stop() {
    let mut b = CaptureBuffer::new(16000);
    assert!(b.apply(&AudioCommand::Start).is_none());
    b.push_input(&[9, 8]);
    assert_eq!(b.apply(&AudioCommand::Stop), Some(vec![9, 8]));
    assert!(!b.is_recording());
}

#[test]
fn stop_without_input_gives_empty_recording() {
    let mut b = CaptureBuffer::new(44100);
    b.apply(&AudioCommand::Start);
    assert_eq!(b.apply(&AudioCommand::Stop), Some(vec![]));
}

#[test]
fn amplitude_sums_magnitudes() {
    assert_eq!(amplitude_sum(&[-3, 4, -32768, 32767]), 3 + 4 + 32768 + 32767);
    assert_eq!(amplitude_sum(&[]), 0);
}

#[test]
fn start_request_only_when_idle() {
    assert!(matches!(start_request(false), Some(AudioCommand::Start)));
    assert!(start_request(true).is_none());
}

#[test]
fn stop_request_only_when_recording() {
    assert!(matches!(stop_request(true), Some(AudioCommand::Stop)));
    assert!(stop_request(false).is_none());
}

#[test]
fn integer_ratio_takes_every_mth_sample_however_split() {
    let x: Vec<i16> = (0..50).map(|i| (i * 7 - 100) as i16).collect();
    let expected: Vec<i16> = x.iter().step_by(3).cloned().collect();
    for split in [1usize, 2, 4, 7, 50] {
        let mut b = started(48000);
        for chunk in x.chunks(split) {
            b.push_input(chunk);
        }
        assert_eq!(b.stop(), expected, "blocks of {}", split);
    }
}

#[test]
fn restarted_buffer_behaves_like_a_new_one() {
    let data: Vec<i16> = (0..23).map(|i| (i * 13) as i16).collect();
    let mut used = started(44100);
    used.push_input(&[5, 6, 7, 8, 9]);
    let _ = used.stop();
    used.start();
    used.push_input(&data);
    let mut fresh = started(44100);
    fresh.push_input(&data);
    assert_eq!(used.stop(), fresh.stop());
}
