use piper_poc::playback::{
    fill_buffer, layout_for_device, mono_to_stereo, spread_to_channels, FillOutcome,
};

#[test]
fn stereo_duplicates_each_sample() {
    assert_eq!(mono_to_stereo(&[1, 2, 3]), vec![1, 1, 2, 2, 3, 3]);
    assert_eq!(mono_to_stereo::<i32>(&[]), Vec::<i32>::new());
    assert_eq!(mono_to_stereo(&[0.5f32, -0.25]), vec![0.5f32, 0.5, -0.25, -0.25]);
}

#[test]
fn stereo_left_channel_is_the_mono_signal() {
    let mono = [3u8, 1, 4, 1, 5];
    let stereo = mono_to_stereo(&mono);
    let left: Vec<u8> = stereo.iter().step_by(2).copied().collect();
    let right: Vec<u8> = stereo.iter().skip(1).step_by(2).copied().collect();
    assert_eq!(left, mono.to_vec());
    assert_eq!(right, mono.to_vec());
}

#[test]
fn layout_follows_device_channels() {
    assert_eq!(layout_for_device(vec![1, 2], 1), vec![1, 2]);
    assert_eq!(layout_for_device(vec![1, 2], 0), vec![1, 2]);
    assert_eq!(layout_for_device(vec![1, 2], 2), vec![1, 1, 2, 2]);
    assert_eq!(layout_for_device(vec![1, 2], 3), vec![1, 1, 1, 2, 2, 2]);
    assert_eq!(
        layout_for_device(vec![1, 2], 6),
        vec![1, 1, 1, 1, 1, 1, 2, 2, 2, 2, 2, 2]
    );
}

#[test]
fn every_channel_of_a_frame_carries_its_sample() {
    let mono = [0.5f32, -0.5, 0.25];
    let frames = spread_to_channels(&mono, 4);
    assert_eq!(frames.len(), 12);
    for (j, frame) in frames.chunks(4).enumerate() {
        assert_eq!(frame, &[mono[j]; 4]);
    }
    assert_eq!(spread_to_channels(&mono, 2), mono_to_stereo(&mono));
    assert!(spread_to_channels(&mono, 0).is_empty());
    assert_eq!(spread_to_channels(&mono, 1), mono.to_vec());
}

#[test]
fn stereo_of_joined_signals_is_joined_stereo() {
    let a = [1, 2];
    let b = [3];
    let joined = [a.as_slice(), b.as_slice()].concat();
    assert_eq!(
        mono_to_stereo(&joined),
        [mono_to_stereo(&a), mono_to_stereo(&b)].concat()
    );
}

#[test]
fn stopped_playback_needs_no_room_to_advance() {
    let source = [1, 2];
    let mut buffer = [5; 3];
    let outcome = fill_buffer(&source, usize::MAX, true, 0, &mut buffer);
    assert_eq!(buffer, [0, 0, 0]);
    assert_eq!(outcome, FillOutcome { next_position: usize::MAX, reached_end: true });
}

#[test]
fn buffer_within_the_samples() {
    let source = [1, 2, 3, 4, 5];
    let mut buffer = [9; 3];
    let outcome = fill_buffer(&source, 1, false, 0, &mut buffer);
    assert_eq!(buffer, [2, 3, 4]);
    assert_eq!(outcome, FillOutcome { next_position: 4, reached_end: false });
}

#[test]
fn buffer_running_past_the_end() {
    let source = [1, 2, 3, 4, 5];
    let mut buffer = [9; 3];
    let outcome = fill_buffer(&source, 4, false, 0, &mut buffer);
    assert_eq!(buffer, [5, 0, 0]);
    assert_eq!(outcome, FillOutcome { next_position: 7, reached_end: true });
}

#[test]
fn buffer_ending_exactly_at_the_end() {
    let source = [1, 2, 3];
    let mut buffer = [9; 3];
    let outcome = fill_buffer(&source, 0, false, 0, &mut buffer);
    assert_eq!(buffer, [1, 2, 3]);
    assert_eq!(outcome, FillOutcome { next_position: 3, reached_end: false });
}

#[test]
fn empty_buffer_ends_nothing() {
    let source = [1, 2, 3];
    let mut buffer: [i32; 0] = [];
    let outcome = fill_buffer(&source, 10, false, 0, &mut buffer);
    assert_eq!(outcome, FillOutcome { next_position: 10, reached_end: false });
}

#[test]
fn stopped_playback_is_silent() {
    let source = [1.0f32, 2.0, 3.0];
    let mut buffer = [7.0f32; 4];
    let outcome = fill_buffer(&source, 1, true, 0.0, &mut buffer);
    assert_eq!(buffer, [0.0; 4]);
    assert_eq!(outcome, FillOutcome { next_position: 1, reached_end: true });
}

#[test]
fn consecutive_buffers_play_every_sample_once() {
    let source: Vec<i32> = (1..=10).collect();
    let mut played = Vec::new();
    let mut position = 0;
    let mut ended = false;
    for size in [3usize, 4, 2, 5] {
        let mut buffer = vec![-1; size];
        let outcome = fill_buffer(&source, position, false, 0, &mut buffer);
        played.extend_from_slice(&buffer);
        position = outcome.next_position;
        ended |= outcome.reached_end;
    }
    let mut expected = source.clone();
    expected.extend_from_slice(&[0, 0, 0, 0]);
    assert_eq!(played, expected);
    assert_eq!(position, 14);
    assert!(ended);
}
