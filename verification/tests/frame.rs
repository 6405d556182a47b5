use soundsync::audio::frame::{decode_samples, split_frames, BROADCAST_CAPACITY, BYTES_PER_FRAME, CHANNELS, FRAME_SIZE, SAMPLES_PER_FRAME, SAMPLE_RATE};

#[test]
fn constants_match_legacy_invariant() {
    assert_eq!(SAMPLE_RATE, 48_000);
    assert_eq!(CHANNELS, 2);
    assert_eq!(FRAME_SIZE, 960);
    assert_eq!(SAMPLES_PER_FRAME, 1920);
    assert_eq!(BYTES_PER_FRAME, 7680);
    assert_eq!(BROADCAST_CAPACITY, 256);
}

#[test]
fn frame_duration_is_20ms() {
    assert!((FRAME_SIZE as f64 / SAMPLE_RATE as f64 - 0.020).abs() < 1e-9);
}

#[test]
fn split_frames_yields_full_frames_only() {
    let bytes = vec![0u8; BYTES_PER_FRAME * 2 + 5];
    let frames = split_frames(&bytes);
    assert_eq!(frames.len(), 2);
    assert!(frames.iter().all(|f| f.len() == SAMPLES_PER_FRAME));
}

#[test]
fn decodes_little_endian_f32_samples() {
    let mut bytes = vec![0u8; BYTES_PER_FRAME];
    bytes[0..4].copy_from_slice(&1.0f32.to_le_bytes());
    bytes[4..8].copy_from_slice(&(-2.5f32).to_le_bytes());
    let frames = split_frames(&bytes);
    assert_eq!(f32::from_bits(frames[0][0]), 1.0);
    assert_eq!(f32::from_bits(frames[0][1]), -2.5);
    assert_eq!(f32::from_bits(frames[0][2]), 0.0);
}

#[test]
fn empty_stream_yields_no_frames_ok() {
    assert!(split_frames(&[]).is_empty());
    assert!(decode_samples(&[1, 2, 3]).is_empty());
    assert_eq!(decode_samples(&[1, 2, 3, 4, 5]), vec![0x0403_0201]);
}
