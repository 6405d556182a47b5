use soundsync::audio::spectrum::{should_publish, SpectrumBlocks, FFT_SIZE, NUM_BANDS, SPECTRUM_MIN_INTERVAL_MS};

#[test]
fn push_emits_a_band_frame_per_completed_block() {
    let mut sa = SpectrumBlocks::new();
    let out = sa.push(&vec![0u32; FFT_SIZE]);
    assert_eq!(out.len(), 1);
    assert_eq!(out[0].len(), FFT_SIZE);
    assert!(sa.push(&[0u32; 8]).is_empty());
    assert_eq!(NUM_BANDS, 64);
}

#[test]
fn blocks_hold_the_samples_in_order() {
    let mut sa = SpectrumBlocks::new();
    let samples: Vec<u32> = (0..(2 * FFT_SIZE as u32 + 10)).collect();
    let mut blocks = sa.push(&samples[..100]);
    blocks.extend(sa.push(&samples[100..]));
    assert_eq!(blocks.len(), 2);
    assert_eq!(blocks[0], samples[..FFT_SIZE].to_vec());
    assert_eq!(blocks[1], samples[FFT_SIZE..2 * FFT_SIZE].to_vec());
    let rest: Vec<u32> = vec![7; FFT_SIZE - 10];
    let last = sa.push(&rest);
    assert_eq!(last.len(), 1);
    assert_eq!(last[0][..10], samples[2 * FFT_SIZE..]);
}

#[test]
fn should_publish_true_when_interval_exceeded() {
    assert!(should_publish(1000, 1060, 50));
}

#[test]
fn should_publish_false_when_interval_not_reached() {
    assert!(!should_publish(1000, 1030, 50));
    assert!(!should_publish(1000, 900, SPECTRUM_MIN_INTERVAL_MS));
}

#[test]
fn should_publish_true_exactly_at_interval() {
    assert!(should_publish(1000, 1050, 50));
}
