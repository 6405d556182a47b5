//! The PCM frame format: 48 kHz, two channels, single-precision samples, 20 ms
//! frames. A sample is held as the bit pattern of its value.
use vstd::prelude::*;

verus! {

pub const SAMPLE_RATE: u32 = 48_000;

pub const CHANNELS: u32 = 2;

/// Samples per channel per frame (20 ms at 48 kHz).
pub const FRAME_SIZE: usize = 960;

/// Interleaved samples per frame.
pub const SAMPLES_PER_FRAME: usize = 1920;

/// Bytes per frame (four to a sample).
pub const BYTES_PER_FRAME: usize = 7680;

/// Frames that the PCM broadcast channel holds (about 5.12 s).
pub const BROADCAST_CAPACITY: usize = 256;

/// The frame constants belong together: a frame is 20 ms of interleaved samples of
/// four bytes.
pub proof fn frame_sizes_agree()
    ensures
        FRAME_SIZE * 1000 == 20 * SAMPLE_RATE,
        SAMPLES_PER_FRAME == FRAME_SIZE * CHANNELS,
        BYTES_PER_FRAME == SAMPLES_PER_FRAME * 4,
{
}

/// The bits of the sample that starts at byte `at`, least significant byte first.
pub open spec fn sample_at(bytes: Seq<u8>, at: int) -> u32 {
    (bytes[at] + 0x100 * bytes[at + 1] + 0x1_0000 * bytes[at + 2] + 0x100_0000 * bytes[at
        + 3]) as u32
}

/// The samples in the bytes, as many as are complete.
pub open spec fn samples_of(bytes: Seq<u8>) -> Seq<u32> {
    Seq::new(bytes.len() / 4, |i: int| sample_at(bytes, 4 * i))
}

/// Read little-endian samples, dropping a trailing partial one.
pub fn decode_samples(bytes: &[u8]) -> (samples: Vec<u32>)
    ensures
        samples@ == samples_of(bytes@),
{
    let count: usize = bytes.len() / 4;
    let mut samples: Vec<u32> = Vec::new();
    let mut i: usize = 0;
    while i < count
        invariant
            i <= count,
            count == bytes@.len() / 4,
            bytes@.len() <= usize::MAX,
            samples@ =~= samples_of(bytes@).take(i as int),
        decreases count - i,
    {
        let at: usize = 4 * i;
        let value: u32 = bytes[at] as u32 + 0x100 * (bytes[at + 1] as u32) + 0x1_0000 * (bytes[at
            + 2] as u32) + 0x100_0000 * (bytes[at + 3] as u32);
        samples.push(value);
        i = i + 1;
    }
    samples
}

/// The bytes of frame `k`.
pub open spec fn frame_bytes(bytes: Seq<u8>, k: int) -> Seq<u8> {
    bytes.subrange(k * BYTES_PER_FRAME, (k + 1) * BYTES_PER_FRAME)
}

/// The complete frames in the bytes.
pub open spec fn frames_of(bytes: Seq<u8>) -> Seq<Seq<u32>> {
    Seq::new(bytes.len() / (BYTES_PER_FRAME as nat), |k: int| samples_of(frame_bytes(bytes, k)))
}

/// The samples of each frame.
pub open spec fn frame_views(frames: Seq<Vec<u32>>) -> Seq<Seq<u32>> {
    frames.map_values(|f: Vec<u32>| f@)
}

/// Split a raw little-endian byte buffer into full frames, dropping any trailing
/// partial frame.
pub fn split_frames(bytes: &[u8]) -> (frames: Vec<Vec<u32>>)
    ensures
        frame_views(frames@) == frames_of(bytes@),
{
    let count: usize = bytes.len() / BYTES_PER_FRAME;
    let mut frames: Vec<Vec<u32>> = Vec::new();
    let mut k: usize = 0;
    while k < count
        invariant
            k <= count,
            count == bytes@.len() / (BYTES_PER_FRAME as nat),
            bytes@.len() <= usize::MAX,
            frame_views(frames@) =~= frames_of(bytes@).take(k as int),
        decreases count - k,
    {
        let start: usize = k * BYTES_PER_FRAME;
        let frame = decode_samples(vstd::slice::slice_subrange(bytes, start, start + BYTES_PER_FRAME));
        assert(frame@ == samples_of(frame_bytes(bytes@, k as int)));
        let ghost before = frames@;
        frames.push(frame);
        assert(frame_views(frames@) =~= frame_views(before).push(frame@));
        k = k + 1;
    }
    frames
}

/// Every frame has the same number of samples, and fewer bytes than a frame are
/// left over.
pub proof fn frames_are_full(bytes: Seq<u8>)
    ensures
        forall|k: int|
            0 <= k < frames_of(bytes).len() ==> (#[trigger] frames_of(bytes)[k]).len()
                == SAMPLES_PER_FRAME,
        0 <= bytes.len() - frames_of(bytes).len() * BYTES_PER_FRAME < BYTES_PER_FRAME,
{
}

/// A sample is made of the four bytes at its place, the least significant one first, and
/// no byte of a complete sample is passed over.
pub proof fn samples_are_their_bytes(bytes: Seq<u8>, i: int)
    requires
        0 <= i,
        4 * i + 4 <= bytes.len(),
    ensures
        i < samples_of(bytes).len(),
        samples_of(bytes)[i] % 0x100 == bytes[4 * i],
        (samples_of(bytes)[i] / 0x100) % 0x100 == bytes[4 * i + 1],
        (samples_of(bytes)[i] / 0x1_0000) % 0x100 == bytes[4 * i + 2],
        samples_of(bytes)[i] / 0x100_0000 == bytes[4 * i + 3],
        bytes.len() < 4 * (samples_of(bytes).len() + 1),
{
}

/// The frames hold the samples in the order in which they came: frame after frame, 1920
/// of them to a frame.
pub proof fn frames_hold_the_samples_in_order(bytes: Seq<u8>, k: int, j: int)
    requires
        0 <= k < frames_of(bytes).len(),
        0 <= j < 1920,
    ensures
        j < frames_of(bytes)[k].len(),
        k * 1920 + j < samples_of(bytes).len(),
        frames_of(bytes)[k][j] == samples_of(bytes)[k * 1920 + j],
        frames_of(bytes).len() == bytes.len() / 7680,
{
    let f = frame_bytes(bytes, k);
    assert((k + 1) * 7680 <= bytes.len());
    assert(f.len() == 7680);
    let at = 4 * (k * 1920 + j);
    assert(f[4 * j] == bytes[at]);
    assert(f[4 * j + 1] == bytes[at + 1]);
    assert(f[4 * j + 2] == bytes[at + 2]);
    assert(f[4 * j + 3] == bytes[at + 3]);
}

} // verus!
