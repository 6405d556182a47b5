//! The spectrum analyser's blocks and its rate of publishing. The samples are the
//! bit patterns of single-precision numbers; the transform itself is arithmetic on
//! those numbers and is done by the caller.
use vstd::prelude::*;
use crate::audio::frame::frame_views;

verus! {

/// Mono samples per transform.
pub const FFT_SIZE: usize = 2048;

/// Bands per published frame.
pub const NUM_BANDS: usize = 64;

/// Milliseconds between published frames (15 to 20 per second).
pub const SPECTRUM_MIN_INTERVAL_MS: u64 = 50;

/// Whether enough time has passed since `last` to publish another spectrum frame.
/// Times are milliseconds of one clock; a clock that went back counts as no time.
pub fn should_publish(last: u64, now: u64, min_interval: u64) -> (r: bool)
    ensures
        r == (if now >= last {
            now - last >= min_interval
        } else {
            min_interval == 0
        }),
{
    let passed: u64 = if now >= last {
        now - last
    } else {
        0
    };
    passed >= min_interval
}

/// The complete blocks at the front of the samples.
pub open spec fn blocks_of(samples: Seq<u32>) -> Seq<Seq<u32>>
    decreases samples.len(),
{
    if samples.len() < FFT_SIZE {
        Seq::empty()
    } else {
        seq![samples.take(FFT_SIZE as int)] + blocks_of(samples.skip(FFT_SIZE as int))
    }
}

/// What the complete blocks leave over.
pub open spec fn left_over(samples: Seq<u32>) -> Seq<u32>
    decreases samples.len(),
{
    if samples.len() < FFT_SIZE {
        samples
    } else {
        left_over(samples.skip(FFT_SIZE as int))
    }
}

/// Collects mono samples into blocks for the transform.
pub struct SpectrumBlocks {
    pending: Vec<u32>,
}

impl View for SpectrumBlocks {
    type V = Seq<u32>;

    closed spec fn view(&self) -> Seq<u32> {
        self.pending@
    }
}

impl SpectrumBlocks {
    pub fn new() -> (s: Self)
        ensures
            s@ == Seq::<u32>::empty(),
    {
        SpectrumBlocks { pending: Vec::new() }
    }

    /// Take in more samples; returns the blocks that they complete.
    pub fn push(&mut self, mono: &[u32]) -> (blocks: Vec<Vec<u32>>)
        ensures
            frame_views(blocks@) == blocks_of(old(self)@ + mono@),
            final(self)@ == left_over(old(self)@ + mono@),
    {
        let ghost all = self@ + mono@;
        let mut samples: Vec<u32> = Vec::new();
        std::mem::swap(&mut samples, &mut self.pending);
        let mut i: usize = 0;
        while i < mono.len()
            invariant
                i <= mono@.len(),
                samples@ =~= old(self)@ + mono@.take(i as int),
            decreases mono@.len() - i,
        {
            samples.push(mono[i]);
            i = i + 1;
        }
        assert(samples@ =~= all);
        let mut blocks: Vec<Vec<u32>> = Vec::new();
        assert(frame_views(blocks@) + blocks_of(all) =~= blocks_of(all));
        while samples.len() >= FFT_SIZE
            invariant
                blocks_of(all) == frame_views(blocks@) + blocks_of(samples@),
                left_over(all) == left_over(samples@),
            decreases samples@.len(),
        {
            let ghost whole = samples@;
            let ghost before = blocks@;
            let rest = samples.split_off(FFT_SIZE);
            assert(samples@ =~= whole.take(FFT_SIZE as int));
            assert(rest@ =~= whole.skip(FFT_SIZE as int));
            blocks.push(samples);
            assert(frame_views(blocks@) =~= frame_views(before).push(whole.take(FFT_SIZE as int)));
            assert(frame_views(before) + blocks_of(whole) =~= frame_views(blocks@) + blocks_of(
                rest@,
            ));
            samples = rest;
        }
        assert(frame_views(blocks@) + blocks_of(samples@) =~= frame_views(blocks@));
        self.pending = samples;
        blocks
    }
}

proof fn lemma_blocks_append(a: Seq<u32>, b: Seq<u32>)
    ensures
        blocks_of(a + b) == blocks_of(a) + blocks_of(left_over(a) + b),
        left_over(a + b) == left_over(left_over(a) + b),
    decreases a.len(),
{
    if a.len() < FFT_SIZE {
        assert(blocks_of(a) + blocks_of(a + b) =~= blocks_of(a + b));
    } else {
        let n = FFT_SIZE as int;
        let a1 = a.skip(n);
        lemma_blocks_append(a1, b);
        assert((a + b).take(n) =~= a.take(n));
        assert((a + b).skip(n) =~= a1 + b);
        assert(blocks_of(a + b) =~= blocks_of(a) + blocks_of(left_over(a) + b));
    }
}

/// How the samples are cut into pieces makes no difference to the blocks.
pub proof fn blocks_ignore_how_samples_arrive(pending: Seq<u32>, first: Seq<u32>, second: Seq<u32>)
    ensures
        blocks_of(pending + first) + blocks_of(left_over(pending + first) + second) == blocks_of(
            pending + (first + second),
        ),
        left_over(left_over(pending + first) + second) == left_over(pending + (first + second)),
{
    lemma_blocks_append(pending + first, second);
    assert(pending + (first + second) =~= (pending + first) + second);
}

/// Less than a block is left over.
pub proof fn less_than_a_block_is_left(samples: Seq<u32>)
    ensures
        left_over(samples).len() < FFT_SIZE,
        blocks_of(samples).len() * FFT_SIZE + left_over(samples).len() == samples.len(),
        forall|k: int|
            0 <= k < blocks_of(samples).len() ==> (#[trigger] blocks_of(samples)[k]).len()
                == FFT_SIZE,
    decreases samples.len(),
{
    if samples.len() >= FFT_SIZE {
        less_than_a_block_is_left(samples.skip(FFT_SIZE as int));
    }
}

/// The blocks hold the samples in the order in which they came, 2048 to a block, and what
/// is left over are the ones behind them.
pub proof fn blocks_hold_the_samples_in_order(samples: Seq<u32>)
    ensures
        forall|k: int, j: int|
            0 <= k < blocks_of(samples).len() && 0 <= j < 2048 ==> #[trigger] blocks_of(samples)[k][j]
                == samples[2048 * k + j],
        left_over(samples) == samples.skip(2048 * blocks_of(samples).len() as int),
        2048 * blocks_of(samples).len() <= samples.len() < 2048 * (blocks_of(samples).len() + 1),
    decreases samples.len(),
{
    if samples.len() >= FFT_SIZE {
        let rest = samples.skip(2048);
        blocks_hold_the_samples_in_order(rest);
        let all = blocks_of(samples);
        let tail = blocks_of(rest);
        assert forall|k: int, j: int|
            0 <= k < all.len() && 0 <= j < 2048 implies #[trigger] all[k][j] == samples[2048 * k
            + j] by {
            if k > 0 {
                assert(all[k] == tail[k - 1]);
                assert(tail[k - 1][j] == rest[2048 * (k - 1) + j]);
            }
        }
        assert(rest.skip(2048 * tail.len() as int) =~= samples.skip(2048 * all.len() as int));
    } else {
        assert(samples.skip(0) =~= samples);
    }
}

} // verus!
