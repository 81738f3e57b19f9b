//! Fixed-point quantities shared by the timing and mixing code.
//!
//! Beats, tempi, gains and times are all carried as signed counts of
//! millionths: one beat is `1_000_000`, 120 BPM is `120_000_000`, one second
//! is `1_000_000`. Integer arithmetic on these is exact and order-independent,
//! which the mixing code relies on.

use vstd::prelude::*;

verus! {

/// Number of fixed-point units in one whole (one beat, one BPM, one second).
pub const UNIT: i64 = 1_000_000;

/// Interleaved channels in every buffer.
pub const CHANNELS: usize = 2;

/// Quotient of `a` by a positive `b`, rounded toward zero.
pub open spec fn trunc_div(a: int, b: int) -> int
    recommends
        b > 0,
{
    if a >= 0 {
        a / b
    } else {
        -((-a) / b)
    }
}

/// Index of the first sample of the frame that is playing at `time`, in a
/// buffer of `rate` frames per second: whole frames elapsed, times the channel
/// count. Times before the start of the buffer map to its first sample.
pub open spec fn sample_index(time: i64, rate: u32) -> nat {
    if time <= 0 {
        0
    } else {
        (((time as int * rate as int) / (UNIT as int)) * (CHANNELS as int)) as nat
    }
}

/// A sample index is always the start of a frame, and never too large for
/// 128 bits.
pub proof fn lemma_sample_index(time: i64, rate: u32)
    ensures
        sample_index(time, rate) % 2 == 0,
        sample_index(time, rate) <= u128::MAX,
{
    if time > 0 {
        let frames = (time as int * rate as int) / (UNIT as int);
        assert(0 <= time as int * rate as int <= 0x7fff_ffff_ffff_ffff * 0xffff_ffff) by (nonlinear_arith)
            requires
                0 < time <= 0x7fff_ffff_ffff_ffff,
                0 <= rate <= 0xffff_ffff,
        ;
        assert(0 <= frames <= time as int * rate as int);
        assert((frames * 2) % 2 == 0);
    }
}

/// Computes [`sample_index`]. The result is wide enough for every input;
/// whether it addresses a buffer is for the caller to decide.
pub fn sample_index_of(time: i64, rate: u32) -> (index: u128)
    ensures
        index == sample_index(time, rate),
{
    if time <= 0 {
        0
    } else {
        proof {
            lemma_sample_index(time, rate);
            assert(0 <= time as int * rate as int <= 0x7fff_ffff_ffff_ffff * 0xffff_ffff) by (nonlinear_arith)
                requires
                    0 < time <= 0x7fff_ffff_ffff_ffff,
                    0 <= rate <= 0xffff_ffff,
            ;
        }
        let product: u128 = (time as u128) * (rate as u128);
        (product / 1_000_000) * 2
    }
}

} // verus!
