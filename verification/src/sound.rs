//! PCM buffers and the additive overlay primitives.
//!
//! A [`Sound`] is interleaved stereo, signed 16 bit. Every operation that
//! combines two buffers adds sample by sample and clips at the ends of the
//! sample range, so no intermediate value ever wraps.

use crate::units::{
    lemma_sample_index, sample_index, sample_index_of, trunc_div, CHANNELS, UNIT,
};
use vstd::prelude::*;

verus! {

/// Frames per second of a buffer whose rate was not given.
pub const DEFAULT_BITRATE: u32 = 48000;

/// An owned sample buffer with its frame rate.
#[derive(Debug)]
pub struct Sound {
    /// Interleaved samples, left channel first.
    pub data: Vec<i16>,
    /// Frames per second.
    pub bitrate: u32,
}

/// Sum of two samples, clipped to the sample range.
pub open spec fn mix_sample(a: i16, b: i16) -> i16 {
    if a + b > i16::MAX {
        i16::MAX
    } else if a + b < i16::MIN {
        i16::MIN
    } else {
        (a + b) as i16
    }
}

/// Sample `i` of `samples`, with silence wherever the buffer does not reach.
pub open spec fn sample_or_silence(samples: Seq<i16>, i: int) -> i16 {
    if 0 <= i < samples.len() {
        samples[i]
    } else {
        0
    }
}

/// `base` after `count` samples of `clip` have been mixed in from index
/// `start` on. The clip is read cyclically, so a `count` beyond its length
/// starts over from its first sample. The buffer is grown with silence to
/// reach `start + count`; it never shrinks.
pub open spec fn overlaid(base: Seq<i16>, clip: Seq<i16>, start: int, count: int) -> Seq<i16>
    recommends
        0 <= start,
        0 <= count,
        count > 0 ==> clip.len() > 0,
{
    Seq::new(
        if base.len() >= start + count { base.len() } else { (start + count) as nat },
        |i: int|
            if start <= i < start + count {
                mix_sample(sample_or_silence(base, i), clip[(i - start) % (clip.len() as int)])
            } else {
                sample_or_silence(base, i)
            },
    )
}

/// Number of samples that a one-shot clip of `clip_len` samples contributes
/// when it starts at index `start` and must fall silent at index `stop`.
pub open spec fn capped_count(clip_len: nat, start: nat, stop: nat) -> nat {
    if stop <= start {
        0
    } else if stop - start < clip_len {
        (stop - start) as nat
    } else {
        clip_len
    }
}

/// Whether a clip of `clip_len` samples, started at `time`, ends at an
/// index that a buffer of `rate` frames per second can have.
pub open spec fn fits_at(clip_len: nat, rate: u32, time: i64) -> bool {
    sample_index(time, rate) + clip_len <= usize::MAX
}

/// Whether what a one-shot clip of `clip_len` samples contributes between
/// `start` and `end` ends at an index that a buffer can have.
pub open spec fn fits_until(clip_len: nat, rate: u32, start: i64, end: i64) -> bool {
    sample_index(start, rate) + capped_count(
        clip_len,
        sample_index(start, rate),
        sample_index(end, rate),
    ) <= usize::MAX
}

/// Whether a span up to `end` ends at an index that a buffer can have.
pub open spec fn fits_loop(rate: u32, end: i64) -> bool {
    sample_index(end, rate) <= usize::MAX
}

/// `base`, at `rate` frames per second, with all of `clip` mixed in from
/// `time` on.
pub open spec fn mixed_at(base: Seq<i16>, clip: Seq<i16>, rate: u32, time: i64) -> Seq<i16> {
    overlaid(base, clip, sample_index(time, rate) as int, clip.len() as int)
}

/// `base` with `clip` mixed in from `start` on and cut off where `end`
/// begins.
pub open spec fn mixed_until(base: Seq<i16>, clip: Seq<i16>, rate: u32, start: i64, end: i64) -> Seq<
    i16,
> {
    overlaid(
        base,
        clip,
        sample_index(start, rate) as int,
        capped_count(clip.len(), sample_index(start, rate), sample_index(end, rate)) as int,
    )
}

/// `base` with the span from `start` to `end` filled by `clip`, repeated;
/// grown to reach `end` and otherwise unchanged where the clip is empty or
/// the span is.
pub open spec fn mixed_loop(base: Seq<i16>, clip: Seq<i16>, rate: u32, start: i64, end: i64) -> Seq<
    i16,
> {
    if clip.len() == 0 || sample_index(end, rate) <= sample_index(start, rate) {
        overlaid(base, clip, sample_index(end, rate) as int, 0)
    } else {
        overlaid(
            base,
            clip,
            sample_index(start, rate) as int,
            sample_index(end, rate) - sample_index(start, rate),
        )
    }
}

/// One sample multiplied by a gain in millionths, rounded toward zero and
/// clipped to the sample range.
pub open spec fn scaled_sample(a: i16, factor: i64) -> i16 {
    let exact = trunc_div(a as int * factor as int, UNIT as int);
    if exact > i16::MAX {
        i16::MAX
    } else if exact < i16::MIN {
        i16::MIN
    } else {
        exact as i16
    }
}

/// The sample that the little-endian byte pair `lo`, `hi` encodes.
pub open spec fn sample_from_le(lo: u8, hi: u8) -> i16 {
    let unsigned = lo as int + 256 * (hi as int);
    if unsigned >= 32768 {
        (unsigned - 65536) as i16
    } else {
        unsigned as i16
    }
}

/// The samples that a raw little-endian byte stream encodes. A trailing odd
/// byte encodes nothing.
pub open spec fn samples_from_le(bytes: Seq<u8>) -> Seq<i16> {
    Seq::new(bytes.len() / 2, |i: int| sample_from_le(bytes[2 * i], bytes[2 * i + 1]))
}

/// Low byte of a sample's little-endian encoding.
pub open spec fn sample_lo(a: i16) -> u8 {
    ((if a < 0 { a + 65536 } else { a as int }) % 256) as u8
}

/// High byte of a sample's little-endian encoding.
pub open spec fn sample_hi(a: i16) -> u8 {
    ((if a < 0 { a + 65536 } else { a as int }) / 256) as u8
}

/// The raw little-endian byte stream of a sample sequence.
pub open spec fn samples_to_le(samples: Seq<i16>) -> Seq<u8> {
    Seq::new(
        2 * samples.len(),
        |i: int| if i % 2 == 0 { sample_lo(samples[i / 2]) } else { sample_hi(samples[i / 2]) },
    )
}

/// Decoding what was encoded gives the samples back.
pub proof fn lemma_le_round_trip(samples: Seq<i16>)
    ensures
        samples_from_le(samples_to_le(samples)) == samples,
{
    let bytes = samples_to_le(samples);
    assert(bytes.len() / 2 == samples.len());
    assert forall|i: int| 0 <= i < samples.len() implies #[trigger] samples_from_le(bytes)[i]
        == samples[i] by {
        assert(bytes[2 * i] == sample_lo(samples[(2 * i) / 2]));
        assert(bytes[2 * i + 1] == sample_hi(samples[(2 * i + 1) / 2]));
    }
    assert(samples_from_le(bytes) =~= samples);
}

/// Mixing two buffers into an empty one gives the same samples whichever is
/// mixed first, wherever each of them starts: clipping happens per sample,
/// and the sum of two samples does not depend on their order.
pub proof fn lemma_overlay_order(a: Seq<i16>, b: Seq<i16>, rate: u32, time_a: i64, time_b: i64)
    ensures
        mixed_at(mixed_at(Seq::<i16>::empty(), a, rate, time_a), b, rate, time_b) == mixed_at(
            mixed_at(Seq::<i16>::empty(), b, rate, time_b),
            a,
            rate,
            time_a,
        ),
{
    let silence = Seq::<i16>::empty();
    let start_a = sample_index(time_a, rate);
    let start_b = sample_index(time_b, rate);
    let a_first = mixed_at(mixed_at(silence, a, rate, time_a), b, rate, time_b);
    let b_first = mixed_at(mixed_at(silence, b, rate, time_b), a, rate, time_a);
    assert(a_first.len() == b_first.len());
    assert forall|i: int| 0 <= i < a_first.len() implies a_first[i] == b_first[i] by {
        if start_a <= i < start_a + a.len() {
            assert((i - start_a) % (a.len() as int) == i - start_a) by (nonlinear_arith)
                requires
                    0 <= i - start_a < a.len(),
            ;
        }
        if start_b <= i < start_b + b.len() {
            assert((i - start_b) % (b.len() as int) == i - start_b) by (nonlinear_arith)
                requires
                    0 <= i - start_b < b.len(),
            ;
        }
    }
    assert(a_first =~= b_first);
}

fn mix(a: i16, b: i16) -> (sum: i16)
    ensures
        sum == mix_sample(a, b),
{
    let wide: i32 = a as i32 + b as i32;
    if wide > 32767 {
        32767
    } else if wide < -32768 {
        -32768
    } else {
        wide as i16
    }
}

/// Grows `data` with silence until it holds `len` samples.
fn pad_to(data: &mut Vec<i16>, len: usize)
    ensures
        final(data)@.len() == if old(data)@.len() >= len { old(data)@.len() } else { len as nat },
        forall|i: int| 0 <= i < final(data)@.len() ==> final(data)@[i] == sample_or_silence(old(data)@, i),
{
    while data.len() < len
        invariant
            old(data)@.len() <= data@.len(),
            data@.len() <= len || data@.len() == old(data)@.len(),
            forall|i: int| 0 <= i < data@.len() ==> data@[i] == sample_or_silence(old(data)@, i),
        decreases len - data.len(),
    {
        data.push(0);
    }
}

/// Mixes `count` samples of `clip`, read cyclically, into `data` from index
/// `start` on.
fn mix_into(data: &mut Vec<i16>, clip: &Vec<i16>, start: usize, count: usize)
    requires
        start + count <= usize::MAX,
        count > 0 ==> clip@.len() > 0,
    ensures
        final(data)@ == overlaid(old(data)@, clip@, start as int, count as int),
{
    pad_to(data, start + count);
    let ghost base = old(data)@;
    let ghost padded = data@;
    let mut done: usize = 0;
    let mut cursor: usize = 0;
    while done < count
        invariant
            done <= count,
            start + count <= usize::MAX,
            count > 0 ==> clip@.len() > 0,
            count > 0 ==> cursor as int == (done as int) % (clip@.len() as int),
            count > 0 ==> cursor < clip@.len(),
            data@.len() == padded.len(),
            padded.len() >= start + count,
            forall|i: int| start <= i < start + done ==> data@[i] == mix_sample(
                padded[i],
                clip@[(i - start) % (clip@.len() as int)],
            ),
            forall|i: int| 0 <= i < data@.len() && !(start <= i < start + done) ==> data@[i]
                == padded[i],
        decreases count - done,
    {
        let at = start + done;
        let mixed = mix(data[at], clip[cursor]);
        data.set(at, mixed);
        proof {
            let m = clip@.len() as int;
            assert((done as int + 1) % m == if cursor as int + 1 == m { 0 } else { cursor as int + 1 })
                by (nonlinear_arith)
                requires
                    m > 0,
                    0 <= done,
                    cursor as int == (done as int) % m,
            ;
        }
        done = done + 1;
        assert(cursor < clip.len());
        cursor = cursor + 1;
        if cursor == clip.len() {
            cursor = 0;
        }
    }
    assert(data@ =~= overlaid(base, clip@, start as int, count as int));
}

impl Clone for Sound {
    fn clone(&self) -> (copy: Self)
        ensures
            copy.data@ == self.data@,
            copy.bitrate == self.bitrate,
    {
        let mut data: Vec<i16> = Vec::new();
        let mut i: usize = 0;
        while i < self.data.len()
            invariant
                i <= self.data@.len(),
                data@ == self.data@.subrange(0, i as int),
            decreases self.data@.len() - i,
        {
            data.push(self.data[i]);
            assert(data@ =~= self.data@.subrange(0, i as int + 1));
            i = i + 1;
        }
        assert(data@ =~= self.data@);
        Sound { data, bitrate: self.bitrate }
    }
}

impl Sound {
    /// Whether the buffer holds whole frames only.
    pub open spec fn wf(&self) -> bool {
        self.data@.len() % (CHANNELS as nat) == 0
    }

    /// A buffer without samples, at `bitrate` or at [`DEFAULT_BITRATE`].
    pub fn empty(bitrate: Option<u32>) -> (sound: Sound)
        ensures
            sound.data@ == Seq::<i16>::empty(),
            sound.bitrate == (match bitrate {
                Some(rate) => rate,
                None => DEFAULT_BITRATE,
            }),
            sound.wf(),
    {
        let rate = match bitrate {
            Some(rate) => rate,
            None => DEFAULT_BITRATE,
        };
        Sound { data: Vec::new(), bitrate: rate }
    }

    /// Whether [`Sound::overlay_at`] can take `other` at `time`.
    pub fn can_overlay_at(&self, other: &Sound, time: i64) -> (fits: bool)
        ensures
            fits == fits_at(other.data@.len(), self.bitrate, time),
    {
        let start = sample_index_of(time, self.bitrate);
        start <= usize::MAX as u128 && other.data.len() as u128 <= usize::MAX as u128 - start
    }

    /// Whether [`Sound::overlay_loop`] can fill a span up to `end`.
    pub fn can_overlay_loop(&self, end: i64) -> (fits: bool)
        ensures
            fits == fits_loop(self.bitrate, end),
    {
        sample_index_of(end, self.bitrate) <= usize::MAX as u128
    }

    /// Whether [`Sound::overlay_until`] can take `sound` from `start` to
    /// `end`.
    pub fn can_overlay_until(&self, sound: &Sound, start: i64, end: i64) -> (fits: bool)
        ensures
            fits == fits_until(sound.data@.len(), self.bitrate, start, end),
    {
        let from = sample_index_of(start, self.bitrate);
        let to = sample_index_of(end, self.bitrate);
        let count: u128 = if to <= from {
            0
        } else if to - from < sound.data.len() as u128 {
            to - from
        } else {
            sound.data.len() as u128
        };
        from <= usize::MAX as u128 && count <= usize::MAX as u128 - from
    }

    /// Mixes all of `other` into the buffer, starting at `time`.
    ///
    /// The buffer is grown with silence to hold the whole of `other`; samples
    /// outside the written region keep their values.
    pub fn overlay_at(self, other: &Sound, time: i64) -> (out: Sound)
        requires
            fits_at(other.data@.len(), self.bitrate, time),
        ensures
            out.bitrate == self.bitrate,
            out.data@ == mixed_at(self.data@, other.data@, self.bitrate, time),
            self.wf() && other.wf() ==> out.wf(),
    {
        proof {
            lemma_sample_index(time, self.bitrate);
        }
        let start = sample_index_of(time, self.bitrate) as usize;
        let mut data = self.data;
        mix_into(&mut data, &other.data, start, other.data.len());
        Sound { data, bitrate: self.bitrate }
    }

    /// Fills the span from `start` to `end` with `other`, repeated from its
    /// beginning as often as the span is long.
    ///
    /// The buffer is grown with silence to reach `end`. An empty clip, or a
    /// span that ends at or before its start, writes nothing.
    pub fn overlay_loop(self, other: &Sound, start: i64, end: i64) -> (out: Sound)
        requires
            fits_loop(self.bitrate, end),
        ensures
            out.bitrate == self.bitrate,
            out.data@ == mixed_loop(self.data@, other.data@, self.bitrate, start, end),
            self.wf() ==> out.wf(),
    {
        proof {
            lemma_sample_index(start, self.bitrate);
            lemma_sample_index(end, self.bitrate);
        }
        let from = sample_index_of(start, self.bitrate);
        let to = sample_index_of(end, self.bitrate);
        let mut data = self.data;
        if other.data.len() == 0 || to <= from {
            mix_into(&mut data, &other.data, to as usize, 0);
        } else {
            mix_into(&mut data, &other.data, from as usize, (to - from) as usize);
        }
        Sound { data, bitrate: self.bitrate }
    }

    /// Mixes `sound` in at `start`, cut off where `end` begins.
    ///
    /// Exactly the samples from the index of `start` up to, and not including,
    /// the index of `end` are written, or fewer where the clip is shorter. No
    /// sample at or after the index of `end` changes, and the buffer never
    /// shrinks.
    pub fn overlay_until(self, sound: &Sound, start: i64, end: i64) -> (out: Sound)
        requires
            fits_until(sound.data@.len(), self.bitrate, start, end),
        ensures
            out.bitrate == self.bitrate,
            out.data@ == mixed_until(self.data@, sound.data@, self.bitrate, start, end),
            forall|i: int|
                sample_index(end, self.bitrate) <= i < out.data@.len() ==> out.data@[i]
                    == sample_or_silence(self.data@, i),
            self.wf() && sound.wf() ==> out.wf(),
    {
        proof {
            lemma_sample_index(start, self.bitrate);
            lemma_sample_index(end, self.bitrate);
        }
        let from = sample_index_of(start, self.bitrate);
        let to = sample_index_of(end, self.bitrate);
        let count: usize = if to <= from {
            0
        } else if to - from < sound.data.len() as u128 {
            (to - from) as usize
        } else {
            sound.data.len()
        };
        let mut data = self.data;
        mix_into(&mut data, &sound.data, from as usize, count);
        Sound { data, bitrate: self.bitrate }
    }

    /// Multiplies every sample by `factor` millionths.
    ///
    /// Products are rounded toward zero; one that leaves the sample range is
    /// clipped to it.
    pub fn scale(self, factor: i64) -> (out: Sound)
        ensures
            out.bitrate == self.bitrate,
            out.data@.len() == self.data@.len(),
            forall|i: int| 0 <= i < self.data@.len() ==> out.data@[i] == scaled_sample(self.data@[i], factor),
            self.wf() ==> out.wf(),
    {
        let mut data = self.data;
        let ghost before = data@;
        let mut i: usize = 0;
        while i < data.len()
            invariant
                i <= data@.len(),
                data@.len() == before.len(),
                forall|k: int| 0 <= k < i ==> data@[k] == scaled_sample(before[k], factor),
                forall|k: int| i <= k < data@.len() ==> data@[k] == before[k],
            decreases data@.len() - i,
        {
            let a = data[i];
            assert(-0x8000 * 0x8000_0000_0000_0000 <= a as int * factor as int <= 0x8000
                * 0x8000_0000_0000_0000) by (nonlinear_arith)
                requires
                    -0x8000 <= a < 0x8000,
                    -0x8000_0000_0000_0000 <= factor < 0x8000_0000_0000_0000,
            ;
            let product: i128 = (a as i128) * (factor as i128);
            let exact: i128 = product / 1_000_000;
            let scaled: i16 = if exact > 32767 {
                32767
            } else if exact < -32768 {
                -32768
            } else {
                exact as i16
            };
            data.set(i, scaled);
            i = i + 1;
        }
        Sound { data, bitrate: self.bitrate }
    }

    /// Reads raw little-endian samples, as a decoder emits them, at
    /// [`DEFAULT_BITRATE`].
    pub fn from_pcm_bytes(bytes: &[u8]) -> (sound: Sound)
        ensures
            sound.bitrate == DEFAULT_BITRATE,
            sound.data@ == samples_from_le(bytes@),
            bytes@.len() % 4 == 0 ==> sound.wf(),
    {
        let mut data: Vec<i16> = Vec::new();
        let pairs = bytes.len() / 2;
        let mut i: usize = 0;
        while i < pairs
            invariant
                i <= pairs,
                pairs == bytes@.len() / 2,
                data@.len() == i,
                forall|k: int| 0 <= k < i ==> data@[k] == sample_from_le(bytes@[2 * k], bytes@[2 * k + 1]),
            decreases pairs - i,
        {
            assert(2 * i + 1 < bytes.len());
            let lo = bytes[2 * i];
            let hi = bytes[2 * i + 1];
            let unsigned: i32 = lo as i32 + 256 * (hi as i32);
            let sample: i16 = if unsigned >= 32768 {
                (unsigned - 65536) as i16
            } else {
                unsigned as i16
            };
            data.push(sample);
            i = i + 1;
        }
        assert(data@ =~= samples_from_le(bytes@));
        Sound { data, bitrate: DEFAULT_BITRATE }
    }

    /// Writes the samples out as raw little-endian bytes, as an encoder
    /// takes them.
    pub fn to_pcm_bytes(&self) -> (bytes: Vec<u8>)
        ensures
            bytes@ == samples_to_le(self.data@),
    {
        let mut bytes: Vec<u8> = Vec::new();
        let mut i: usize = 0;
        while i < self.data.len()
            invariant
                i <= self.data@.len(),
                bytes@.len() == 2 * i,
                forall|k: int| 0 <= k < 2 * i ==> bytes@[k] == samples_to_le(self.data@)[k],
            decreases self.data@.len() - i,
        {
            let a = self.data[i];
            let unsigned: i32 = if a < 0 {
                a as i32 + 65536
            } else {
                a as i32
            };
            bytes.push((unsigned % 256) as u8);
            bytes.push((unsigned / 256) as u8);
            i = i + 1;
        }
        assert(bytes@ =~= samples_to_le(self.data@));
        bytes
    }
}

} // verus!
