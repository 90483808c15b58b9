//! A take: how much of what arrives is kept, whether it is one at all, how loud
//! it is, and where each sample of the resampled take comes from.

use crate::audio::SAMPLE_RATE;
use vstd::prelude::*;

verus! {

/// How many samples the longest take has at this rate: those of ten minutes.
pub fn take_cap(rate: u32) -> (r: u64)
    ensures
        r == rate * 600,
{
    rate as u64 * 600
}

/// The smaller of two numbers.
pub open spec fn at_most(a: int, b: int) -> int {
    if a <= b {
        a
    } else {
        b
    }
}

/// How many more samples a take of `have` samples may get.
pub open spec fn room(have: int, max: int) -> int {
    if have >= max {
        0
    } else {
        max - have
    }
}

/// How many whole frames `len` samples make.
pub open spec fn frames_in(len: int, channels: u16) -> int {
    if channels <= 1 {
        len
    } else {
        len / channels as int
    }
}

/// Append what arrived to the take, mixed down to one channel by `mix`, without
/// letting the take grow beyond `max_samples`. Says whether anything was
/// dropped.
pub fn append_capped<T: Copy, F: Fn(&[T]) -> T>(
    buf: &mut Vec<T>,
    data: &[T],
    channels: u16,
    max_samples: usize,
    mix: F,
) -> (dropped: bool)
    requires
        forall|frame: &[T]| frame@.len() == channels && channels > 1 ==> #[trigger] mix.requires(
            (frame,),
        ),
    ensures
        ({
            let frames = frames_in(data@.len() as int, channels);
            let n = at_most(frames, room(old(buf)@.len() as int, max_samples as int));
            &&& dropped == (n < frames)
            &&& final(buf)@.len() == old(buf)@.len() + n
            &&& final(buf)@.take(old(buf)@.len() as int) == old(buf)@
            &&& channels <= 1 ==> final(buf)@ == old(buf)@ + data@.take(n)
            &&& channels > 1 ==> forall|k: int|
                0 <= k < n ==> mixed_from(
                    mix,
                    data@,
                    channels as int,
                    k,
                    #[trigger] final(buf)@[old(buf)@.len() + k],
                )
        }),
{
    let ghost start = buf@;
    let remaining: usize = max_samples.saturating_sub(buf.len());
    if channels <= 1 {
        let n: usize = if data.len() <= remaining {
            data.len()
        } else {
            remaining
        };
        for k in 0..n
            invariant
                n <= data@.len(),
                buf@ == start + data@.take(k as int),
        {
            buf.push(data[k]);
            assert(data@.take(k + 1) == data@.take(k as int).push(data@[k as int]));
        }
        n < data.len()
    } else {
        let ch: usize = channels as usize;
        let frames: usize = data.len() / ch;
        let n: usize = if frames <= remaining {
            frames
        } else {
            remaining
        };
        proof {
            assert(frames * ch <= data@.len()) by (nonlinear_arith)
                requires
                    ch > 0,
                    frames == data@.len() / ch as nat,
            ;
        }
        let mut at: usize = 0;
        assert(0 * ch == 0) by (nonlinear_arith);
        for k in 0..n
            invariant
                forall|frame: &[T]|
                    frame@.len() == channels && channels > 1 ==> #[trigger] mix.requires((frame,)),
                channels > 1,
                ch == channels,
                n <= frames,
                frames * ch <= data@.len(),
                at == k * ch,
                buf@.len() == start.len() + k,
                buf@.take(start.len() as int) == start,
                forall|j: int|
                    0 <= j < k ==> mixed_from(
                        mix,
                        data@,
                        channels as int,
                        j,
                        #[trigger] buf@[start.len() + j],
                    ),
        {
            proof {
                assert((k + 1) * ch <= frames * ch) by (nonlinear_arith)
                    requires
                        k + 1 <= frames,
                        ch > 0,
                ;
                assert((k + 1) * ch == k * ch + ch) by (nonlinear_arith);
            }
            let len: usize = data.len();
            assert(at + ch <= len);
            let frame = vstd::slice::slice_subrange(data, at, at + ch);
            assert(frame@ == data@.subrange(k * channels as int, (k + 1) * channels as int));
            let sample = mix(frame);
            assert(mixed_from(mix, data@, channels as int, k as int, sample));
            let ghost was = buf@;
            buf.push(sample);
            assert forall|j: int| 0 <= j < k + 1 implies mixed_from(
                mix,
                data@,
                channels as int,
                j,
                #[trigger] buf@[start.len() + j],
            ) by {
                if j < k {
                    assert(buf@[start.len() + j] == was[start.len() + j]);
                }
            }
            assert(buf@.take(start.len() as int) == start);
            at = at + ch;
        }
        n < frames
    }
}

/// Whether `sample` may be what `mix` makes of the frame number `k`.
pub open spec fn mixed_from<T, F: Fn(&[T]) -> T>(
    mix: F,
    data: Seq<T>,
    channels: int,
    k: int,
    sample: T,
) -> bool {
    exists|frame: &[T]|
        frame@ == data.subrange(k * channels, (k + 1) * channels) && #[trigger] mix.ensures(
            (frame,),
            sample,
        )
}

// ---- resampling -------------------------------------------------------------

/// How many samples `len` samples at the rate `sr` are at 16 kHz, rounded to the
/// nearest, a half up.
pub open spec fn resampled_len(len: nat, sr: u32) -> nat
    recommends
        sr > 0,
{
    ((2 * len * 16_000 + sr) / (2 * sr as nat) as int) as nat
}

/// Between which two samples of `len` the sample `j` of `n` lies: it lies behind
/// this one.
pub open spec fn site(j: int, len: int, n: int) -> int {
    j * len / n
}

/// How far behind it, in parts of `n`.
pub open spec fn offset(j: int, len: int, n: int) -> int {
    j * len % n
}

/// Whether `out` may be the sample `j` of a take resampled to `n` samples: the
/// last sample where there is none behind its place, else what `mix` makes of
/// the two samples round it and of how far it lies behind the first.
pub open spec fn resampled_from<T, F: Fn(T, T, u64, u64) -> T>(
    mix: F,
    audio: Seq<T>,
    n: int,
    j: int,
    out: T,
) -> bool {
    let i = site(j, audio.len() as int, n);
    if i + 1 >= audio.len() {
        out == audio.last()
    } else {
        mix.ensures(
            (audio[i], audio[i + 1], offset(j, audio.len() as int, n) as u64, n as u64),
            out,
        )
    }
}

/// A place on the take, and the rest of the division that gives it.
proof fn lemma_site(j: int, len: int, n: int)
    requires
        0 <= j < n,
        0 < len,
    ensures
        0 <= site(j, len, n) < len,
        0 <= offset(j, len, n) < n,
        0 <= j * len,
{
    assert(0 <= j * len) by (nonlinear_arith)
        requires
            0 <= j,
            0 < len,
    ;
    assert(j * len < n * len) by (nonlinear_arith)
        requires
            j < n,
            0 < len,
    ;
    assert(0 <= j * len / n < len) by (nonlinear_arith)
        requires
            0 <= j * len,
            j * len < n * len,
            0 < n,
    ;
    assert(0 <= j * len % n < n) by (nonlinear_arith)
        requires
            0 < n,
    ;
}

/// The take at 16 kHz: as it is where it has that rate already, else each sample
/// mixed by `mix` from the two round its place, of which `mix` also gets how far
/// the place lies behind the first, as a numerator and a denominator.
pub fn resample_to_16k<T: Copy, F: Fn(T, T, u64, u64) -> T>(audio: &[T], sr: u32, mix: F) -> (out:
    Vec<T>)
    requires
        sr > 0,
        resampled_len(audio@.len(), sr) <= usize::MAX,
        forall|a: T, b: T, num: u64, den: u64| num < den ==> #[trigger] mix.requires((a, b, num, den)),
    ensures
        sr == SAMPLE_RATE ==> out@ == audio@,
        sr != SAMPLE_RATE ==> {
            let n = if audio@.len() == 0 {
                0
            } else {
                resampled_len(audio@.len(), sr)
            };
            out@.len() == n && forall|j: int|
                0 <= j < n ==> resampled_from(mix, audio@, n as int, j, #[trigger] out@[j])
        },
        -(sr as int) <= 2 * out@.len() * sr - 2 * audio@.len() * 16_000 <= sr,
{
    let mut out: Vec<T> = Vec::new();
    proof {
        law_resampled_takes_last_as_long(audio@.len(), sr, 0);
    }
    if sr == SAMPLE_RATE {
        for k in 0..audio.len()
            invariant
                out@ == audio@.take(k as int),
        {
            out.push(audio[k]);
            assert(audio@.take(k + 1) == audio@.take(k as int).push(audio@[k as int]));
        }
        assert(audio@.take(audio@.len() as int) == audio@);
        return out;
    }
    let len: usize = audio.len();
    let rounded: u128 = (2 * len as u128 * 16_000 + sr as u128) / (2 * sr as u128);
    let n: usize = rounded as usize;
    assert(n == resampled_len(audio@.len(), sr));
    if n == 0 || len == 0 {
        return out;
    }
    for j in 0..n
        invariant
            len == audio@.len(),
            len > 0,
            n > 0,
            forall|a: T, b: T, num: u64, den: u64|
                num < den ==> #[trigger] mix.requires((a, b, num, den)),
            out@.len() == j,
            forall|k: int| 0 <= k < j ==> resampled_from(mix, audio@, n as int, k, #[trigger] out@[k]),
    {
        proof {
            lemma_site(j as int, len as int, n as int);
            assert(j * len <= 0xffff_ffff_ffff_ffff * 0xffff_ffff_ffff_ffff) by (nonlinear_arith)
                requires
                    0 <= j <= 0xffff_ffff_ffff_ffff,
                    0 <= len <= 0xffff_ffff_ffff_ffff,
            ;
        }
        let product: u128 = j as u128 * len as u128;
        let i: usize = (product / n as u128) as usize;
        let num: u64 = (product % n as u128) as u64;
        let sample = if i + 1 >= len {
            audio[len - 1]
        } else {
            mix(audio[i], audio[i + 1], num, n as u64)
        };
        assert(resampled_from(mix, audio@, n as int, j as int, sample));
        out.push(sample);
    }
    out
}

/// Whether a take of so many samples at this rate is too short to be one: under
/// three tenths of a second.
pub fn too_short(samples: usize, rate: u32) -> (r: bool)
    ensures
        r == (10 * samples < 3 * rate),
{
    (samples as u128) * 10 < (rate as u128) * 3
}

// ---- the level --------------------------------------------------------------

/// The size of a sample that is given by the 32 bits of its number: its bits
/// without the sign, which order such numbers as their sizes do; nought where it
/// is no number.
pub open spec fn magnitude(bits: u32) -> u32 {
    let m = (bits % 0x8000_0000) as u32;
    if m <= 0x7f80_0000 {
        m
    } else {
        0
    }
}

/// The largest size among samples.
pub open spec fn peak_of(samples: Seq<u32>) -> u32
    decreases samples.len(),
{
    if samples.len() == 0 {
        0
    } else {
        let before = peak_of(samples.drop_last());
        let m = magnitude(samples.last());
        if m > before {
            m
        } else {
            before
        }
    }
}

/// The loudest moment since the meter was last read. Samples are given by the 32
/// bits of their numbers.
#[derive(Debug, PartialEq, Eq)]
pub struct LevelMeter {
    pub peak: u32,
}

impl LevelMeter {
    /// A silent meter.
    pub fn new() -> (r: LevelMeter)
        ensures
            r.peak == 0,
    {
        LevelMeter { peak: 0 }
    }

    /// Take in what arrived.
    pub fn fold(&mut self, samples: &[u32])
        ensures
            final(self).peak == if peak_of(samples@) > old(self).peak {
                peak_of(samples@)
            } else {
                old(self).peak
            },
    {
        let mut peak: u32 = 0;
        for i in 0..samples.len()
            invariant
                peak == peak_of(samples@.take(i as int)),
        {
            assert(samples@.take(i + 1).drop_last() == samples@.take(i as int));
            let m: u32 = samples[i] % 0x8000_0000;
            if m <= 0x7f80_0000 && m > peak {
                peak = m;
            }
        }
        assert(samples@.take(samples@.len() as int) == samples@);
        if peak > self.peak {
            self.peak = peak;
        }
    }

    /// The loudest moment since this was last asked.
    pub fn take_peak(&mut self) -> (r: u32)
        ensures
            r == old(self).peak,
            final(self).peak == 0,
    {
        let r: u32 = self.peak;
        self.peak = 0;
        r
    }
}

impl Default for LevelMeter {
    fn default() -> (r: LevelMeter)
        ensures
            r.peak == 0,
    {
        LevelMeter::new()
    }
}

// ---- laws -------------------------------------------------------------------

/// A take never grows beyond its cap: however many samples arrive, one that was
/// within it stays within it.
pub proof fn law_takes_stay_within_the_cap(have: int, arriving: int, max: int)
    requires
        0 <= have <= max,
        0 <= arriving,
    ensures
        have + at_most(arriving, room(have, max)) <= max,
{
}

/// Every place of a resampled take lies on the take, the first one at its start
/// and none before that of the sample before it.
pub proof fn law_resampling_reads_the_take_in_order(j: int, len: int, n: int)
    requires
        0 <= j < n,
        0 < len,
    ensures
        0 <= site(j, len, n) < len,
        j > 0 ==> site(j - 1, len, n) <= site(j, len, n),
        site(0, len, n) == 0,
{
    lemma_site(j, len, n);
    assert(0 * len / n == 0) by (nonlinear_arith)
        requires
            0 < n,
    ;
    if j > 0 {
        assert((j - 1) * len <= j * len) by (nonlinear_arith)
            requires
                0 < len,
        ;
        vstd::arithmetic::div_mod::lemma_div_is_ordered((j - 1) * len, j * len, n);
    }
}

/// A take that lasts at least three tenths of a second is not too short.
pub proof fn law_tenths_of_seconds(tenths: int, rate: u32)
    requires
        rate % 10 == 0,
        0 <= tenths,
    ensures
        10 * (tenths * (rate / 10)) < 3 * rate <==> tenths < 3 && rate > 0,
{
    let tenth = (rate / 10) as int;
    assert(rate == 10 * tenth);
    assert(tenths * tenth < 3 * tenth <==> tenths < 3 && tenth > 0) by (nonlinear_arith)
        requires
            0 <= tenth,
            0 <= tenths,
    ;
}

/// The peak is the size of one of the samples, and no sample is larger.
pub proof fn law_peak_is_the_largest(samples: Seq<u32>)
    ensures
        forall|i: int| 0 <= i < samples.len() ==> magnitude(#[trigger] samples[i]) <= peak_of(samples),
        peak_of(samples) > 0 ==> exists|i: int|
            0 <= i < samples.len() && magnitude(#[trigger] samples[i]) == peak_of(samples),
    decreases samples.len(),
{
    if samples.len() > 0 {
        let front = samples.drop_last();
        law_peak_is_the_largest(front);
        assert forall|i: int| 0 <= i < samples.len() implies magnitude(#[trigger] samples[i])
            <= peak_of(samples) by {
            if i < front.len() {
                assert(magnitude(front[i]) <= peak_of(front));
            }
        }
        if peak_of(samples) > 0 {
            if peak_of(samples) == peak_of(front) && peak_of(front) > 0 {
                let i = choose|i: int|
                    0 <= i < front.len() && magnitude(#[trigger] front[i]) == peak_of(front);
                assert(samples[i] == front[i]);
            } else {
                assert(magnitude(samples[samples.len() - 1]) == peak_of(samples));
            }
        }
    }
}

/// The resampled take lasts as long as the take: its samples at 16 kHz are within half
/// a sample of it. So whole seconds stay whole seconds.
pub proof fn law_resampled_takes_last_as_long(len: nat, sr: u32, seconds: nat)
    requires
        sr > 0,
    ensures
        -(sr as int) <= 2 * resampled_len(len, sr) * sr - 2 * len * 16_000 <= sr,
        resampled_len(sr as nat * seconds, sr) == 16_000 * seconds,
        resampled_len(len, 16_000) == len,
        resampled_len(0, sr) == 0,
{
    let x = 2 * len * 16_000 + sr;
    let d = 2 * sr as int;
    vstd::arithmetic::div_mod::lemma_fundamental_div_mod(x, d);
    let n = x / d;
    assert(0 <= n) by (nonlinear_arith)
        requires
            x >= 0,
            d > 0,
            n == x / d,
    ;
    assert(0 <= x % d < d) by (nonlinear_arith)
        requires
            d > 0,
    ;
    assert(d * n == 2 * n * sr) by (nonlinear_arith)
        requires
            d == 2 * sr,
    ;
    let k = seconds as int;
    let y = 2 * (sr * k) * 16_000 + sr;
    assert(sr as nat * seconds == sr * k);
    assert(y == (16_000 * k) * d + sr) by (nonlinear_arith)
        requires
            d == 2 * sr,
            y == 2 * (sr * k) * 16_000 + sr,
    ;
    vstd::arithmetic::div_mod::lemma_fundamental_div_mod_converse(y, d, 16_000 * k, sr as int);
    vstd::arithmetic::div_mod::lemma_fundamental_div_mod_converse(sr as int, d, 0, sr as int);
    vstd::arithmetic::div_mod::lemma_fundamental_div_mod_converse(
        32_000 * (len as int) + 16_000,
        32_000,
        len as int,
        16_000,
    );
}

/// The place of a sample on the take is where its time is: it lies between the sample
/// in front of it and the next one, and what is mixed are these two, by how far it
/// lies behind the first.
pub proof fn law_samples_keep_their_time<T, F: Fn(T, T, u64, u64) -> T>(
    mix: F,
    audio: Seq<T>,
    n: int,
    j: int,
    i: int,
    behind: int,
    out: T,
)
    requires
        0 <= j < n <= u64::MAX,
        0 <= i < audio.len(),
        0 <= behind < n,
        j * audio.len() == i * n + behind,
        resampled_from(mix, audio, n, j, out),
    ensures
        i == audio.len() - 1 ==> out == audio[i],
        i < audio.len() - 1 ==> mix.ensures((audio[i], audio[i + 1], behind as u64, n as u64), out),
{
    let x = j * audio.len();
    vstd::arithmetic::div_mod::lemma_fundamental_div_mod_converse(x, n, i, behind);
}

/// A frame holds one sample of every channel; what is left over is no frame.
pub proof fn law_frames_are_whole(len: int, channels: u16)
    requires
        len >= 0,
    ensures
        channels <= 1 ==> frames_in(len, channels) == len,
        channels > 1 ==> frames_in(len, channels) * channels <= len < (frames_in(len, channels) + 1)
            * channels,
{
    if channels > 1 {
        let c = channels as int;
        let q = len / c;
        assert(q * c <= len < (q + 1) * c) by (nonlinear_arith)
            requires
                q == len / c,
                c > 1,
        ;
    }
}

/// A sample is mixed from the samples of its own frame, one of every channel, in order.
pub proof fn law_frames_are_mixed_one_by_one<T, F: Fn(&[T]) -> T>(
    mix: F,
    data: Seq<T>,
    channels: int,
    k: int,
    sample: T,
)
    requires
        0 <= k,
        0 < channels,
        (k + 1) * channels <= data.len(),
        mixed_from(mix, data, channels, k, sample),
    ensures
        exists|frame: &[T]| #[trigger]
            mix.ensures((frame,), sample) && frame@.len() == channels && forall|i: int|
                0 <= i < channels ==> #[trigger] frame@[i] == data[k * channels + i],
{
    let frame = choose|frame: &[T]|
        frame@ == data.subrange(k * channels, (k + 1) * channels) && #[trigger] mix.ensures(
            (frame,),
            sample,
        );
    assert(k * channels >= 0 && (k + 1) * channels - k * channels == channels) by (nonlinear_arith)
        requires
            k >= 0,
            channels > 0,
    ;
    assert(mix.ensures((frame,), sample));
}

/// How loud a sample is does not depend on its sign, a louder one has the larger number,
/// and what is no number is silent.
pub proof fn law_the_sign_makes_no_sound(bits: u32)
    requires
        bits < 0x8000_0000,
    ensures
        magnitude((bits + 0x8000_0000) as u32) == magnitude(bits),
        bits <= 0x7f80_0000 ==> magnitude(bits) == bits,
        bits > 0x7f80_0000 ==> magnitude(bits) == 0,
{
}

} // verus!
