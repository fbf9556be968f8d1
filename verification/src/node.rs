//! The volume node: a gain that is applied to every sample of an interleaved
//! audio buffer, with a linear ramp between the gain of the previous buffer
//! and a newly set gain.

use vstd::prelude::*;
use vstd::arithmetic::div_mod::lemma_fundamental_div_mod_converse;
use crate::fixed::{
    flat_sample, lemma_tdiv_bound, ramp_sample, scale_sample, GAIN_LIMIT, GAIN_ONE, SAMPLE_LIMIT,
};

verus! {

/// A node that multiplies the amplitude of its input buffers by the held
/// gain, fading a gain change in over [`Volume::interpolation_ms`]
/// milliseconds to avoid clipping.
#[derive(Copy, Clone, Debug)]
pub struct Volume {
    /// The gain that was in effect at the end of the previously processed
    /// buffer; `None` before the first buffer is processed.
    pub maybe_prev: Option<i64>,
    /// The gain to apply from now on, in [`GAIN_ONE`] units.
    pub current: i64,
    /// How long a gain change is faded in, in milliseconds. A duration of
    /// zero or less disables ramping.
    pub interpolation_ms: i64,
}

/// The node's gains and duration lie within the bounds that processing
/// accepts.
pub open spec fn bounded(v: Volume) -> bool {
    &&& -GAIN_LIMIT <= v.current <= GAIN_LIMIT
    &&& (v.maybe_prev matches Some(p) ==> -GAIN_LIMIT <= p <= GAIN_LIMIT)
    &&& -0x7FFF_FFFF <= v.interpolation_ms <= 0x7FFF_FFFF
}

/// A ramp is performed exactly when a previous gain exists, it differs from
/// the current gain, and the configured duration is positive.
pub open spec fn ramp_needed(v: Volume) -> bool {
    v.maybe_prev matches Some(p) && p != v.current && v.interpolation_ms > 0
}

/// The configured ramp duration converted to a whole number of frames at
/// the given sample rate.
pub open spec fn duration_frames(ms: int, rate: int) -> int {
    ms * rate / 1000
}

/// How many frames of a buffer of `fc` frames the ramp occupies: the
/// configured duration clamped to the buffer, or zero when no ramp is
/// needed.
pub open spec fn ramp_len(v: Volume, rate: int, fc: int) -> int {
    if ramp_needed(v) {
        let d = duration_frames(v.interpolation_ms as int, rate);
        if d < fc {
            d
        } else {
            fc
        }
    } else {
        0
    }
}

/// The node's state after a buffer is processed: the current gain becomes
/// the previous gain, and nothing else changes.
pub open spec fn after_process(v: Volume) -> Volume {
    Volume { maybe_prev: Some(v.current), current: v.current, interpolation_ms: v.interpolation_ms }
}

/// What processing a buffer makes of the sample `s` at interleaved index
/// `i`: a ramped sample while a ramp is running, a flat-scaled sample
/// otherwise.
pub open spec fn expected_sample(v: Volume, rate: int, fc: int, cc: int, i: int, s: int) -> int {
    let n = ramp_len(v, rate, fc);
    if n > 0 {
        ramp_sample(v.maybe_prev.unwrap() as int, v.current as int, n, cc, i, s)
    } else {
        flat_sample(v.current as int, s)
    }
}

impl Volume {
    /// A new default volume: unity gain (no impact on the signal), no
    /// previous gain, and a 10 ms ramp, just enough to avoid clipping.
    pub fn new() -> (v: Volume)
        ensures
            v.maybe_prev is None,
            v.current == GAIN_ONE,
            v.interpolation_ms == 10,
    {
        Volume { maybe_prev: None, current: GAIN_ONE, interpolation_ms: 10 }
    }

    /// Builder: this volume with the given gain, in [`GAIN_ONE`] units.
    pub fn volume(self, volume: i64) -> (v: Volume)
        ensures
            v.current == volume,
            v.maybe_prev == self.maybe_prev,
            v.interpolation_ms == self.interpolation_ms,
    {
        Volume { current: volume, ..self }
    }

    /// Builder: this volume with the given ramp duration in milliseconds.
    pub fn interpolation_ms(self, ms: i64) -> (v: Volume)
        ensures
            v.interpolation_ms == ms,
            v.current == self.current,
            v.maybe_prev == self.maybe_prev,
    {
        Volume { interpolation_ms: ms, ..self }
    }

    /// Set the new current gain, in [`GAIN_ONE`] units. The previous gain is
    /// untouched, so the next processed buffer ramps toward the new gain.
    pub fn set(&mut self, volume: i64)
        ensures
            final(self).current == volume,
            final(self).maybe_prev == old(self).maybe_prev,
            final(self).interpolation_ms == old(self).interpolation_ms,
    {
        self.current = volume;
    }

    /// Process one interleaved buffer of `frame_count` frames of
    /// `channel_count` samples each, delivered at `sample_rate_hz`.
    ///
    /// When the previous buffer ended at a different gain and ramping is
    /// enabled, the first [`ramp_len`] frames fade linearly from the
    /// previous gain toward the current one and the rest of the buffer
    /// holds the ramp's terminal gain; otherwise the whole buffer is scaled
    /// flat by the current gain. Afterwards the current gain is recorded as
    /// the previous gain, whichever path was taken.
    pub fn process(
        &mut self,
        buffer: &mut Vec<i64>,
        frame_count: usize,
        channel_count: usize,
        sample_rate_hz: u32,
    )
        requires
            bounded(*old(self)),
            1 <= frame_count <= 0x1_0000_0000,
            1 <= channel_count,
            frame_count * channel_count == old(buffer)@.len(),
            forall|j: int|
                0 <= j < old(buffer)@.len() ==> -SAMPLE_LIMIT <= #[trigger] old(buffer)@[j]
                    <= SAMPLE_LIMIT,
        ensures
            *final(self) == after_process(*old(self)),
            final(buffer)@.len() == old(buffer)@.len(),
            forall|i: int|
                0 <= i < old(buffer)@.len() ==> #[trigger] final(buffer)@[i] == expected_sample(
                    *old(self),
                    sample_rate_hz as int,
                    frame_count as int,
                    channel_count as int,
                    i,
                    old(buffer)@[i] as int,
                ),
    {
        let needed: bool = match self.maybe_prev {
            Some(p) => p != self.current && self.interpolation_ms > 0,
            None => false,
        };
        if needed {
            let prev: i64 = self.maybe_prev.unwrap();
            let ms: i64 = self.interpolation_ms;
            assert((ms as int) * (sample_rate_hz as int) <= 0x7FFF_FFFF * 0xFFFF_FFFF
                && 0 <= (ms as int) * (sample_rate_hz as int)) by (nonlinear_arith)
                requires
                    0 <= ms as int <= 0x7FFF_FFFF,
                    0 <= sample_rate_hz as int <= 0xFFFF_FFFF,
            ;
            let dur: u64 = (ms as u64) * (sample_rate_hz as u64) / 1000;
            let n: usize = if dur < frame_count as u64 {
                dur as usize
            } else {
                frame_count
            };
            if n >= 1 {
                ramp_scale_buffer(buffer, prev, self.current, n, frame_count, channel_count);
            } else {
                flat_scale_buffer(buffer, self.current);
            }
        } else {
            flat_scale_buffer(buffer, self.current);
        }
        self.maybe_prev = Some(self.current);
    }
}

/// Scale every sample of the buffer flat by `gain`, in [`GAIN_ONE`] units.
pub fn flat_scale_buffer(buffer: &mut Vec<i64>, gain: i64)
    requires
        -GAIN_LIMIT <= gain <= GAIN_LIMIT,
        forall|j: int|
            0 <= j < old(buffer)@.len() ==> -SAMPLE_LIMIT <= #[trigger] old(buffer)@[j]
                <= SAMPLE_LIMIT,
    ensures
        final(buffer)@.len() == old(buffer)@.len(),
        forall|i: int|
            0 <= i < old(buffer)@.len() ==> #[trigger] final(buffer)@[i] == flat_sample(
                gain as int,
                old(buffer)@[i] as int,
            ),
{
    let ghost orig = buffer@;
    let mut i: usize = 0;
    while i < buffer.len()
        invariant
            buffer@.len() == orig.len(),
            i <= orig.len(),
            -GAIN_LIMIT <= gain <= GAIN_LIMIT,
            forall|j: int|
                0 <= j < orig.len() ==> -SAMPLE_LIMIT <= #[trigger] orig[j] <= SAMPLE_LIMIT,
            forall|j: int| i <= j < orig.len() ==> #[trigger] buffer@[j] == orig[j] as int,
            forall|j: int|
                0 <= j < i ==> #[trigger] buffer@[j] == flat_sample(gain as int, orig[j] as int),
        decreases orig.len() - i,
    {
        let s: i64 = buffer[i];
        assert(-0x1_0000_0000_0000_0000 <= (s as int) * (gain as int)
            <= 0x1_0000_0000_0000_0000) by (nonlinear_arith)
            requires
                -0x1_0000_0000 <= s as int <= 0x1_0000_0000,
                -0x1_0000_0000 <= gain as int <= 0x1_0000_0000,
        ;
        proof {
            lemma_tdiv_bound((s as int) * (gain as int), GAIN_ONE as int, 0x1_0000_0000_0000);
        }
        let r: i64 = scale_sample(s, gain as i128, GAIN_ONE as i128);
        buffer.set(i, r);
        i += 1;
    }
}

/// Scale the buffer with a ramp of `n` frames from `prev` toward `cur`; all
/// frames at or past `n` hold the ramp's terminal gain.
pub fn ramp_scale_buffer(
    buffer: &mut Vec<i64>,
    prev: i64,
    cur: i64,
    n: usize,
    frame_count: usize,
    channel_count: usize,
)
    requires
        -GAIN_LIMIT <= prev <= GAIN_LIMIT,
        -GAIN_LIMIT <= cur <= GAIN_LIMIT,
        1 <= n <= frame_count <= 0x1_0000_0000,
        1 <= channel_count,
        frame_count * channel_count == old(buffer)@.len(),
        forall|j: int|
            0 <= j < old(buffer)@.len() ==> -SAMPLE_LIMIT <= #[trigger] old(buffer)@[j]
                <= SAMPLE_LIMIT,
    ensures
        final(buffer)@.len() == old(buffer)@.len(),
        forall|i: int|
            0 <= i < old(buffer)@.len() ==> #[trigger] final(buffer)@[i] == ramp_sample(
                prev as int,
                cur as int,
                n as int,
                channel_count as int,
                i,
                old(buffer)@[i] as int,
            ),
{
    let ghost orig = buffer@;
    let diff: i64 = cur - prev;
    let den: i128 = (n as i128) * (GAIN_ONE as i128);
    let total: usize = buffer.len();
    let mut i: usize = 0;
    let mut f: usize = 0;
    let mut c: usize = 0;
    while i < total
        invariant
            total == orig.len(),
            buffer@.len() == orig.len(),
            i <= total,
            i == f * channel_count + c,
            c < channel_count,
            f <= frame_count,
            diff == cur - prev,
            den == (n as int) * (GAIN_ONE as int),
            -GAIN_LIMIT <= prev <= GAIN_LIMIT,
            -GAIN_LIMIT <= cur <= GAIN_LIMIT,
            1 <= n <= frame_count <= 0x1_0000_0000,
            1 <= channel_count,
            frame_count * channel_count == orig.len(),
            forall|j: int|
                0 <= j < orig.len() ==> -SAMPLE_LIMIT <= #[trigger] orig[j] <= SAMPLE_LIMIT,
            forall|j: int| i <= j < orig.len() ==> #[trigger] buffer@[j] == orig[j] as int,
            forall|j: int|
                0 <= j < i ==> #[trigger] buffer@[j] == ramp_sample(
                    prev as int,
                    cur as int,
                    n as int,
                    channel_count as int,
                    j,
                    orig[j] as int,
                ),
        decreases total - i,
    {
        let k: usize = if f < n {
            f
        } else {
            n - 1
        };
        assert(-0x1_0000_0000_0000_0000 <= (prev as int) * (n as int)
            <= 0x1_0000_0000_0000_0000) by (nonlinear_arith)
            requires
                -0x1_0000_0000 <= prev as int <= 0x1_0000_0000,
                0 <= n as int <= 0x1_0000_0000,
        ;
        assert(-0x2_0000_0000_0000_0000 <= ((k as int) + 1) * (diff as int)
            <= 0x2_0000_0000_0000_0000) by (nonlinear_arith)
            requires
                -0x2_0000_0000 <= diff as int <= 0x2_0000_0000,
                0 <= (k as int) + 1 <= 0x1_0000_0000,
        ;
        let num: i128 = (prev as i128) * (n as i128) + ((k + 1) as i128) * (diff as i128);
        assert(-(n as int) * 0x3_0000_0000 <= num as int
            <= (n as int) * 0x3_0000_0000) by (nonlinear_arith)
            requires
                num as int == (prev as int) * (n as int) + ((k as int) + 1) * (diff as int),
                -0x1_0000_0000 <= prev as int <= 0x1_0000_0000,
                -0x2_0000_0000 <= diff as int <= 0x2_0000_0000,
                1 <= (k as int) + 1 <= n as int,
                1 <= n as int,
        ;
        let s: i64 = buffer[i];
        assert(-(den as int) * 0x4_0000_0000_0000 <= (s as int) * (num as int)
            <= (den as int) * 0x4_0000_0000_0000) by (nonlinear_arith)
            requires
                -(n as int) * 0x3_0000_0000 <= num as int <= (n as int) * 0x3_0000_0000,
                -0x1_0000_0000 <= s as int <= 0x1_0000_0000,
                den as int == (n as int) * 0x10000,
                1 <= n as int <= 0x1_0000_0000,
        ;
        assert(-0x4000_0000_0000_0000_0000_0000_0000_0000 < (s as int) * (num as int)
            < 0x4000_0000_0000_0000_0000_0000_0000_0000) by (nonlinear_arith)
            requires
                -(n as int) * 0x3_0000_0000 <= num as int <= (n as int) * 0x3_0000_0000,
                -0x1_0000_0000 <= s as int <= 0x1_0000_0000,
                1 <= n as int <= 0x1_0000_0000,
        ;
        proof {
            lemma_tdiv_bound((s as int) * (num as int), den as int, 0x4_0000_0000_0000);
            lemma_fundamental_div_mod_converse(
                i as int,
                channel_count as int,
                f as int,
                c as int,
            );
        }
        let r: i64 = scale_sample(s, num, den);
        buffer.set(i, r);
        assert(buffer@[i as int] == ramp_sample(
            prev as int,
            cur as int,
            n as int,
            channel_count as int,
            i as int,
            orig[i as int] as int,
        ));
        i += 1;
        c += 1;
        if c == channel_count {
            c = 0;
            assert((f as int + 1) * (channel_count as int) == (f as int) * (channel_count as int)
                + (channel_count as int)) by (nonlinear_arith);
            assert(f as int + 1 <= frame_count as int) by (nonlinear_arith)
                requires
                    (f as int + 1) * (channel_count as int) == i as int,
                    i as int <= (frame_count as int) * (channel_count as int),
                    1 <= channel_count as int,
            ;
            f += 1;
        }
    }
}

} // verus!
