//! Laws of the volume node, stated and proved over the same spec functions
//! that the processing contract of [`crate::node::Volume::process`] uses.

use vstd::prelude::*;
use vstd::arithmetic::div_mod::lemma_div_pos_is_pos;
use crate::fixed::{flat_sample, gain_numer, lemma_tdiv_scale, ramp_sample, GAIN_ONE};
use crate::node::{
    after_process, duration_frames, expected_sample, ramp_len, ramp_needed, Volume,
};

verus! {

/// A buffer processed while the previous gain equals the current gain — or
/// while no previous gain exists yet, as on the very first buffer — is
/// scaled flat: every sample is the input scaled by the current gain.
pub proof fn lemma_flat_when_gains_equal(v: Volume, rate: int, fc: int, cc: int, i: int, s: int)
    requires
        v.maybe_prev is None || v.maybe_prev == Some(v.current),
    ensures
        expected_sample(v, rate, fc, cc, i, s) == flat_sample(v.current as int, s),
{
}

/// After the last ramped frame the running gain has reached the target
/// exactly: starting from `prev`, adding the increment `(cur - prev) / n`
/// a total of `n` times ends at `cur` — the accumulated gain, over the
/// denominator `n * GAIN_ONE`, equals `cur`, so it is in particular within
/// one increment step of the target.
pub proof fn lemma_ramp_terminal_gain(prev: int, cur: int, n: int)
    requires
        1 <= n,
    ensures
        gain_numer(prev, cur, n, n - 1) == cur * n,
{
    assert(prev * n + n * (cur - prev) == cur * n) by (nonlinear_arith);
}

/// Every sample at or past frame `n` of a ramp of `n` frames is scaled by
/// one and the same constant — the ramp's terminal gain — and that constant
/// values the sample exactly as a flat scale by the target gain would.
pub proof fn lemma_tail_frames_flat(prev: int, cur: int, n: int, cc: int, i: int, s: int)
    requires
        1 <= n,
        1 <= cc,
        i / cc >= n,
    ensures
        ramp_sample(prev, cur, n, cc, i, s) == flat_sample(cur, s),
{
    lemma_ramp_terminal_gain(prev, cur, n);
    assert(s * (cur * n) == (s * cur) * n) by (nonlinear_arith);
    assert(n * (GAIN_ONE as int) == (GAIN_ONE as int) * n) by (nonlinear_arith);
    lemma_tdiv_scale(s * cur, GAIN_ONE as int, n);
}

/// Processing records the current gain as the new previous gain, so a
/// second `process` with the gain unchanged in between performs a flat
/// scale, never a ramp.
pub proof fn lemma_second_call_is_flat(v: Volume, rate: int, fc: int, cc: int, i: int, s: int)
    ensures
        !ramp_needed(after_process(v)),
        expected_sample(after_process(v), rate, fc, cc, i, s) == flat_sample(v.current as int, s),
{
}

/// A configured ramp duration of zero or less always scales flat,
/// regardless of any gain change.
pub proof fn lemma_nonpositive_duration_is_flat(
    v: Volume,
    rate: int,
    fc: int,
    cc: int,
    i: int,
    s: int,
)
    requires
        v.interpolation_ms <= 0,
    ensures
        expected_sample(v, rate, fc, cc, i, s) == flat_sample(v.current as int, s),
{
}

/// A configured duration so short that it amounts to zero whole frames at
/// the given sample rate scales the buffer flat by the current gain; no
/// increment is ever divided out of an empty ramp.
pub proof fn lemma_zero_ramp_frames_is_flat(
    v: Volume,
    rate: int,
    fc: int,
    cc: int,
    i: int,
    s: int,
)
    requires
        duration_frames(v.interpolation_ms as int, rate) == 0,
        0 <= fc,
    ensures
        expected_sample(v, rate, fc, cc, i, s) == flat_sample(v.current as int, s),
{
}

/// The ramp never exceeds the buffer: it occupies at most the buffer's
/// frame count, and at most the configured duration in frames.
pub proof fn lemma_ramp_len_clamped(v: Volume, rate: int, fc: int)
    requires
        0 <= fc,
        0 <= rate,
    ensures
        0 <= ramp_len(v, rate, fc) <= fc,
        ramp_needed(v) ==> ramp_len(v, rate, fc) <= duration_frames(
            v.interpolation_ms as int,
            rate,
        ),
{
    if ramp_needed(v) {
        assert(0 <= (v.interpolation_ms as int) * rate) by (nonlinear_arith)
            requires
                0 < v.interpolation_ms as int,
                0 <= rate,
        ;
        lemma_div_pos_is_pos((v.interpolation_ms as int) * rate, 1000);
    }
}

} // verus!
