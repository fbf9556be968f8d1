use volume::fixed::GAIN_ONE;
use volume::node::Volume;

fn buf_of(value: i64, len: usize) -> Vec<i64> {
    vec![value; len]
}

#[test]
fn new_has_defaults() {
    let v = Volume::new();
    assert_eq!(v.maybe_prev, None);
    assert_eq!(v.current, GAIN_ONE);
    assert_eq!(v.interpolation_ms, 10);
}

#[test]
fn builders_configure_gain_and_duration() {
    let v = Volume::new().volume(GAIN_ONE / 2).interpolation_ms(25);
    assert_eq!(v.current, GAIN_ONE / 2);
    assert_eq!(v.interpolation_ms, 25);
    assert_eq!(v.maybe_prev, None);
}

#[test]
fn set_changes_only_the_current_gain() {
    let mut v = Volume::new();
    v.set(3 * GAIN_ONE);
    assert_eq!(v.current, 3 * GAIN_ONE);
    assert_eq!(v.maybe_prev, None);
    assert_eq!(v.interpolation_ms, 10);
}

#[test]
fn first_buffer_is_scaled_flat() {
    // The very first buffer has no previous gain, so it always takes the
    // flat path, at unity leaving every sample untouched.
    let mut v = Volume::new();
    let mut buf = vec![100, -200, 300, -400, 500, -600];
    let before = buf.clone();
    v.process(&mut buf, 3, 2, 44100);
    assert_eq!(buf, before);
    assert_eq!(v.maybe_prev, Some(GAIN_ONE));
}

#[test]
fn flat_scale_halves_samples_toward_zero() {
    let mut v = Volume::new().volume(GAIN_ONE / 2);
    let mut buf = vec![100, -100, 7, -7, 3, -3];
    v.process(&mut buf, 3, 2, 48000);
    // Scaling rounds toward zero, for negative samples as well.
    assert_eq!(buf, vec![50, -50, 3, -3, 1, -1]);
}

#[test]
fn negative_gain_inverts_phase() {
    let mut v = Volume::new().volume(-GAIN_ONE);
    let mut buf = vec![100, -200, 300, -400];
    v.process(&mut buf, 2, 2, 48000);
    assert_eq!(buf, vec![-100, 200, -300, 400]);
}

#[test]
fn equal_gains_never_ramp() {
    // Two buffers at the same gain: the second is scaled flat even though a
    // previous gain now exists.
    let mut v = Volume::new().volume(2 * GAIN_ONE);
    let mut first = buf_of(10, 8);
    v.process(&mut first, 4, 2, 48000);
    assert_eq!(first, buf_of(20, 8));
    let mut second = buf_of(10, 8);
    v.process(&mut second, 4, 2, 48000);
    assert_eq!(second, buf_of(20, 8));
}

#[test]
fn second_call_after_gain_change_is_flat() {
    // A gain change ramps once; the call after it scales flat because the
    // previous gain has caught up with the current one.
    let mut v = Volume::new();
    let mut first = buf_of(1000, 8);
    v.process(&mut first, 4, 2, 48000);
    v.set(0);
    let mut second = buf_of(1000, 8);
    v.process(&mut second, 4, 2, 48000);
    assert_eq!(v.maybe_prev, Some(0));
    let mut third = buf_of(1000, 8);
    v.process(&mut third, 4, 2, 48000);
    assert_eq!(third, buf_of(0, 8));
}

#[test]
fn zero_duration_scales_flat() {
    let mut v = Volume::new().interpolation_ms(0);
    let mut first = buf_of(100, 4);
    v.process(&mut first, 2, 2, 48000);
    v.set(GAIN_ONE / 2);
    let mut second = buf_of(100, 4);
    v.process(&mut second, 2, 2, 48000);
    // Ramping is disabled: the new gain applies to the whole buffer at once.
    assert_eq!(second, buf_of(50, 4));
}

#[test]
fn negative_duration_scales_flat() {
    let mut v = Volume::new().interpolation_ms(-5);
    let mut first = buf_of(100, 4);
    v.process(&mut first, 2, 2, 48000);
    v.set(GAIN_ONE / 4);
    let mut second = buf_of(100, 4);
    v.process(&mut second, 2, 2, 48000);
    assert_eq!(second, buf_of(25, 4));
}

#[test]
fn duration_of_zero_frames_scales_flat() {
    // 1 ms at 100 Hz amounts to zero whole frames: no room to interpolate
    // even one frame, so the whole buffer takes the current gain flat.
    let mut v = Volume::new().interpolation_ms(1);
    let mut first = buf_of(64, 4);
    v.process(&mut first, 2, 2, 100);
    v.set(GAIN_ONE / 2);
    let mut second = buf_of(64, 4);
    v.process(&mut second, 2, 2, 100);
    assert_eq!(second, buf_of(32, 4));
    assert_eq!(v.maybe_prev, Some(GAIN_ONE / 2));
}

#[test]
fn ramp_descends_within_twenty_ms_buffer() {
    // 10 ms at 48000 Hz is 480 frames; the buffer holds 960 frames (20 ms)
    // of two channels. Fading from unity to silence, frame k takes the gain
    // (480 - k - 1) / 480, and everything from frame 480 on is silent.
    let mut v = Volume::new();
    let mut first = buf_of(4800, 1920);
    v.process(&mut first, 960, 2, 48000);
    v.set(0);
    let mut buf = buf_of(4800, 1920);
    v.process(&mut buf, 960, 2, 48000);
    // Frame k, both channels: 4800 * (479 - k) / 480.
    assert_eq!(buf[0], 4790);
    assert_eq!(buf[1], 4790);
    assert_eq!(buf[2], 4780);
    assert_eq!(buf[3], 4780);
    for k in 0..480usize {
        let expected = (4800 * (479 - k as i64)) / 480;
        assert_eq!(buf[2 * k], expected);
        assert_eq!(buf[2 * k + 1], expected);
    }
    // The ramp's last frame reaches silence exactly, and the remaining
    // frames hold that terminal value.
    for k in 480..960usize {
        assert_eq!(buf[2 * k], 0);
        assert_eq!(buf[2 * k + 1], 0);
    }
}

#[test]
fn ramp_longer_than_buffer_is_clamped() {
    // The same 10 ms fade, but the buffer holds only 256 frames: the whole
    // buffer ramps (256 frames, not 480), and the previous gain is stored
    // as exactly the current gain regardless, so the next buffer is flat.
    let mut v = Volume::new();
    let mut first = buf_of(4800, 512);
    v.process(&mut first, 256, 2, 48000);
    v.set(0);
    let mut buf = buf_of(4800, 512);
    v.process(&mut buf, 256, 2, 48000);
    for k in 0..256usize {
        let expected = (4800 * (255 - k as i64)) / 256;
        assert_eq!(buf[2 * k], expected);
        assert_eq!(buf[2 * k + 1], expected);
    }
    assert_eq!(v.maybe_prev, Some(0));
    let mut third = buf_of(4800, 512);
    v.process(&mut third, 256, 2, 48000);
    assert_eq!(third, buf_of(0, 512));
}

#[test]
fn tail_region_is_interchannel_consistent() {
    // With a ramp shorter than the buffer, every sample from the ramp's end
    // onward is scaled by one and the same constant, across frames and
    // channels alike.
    let mut v = Volume::new().interpolation_ms(1);
    let mut first = buf_of(999, 300);
    v.process(&mut first, 100, 3, 48000);
    v.set(GAIN_ONE / 3);
    let mut buf = buf_of(999, 300);
    // 1 ms at 48000 Hz is 48 frames.
    v.process(&mut buf, 100, 3, 48000);
    let tail = buf[48 * 3];
    for k in 48..100usize {
        for ch in 0..3usize {
            assert_eq!(buf[3 * k + ch], tail);
        }
    }
    // The terminal value equals a flat scale by the target gain.
    assert_eq!(tail, (999 * (GAIN_ONE / 3)) / GAIN_ONE);
}

#[test]
fn ramp_steps_are_evenly_spaced() {
    // Fading upward from unity to three times unity over 10 ms at 1600 Hz
    // gives 16 ramp frames; with samples of 1600 the outputs climb in equal
    // steps of 200 toward 4800.
    let mut v = Volume::new();
    let mut first = buf_of(1600, 32);
    v.process(&mut first, 32, 1, 1600);
    v.set(3 * GAIN_ONE);
    let mut buf = buf_of(1600, 32);
    v.process(&mut buf, 32, 1, 1600);
    for k in 0..16usize {
        assert_eq!(buf[k], 1600 + 200 * (k as i64 + 1));
    }
    for k in 16..32usize {
        assert_eq!(buf[k], 4800);
    }
}
