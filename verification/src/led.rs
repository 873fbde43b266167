use vstd::prelude::*;

verus! {

/// One RGB colour of the status LED, eight bits per channel.
#[derive(Clone, Copy, Debug, PartialEq, Eq, Structural)]
pub struct Rgb8 {
    pub r: u8,
    pub g: u8,
    pub b: u8,
}

/// Rising-then-falling triangle wave over one period: 0 at the start of the
/// period, rising to 255 over its first half and falling back over the rest.
/// On an odd period the falling half is one step longer, so it is scaled by
/// its own length and the wave peaks at exactly 255.
pub open spec fn triangle_wave(phase: int, period: int) -> int {
    let half = period / 2;
    if phase < half {
        phase * 255 / half
    } else {
        (period - phase) * 255 / (period - half)
    }
}

/// The inputs on which the triangle wave can be computed in 32-bit arithmetic:
/// a phase within a non-empty period and a product with 255 that fits in a `u32`.
pub open spec fn triangle_wave_defined(phase: int, period: int) -> bool {
    let half = period / 2;
    &&& period >= 1
    &&& 0 <= phase < period
    &&& if phase < half {
        phase * 255 <= u32::MAX
    } else {
        (period - phase) * 255 <= u32::MAX
    }
}

/// The breathing brightness: the triangle wave of the time within the period,
/// scaled from 0..=255 into 20..=100 so that the LED never goes fully dark.
pub open spec fn breathing_level(time_ms: u32, period_ms: u32) -> int {
    20 + triangle_wave((time_ms % period_ms) as int, period_ms as int) * 80 / 255
}

/// Periods below two leave no rising half to divide by.
pub open spec fn breathing_defined(time_ms: u32, period_ms: u32) -> bool {
    period_ms >= 2 && triangle_wave_defined((time_ms % period_ms) as int, period_ms as int)
}

/// The wave stays within 0..=255, on odd periods too.
pub proof fn lemma_triangle_wave_bounds(phase: int, period: int)
    requires
        triangle_wave_defined(phase, period),
    ensures
        0 <= triangle_wave(phase, period) <= 255,
{
    let half = period / 2;
    if phase < half {
        assert(phase * 255 / half <= 255 && 0 <= phase * 255 / half) by (nonlinear_arith)
            requires
                phase < half,
                half >= 1,
                0 <= phase,
        ;
    } else {
        let d = period - phase;
        let rest = period - half;
        assert(0 < d <= rest);
        assert(d * 255 / rest <= 255 && 0 <= d * 255 / rest) by (nonlinear_arith)
            requires
                0 < d <= rest,
        ;
    }
}

/// Triangle wave in 32-bit arithmetic.
fn triangle_wave_u32(phase: u32, period: u32) -> (w: u32)
    requires
        triangle_wave_defined(phase as int, period as int),
    ensures
        w == triangle_wave(phase as int, period as int),
        w <= 255,
{
    proof {
        lemma_triangle_wave_bounds(phase as int, period as int);
    }
    let half = period / 2;
    if phase < half {
        (phase * 255) / half
    } else {
        ((period - phase) * 255) / (period - half)
    }
}

/// Breathing brightness of the idle LED: a triangle wave over `period_ms`,
/// mapped into 20..=100 so that the LED is never fully off.
pub fn breathing_brightness(time_ms: u32, period_ms: u32) -> (level: u8)
    requires
        breathing_defined(time_ms, period_ms),
    ensures
        level as int == breathing_level(time_ms, period_ms),
{
    let phase = time_ms % period_ms;
    let brightness = triangle_wave_u32(phase, period_ms);
    assert(brightness * 80 / 255 <= 80) by (nonlinear_arith)
        requires
            brightness <= 255,
    ;
    20 + ((brightness * 80) / 255) as u8
}


/// Countdown progress in 0..=255 (for `elapsed_ms <= total_duration_ms`).
pub open spec fn countdown_progress(elapsed_ms: u32, total_duration_ms: u32) -> int {
    elapsed_ms * 255 / total_duration_ms as int
}

/// Length of one pulse of the countdown: 1000 ms at the start, shrinking
/// towards 333 ms as the countdown progresses.
pub open spec fn countdown_pulse_period(elapsed_ms: u32, total_duration_ms: u32) -> int {
    1000 - countdown_progress(elapsed_ms, total_duration_ms) * 667 / 255
}

/// Peak intensity of a pulse: half brightness (128) at the start, full (255)
/// at the end of the countdown.
pub open spec fn countdown_max_intensity(elapsed_ms: u32, total_duration_ms: u32) -> int {
    128 + countdown_progress(elapsed_ms, total_duration_ms) * 127 / 255
}

/// The countdown's pulse: a triangle wave whose two halves are both scaled by
/// the half period. On an odd period the falling half is one step longer and
/// its first step reaches just above 255 (up to 510 at the shortest periods).
pub open spec fn pulse_wave(phase: int, period: int) -> int {
    let half = period / 2;
    if phase < half {
        phase * 255 / half
    } else {
        (period - phase) * 255 / half
    }
}

proof fn lemma_pulse_wave_bounds(phase: int, period: int)
    requires
        period >= 2,
        0 <= phase < period,
    ensures
        0 <= pulse_wave(phase, period) <= 510,
        period % 2 == 0 ==> pulse_wave(phase, period) <= 255,
{
    let half = period / 2;
    if phase < half {
        assert(phase * 255 / half <= 255 && 0 <= phase * 255 / half) by (nonlinear_arith)
            requires
                phase < half,
                half >= 1,
                0 <= phase,
        ;
    } else {
        let d = period - phase;
        assert(0 < d <= half + 1);
        assert(period % 2 == 0 ==> d <= half);
        assert(d * 255 / half <= 510 && 0 <= d * 255 / half) by (nonlinear_arith)
            requires
                0 < d <= half + 1,
                half >= 1,
        ;
        assert(d <= half ==> d * 255 / half <= 255) by (nonlinear_arith)
            requires
                0 <= d,
                half >= 1,
        ;
    }
}

/// The countdown's pulse in 32-bit arithmetic.
fn pulse_wave_u32(phase: u32, period: u32) -> (w: u32)
    requires
        2 <= period <= 1000,
        phase < period,
    ensures
        w == pulse_wave(phase as int, period as int),
        w <= 510,
{
    proof {
        lemma_pulse_wave_bounds(phase as int, period as int);
    }
    let half = period / 2;
    if phase < half {
        (phase * 255) / half
    } else {
        ((period - phase) * 255) / half
    }
}

/// Red channel of the countdown colour; the final narrowing to a byte keeps
/// the low eight bits, as a cast to `u8` does. With an even pulse period and
/// within the countdown nothing is cut (`countdown_stays_in_byte`).
pub open spec fn countdown_red(elapsed_ms: u32, total_duration_ms: u32) -> u8 {
    let period = countdown_pulse_period(elapsed_ms, total_duration_ms);
    let pulse = pulse_wave((elapsed_ms as int) % period, period);
    (pulse * countdown_max_intensity(elapsed_ms, total_duration_ms) / 255) as u8
}

/// Inputs on which the countdown colour is computed without dividing by zero
/// or leaving 32-bit arithmetic: the pulse period must stay at least 2.
pub open spec fn countdown_defined(elapsed_ms: u32, total_duration_ms: u32) -> bool {
    &&& total_duration_ms > 0
    &&& elapsed_ms * 255 <= u32::MAX
    &&& countdown_progress(elapsed_ms, total_duration_ms) * 667 / 255 <= 998
}

/// Pulsing red countdown colour: the pulse gets faster and brighter as the
/// countdown progresses; green and blue stay dark.
pub fn countdown_pulse_color(elapsed_ms: u32, total_duration_ms: u32) -> (color: Rgb8)
    requires
        countdown_defined(elapsed_ms, total_duration_ms),
    ensures
        color == (Rgb8 { r: countdown_red(elapsed_ms, total_duration_ms), g: 0, b: 0 }),
{
    let progress = elapsed_ms * 255 / total_duration_ms;
    assert(progress * 667 <= 998 * 255 + 254) by (nonlinear_arith)
        requires
            progress * 667 / 255 <= 998,
            progress >= 0,
    ;
    let pulse_period_ms = 1000 - (progress * 667 / 255);
    let pulse_phase = elapsed_ms % pulse_period_ms;
    let pulse_brightness = pulse_wave_u32(pulse_phase, pulse_period_ms);
    assert(progress < 382);
    let max_intensity = 128 + (progress * 127 / 255);
    assert(max_intensity <= 128 + 190);
    assert(pulse_brightness * max_intensity <= 510 * 318) by (nonlinear_arith)
        requires
            pulse_brightness <= 510,
            max_intensity <= 318,
    ;
    let intensity = ((pulse_brightness * max_intensity) / 255) as u8;
    Rgb8 { r: intensity, g: 0, b: 0 }
}


/// Length of the launch countdown.
pub const BLINK_DURATION_MS: u32 = 5000;

/// Period of the idle breathing animation.
pub const BREATHING_PERIOD_MS: u32 = 3000;

/// Number of 100 ms steps in the launch countdown.
pub const COUNTDOWN_STEPS: u32 = 50;

/// Time between two countdown steps.
pub const COUNTDOWN_STEP_MS: u32 = 100;

/// Soft blue that the idle LED breathes in.
pub open spec fn spec_idle_color() -> Rgb8 {
    Rgb8 { r: 0, g: 50, b: 100 }
}

/// Bright red shown once the missile has launched.
pub open spec fn spec_launch_color() -> Rgb8 {
    Rgb8 { r: 255, g: 0, b: 0 }
}

/// Green of the start-up flashes.
pub open spec fn spec_startup_color() -> Rgb8 {
    Rgb8 { r: 0, g: 100, b: 0 }
}

/// Orange that signals a failed delivery to the backend.
pub open spec fn spec_error_color() -> Rgb8 {
    Rgb8 { r: 100, g: 50, b: 0 }
}

/// LED off.
pub open spec fn spec_off_color() -> Rgb8 {
    Rgb8 { r: 0, g: 0, b: 0 }
}

#[verifier::when_used_as_spec(spec_idle_color)]
pub fn idle_color() -> (c: Rgb8)
    ensures
        c == spec_idle_color(),
{
    Rgb8 { r: 0, g: 50, b: 100 }
}

#[verifier::when_used_as_spec(spec_launch_color)]
pub fn launch_color() -> (c: Rgb8)
    ensures
        c == spec_launch_color(),
{
    Rgb8 { r: 255, g: 0, b: 0 }
}

#[verifier::when_used_as_spec(spec_startup_color)]
pub fn startup_color() -> (c: Rgb8)
    ensures
        c == spec_startup_color(),
{
    Rgb8 { r: 0, g: 100, b: 0 }
}

#[verifier::when_used_as_spec(spec_error_color)]
pub fn error_color() -> (c: Rgb8)
    ensures
        c == spec_error_color(),
{
    Rgb8 { r: 100, g: 50, b: 0 }
}

#[verifier::when_used_as_spec(spec_off_color)]
pub fn off_color() -> (c: Rgb8)
    ensures
        c == spec_off_color(),
{
    Rgb8 { r: 0, g: 0, b: 0 }
}

/// One channel dimmed to `level` out of 255.
pub open spec fn scaled_channel(channel: u8, level: u8) -> u8 {
    (channel * level / 255) as u8
}

/// The idle colour dimmed by the breathing brightness at `idle_time_ms`.
pub open spec fn idle_breathing(idle_time_ms: u32) -> Rgb8 {
    let level = breathing_level(idle_time_ms, BREATHING_PERIOD_MS) as u8;
    Rgb8 {
        r: scaled_channel(spec_idle_color().r, level),
        g: scaled_channel(spec_idle_color().g, level),
        b: scaled_channel(spec_idle_color().b, level),
    }
}

/// The colour of the breathing idle LED after `idle_time_ms` of idling.
pub fn idle_breathing_color(idle_time_ms: u32) -> (color: Rgb8)
    ensures
        color == idle_breathing(idle_time_ms),
{
    let phase = idle_time_ms % BREATHING_PERIOD_MS;
    assert(phase * 255 <= 3000 * 255) by (nonlinear_arith)
        requires
            phase < 3000,
    ;
    assert((3000 - phase) * 255 <= 3000 * 255) by (nonlinear_arith)
        requires
            phase < 3000,
    ;
    let brightness = breathing_brightness(idle_time_ms, BREATHING_PERIOD_MS);
    let base = idle_color();
    assert(base.r as u16 * brightness as u16 <= 255 * 255) by (nonlinear_arith)
        requires
            base.r <= 255,
            brightness <= 255,
    ;
    assert(base.g as u16 * brightness as u16 <= 255 * 255) by (nonlinear_arith)
        requires
            base.g <= 255,
            brightness <= 255,
    ;
    assert(base.b as u16 * brightness as u16 <= 255 * 255) by (nonlinear_arith)
        requires
            base.b <= 255,
            brightness <= 255,
    ;
    Rgb8 {
        r: (base.r as u16 * brightness as u16 / 255) as u8,
        g: (base.g as u16 * brightness as u16 / 255) as u8,
        b: (base.b as u16 * brightness as u16 / 255) as u8,
    }
}

/// One step of the launch countdown: the colour to show and, on every tenth
/// step, the number of seconds left to announce.
#[derive(Clone, Copy, Debug, PartialEq, Eq, Structural)]
pub struct CountdownFrame {
    pub color: Rgb8,
    pub seconds_left: Option<u32>,
}

pub open spec fn countdown_frame_spec(step: u32) -> CountdownFrame {
    CountdownFrame {
        color: Rgb8 {
            r: countdown_red((step * COUNTDOWN_STEP_MS) as u32, BLINK_DURATION_MS),
            g: 0,
            b: 0,
        },
        seconds_left: if step % 10 == 0 {
            Some((5 - step / 10) as u32)
        } else {
            None
        },
    }
}

/// The frame shown at step `step` (of 50, 100 ms apart) of the countdown.
pub fn countdown_frame(step: u32) -> (frame: CountdownFrame)
    requires
        step < COUNTDOWN_STEPS,
    ensures
        frame == countdown_frame_spec(step),
{
    let elapsed_ms = step * COUNTDOWN_STEP_MS;
    assert(elapsed_ms * 255 / 5000 <= 250) by (nonlinear_arith)
        requires
            elapsed_ms <= 4900,
    ;
    let color = countdown_pulse_color(elapsed_ms, BLINK_DURATION_MS);
    let seconds_left = if step % 10 == 0 {
        Some(5 - step / 10)
    } else {
        None
    };
    CountdownFrame { color, seconds_left }
}

/// A colour written to the LED and how long it is held before the next one.
#[derive(Clone, Copy, Debug, PartialEq, Eq, Structural)]
pub struct LedFrame {
    pub color: Rgb8,
    pub hold_ms: u32,
}

/// Duration of one half of a flash.
pub const FLASH_MS: u32 = 200;

/// How long the launch colour stays on after a launch.
pub const LAUNCH_HOLD_MS: u32 = 2000;

/// `times` flashes of `color`, each followed by an equally long dark pause.
pub open spec fn flashes(color: Rgb8, times: nat) -> Seq<LedFrame>
    decreases times,
{
    if times == 0 {
        Seq::empty()
    } else {
        seq![
            LedFrame { color: color, hold_ms: FLASH_MS },
            LedFrame { color: spec_off_color(), hold_ms: FLASH_MS },
        ] + flashes(color, (times - 1) as nat)
    }
}

fn push_flashes(frames: &mut Vec<LedFrame>, color: Rgb8, times: u32)
    ensures
        final(frames)@ == old(frames)@ + flashes(color, times as nat),
{
    let mut i: u32 = 0;
    while i < times
        invariant
            i <= times,
            frames@ + flashes(color, (times - i) as nat) == old(frames)@ + flashes(color, times as nat),
        decreases times - i,
    {
        let ghost before = frames@;
        frames.push(LedFrame { color, hold_ms: FLASH_MS });
        frames.push(LedFrame { color: off_color(), hold_ms: FLASH_MS });
        assert(before + flashes(color, (times - i) as nat) == frames@ + flashes(
            color,
            (times - (i + 1)) as nat,
        )) by {
            assert(flashes(color, (times - i) as nat) == seq![
                LedFrame { color: color, hold_ms: FLASH_MS },
                LedFrame { color: spec_off_color(), hold_ms: FLASH_MS },
            ] + flashes(color, (times - (i + 1)) as nat));
            assert(frames@ == before + seq![
                LedFrame { color: color, hold_ms: FLASH_MS },
                LedFrame { color: spec_off_color(), hold_ms: FLASH_MS },
            ]);
        }
        i = i + 1;
    }
    assert(flashes(color, 0) == Seq::<LedFrame>::empty());
}

/// Start-up animation: three quick green flashes.
pub fn startup_sequence() -> (frames: Vec<LedFrame>)
    ensures
        frames@ == flashes(spec_startup_color(), 3),
{
    let mut frames: Vec<LedFrame> = Vec::new();
    push_flashes(&mut frames, startup_color(), 3);
    frames
}

pub open spec fn launch_feedback_spec(delivered: bool) -> Seq<LedFrame> {
    let launch = seq![LedFrame { color: spec_launch_color(), hold_ms: LAUNCH_HOLD_MS }];
    if delivered {
        launch
    } else {
        flashes(spec_error_color(), 3) + launch
    }
}

/// What the LED shows after the countdown: solid red when the backend took the
/// event, otherwise three orange flashes first.
pub fn launch_feedback(delivered: bool) -> (frames: Vec<LedFrame>)
    ensures
        frames@ == launch_feedback_spec(delivered),
{
    let mut frames: Vec<LedFrame> = Vec::new();
    if !delivered {
        push_flashes(&mut frames, error_color(), 3);
    }
    frames.push(LedFrame { color: launch_color(), hold_ms: LAUNCH_HOLD_MS });
    frames
}


/// The breathing brightness stays within 20..=100, whatever the period: the
/// LED is never off and never brighter than its idle maximum.
pub proof fn breathing_stays_in_range(time_ms: u32, period_ms: u32)
    requires
        breathing_defined(time_ms, period_ms),
    ensures
        20 <= breathing_level(time_ms, period_ms) <= 100,
{
    let w = triangle_wave((time_ms % period_ms) as int, period_ms as int);
    lemma_triangle_wave_bounds((time_ms % period_ms) as int, period_ms as int);
    assert(0 <= w * 80 / 255 <= 80) by (nonlinear_arith)
        requires
            0 <= w <= 255,
    ;
}

/// On an even period the breathing falls as it rose: the brightness a time
/// `x` before the end of the period is the brightness `x` after its start.
pub proof fn breathing_is_symmetric(x: u32, period_ms: u32)
    requires
        period_ms >= 2,
        period_ms % 2 == 0,
        0 < x < period_ms,
    ensures
        breathing_level((period_ms - x) as u32, period_ms) == breathing_level(x, period_ms),
{
    let p = period_ms as int;
    let h = p / 2;
    assert(p - h == h);
    vstd::arithmetic::div_mod::lemma_small_mod((p - x) as nat, p as nat);
    vstd::arithmetic::div_mod::lemma_small_mod(x as nat, p as nat);
    assert(((p - x) as u32) % period_ms == p - x);
    assert(x % period_ms == x);
}

/// The breathing brightness starts each period at its floor of 20, reaches
/// its peak of 100 at mid-period, and never dims while it rises.
pub proof fn breathing_rises_to_peak(x: u32, y: u32, period_ms: u32)
    requires
        period_ms >= 2,
        period_ms * 255 <= u32::MAX,
        x <= y <= period_ms / 2,
    ensures
        breathing_level(0, period_ms) == 20,
        breathing_level(period_ms / 2, period_ms) == 100,
        breathing_level(x, period_ms) <= breathing_level(y, period_ms),
{
    let p = period_ms as int;
    let h = p / 2;
    vstd::arithmetic::div_mod::lemma_small_mod(0, p as nat);
    vstd::arithmetic::div_mod::lemma_small_mod(x as nat, p as nat);
    vstd::arithmetic::div_mod::lemma_small_mod(y as nat, p as nat);
    vstd::arithmetic::div_mod::lemma_small_mod(h as nat, p as nat);
    assert(0u32 % period_ms == 0);
    assert(x % period_ms == x);
    assert(y % period_ms == y);
    assert((period_ms / 2) % period_ms == h);
    let rest = p - h;
    assert(rest * 255 / rest == 255) by (nonlinear_arith)
        requires
            rest >= 1,
    ;
    if y < h {
        assert(x * 255 / h <= y * 255 / h) by (nonlinear_arith)
            requires
                0 <= x <= y,
                h >= 1,
        ;
    } else if x < h {
        assert(x * 255 / h <= 255) by (nonlinear_arith)
            requires
                0 <= x < h,
        ;
    }
    let wx = triangle_wave(x as int, p);
    let wy = triangle_wave(y as int, p);
    assert(wx * 80 / 255 <= wy * 80 / 255) by (nonlinear_arith)
        requires
            wx <= wy,
    ;
}

/// The idle animation, run with its 3000 ms period, is always computable and
/// stays within 20..=100.
pub proof fn idle_breathing_in_range(idle_time_ms: u32)
    ensures
        breathing_defined(idle_time_ms, BREATHING_PERIOD_MS),
        20 <= breathing_level(idle_time_ms, BREATHING_PERIOD_MS) <= 100,
{
    let phase = idle_time_ms % BREATHING_PERIOD_MS;
    assert(phase * 255 <= 3000 * 255) by (nonlinear_arith)
        requires
            phase < 3000,
    ;
    assert((3000 - phase) * 255 <= 3000 * 255) by (nonlinear_arith)
        requires
            phase < 3000,
    ;
    breathing_stays_in_range(idle_time_ms, BREATHING_PERIOD_MS);
}

/// The breathing brightness repeats with its period.
pub proof fn breathing_is_periodic(time_ms: u32, period_ms: u32)
    requires
        period_ms >= 2,
        time_ms + period_ms <= u32::MAX,
    ensures
        breathing_level(time_ms, period_ms) == breathing_level(
            (time_ms + period_ms) as u32,
            period_ms,
        ),
        breathing_defined(time_ms, period_ms) == breathing_defined(
            (time_ms + period_ms) as u32,
            period_ms,
        ),
{
    let t = time_ms as int;
    let p = period_ms as int;
    assert((t + p) % p == t % p) by (nonlinear_arith)
        requires
            p >= 2,
            t >= 0,
    ;
}

/// During the countdown (elapsed time at most the total) the colour is always
/// computable, the pulse period shrinks from 1000 ms towards 333 ms and the
/// peak intensity grows from 128 towards 255.
pub proof fn countdown_pulse_ranges(elapsed_ms: u32, total_duration_ms: u32)
    requires
        0 < total_duration_ms,
        elapsed_ms <= total_duration_ms,
        elapsed_ms * 255 <= u32::MAX,
    ensures
        countdown_defined(elapsed_ms, total_duration_ms),
        0 <= countdown_progress(elapsed_ms, total_duration_ms) <= 255,
        333 <= countdown_pulse_period(elapsed_ms, total_duration_ms) <= 1000,
        128 <= countdown_max_intensity(elapsed_ms, total_duration_ms) <= 255,
        elapsed_ms == 0 ==> countdown_pulse_period(elapsed_ms, total_duration_ms) == 1000
            && countdown_max_intensity(elapsed_ms, total_duration_ms) == 128,
        elapsed_ms == total_duration_ms ==> countdown_pulse_period(elapsed_ms, total_duration_ms)
            == 333 && countdown_max_intensity(elapsed_ms, total_duration_ms) == 255,
{
    let e = elapsed_ms as int;
    let t = total_duration_ms as int;
    assert(0 <= e * 255 / t <= 255) by (nonlinear_arith)
        requires
            0 <= e <= t,
            t > 0,
    ;
    assert(e == t ==> e * 255 / t == 255) by (nonlinear_arith)
        requires
            t > 0,
    ;
    let pr = e * 255 / t;
    assert(0 <= pr * 667 / 255 <= 667) by (nonlinear_arith)
        requires
            0 <= pr <= 255,
    ;
    assert(0 <= pr * 127 / 255 <= 127) by (nonlinear_arith)
        requires
            0 <= pr <= 255,
    ;
}

/// Within the countdown and on an even pulse period the red intensity never
/// needs more than a byte: the pulse peaks at 255 and is scaled by at most
/// 255/255, so the narrowing cuts nothing. (On an odd pulse period the pulse
/// may pass 255 and the byte wraps, as at 166 ms of a 166 ms countdown.)
pub proof fn countdown_stays_in_byte(elapsed_ms: u32, total_duration_ms: u32)
    requires
        0 < total_duration_ms,
        elapsed_ms <= total_duration_ms,
        elapsed_ms * 255 <= u32::MAX,
        countdown_pulse_period(elapsed_ms, total_duration_ms) % 2 == 0,
    ensures
        countdown_red(elapsed_ms, total_duration_ms) as int == ({
            let period = countdown_pulse_period(elapsed_ms, total_duration_ms);
            pulse_wave((elapsed_ms as int) % period, period) * countdown_max_intensity(
                elapsed_ms,
                total_duration_ms,
            ) / 255
        }),
{
    countdown_pulse_ranges(elapsed_ms, total_duration_ms);
    let period = countdown_pulse_period(elapsed_ms, total_duration_ms);
    let phase = (elapsed_ms as int) % period;
    lemma_pulse_wave_bounds(phase, period);
    let w = pulse_wave(phase, period);
    let m = countdown_max_intensity(elapsed_ms, total_duration_ms);
    assert(0 <= w * m / 255 <= 255) by (nonlinear_arith)
        requires
            0 <= w <= 255,
            0 <= m <= 255,
    ;
}

/// As the countdown advances the pulses never slow down and never dim.
pub proof fn countdown_accelerates(earlier_ms: u32, later_ms: u32, total_duration_ms: u32)
    requires
        0 < total_duration_ms,
        earlier_ms <= later_ms,
        later_ms * 255 <= u32::MAX,
    ensures
        countdown_pulse_period(later_ms, total_duration_ms) <= countdown_pulse_period(
            earlier_ms,
            total_duration_ms,
        ),
        countdown_max_intensity(earlier_ms, total_duration_ms) <= countdown_max_intensity(
            later_ms,
            total_duration_ms,
        ),
{
    let t = total_duration_ms as int;
    let a = earlier_ms as int;
    let b = later_ms as int;
    assert(a * 255 / t <= b * 255 / t) by (nonlinear_arith)
        requires
            0 <= a <= b,
            t > 0,
    ;
    let pa = a * 255 / t;
    let pb = b * 255 / t;
    assert(pa * 667 / 255 <= pb * 667 / 255) by (nonlinear_arith)
        requires
            0 <= pa <= pb,
    ;
    assert(pa * 127 / 255 <= pb * 127 / 255) by (nonlinear_arith)
        requires
            0 <= pa <= pb,
    ;
}

/// The idle colour at any time is the idle blue scaled by the breathing
/// brightness at that same time: red stays off, green is 50 and blue 100,
/// each times the brightness over 255.
pub proof fn idle_color_follows_breathing(idle_time_ms: u32)
    ensures
        idle_breathing(idle_time_ms).r == 0,
        idle_breathing(idle_time_ms).g as int == 50 * breathing_level(idle_time_ms, BREATHING_PERIOD_MS)
            / 255,
        idle_breathing(idle_time_ms).b as int == 100 * breathing_level(idle_time_ms, BREATHING_PERIOD_MS)
            / 255,
{
    idle_breathing_in_range(idle_time_ms);
    let level = breathing_level(idle_time_ms, BREATHING_PERIOD_MS);
    assert(50 * level / 255 <= 50 && 100 * level / 255 <= 100 && 0 <= 50 * level / 255 && 0 <= 100
        * level / 255) by (nonlinear_arith)
        requires
            0 <= level <= 100,
    ;
}

/// The breathing idle colour is the idle blue dimmed, never brighter than it,
/// and never has any red.
pub proof fn idle_breathing_dims_idle_color(idle_time_ms: u32)
    ensures
        idle_breathing(idle_time_ms).r == 0,
        idle_breathing(idle_time_ms).g <= spec_idle_color().g,
        idle_breathing(idle_time_ms).b <= spec_idle_color().b,
{
    idle_breathing_in_range(idle_time_ms);
    let level = breathing_level(idle_time_ms, BREATHING_PERIOD_MS);
    assert(50 * level / 255 <= 50 && 100 * level / 255 <= 100) by (nonlinear_arith)
        requires
            0 <= level <= 100,
    ;
}

/// `n` flashes are `2n` frames that alternate between the colour and dark,
/// each held for the flash time.
pub proof fn flashes_alternate(color: Rgb8, n: nat)
    ensures
        flashes(color, n).len() == 2 * n,
        forall|k: int|
            0 <= k < 2 * n ==> #[trigger] flashes(color, n)[k] == (if k % 2 == 0 {
                LedFrame { color: color, hold_ms: FLASH_MS }
            } else {
                LedFrame { color: spec_off_color(), hold_ms: FLASH_MS }
            }),
    decreases n,
{
    if n > 0 {
        flashes_alternate(color, (n - 1) as nat);
        let head = seq![
            LedFrame { color: color, hold_ms: FLASH_MS },
            LedFrame { color: spec_off_color(), hold_ms: FLASH_MS },
        ];
        let rest = flashes(color, (n - 1) as nat);
        assert forall|k: int| 0 <= k < 2 * n implies #[trigger] flashes(color, n)[k] == (if k % 2
            == 0 {
            LedFrame { color: color, hold_ms: FLASH_MS }
        } else {
            LedFrame { color: spec_off_color(), hold_ms: FLASH_MS }
        }) by {
            if k >= 2 {
                assert(flashes(color, n)[k] == rest[k - 2]);
                assert((k - 2) % 2 == k % 2);
            }
        }
    }
}

/// The countdown announces the seconds left on steps 0, 10, 20, 30 and 40 —
/// 5, 4, 3, 2, 1 — and on no other step.
pub proof fn countdown_announces_each_second(step: u32)
    requires
        step < COUNTDOWN_STEPS,
    ensures
        (countdown_frame_spec(step).seconds_left is Some) <==> step % 10 == 0,
        step % 10 == 0 ==> countdown_frame_spec(step).seconds_left == Some((5 - step / 10) as u32)
            && 1 <= 5 - step / 10 <= 5,
{
}

/// The countdown pulse starts dark, peaks at mid-pulse (255 on an even
/// period, one step above on an odd one), brightens while it rises and, on
/// an even period, falls as it rose.
pub proof fn pulse_rises_and_falls(x: int, y: int, period: int)
    requires
        period >= 2,
        0 <= x <= y <= period / 2,
    ensures
        pulse_wave(0, period) == 0,
        pulse_wave(period / 2, period) >= 255,
        period % 2 == 0 ==> pulse_wave(period / 2, period) == 255,
        pulse_wave(x, period) <= pulse_wave(y, period),
        period % 2 == 0 && 0 < x ==> pulse_wave(period - x, period) == pulse_wave(x, period),
{
    let h = period / 2;
    assert((period - h) * 255 / h >= 255) by (nonlinear_arith)
        requires
            period - h >= h >= 1,
    ;
    assert(h * 255 / h == 255) by (nonlinear_arith)
        requires
            h >= 1,
    ;
    if y < h {
        assert(x * 255 / h <= y * 255 / h) by (nonlinear_arith)
            requires
                0 <= x <= y,
                h >= 1,
        ;
    } else if x < h {
        assert(x * 255 / h <= 255) by (nonlinear_arith)
            requires
                0 <= x < h,
        ;
        assert((period - y) * 255 / h >= 255) by (nonlinear_arith)
            requires
                y == h,
                period - h >= h >= 1,
        ;
    }
}

} // verus!
