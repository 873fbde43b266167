use big_red_button::led::{
    breathing_brightness, countdown_frame, countdown_pulse_color, error_color, idle_breathing_color,
    idle_color, launch_color, launch_feedback, off_color, startup_color, startup_sequence,
    CountdownFrame, LedFrame, Rgb8, BLINK_DURATION_MS, BREATHING_PERIOD_MS,
};

#[test]
fn breathing_brightness_follows_triangle_wave() {
    assert_eq!(breathing_brightness(0, 3000), 20);
    assert_eq!(breathing_brightness(750, 3000), 59);
    assert_eq!(breathing_brightness(1500, 3000), 100);
    assert_eq!(breathing_brightness(2250, 3000), 59);
    assert_eq!(breathing_brightness(2999, 3000), 20);
}

#[test]
fn breathing_brightness_repeats_each_period() {
    for t in 0..3000u32 {
        assert_eq!(breathing_brightness(t, 3000), breathing_brightness(t + 3000, 3000));
        let b = breathing_brightness(t, BREATHING_PERIOD_MS);
        assert!((20..=100).contains(&b));
    }
}

#[test]
fn breathing_brightness_in_range_on_any_period() {
    assert_eq!(breathing_brightness(1, 3), 100);
    for period in 2..200u32 {
        for t in 0..(2 * period) {
            let b = breathing_brightness(t, period);
            assert!((20..=100).contains(&b), "t {} period {}", t, period);
        }
    }
}

#[test]
fn countdown_color_values() {
    assert_eq!(countdown_pulse_color(0, 5000), Rgb8 { r: 0, g: 0, b: 0 });
    assert_eq!(countdown_pulse_color(100, 5000), Rgb8 { r: 26, g: 0, b: 0 });
    assert_eq!(countdown_pulse_color(250, 5000), Rgb8 { r: 68, g: 0, b: 0 });
    assert_eq!(countdown_pulse_color(2500, 5000), Rgb8 { r: 98, g: 0, b: 0 });
    assert_eq!(countdown_pulse_color(5000, 5000), Rgb8 { r: 7, g: 0, b: 0 });
    assert_eq!(countdown_pulse_color(1400, 5000), Rgb8 { r: 92, g: 0, b: 0 });
    // Pulse period 333 (odd): the first falling step reaches 256, whose low byte is 0.
    assert_eq!(countdown_pulse_color(166, 166), Rgb8 { r: 0, g: 0, b: 0 });
}

#[test]
fn countdown_frames_announce_each_second() {
    assert_eq!(
        countdown_frame(0),
        CountdownFrame { color: Rgb8 { r: 0, g: 0, b: 0 }, seconds_left: Some(5) }
    );
    assert_eq!(
        countdown_frame(1),
        CountdownFrame { color: Rgb8 { r: 26, g: 0, b: 0 }, seconds_left: None }
    );
    assert_eq!(
        countdown_frame(10),
        CountdownFrame { color: Rgb8 { r: 46, g: 0, b: 0 }, seconds_left: Some(4) }
    );
    assert_eq!(countdown_frame(40).seconds_left, Some(1));
    assert_eq!(
        countdown_frame(49),
        CountdownFrame {
            color: countdown_pulse_color(4900, BLINK_DURATION_MS),
            seconds_left: None
        }
    );
}

#[test]
fn idle_color_breathes() {
    assert_eq!(idle_breathing_color(0), Rgb8 { r: 0, g: 3, b: 7 });
    assert_eq!(idle_breathing_color(750), Rgb8 { r: 0, g: 11, b: 23 });
    assert_eq!(idle_breathing_color(1500), Rgb8 { r: 0, g: 19, b: 39 });
    assert_eq!(idle_breathing_color(4500), idle_breathing_color(1500));
}

#[test]
fn named_colors() {
    assert_eq!(idle_color(), Rgb8 { r: 0, g: 50, b: 100 });
    assert_eq!(launch_color(), Rgb8 { r: 255, g: 0, b: 0 });
    assert_eq!(startup_color(), Rgb8 { r: 0, g: 100, b: 0 });
    assert_eq!(error_color(), Rgb8 { r: 100, g: 50, b: 0 });
    assert_eq!(off_color(), Rgb8 { r: 0, g: 0, b: 0 });
}

#[test]
fn startup_sequence_flashes_green_three_times() {
    let green = LedFrame { color: startup_color(), hold_ms: 200 };
    let dark = LedFrame { color: off_color(), hold_ms: 200 };
    assert_eq!(startup_sequence(), vec![green, dark, green, dark, green, dark]);
}

#[test]
fn launch_feedback_on_success_and_failure() {
    let launch = LedFrame { color: launch_color(), hold_ms: 2000 };
    assert_eq!(launch_feedback(true), vec![launch]);
    let orange = LedFrame { color: error_color(), hold_ms: 200 };
    let dark = LedFrame { color: off_color(), hold_ms: 200 };
    assert_eq!(launch_feedback(false), vec![orange, dark, orange, dark, orange, dark, launch]);
}

#[test]
fn countdown_stays_red_and_announces_five_seconds() {
    let mut announced = Vec::new();
    for step in 0..50u32 {
        let frame = countdown_frame(step);
        assert_eq!(frame.color.g, 0);
        assert_eq!(frame.color.b, 0);
        if let Some(s) = frame.seconds_left {
            announced.push(s);
        }
    }
    assert_eq!(announced, vec![5, 4, 3, 2, 1]);
}

#[test]
fn idle_breathing_never_exceeds_idle_color() {
    for t in (0..6000u32).step_by(50) {
        let c = idle_breathing_color(t);
        assert_eq!(c.r, 0);
        assert!(c.g <= 50 && c.b <= 100);
    }
}
