use big_red_button::led::{
    countdown_pulse_color, error_color, idle_breathing_color, launch_color, off_color, LedFrame,
};
use big_red_button::monitor::{
    after_delivery, connection_round_pauses, launch_sequence, needs_action, ButtonMonitor,
    LaunchStep, MonitorAction,
};

#[test]
fn falling_edge_launches() {
    let mut m = ButtonMonitor::new(true);
    assert_eq!(m.step(true), MonitorAction::Breathe { color: idle_breathing_color(0) });
    assert_eq!(m.idle_time_ms, 50);
    assert_eq!(m.step(false), MonitorAction::Launch { launch_count: 1 });
    assert_eq!(m, ButtonMonitor { launch_count: 1, last_high: false, idle_time_ms: 0 });
}

#[test]
fn holding_the_button_launches_once() {
    let mut m = ButtonMonitor::new(true);
    let samples = [false, false, false, true, true, false, false, true, false];
    let mut launches = Vec::new();
    for s in samples {
        if let MonitorAction::Launch { launch_count } = m.step(s) {
            launches.push(launch_count);
        }
    }
    assert_eq!(launches, vec![1, 2, 3]);
    assert_eq!(m.launch_count, 3);
    assert!(!m.last_high);
}

#[test]
fn button_low_at_start_needs_release_first() {
    let mut m = ButtonMonitor::new(false);
    assert!(matches!(m.step(false), MonitorAction::Breathe { .. }));
    assert!(matches!(m.step(true), MonitorAction::Breathe { .. }));
    assert_eq!(m.step(false), MonitorAction::Launch { launch_count: 1 });
}

#[test]
fn breathing_time_wraps() {
    let mut m = ButtonMonitor { launch_count: 0, last_high: true, idle_time_ms: u32::MAX - 10 };
    let action = m.step(true);
    assert_eq!(action, MonitorAction::Breathe { color: idle_breathing_color(u32::MAX - 10) });
    assert_eq!(m.idle_time_ms, 39);
}

#[test]
fn wifi_acts_only_on_a_clear_no() {
    assert!(needs_action(Some(false)));
    assert!(!needs_action(Some(true)));
    assert!(!needs_action(None));
}

#[test]
fn launch_counts_down_then_reports_once() {
    let steps = launch_sequence();
    assert_eq!(steps.len(), 50 + 5 + 1);
    assert_eq!(*steps.last().unwrap(), LaunchStep::SendEvent);
    assert_eq!(steps.iter().filter(|s| **s == LaunchStep::SendEvent).count(), 1);
    let shows: Vec<LedFrame> = steps
        .iter()
        .filter_map(|s| if let LaunchStep::Show(f) = s { Some(*f) } else { None })
        .collect();
    assert_eq!(shows.len(), 50);
    for (i, f) in shows.iter().enumerate() {
        assert_eq!(f.hold_ms, 100);
        assert_eq!(f.color, countdown_pulse_color(100 * i as u32, 5000));
    }
    assert_eq!(steps[1], LaunchStep::Announce(5));
    let announced: Vec<u32> = steps
        .iter()
        .filter_map(|s| if let LaunchStep::Announce(n) = s { Some(*n) } else { None })
        .collect();
    assert_eq!(announced, vec![5, 4, 3, 2, 1]);
}

#[test]
fn after_delivery_shows_feedback_then_debounces() {
    let launch = LaunchStep::Show(LedFrame { color: launch_color(), hold_ms: 2000 });
    assert_eq!(after_delivery(true), vec![launch, LaunchStep::Wait(500)]);
    let orange = LaunchStep::Show(LedFrame { color: error_color(), hold_ms: 200 });
    let dark = LaunchStep::Show(LedFrame { color: off_color(), hold_ms: 200 });
    assert_eq!(
        after_delivery(false),
        vec![orange, dark, orange, dark, orange, dark, launch, LaunchStep::Wait(500)]
    );
}

#[test]
fn connection_round_pauses_after_outcome() {
    assert_eq!(connection_round_pauses(Some(false)), vec![5000, 1000]);
    assert_eq!(connection_round_pauses(Some(true)), vec![1000]);
    assert_eq!(connection_round_pauses(None), vec![1000]);
}
