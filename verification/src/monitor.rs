use vstd::prelude::*;

use crate::led::{
    countdown_frame, countdown_frame_spec, idle_breathing, idle_breathing_color, launch_feedback,
    launch_feedback_spec, LedFrame, Rgb8, COUNTDOWN_STEPS, COUNTDOWN_STEP_MS,
};

verus! {

/// Interval at which the button is sampled; the breathing animation advances
/// by the same amount on every idle sample.
pub const POLL_INTERVAL_MS: u32 = 50;

/// Pause after a launch before the button is sampled again.
pub const DEBOUNCE_MS: u32 = 500;

/// Identifier that the device reports to the backend.
pub const DEVICE_ID: &'static str = "esp32-button-001";

/// The decisions of the device's main loop: the button level seen last, the
/// number of launches so far and how long the LED has been breathing.
#[derive(Clone, Copy, Debug, PartialEq, Eq, Structural)]
pub struct ButtonMonitor {
    pub launch_count: u32,
    pub last_high: bool,
    pub idle_time_ms: u32,
}

/// What the main loop does after one sample of the button.
#[derive(Clone, Copy, Debug, PartialEq, Eq, Structural)]
pub enum MonitorAction {
    /// The button was just pressed: run the countdown and report launch number `launch_count`.
    Launch { launch_count: u32 },
    /// No new press: show this breathing colour.
    Breathe { color: Rgb8 },
}

/// A press is a falling edge: the input (pulled up, active low) was high on the
/// previous sample and is low now.
pub open spec fn is_press(last_high: bool, current_high: bool) -> bool {
    last_high && !current_high
}

/// The state and action after sampling `current_high` in state `m`.
pub open spec fn monitor_step(m: ButtonMonitor, current_high: bool) -> (ButtonMonitor, MonitorAction) {
    if is_press(m.last_high, current_high) {
        (
            ButtonMonitor {
                launch_count: (m.launch_count + 1) as u32,
                last_high: current_high,
                idle_time_ms: 0,
            },
            MonitorAction::Launch { launch_count: (m.launch_count + 1) as u32 },
        )
    } else {
        (
            ButtonMonitor {
                launch_count: m.launch_count,
                last_high: current_high,
                idle_time_ms: m.idle_time_ms.wrapping_add(POLL_INTERVAL_MS),
            },
            MonitorAction::Breathe { color: idle_breathing(m.idle_time_ms) },
        )
    }
}

impl ButtonMonitor {
    /// A monitor that has seen no launch yet, armed with the button level read at start-up.
    pub fn new(initial_high: bool) -> (m: ButtonMonitor)
        ensures
            m == (ButtonMonitor { launch_count: 0, last_high: initial_high, idle_time_ms: 0 }),
    {
        ButtonMonitor { launch_count: 0, last_high: initial_high, idle_time_ms: 0 }
    }

    /// Handle one sample of the button level. A falling edge counts a launch
    /// and restarts the breathing animation; anything else advances it.
    pub fn step(&mut self, current_high: bool) -> (action: MonitorAction)
        requires
            is_press(old(self).last_high, current_high) ==> old(self).launch_count < u32::MAX,
        ensures
            (*final(self), action) == monitor_step(*old(self), current_high),
    {
        if self.last_high && !current_high {
            self.launch_count = self.launch_count + 1;
            self.idle_time_ms = 0;
            self.last_high = current_high;
            MonitorAction::Launch { launch_count: self.launch_count }
        } else {
            let color = idle_breathing_color(self.idle_time_ms);
            self.idle_time_ms = self.idle_time_ms.wrapping_add(POLL_INTERVAL_MS);
            self.last_high = current_high;
            MonitorAction::Breathe { color }
        }
    }
}

/// Number of falling edges in a run of samples that starts from level `first_high`.
pub open spec fn count_presses(first_high: bool, samples: Seq<bool>) -> nat
    decreases samples.len(),
{
    if samples.len() == 0 {
        0
    } else {
        let prev = if samples.len() == 1 { first_high } else { samples[samples.len() - 2] };
        count_presses(first_high, samples.drop_last()) + if is_press(prev, samples.last()) {
            1nat
        } else {
            0nat
        }
    }
}

/// The monitor after a run of samples.
pub open spec fn run_monitor(m: ButtonMonitor, samples: Seq<bool>) -> ButtonMonitor
    decreases samples.len(),
{
    if samples.len() == 0 {
        m
    } else {
        monitor_step(run_monitor(m, samples.drop_last()), samples.last()).0
    }
}

/// The launch counter counts exactly the falling edges of the button, and the
/// monitor remembers the last level it saw, for as long as the counter has
/// room for the presses.
pub proof fn launch_count_counts_presses(m: ButtonMonitor, samples: Seq<bool>)
    requires
        m.launch_count + count_presses(m.last_high, samples) <= u32::MAX,
    ensures
        run_monitor(m, samples).launch_count == m.launch_count + count_presses(m.last_high, samples),
        run_monitor(m, samples).last_high == if samples.len() == 0 {
            m.last_high
        } else {
            samples.last()
        },
    decreases samples.len(),
{
    if samples.len() > 0 {
        let init = samples.drop_last();
        launch_count_counts_presses(m, init);
        if samples.len() >= 2 {
            assert(init.last() == samples[samples.len() - 2]);
        }
    }
}

/// Every sample that is not a new press keeps the idle LED breathing: the
/// colour is the idle breathing colour at the monitor's idle time, whatever
/// level the button shows (held down or released), and the breathing clock
/// moves on by one sampling interval while the launch count stays.
pub proof fn idle_samples_breathe(m: ButtonMonitor, current_high: bool)
    requires
        !is_press(m.last_high, current_high),
    ensures
        monitor_step(m, current_high).1 == (MonitorAction::Breathe { color: idle_breathing(m.idle_time_ms) }),
        monitor_step(m, current_high).1 == monitor_step(m, m.last_high).1,
        monitor_step(m, current_high).0.launch_count == m.launch_count,
        monitor_step(m, current_high).0.idle_time_ms as int == (m.idle_time_ms + POLL_INTERVAL_MS)
            % 0x1_0000_0000,
        monitor_step(m, current_high).0.last_high == current_high,
{
}

/// A new press always launches, with the next launch number, and restarts the
/// breathing clock.
pub proof fn presses_launch(m: ButtonMonitor)
    requires
        m.last_high,
        m.launch_count < u32::MAX,
    ensures
        monitor_step(m, false).1 == (MonitorAction::Launch { launch_count: (m.launch_count + 1) as u32 }),
        monitor_step(m, false).0 == (ButtonMonitor {
            launch_count: (m.launch_count + 1) as u32,
            last_high: false,
            idle_time_ms: 0,
        }),
{
}

/// Holding the button down (or leaving it up) never launches twice: two
/// samples at the same level in a row give no launch on the second.
pub proof fn no_launch_without_new_press(m: ButtonMonitor, level: bool)
    requires
        m.last_high == level,
    ensures
        monitor_step(m, level).1 is Breathe,
        monitor_step(m, level).0.launch_count == m.launch_count,
{
}

/// A reported status of the WiFi controller calls for action only when the
/// controller answered, and answered "no" (not started, or not connected); an
/// error from the controller is left for the next round.
pub open spec fn status_calls_for_action(status: Option<bool>) -> bool {
    status == Some(false)
}

/// Whether the connection task must (re)start or (re)connect, given what the
/// controller reported (`None` when the query failed).
pub fn needs_action(status: Option<bool>) -> (act: bool)
    ensures
        act == status_calls_for_action(status),
{
    match status {
        Some(false) => true,
        _ => false,
    }
}

/// Pause of the connection task after a failed connection attempt.
pub const RECONNECT_DELAY_MS: u32 = 5000;

/// Pause between two rounds of the connection task.
pub const WIFI_POLL_MS: u32 = 1000;

/// The pauses that end one round of the connection task, given the outcome of
/// the connection attempt made in it (`None` when none was made): after a
/// failed attempt 5 s, then in every round 1 s.
pub open spec fn connection_round_pauses_spec(connect_outcome: Option<bool>) -> Seq<u32> {
    if connect_outcome == Some(false) {
        seq![RECONNECT_DELAY_MS, WIFI_POLL_MS]
    } else {
        seq![WIFI_POLL_MS]
    }
}

pub fn connection_round_pauses(connect_outcome: Option<bool>) -> (pauses: Vec<u32>)
    ensures
        pauses@ == connection_round_pauses_spec(connect_outcome),
{
    let mut pauses: Vec<u32> = Vec::new();
    if let Some(false) = connect_outcome {
        pauses.push(RECONNECT_DELAY_MS);
    }
    pauses.push(WIFI_POLL_MS);
    pauses
}

/// One thing the device does while launching.
#[derive(Clone, Copy, Debug, PartialEq, Eq, Structural)]
pub enum LaunchStep {
    /// Write this colour to the LED and hold it for its time.
    Show(LedFrame),
    /// Announce the number of seconds left.
    Announce(u32),
    /// Report the press to the backend.
    SendEvent,
    /// Wait this many milliseconds with the LED unchanged.
    Wait(u32),
}

/// The steps of countdown step `i`: its colour, held for 100 ms, and on every
/// tenth step the announcement of the seconds left.
pub open spec fn countdown_step_items(i: u32) -> Seq<LaunchStep> {
    let frame = countdown_frame_spec(i);
    let show = seq![LaunchStep::Show(LedFrame { color: frame.color, hold_ms: COUNTDOWN_STEP_MS })];
    match frame.seconds_left {
        Some(s) => show.push(LaunchStep::Announce(s)),
        None => show,
    }
}

/// The first `n` countdown steps, in order.
pub open spec fn countdown_steps(n: nat) -> Seq<LaunchStep>
    decreases n,
{
    if n == 0 {
        Seq::empty()
    } else {
        countdown_steps((n - 1) as nat) + countdown_step_items((n - 1) as u32)
    }
}

/// What a press sets off before the outcome of the delivery is known: the 50
/// countdown steps, 100 ms apart, and only then, once, the report to the backend.
pub open spec fn launch_sequence_spec() -> Seq<LaunchStep> {
    countdown_steps(COUNTDOWN_STEPS as nat).push(LaunchStep::SendEvent)
}

/// What follows the report: the feedback on the LED for the outcome, its
/// 2000 ms hold included, then the 500 ms debounce pause.
pub open spec fn after_delivery_spec(delivered: bool) -> Seq<LaunchStep> {
    launch_feedback_spec(delivered).map_values(|f: LedFrame| LaunchStep::Show(f)).push(
        LaunchStep::Wait(DEBOUNCE_MS),
    )
}

/// The steps of a launch up to and including the report to the backend.
pub fn launch_sequence() -> (steps: Vec<LaunchStep>)
    ensures
        steps@ == launch_sequence_spec(),
{
    let mut steps: Vec<LaunchStep> = Vec::new();
    let mut i: u32 = 0;
    while i < COUNTDOWN_STEPS
        invariant
            i <= COUNTDOWN_STEPS,
            steps@ == countdown_steps(i as nat),
        decreases COUNTDOWN_STEPS - i,
    {
        let frame = countdown_frame(i);
        steps.push(LaunchStep::Show(LedFrame { color: frame.color, hold_ms: COUNTDOWN_STEP_MS }));
        if let Some(s) = frame.seconds_left {
            steps.push(LaunchStep::Announce(s));
        }
        assert(countdown_steps((i + 1) as nat) == countdown_steps(i as nat) + countdown_step_items(i));
        i = i + 1;
    }
    steps.push(LaunchStep::SendEvent);
    steps
}

/// The steps of a launch after the report, given whether the backend took it.
pub fn after_delivery(delivered: bool) -> (steps: Vec<LaunchStep>)
    ensures
        steps@ == after_delivery_spec(delivered),
{
    let frames = launch_feedback(delivered);
    let mut steps: Vec<LaunchStep> = Vec::new();
    let mut i: usize = 0;
    while i < frames.len()
        invariant
            i <= frames@.len(),
            steps@ == frames@.take(i as int).map_values(|f: LedFrame| LaunchStep::Show(f)),
        decreases frames.len() - i,
    {
        steps.push(LaunchStep::Show(frames[i]));
        assert(frames@.take(i + 1) == frames@.take(i as int).push(frames@[i as int]));
        i = i + 1;
    }
    assert(frames@.take(i as int) == frames@);
    steps.push(LaunchStep::Wait(DEBOUNCE_MS));
    steps
}

proof fn lemma_countdown_steps_no_send(n: nat)
    requires
        n <= COUNTDOWN_STEPS,
    ensures
        forall|k: int| 0 <= k < countdown_steps(n).len() ==> #[trigger] countdown_steps(n)[k]
            != LaunchStep::SendEvent,
        countdown_steps(n).len() >= n,
    decreases n,
{
    if n > 0 {
        let prev = countdown_steps((n - 1) as nat);
        let items = countdown_step_items((n - 1) as u32);
        lemma_countdown_steps_no_send((n - 1) as nat);
        assert forall|k: int| 0 <= k < countdown_steps(n).len() implies #[trigger] countdown_steps(
            n,
        )[k] != LaunchStep::SendEvent by {
            if k < prev.len() {
                assert(countdown_steps(n)[k] == prev[k]);
            } else {
                assert(countdown_steps(n)[k] == items[k - prev.len()]);
            }
        }
    }
}

/// A launch reports the press exactly once, as its last step, after every
/// countdown step: the countdown precedes the report and nothing else reports.
pub proof fn launch_reports_once_after_countdown()
    ensures
        launch_sequence_spec().last() == LaunchStep::SendEvent,
        launch_sequence_spec().len() >= COUNTDOWN_STEPS + 1,
        forall|k: int|
            0 <= k < launch_sequence_spec().len() - 1 ==> #[trigger] launch_sequence_spec()[k]
                != LaunchStep::SendEvent,
        forall|i: u32|
            i < COUNTDOWN_STEPS ==> #[trigger] countdown_step_items(i)[0] == LaunchStep::Show(
                LedFrame { color: countdown_frame_spec(i).color, hold_ms: COUNTDOWN_STEP_MS },
            ),
{
    lemma_countdown_steps_no_send(COUNTDOWN_STEPS as nat);
    let c = countdown_steps(COUNTDOWN_STEPS as nat);
    assert forall|k: int| 0 <= k < launch_sequence_spec().len() - 1 implies #[trigger] launch_sequence_spec()[k]
        != LaunchStep::SendEvent by {
        assert(launch_sequence_spec()[k] == c[k]);
    }
}

} // verus!
