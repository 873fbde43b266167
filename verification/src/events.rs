use vstd::prelude::*;

use vstd::string::*;

use std::fmt::Write;

use crate::decimal::{decimal_text, push_decimal};
use crate::pages::{
    ADMIN_PAGE_HEAD, ADMIN_PAGE_MIDDLE, ADMIN_PAGE_TAIL, ADMIN_TIME_FORMAT, CELL_BREAK,
    NO_EVENTS_ROW, ROW_BREAK, ROW_CLOSE, ROW_OPEN, UNKNOWN_DEVICE,
};

verus! {

/// A moment in UTC: seconds since the Unix epoch and the nanoseconds within the second.
#[derive(Clone, Copy, Debug, PartialEq, Eq, Structural)]
pub struct Timestamp {
    pub seconds: i64,
    pub nanos: u32,
}

/// The text that chrono writes for the UTC time `seconds`/`nanos` under the
/// strftime `pattern`.
pub uninterp spec fn utc_formatted(seconds: i64, nanos: u32, pattern: Seq<char>) -> Seq<char>;

/// `chrono::Utc::now`, taken apart into seconds and nanoseconds. Of the value
/// only what holds of every reading is stated: a time after the Unix epoch
/// (chrono stops before returning an earlier one) and a nanosecond count
/// within its second (the reading comes from `Duration::subsec_nanos`). Which
/// time it is, is whatever the clock says.
#[verifier::external_body]
fn utc_now() -> (t: Timestamp)
    ensures
        t.seconds >= 0,
        t.nanos < 1_000_000_000,
{
    let now = chrono::Utc::now();
    Timestamp { seconds: now.timestamp(), nanos: now.timestamp_subsec_nanos() }
}

/// `chrono::DateTime::<Utc>::from_timestamp` followed by `format(pattern)`:
/// the formatted time. What the text is, is left to the name `utc_formatted`.
#[verifier::external_body]
fn format_utc(seconds: i64, nanos: u32, pattern: &str) -> (text: String)
    ensures
        text@ == utc_formatted(seconds, nanos, pattern@),
{
    let mut text = String::new();
    if let Some(moment) = chrono::DateTime::from_timestamp(seconds, nanos) {
        let _ = write!(text, "{}", moment.format(pattern));
    }
    text
}

/// One press of a button that reached the backend.
#[derive(Debug)]
pub struct ButtonPress {
    pub id: usize,
    pub timestamp: Timestamp,
    pub device_id: Option<String>,
}

impl Clone for ButtonPress {
    fn clone(&self) -> (copy: Self)
        ensures
            copy == *self,
    {
        let device_id = match &self.device_id {
            Some(d) => Some(d.clone()),
            None => None,
        };
        ButtonPress { id: self.id, timestamp: self.timestamp, device_id }
    }
}

/// Text of the answer to a press.
pub const DESTROYED_STATUS: &'static str = "WORLD DESTROYED";

pub const LAUNCH_MESSAGE: &'static str = "\u{1F4A5} Nuclear launch successful! Goodbye cruel world!";

/// The backend's answer to a press: its status text, the new event's number,
/// a message and the time at which the press was recorded.
#[derive(Clone, Copy, Debug)]
pub struct DestroyReply {
    pub status: &'static str,
    pub event_id: usize,
    pub message: &'static str,
    pub timestamp: Timestamp,
}

/// The device column of the admin table.
pub open spec fn device_label(device_id: Option<String>) -> Seq<char> {
    match device_id {
        Some(d) => d@,
        None => UNKNOWN_DEVICE@,
    }
}

/// The admin table row of one press: its number, its time and its device.
pub open spec fn event_row(press: ButtonPress) -> Seq<char> {
    ROW_OPEN@ + decimal_text(press.id as nat) + CELL_BREAK@ + utc_formatted(
        press.timestamp.seconds,
        press.timestamp.nanos,
        ADMIN_TIME_FORMAT@,
    ) + CELL_BREAK@ + device_label(press.device_id) + ROW_CLOSE@
}

/// The rows of `events`, newest first, one per line.
pub open spec fn rows_newest_first(events: Seq<ButtonPress>) -> Seq<char>
    decreases events.len(),
{
    if events.len() == 0 {
        Seq::empty()
    } else if events.len() == 1 {
        event_row(events[0])
    } else {
        rows_newest_first(events.drop_first()) + ROW_BREAK@ + event_row(events[0])
    }
}

/// The body of the admin table: a placeholder row while there are no presses.
pub open spec fn event_rows(events: Seq<ButtonPress>) -> Seq<char> {
    if events.len() == 0 {
        NO_EVENTS_ROW@
    } else {
        rows_newest_first(events)
    }
}

/// The admin page: the total number of destructions and the table of presses.
pub open spec fn admin_page_text(events: Seq<ButtonPress>) -> Seq<char> {
    ADMIN_PAGE_HEAD@ + decimal_text(events.len()) + ADMIN_PAGE_MIDDLE@ + event_rows(events)
        + ADMIN_PAGE_TAIL@
}

fn push_event_row(out: &mut String, press: &ButtonPress)
    ensures
        final(out)@ == old(out)@ + event_row(*press),
{
    out.append(ROW_OPEN);
    push_decimal(out, press.id);
    out.append(CELL_BREAK);
    let when = format_utc(press.timestamp.seconds, press.timestamp.nanos, ADMIN_TIME_FORMAT);
    out.append(when.as_str());
    out.append(CELL_BREAK);
    match &press.device_id {
        Some(d) => out.append(d.as_str()),
        None => out.append(UNKNOWN_DEVICE),
    }
    out.append(ROW_CLOSE);
}

/// Every press that reached the backend, in arrival order.
pub struct EventLog {
    events: Vec<ButtonPress>,
}

impl View for EventLog {
    type V = Seq<ButtonPress>;

    closed spec fn view(&self) -> Seq<ButtonPress> {
        self.events@
    }
}

/// Presses are numbered 1, 2, 3, ... in the order in which they arrive.
pub open spec fn numbered_in_order(events: Seq<ButtonPress>) -> bool {
    forall|i: int| 0 <= i < events.len() ==> #[trigger] events[i].id == i + 1
}

impl EventLog {
    #[verifier::type_invariant]
    spec fn numbered(&self) -> bool {
        numbered_in_order(self.events@)
    }

    /// An empty log.
    pub fn new() -> (log: EventLog)
        ensures
            log@ == Seq::<ButtonPress>::empty(),
    {
        EventLog { events: Vec::new() }
    }

    /// Number of presses recorded.
    pub fn len(&self) -> (n: usize)
        ensures
            n == self@.len(),
    {
        self.events.len()
    }

    /// Whether nothing has been recorded yet.
    pub fn is_empty(&self) -> (empty: bool)
        ensures
            empty == (self@.len() == 0),
    {
        self.events.len() == 0
    }

    /// Records a press made at `timestamp` by `device_id`; it gets the next number.
    pub fn record(&mut self, timestamp: Timestamp, device_id: Option<String>) -> (press: ButtonPress)
        requires
            old(self)@.len() < usize::MAX,
        ensures
            press == (ButtonPress { id: (old(self)@.len() + 1) as usize, timestamp, device_id }),
            final(self)@ == old(self)@.push(press),
    {
        proof {
            use_type_invariant(&*self);
        }
        let id = self.events.len() + 1;
        let press = ButtonPress { id, timestamp, device_id };
        let stored = press.clone();
        let mut events: Vec<ButtonPress> = Vec::new();
        std::mem::swap(&mut events, &mut self.events);
        events.push(stored);
        assert(numbered_in_order(events@));
        self.events = events;
        press
    }

    /// Handles a press of the button: stamps it with the current time, records
    /// it and answers with its number.
    pub fn press_button(&mut self, device_id: Option<String>) -> (reply: DestroyReply)
        requires
            old(self)@.len() < usize::MAX,
        ensures
            reply.status == DESTROYED_STATUS,
            reply.timestamp.seconds >= 0,
            reply.timestamp.nanos < 1_000_000_000,
            reply.message == LAUNCH_MESSAGE,
            reply.event_id == old(self)@.len() + 1,
            final(self)@ == old(self)@.push(
                ButtonPress { id: reply.event_id, timestamp: reply.timestamp, device_id },
            ),
    {
        let timestamp = utc_now();
        let press = self.record(timestamp, device_id);
        DestroyReply {
            status: DESTROYED_STATUS,
            event_id: press.id,
            message: LAUNCH_MESSAGE,
            timestamp,
        }
    }

    /// The admin page for the presses recorded so far.
    pub fn admin_page(&self) -> (page: String)
        ensures
            page@ == admin_page_text(self@),
    {
        let n = self.events.len();
        let mut page = String::from_str(ADMIN_PAGE_HEAD);
        push_decimal(&mut page, n);
        page.append(ADMIN_PAGE_MIDDLE);
        let ghost prefix = page@;
        if n == 0 {
            page.append(NO_EVENTS_ROW);
        } else {
            let mut k: usize = n;
            assert(self.events@.skip(n as int).len() == 0);
            while k > 0
                invariant
                    k <= n,
                    n == self.events@.len(),
                    n > 0,
                    page@ == prefix + rows_newest_first(self.events@.skip(k as int)),
                decreases k,
            {
                let ghost before = page@;
                let ghost tail = self.events@.skip(k - 1);
                assert(tail[0] == self.events@[k - 1]);
                assert(tail.drop_first() == self.events@.skip(k as int));
                if k < n {
                    page.append(ROW_BREAK);
                }
                push_event_row(&mut page, &self.events[k - 1]);
                proof {
                    if k == n {
                        assert(tail.len() == 1);
                        assert(before == prefix + Seq::<char>::empty());
                    } else {
                        assert(page@ == prefix + (rows_newest_first(self.events@.skip(k as int))
                            + ROW_BREAK@ + event_row(self.events@[k - 1])));
                    }
                }
                k = k - 1;
            }
            assert(self.events@.skip(0) == self.events@);
        }
        page.append(ADMIN_PAGE_TAIL);
        page
    }

    /// A copy of every recorded press, oldest first.
    pub fn events(&self) -> (all: Vec<ButtonPress>)
        ensures
            all@ == self@,
            numbered_in_order(all@),
    {
        proof {
            use_type_invariant(self);
        }
        let mut all: Vec<ButtonPress> = Vec::new();
        let mut i: usize = 0;
        while i < self.events.len()
            invariant
                i <= self.events@.len(),
                all@ == self.events@.take(i as int),
            decreases self.events.len() - i,
        {
            all.push(self.events[i].clone());
            assert(self.events@.take(i + 1) == self.events@.take(i as int).push(self.events@[i as int]));
            i = i + 1;
        }
        assert(self.events@.take(i as int) == self.events@);
        all
    }
}


/// Recording the next press keeps the log numbered 1, 2, 3, ... in arrival order.
pub proof fn recording_keeps_numbering(events: Seq<ButtonPress>, press: ButtonPress)
    requires
        numbered_in_order(events),
        press.id == events.len() + 1,
    ensures
        numbered_in_order(events.push(press)),
{
    assert forall|i: int| 0 <= i < events.push(press).len() implies #[trigger] events.push(
        press,
    )[i].id == i + 1 by {
        if i < events.len() {
            assert(events.push(press)[i] == events[i]);
        }
    }
}

/// The log after presses by `devices` at `times`, one after another, each
/// recorded as `record` and `press_button` record it.
pub open spec fn log_after(log: Seq<ButtonPress>, devices: Seq<Option<String>>, times: Seq<Timestamp>) -> Seq<ButtonPress>
    decreases devices.len(),
{
    if devices.len() == 0 {
        log
    } else {
        log_after(
            log.push(ButtonPress { id: (log.len() + 1) as usize, timestamp: times[0], device_id: devices[0] }),
            devices.drop_first(),
            times.drop_first(),
        )
    }
}

proof fn lemma_log_after(log: Seq<ButtonPress>, devices: Seq<Option<String>>, times: Seq<Timestamp>)
    requires
        devices.len() == times.len(),
        log.len() + devices.len() < usize::MAX,
    ensures
        log_after(log, devices, times) == log + Seq::new(
            devices.len(),
            |j: int| ButtonPress { id: (log.len() + j + 1) as usize, timestamp: times[j], device_id: devices[j] },
        ),
    decreases devices.len(),
{
    let f = |j: int| ButtonPress { id: (log.len() + j + 1) as usize, timestamp: times[j], device_id: devices[j] };
    if devices.len() > 0 {
        let first = ButtonPress { id: (log.len() + 1) as usize, timestamp: times[0], device_id: devices[0] };
        let next = log.push(first);
        lemma_log_after(next, devices.drop_first(), times.drop_first());
        let g = |j: int| ButtonPress {
            id: (next.len() + j + 1) as usize,
            timestamp: times.drop_first()[j],
            device_id: devices.drop_first()[j],
        };
        assert(next + Seq::new((devices.len() - 1) as nat, g) =~= log + Seq::new(devices.len(), f));
    } else {
        assert(log + Seq::new(devices.len(), f) =~= log);
    }
}

/// One press, as `press_button` and `record` state it, is one step of `log_after`;
/// runs of presses compose.
pub proof fn presses_compose(
    log: Seq<ButtonPress>,
    devices: Seq<Option<String>>,
    times: Seq<Timestamp>,
    device: Option<String>,
    time: Timestamp,
)
    requires
        devices.len() == times.len(),
    ensures
        log_after(log, seq![device], seq![time]) == log.push(
            ButtonPress { id: (log.len() + 1) as usize, timestamp: time, device_id: device },
        ),
        log_after(log, devices.push(device), times.push(time)) == log_after(
            log_after(log, devices, times),
            seq![device],
            seq![time],
        ),
    decreases devices.len(),
{
    let one = ButtonPress { id: (log.len() + 1) as usize, timestamp: time, device_id: device };
    assert(seq![device].drop_first().len() == 0);
    assert(log_after(log.push(one), seq![device].drop_first(), seq![time].drop_first()) == log.push(
        one,
    ));
    assert(log_after(log, seq![device], seq![time]) == log.push(one));
    if devices.len() == 0 {
        assert(devices.push(device) == seq![device]);
        assert(times.push(time) == seq![time]);
        assert(log_after(log, devices, times) == log);
    } else {
        let first = ButtonPress { id: (log.len() + 1) as usize, timestamp: times[0], device_id: devices[0] };
        assert(devices.push(device).drop_first() == devices.drop_first().push(device));
        assert(times.push(time).drop_first() == times.drop_first().push(time));
        presses_compose(log.push(first), devices.drop_first(), times.drop_first(), device, time);
    }
}

/// Listing the events after k presses on a fresh log gives exactly those k
/// presses, oldest first: press j is numbered j and carries its device and
/// the time it was recorded at.
pub proof fn listing_after_presses(devices: Seq<Option<String>>, times: Seq<Timestamp>)
    requires
        devices.len() == times.len(),
        devices.len() < usize::MAX,
    ensures
        log_after(Seq::empty(), devices, times).len() == devices.len(),
        forall|j: int|
            0 <= j < devices.len() ==> #[trigger] log_after(Seq::empty(), devices, times)[j] == (ButtonPress {
                id: (j + 1) as usize,
                timestamp: times[j],
                device_id: devices[j],
            }),
        numbered_in_order(log_after(Seq::empty(), devices, times)),
{
    lemma_log_after(Seq::empty(), devices, times);
}

/// The admin table shows the newest press on top: after a new press the
/// table is that press's row, a line break, and the table as it was.
pub proof fn newest_press_listed_first(events: Seq<ButtonPress>, press: ButtonPress)
    requires
        events.len() > 0,
    ensures
        rows_newest_first(events.push(press)) == event_row(press) + ROW_BREAK@ + rows_newest_first(
            events,
        ),
    decreases events.len(),
{
    let all = events.push(press);
    if events.len() == 1 {
        assert(all.drop_first() == seq![press]);
        assert(rows_newest_first(all.drop_first()) == event_row(press));
        assert(all[0] == events[0]);
    } else {
        assert(all.drop_first() == events.drop_first().push(press));
        newest_press_listed_first(events.drop_first(), press);
        assert(all[0] == events[0]);
        assert(rows_newest_first(all) == event_row(press) + ROW_BREAK@ + rows_newest_first(
            events.drop_first(),
        ) + ROW_BREAK@ + event_row(events[0]));
    }
}

/// `part` stands in `text` starting at position `at`.
pub open spec fn occurs_at(text: Seq<char>, part: Seq<char>, at: int) -> bool {
    0 <= at && at + part.len() <= text.len() && text.subrange(at, at + part.len()) == part
}

proof fn lemma_occurs_extend(text: Seq<char>, part: Seq<char>, at: int, before: Seq<char>, after: Seq<char>)
    requires
        occurs_at(text, part, at),
    ensures
        occurs_at(before + text + after, part, at + before.len()),
{
    let big = before + text + after;
    assert(big.subrange(at + before.len(), at + before.len() + part.len()) =~= text.subrange(
        at,
        at + part.len(),
    ));
}

proof fn lemma_rows_hold_every_press(events: Seq<ButtonPress>, i: int)
    requires
        0 <= i < events.len(),
    ensures
        exists|at: int| occurs_at(rows_newest_first(events), event_row(events[i]), at),
    decreases events.len(),
{
    let row = event_row(events[i]);
    if events.len() == 1 {
        assert(occurs_at(rows_newest_first(events), row, 0)) by {
            assert(rows_newest_first(events).subrange(0, row.len() as int) =~= row);
        }
    } else {
        let rest = rows_newest_first(events.drop_first());
        let tail = ROW_BREAK@ + event_row(events[0]);
        assert(rows_newest_first(events) == rest + tail);
        if i == 0 {
            let at: int = (rest.len() + ROW_BREAK@.len()) as int;
            assert(occurs_at(rest + tail, row, at)) by {
                assert((rest + tail).subrange(at, at + row.len()) =~= row);
            }
        } else {
            lemma_rows_hold_every_press(events.drop_first(), i - 1);
            assert(events.drop_first()[i - 1] == events[i]);
            let at = choose|at: int| occurs_at(rest, row, at);
            lemma_occurs_extend(rest, row, at, Seq::empty(), tail);
            assert(Seq::<char>::empty() + rest + tail == rest + tail);
        }
    }
}

/// The admin page lists every recorded press, the oldest as well as the
/// newest: for each press its row stands somewhere in the page, and with
/// presses recorded the table is exactly their rows, newest first.
pub proof fn admin_page_lists_every_press(events: Seq<ButtonPress>, i: int)
    requires
        0 <= i < events.len(),
    ensures
        event_rows(events) == rows_newest_first(events),
        exists|at: int| occurs_at(admin_page_text(events), event_row(events[i]), at),
{
    lemma_rows_hold_every_press(events, i);
    let row = event_row(events[i]);
    let at = choose|at: int| occurs_at(rows_newest_first(events), row, at);
    let before = ADMIN_PAGE_HEAD@ + decimal_text(events.len()) + ADMIN_PAGE_MIDDLE@;
    lemma_occurs_extend(rows_newest_first(events), row, at, before, ADMIN_PAGE_TAIL@);
    assert(admin_page_text(events) == before + rows_newest_first(events) + ADMIN_PAGE_TAIL@);
}

/// The first press turns the placeholder row into that press's row, and the
/// page counts one destruction.
pub proof fn first_press_replaces_placeholder(press: ButtonPress)
    ensures
        event_rows(Seq::<ButtonPress>::empty().push(press)) == event_row(press),
        event_rows(Seq::<ButtonPress>::empty()) == NO_EVENTS_ROW@,
{
    assert(Seq::<ButtonPress>::empty().push(press) == seq![press]);
}

} // verus!
