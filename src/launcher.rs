//! The launch policy. On each tick a new invocation of the command is started
//! when fewer than `concurrency` invocations are in flight. Each invocation
//! then runs through its own small state machine, which says when the shared
//! in-flight count goes up or down and what is reported to the operator.

use vstd::prelude::*;
use vstd::string::*;

verus! {

/// Whether a tick that sees `in_flight` running invocations starts another.
pub open spec fn launches(in_flight: int, concurrency: int) -> bool {
    in_flight < concurrency
}

/// The per-tick policy of a run.
pub struct Launcher {
    pub concurrency: u16,
}

impl Launcher {
    pub fn new(concurrency: u16) -> (l: Launcher)
        ensures
            l.concurrency == concurrency,
    {
        Launcher { concurrency }
    }

    /// Decides a tick: start one more invocation, or do nothing.
    pub fn on_tick(&self, in_flight: u16) -> (launch: bool)
        ensures
            launch == launches(in_flight as int, self.concurrency as int),
    {
        in_flight < self.concurrency
    }
}

/// Where one invocation stands.
#[derive(Clone, Copy, Debug, PartialEq, Eq, Structural)]
pub enum Invocation {
    /// Decided on by a tick; the process is being started.
    Pending,
    /// The process runs and counts as in flight.
    Started,
    /// The process could not be started.
    StartFailed,
    /// The process ended, with whatever status.
    Exited,
    /// Waiting for the process failed; it is taken as ended.
    ExitCheckFailed,
}

/// What happens to an invocation, as plain values.
#[derive(Debug, PartialEq)]
pub enum InvocationEvent {
    /// The process was started.
    Spawned,
    /// The process could not be started, for the given cause.
    SpawnFailed(String),
    /// The process ended; `status` describes how.
    Finished { success: bool, status: String },
    /// Waiting for the process failed, for the given cause.
    WaitFailed(String),
}

/// How a step moves the shared in-flight count.
#[derive(Clone, Copy, Debug, PartialEq, Eq, Structural)]
pub enum CountChange {
    Increment,
    Decrement,
    Keep,
}

/// A line for the operator's error stream.
#[derive(Debug, PartialEq)]
pub enum Report {
    StartFailed(String),
    AbnormalExit(String),
    ExitCheckFailed(String),
}

/// The outcome of one step of an invocation.
#[derive(Debug, PartialEq)]
pub struct Step {
    pub state: Invocation,
    pub count: CountChange,
    pub report: Option<Report>,
}

pub open spec fn is_terminal(s: Invocation) -> bool {
    s == Invocation::StartFailed || s == Invocation::Exited || s == Invocation::ExitCheckFailed
}

/// The lifecycle: `Pending` goes to `Started` (count up) or `StartFailed`
/// (reported); `Started` goes to `Exited` or `ExitCheckFailed` (count down,
/// reported unless the process succeeded). Any other event leaves the
/// invocation as it is.
pub open spec fn step_spec(s: Invocation, e: InvocationEvent) -> Step {
    match (s, e) {
        (Invocation::Pending, InvocationEvent::Spawned) => Step {
            state: Invocation::Started,
            count: CountChange::Increment,
            report: None,
        },
        (Invocation::Pending, InvocationEvent::SpawnFailed(cause)) => Step {
            state: Invocation::StartFailed,
            count: CountChange::Keep,
            report: Some(Report::StartFailed(cause)),
        },
        (Invocation::Started, InvocationEvent::Finished { success, status }) => Step {
            state: Invocation::Exited,
            count: CountChange::Decrement,
            report: if success {
                None
            } else {
                Some(Report::AbnormalExit(status))
            },
        },
        (Invocation::Started, InvocationEvent::WaitFailed(cause)) => Step {
            state: Invocation::ExitCheckFailed,
            count: CountChange::Decrement,
            report: Some(Report::ExitCheckFailed(cause)),
        },
        (s, _) => Step { state: s, count: CountChange::Keep, report: None },
    }
}

impl Invocation {
    /// Moves the invocation on by one event.
    pub fn step(self, event: InvocationEvent) -> (r: Step)
        ensures
            r == step_spec(self, event),
    {
        match (self, event) {
            (Invocation::Pending, InvocationEvent::Spawned) => Step {
                state: Invocation::Started,
                count: CountChange::Increment,
                report: None,
            },
            (Invocation::Pending, InvocationEvent::SpawnFailed(cause)) => Step {
                state: Invocation::StartFailed,
                count: CountChange::Keep,
                report: Some(Report::StartFailed(cause)),
            },
            (Invocation::Started, InvocationEvent::Finished { success, status }) => Step {
                state: Invocation::Exited,
                count: CountChange::Decrement,
                report: if success {
                    None
                } else {
                    Some(Report::AbnormalExit(status))
                },
            },
            (Invocation::Started, InvocationEvent::WaitFailed(cause)) => Step {
                state: Invocation::ExitCheckFailed,
                count: CountChange::Decrement,
                report: Some(Report::ExitCheckFailed(cause)),
            },
            (s, _) => Step { state: s, count: CountChange::Keep, report: None },
        }
    }
}

pub open spec fn report_text(r: Report) -> Seq<char> {
    match r {
        Report::StartFailed(cause) => "Failed to start command: "@ + cause@,
        Report::AbnormalExit(status) => "Command exited with "@ + status@,
        Report::ExitCheckFailed(cause) => "Error checking child process status: "@ + cause@,
    }
}

impl Report {
    /// The line written for the report.
    pub fn message(&self) -> (m: String)
        ensures
            m@ == report_text(*self),
    {
        match self {
            Report::StartFailed(cause) => String::from_str("Failed to start command: ").concat(
                cause.as_str(),
            ),
            Report::AbnormalExit(status) => String::from_str("Command exited with ").concat(
                status.as_str(),
            ),
            Report::ExitCheckFailed(cause) => String::from_str(
                "Error checking child process status: ",
            ).concat(cause.as_str()),
        }
    }
}

// ---------------------------------------------------------------------------
// Accounting of one invocation

/// How much a step moves the count, as a number.
pub open spec fn count_delta(c: CountChange) -> int {
    match c {
        CountChange::Increment => 1,
        CountChange::Decrement => -1,
        CountChange::Keep => 0,
    }
}

/// Runs an invocation from `s` through `events`: where it ends, and how many
/// times the count went up and down on the way.
pub open spec fn run_invocation(s: Invocation, events: Seq<InvocationEvent>) -> (Invocation, nat, nat)
    decreases events.len(),
{
    if events.len() == 0 {
        (s, 0, 0)
    } else {
        let st = step_spec(s, events[0]);
        let rest = run_invocation(st.state, events.drop_first());
        (
            rest.0,
            rest.1 + if st.count == CountChange::Increment { 1nat } else { 0nat },
            rest.2 + if st.count == CountChange::Decrement { 1nat } else { 0nat },
        )
    }
}

proof fn lemma_terminal_stays(s: Invocation, events: Seq<InvocationEvent>)
    requires
        is_terminal(s),
    ensures
        run_invocation(s, events) == (s, 0nat, 0nat),
    decreases events.len(),
{
    if events.len() > 0 {
        lemma_terminal_stays(s, events.drop_first());
    }
}

proof fn lemma_started_ends_once(events: Seq<InvocationEvent>)
    ensures
        ({
            let (f, inc, dec) = run_invocation(Invocation::Started, events);
            &&& inc == 0
            &&& f == Invocation::Started ==> dec == 0
            &&& f != Invocation::Started ==> dec == 1 && (f == Invocation::Exited || f
                == Invocation::ExitCheckFailed)
        }),
    decreases events.len(),
{
    if events.len() > 0 {
        let st = step_spec(Invocation::Started, events[0]);
        if st.state == Invocation::Started {
            lemma_started_ends_once(events.drop_first());
        } else {
            lemma_terminal_stays(st.state, events.drop_first());
        }
    }
}

/// Balanced accounting: whatever happens to an invocation, the in-flight
/// count goes up at most once, only when its process started, and goes down
/// exactly once when that process ended (normally, abnormally, or when waiting
/// for it failed); an invocation that never started never moves the count.
pub proof fn lemma_accounting_balanced(events: Seq<InvocationEvent>)
    ensures
        ({
            let (f, inc, dec) = run_invocation(Invocation::Pending, events);
            &&& dec <= inc <= 1
            &&& (f == Invocation::Exited || f == Invocation::ExitCheckFailed) ==> inc == 1 && dec
                == 1
            &&& f == Invocation::Started ==> inc == 1 && dec == 0
            &&& (f == Invocation::Pending || f == Invocation::StartFailed) ==> inc == 0 && dec
                == 0
        }),
    decreases events.len(),
{
    if events.len() > 0 {
        let st = step_spec(Invocation::Pending, events[0]);
        if st.state == Invocation::Pending {
            lemma_accounting_balanced(events.drop_first());
        } else if st.state == Invocation::Started {
            lemma_started_ends_once(events.drop_first());
        } else {
            lemma_terminal_stays(st.state, events.drop_first());
        }
    }
}

// ---------------------------------------------------------------------------
// All invocations of a run

/// The invocations of a run, counted: `in_flight` started and not yet ended
/// (the shared count), `pending` decided on by a tick and not yet started or
/// failed, and the most that were ever pending at once.
pub struct RunCounts {
    pub in_flight: int,
    pub pending: int,
    pub peak_pending: int,
}

/// What happens in a run: a tick, or an event of one of its invocations.
pub enum RunEvent {
    Tick,
    Of(InvocationEvent),
}

/// One event of a run, applying the tick policy and the invocations' steps;
/// `None` where the event cannot happen (nothing is pending to start, or
/// nothing is in flight to end).
pub open spec fn run_step(concurrency: int, c: RunCounts, e: RunEvent) -> Option<RunCounts> {
    match e {
        RunEvent::Tick => if launches(c.in_flight, concurrency) {
            Some(
                RunCounts {
                    in_flight: c.in_flight,
                    pending: c.pending + 1,
                    peak_pending: if c.pending + 1 > c.peak_pending {
                        c.pending + 1
                    } else {
                        c.peak_pending
                    },
                },
            )
        } else {
            Some(c)
        },
        RunEvent::Of(ev) => match ev {
            InvocationEvent::Spawned | InvocationEvent::SpawnFailed(_) => if c.pending > 0 {
                Some(
                    RunCounts {
                        in_flight: c.in_flight + count_delta(
                            step_spec(Invocation::Pending, ev).count,
                        ),
                        pending: c.pending - 1,
                        peak_pending: c.peak_pending,
                    },
                )
            } else {
                None
            },
            InvocationEvent::Finished { .. } | InvocationEvent::WaitFailed(_) => if c.in_flight
                > 0 {
                Some(
                    RunCounts {
                        in_flight: c.in_flight + count_delta(
                            step_spec(Invocation::Started, ev).count,
                        ),
                        pending: c.pending,
                        peak_pending: c.peak_pending,
                    },
                )
            } else {
                None
            },
        },
    }
}

/// The counts after `events`, from a run with nothing in flight.
pub open spec fn run_counts(concurrency: int, events: Seq<RunEvent>) -> Option<RunCounts>
    decreases events.len(),
{
    if events.len() == 0 {
        Some(RunCounts { in_flight: 0, pending: 0, peak_pending: 0 })
    } else {
        match run_counts(concurrency, events.drop_last()) {
            Some(c) => run_step(concurrency, c, events.last()),
            None => None,
        }
    }
}

/// The concurrency bound: at every point of a run, the invocations in flight
/// exceed the limit by less than the most launches that were ever waiting to
/// start at once. Where each launch starts (or fails) before the next tick,
/// the limit is never exceeded.
pub proof fn lemma_in_flight_bounded(concurrency: int, events: Seq<RunEvent>)
    requires
        concurrency >= 1,
    ensures
        run_counts(concurrency, events) matches Some(c) ==> {
            &&& 0 <= c.in_flight
            &&& 0 <= c.pending <= c.peak_pending
            &&& c.in_flight + c.pending <= concurrency - 1 + c.peak_pending
            &&& c.in_flight <= concurrency - 1 + c.peak_pending
            &&& c.peak_pending <= 1 ==> c.in_flight <= concurrency
        },
    decreases events.len(),
{
    if events.len() > 0 {
        lemma_in_flight_bounded(concurrency, events.drop_last());
    }
}

} // verus!
