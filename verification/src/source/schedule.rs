//! When the collectors work. Each loop wakes on a message from the interface
//! or on one of its timers; what it does then is decided here, and doing it
//! is the caller's part.

use vstd::prelude::*;

use crate::source::Control;

verus! {

/// A collector's timer.
#[derive(Debug, Clone, Copy, PartialEq, Eq, Structural)]
pub enum Timer {
    /// Tick rate and tick times, over RCON.
    Ticks,
    /// The region report, over RCON.
    Regions,
    /// Players and the server's identity, over RCON.
    Roster,
    /// The local process and its heap.
    Process,
    /// The worlds on disk.
    Disk,
}

/// What wakes a collector loop: a message from the interface (`None` once the
/// interface has gone), or one of its timers.
#[derive(Debug, Clone)]
pub enum Wake {
    Control(Option<Control>),
    Timer(Timer),
}

/// A piece of work a collector loop does.
#[derive(Debug, Clone, PartialEq, Eq)]
pub enum Work {
    /// Ask the server for its tick rate and tick times.
    PollTicks,
    /// Ask the server for its region report.
    PollRegions,
    /// Ask the server who is online and, while unknown, what it is.
    PollRoster,
    /// Sample the local process and its heap.
    Sample,
    /// Start measuring the worlds on disk.
    ScanDisk,
    /// Run a command the operator typed.
    Run(String),
    /// Put a line in the log.
    Note(String),
    /// Stop: the interface is gone.
    Stop,
}

/// What a piece of work is, as plain values.
pub enum Planned {
    PollTicks,
    PollRegions,
    PollRoster,
    Sample,
    ScanDisk,
    Run(Seq<char>),
    Note(Seq<char>),
    Stop,
}

pub open spec fn planned(work: Work) -> Planned {
    match work {
        Work::PollTicks => Planned::PollTicks,
        Work::PollRegions => Planned::PollRegions,
        Work::PollRoster => Planned::PollRoster,
        Work::Sample => Planned::Sample,
        Work::ScanDisk => Planned::ScanDisk,
        Work::Run(command) => Planned::Run(command@),
        Work::Note(text) => Planned::Note(text@),
        Work::Stop => Planned::Stop,
    }
}

/// What a run of work is, as plain values.
pub open spec fn planned_all(work: Seq<Work>) -> Seq<Planned> {
    Seq::new(work.len(), |i: int| planned(work[i]))
}

/// What the console loop does when woken, and whether it is paused after.
/// Collecting now polls everything; pausing or resuming is noted in the log;
/// a typed command runs even while paused, since pausing stops the dashboard
/// asking questions, not the operator; a timer polls its part unless paused.
pub open spec fn console_plan(paused: bool, wake: Wake) -> (bool, Seq<Planned>) {
    match wake {
        Wake::Control(None) => (paused, seq![Planned::Stop]),
        Wake::Control(Some(Control::RefreshNow)) => (
            paused,
            seq![Planned::PollTicks, Planned::PollRegions, Planned::PollRoster],
        ),
        Wake::Control(Some(Control::SetPaused(value))) => (
            value,
            seq![Planned::Note(if value { "collection paused"@ } else { "collection resumed"@ })],
        ),
        Wake::Control(Some(Control::Send(command))) => (paused, seq![Planned::Run(command@)]),
        Wake::Timer(timer) => (
            paused,
            if paused {
                Seq::empty()
            } else {
                match timer {
                    Timer::Ticks => seq![Planned::PollTicks],
                    Timer::Regions => seq![Planned::PollRegions],
                    Timer::Roster => seq![Planned::PollRoster],
                    _ => Seq::empty(),
                }
            },
        ),
    }
}

/// What the local loop does when woken, and whether it is paused after.
/// Collecting now samples the process and measures the disk; pausing is kept
/// quietly; typed commands are not its business; a timer does its part
/// unless paused.
pub open spec fn local_plan(paused: bool, wake: Wake) -> (bool, Seq<Planned>) {
    match wake {
        Wake::Control(None) => (paused, seq![Planned::Stop]),
        Wake::Control(Some(Control::RefreshNow)) => (paused, seq![Planned::Sample, Planned::ScanDisk]),
        Wake::Control(Some(Control::SetPaused(value))) => (value, Seq::empty()),
        Wake::Control(Some(Control::Send(_))) => (paused, Seq::empty()),
        Wake::Timer(timer) => (
            paused,
            if paused {
                Seq::empty()
            } else {
                match timer {
                    Timer::Process => seq![Planned::Sample],
                    Timer::Disk => seq![Planned::ScanDisk],
                    _ => Seq::empty(),
                }
            },
        ),
    }
}

/// Whether a message for the collectors concerns the local loop too: all do
/// but a typed command, which is for the server alone.
pub fn reaches_local(control: &Control) -> (r: bool)
    ensures
        r == !(control is Send),
{
    match control {
        Control::Send(_) => false,
        _ => true,
    }
}

/// Whether a loop's timers run: not while collection is paused.
pub fn timers_run(paused: bool) -> (r: bool)
    ensures
        r == !paused,
{
    !paused
}

fn timer_work(paused: bool, timer: Timer, console: bool) -> (r: Vec<Work>)
    ensures
        console ==> planned_all(r@) == console_plan(paused, Wake::Timer(timer)).1,
        !console ==> planned_all(r@) == local_plan(paused, Wake::Timer(timer)).1,
{
    let mut out: Vec<Work> = Vec::new();
    if !paused {
        let work = match (timer, console) {
            (Timer::Ticks, true) => Some(Work::PollTicks),
            (Timer::Regions, true) => Some(Work::PollRegions),
            (Timer::Roster, true) => Some(Work::PollRoster),
            (Timer::Process, false) => Some(Work::Sample),
            (Timer::Disk, false) => Some(Work::ScanDisk),
            _ => None,
        };
        if let Some(work) = work {
            out.push(work);
        }
    }
    assert(console ==> planned_all(out@) =~= console_plan(paused, Wake::Timer(timer)).1);
    assert(!console ==> planned_all(out@) =~= local_plan(paused, Wake::Timer(timer)).1);
    out
}

/// What the console loop does on waking, and whether it is paused after.
pub fn console_step(paused: bool, wake: Wake) -> (r: (bool, Vec<Work>))
    ensures
        r.0 == console_plan(paused, wake).0,
        planned_all(r.1@) == console_plan(paused, wake).1,
{
    let ghost plan = console_plan(paused, wake);
    match wake {
        Wake::Control(None) => {
            let out = vec![Work::Stop];
            assert(planned_all(out@) =~= plan.1);
            (paused, out)
        },
        Wake::Control(Some(Control::RefreshNow)) => {
            let out = vec![Work::PollTicks, Work::PollRegions, Work::PollRoster];
            assert(planned_all(out@) =~= plan.1);
            (paused, out)
        },
        Wake::Control(Some(Control::SetPaused(value))) => {
            let note = if value { "collection paused" } else { "collection resumed" };
            let out = vec![Work::Note(note.to_owned())];
            assert(planned_all(out@) =~= plan.1);
            (value, out)
        },
        Wake::Control(Some(Control::Send(command))) => {
            let out = vec![Work::Run(command)];
            assert(planned_all(out@) =~= plan.1);
            (paused, out)
        },
        Wake::Timer(timer) => (paused, timer_work(paused, timer, true)),
    }
}

/// What the local loop does on waking, and whether it is paused after.
pub fn local_step(paused: bool, wake: Wake) -> (r: (bool, Vec<Work>))
    ensures
        r.0 == local_plan(paused, wake).0,
        planned_all(r.1@) == local_plan(paused, wake).1,
{
    let ghost plan = local_plan(paused, wake);
    match wake {
        Wake::Control(None) => {
            let out = vec![Work::Stop];
            assert(planned_all(out@) =~= plan.1);
            (paused, out)
        },
        Wake::Control(Some(Control::RefreshNow)) => {
            let out = vec![Work::Sample, Work::ScanDisk];
            assert(planned_all(out@) =~= plan.1);
            (paused, out)
        },
        Wake::Control(Some(Control::SetPaused(value))) => {
            let out: Vec<Work> = Vec::new();
            assert(planned_all(out@) =~= plan.1);
            (value, out)
        },
        Wake::Control(Some(Control::Send(_))) => {
            let out: Vec<Work> = Vec::new();
            assert(planned_all(out@) =~= plan.1);
            (paused, out)
        },
        Wake::Timer(timer) => (paused, timer_work(paused, timer, false)),
    }
}

/// A typed command runs whether or not collection is paused, and leaves the
/// pause as it was.
pub proof fn lemma_typed_commands_run_while_paused(paused: bool, command: String)
    ensures
        console_plan(paused, Wake::Control(Some(Control::Send(command)))).1 == seq![Planned::Run(command@)],
        console_plan(paused, Wake::Control(Some(Control::Send(command)))).0 == paused,
{
}

/// While paused, no timer makes either loop do anything.
pub proof fn lemma_pausing_stops_every_poll(timer: Timer)
    ensures
        console_plan(true, Wake::Timer(timer)).1.len() == 0,
        local_plan(true, Wake::Timer(timer)).1.len() == 0,
{
}

} // verus!
