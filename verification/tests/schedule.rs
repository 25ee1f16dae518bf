use mctop::source::schedule::{console_step, local_step, reaches_local, timers_run, Timer, Wake, Work};
use mctop::source::Control;

#[test]
fn collecting_now_polls_everything() {
    let (paused, work) = console_step(true, Wake::Control(Some(Control::RefreshNow)));
    assert!(paused);
    assert_eq!(work, vec![Work::PollTicks, Work::PollRegions, Work::PollRoster]);
    let (_, local) = local_step(false, Wake::Control(Some(Control::RefreshNow)));
    assert_eq!(local, vec![Work::Sample, Work::ScanDisk]);
}

#[test]
fn pausing_is_noted_and_stops_the_timers() {
    let (paused, work) = console_step(false, Wake::Control(Some(Control::SetPaused(true))));
    assert!(paused);
    assert_eq!(work, vec![Work::Note("collection paused".to_owned())]);
    assert!(!timers_run(paused));
    assert!(console_step(true, Wake::Timer(Timer::Ticks)).1.is_empty());
    assert!(local_step(true, Wake::Timer(Timer::Disk)).1.is_empty());
    let (resumed, work) = console_step(true, Wake::Control(Some(Control::SetPaused(false))));
    assert!(!resumed);
    assert_eq!(work, vec![Work::Note("collection resumed".to_owned())]);
    let (_, local) = local_step(false, Wake::Control(Some(Control::SetPaused(true))));
    assert!(local.is_empty());
}

#[test]
fn a_typed_command_runs_while_paused_and_only_on_the_console() {
    let (paused, work) = console_step(true, Wake::Control(Some(Control::Send("list".to_owned()))));
    assert!(paused);
    assert_eq!(work, vec![Work::Run("list".to_owned())]);
    assert!(!reaches_local(&Control::Send("list".to_owned())));
    assert!(reaches_local(&Control::RefreshNow));
    assert!(local_step(false, Wake::Control(Some(Control::Send("list".to_owned())))).1.is_empty());
}

#[test]
fn each_timer_drives_its_own_poll_and_a_gone_interface_stops_both_loops() {
    assert_eq!(console_step(false, Wake::Timer(Timer::Regions)).1, vec![Work::PollRegions]);
    assert_eq!(local_step(false, Wake::Timer(Timer::Process)).1, vec![Work::Sample]);
    assert_eq!(console_step(false, Wake::Control(None)).1, vec![Work::Stop]);
    assert_eq!(local_step(true, Wake::Control(None)).1, vec![Work::Stop]);
}
