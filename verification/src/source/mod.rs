//! Collectors: everything that produces a number, and the messages that carry
//! their readings to the interface.

pub mod disk;
pub mod engine;
pub mod figure;
pub mod grammar;
pub mod jvm;
pub mod parse;
pub mod process;
pub mod rcon;
pub mod schedule;

use vstd::prelude::*;

use std::time::SystemTime;

use crate::clock::system_now;
use crate::metrics::{
    DiskUsage, HeapStats, Link, MsptReading, Players, ProcessStats, RegionReport, ServerIdentity,
    TpsReading,
};

verus! {

/// What a line in the console scrollback is.
#[derive(Debug, Clone, Copy, PartialEq, Eq, Structural)]
pub enum Kind {
    /// Something mctop did.
    Info,
    Warn,
    Error,
    /// A command the operator typed.
    Sent,
    /// A line the server sent back in reply to one.
    Received,
}

/// One line of mctop's own log.
#[derive(Debug)]
pub struct LogEntry {
    pub at: SystemTime,
    pub kind: Kind,
    pub message: String,
}

impl LogEntry {
    /// A line stamped with the current time.
    pub fn new(kind: Kind, message: String) -> (r: LogEntry)
        ensures
            r.kind == kind,
            r.message@ == message@,
    {
        LogEntry { at: system_now(), kind, message }
    }
}

impl Clone for LogEntry {
    fn clone(&self) -> (r: LogEntry)
        ensures
            r.at == self.at && r.kind == self.kind && r.message@ == self.message@,
    {
        LogEntry { at: self.at, kind: self.kind, message: self.message.clone() }
    }
}

/// A reading, on its way to the interface.
#[derive(Debug)]
pub enum Update {
    Link(Link),
    Tps(TpsReading),
    Mspt(MsptReading),
    Regions(RegionReport),
    Players(Players),
    Identity(ServerIdentity),
    Process(Option<ProcessStats>),
    /// A heap reading, or the reason there is not one. The reason travels with
    /// the reading so the interface can say *why* a panel is empty rather than
    /// guessing at it.
    Heap { stats: Option<HeapStats>, error: Option<String> },
    Disk(DiskUsage),
    DiskScanStarted,
    Log(LogEntry),
    /// The unparsed response to a console command, kept so that a parser that
    /// does not recognise a fork's wording can be diagnosed from the Log tab
    /// rather than guessed at.
    Raw { command: String, response: String },
}

/// An instruction from the interface to the collectors.
#[derive(Debug, Clone)]
pub enum Control {
    /// Collect everything now, without waiting for the next interval.
    RefreshNow,
    /// Stop or resume collecting.
    SetPaused(bool),
    /// Run a console command the operator typed, and report what came back.
    Send(String),
}

} // verus!
