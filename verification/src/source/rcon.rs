//! The RCON link's bookkeeping: when to connect, when to hold off, and what a
//! dropped link is reported as.
//!
//! The server closes the connection when it is restarted or when the tick
//! thread stalls long enough to time the socket out, which is exactly the
//! moment an operator is watching. So a dropped link is treated as ordinary:
//! the state becomes [`Link::Down`] with the reason, and the next command
//! attempts a reconnect. The socket itself belongs to the caller, which asks
//! [`RconClient::begin`] what to do before each command and reports back how
//! the attempt went.

use vstd::prelude::*;

use std::time::Instant;

use crate::clock::{instant_now, millis_since};
use crate::config::RconConfig;
use crate::metrics::Link;
use crate::server::{address_text, parse_address, port_text, Address, AddressError};
use crate::text::{chars_of, decimal, digit_char, push_decimal, push_str, string_from};

verus! {

/// Port RCON listens on by default.
pub const DEFAULT_RCON_PORT: u16 = 25575;

/// No wait is shorter than this many milliseconds, whatever the config says.
pub const SHORTEST_WAIT_MS: u64 = 250;

/// A configured wait, raised to [`SHORTEST_WAIT_MS`].
pub open spec fn wait_ms(configured: u64) -> u64 {
    if configured < SHORTEST_WAIT_MS {
        SHORTEST_WAIT_MS
    } else {
        configured
    }
}

/// The digits after the point of `f` thousandths, trailing zeros left off.
pub open spec fn thousandths(f: nat) -> Seq<char> {
    let first = digit_char((f / 100) as int);
    let second = digit_char(((f / 10) % 10) as int);
    let third = digit_char((f % 10) as int);
    if f % 10 != 0 {
        seq![first, second, third]
    } else if (f / 10) % 10 != 0 {
        seq![first, second]
    } else {
        seq![first]
    }
}

/// A whole number of milliseconds as `Duration`'s debug form writes it:
/// `250ms`, `5s`, `1.5s`.
pub open spec fn wait_text(ms: nat) -> Seq<char> {
    if ms == 0 {
        "0ns"@
    } else if ms < 1000 {
        decimal(ms) + "ms"@
    } else if ms % 1000 == 0 {
        decimal(ms / 1000) + "s"@
    } else {
        decimal(ms / 1000) + seq!['.'] + thousandths(ms % 1000) + "s"@
    }
}

/// Append [`wait_text`] of `ms` to `out`.
fn push_wait(out: &mut Vec<char>, ms: u64)
    ensures
        final(out)@ == old(out)@ + wait_text(ms as nat),
{
    if ms == 0 {
        push_str(out, "0ns");
        proof {
            assert(final(out)@ =~= old(out)@ + wait_text(ms as nat));
        }
    } else if ms < 1000 {
        push_decimal(out, ms as u128);
        let ghost middle = out@;
        push_str(out, "ms");
        proof {
            assert(final(out)@ =~= old(out)@ + wait_text(ms as nat));
        }
    } else {
        push_decimal(out, (ms / 1000) as u128);
        let f = ms % 1000;
        if f != 0 {
            out.push('.');
            out.push(((f / 100) as u8 + 48) as char);
            if f % 10 != 0 {
                out.push((((f / 10) % 10) as u8 + 48) as char);
                out.push(((f % 10) as u8 + 48) as char);
            } else if (f / 10) % 10 != 0 {
                out.push((((f / 10) % 10) as u8 + 48) as char);
            }
        }
        push_str(out, "s");
        proof {
            assert(final(out)@ =~= old(out)@ + wait_text(ms as nat));
        }
    }
}

/// The text of [`wait_text`].
pub fn wait_string(ms: u64) -> (r: String)
    ensures
        r@ == wait_text(ms as nat),
{
    let mut out: Vec<char> = Vec::new();
    push_wait(&mut out, ms);
    proof {
        assert(out@ =~= wait_text(ms as nat));
    }
    string_from(&out)
}

/// What to do before running a command.
#[derive(Debug, PartialEq, Eq)]
pub enum Step {
    /// A connection is open: send the command on it.
    Send,
    /// Open a connection first, then send.
    Connect,
    /// Refuse: the last attempt failed too recently. Carries the refusal.
    Wait(String),
}

/// How an attempt to connect ended, when it did not succeed.
#[derive(Debug, PartialEq, Eq)]
pub enum ConnectFailure {
    /// The server refused the password.
    Auth,
    /// Any other error, as the RCON library described it.
    Failed(String),
    /// No answer within the connect timeout.
    TimedOut,
}

/// How a command ended, when it did not succeed.
#[derive(Debug, PartialEq, Eq)]
pub enum CommandFailure {
    /// The connection reported an error, as the RCON library described it.
    Failed(String),
    /// No reply within the command timeout.
    TimedOut,
}

/// The bookkeeping of one RCON link.
pub struct RconClient {
    address: Address,
    password: String,
    connect_timeout_ms: u64,
    command_timeout_ms: u64,
    reconnect_delay_ms: u64,
    connected: bool,
    /// When the last failure happened, so retries are not hammered out.
    last_failure: Option<Instant>,
    link: Link,
}

/// What an [`RconClient`] holds, as plain values.
pub struct Session {
    pub host: Seq<char>,
    pub port: u16,
    pub password: Seq<char>,
    pub connect_timeout_ms: u64,
    pub command_timeout_ms: u64,
    pub reconnect_delay_ms: u64,
    pub connected: bool,
    /// Whether a failure has happened since the link was last up.
    pub failed: bool,
    pub link: Link,
}

impl View for RconClient {
    type V = Session;

    closed spec fn view(&self) -> Session {
        Session {
            host: self.address.host@,
            port: self.address.port,
            password: self.password@,
            connect_timeout_ms: self.connect_timeout_ms,
            command_timeout_ms: self.command_timeout_ms,
            reconnect_delay_ms: self.reconnect_delay_ms,
            connected: self.connected,
            failed: self.last_failure is Some,
            link: self.link,
        }
    }
}

/// The address as the client writes it.
pub open spec fn target(session: Session) -> Seq<char> {
    address_text(session.host, session.port)
}

/// The step chosen for `session` when the last failure was `since_failure`
/// milliseconds ago.
pub open spec fn step_for(session: Session, since_failure: u64) -> Step {
    if session.connected {
        Step::Send
    } else if session.failed && since_failure < session.reconnect_delay_ms {
        Step::Wait(arbitrary())
    } else {
        Step::Connect
    }
}

/// The refusal while a reconnect is being held off.
pub open spec fn waiting_message(session: Session) -> Seq<char> {
    "waiting to reconnect to "@ + target(session)
}

/// Whether `after` is `before` with the link dropped for `reason`.
pub open spec fn dropped(before: Session, after: Session, reason: Seq<char>) -> bool {
    &&& after.host == before.host && after.port == before.port
    &&& after.password == before.password
    &&& after.connect_timeout_ms == before.connect_timeout_ms
    &&& after.command_timeout_ms == before.command_timeout_ms
    &&& after.reconnect_delay_ms == before.reconnect_delay_ms
    &&& !after.connected && after.failed
    &&& after.link matches Link::Down(text) && text@ == reason
}

/// Once the link has dropped, a command asked for within the reconnect delay
/// is refused rather than retried, so a downed server does not turn into a
/// busy loop; once the delay has passed, a new connection is opened.
pub proof fn lemma_failure_holds_off_reconnects(
    before: Session,
    after: Session,
    reason: Seq<char>,
    since_failure: u64,
)
    requires
        dropped(before, after, reason),
    ensures
        since_failure < after.reconnect_delay_ms ==> step_for(after, since_failure) is Wait,
        since_failure >= after.reconnect_delay_ms ==> step_for(after, since_failure) is Connect,
        after.link matches Link::Down(text) && text@ == reason,
{
}

/// Whether `after` is `before` with only the link state and connection changed.
pub open spec fn same_settings(before: Session, after: Session) -> bool {
    &&& after.host == before.host && after.port == before.port
    &&& after.password == before.password
    &&& after.connect_timeout_ms == before.connect_timeout_ms
    &&& after.command_timeout_ms == before.command_timeout_ms
    &&& after.reconnect_delay_ms == before.reconnect_delay_ms
}

/// The reason recorded when connecting fails.
pub open spec fn connect_reason(session: Session, failure: ConnectFailure) -> Seq<char> {
    match failure {
        ConnectFailure::Auth => "authentication failed: check the RCON password"@,
        ConnectFailure::Failed(error) => error@,
        ConnectFailure::TimedOut => "connection timed out after "@ + wait_text(
            session.connect_timeout_ms as nat,
        ),
    }
}

/// The error reported when connecting fails.
pub open spec fn connect_error(session: Session, failure: ConnectFailure) -> Seq<char> {
    match failure {
        ConnectFailure::Auth => "RCON authentication failed for "@ + target(session)
            + ": check the password"@,
        ConnectFailure::Failed(error) => "connecting to "@ + target(session) + ": "@ + error@,
        ConnectFailure::TimedOut => "connecting to "@ + target(session) + " timed out"@,
    }
}

/// The reason recorded when a command fails.
pub open spec fn command_reason(command: Seq<char>, failure: CommandFailure) -> Seq<char> {
    match failure {
        CommandFailure::Failed(error) => command + ": "@ + error@,
        CommandFailure::TimedOut => "`"@ + command + "` timed out"@,
    }
}

/// The error reported when a command fails.
pub open spec fn command_error(session: Session, command: Seq<char>, failure: CommandFailure) -> Seq<char> {
    match failure {
        CommandFailure::Failed(error) => "`"@ + command + "` failed: "@ + error@,
        CommandFailure::TimedOut => "`"@ + command + "` timed out after "@ + wait_text(
            session.command_timeout_ms as nat,
        ),
    }
}

impl RconClient {
    /// A client for the configured address and the resolved `password`. Does
    /// not connect yet.
    pub fn new(config: &RconConfig, password: String) -> (r: Result<RconClient, AddressError>)
        ensures
            match parse_address(config.address@, DEFAULT_RCON_PORT) {
                Ok((host, port)) => r matches Ok(client) && client@.host == host && client@.port == port,
                Err(AddressError::InvalidPort(_)) => r matches Err(AddressError::InvalidPort(text))
                    && text@ == port_text(config.address@),
                Err(error) => r matches Err(e) && e == error,
            },
            r matches Ok(client) ==> ({
                &&& client@.password == password@
                &&& client@.connect_timeout_ms == wait_ms(config.connect_timeout_ms)
                &&& client@.command_timeout_ms == wait_ms(config.command_timeout_ms)
                &&& client@.reconnect_delay_ms == wait_ms(config.reconnect_delay_ms)
                &&& !client@.connected && !client@.failed
                &&& client@.link is Connecting
            }),
    {
        match Address::parse_with_default_port(config.address.as_str(), DEFAULT_RCON_PORT) {
            Ok(address) => {
                let floor = |ms: u64| -> (r: u64)
                    ensures
                        r == wait_ms(ms),
                    { if ms < SHORTEST_WAIT_MS { SHORTEST_WAIT_MS } else { ms } };
                let connect_timeout_ms = floor(config.connect_timeout_ms);
                let command_timeout_ms = floor(config.command_timeout_ms);
                let reconnect_delay_ms = floor(config.reconnect_delay_ms);
                Ok(RconClient {
                    address,
                    password,
                    connect_timeout_ms,
                    command_timeout_ms,
                    reconnect_delay_ms,
                    connected: false,
                    last_failure: None,
                    link: Link::Connecting,
                })
            },
            Err(error) => Err(error),
        }
    }

    /// The parsed address.
    pub fn address(&self) -> (r: &Address)
        ensures
            r.host@ == self@.host && r.port == self@.port,
    {
        &self.address
    }

    /// The current link state.
    pub fn link(&self) -> (r: &Link)
        ensures
            *r == self@.link,
    {
        &self.link
    }

    /// The password to log in with.
    pub fn password(&self) -> (r: &str)
        ensures
            r@ == self@.password,
    {
        self.password.as_str()
    }

    /// How long a connection attempt may take, in milliseconds.
    pub fn connect_timeout_ms(&self) -> (r: u64)
        ensures
            r == self@.connect_timeout_ms,
    {
        self.connect_timeout_ms
    }

    /// How long a command may take, in milliseconds.
    pub fn command_timeout_ms(&self) -> (r: u64)
        ensures
            r == self@.command_timeout_ms,
    {
        self.command_timeout_ms
    }

    /// The address to connect to, written out.
    pub fn target(&self) -> (r: String)
        ensures
            r@ == target(self@),
    {
        self.address.text()
    }

    /// What to do when the last failure was `since_failure` milliseconds ago.
    /// Connecting marks the link as connecting.
    pub fn step(&mut self, since_failure: u64) -> (r: Step)
        ensures
            same_settings(old(self)@, final(self)@),
            final(self)@.connected == old(self)@.connected,
            final(self)@.failed == old(self)@.failed,
            match step_for(old(self)@, since_failure) {
                Step::Send => r is Send && final(self)@.link == old(self)@.link,
                Step::Wait(_) => r matches Step::Wait(message) && message@ == waiting_message(old(self)@)
                    && final(self)@.link == old(self)@.link,
                Step::Connect => r is Connect && final(self)@.link is Connecting,
            },
    {
        if self.connected {
            return Step::Send;
        }
        if self.last_failure.is_some() && since_failure < self.reconnect_delay_ms {
            let mut message = chars_of("waiting to reconnect to ");
            let text = self.address.text();
            push_str(&mut message, text.as_str());
            return Step::Wait(string_from(&message));
        }
        self.link = Link::Connecting;
        Step::Connect
    }

    /// What to do before running a command, judged by the clock. After a
    /// failure, further attempts are refused until the reconnect delay has
    /// passed, so a downed server does not turn into a busy loop.
    pub fn begin(&mut self) -> (r: Step)
        ensures
            same_settings(old(self)@, final(self)@),
            final(self)@.connected == old(self)@.connected,
            final(self)@.failed == old(self)@.failed,
            old(self)@.connected ==> r is Send && final(self)@.link == old(self)@.link,
            !old(self)@.connected && !old(self)@.failed ==> r is Connect && final(self)@.link is Connecting,
            r matches Step::Wait(message) ==> old(self)@.failed && !old(self)@.connected
                && message@ == waiting_message(old(self)@) && final(self)@.link == old(self)@.link,
            r is Connect ==> !old(self)@.connected && final(self)@.link is Connecting,
            old(self)@.failed && !old(self)@.connected ==> (r is Connect || r is Wait),
    {
        let since_failure: u64 = match &self.last_failure {
            Some(at) => millis_since(at),
            None => 0,
        };
        self.step(since_failure)
    }

    /// The connection was opened.
    pub fn connected(&mut self)
        ensures
            same_settings(old(self)@, final(self)@),
            final(self)@.connected && !final(self)@.failed,
            final(self)@.link is Up,
    {
        self.connected = true;
        self.last_failure = None;
        self.link = Link::Up;
    }

    /// A command was answered.
    pub fn replied(&mut self)
        ensures
            same_settings(old(self)@, final(self)@),
            final(self)@.connected == old(self)@.connected,
            final(self)@.failed == old(self)@.failed,
            final(self)@.link is Up,
    {
        self.link = Link::Up;
    }

    fn fail(&mut self, reason: String)
        ensures
            dropped(old(self)@, final(self)@, reason@),
    {
        self.connected = false;
        self.last_failure = Some(instant_now());
        self.link = Link::Down(reason);
    }

    /// Connecting failed: drop the link and say why.
    pub fn connect_failed(&mut self, failure: ConnectFailure) -> (r: String)
        ensures
            dropped(old(self)@, final(self)@, connect_reason(old(self)@, failure)),
            r@ == connect_error(old(self)@, failure),
    {
        let target = self.address.text();
        let mut reason: Vec<char> = Vec::new();
        let mut error: Vec<char> = Vec::new();
        match &failure {
            ConnectFailure::Auth => {
                push_str(&mut reason, "authentication failed: check the RCON password");
                push_str(&mut error, "RCON authentication failed for ");
                push_str(&mut error, target.as_str());
                push_str(&mut error, ": check the password");
            },
            ConnectFailure::Failed(text) => {
                push_str(&mut reason, text.as_str());
                push_str(&mut error, "connecting to ");
                push_str(&mut error, target.as_str());
                push_str(&mut error, ": ");
                push_str(&mut error, text.as_str());
            },
            ConnectFailure::TimedOut => {
                push_str(&mut reason, "connection timed out after ");
                push_wait(&mut reason, self.connect_timeout_ms);
                push_str(&mut error, "connecting to ");
                push_str(&mut error, target.as_str());
                push_str(&mut error, " timed out");
            },
        }
        proof {
            assert(reason@ =~= connect_reason(self@, failure));
            assert(error@ =~= connect_error(self@, failure));
        }
        self.fail(string_from(&reason));
        string_from(&error)
    }

    /// Running `command` failed: drop the link, since a connection that
    /// errored or left a reply unread can no longer be trusted, and say why.
    pub fn command_failed(&mut self, command: &str, failure: CommandFailure) -> (r: String)
        ensures
            dropped(old(self)@, final(self)@, command_reason(command@, failure)),
            r@ == command_error(old(self)@, command@, failure),
    {
        let mut reason: Vec<char> = Vec::new();
        let mut error: Vec<char> = Vec::new();
        match &failure {
            CommandFailure::Failed(text) => {
                push_str(&mut reason, command);
                push_str(&mut reason, ": ");
                push_str(&mut reason, text.as_str());
                push_str(&mut error, "`");
                push_str(&mut error, command);
                push_str(&mut error, "` failed: ");
                push_str(&mut error, text.as_str());
            },
            CommandFailure::TimedOut => {
                push_str(&mut reason, "`");
                push_str(&mut reason, command);
                push_str(&mut reason, "` timed out");
                push_str(&mut error, "`");
                push_str(&mut error, command);
                push_str(&mut error, "` timed out after ");
                push_wait(&mut error, self.command_timeout_ms);
            },
        }
        proof {
            assert(reason@ =~= command_reason(command@, failure));
            assert(error@ =~= command_error(self@, command@, failure));
        }
        self.fail(string_from(&reason));
        string_from(&error)
    }
}

} // verus!
