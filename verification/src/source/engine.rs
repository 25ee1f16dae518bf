//! What the console side decides: which commands are worth running, and what
//! each reply becomes on its way to the interface.
//!
//! Running a command over RCON is the caller's part. It hands each reply, or
//! the reason there is none, to the [`Engine`], and sends on the updates the
//! engine returns, in order.

use vstd::prelude::*;

use crate::config::CommandConfig;
use crate::metrics::{HeapStats, Link};
use crate::source::grammar::Pattern;
use crate::source::parse::{
    first_count, identity_read, lines_of, mspt_read, mspt_values, opt_string_view, pairs_view, parse_mspt,
    parse_players, parse_regions, parse_tps, parse_version, players_read, region_blocks, regions_read, stripped,
};
use crate::source::{Kind, LogEntry, Update};
use crate::text::{chars_of, is_space, push_str, string_between, string_from, trim, trim_bounds, trim_end};

verus! {

/// Whether `update` is a log line of `kind` that says `message`.
pub open spec fn says(update: Update, kind: Kind, message: Seq<char>) -> bool {
    update matches Update::Log(entry) && entry.kind == kind && entry.message@ == message
}

/// Whether two link states are the same.
pub open spec fn same_link(a: Link, b: Link) -> bool {
    match (a, b) {
        (Link::Connecting, Link::Connecting) => true,
        (Link::Up, Link::Up) => true,
        (Link::Down(x), Link::Down(y)) => x@ == y@,
        _ => false,
    }
}

fn link_equal(a: &Link, b: &Link) -> (r: bool)
    ensures
        r == same_link(*a, *b),
{
    match (a, b) {
        (Link::Connecting, Link::Connecting) => true,
        (Link::Up, Link::Up) => true,
        (Link::Down(x), Link::Down(y)) => {
            let x = chars_of(x.as_str());
            let y = chars_of(y.as_str());
            crate::metrics::same_chars(&x, &y)
        },
        _ => false,
    }
}

fn copy_link(link: &Link) -> (r: Link)
    ensures
        same_link(r, *link),
{
    match link {
        Link::Connecting => Link::Connecting,
        Link::Up => Link::Up,
        Link::Down(reason) => Link::Down(string_from(&chars_of(reason.as_str()))),
    }
}

fn log(kind: Kind, message: Vec<char>) -> (r: Update)
    ensures
        says(r, kind, message@),
{
    Update::Log(LogEntry::new(kind, string_from(&message)))
}

/// The console side's memory between commands.
pub struct Engine {
    pub commands: CommandConfig,
    /// Whether the region command is worth running. Turned off after the server
    /// gives no region detail, so a Paper server is not asked every two seconds
    /// for a report only Folia has.
    pub regions_supported: bool,
    pub identity_known: bool,
    pub last_link: Option<Link>,
}

/// What a failed poll is logged as: every failure but a refusal to retry,
/// which is expected while the server is down and is not worth a log line of
/// its own each second.
pub open spec fn failure_logged(reason: Seq<char>) -> bool {
    !(reason.len() >= 20 && reason.take(20) == "waiting to reconnect"@)
}

/// The message that says a reply could not be read.
pub open spec fn unparsed_message(command: Seq<char>, response: Seq<char>) -> Seq<char> {
    let lines = lines_of(stripped(response));
    let excerpt = if lines.len() > 0 {
        trim(lines[0])
    } else {
        Seq::empty()
    };
    "could not read `"@ + command + "`: "@ + (if excerpt.len() == 0 {
        "empty response"@
    } else {
        "got `"@ + excerpt + "`"@
    }) + ". Set [commands] in the config to a command this server understands."@
}

/// The message that says the region tab is off.
pub open spec fn no_regions_message(command: Seq<char>) -> Seq<char> {
    "`"@ + command
        + "` reported no regions; the Regions tab is off. This is expected on Paper, which ticks one region per world."@
}

/// Whether a region report reading `text` says nothing at all: no region,
/// no region count and no thread count.
pub open spec fn no_region_detail(text: Seq<char>) -> bool {
    &&& region_blocks(text).len() == 0
    &&& first_count(lines_of(text), Pattern::Total, 0) is None
    &&& first_count(lines_of(text), Pattern::Threads, 0) is None
}

/// Whether `updates` is what a reply to the region command `command` becomes,
/// with regions asked for (`supported`) or not, and `after` whether they still
/// are: nothing once they are no longer asked for; a note that the tab is off,
/// when the server gives no region detail at all; else the report it gives.
pub open spec fn regions_published(
    supported: bool,
    command: Seq<char>,
    response: Seq<char>,
    updates: Seq<Update>,
    after: bool,
) -> bool {
    let text = stripped(response);
    if !supported {
        updates.len() == 0 && !after
    } else if no_region_detail(text) {
        updates.len() == 1 && says(updates[0], Kind::Info, no_regions_message(command)) && !after
    } else {
        &&& updates.len() == 1
        &&& updates[0] matches Update::Regions(report) && regions_read(report, text)
        &&& after
    }
}

fn unparsed_warning(command: &str, response: &str) -> (r: Update)
    ensures
        says(r, Kind::Warn, unparsed_message(command@, response@)),
{
    let text = chars_of(crate::source::parse::strip_formatting(response).as_str());
    let spans = crate::source::parse::line_spans(&text);
    let mut message = chars_of("could not read `");
    push_str(&mut message, command);
    push_str(&mut message, "`: ");
    let ghost lines = lines_of(text@);
    let excerpt: Vec<char> = if spans.len() > 0 {
        let (a, b) = spans[0];
        let (x, y) = trim_bounds(&text, a, b);
        proof {
            assert(lines[0] == text@.subrange(a as int, b as int));
        }
        crate::source::parse::piece(&text, x, y)
    } else {
        Vec::new()
    };
    let ghost head = message@;
    if excerpt.len() == 0 {
        push_str(&mut message, "empty response");
    } else {
        push_str(&mut message, "got `");
        crate::text::push_all(&mut message, &excerpt);
        push_str(&mut message, "`");
    }
    push_str(&mut message, ". Set [commands] in the config to a command this server understands.");
    proof {
        assert(message@ =~= unparsed_message(command@, response@));
    }
    log(Kind::Warn, message)
}

impl Engine {
    pub fn new(commands: CommandConfig) -> (r: Engine)
        ensures
            r.commands == commands,
            r.regions_supported,
            !r.identity_known,
            r.last_link.is_none(),
    {
        Engine { commands, regions_supported: true, identity_known: false, last_link: None }
    }

    /// Whether `command` is worth sending: a blank one never is.
    pub fn worth_running(command: &str) -> (r: bool)
        ensures
            r == (trim(command@).len() > 0),
    {
        let text = chars_of(command);
        let (a, b) = trim_bounds(&text, 0, text.len());
        proof {
            assert(text@.subrange(0, text@.len() as int) =~= text@);
        }
        b > a
    }

    /// What a poll's outcome becomes: a reply is kept as the raw response to
    /// `command` and handed back; a failure is logged as an error, unless it
    /// is a refusal to retry.
    pub fn polled(command: &str, result: Result<String, String>) -> (r: (Vec<Update>, Option<String>))
        ensures
            match result {
                Ok(response) => r.0@.len() == 1 && (r.0@[0] matches Update::Raw { command: c, response: t } && c@
                    == command@ && t@ == response@) && opt_string_view(r.1) == Some(response@),
                Err(reason) => r.1.is_none() && if failure_logged(reason@) {
                    r.0@.len() == 1 && says(r.0@[0], Kind::Error, reason@)
                } else {
                    r.0@.len() == 0
                },
            },
    {
        match result {
            Ok(response) => {
                let kept = string_from(&chars_of(response.as_str()));
                let raw = Update::Raw { command: string_from(&chars_of(command)), response };
                let mut out: Vec<Update> = Vec::new();
                out.push(raw);
                (out, Some(kept))
            },
            Err(reason) => {
                let text = chars_of(reason.as_str());
                let prefix = chars_of("waiting to reconnect");
                proof {
                    reveal_strlit("waiting to reconnect");
                }
                let mut waiting = text.len() >= prefix.len();
                let mut k: usize = 0;
                while waiting && k < prefix.len()
                    invariant
                        prefix@ == "waiting to reconnect"@,
                        waiting ==> text@.len() >= prefix@.len(),
                        k <= prefix@.len(),
                        waiting == (text@.len() >= prefix@.len() && forall|m: int| 0 <= m < k ==> text@[m] == prefix@[m]),
                    decreases prefix@.len() - k,
                {
                    if text[k] != prefix[k] {
                        waiting = false;
                    }
                    k += 1;
                }
                proof {
                    if waiting {
                        assert(text@.take(prefix@.len() as int) =~= prefix@);
                    } else if text@.len() >= prefix@.len() {
                        let m = choose|m: int| 0 <= m < k && text@[m] != prefix@[m];
                        assert(text@.take(prefix@.len() as int)[m] != prefix@[m]);
                    }
                }
                let mut out: Vec<Update> = Vec::new();
                if !waiting {
                    out.push(log(Kind::Error, text));
                }
                (out, None)
            },
        }
    }

    /// Publish the link state, but only when it has changed. A link that
    /// comes up is announced with the server's address, and forgets what the
    /// server was: a reconnected server may be a different build entirely.
    pub fn link_report(&mut self, link: Link, address: &str) -> (r: Vec<Update>)
        ensures
            (old(self).last_link matches Some(last) && same_link(last, link)) ==> r@.len() == 0 && final(self).last_link
                == old(self).last_link && final(self).identity_known == old(self).identity_known
                && final(self).regions_supported == old(self).regions_supported,
            !(old(self).last_link matches Some(last) && same_link(last, link)) ==> ({
                &&& final(self).last_link matches Some(now) && same_link(now, link)
                &&& r@.len() > 0
                &&& r@.last() matches Update::Link(sent) && same_link(sent, link)
                &&& match link {
                    Link::Up => r@.len() == 2 && says(r@[0], Kind::Info, "connected to "@ + address@)
                        && !final(self).identity_known && final(self).regions_supported,
                    Link::Down(reason) => r@.len() == 2 && says(r@[0], Kind::Warn, "disconnected: "@ + reason@)
                        && final(self).identity_known == old(self).identity_known
                        && final(self).regions_supported == old(self).regions_supported,
                    Link::Connecting => r@.len() == 1 && final(self).identity_known == old(self).identity_known
                        && final(self).regions_supported == old(self).regions_supported,
                }
            }),
            final(self).commands == old(self).commands,
    {
        if let Some(last) = &self.last_link {
            if link_equal(last, &link) {
                return Vec::new();
            }
        }
        let mut out: Vec<Update> = Vec::new();
        match &link {
            Link::Up => {
                let mut message = chars_of("connected to ");
                push_str(&mut message, address);
                out.push(log(Kind::Info, message));
                self.identity_known = false;
                self.regions_supported = true;
            },
            Link::Down(reason) => {
                let mut message = chars_of("disconnected: ");
                push_str(&mut message, reason.as_str());
                out.push(log(Kind::Warn, message));
            },
            Link::Connecting => {},
        }
        self.last_link = Some(copy_link(&link));
        out.push(Update::Link(link));
        out
    }

    /// What a reply to the region command becomes: the report, or, when the
    /// server gives no region detail at all, a note that the tab is off, after
    /// which regions are no longer asked for.
    fn publish_regions(&mut self, command: &str, response: &str) -> (r: Vec<Update>)
        ensures
            regions_published(old(self).regions_supported, command@, response@, r@, final(self).regions_supported),
            final(self).commands == old(self).commands,
            final(self).identity_known == old(self).identity_known,
            final(self).last_link == old(self).last_link,
    {
        if !self.regions_supported {
            return Vec::new();
        }
        let report = parse_regions(response);
        if report.regions.len() == 0 && report.total.is_none() && report.threads.is_none() {
            self.regions_supported = false;
            let mut message = chars_of("`");
            push_str(&mut message, command);
            push_str(
                &mut message,
                "` reported no regions; the Regions tab is off. This is expected on Paper, which ticks one region per world.",
            );
            proof {
                assert(message@ =~= no_regions_message(command@));
            }
            return vec![log(Kind::Info, message)];
        }
        vec![Update::Regions(report)]
    }

    /// What a reply to the tick-rate command becomes: the reading, or a
    /// warning when nothing in it reads as one; and, when the region command
    /// is the same one, as on Folia, the region report it carries, so that a
    /// struggling server is not asked twice.
    pub fn tps_reply(&mut self, response: &str) -> (r: Vec<Update>)
        ensures
            r@.len() >= 1,
            crate::source::parse::tps_from(lines_of(stripped(response@)), 0).len() == 0 ==> says(
                r@[0],
                Kind::Warn,
                unparsed_message(old(self).commands.tps@, response@),
            ),
            crate::source::parse::tps_from(lines_of(stripped(response@)), 0).len() > 0 ==> (r@[0] matches Update::Tps(
                tps,
            ) && pairs_view(tps.windows@) == crate::source::parse::tps_from(lines_of(stripped(response@)), 0)),
            old(self).commands.regions@ != old(self).commands.tps@ ==> r@.len() == 1
                && final(self).regions_supported == old(self).regions_supported,
            old(self).commands.regions@ == old(self).commands.tps@ ==> regions_published(
                old(self).regions_supported,
                old(self).commands.tps@,
                response@,
                r@.subrange(1, r@.len() as int),
                final(self).regions_supported,
            ),
            final(self).commands == old(self).commands,
            final(self).identity_known == old(self).identity_known,
            final(self).last_link == old(self).last_link,
    {
        let tps = parse_tps(response);
        let first = if tps.windows.len() == 0 {
            unparsed_warning(self.commands.tps.as_str(), response)
        } else {
            Update::Tps(tps)
        };
        let mut out = vec![first];
        let same = crate::metrics::same_chars(
            &chars_of(self.commands.regions.as_str()),
            &chars_of(self.commands.tps.as_str()),
        );
        if same {
            let command = string_from(&chars_of(self.commands.tps.as_str()));
            let mut more = self.publish_regions(command.as_str(), response);
            let ghost head = out@;
            let ghost tail = more@;
            out.append(&mut more);
            assert(out@.subrange(1, out@.len() as int) =~= tail);
        }
        out
    }

    /// What a reply to the tick-time command becomes: the reading, or a
    /// warning when nothing in it reads as one.
    pub fn mspt_reply(&self, response: &str) -> (r: Update)
        ensures
            crate::source::parse::mspt_values(stripped(response@)).len() == 0 ==> says(
                r,
                Kind::Warn,
                unparsed_message(self.commands.mspt@, response@),
            ),
            mspt_values(stripped(response@)).len() > 0 ==> (r matches Update::Mspt(mspt) && mspt_read(
                mspt,
                stripped(response@),
            )),
    {
        let mspt = parse_mspt(response);
        proof {
            let text = stripped(response@);
            assert(pairs_view(mspt.windows@).len() == mspt.windows@.len());
            assert(crate::source::parse::labelled(
                crate::source::parse::labels_or_none(crate::source::parse::window_labels_of(text)),
                crate::source::parse::mspt_values(text),
            ).len() == crate::source::parse::mspt_values(text).len());
        }
        if mspt.windows.len() == 0 {
            unparsed_warning(self.commands.mspt.as_str(), response)
        } else {
            Update::Mspt(mspt)
        }
    }

    /// Whether the region command needs a poll of its own: not when it is the
    /// tick-rate command, whose reply already carries the regions, and not
    /// once the server has shown it has none.
    pub fn polls_regions(&self) -> (r: bool)
        ensures
            r == (self.commands.regions@ != self.commands.tps@ && self.regions_supported),
    {
        let same = crate::metrics::same_chars(
            &chars_of(self.commands.regions.as_str()),
            &chars_of(self.commands.tps.as_str()),
        );
        !same && self.regions_supported
    }

    /// What a reply to the region command becomes.
    pub fn regions_reply(&mut self, response: &str) -> (r: Vec<Update>)
        ensures
            r@.len() <= 1,
            final(self).commands == old(self).commands,
            final(self).identity_known == old(self).identity_known,
            final(self).last_link == old(self).last_link,
            regions_published(
                old(self).regions_supported,
                old(self).commands.regions@,
                response@,
                r@,
                final(self).regions_supported,
            ),
    {
        let command = string_from(&chars_of(self.commands.regions.as_str()));
        self.publish_regions(command.as_str(), response)
    }

    /// What a reply to the player-list command becomes.
    pub fn players_reply(&self, response: &str) -> (r: Update)
        ensures
            r matches Update::Players(players) && players_read(players, stripped(response@)),
    {
        Update::Players(parse_players(response))
    }

    /// Whether the server still needs asking what it is.
    pub fn asks_identity(&self) -> (r: bool)
        ensures
            r == !self.identity_known,
    {
        !self.identity_known
    }

    /// What a reply to the version command becomes; the server counts as
    /// known once its flavour could be read.
    pub fn version_reply(&mut self, response: &str) -> (r: Update)
        ensures
            r matches Update::Identity(identity) && identity_read(identity, stripped(response@))
                && final(self).identity_known == identity.flavour.is_some(),
            final(self).commands == old(self).commands,
            final(self).regions_supported == old(self).regions_supported,
            final(self).last_link == old(self).last_link,
    {
        let identity = parse_version(response);
        self.identity_known = identity.flavour.is_some();
        Update::Identity(identity)
    }
}

/// A command the operator typed, trimmed; `None` when it is blank.
pub fn typed_command(command: &str) -> (r: Option<String>)
    ensures
        match r {
            Some(text) => text@ == trim(command@) && text@.len() > 0,
            None => trim(command@).len() == 0,
        },
{
    let chars = chars_of(command);
    let (a, b) = trim_bounds(&chars, 0, chars.len());
    proof {
        assert(chars@.subrange(0, chars@.len() as int) =~= chars@);
    }
    if b > a {
        Some(string_between(&chars, a, b))
    } else {
        None
    }
}

/// The scrollback lines a typed command's outcome becomes: the reply without
/// its formatting and trailing whitespace, one line each, or `(no output)`
/// for a command that succeeded silently; a failure as an error.
pub fn typed_reply(result: Result<String, String>) -> (r: Vec<Update>)
    ensures
        match result {
            Ok(response) => {
                let text = trim_end(stripped(response@));
                if text.len() == 0 {
                    r@.len() == 1 && says(r@[0], Kind::Received, "(no output)"@)
                } else {
                    r@.len() == lines_of(text).len() && forall|j: int|
                        0 <= j < r@.len() ==> says(#[trigger] r@[j], Kind::Received, lines_of(text)[j])
                }
            },
            Err(reason) => r@.len() == 1 && says(r@[0], Kind::Error, reason@),
        },
{
    match result {
        Ok(response) => {
            let stripped_text = chars_of(crate::source::parse::strip_formatting(response.as_str()).as_str());
            let mut b = stripped_text.len();
            while b > 0 && crate::text::space(stripped_text[b - 1])
                invariant
                    b <= stripped_text@.len(),
                    forall|k: int| b <= k < stripped_text@.len() ==> is_space(#[trigger] stripped_text@[k]),
                decreases b,
            {
                b -= 1;
            }
            proof {
                crate::text::lemma_trim_end_at(stripped_text@, b as int);
            }
            let text = crate::source::parse::piece(&stripped_text, 0, b);
            if text.len() == 0 {
                return vec![log(Kind::Received, chars_of("(no output)"))];
            }
            let spans = crate::source::parse::line_spans(&text);
            let ghost lines = lines_of(text@);
            let mut out: Vec<Update> = Vec::new();
            let mut j: usize = 0;
            while j < spans.len()
                invariant
                    j <= spans@.len(),
                    crate::source::parse::spans_text(text@, spans@) == lines,
                    forall|k: int| 0 <= k < spans@.len() ==> (#[trigger] spans@[k]).0 <= spans@[k].1 <= text@.len(),
                    out@.len() == j,
                    forall|k: int| 0 <= k < j ==> says(#[trigger] out@[k], Kind::Received, lines[k]),
                decreases spans@.len() - j,
            {
                let (x, y) = spans[j];
                proof {
                    assert(lines[j as int] == text@.subrange(x as int, y as int));
                }
                out.push(log(Kind::Received, crate::source::parse::piece(&text, x, y)));
                j += 1;
            }
            out
        },
        Err(reason) => vec![log(Kind::Error, chars_of(reason.as_str()))],
    }
}

/// The message that says the heap is unavailable.
pub open spec fn heap_failure_message(reason: Seq<char>) -> Seq<char> {
    "heap unavailable: "@ + reason
}

/// What a heap sample becomes: the reading, or the reason there is none, and
/// a warning when the reason is new, so a tool failure is reported once
/// rather than on every sample.
pub fn heap_report(previous_error: Option<String>, stats: Option<HeapStats>, error: Option<String>) -> (r: Vec<Update>)
    ensures
        r@.len() >= 1,
        r@[0] matches Update::Heap { stats: s, error: e } && opt_string_view(e) == opt_string_view(error)
            && s == stats,
        (error matches Some(reason) && opt_string_view(previous_error) != Some(reason@)) ==> r@.len() == 2
            && says(r@[1], Kind::Warn, heap_failure_message(error.unwrap()@)),
        !(error matches Some(reason) && opt_string_view(previous_error) != Some(reason@)) ==> r@.len() == 1,
{
    let warning = match &error {
        Some(reason) => {
            let fresh = match &previous_error {
                Some(before) => !crate::metrics::same_chars(&chars_of(before.as_str()), &chars_of(reason.as_str())),
                None => true,
            };
            if fresh {
                let mut message = chars_of("heap unavailable: ");
                push_str(&mut message, reason.as_str());
                Some(log(Kind::Warn, message))
            } else {
                None
            }
        },
        None => None,
    };
    let mut out = vec![Update::Heap { stats, error }];
    if let Some(warning) = warning {
        out.push(warning);
    }
    out
}

} // verus!
