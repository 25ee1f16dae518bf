//! What the one-shot commands decide and print: the command-line overrides,
//! the `status` reading, and the `probe` listing.

use vstd::prelude::*;

use crate::config::{CommandConfig, Config};
use crate::format::{bytes, bytes_text, fixed, fixed_text, percent, percent_text};
use crate::metrics::{MsptReading, MsptWindow, Players, Region, RegionReport, ServerIdentity, TpsReading, WorldUsage, identity_summary, opt_text};
use crate::server::{address_text, parse_address, port_text, Address, AddressError};
use crate::source::parse::{line_spans, lines_of, piece, strip_formatting, stripped};
use crate::source::rcon::DEFAULT_RCON_PORT;
use crate::text::{chars_of, decimal, is_space, push_decimal, push_str, string_from, trim};

verus! {

/// Fold the command-line overrides into `config`. The address is checked
/// here rather than at connect time, so a typo is reported before the screen
/// is taken over. An interval, in milliseconds, sets the region clock too:
/// the region report usually comes from the same command as the tick rate,
/// so leaving it on its own clock would only put two figures on screen that
/// disagree about how old they are.
pub fn apply_overrides(
    config: &mut Config,
    address: Option<String>,
    interval_ms: Option<u64>,
    directory: Option<String>,
) -> (r: Result<(), String>)
    ensures
        match address {
            Some(given) => match parse_address(given@, DEFAULT_RCON_PORT) {
                Err(error) => r matches Err(message) && message@ == "--address: "@ + (match error {
                    AddressError::Empty => "server address is empty"@,
                    AddressError::NoHost => "server address has no host"@,
                    AddressError::InvalidPort(_) => "invalid port: "@ + port_text(given@),
                }),
                Ok(_) => r is Ok,
            },
            None => r is Ok,
        },
        r is Err ==> *final(config) == *old(config),
        r is Ok ==> ({
            &&& final(config).rcon.address@ == (match address {
                Some(given) => given@,
                None => old(config).rcon.address@,
            })
            &&& final(config).refresh.tick_ms == (match interval_ms {
                Some(ms) => ms,
                None => old(config).refresh.tick_ms,
            })
            &&& final(config).refresh.region_ms == (match interval_ms {
                Some(ms) => ms,
                None => old(config).refresh.region_ms,
            })
            &&& final(config).server.directory == (match directory {
                Some(path) => Some(path),
                None => old(config).server.directory,
            })
            &&& final(config).server.name == old(config).server.name
            &&& final(config).rcon.password == old(config).rcon.password
            &&& final(config).rcon.password_file == old(config).rcon.password_file
            &&& final(config).refresh.roster_ms == old(config).refresh.roster_ms
            &&& final(config).refresh.process_ms == old(config).refresh.process_ms
            &&& final(config).refresh.disk_secs == old(config).refresh.disk_secs
            &&& final(config).refresh.draw_ms == old(config).refresh.draw_ms
            &&& final(config).commands == old(config).commands
            &&& final(config).process == old(config).process
            &&& final(config).jvm == old(config).jvm
            &&& final(config).ui == old(config).ui
            &&& final(config).worlds == old(config).worlds
        }),
{
    if let Some(given) = &address {
        match Address::parse_with_default_port(given.as_str(), DEFAULT_RCON_PORT) {
            Ok(_) => {},
            Err(error) => {
                let mut message = chars_of("--address: ");
                let text = error.message();
                push_str(&mut message, text.as_str());
                return Err(string_from(&message));
            },
        }
    }
    if let Some(given) = address {
        config.rcon.address = given;
    }
    if let Some(ms) = interval_ms {
        config.refresh.tick_ms = ms;
        config.refresh.region_ms = ms;
    }
    if let Some(path) = directory {
        config.server.directory = Some(path);
    }
    Ok(())
}

/// The RCON port the config names, or the default one when its address does
/// not parse.
pub fn rcon_port(config: &Config) -> (r: u16)
    ensures
        r == match parse_address(config.rcon.address@, DEFAULT_RCON_PORT) {
            Ok((_, port)) => port,
            Err(_) => DEFAULT_RCON_PORT,
        },
{
    match Address::parse_with_default_port(config.rcon.address.as_str(), DEFAULT_RCON_PORT) {
        Ok(address) => address.port,
        Err(_) => DEFAULT_RCON_PORT,
    }
}

/// The RCON address to query for `mctop status host`: the game address names
/// the host, and RCON listens on its own port, so only the host carries over.
/// An IPv6 host is bracketed again.
pub fn status_target(config: &Config, game_address: &str) -> (r: Result<(Address, String), AddressError>)
    ensures
        match parse_address(game_address@, crate::server::DEFAULT_PORT) {
            Ok((host, port)) => r matches Ok((parsed, target)) && parsed.host@ == host && parsed.port == port
                && target@ == address_text(host, match parse_address(config.rcon.address@, DEFAULT_RCON_PORT) {
                    Ok((_, rcon)) => rcon,
                    Err(_) => DEFAULT_RCON_PORT,
                }),
            Err(AddressError::InvalidPort(_)) => r matches Err(AddressError::InvalidPort(text))
                && text@ == port_text(game_address@),
            Err(error) => r matches Err(e) && e == error,
        },
{
    match Address::parse(game_address) {
        Ok(parsed) => {
            let target = Address { host: parsed.host.clone(), port: rcon_port(config) };
            let text = target.text();
            Ok((parsed, text))
        },
        Err(error) => Err(error),
    }
}

/// `text` padded with spaces on the right to `width` characters.
pub open spec fn padded(text: Seq<char>, width: nat) -> Seq<char> {
    if text.len() >= width {
        text
    } else {
        text + Seq::new((width - text.len()) as nat, |_i: int| ' ')
    }
}

/// One tick-rate window as the status line shows it: `1m 19.98`.
pub open spec fn window_text(window: (String, i64)) -> Seq<char> {
    window.0@ + seq![' '] + fixed_text(window.1 as int, 2)
}

/// The windows, two spaces apart.
pub open spec fn windows_text(windows: Seq<(String, i64)>) -> Seq<char>
    decreases windows.len(),
{
    if windows.len() == 0 {
        Seq::empty()
    } else if windows.len() == 1 {
        window_text(windows[0])
    } else {
        windows_text(windows.drop_last()) + "  "@ + window_text(windows.last())
    }
}

/// Whether `k` is the region [`RegionReport::worst`] picks: under the most
/// pressure, and the last of several that tie.
pub open spec fn is_worst(regions: Seq<Region>, k: int) -> bool {
    &&& 0 <= k < regions.len()
    &&& forall|j: int| 0 <= j < regions.len() ==> (#[trigger] regions[j]).spec_pressure() <= regions[k].spec_pressure()
    &&& forall|j: int| k < j < regions.len() ==> (#[trigger] regions[j]).spec_pressure() < regions[k].spec_pressure()
}

/// The region [`RegionReport::worst`] picks, when there is one.
pub open spec fn worst_of(regions: Seq<Region>) -> int {
    choose|k: int| is_worst(regions, k)
}

/// Only one region is the worst: the most pressed, and the last of those.
pub proof fn lemma_worst_is_unique(regions: Seq<Region>, a: int, b: int)
    requires
        is_worst(regions, a),
        is_worst(regions, b),
    ensures
        a == b,
{
    assert(regions[a].spec_pressure() <= regions[b].spec_pressure());
    assert(regions[b].spec_pressure() <= regions[a].spec_pressure());
    if a < b {
        assert(regions[b].spec_pressure() < regions[a].spec_pressure());
    } else if b < a {
        assert(regions[a].spec_pressure() < regions[b].spec_pressure());
    }
}

/// The `status` reading, one line each; the optional lines are left out when
/// there is nothing to say.
pub struct StatusReport {
    pub server: String,
    pub tps: String,
    pub mspt: Option<String>,
    pub players: String,
    pub regions: Option<String>,
    pub busiest: Option<String>,
    pub worlds: Vec<String>,
}

/// The line for one world: its name in a column of sixteen, then its size.
pub open spec fn world_line(world: WorldUsage) -> Seq<char> {
    "world     "@ + padded(world.name@, 16) + seq![' '] + bytes_text(world.bytes as nat)
}

/// The line for the tick durations.
pub open spec fn mspt_line(window: MsptWindow) -> Seq<char> {
    "mspt      avg "@ + fixed_text(window.average as int, 2) + "  min "@
        + fixed_text(window.minimum as int, 2) + "  max "@ + fixed_text(window.maximum as int, 2)
}

/// The line for the players.
pub open spec fn players_line(players: Players) -> Seq<char> {
    "players   "@ + decimal(players.online as nat) + match players.max {
        Some(max) => " / "@ + decimal(max as nat),
        None => Seq::empty(),
    }
}

/// The line for the busiest region.
pub open spec fn busiest_line(region: Region) -> Seq<char> {
    "busiest   "@ + region.spec_label() + " at "@ + percent_text(region.spec_pressure())
}

fn push_padded(out: &mut Vec<char>, text: &str, width: usize)
    ensures
        final(out)@ == old(out)@ + padded(text@, width as nat),
{
    let chars = chars_of(text);
    crate::text::push_all(out, &chars);
    let ghost middle = out@;
    let mut n = chars.len();
    while n < width
        invariant
            chars.len() <= n <= width || (chars.len() >= width && n == chars.len()),
            out@ == middle + Seq::new((n - chars.len()) as nat, |_i: int| ' '),
            middle == old(out)@ + text@,
            chars@ == text@,
        decreases width - n,
    {
        out.push(' ');
        n += 1;
        assert(out@ =~= middle + Seq::new((n - chars.len()) as nat, |_i: int| ' '));
    }
    assert(out@ =~= old(out)@ + padded(text@, width as nat));
}

/// Assemble the `status` reading.
pub fn status_report(
    identity: &ServerIdentity,
    tps: &TpsReading,
    mspt: &MsptReading,
    players: &Players,
    regions: &RegionReport,
    worlds: &Vec<WorldUsage>,
) -> (r: StatusReport)
    ensures
        r.server@ == "server    "@ + identity_summary(opt_text(identity.flavour), opt_text(identity.minecraft_version)),
        r.tps@ == "tps       "@ + (if tps.windows@.len() == 0 {
            "unavailable"@
        } else {
            windows_text(tps.windows@)
        }),
        match r.mspt {
            Some(line) => mspt.windows@.len() > 0 && line@ == mspt_line(mspt.windows@[0].1),
            None => mspt.windows@.len() == 0,
        },
        r.players@ == players_line(*players),
        match r.regions {
            Some(line) => regions.total matches Some(total) && line@ == "regions   "@ + decimal(total as nat),
            None => regions.total is None,
        },
        match r.busiest {
            Some(line) => regions.total is Some && exists|k: int| is_worst(regions.regions@, k)
                && line@ == busiest_line(regions.regions@[k]),
            None => regions.total is None || regions.regions@.len() == 0,
        },
        r.worlds@.len() == worlds@.len(),
        forall|i: int| 0 <= i < worlds@.len() ==> (#[trigger] r.worlds@[i])@ == world_line(worlds@[i]),
{
    let mut server = chars_of("server    ");
    let summary = identity.summary();
    push_str(&mut server, summary.as_str());

    let mut line = chars_of("tps       ");
    if tps.windows.len() == 0 {
        push_str(&mut line, "unavailable");
    } else {
        let ghost head = line@;
        let mut i: usize = 0;
        while i < tps.windows.len()
            invariant
                i <= tps.windows@.len(),
                line@ == head + windows_text(tps.windows@.take(i as int)),
            decreases tps.windows@.len() - i,
        {
            proof {
                assert(tps.windows@.take(i + 1).drop_last() =~= tps.windows@.take(i as int));
            }
            if i > 0 {
                push_str(&mut line, "  ");
            }
            let (label, value) = &tps.windows[i];
            push_str(&mut line, label.as_str());
            line.push(' ');
            let number = fixed(*value, 2);
            push_str(&mut line, number.as_str());
            i += 1;
            proof {
                let w = tps.windows@.take(i as int);
                if i == 1 {
                    assert(line@ =~= head + windows_text(w));
                } else {
                    assert(line@ =~= head + windows_text(w));
                }
            }
        }
        assert(tps.windows@.take(i as int) =~= tps.windows@);
    }

    let mspt_text = match mspt.current() {
        Some(window) => {
            let mut out = chars_of("mspt      avg ");
            push_str(&mut out, fixed(window.average, 2).as_str());
            push_str(&mut out, "  min ");
            push_str(&mut out, fixed(window.minimum, 2).as_str());
            push_str(&mut out, "  max ");
            push_str(&mut out, fixed(window.maximum, 2).as_str());
            assert(out@ =~= mspt_line(window));
            Some(string_from(&out))
        },
        None => None,
    };

    let mut people = chars_of("players   ");
    push_decimal(&mut people, players.online as u128);
    if let Some(max) = players.max {
        push_str(&mut people, " / ");
        push_decimal(&mut people, max as u128);
    }
    assert(people@ =~= players_line(*players));

    let (regions_text, busiest_text) = match regions.total {
        Some(total) => {
            let mut out = chars_of("regions   ");
            push_decimal(&mut out, total as u128);
            let busiest = match regions.worst() {
                Some(worst) => {
                    let mut b = chars_of("busiest   ");
                    push_str(&mut b, worst.label().as_str());
                    push_str(&mut b, " at ");
                    push_str(&mut b, percent(worst.pressure()).as_str());
                    proof {
                        let k = choose|k: int|
                            0 <= k < regions.regions@.len() && *worst == regions.regions@[k] && (forall|j: int|
                                0 <= j < regions.regions@.len() ==> (#[trigger] regions.regions@[j]).spec_pressure()
                                    <= regions.regions@[k].spec_pressure()) && (forall|j: int|
                                k < j < regions.regions@.len() ==> (#[trigger] regions.regions@[j]).spec_pressure()
                                    < regions.regions@[k].spec_pressure());
                        assert(is_worst(regions.regions@, k));
                        assert(b@ =~= busiest_line(regions.regions@[k]));
                    }
                    Some(string_from(&b))
                },
                None => None,
            };
            (Some(string_from(&out)), busiest)
        },
        None => (None, None),
    };

    let mut lines: Vec<String> = Vec::new();
    let mut i: usize = 0;
    while i < worlds.len()
        invariant
            i <= worlds@.len(),
            lines@.len() == i,
            forall|j: int| 0 <= j < i ==> (#[trigger] lines@[j])@ == world_line(worlds@[j]),
        decreases worlds@.len() - i,
    {
        let world = &worlds[i];
        let mut out = chars_of("world     ");
        push_padded(&mut out, world.name.as_str(), 16);
        out.push(' ');
        push_str(&mut out, bytes(world.bytes).as_str());
        assert(out@ =~= world_line(*world));
        lines.push(string_from(&out));
        i += 1;
    }

    StatusReport {
        server: string_from(&server),
        tps: string_from(&line),
        mspt: mspt_text,
        players: string_from(&people),
        regions: regions_text,
        busiest: busiest_text,
        worlds: lines,
    }
}

/// Why `status` fails though the server answered: a health check that prints
/// "unavailable" and exits zero is a trap, so an unreadable tick rate is a
/// failure.
pub fn status_failure(tps: &TpsReading, commands: &CommandConfig) -> (r: Option<String>)
    ensures
        tps.windows@.len() > 0 ==> r is None,
        tps.windows@.len() == 0 ==> (r matches Some(message) && message@ == "could not read the tick rate from `"@
            + commands.tps@
            + "`; run `mctop probe` to see what this server replied, then set [commands] to something it understands"@),
{
    if tps.windows.len() > 0 {
        return None;
    }
    let mut out = chars_of("could not read the tick rate from `");
    push_str(&mut out, commands.tps.as_str());
    push_str(
        &mut out,
        "`; run `mctop probe` to see what this server replied, then set [commands] to something it understands",
    );
    Some(string_from(&out))
}

/// Whether `command` has something other than whitespace in it.
pub open spec fn has_text(command: Seq<char>) -> bool {
    trim(command).len() > 0
}

/// The metrics and their commands, in the order `probe` runs them.
pub open spec fn probe_order(commands: CommandConfig) -> Seq<(Seq<char>, Seq<char>)> {
    seq![
        ("tps"@, commands.tps@),
        ("mspt"@, commands.mspt@),
        ("regions"@, commands.regions@),
        ("players"@, commands.players@),
        ("version"@, commands.version@),
    ]
}

/// The commands `probe` runs, from the first `n` of `order`: blank ones are
/// left out, and so is a command already listed for an earlier metric. On
/// Folia the region detail rides along with the TPS report, so the same
/// command often appears twice, and running it twice would only pad the
/// output.
pub open spec fn probe_plan_of(order: Seq<(Seq<char>, Seq<char>)>, n: int) -> Seq<(Seq<char>, Seq<char>)>
    decreases n,
{
    if n <= 0 {
        Seq::empty()
    } else {
        let before = probe_plan_of(order, n - 1);
        let (metric, command) = order[n - 1];
        if has_text(command) && !(exists|j: int| 0 <= j < before.len() && (#[trigger] before[j]).1 == command) {
            before.push((metric, command))
        } else {
            before
        }
    }
}

/// Every command `probe` runs has something in it, and none runs twice.
pub proof fn lemma_probe_runs_each_command_once(order: Seq<(Seq<char>, Seq<char>)>, n: int)
    ensures
        forall|i: int| 0 <= i < probe_plan_of(order, n).len() ==> has_text(#[trigger] probe_plan_of(order, n)[i].1),
        forall|i: int, j: int|
            0 <= i < j < probe_plan_of(order, n).len() ==> (#[trigger] probe_plan_of(order, n)[i]).1
                != (#[trigger] probe_plan_of(order, n)[j]).1,
    decreases n,
{
    if n > 0 {
        lemma_probe_runs_each_command_once(order, n - 1);
        let before = probe_plan_of(order, n - 1);
        let after = probe_plan_of(order, n);
        let (metric, command) = order[n - 1];
        if has_text(command) && !(exists|j: int| 0 <= j < before.len() && (#[trigger] before[j]).1 == command) {
            assert(after == before.push((metric, command)));
            assert forall|i: int, j: int| 0 <= i < j < after.len() implies (#[trigger] after[i]).1
                != (#[trigger] after[j]).1 by {
                if j == before.len() {
                    assert(after[i] == before[i]);
                    assert(before[i].1 != command);
                } else {
                    assert(after[i] == before[i] && after[j] == before[j]);
                }
            }
            assert forall|i: int| 0 <= i < after.len() implies has_text(#[trigger] after[i].1) by {
                if i < before.len() {
                    assert(after[i] == before[i]);
                }
            }
        }
    }
}

/// The plan as plain values.
pub open spec fn plan_view(plan: Seq<(String, String)>) -> Seq<(Seq<char>, Seq<char>)> {
    Seq::new(plan.len(), |j: int| (plan[j].0@, plan[j].1@))
}

fn blank(text: &str) -> (r: bool)
    ensures
        r == !has_text(text@),
{
    let chars = chars_of(text);
    let (a, b) = crate::text::trim_bounds(&chars, 0, chars.len());
    assert(chars@.subrange(0, chars@.len() as int) =~= chars@);
    a == b
}

/// The metrics and commands `probe` runs, in order.
pub fn probe_plan(commands: &CommandConfig) -> (r: Vec<(String, String)>)
    ensures
        plan_view(r@) == probe_plan_of(probe_order(*commands), 5),
{
    let mut order: Vec<(&str, &str)> = Vec::new();
    order.push(("tps", commands.tps.as_str()));
    order.push(("mspt", commands.mspt.as_str()));
    order.push(("regions", commands.regions.as_str()));
    order.push(("players", commands.players.as_str()));
    order.push(("version", commands.version.as_str()));
    let ghost want = probe_order(*commands);
    proof {
        reveal_strlit("tps");
        reveal_strlit("mspt");
        reveal_strlit("regions");
        reveal_strlit("players");
        reveal_strlit("version");
    }
    assert(order@.len() == 5);
    assert(forall|j: int| 0 <= j < 5 ==> (#[trigger] order@[j]).0@ == want[j].0 && order@[j].1@ == want[j].1);
    let mut plan: Vec<(String, String)> = Vec::new();
    let mut i: usize = 0;
    while i < order.len()
        invariant
            i <= order@.len() == 5,
            want == probe_order(*commands),
            forall|j: int| 0 <= j < 5 ==> (#[trigger] order@[j]).0@ == want[j].0 && order@[j].1@ == want[j].1,
            plan_view(plan@) == probe_plan_of(want, i as int),
        decreases 5 - i,
    {
        let (metric, command) = order[i];
        let ghost before = plan_view(plan@);
        if !blank(command) {
            let mut seen = false;
            let mut j: usize = 0;
            let wanted = chars_of(command);
            while j < plan.len()
                invariant
                    j <= plan@.len(),
                    wanted@ == command@,
                    seen == exists|m: int| 0 <= m < j && plan@[m].1@ == command@,
                decreases plan@.len() - j,
            {
                let other = chars_of(plan[j].1.as_str());
                if crate::metrics::same_chars(&other, &wanted) {
                    seen = true;
                }
                j += 1;
            }
            proof {
                assert(seen == exists|m: int| 0 <= m < before.len() && (#[trigger] before[m]).1 == command@) by {
                    if seen {
                        let m = choose|m: int| 0 <= m < j && plan@[m].1@ == command@;
                        assert(before[m].1 == command@);
                    }
                    if exists|m: int| 0 <= m < before.len() && (#[trigger] before[m]).1 == command@ {
                        let m = choose|m: int| 0 <= m < before.len() && (#[trigger] before[m]).1 == command@;
                        assert(plan@[m].1@ == command@);
                    }
                }
            }
            if !seen {
                plan.push((metric.to_owned(), command.to_owned()));
                proof {
                    assert(plan_view(plan@) =~= before.push((metric@, command@)));
                }
            }
        }
        i += 1;
    }
    plan
}

/// The rule that heads one command's section of the `probe` listing.
pub open spec fn probe_heading_text(metric: Seq<char>, command: Seq<char>) -> Seq<char> {
    "\u{2500}\u{2500} "@ + metric + ": `"@ + command + "` "@ + Seq::new(40, |_i: int| '\u{2500}')
}

/// The heading of one command's section of the `probe` listing.
pub fn probe_heading(metric: &str, command: &str) -> (r: String)
    ensures
        r@ == probe_heading_text(metric@, command@),
{
    let mut out = chars_of("\u{2500}\u{2500} ");
    push_str(&mut out, metric);
    push_str(&mut out, ": `");
    push_str(&mut out, command);
    push_str(&mut out, "` ");
    let ghost head = out@;
    let mut n: usize = 0;
    while n < 40
        invariant
            n <= 40,
            out@ == head + Seq::new(n as nat, |_i: int| '\u{2500}'),
        decreases 40 - n,
    {
        out.push('\u{2500}');
        n += 1;
        assert(out@ =~= head + Seq::new(n as nat, |_i: int| '\u{2500}'));
    }
    string_from(&out)
}

/// The body of one command's section of the `probe` listing: each line of
/// the reply with its formatting codes taken out, indented; a note when the
/// reply is blank; or why the command failed.
pub open spec fn probe_body_text(reply: Result<String, String>) -> Seq<Seq<char>> {
    match reply {
        Ok(response) => {
            let text = stripped(response@);
            if trim(text).len() == 0 {
                seq!["  (empty response)"@]
            } else {
                Seq::new(lines_of(text).len(), |j: int| "  "@ + lines_of(text)[j])
            }
        },
        Err(error) => seq!["  failed: "@ + error@],
    }
}

/// The lines under one command's heading in the `probe` listing.
pub fn probe_body(reply: &Result<String, String>) -> (r: Vec<String>)
    ensures
        Seq::new(r@.len(), |j: int| r@[j]@) == probe_body_text(*reply),
{
    let mut out: Vec<String> = Vec::new();
    match reply {
        Ok(response) => {
            let text = strip_formatting(response.as_str());
            let chars = chars_of(text.as_str());
            if blank(text.as_str()) {
                out.push("  (empty response)".to_owned());
            } else {
                let spans = line_spans(&chars);
                let mut i: usize = 0;
                while i < spans.len()
                    invariant
                        i <= spans@.len(),
                        chars@ == stripped(response@),
                        crate::source::parse::spans_text(chars@, spans@) == lines_of(chars@),
                        forall|j: int| 0 <= j < spans@.len() ==> (#[trigger] spans@[j]).0 <= spans@[j].1 <= chars@.len(),
                        out@.len() == i,
                        forall|j: int| 0 <= j < i ==> (#[trigger] out@[j])@ == "  "@ + lines_of(chars@)[j],
                    decreases spans@.len() - i,
                {
                    let (a, b) = spans[i];
                    let mut line = chars_of("  ");
                    crate::text::push_all(&mut line, &piece(&chars, a, b));
                    proof {
                        assert(lines_of(chars@)[i as int] == chars@.subrange(a as int, b as int));
                    }
                    out.push(string_from(&line));
                    i += 1;
                }
            }
        },
        Err(error) => {
            let mut line = chars_of("  failed: ");
            push_str(&mut line, error.as_str());
            out.push(string_from(&line));
        },
    }
    assert(Seq::new(out@.len(), |j: int| out@[j]@) =~= probe_body_text(*reply));
    out
}

} // verus!
