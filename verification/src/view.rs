//! What the interface works out before anything is drawn: how healthy a
//! reading looks, the large digits of a headline figure, and how text is
//! fitted into a box of a given size.

use vstd::prelude::*;

use std::time::SystemTime;

use crate::app::App;
use crate::config::UiConfig;
use crate::source::Kind;
use crate::source::parse::strings_view;
use crate::text::{chars_of, decimal, push_decimal, string_from};

verus! {

/// How healthy a reading is. The whole interface reduces to these three, so a
/// glance at the colour is enough to know whether to look closer.
#[derive(Debug, Clone, Copy, PartialEq, Eq, Structural)]
pub enum Health {
    Good,
    Warn,
    Bad,
    Unknown,
}

/// The thresholds readings are judged by, in [`crate::metrics::UNIT`]s.
#[derive(Debug, Clone, Copy)]
pub struct Thresholds {
    pub tps_good: i64,
    pub tps_warn: i64,
    pub mspt_good: i64,
    pub mspt_warn: i64,
}

/// Tick rate: healthy at the configured ceiling, critical below the floor.
pub open spec fn tps_health_of(limits: Thresholds, tps: Option<i64>) -> Health {
    match tps {
        None => Health::Unknown,
        Some(tps) => if tps >= limits.tps_good {
            Health::Good
        } else if tps >= limits.tps_warn {
            Health::Warn
        } else {
            Health::Bad
        },
    }
}

/// Tick duration, where lower is better.
pub open spec fn mspt_health_of(limits: Thresholds, mspt: Option<i64>) -> Health {
    match mspt {
        None => Health::Unknown,
        Some(mspt) => if mspt <= limits.mspt_good {
            Health::Good
        } else if mspt <= limits.mspt_warn {
            Health::Warn
        } else {
            Health::Bad
        },
    }
}

/// A fraction of some capacity: good below three quarters, bad from nine
/// tenths.
pub open spec fn load_health_of(fraction: Option<i64>) -> Health {
    match fraction {
        None => Health::Unknown,
        Some(value) => if value < 750_000 {
            Health::Good
        } else if value < 900_000 {
            Health::Warn
        } else {
            Health::Bad
        },
    }
}

/// How bad a verdict is, from good up; an unknown reading ranks with none.
pub open spec fn severity(health: Health) -> int {
    match health {
        Health::Good => 0,
        Health::Warn => 1,
        Health::Bad => 2,
        Health::Unknown => -1,
    }
}

/// A faster tick rate never looks worse, a longer tick time never looks
/// better, and a fuller load never looks better, whatever the thresholds.
pub proof fn lemma_health_follows_the_reading(limits: Thresholds, low: i64, high: i64)
    requires
        low <= high,
    ensures
        severity(tps_health_of(limits, Some(high))) <= severity(tps_health_of(limits, Some(low))),
        severity(mspt_health_of(limits, Some(low))) <= severity(mspt_health_of(limits, Some(high))),
        severity(load_health_of(Some(low))) <= severity(load_health_of(Some(high))),
{
}

impl Thresholds {
    pub fn new(config: &UiConfig) -> (r: Thresholds)
        ensures
            r.tps_good == config.tps_good,
            r.tps_warn == config.tps_warn,
            r.mspt_good == config.mspt_good,
            r.mspt_warn == config.mspt_warn,
    {
        Thresholds {
            tps_good: config.tps_good,
            tps_warn: config.tps_warn,
            mspt_good: config.mspt_good,
            mspt_warn: config.mspt_warn,
        }
    }

    /// Tick rate: healthy at the configured ceiling, critical below the floor.
    pub fn tps_health(&self, tps: Option<i64>) -> (r: Health)
        ensures
            r == tps_health_of(*self, tps),
    {
        match tps {
            None => Health::Unknown,
            Some(tps) => if tps >= self.tps_good {
                Health::Good
            } else if tps >= self.tps_warn {
                Health::Warn
            } else {
                Health::Bad
            },
        }
    }

    /// Tick duration, where lower is better. A tick has 50ms before the server
    /// starts falling behind, so the defaults sit well inside that.
    pub fn mspt_health(&self, mspt: Option<i64>) -> (r: Health)
        ensures
            r == mspt_health_of(*self, mspt),
    {
        match mspt {
            None => Health::Unknown,
            Some(mspt) => if mspt <= self.mspt_good {
                Health::Good
            } else if mspt <= self.mspt_warn {
                Health::Warn
            } else {
                Health::Bad
            },
        }
    }

    /// A generic fraction of some capacity: heap occupancy, disk, CPU.
    pub fn load_health(&self, fraction: Option<i64>) -> (r: Health)
        ensures
            r == load_health_of(fraction),
    {
        match fraction {
            None => Health::Unknown,
            Some(value) => if value < 750_000 {
                Health::Good
            } else if value < 900_000 {
                Health::Warn
            } else {
                Health::Bad
            },
        }
    }
}

/// Rows in the large digits.
pub const BIG_ROWS: usize = 3;

/// The three rows of the large form of `ch`; a blank for anything without one.
pub open spec fn glyph(ch: char) -> (Seq<char>, Seq<char>, Seq<char>) {
    match ch {
        '0' => (seq!['┏', '━', '┓'], seq!['┃', ' ', '┃'], seq!['┗', '━', '┛']),
        '1' => (seq![' ', '╻', ' '], seq![' ', '┃', ' '], seq![' ', '╹', ' ']),
        '2' => (seq!['┏', '━', '┓'], seq!['┏', '━', '┛'], seq!['┗', '━', '╸']),
        '3' => (seq!['┏', '━', '┓'], seq![' ', '━', '┫'], seq!['┗', '━', '┛']),
        '4' => (seq!['╻', ' ', '╻'], seq!['┗', '━', '┫'], seq![' ', ' ', '╹']),
        '5' => (seq!['┏', '━', '╸'], seq!['┗', '━', '┓'], seq!['┗', '━', '┛']),
        '6' => (seq!['┏', '━', '╸'], seq!['┣', '━', '┓'], seq!['┗', '━', '┛']),
        '7' => (seq!['┏', '━', '┓'], seq![' ', ' ', '┃'], seq![' ', ' ', '╹']),
        '8' => (seq!['┏', '━', '┓'], seq!['┣', '━', '┫'], seq!['┗', '━', '┛']),
        '9' => (seq!['┏', '━', '┓'], seq!['┗', '━', '┫'], seq!['┗', '━', '┛']),
        '.' => (seq![' ', ' ', ' '], seq![' ', ' ', ' '], seq![' ', '▄', ' ']),
        ',' => (seq![' ', ' ', ' '], seq![' ', ' ', ' '], seq![' ', '▄', ' ']),
        ':' => (seq![' ', ' ', ' '], seq![' ', '▪', ' '], seq![' ', '▪', ' ']),
        '-' => (seq![' ', ' ', ' '], seq!['╺', '━', '╸'], seq![' ', ' ', ' ']),
        '?' => (seq!['┏', '━', '┓'], seq![' ', '━', '┫'], seq![' ', '╹', ' ']),
        _ => (seq![' ', ' ', ' '], seq![' ', ' ', ' '], seq![' ', ' ', ' ']),
    }
}

pub open spec fn glyph_row(ch: char, row: int) -> Seq<char> {
    if row == 0 {
        glyph(ch).0
    } else if row == 1 {
        glyph(ch).1
    } else {
        glyph(ch).2
    }
}

fn big_glyph(ch: char) -> (r: ([char; 3], [char; 3], [char; 3]))
    ensures
        r.0@ == glyph(ch).0,
        r.1@ == glyph(ch).1,
        r.2@ == glyph(ch).2,
{
    match ch {
        '0' => (['┏', '━', '┓'], ['┃', ' ', '┃'], ['┗', '━', '┛']),
        '1' => ([' ', '╻', ' '], [' ', '┃', ' '], [' ', '╹', ' ']),
        '2' => (['┏', '━', '┓'], ['┏', '━', '┛'], ['┗', '━', '╸']),
        '3' => (['┏', '━', '┓'], [' ', '━', '┫'], ['┗', '━', '┛']),
        '4' => (['╻', ' ', '╻'], ['┗', '━', '┫'], [' ', ' ', '╹']),
        '5' => (['┏', '━', '╸'], ['┗', '━', '┓'], ['┗', '━', '┛']),
        '6' => (['┏', '━', '╸'], ['┣', '━', '┓'], ['┗', '━', '┛']),
        '7' => (['┏', '━', '┓'], [' ', ' ', '┃'], [' ', ' ', '╹']),
        '8' => (['┏', '━', '┓'], ['┣', '━', '┫'], ['┗', '━', '┛']),
        '9' => (['┏', '━', '┓'], ['┗', '━', '┫'], ['┗', '━', '┛']),
        '.' => ([' ', ' ', ' '], [' ', ' ', ' '], [' ', '▄', ' ']),
        ',' => ([' ', ' ', ' '], [' ', ' ', ' '], [' ', '▄', ' ']),
        ':' => ([' ', ' ', ' '], [' ', '▪', ' '], [' ', '▪', ' ']),
        '-' => ([' ', ' ', ' '], ['╺', '━', '╸'], [' ', ' ', ' ']),
        '?' => (['┏', '━', '┓'], [' ', '━', '┫'], [' ', '╹', ' ']),
        _ => ([' ', ' ', ' '], [' ', ' ', ' '], [' ', ' ', ' ']),
    }
}

/// One row of `text` in large digits: the glyphs side by side, a space apart.
pub open spec fn big_row(text: Seq<char>, row: int) -> Seq<char>
    decreases text.len(),
{
    if text.len() == 0 {
        Seq::empty()
    } else if text.len() == 1 {
        glyph_row(text[0], row)
    } else {
        big_row(text.drop_last(), row) + seq![' '] + glyph_row(text.last(), row)
    }
}

fn push_row(out: &mut Vec<char>, first: bool, part: [char; 3])
    ensures
        final(out)@ == if first {
            old(out)@ + part@
        } else {
            old(out)@ + seq![' '] + part@
        },
{
    if !first {
        out.push(' ');
    }
    out.push(part[0]);
    out.push(part[1]);
    out.push(part[2]);
    proof {
        assert(part@ =~= seq![part@[0], part@[1], part@[2]]);
    }
}

/// Render `text` as three rows of large digits.
pub fn big_text(text: &str) -> (r: [String; BIG_ROWS])
    ensures
        r@[0]@ == big_row(text@, 0),
        r@[1]@ == big_row(text@, 1),
        r@[2]@ == big_row(text@, 2),
{
    let chars = chars_of(text);
    let mut top: Vec<char> = Vec::new();
    let mut middle: Vec<char> = Vec::new();
    let mut bottom: Vec<char> = Vec::new();
    let mut i: usize = 0;
    while i < chars.len()
        invariant
            i <= chars@.len(),
            chars@ == text@,
            top@ == big_row(chars@.take(i as int), 0),
            middle@ == big_row(chars@.take(i as int), 1),
            bottom@ == big_row(chars@.take(i as int), 2),
        decreases chars@.len() - i,
    {
        let (a, b, c) = big_glyph(chars[i]);
        proof {
            assert(chars@.take(i + 1).drop_last() =~= chars@.take(i as int));
            assert(chars@.take(i + 1).last() == chars@[i as int]);
            if i == 0 {
                assert(top@ =~= Seq::<char>::empty());
                assert(middle@ =~= Seq::<char>::empty());
                assert(bottom@ =~= Seq::<char>::empty());
            }
        }
        push_row(&mut top, i == 0, a);
        push_row(&mut middle, i == 0, b);
        push_row(&mut bottom, i == 0, c);
        proof {
            if i == 0 {
                assert(top@ =~= glyph_row(chars@[0], 0));
                assert(middle@ =~= glyph_row(chars@[0], 1));
                assert(bottom@ =~= glyph_row(chars@[0], 2));
            }
        }
        i += 1;
    }
    proof {
        assert(chars@.take(chars@.len() as int) =~= chars@);
    }
    [string_from(&top), string_from(&middle), string_from(&bottom)]
}

/// The width `big_text` needs for a text of `count` characters, as `u16`
/// arithmetic works it out: the count held in 16 bits, four columns each,
/// less the missing gap after the last.
pub open spec fn big_width(count: nat) -> u16 {
    let n = (count % 65536) as int;
    let wide = if n * 4 > 65535 {
        65535
    } else {
        n * 4
    };
    if wide > 0 {
        (wide - 1) as u16
    } else {
        0
    }
}

/// The width `big_text` needs for `text`.
pub fn big_text_width(text: &str) -> (r: u16)
    ensures
        r == big_width(text@.len()),
{
    let chars = chars_of(text);
    let count = (chars.len() % 65536) as u32;
    let wide: u32 = if count * 4 > 65535 { 65535 } else { count * 4 };
    if wide > 0 { (wide - 1) as u16 } else { 0 }
}

proof fn lemma_glyph_width(ch: char, row: int)
    ensures
        glyph_row(ch, row).len() == 3,
{
}

/// Every row of large digits is as wide as [`big_text_width`] says, for any
/// text short enough that the width fits in 16 bits.
pub proof fn lemma_big_rows_fill_their_width(text: Seq<char>, row: int)
    requires
        text.len() <= 16383,
    ensures
        big_row(text, row).len() == big_width(text.len()),
    decreases text.len(),
{
    if text.len() > 0 {
        lemma_glyph_width(text.last(), row);
        if text.len() > 1 {
            lemma_big_rows_fill_their_width(text.drop_last(), row);
        }
    }
}

/// Rows a scrollback entry of `count` characters takes in a box `width`
/// columns wide: the time stamp, the kind marker and the spaces around them
/// take fifteen, and every entry takes at least one row.
pub open spec fn wrapped_rows(count: nat, width: nat) -> nat {
    let columns: nat = if width > 16 {
        (width - 15) as nat
    } else {
        1
    };
    let rows = (count + columns - 1) / columns as int;
    if rows > 1 {
        rows as nat
    } else {
        1
    }
}

/// Rows a scrollback entry takes once the box has wrapped it.
pub fn wrapped_height(message: &str, width: usize) -> (r: usize)
    ensures
        r == wrapped_rows(message@.len(), width as nat),
{
    // Time stamp, the padded kind marker, and the spaces around them.
    let gutter: usize = 9 + 5 + 1;
    let columns = if width > gutter + 1 { width - gutter } else { 1 };
    let count = chars_of(message).len();
    let whole = count / columns;
    let rest = count % columns;
    proof {
        assert(rest > 0 ==> whole < count) by (nonlinear_arith)
            requires
                columns > 0,
                whole == count / columns,
                rest == count % columns,
        ;
    }
    let rows = if rest > 0 { whole + 1 } else { whole };
    proof {
        assert(rows == (count + columns - 1) / columns as int) by (nonlinear_arith)
            requires
                columns > 0,
                whole == count / columns,
                rest == count % columns,
                rows == whole + if rest > 0 { 1int } else { 0int },
        ;
    }
    if rows > 1 { rows } else { 1 }
}

/// How many of the newest scrollback entries fit in `visible` rows, and how
/// many rows they take, when `heights` gives each entry's rows oldest first:
/// entries are taken from the newest back until the next would not fit, and
/// the newest is taken whatever its height.
pub open spec fn bottom_fill(heights: Seq<usize>, visible: int) -> (nat, int)
    decreases heights.len(),
{
    if heights.len() == 0 {
        (0, 0)
    } else {
        let (taken, used) = bottom_fill(heights.drop_last(), visible);
        if taken == heights.len() - 1 && (taken == 0 || used + heights.last() <= visible) {
            ((taken + 1) as nat, used + heights.last())
        } else {
            (taken, used)
        }
    }
}

/// The newest entries that fill a box of `visible` rows from the bottom, as
/// a count and the rows they take.
pub fn fill_from_bottom(heights: &Vec<usize>, visible: usize) -> (r: (usize, usize))
    ensures
        r.0 == bottom_fill(heights@.reverse(), visible as int).0,
        r.1 == bottom_fill(heights@.reverse(), visible as int).1,
{
    let mut taken: usize = 0;
    let mut used: usize = 0;
    let mut i = heights.len();
    while i > 0
        invariant
            i <= heights@.len(),
            taken == heights.len() - i,
            (taken as nat, used as int) == bottom_fill(heights@.reverse().take(taken as int), visible as int),
            used <= visible || taken == 1 && used == heights@[heights@.len() - 1],
        decreases i,
    {
        let height = heights[i - 1];
        proof {
            assert(heights@.reverse().take(taken + 1).drop_last() =~= heights@.reverse().take(taken as int));
            assert(heights@.reverse().take(taken + 1).last() == height);
        }
        if taken > 0 && (used > visible || height > visible - used) {
            proof {
                lemma_bottom_fill_stops(heights@.reverse(), visible as int, taken as nat);
            }
            return (taken, used);
        }
        used = used + height;
        taken += 1;
        i -= 1;
    }
    proof {
        assert(heights@.reverse().take(taken as int) =~= heights@.reverse());
    }
    (taken, used)
}

/// Once an entry does not fit, no entry older than it is taken either.
proof fn lemma_bottom_fill_stops(order: Seq<usize>, visible: int, taken: nat)
    requires
        taken < order.len(),
        bottom_fill(order.take(taken as int), visible).0 == taken,
        taken > 0,
        bottom_fill(order.take(taken as int), visible).1 + order[taken as int] > visible,
    ensures
        bottom_fill(order, visible) == bottom_fill(order.take(taken as int), visible),
    decreases order.len(),
{
    if order.len() > taken + 1 {
        assert(order.drop_last().take(taken as int) =~= order.take(taken as int));
        lemma_bottom_fill_stops(order.drop_last(), visible, taken);
    } else {
        assert(order.drop_last() =~= order.take(taken as int));
    }
}

/// Two digits, with a leading zero below ten.
pub open spec fn two_digits(n: nat) -> Seq<char> {
    if n < 10 {
        seq!['0'] + decimal(n)
    } else {
        decimal(n)
    }
}

/// `HH:MM:SS` of the time of day `seconds` after the Unix epoch, in UTC.
pub open spec fn clock_of(seconds: nat) -> Seq<char> {
    let day = seconds % 86_400;
    two_digits(day / 3600) + seq![':'] + two_digits((day % 3600) / 60) + seq![':'] + two_digits(day % 60)
}

fn push_two_digits(out: &mut Vec<char>, n: u64)
    requires
        n < 100,
    ensures
        final(out)@ == old(out)@ + two_digits(n as nat),
{
    if n < 10 {
        out.push('0');
    }
    push_decimal(out, n as u128);
}

/// Wall-clock `HH:MM:SS` in UTC of a moment `seconds` after the Unix epoch.
pub fn clock_text(seconds: u64) -> (r: String)
    ensures
        r@ == clock_of(seconds as nat),
{
    let day = seconds % 86_400;
    let mut out: Vec<char> = Vec::new();
    push_two_digits(&mut out, day / 3600);
    out.push(':');
    push_two_digits(&mut out, (day % 3600) / 60);
    out.push(':');
    push_two_digits(&mut out, day % 60);
    proof {
        assert(out@ =~= clock_of(seconds as nat));
    }
    string_from(&out)
}

/// Wall-clock `HH:MM:SS` in UTC, which needs no timezone database. A moment
/// before the epoch reads as midnight.
pub fn clock(at: &SystemTime) -> (r: String)
    ensures
        exists|seconds: nat| r@ == clock_of(seconds),
{
    let seconds = crate::clock::unix_seconds(at);
    clock_text(seconds)
}

/// The marker set before a scrollback line of each kind; none is wider than
/// five columns, so the messages line up.
pub open spec fn marker_of(kind: Kind) -> Seq<char> {
    match kind {
        Kind::Info => seq!['i', 'n', 'f', 'o', ' '],
        Kind::Warn => seq!['w', 'a', 'r', 'n', ' '],
        Kind::Error => seq!['e', 'r', 'r', 'o', 'r'],
        Kind::Sent => seq![' ', ' ', '\u{bb}', ' '],
        Kind::Received => seq![' ', ' ', ' ', ' '],
    }
}

pub fn kind_marker(kind: Kind) -> (r: String)
    ensures
        r@ == marker_of(kind),
        r@.len() <= 5,
{
    let marker: Vec<char> = match kind {
        Kind::Info => vec!['i', 'n', 'f', 'o', ' '],
        Kind::Warn => vec!['w', 'a', 'r', 'n', ' '],
        Kind::Error => vec!['e', 'r', 'r', 'o', 'r'],
        Kind::Sent => vec![' ', ' ', '\u{bb}', ' '],
        Kind::Received => vec![' ', ' ', ' ', ' '],
    };
    proof {
        assert(marker@ =~= marker_of(kind));
    }
    string_from(&marker)
}

/// `text` shortened to `width` characters, the cut marked with an ellipsis.
pub open spec fn truncated(text: Seq<char>, width: nat) -> Seq<char> {
    if width == 0 {
        Seq::empty()
    } else if text.len() <= width {
        text
    } else {
        text.take(width - 1) + seq!['\u{2026}']
    }
}

/// Shorten to `width`, marking the cut with an ellipsis.
pub fn truncate(text: &str, width: usize) -> (r: String)
    ensures
        r@ == truncated(text@, width as nat),
        r@.len() <= width,
{
    if width == 0 {
        return String::new();
    }
    let chars = chars_of(text);
    if chars.len() <= width {
        return string_from(&chars);
    }
    let mut out: Vec<char> = Vec::new();
    let mut i: usize = 0;
    while i < width - 1
        invariant
            i <= width - 1 < chars@.len(),
            out@ == chars@.take(i as int),
        decreases width - 1 - i,
    {
        out.push(chars[i]);
        i += 1;
        proof {
            assert(out@ =~= chars@.take(i as int));
        }
    }
    out.push('\u{2026}');
    string_from(&out)
}

/// Why a panel has no reading to show.
///
/// The Overview tiles and the System panels word this differently — one has
/// sixteen columns, the other has a paragraph — but they must never disagree
/// about which case they are in, so the reasoning lives here once.
#[derive(Debug, Clone, PartialEq, Eq)]
pub enum Unavailable {
    /// Local sampling is switched off in the config.
    SamplingOff,
    /// Heap readings specifically are switched off.
    HeapOff,
    /// No process matched, so there is nothing to sample.
    NoProcess,
    /// The process was found, but the JDK tools could not read its heap.
    ToolFailed(Option<String>),
}

impl Unavailable {
    /// A few words, for a quarter-width tile.
    pub fn short(&self) -> (r: &'static str)
        ensures
            r@ == match self {
                Unavailable::SamplingOff => "disabled in config"@,
                Unavailable::HeapOff => "heap readings off"@,
                Unavailable::NoProcess => "no server process found"@,
                Unavailable::ToolFailed(_) => "jstat cannot attach"@,
            },
    {
        match self {
            Unavailable::SamplingOff => "disabled in config",
            Unavailable::HeapOff => "heap readings off",
            Unavailable::NoProcess => "no server process found",
            Unavailable::ToolFailed(_) => "jstat cannot attach",
        }
    }
}

/// Why there is no CPU or memory reading.
pub fn process_unavailable(app: &App) -> (r: Unavailable)
    ensures
        r == if !app.config.process.enabled {
            Unavailable::SamplingOff
        } else {
            Unavailable::NoProcess
        },
{
    if !app.config.process.enabled {
        Unavailable::SamplingOff
    } else {
        Unavailable::NoProcess
    }
}

/// Why there is no heap reading. Distinct from [`process_unavailable`]: a heap
/// can be missing even when the process was found perfectly well, and saying
/// "no server process found" in that case sends the reader hunting for the
/// wrong problem.
pub fn heap_unavailable(app: &App) -> (r: Unavailable)
    ensures
        !app.config.process.enabled ==> r == Unavailable::SamplingOff,
        app.config.process.enabled && !app.config.jvm.enabled ==> r == Unavailable::HeapOff,
        app.config.process.enabled && app.config.jvm.enabled && app.process.is_none() ==> r
            == Unavailable::NoProcess,
        app.config.process.enabled && app.config.jvm.enabled && app.process.is_some() ==> (r matches Unavailable::ToolFailed(
            reason,
        ) && crate::metrics::opt_text(reason) == crate::metrics::opt_text(app.heap_error)),
{
    if !app.config.process.enabled {
        Unavailable::SamplingOff
    } else if !app.config.jvm.enabled {
        Unavailable::HeapOff
    } else if app.process.is_none() {
        Unavailable::NoProcess
    } else {
        Unavailable::ToolFailed(crate::metrics::copy_opt(&app.heap_error))
    }
}

/// Whether `text` holds an ASCII digit, which is what the large face can set.
pub open spec fn has_ascii_digit(text: Seq<char>) -> bool {
    exists|k: int| 0 <= k < text.len() && '0' <= #[trigger] text[k] && text[k] <= '9'
}

/// The first of `values` from `j` on that can be set in large digits with a
/// unit `unit` characters wide beside it, in `width` columns.
pub open spec fn first_big(values: Seq<Seq<char>>, unit: nat, width: int, j: int) -> Option<int>
    decreases values.len() - j,
{
    if 0 <= j < values.len() {
        if has_ascii_digit(values[j]) && big_width(values[j].len()) + unit + 1 <= width {
            Some(j)
        } else {
            first_big(values, unit, width, j + 1)
        }
    } else {
        None
    }
}

/// The first of `values` from `j` on that fits `width` columns in plain text
/// with the unit beside it.
pub open spec fn first_small(values: Seq<Seq<char>>, unit: nat, width: int, j: int) -> Option<int>
    decreases values.len() - j,
{
    if 0 <= j < values.len() {
        if values[j].len() + unit + 1 <= width {
            Some(j)
        } else {
            first_small(values, unit, width, j + 1)
        }
    } else {
        None
    }
}

/// Which of a headline's renderings to show in a tile `width` by `height`,
/// widest first, and whether in large digits: the first that has digits to
/// enlarge and fits large, when the tile is tall enough; else the first that
/// fits plain; else the last, the shortest there is.
pub open spec fn chosen_value(values: Seq<Seq<char>>, unit: nat, width: int, height: int) -> (Option<int>, bool) {
    match (if height > 3 { first_big(values, unit, width, 0) } else { None }) {
        Some(k) => (Some(k), true),
        None => match first_small(values, unit, width, 0) {
            Some(k) => (Some(k), false),
            None => (if values.len() > 0 { Some(values.len() - 1) } else { None }, false),
        },
    }
}

fn has_digit(text: &Vec<char>) -> (r: bool)
    ensures
        r == has_ascii_digit(text@),
{
    let mut k: usize = 0;
    while k < text.len()
        invariant
            k <= text@.len(),
            forall|m: int| 0 <= m < k ==> !('0' <= #[trigger] text@[m] && text@[m] <= '9'),
        decreases text@.len() - k,
    {
        if '0' <= text[k] && text[k] <= '9' {
            return true;
        }
        k += 1;
    }
    false
}

/// The rendering of a headline figure that fits a tile; see [`chosen_value`].
pub fn choose_value(values: &Vec<String>, unit: &str, width: u16, height: u16) -> (r: (Option<usize>, bool))
    ensures
        (match r.0 {
            Some(k) => Some(k as int),
            None => None,
        }, r.1) == chosen_value(strings_view(values@), unit@.len(), width as int, height as int),
{
    let unit_width = chars_of(unit).len();
    let ghost all = strings_view(values@);
    if height > 3 {
        let mut j: usize = 0;
        while j < values.len()
            invariant
                j <= values@.len(),
                height > 3,
                all == strings_view(values@),
                unit_width == unit@.len(),
                first_big(all, unit@.len(), width as int, 0) == first_big(all, unit@.len(), width as int, j as int),
            decreases values@.len() - j,
        {
            let text = chars_of(values[j].as_str());
            let big = big_text_width(values[j].as_str());
            proof {
                assert(all[j as int] == values@[j as int]@);
            }
            if has_digit(&text) && unit_width < width as usize && (big as usize) < width as usize - unit_width {
                return (Some(j), true);
            }
            j += 1;
        }
    }
    let mut j: usize = 0;
    while j < values.len()
        invariant
            j <= values@.len(),
            all == strings_view(values@),
            unit_width == unit@.len(),
            height > 3 ==> first_big(all, unit@.len(), width as int, 0) is None,
            first_small(all, unit@.len(), width as int, 0) == first_small(all, unit@.len(), width as int, j as int),
        decreases values@.len() - j,
    {
        let count = chars_of(values[j].as_str()).len();
        proof {
            assert(all[j as int] == values@[j as int]@);
        }
        if unit_width < width as usize && count < width as usize - unit_width {
            return (Some(j), false);
        }
        j += 1;
    }
    if values.len() > 0 {
        (Some(values.len() - 1), false)
    } else {
        (None, false)
    }
}

/// The first of `widths` from `j` on no wider than `width`.
pub open spec fn first_fitting(widths: Seq<usize>, width: int, j: int) -> Option<int>
    decreases widths.len() - j,
{
    if 0 <= j < widths.len() {
        if widths[j] <= width {
            Some(j)
        } else {
            first_fitting(widths, width, j + 1)
        }
    } else {
        None
    }
}

/// Which of a tile's captions, widest first, to show in `width` columns: the
/// first that fits, else the last.
pub fn choose_caption(widths: &Vec<usize>, width: u16) -> (r: Option<usize>)
    ensures
        (match r {
            Some(k) => Some(k as int),
            None => None,
        }) == match first_fitting(widths@, width as int, 0) {
            Some(k) => Some(k),
            None => if widths@.len() > 0 {
                Some(widths@.len() - 1)
            } else {
                None
            },
        },
{
    let mut j: usize = 0;
    while j < widths.len()
        invariant
            j <= widths@.len(),
            first_fitting(widths@, width as int, 0) == first_fitting(widths@, width as int, j as int),
        decreases widths@.len() - j,
    {
        if widths[j] <= width as usize {
            return Some(j);
        }
        j += 1;
    }
    if widths.len() > 0 {
        Some(widths.len() - 1)
    } else {
        None
    }
}

/// The cells of a meter `width` wide showing `fraction` (in millionths, held
/// between none and all): full blocks, the eighths of one partial block (none
/// when zero), and empty cells. The filled length is counted in eighths of a
/// cell, rounded half up.
pub open spec fn meter_of(fraction: int, width: int) -> (int, int, int) {
    let f = if fraction < 0 {
        0
    } else if fraction > 1_000_000 {
        1_000_000
    } else {
        fraction
    };
    let eighths = (f * width * 8 + 500_000) / 1_000_000;
    let full = eighths / 8;
    let partial = if full < width && eighths % 8 > 0 {
        eighths % 8
    } else {
        0
    };
    let drawn = (if full < width {
        full
    } else {
        width
    }) + if partial > 0 {
        1int
    } else {
        0
    };
    (if full < width {
        full
    } else {
        width
    }, partial, width - drawn)
}

/// How to draw a horizontal meter from eighth-blocks, so it moves smoothly
/// even in a narrow column; see [`meter_of`].
pub fn meter_cells(fraction: i64, width: u16) -> (r: (usize, usize, usize))
    ensures
        (r.0 as int, r.1 as int, r.2 as int) == meter_of(fraction as int, width as int),
        r.0 + (if r.1 > 0 { 1int } else { 0 }) + r.2 == width,
{
    let f: u64 = if fraction < 0 {
        0
    } else if fraction > 1_000_000 {
        1_000_000
    } else {
        fraction as u64
    };
    let w = width as u64;
    proof {
        assert(f * w <= 65_535_000_000) by (nonlinear_arith)
            requires
                f <= 1_000_000,
                w <= 65535,
        ;
    }
    let product = f * w;
    let eighths = (product * 8 + 500_000) / 1_000_000;
    let full = eighths / 8;
    let partial = if full < w && eighths % 8 > 0 { eighths % 8 } else { 0 };
    let shown = if full < w { full } else { w };
    let drawn = shown + if partial > 0 { 1 } else { 0 };
    proof {
        assert(eighths <= w * 8) by (nonlinear_arith)
            requires
                f <= 1_000_000,
                product == f * w,
                eighths == (product * 8 + 500_000) / 1_000_000,
        ;
    }
    (shown as usize, partial as usize, (w - drawn) as usize)
}

/// Spaces between a label and its value in a `width`-column row, the value
/// pushed to the right edge; at least one.
pub fn field_gap(label: &str, value: &str, width: u16) -> (r: usize)
    ensures
        r == if width as int - label@.len() - value@.len() > 1 {
            width as int - label@.len() - value@.len()
        } else {
            1
        },
{
    let used = chars_of(label).len() as u128 + chars_of(value).len() as u128;
    if (width as u128) > used + 1 {
        (width as u128 - used) as usize
    } else {
        1
    }
}

/// The widths of the region table's name and load-meter columns, in a table
/// `width` columns wide. The numeric columns, their spacing and the selection
/// mark take 53; the meter, the one column that still says something at six
/// characters, takes what is left past a 30-column name, up to 40, and nothing
/// when that is under 6; the name takes the rest, between 10 and 44.
pub open spec fn region_column_widths(width: int) -> (int, int) {
    let spare = width - 83;
    let meter = if spare < 6 {
        0
    } else if spare > 40 {
        40
    } else {
        spare
    };
    let rest = width - 53 - meter;
    let name = if rest < 10 {
        10
    } else if rest > 44 {
        44
    } else {
        rest
    };
    (name, meter)
}

/// The name and meter widths of the region table, as
/// [`region_column_widths`] says.
pub fn region_columns(width: u16) -> (r: (u16, u16))
    ensures
        r.0 as int == region_column_widths(width as int).0,
        r.1 as int == region_column_widths(width as int).1,
{
    let spare: u16 = if width > 83 { width - 83 } else { 0 };
    let meter: u16 = if spare < 6 {
        0
    } else if spare > 40 {
        40
    } else {
        spare
    };
    let rest: u16 = if width > 53 + meter { width - 53 - meter } else { 0 };
    let name: u16 = if rest < 10 {
        10
    } else if rest > 44 {
        44
    } else {
        rest
    };
    (name, meter)
}

/// A box `width` by `height` centred in `area` (`x`, `y`, width, height),
/// clipped to it.
pub fn centred(area: (u16, u16, u16, u16), width: u16, height: u16) -> (r: (u16, u16, u16, u16))
    requires
        area.0 + area.2 <= u16::MAX,
        area.1 + area.3 <= u16::MAX,
    ensures
        r.2 == if width < area.2 { width } else { area.2 },
        r.3 == if height < area.3 { height } else { area.3 },
        r.0 == area.0 + (area.2 - r.2) / 2,
        r.1 == area.1 + (area.3 - r.3) / 2,
        area.0 <= r.0 && r.0 + r.2 <= area.0 + area.2,
        area.1 <= r.1 && r.1 + r.3 <= area.1 + area.3,
{
    let width = if width < area.2 { width } else { area.2 };
    let height = if height < area.3 { height } else { area.3 };
    (area.0 + (area.2 - width) / 2, area.1 + (area.3 - height) / 2, width, height)
}

} // verus!
