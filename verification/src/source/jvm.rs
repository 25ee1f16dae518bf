//! Java heap readings, taken with the JDK's own tools.
//!
//! Resident set size tells you what the operating system handed the JVM, not
//! what the game is actually holding: a heap that has grown to its ceiling and
//! is mostly garbage looks identical to one that is genuinely full. The number
//! that distinguishes them is occupancy *after* a collection, so that is what
//! this module works to produce.

use vstd::prelude::*;

use crate::config::{joined, JvmConfig, Tool};
use crate::metrics::{same_chars, HeapStats, History};
use crate::server::{parse_unsigned, parse_unsigned_at};
use crate::source::figure::{figure_of, figure_value};
use crate::source::parse::{lines, lines_of};
use crate::text::{chars_of, decimal, push_decimal, push_str, spans_of, string_between, string_from, trim, trim_bounds, word_spans, words_of};

verus! {

/// Why a JDK tool that exited with a failure failed, from what it printed on
/// standard error: its first line, trimmed; `failed` when it printed nothing
/// at all, and a plain statement when that line is blank.
pub open spec fn exit_reason_text(stderr: Seq<char>) -> Seq<char> {
    let lines = lines_of(stderr);
    if lines.len() == 0 {
        "failed"@
    } else if trim(lines[0]).len() == 0 {
        "exited with a failure"@
    } else {
        trim(lines[0])
    }
}

/// The reason a JDK tool's failure is reported with; see [`exit_reason_text`].
pub fn exit_reason(stderr: &str) -> (r: String)
    ensures
        r@ == exit_reason_text(stderr@),
{
    let chars = chars_of(stderr);
    let spans = crate::source::parse::line_spans(&chars);
    if spans.len() == 0 {
        return "failed".to_owned();
    }
    let (a, b) = spans[0];
    let (x, y) = trim_bounds(&chars, a, b);
    proof {
        assert(lines_of(chars@)[0] == chars@.subrange(a as int, b as int));
    }
    if x == y {
        "exited with a failure".to_owned()
    } else {
        string_from(&crate::source::parse::piece(&chars, x, y))
    }
}


/// The value of the first `-XX:MaxHeapSize=` flag among `words`.
pub open spec fn max_heap_flag(words: Seq<Seq<char>>, j: int) -> Option<Seq<char>>
    decreases words.len() - j,
{
    if 0 <= j < words.len() {
        let prefix = "-XX:MaxHeapSize="@;
        if words[j].len() >= prefix.len() && words[j].take(prefix.len() as int) == prefix {
            Some(words[j].skip(prefix.len() as int))
        } else {
            max_heap_flag(words, j + 1)
        }
    } else {
        None
    }
}

/// The heap ceiling `jcmd <pid> VM.flags` reports: the first
/// `-XX:MaxHeapSize=` flag's value, when it reads as a positive `u64`.
pub open spec fn max_heap_of(output: Seq<char>) -> Option<u64> {
    match max_heap_flag(words_of(output), 0) {
        Some(value) => match parse_unsigned(value, u64::MAX as nat) {
            Some(bytes) => if bytes > 0 {
                Some(bytes as u64)
            } else {
                None
            },
            None => None,
        },
        None => None,
    }
}

/// Pull `MaxHeapSize` out of `jcmd <pid> VM.flags`.
pub fn parse_max_heap(output: &str) -> (r: Option<u64>)
    ensures
        r == max_heap_of(output@),
{
    let text = chars_of(output);
    let prefix = chars_of("-XX:MaxHeapSize=");
    let spans = word_spans(&text);
    let ghost words = words_of(text@);
    let mut j: usize = 0;
    while j < spans.len()
        invariant
            j <= spans@.len(),
            prefix@ == "-XX:MaxHeapSize="@,
            text@ == output@,
            spans_of(text@, spans@) == words,
            words == words_of(text@),
            forall|k: int| 0 <= k < spans@.len() ==> (#[trigger] spans@[k]).0 <= spans@[k].1 <= text@.len(),
            max_heap_flag(words, 0) == max_heap_flag(words, j as int),
        decreases spans@.len() - j,
    {
        let (a, b) = spans[j];
        proof {
            assert(words[j as int] == text@.subrange(a as int, b as int));
        }
        if b - a >= prefix.len() {
            let mut k: usize = 0;
            let mut same = true;
            while k < prefix.len()
                invariant
                    a + prefix@.len() <= b <= text@.len(),
                    k <= prefix@.len(),
                    same == forall|m: int| 0 <= m < k ==> text@[a + m] == prefix@[m],
                decreases prefix@.len() - k,
            {
                if text[a + k] != prefix[k] {
                    same = false;
                }
                k += 1;
            }
            if same {
                proof {
                    assert(words[j as int].take(prefix@.len() as int) =~= prefix@);
                    assert(words[j as int].skip(prefix@.len() as int) =~= text@.subrange(a + prefix@.len(), b as int));
                    assert(words[j as int].len() >= prefix@.len());
                    assert(max_heap_flag(words, j as int) == Some(text@.subrange(a + prefix@.len(), b as int)));
                }
                let value = parse_unsigned_at(&text, a + prefix.len(), b, u64::MAX);
                return match value {
                    Some(bytes) => if bytes > 0 {
                        Some(bytes)
                    } else {
                        None
                    },
                    None => None,
                };
            } else {
                proof {
                    let m = choose|m: int| 0 <= m < prefix@.len() && text@[a + m] != prefix@[m];
                    assert(words[j as int].take(prefix@.len() as int)[m] != prefix@[m]);
                }
            }
        }
        j += 1;
    }
    None
}

/// The lines among `lines` that are not blank, trimmed, in order.
pub open spec fn filled_lines(lines: Seq<Seq<char>>) -> Seq<Seq<char>>
    decreases lines.len(),
{
    if lines.len() == 0 {
        Seq::empty()
    } else {
        let rest = filled_lines(lines.drop_last());
        let line = trim(lines.last());
        if line.len() > 0 {
            rest.push(line)
        } else {
            rest
        }
    }
}

/// A column's value, in millionths: the figure as a double parse reads it
/// (`8192.0`, `-.5`, `+3`, `1.5E3`); `None` for anything it refuses, such as
/// jstat's `-` for a column it has no figure for, and for a figure too large
/// for a double, which is not finite.
pub open spec fn column_value(t: Seq<char>) -> Option<i64> {
    figure_value(t)
}

fn column_value_of(t: &Vec<char>, start: usize, end: usize) -> (r: Option<i64>)
    requires
        start <= end <= t.len(),
    ensures
        r == column_value(t@.subrange(start as int, end as int)),
{
    figure_of(t, start, end)
}

/// The columns of a row read against its header: each name with its value,
/// in order, those whose value does not read left out.
pub open spec fn read_columns(names: Seq<Seq<char>>, values: Seq<Seq<char>>) -> Seq<(Seq<char>, i64)>
    decreases names.len(),
{
    if names.len() == 0 || values.len() == 0 {
        Seq::empty()
    } else {
        let rest = read_columns(names.drop_last(), values.drop_last());
        match column_value(values.last()) {
            Some(value) => rest.push((names.last(), value)),
            None => rest,
        }
    }
}

/// `jstat -gc` output as columns: its first two lines with text on them, a
/// header of names and a row of values, which must line up one for one.
pub open spec fn jstat_columns(output: Seq<char>) -> Option<Seq<(Seq<char>, i64)>> {
    let filled = filled_lines(lines_of(output));
    if filled.len() < 2 {
        None
    } else {
        let names = words_of(filled[0]);
        let values = words_of(filled[1]);
        if names.len() == 0 || names.len() != values.len() {
            None
        } else {
            Some(read_columns(names, values))
        }
    }
}

pub open spec fn columns_view(columns: Seq<(String, i64)>) -> Seq<(Seq<char>, i64)> {
    Seq::new(columns.len(), |j: int| (columns[j].0@, columns[j].1))
}

/// Turn `jstat -gc` output into a list of columns, by name.
///
/// Columns are read by name rather than position: which ones appear depends on
/// the collector in use, and G1, ZGC, and Shenandoah each print a different
/// set.
pub fn parse_jstat(output: &str) -> (r: Option<Vec<(String, i64)>>)
    ensures
        match r {
            Some(columns) => jstat_columns(output@) == Some(columns_view(columns@)),
            None => jstat_columns(output@) is None,
        },
{
    let text = chars_of(output);
    let all = lines(&text);
    let ghost ls = lines_of(text@);
    let mut filled: Vec<Vec<char>> = Vec::new();
    let mut j: usize = 0;
    while j < all.len() && filled.len() < 2
        invariant
            j <= all@.len(),
            all@.len() == ls.len(),
            ls == lines_of(text@),
            text@ == output@,
            forall|k: int| 0 <= k < all@.len() ==> (#[trigger] all@[k])@ == ls[k],
            filled@.len() <= 2,
            filled@.len() <= filled_lines(ls.take(j as int)).len(),
            forall|k: int| 0 <= k < filled@.len() ==> (#[trigger] filled@[k])@ == filled_lines(ls.take(j as int))[k],
            filled@.len() < 2 ==> filled@.len() == filled_lines(ls.take(j as int)).len(),
        decreases all@.len() - j,
    {
        let (a, b) = trim_bounds(&all[j], 0, all[j].len());
        proof {
            assert(ls.take(j + 1).drop_last() =~= ls.take(j as int));
            assert(ls.take(j + 1).last() == ls[j as int]);
            assert(all@[j as int]@.subrange(0, all@[j as int]@.len() as int) =~= all@[j as int]@);
            lemma_filled_prefix(ls.take(j + 1), j as int);
        }
        if b > a {
            filled.push(crate::source::parse::piece(&all[j], a, b));
        }
        j += 1;
    }
    proof {
        lemma_filled_prefix(ls, j as int);
        if j == all@.len() {
            assert(ls.take(j as int) =~= ls);
        }
    }
    if filled.len() < 2 {
        proof {
            assert(ls.take(j as int) =~= ls);
        }
        return None;
    }
    let names = word_spans(&filled[0]);
    let values = word_spans(&filled[1]);
    if names.len() == 0 || names.len() != values.len() {
        return None;
    }
    let ghost name_words = words_of(filled@[0]@);
    let ghost value_words = words_of(filled@[1]@);
    let mut out: Vec<(String, i64)> = Vec::new();
    let mut k: usize = 0;
    while k < names.len()
        invariant
            k <= names@.len(),
            names@.len() == values@.len(),
            name_words == words_of(filled@[0]@),
            value_words == words_of(filled@[1]@),
            spans_of(filled@[0]@, names@) == name_words,
            spans_of(filled@[1]@, values@) == value_words,
            filled@.len() == 2,
            forall|m: int| 0 <= m < names@.len() ==> (#[trigger] names@[m]).0 <= names@[m].1 <= filled@[0]@.len(),
            forall|m: int| 0 <= m < values@.len() ==> (#[trigger] values@[m]).0 <= values@[m].1 <= filled@[1]@.len(),
            columns_view(out@) == read_columns(name_words.take(k as int), value_words.take(k as int)),
        decreases names@.len() - k,
    {
        let (na, nb) = names[k];
        let (va, vb) = values[k];
        let value = column_value_of(&filled[1], va, vb);
        proof {
            assert(name_words.take(k + 1).drop_last() =~= name_words.take(k as int));
            assert(value_words.take(k + 1).drop_last() =~= value_words.take(k as int));
            assert(name_words.take(k + 1).last() == filled@[0]@.subrange(na as int, nb as int));
            assert(value_words.take(k + 1).last() == filled@[1]@.subrange(va as int, vb as int));
        }
        if let Some(v) = value {
            let name = string_between(&filled[0], na, nb);
            let ghost before = columns_view(out@);
            out.push((name, v));
            proof {
                assert(columns_view(out@) =~= before.push((name@, v)));
            }
        }
        k += 1;
    }
    proof {
        assert(name_words.take(names@.len() as int) =~= name_words);
        assert(value_words.take(names@.len() as int) =~= value_words);
    }
    Some(out)
}

/// The filled lines of a prefix are a prefix of the filled lines.
proof fn lemma_filled_prefix(lines: Seq<Seq<char>>, j: int)
    requires
        0 <= j <= lines.len(),
    ensures
        filled_lines(lines.take(j)).len() <= filled_lines(lines).len(),
        forall|k: int|
            0 <= k < filled_lines(lines.take(j)).len() ==> #[trigger] filled_lines(lines.take(j))[k]
                == filled_lines(lines)[k],
    decreases lines.len() - j,
{
    if j < lines.len() {
        lemma_filled_prefix(lines.drop_last(), j);
        assert(lines.drop_last().take(j) =~= lines.take(j));
        assert(lines.take(lines.len() as int) =~= lines);
    } else {
        assert(lines.take(j) =~= lines);
    }
}

/// The value of the last column named `name`, as a map filled column by
/// column keeps it.
pub open spec fn column_of(columns: Seq<(Seq<char>, i64)>, name: Seq<char>) -> Option<i64>
    decreases columns.len(),
{
    if columns.len() == 0 {
        None
    } else if columns.last().0 == name {
        Some(columns.last().1)
    } else {
        column_of(columns.drop_last(), name)
    }
}

fn column(columns: &Vec<(String, i64)>, name: &str) -> (r: Option<i64>)
    ensures
        r == column_of(columns_view(columns@), name@),
{
    let wanted = chars_of(name);
    let ghost all = columns_view(columns@);
    let mut j = columns.len();
    proof {
        assert(all.take(j as int) =~= all);
    }
    while j > 0
        invariant
            j <= columns@.len(),
            wanted@ == name@,
            all == columns_view(columns@),
            column_of(all, name@) == column_of(all.take(j as int), name@),
        decreases j,
    {
        let candidate = chars_of(columns[j - 1].0.as_str());
        proof {
            assert(all.take(j as int).drop_last() =~= all.take(j - 1));
            assert(all.take(j as int).last() == all[j - 1]);
        }
        if same_chars(&candidate, &wanted) {
            return Some(columns[j - 1].1);
        }
        j -= 1;
    }
    proof {
        assert(all.take(0) =~= Seq::<(Seq<char>, i64)>::empty());
    }
    None
}

/// A figure in kilobytes, read in millionths, as whole bytes; none below zero.
pub open spec fn kib_bytes(value: i64) -> u64 {
    if value <= 0 {
        0
    } else {
        ((value as int) * 1024 / 1_000_000) as u64
    }
}

/// A count, read in millionths, as a whole number; none below zero.
pub open spec fn whole_number(value: i64) -> u64 {
    if value <= 0 {
        0
    } else {
        ((value as int) / 1_000_000) as u64
    }
}

pub open spec fn saturating_add(a: u64, b: u64) -> u64 {
    if a + b > u64::MAX {
        u64::MAX
    } else {
        (a + b) as u64
    }
}

/// The bytes the named kilobyte columns add up to; `None` when none of them is
/// there.
pub open spec fn kib_total(columns: Seq<(Seq<char>, i64)>, names: Seq<Seq<char>>) -> Option<u64>
    decreases names.len(),
{
    if names.len() == 0 {
        None
    } else {
        let rest = kib_total(columns, names.drop_last());
        match column_of(columns, names.last()) {
            Some(value) => Some(
                match rest {
                    Some(total) => saturating_add(total, kib_bytes(value)),
                    None => kib_bytes(value),
                },
            ),
            None => rest,
        }
    }
}

pub open spec fn names_view(names: Seq<&str>) -> Seq<Seq<char>> {
    Seq::new(names.len(), |j: int| names[j]@)
}

fn kib_sum(columns: &Vec<(String, i64)>, names: &Vec<&str>) -> (r: Option<u64>)
    ensures
        r == kib_total(columns_view(columns@), names_view(names@)),
{
    let ghost all = names_view(names@);
    let mut total: u64 = 0;
    let mut seen = false;
    let mut j: usize = 0;
    while j < names.len()
        invariant
            j <= names@.len(),
            all == names_view(names@),
            kib_total(columns_view(columns@), all.take(j as int)) == if seen { Some(total) } else { None },
        decreases names@.len() - j,
    {
        proof {
            assert(all.take(j + 1).drop_last() =~= all.take(j as int));
            assert(all.take(j + 1).last() == names@[j as int]@);
        }
        if let Some(value) = column(columns, names[j]) {
            let bytes: u64 = if value <= 0 { 0 } else { ((value as u128) * 1024 / 1_000_000) as u64 };
            total = if seen {
                if total as u128 + bytes as u128 > u64::MAX as u128 { u64::MAX } else { total + bytes }
            } else {
                bytes
            };
            seen = true;
        }
        j += 1;
    }
    proof {
        assert(all.take(names@.len() as int) =~= all);
    }
    if seen { Some(total) } else { None }
}

fn whole_column(columns: &Vec<(String, i64)>, name: &str) -> (r: Option<u64>)
    ensures
        r == match column_of(columns_view(columns@), name@) {
            Some(value) => Some(whole_number(value)),
            None => None,
        },
{
    match column(columns, name) {
        Some(value) => Some(if value <= 0 { 0 } else { (value / 1_000_000) as u64 }),
        None => None,
    }
}

pub open spec fn used_names() -> Seq<Seq<char>> {
    seq!["S0U"@, "S1U"@, "EU"@, "OU"@]
}

pub open spec fn committed_names() -> Seq<Seq<char>> {
    seq!["S0C"@, "S1C"@, "EC"@, "OC"@]
}

pub open spec fn non_heap_names() -> Seq<Seq<char>> {
    seq!["MU"@, "CCSU"@]
}

/// Collection counts as compared between samples: young and concurrent
/// cycles together, and full collections.
pub open spec fn collection_counts(columns: Seq<(Seq<char>, i64)>) -> (u64, u64) {
    let young = match column_of(columns, "YGC"@) {
        Some(value) => whole_number(value),
        None => 0,
    };
    let concurrent = match column_of(columns, "CGC"@) {
        Some(value) => whole_number(value),
        None => 0,
    };
    let full = match column_of(columns, "FGC"@) {
        Some(value) => whole_number(value),
        None => 0,
    };
    (saturating_add(young, concurrent), full)
}

/// Share of the time since the previous reading spent collecting, in
/// millionths, at most all of it: `None` without a previous reading, when no
/// time has passed, or when the total went backwards.
pub open spec fn gc_share(previous: Option<(i64, u64)>, seconds: i64, now: u64) -> Option<i64> {
    match previous {
        Some((before, at)) => {
            let elapsed = if now > at {
                now - at
            } else {
                0
            };
            let spent = seconds - before;
            if elapsed > 0 && spent >= 0 {
                let share = spent * 1000 / elapsed;
                Some(
                    if share > 1_000_000 {
                        1_000_000
                    } else {
                        share as i64
                    },
                )
            } else {
                None
            }
        },
        None => None,
    }
}

/// A history after a sample taken at `at`, the oldest dropped when full.
pub open spec fn with_sample(history: (Seq<(u64, i64)>, nat), at: u64, value: i64) -> (Seq<(u64, i64)>, nat) {
    (
        if history.0.len() == history.1 {
            history.0.drop_first().push((at, value))
        } else {
            history.0.push((at, value))
        },
        history.1,
    )
}

/// Samples the heap of one JVM over time.
///
/// Sampling on a timer never lands on the instant a collection ends, so even a
/// reading taken just after one includes whatever has been allocated since.
/// What does hold is the floor: over a window containing at least one
/// collection, the lowest occupancy seen is a fair estimate of what survived
/// it. So the figure reported is the heap's low-water mark, and `jstat`'s
/// collection counters say whether a collection actually fell inside that
/// window. When none did, the floor may sit well above what a collection would
/// leave behind, and the reading is marked as inferred so the interface can say
/// so rather than overstate how full the heap is.
///
/// The watcher decides; running the JDK tools is its caller's part, which
/// hands over what they printed, or why they could not run.
pub struct HeapWatcher {
    pub jstat: Tool,
    pub jcmd: Tool,
    /// How far back, in milliseconds, the low-water mark is read.
    pub window: u64,
    /// Heap occupancy in bytes, sample by sample, timed in milliseconds.
    pub used: History,
    /// When a collection was last seen to happen, in milliseconds.
    pub last_collection: Option<u64>,
    /// Collection counts at the previous sample, for spotting a collection.
    pub previous_counts: Option<(u64, u64)>,
    /// Cumulative collector time in millionths of a second, and when it was
    /// read, for the GC load figure.
    pub previous_gc_time: Option<(i64, u64)>,
    /// `-Xmx`, read once; the ceiling does not move.
    pub max_heap: Option<u64>,
    pub max_heap_checked: bool,
    /// Why the last attempt failed, surfaced in the log rather than swallowed.
    pub last_error: Option<String>,
}

/// `label: reason`.
pub open spec fn tool_failure(tool: Seq<Seq<char>>, reason: Seq<char>) -> Seq<char> {
    joined(tool) + seq![':', ' '] + reason
}

fn failure(tool: &Tool, reason: &str) -> (r: String)
    ensures
        r@ == tool_failure(tool@, reason@),
{
    let mut out = chars_of(tool.label().as_str());
    out.push(':');
    out.push(' ');
    push_str(&mut out, reason);
    proof {
        assert(out@ =~= tool_failure(tool@, reason@));
    }
    string_from(&out)
}

impl HeapWatcher {
    pub fn new(config: &JvmConfig) -> (r: HeapWatcher)
        ensures
            r.jstat@ == config.jstat@,
            r.jcmd@ == config.jcmd@,
            r.window == (if config.heap_after_gc_window_secs < 10 {
                10_000
            } else if config.heap_after_gc_window_secs > u64::MAX / 1000 {
                u64::MAX as int
            } else {
                config.heap_after_gc_window_secs * 1000
            }),
            r.used@ == (Seq::<(u64, i64)>::empty(), 2048nat),
            r.last_collection.is_none(),
            r.previous_counts.is_none(),
            r.previous_gc_time.is_none(),
            r.max_heap.is_none(),
            !r.max_heap_checked,
            r.last_error.is_none(),
    {
        let secs = config.heap_after_gc_window_secs;
        let window = if secs < 10 {
            10_000
        } else if secs > u64::MAX / 1000 {
            u64::MAX
        } else {
            secs * 1000
        };
        HeapWatcher {
            jstat: config.jstat.clone(),
            jcmd: config.jcmd.clone(),
            window,
            used: History::new(2048),
            last_collection: None,
            previous_counts: None,
            previous_gc_time: None,
            max_heap: None,
            max_heap_checked: false,
            last_error: None,
        }
    }

    /// Whether `jcmd` should now be asked for the heap ceiling: the first time
    /// only.
    pub fn wants_max_heap(&mut self) -> (r: bool)
        ensures
            r == !old(self).max_heap_checked,
            final(self).max_heap_checked,
            final(self).max_heap == old(self).max_heap,
            final(self).last_error == old(self).last_error,
            final(self).used@ == old(self).used@,
            final(self).previous_counts == old(self).previous_counts,
            final(self).previous_gc_time == old(self).previous_gc_time,
            final(self).last_collection == old(self).last_collection,
            final(self).window == old(self).window,
    {
        if self.max_heap_checked {
            false
        } else {
            self.max_heap_checked = true;
            true
        }
    }

    /// Take what `jcmd <pid> VM.flags` printed, or why it could not run. Only
    /// the `-Xmx` ceiling is lost when jcmd is unavailable, and the committed
    /// size stands in for it, so a failure is noted but not fatal.
    pub fn take_max_heap(&mut self, result: Result<String, String>)
        ensures
            final(self).max_heap == match result {
                Ok(output) => crate::source::jvm::max_heap_of(output@),
                Err(_) => None,
            },
            match result {
                Ok(_) => crate::source::parse::opt_string_view(final(self).last_error)
                    == crate::source::parse::opt_string_view(old(self).last_error),
                Err(reason) => crate::source::parse::opt_string_view(final(self).last_error) == Some(
                    tool_failure(old(self).jcmd@, reason@),
                ),
            },
            final(self).max_heap_checked == old(self).max_heap_checked,
            final(self).used@ == old(self).used@,
            final(self).previous_counts == old(self).previous_counts,
            final(self).previous_gc_time == old(self).previous_gc_time,
            final(self).last_collection == old(self).last_collection,
            final(self).window == old(self).window,
    {
        match result {
            Ok(output) => {
                self.max_heap = parse_max_heap(output.as_str());
            },
            Err(reason) => {
                self.last_error = Some(failure(&self.jcmd, reason.as_str()));
                self.max_heap = None;
            },
        }
    }

    /// Share of wall-clock time spent collecting since the previous sample.
    fn gc_load(&mut self, gc_seconds: Option<i64>, now: u64) -> (r: Option<i64>)
        ensures
            r == match gc_seconds {
                Some(seconds) => gc_share(old(self).previous_gc_time, seconds, now),
                None => None,
            },
            final(self).previous_gc_time == match gc_seconds {
                Some(seconds) => Some((seconds, now)),
                None => old(self).previous_gc_time,
            },
            final(self).used@ == old(self).used@,
            final(self).previous_counts == old(self).previous_counts,
            final(self).last_collection == old(self).last_collection,
            final(self).max_heap == old(self).max_heap,
            final(self).max_heap_checked == old(self).max_heap_checked,
            final(self).window == old(self).window,
            crate::source::parse::opt_string_view(final(self).last_error)
                == crate::source::parse::opt_string_view(old(self).last_error),
    {
        let seconds = match gc_seconds {
            Some(seconds) => seconds,
            None => return None,
        };
        let load = match self.previous_gc_time {
            Some((before, at)) => {
                let elapsed: u64 = if now > at { now - at } else { 0 };
                let spent: i128 = seconds as i128 - before as i128;
                if elapsed > 0 && spent >= 0 {
                    let share: i128 = spent * 1000 / elapsed as i128;
                    Some(if share > 1_000_000 { 1_000_000 } else { share as i64 })
                } else {
                    None
                }
            },
            None => None,
        };
        self.previous_gc_time = Some((seconds, now));
        load
    }
}

/// What the log says when jstat printed something that does not read as its
/// table: ``could not read `<jstat> -gc <pid>` output``.
pub open spec fn unreadable(tool: Seq<Seq<char>>, pid: u32) -> Seq<char> {
    "could not read `"@ + joined(tool) + " -gc "@ + decimal(pid as nat) + "` output"@
}

/// A size in bytes as a history holds it, within `i64`.
pub open spec fn held(bytes: u64) -> i64 {
    if bytes > i64::MAX {
        i64::MAX
    } else {
        bytes as i64
    }
}

pub open spec fn whole_of(value: Option<i64>) -> Option<u64> {
    match value {
        Some(value) => Some(whole_number(value)),
        None => None,
    }
}

/// Whether `after` and the reading `r` are what a sample of `columns` taken at
/// `now` makes of the watcher `before`.
pub open spec fn sampled(
    before: HeapWatcher,
    after: HeapWatcher,
    now: u64,
    columns: Seq<(Seq<char>, i64)>,
    r: Option<HeapStats>,
) -> bool {
    let used = kib_total(columns, used_names());
    let committed = kib_total(columns, committed_names());
    let counts = collection_counts(columns);
    let seconds = column_of(columns, "GCT"@);
    &&& after.used@ == match used {
        Some(bytes) => with_sample(before.used@, now, held(bytes)),
        None => before.used@,
    }
    &&& after.previous_counts == Some(counts)
    &&& after.last_collection == match before.previous_counts {
        Some(previous) => if counts.0 > previous.0 || counts.1 > previous.1 {
            Some(now)
        } else {
            before.last_collection
        },
        None => before.last_collection,
    }
    &&& after.previous_gc_time == match seconds {
        Some(total) => Some((total, now)),
        None => before.previous_gc_time,
    }
    &&& after.max_heap == before.max_heap
    &&& after.max_heap_checked == before.max_heap_checked
    &&& after.window == before.window
    &&& r matches Some(stats)
    &&& stats.used == used
    &&& stats.committed == committed
    &&& stats.max == match before.max_heap {
        Some(max) => Some(max),
        None => committed,
    }
    &&& stats.after_gc == match crate::metrics::low_water(after.used@.0, before.window) {
        Some(low) => Some(
            if low < 0 {
                0u64
            } else {
                low as u64
            },
        ),
        None => used,
    }
    &&& stats.after_gc_measured == match after.last_collection {
        Some(at) => crate::metrics::sub_or_zero(now, at) <= before.window,
        None => false,
    }
    &&& stats.young_collections == whole_of(column_of(columns, "YGC"@))
    &&& stats.full_collections == whole_of(column_of(columns, "FGC"@))
    &&& stats.gc_seconds == seconds
    &&& stats.gc_load == match seconds {
        Some(total) => gc_share(before.previous_gc_time, total, now),
        None => None,
    }
    &&& stats.non_heap == kib_total(columns, non_heap_names())
}

/// Whether `after` keeps what a failed sample leaves alone.
pub open spec fn untouched(before: HeapWatcher, after: HeapWatcher) -> bool {
    &&& after.used@ == before.used@
    &&& after.previous_counts == before.previous_counts
    &&& after.previous_gc_time == before.previous_gc_time
    &&& after.last_collection == before.last_collection
    &&& after.max_heap == before.max_heap
    &&& after.max_heap_checked == before.max_heap_checked
    &&& after.window == before.window
}

impl HeapWatcher {
    /// Take what `jstat -gc <pid>` printed at `now` milliseconds, or why it
    /// could not run, and make a heap reading of it. `None` when the tool
    /// failed or printed something unreadable; the reason is left in
    /// `last_error`.
    pub fn take_sample(&mut self, now: u64, pid: u32, result: Result<String, String>) -> (r: Option<HeapStats>)
        ensures
            match result {
                Err(reason) => r.is_none() && untouched(*old(self), *final(self))
                    && crate::source::parse::opt_string_view(final(self).last_error) == Some(
                    tool_failure(old(self).jstat@, reason@),
                ),
                Ok(output) => match jstat_columns(output@) {
                    None => r.is_none() && untouched(*old(self), *final(self))
                        && crate::source::parse::opt_string_view(final(self).last_error) == Some(
                        unreadable(old(self).jstat@, pid),
                    ),
                    Some(columns) => final(self).last_error.is_none() && sampled(
                        *old(self),
                        *final(self),
                        now,
                        columns,
                        r,
                    ),
                },
            },
    {
        let output = match result {
            Ok(output) => output,
            Err(reason) => {
                self.last_error = Some(failure(&self.jstat, reason.as_str()));
                return None;
            },
        };
        let columns = match parse_jstat(output.as_str()) {
            Some(columns) => columns,
            None => {
                let mut message = chars_of("could not read `");
                push_str(&mut message, self.jstat.label().as_str());
                push_str(&mut message, " -gc ");
                push_decimal(&mut message, pid as u128);
                push_str(&mut message, "` output");
                self.last_error = Some(string_from(&message));
                return None;
            },
        };
        self.last_error = None;
        let ghost view = columns_view(columns@);

        // jstat reports capacities and occupancies in kilobytes.
        let used = kib_sum(&columns, &vec!["S0U", "S1U", "EU", "OU"]);
        let committed = kib_sum(&columns, &vec!["S0C", "S1C", "EC", "OC"]);
        let non_heap = kib_sum(&columns, &vec!["MU", "CCSU"]);
        proof {
            assert(names_view(seq!["S0U", "S1U", "EU", "OU"]) =~= used_names());
            assert(names_view(seq!["S0C", "S1C", "EC", "OC"]) =~= committed_names());
            assert(names_view(seq!["MU", "CCSU"]) =~= non_heap_names());
        }

        let young = whole_column(&columns, "YGC");
        let full = whole_column(&columns, "FGC");
        // Concurrent-cycle counts appear on newer collectors; fold them in so a
        // ZGC or Shenandoah cycle also counts as a collection.
        let concurrent = match whole_column(&columns, "CGC") {
            Some(count) => count,
            None => 0,
        };
        let gc_seconds = column(&columns, "GCT");

        if let Some(bytes) = used {
            let value: i64 = if bytes > i64::MAX as u64 { i64::MAX } else { bytes as i64 };
            self.used.push_at(now, value);
        }

        let young_count = match young {
            Some(count) => count,
            None => 0,
        };
        let first: u64 = if young_count as u128 + concurrent as u128 > u64::MAX as u128 {
            u64::MAX
        } else {
            young_count + concurrent
        };
        let counts = (first, match full {
            Some(count) => count,
            None => 0,
        });
        if let Some(previous) = self.previous_counts {
            if counts.0 > previous.0 || counts.1 > previous.1 {
                self.last_collection = Some(now);
            }
        }
        self.previous_counts = Some(counts);

        // The floor over the window, which is only a post-collection figure if
        // a collection happened inside it.
        let after_gc = match self.used.min_over(self.window) {
            Some(low) => Some(if low < 0 { 0 } else { low as u64 }),
            None => used,
        };
        let measured = match self.last_collection {
            Some(at) => (if now > at { now - at } else { 0 }) <= self.window,
            None => false,
        };

        let gc_load = self.gc_load(gc_seconds, now);
        let max = match self.max_heap {
            Some(max) => Some(max),
            None => committed,
        };

        Some(HeapStats {
            used,
            committed,
            max,
            after_gc,
            after_gc_measured: measured,
            young_collections: young,
            full_collections: full,
            gc_seconds,
            gc_load,
            non_heap,
        })
    }
}

/// Heap after collection is the low-water mark. Once a sample has read the
/// heap's occupancy, it is the newest sample held, and the figure reported
/// after collection is at most every occupancy sampled in the window ending
/// with it (the newest samples taken no earlier than the window's length
/// before it), this sample's own included, and is one of them.
pub proof fn lemma_after_gc_is_the_low_water_mark(
    before: HeapWatcher,
    after: HeapWatcher,
    now: u64,
    columns: Seq<(Seq<char>, i64)>,
    r: Option<HeapStats>,
)
    requires
        sampled(before, after, now, columns, r),
        kib_total(columns, used_names()) is Some,
    ensures
        ({
            let samples = after.used@.0;
            let cutoff = crate::metrics::sub_or_zero(now, before.window);
            &&& samples.len() > 0 && samples.last().0 == now
            &&& samples.last().1 == held(kib_total(columns, used_names()).unwrap())
            &&& r matches Some(stats) && stats.after_gc matches Some(low) && ({
                &&& low <= kib_total(columns, used_names()).unwrap()
                &&& forall|i: int|
                    0 <= i < samples.len() && crate::metrics::inside_from(samples, cutoff, i) ==> low as int <= (
                    if (#[trigger] samples[i]).1 < 0 { 0 } else { samples[i].1 as int })
                &&& exists|i: int|
                    0 <= i < samples.len() && crate::metrics::inside_from(samples, cutoff, i) && low as int == (
                    if samples[i].1 < 0 { 0 } else { samples[i].1 as int })
            })
        }),
{
    let samples = after.used@.0;
    let used = kib_total(columns, used_names()).unwrap();
    assert(samples.last() == (now, held(used)));
    crate::metrics::lemma_low_water_is_the_least_in_the_window(samples, before.window);
    let cutoff = crate::metrics::sub_or_zero(now, before.window);
    let low = crate::metrics::low_water(samples, before.window).unwrap();
    let n = samples.len() as int;
    assert(crate::metrics::inside_from(samples, cutoff, n - 1));
    assert(low <= samples[n - 1].1);
    let k = choose|i: int| 0 <= i < samples.len() && crate::metrics::inside_from(samples, cutoff, i) && low == samples[i].1;
    assert(samples[k].1 == low);
}

} // verus!
