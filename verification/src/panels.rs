//! What each panel of the dashboard says: its rows, their wording, and the
//! health each value is shown in. Drawing the rows is the interface's part.

use vstd::prelude::*;

use crate::format::{ago, ago_text, byte_parts, bytes, bytes_parts, bytes_text, count, duration, duration_text, fixed, fixed_text, grouped, percent, percent_text, span, span_text};
use crate::app::Tab;
use crate::metrics::{opt_text, DiskUsage, Link, HeapStats, MsptReading, Players, ProcessStats, Region, RegionReport, TpsReading, WorldUsage, UNIT};
use crate::report::{is_worst, lemma_worst_is_unique, worst_of};
use crate::source::disk::sum_within;
use crate::view::{mspt_health_of, tps_health_of, truncate, truncated};
use crate::text::{chars_of, decimal, push_all, push_decimal, push_signed, push_str, signed_decimal, string_from};
use crate::view::{load_health_of, Health, Thresholds, Unavailable};

verus! {

/// How a line of prose is set.
#[derive(Debug, Clone, Copy, PartialEq, Eq, Structural)]
pub enum Tone {
    Label,
    Value,
    Strong,
    Warn,
    /// Text meant to be copied, such as a command or a config snippet.
    Info,
}

/// One line of a panel.
#[derive(Debug, Clone, PartialEq, Eq)]
pub enum Row {
    /// `label  value`, the value pushed to the right edge and coloured by its
    /// health; an unknown health leaves it plain.
    Field { label: String, value: String, health: Health },
    /// A meter filled to a fraction, in millionths.
    Meter { fraction: i64, health: Health },
    /// An empty line.
    Blank,
    /// A line of prose.
    Note { text: String, tone: Tone },
}

/// What a row shows, as plain values.
pub enum Shown {
    Field(Seq<char>, Seq<char>, Health),
    Meter(int, Health),
    Blank,
    Note(Seq<char>, Tone),
}

pub open spec fn shown(row: Row) -> Shown {
    match row {
        Row::Field { label, value, health } => Shown::Field(label@, value@, health),
        Row::Meter { fraction, health } => Shown::Meter(fraction as int, health),
        Row::Blank => Shown::Blank,
        Row::Note { text, tone } => Shown::Note(text@, tone),
    }
}

/// What a run of rows shows.
pub open spec fn shown_all(rows: Seq<Row>) -> Seq<Shown> {
    Seq::new(rows.len(), |i: int| shown(rows[i]))
}

/// The em dash shown for a missing value.
pub open spec fn dash() -> Seq<char> {
    seq!['\u{2014}']
}

/// A value that may be missing, as text.
pub open spec fn or_dash(value: Option<Seq<char>>) -> Seq<char> {
    match value {
        Some(text) => text,
        None => dash(),
    }
}

/// A byte count that may be missing, as text.
pub open spec fn bytes_or_dash(value: Option<u64>) -> Seq<char> {
    match value {
        Some(n) => bytes_text(n as nat),
        None => dash(),
    }
}

/// A count that may be missing, grouped in thousands.
pub open spec fn count_or_dash(value: Option<u64>) -> Seq<char> {
    match value {
        Some(n) => grouped(decimal(n as nat)),
        None => dash(),
    }
}

/// A fraction that may be missing, as a percentage.
pub open spec fn percent_or_dash(value: Option<i64>) -> Seq<char> {
    match value {
        Some(f) => percent_text(f as int),
        None => dash(),
    }
}

/// A small number that may be missing, as text.
pub open spec fn number_or_dash(value: Option<u32>) -> Seq<char> {
    match value {
        Some(n) => decimal(n as nat),
        None => dash(),
    }
}

fn push_row(rows: &mut Vec<Row>, row: Row)
    ensures
        shown_all(final(rows)@) == shown_all(old(rows)@).push(shown(row)),
{
    let ghost before = rows@;
    rows.push(row);
    assert(shown_all(rows@) =~= shown_all(before).push(shown(row)));
}

fn field(label: &str, value: String, health: Health) -> (r: Row)
    ensures
        shown(r) == Shown::Field(label@, value@, health),
{
    Row::Field { label: label.to_owned(), value, health }
}

fn note(text: &str, tone: Tone) -> (r: Row)
    ensures
        shown(r) == Shown::Note(text@, tone),
{
    Row::Note { text: text.to_owned(), tone }
}

fn dash_text() -> (r: String)
    ensures
        r@ == dash(),
{
    let mut out: Vec<char> = Vec::new();
    out.push('\u{2014}');
    assert(out@ =~= dash());
    string_from(&out)
}

fn bytes_or_dash_text(value: Option<u64>) -> (r: String)
    ensures
        r@ == bytes_or_dash(value),
{
    match value {
        Some(n) => bytes(n),
        None => dash_text(),
    }
}

fn count_or_dash_text(value: Option<u64>) -> (r: String)
    ensures
        r@ == count_or_dash(value),
{
    match value {
        Some(n) => count(n),
        None => dash_text(),
    }
}

fn percent_or_dash_text(value: Option<i64>) -> (r: String)
    ensures
        r@ == percent_or_dash(value),
{
    match value {
        Some(f) => percent(f),
        None => dash_text(),
    }
}

fn number_or_dash_text(value: Option<u32>) -> (r: String)
    ensures
        r@ == number_or_dash(value),
{
    match value {
        Some(n) => {
            let mut out: Vec<char> = Vec::new();
            push_decimal(&mut out, n as u128);
            string_from(&out)
        },
        None => dash_text(),
    }
}

fn decimal_text(n: u64) -> (r: String)
    ensures
        r@ == decimal(n as nat),
{
    let mut out: Vec<char> = Vec::new();
    push_decimal(&mut out, n as u128);
    string_from(&out)
}

/// `part` as a share of `whole`, in millionths, held within `i64`; a whole of
/// nothing counts as one.
pub open spec fn share_of(part: u64, whole: u64) -> i64 {
    let w: int = if whole == 0 { 1 } else { whole as int };
    let s = (part as int) * UNIT / w;
    if s > i64::MAX { i64::MAX } else { s as i64 }
}

/// `part` as a share of `whole`, in millionths.
pub fn share(part: u64, whole: u64) -> (r: i64)
    ensures
        r == share_of(part, whole),
{
    let w: u128 = if whole == 0 { 1 } else { whole as u128 };
    let s = (part as u128) * (UNIT as u128) / w;
    if s > i64::MAX as u128 { i64::MAX } else { s as i64 }
}

/// Collector time above a tenth of wall-clock time is felt by players as
/// stutter; above three hundredths it is worth watching.
pub open spec fn gc_health_of(load: Option<i64>) -> Health {
    match load {
        Some(load) => if load > 100_000 {
            Health::Bad
        } else if load > 30_000 {
            Health::Warn
        } else {
            Health::Good
        },
        None => Health::Unknown,
    }
}

/// The health of a collector's recent load.
pub fn gc_health(load: Option<i64>) -> (r: Health)
    ensures
        r == gc_health_of(load),
{
    match load {
        Some(load) => if load > 100_000 {
            Health::Bad
        } else if load > 30_000 {
            Health::Warn
        } else {
            Health::Good
        },
        None => Health::Unknown,
    }
}

/// Repeated full collections on a modern collector mean the heap is genuinely
/// too small for the world being ticked.
pub open spec fn full_collections_health(full: Option<u64>) -> Health {
    match full {
        Some(count) => if count > 20 {
            Health::Warn
        } else {
            Health::Good
        },
        None => Health::Unknown,
    }
}

/// The load-average rows: one per window, each judged against the core count,
/// since a load above it means work is queueing, which shows up in game as
/// tick times that will not come down.
pub open spec fn load_rows(load: (i64, i64, i64), cores: usize) -> Seq<Shown> {
    let c: int = if cores == 0 { 1 } else { cores as int };
    seq![
        Shown::Field("Load average 1m"@, fixed_text(load.0 as int, 2), load_health_of(Some((load.0 as int / c) as i64))),
        Shown::Field("Load average 5m"@, fixed_text(load.1 as int, 2), load_health_of(Some((load.1 as int / c) as i64))),
        Shown::Field("Load average 15m"@, fixed_text(load.2 as int, 2), load_health_of(Some((load.2 as int / c) as i64))),
    ]
}

/// The Processor panel.
pub open spec fn processor_rows(stats: ProcessStats) -> Seq<Shown> {
    let fraction: int = if stats.cores == 0 { 0 } else { (stats.cpu_percent as int) / (100 * stats.cores as int) };
    let health = load_health_of(Some(fraction as i64));
    seq![
        Shown::Field("Server process"@, fixed_text(stats.cpu_percent as int, 1) + "% of one core"@, health),
        Shown::Field("Share of machine"@, percent_text(fraction), health),
        Shown::Meter(fraction, health),
        Shown::Blank,
        Shown::Field("Cores"@, decimal(stats.cores as nat), Health::Unknown),
        Shown::Field("Threads"@, number_or_dash(stats.threads), Health::Unknown),
        Shown::Field("Uptime"@, duration_text((stats.uptime as nat) * 1000), Health::Unknown),
        Shown::Field("PID"@, decimal(stats.pid as nat), Health::Unknown),
    ] + match stats.load_average {
        Some(load) => seq![Shown::Blank] + load_rows(load, stats.cores),
        None => Seq::empty(),
    }
}

fn per_core(value: i64, cores: usize) -> (r: i64)
    ensures
        r as int == value as int / (if cores == 0 { 1 } else { cores as int }),
{
    let c: i128 = if cores == 0 { 1 } else { cores as i128 };
    crate::metrics::floor_div(value as i128, c) as i64
}

/// What the Processor panel says about `stats`.
pub fn processor_panel(stats: &ProcessStats, limits: &Thresholds) -> (r: Vec<Row>)
    ensures
        shown_all(r@) == processor_rows(*stats),
{
    let fraction = stats.cpu_fraction();
    let health = limits.load_health(Some(fraction));
    let mut rows: Vec<Row> = Vec::new();
    let value = fixed(stats.cpu_percent, 1);
    let mut text = chars_of(value.as_str());
    push_str(&mut text, "% of one core");
    push_row(&mut rows, field("Server process", string_from(&text), health));
    push_row(&mut rows, field("Share of machine", percent(fraction), health));
    push_row(&mut rows, Row::Meter { fraction, health });
    push_row(&mut rows, Row::Blank);
    push_row(&mut rows, field("Cores", decimal_text(stats.cores as u64), Health::Unknown));
    push_row(&mut rows, field("Threads", number_or_dash_text(stats.threads), Health::Unknown));
    push_row(&mut rows, field("Uptime", duration((stats.uptime as u128) * 1000), Health::Unknown));
    push_row(&mut rows, field("PID", decimal_text(stats.pid as u64), Health::Unknown));
    let ghost head = shown_all(rows@);
    if let Some((one, five, fifteen)) = stats.load_average {
        push_row(&mut rows, Row::Blank);
        let h1 = limits.load_health(Some(per_core(one, stats.cores)));
        push_row(&mut rows, field("Load average 1m", fixed(one, 2), h1));
        let h5 = limits.load_health(Some(per_core(five, stats.cores)));
        push_row(&mut rows, field("Load average 5m", fixed(five, 2), h5));
        let h15 = limits.load_health(Some(per_core(fifteen, stats.cores)));
        push_row(&mut rows, field("Load average 15m", fixed(fifteen, 2), h15));
    }
    assert(shown_all(rows@) =~= processor_rows(*stats));
    rows
}

/// The Java heap panel. The after-collection figure is labelled as an
/// estimate, with a word on why, when no collection has been seen recently.
pub open spec fn heap_rows(heap: HeapStats) -> Seq<Shown> {
    let pressure = heap_pressure_of(heap);
    let health = load_health_of(pressure);
    seq![
        Shown::Field("In use now"@, bytes_or_dash(heap.used), Health::Unknown),
        Shown::Field(
            if heap.after_gc_measured { "After collection"@ } else { "After collection (est.)"@ },
            bytes_or_dash(heap.after_gc),
            health,
        ),
        Shown::Field("Committed"@, bytes_or_dash(heap.committed), Health::Unknown),
        Shown::Field("Ceiling (-Xmx)"@, bytes_or_dash(heap.max), Health::Unknown),
        Shown::Blank,
        Shown::Field("Occupancy after GC"@, percent_or_dash(pressure), health),
        Shown::Meter(match pressure { Some(p) => p as int, None => 0 }, health),
        Shown::Blank,
        Shown::Field("Non-heap (metaspace)"@, bytes_or_dash(heap.non_heap), Health::Unknown),
    ] + if heap.after_gc_measured {
        Seq::empty()
    } else {
        seq![
            Shown::Blank,
            Shown::Note("No collection has been seen recently, so this floor may sit above"@, Tone::Label),
            Shown::Note("what a collection would actually leave behind."@, Tone::Label),
        ]
    }
}

/// What [`HeapStats::pressure`] gives.
pub open spec fn heap_pressure_of(heap: HeapStats) -> Option<i64> {
    if heap.after_gc.is_some() && heap.max.is_some() && heap.max.unwrap() > 0 {
        let share = (heap.after_gc.unwrap() as int) * UNIT / (heap.max.unwrap() as int);
        Some(if share > i64::MAX { i64::MAX } else { share as i64 })
    } else {
        None
    }
}

/// What the Java heap panel says about `heap`.
pub fn heap_panel(heap: &HeapStats, limits: &Thresholds) -> (r: Vec<Row>)
    ensures
        shown_all(r@) == heap_rows(*heap),
{
    let pressure = heap.pressure();
    assert(pressure == heap_pressure_of(*heap));
    let health = limits.load_health(pressure);
    let mut rows: Vec<Row> = Vec::new();
    push_row(&mut rows, field("In use now", bytes_or_dash_text(heap.used), Health::Unknown));
    let label = if heap.after_gc_measured { "After collection" } else { "After collection (est.)" };
    push_row(&mut rows, field(label, bytes_or_dash_text(heap.after_gc), health));
    push_row(&mut rows, field("Committed", bytes_or_dash_text(heap.committed), Health::Unknown));
    push_row(&mut rows, field("Ceiling (-Xmx)", bytes_or_dash_text(heap.max), Health::Unknown));
    push_row(&mut rows, Row::Blank);
    push_row(&mut rows, field("Occupancy after GC", percent_or_dash_text(pressure), health));
    let filled = match pressure {
        Some(p) => p,
        None => 0,
    };
    push_row(&mut rows, Row::Meter { fraction: filled, health });
    push_row(&mut rows, Row::Blank);
    push_row(&mut rows, field("Non-heap (metaspace)", bytes_or_dash_text(heap.non_heap), Health::Unknown));
    if !heap.after_gc_measured {
        push_row(&mut rows, Row::Blank);
        push_row(
            &mut rows,
            note("No collection has been seen recently, so this floor may sit above", Tone::Label),
        );
        push_row(&mut rows, note("what a collection would actually leave behind.", Tone::Label));
    }
    assert(shown_all(rows@) =~= heap_rows(*heap));
    rows
}

/// Total time collecting, from millionths of a second to whole milliseconds.
pub open spec fn collecting_text(seconds: i64) -> Seq<char> {
    duration_text((if seconds < 0 { 0 } else { seconds as int / 1000 }) as nat)
}

/// The Garbage collector panel, when there are collector statistics at all.
/// Time in the collector is time not spent ticking the world, so its recent
/// load is the number that connects a memory problem to a gameplay one.
pub open spec fn collector_rows(heap: HeapStats, process: Option<ProcessStats>) -> Option<Seq<Shown>> {
    if heap.young_collections.is_none() && heap.gc_seconds.is_none() {
        None
    } else {
        let health = gc_health_of(heap.gc_load);
        Some(seq![
            Shown::Field("Recent GC load"@, percent_or_dash(heap.gc_load), health),
            Shown::Meter(match heap.gc_load { Some(l) => l as int, None => 0 }, health),
            Shown::Blank,
            Shown::Field("Young collections"@, count_or_dash(heap.young_collections), Health::Unknown),
            Shown::Field("Full collections"@, count_or_dash(heap.full_collections), full_collections_health(heap.full_collections)),
            Shown::Field(
                "Total time collecting"@,
                match heap.gc_seconds { Some(s) => collecting_text(s), None => dash() },
                Health::Unknown,
            ),
        ] + match (process, heap.gc_seconds) {
            (Some(stats), Some(seconds)) => seq![Shown::Field(
                "Share of lifetime"@,
                percent_text(seconds as int / (if stats.uptime == 0 { 1 } else { stats.uptime as int })),
                Health::Unknown,
            )],
            _ => Seq::empty(),
        })
    }
}

/// What the Garbage collector panel says; `None` when there is nothing to say.
pub fn collector_panel(heap: &HeapStats, process: &Option<ProcessStats>) -> (r: Option<Vec<Row>>)
    ensures
        match (r, collector_rows(*heap, *process)) {
            (Some(rows), Some(want)) => shown_all(rows@) == want,
            (None, None) => true,
            _ => false,
        },
{
    if heap.young_collections.is_none() && heap.gc_seconds.is_none() {
        return None;
    }
    let health = gc_health(heap.gc_load);
    let mut rows: Vec<Row> = Vec::new();
    push_row(&mut rows, field("Recent GC load", percent_or_dash_text(heap.gc_load), health));
    let filled = match heap.gc_load {
        Some(l) => l,
        None => 0,
    };
    push_row(&mut rows, Row::Meter { fraction: filled, health });
    push_row(&mut rows, Row::Blank);
    push_row(&mut rows, field("Young collections", count_or_dash_text(heap.young_collections), Health::Unknown));
    let full_health = match heap.full_collections {
        Some(n) => if n > 20 { Health::Warn } else { Health::Good },
        None => Health::Unknown,
    };
    push_row(&mut rows, field("Full collections", count_or_dash_text(heap.full_collections), full_health));
    let total = match heap.gc_seconds {
        Some(s) => {
            let ms: u128 = if s < 0 { 0 } else { (s / 1000) as u128 };
            duration(ms)
        },
        None => dash_text(),
    };
    push_row(&mut rows, field("Total time collecting", total, Health::Unknown));
    match (process, heap.gc_seconds) {
        (Some(stats), Some(seconds)) => {
            let uptime: i128 = if stats.uptime == 0 { 1 } else { stats.uptime as i128 };
            let lifetime = crate::metrics::floor_div(seconds as i128, uptime);
            assert(i64::MIN <= lifetime <= i64::MAX) by (nonlinear_arith)
                requires
                    lifetime == seconds as int / uptime as int,
                    uptime >= 1,
                    i64::MIN <= seconds <= i64::MAX,
            ;
            push_row(&mut rows, field("Share of lifetime", percent(lifetime as i64), Health::Unknown));
        },
        _ => {},
    }
    assert(shown_all(rows@) =~= collector_rows(*heap, *process).unwrap());
    Some(rows)
}

/// The Memory panel: the process's own footprint, what lies beyond the heap
/// (the JVM's own structures, mapped chunk files, and direct buffers all live
/// outside it), and the machine's memory as a whole.
pub open spec fn memory_rows(stats: ProcessStats, heap: HeapStats) -> Seq<Shown> {
    let (used, total) = stats.system_memory;
    let fraction = share_of(used, total);
    let health = load_health_of(Some(fraction));
    seq![
        Shown::Field("Resident (RSS)"@, bytes_text(stats.rss as nat), Health::Unknown),
        Shown::Field("Virtual"@, bytes_text(stats.virtual_size as nat), Health::Unknown),
        Shown::Field(
            "Beyond the heap"@,
            match heap.used {
                Some(h) => bytes_text((if stats.rss >= h { stats.rss - h } else { 0 }) as nat),
                None => dash(),
            },
            Health::Unknown,
        ),
        Shown::Blank,
        Shown::Field("Machine memory"@, bytes_text(used as nat) + " / "@ + bytes_text(total as nat), health),
        Shown::Meter(fraction as int, health),
        Shown::Blank,
        Shown::Field("Server share"@, percent_text(share_of(stats.rss, total) as int), Health::Unknown),
    ]
}

/// What the Memory panel says.
pub fn memory_panel(stats: &ProcessStats, heap: &HeapStats, limits: &Thresholds) -> (r: Vec<Row>)
    ensures
        shown_all(r@) == memory_rows(*stats, *heap),
{
    let (used, total) = stats.system_memory;
    let fraction = share(used, total);
    let health = limits.load_health(Some(fraction));
    let mut rows: Vec<Row> = Vec::new();
    push_row(&mut rows, field("Resident (RSS)", bytes(stats.rss), Health::Unknown));
    push_row(&mut rows, field("Virtual", bytes(stats.virtual_size), Health::Unknown));
    let beyond = match heap.used {
        Some(h) => bytes(if stats.rss >= h { stats.rss - h } else { 0 }),
        None => dash_text(),
    };
    push_row(&mut rows, field("Beyond the heap", beyond, Health::Unknown));
    push_row(&mut rows, Row::Blank);
    let mut machine = chars_of(bytes(used).as_str());
    push_str(&mut machine, " / ");
    push_str(&mut machine, bytes(total).as_str());
    push_row(&mut rows, field("Machine memory", string_from(&machine), health));
    push_row(&mut rows, Row::Meter { fraction, health });
    push_row(&mut rows, Row::Blank);
    push_row(&mut rows, field("Server share", percent(share(stats.rss, total)), Health::Unknown));
    assert(shown_all(rows@) =~= memory_rows(*stats, *heap));
    rows
}

/// A run of sizes added up, held within `u64`.
pub open spec fn sum_held(values: Seq<u64>) -> u64
    decreases values.len(),
{
    if values.len() == 0 {
        0
    } else {
        sum_within(sum_held(values.drop_last()), values.last())
    }
}

/// The sizes of a run of worlds.
pub open spec fn world_bytes(worlds: Seq<WorldUsage>) -> Seq<u64> {
    Seq::new(worlds.len(), |i: int| worlds[i].bytes)
}

/// The file counts of a run of worlds.
pub open spec fn world_files(worlds: Seq<WorldUsage>) -> Seq<u64> {
    Seq::new(worlds.len(), |i: int| worlds[i].files)
}

/// The bytes of every world, held within `u64`.
pub fn disk_total(worlds: &Vec<WorldUsage>) -> (r: u64)
    ensures
        r == sum_held(world_bytes(worlds@)),
{
    let mut sum: u64 = 0;
    let mut i: usize = 0;
    while i < worlds.len()
        invariant
            i <= worlds@.len(),
            sum == sum_held(world_bytes(worlds@).take(i as int)),
        decreases worlds@.len() - i,
    {
        assert(world_bytes(worlds@).take(i + 1).drop_last() =~= world_bytes(worlds@).take(i as int));
        sum = sum.saturating_add(worlds[i].bytes);
        i += 1;
    }
    assert(world_bytes(worlds@).take(i as int) =~= world_bytes(worlds@));
    sum
}

/// The files of every world, held within `u64`.
pub fn files_total(worlds: &Vec<WorldUsage>) -> (r: u64)
    ensures
        r == sum_held(world_files(worlds@)),
{
    let mut sum: u64 = 0;
    let mut i: usize = 0;
    while i < worlds.len()
        invariant
            i <= worlds@.len(),
            sum == sum_held(world_files(worlds@).take(i as int)),
        decreases worlds@.len() - i,
    {
        assert(world_files(worlds@).take(i + 1).drop_last() =~= world_files(worlds@).take(i as int));
        sum = sum.saturating_add(worlds[i].files);
        i += 1;
    }
    assert(world_files(worlds@).take(i as int) =~= world_files(worlds@));
    sum
}

/// The players, with the limit when the server gives one.
pub open spec fn players_value(players: Players) -> Seq<char> {
    match players.max {
        Some(max) => decimal(players.online as nat) + " / "@ + decimal(max as nat),
        None => decimal(players.online as nat),
    }
}

/// The region part of the summary, shown when the server has regions. The
/// busiest region's label carries a world name and a pair of coordinates,
/// which will not share a line with a value, so it has a line of its own.
pub open spec fn region_summary(regions: RegionReport, width: u16) -> Seq<Shown> {
    if regions.regions@.len() > 0 || regions.total.is_some() {
        seq![Shown::Field("Regions"@, number_or_dash(regions.total), Health::Unknown)] + match regions.threads {
            Some(threads) => seq![Shown::Field("Region threads"@, decimal(threads as nat), Health::Unknown)],
            None => Seq::empty(),
        } + if regions.regions@.len() > 0 {
            let worst = regions.regions@[worst_of(regions.regions@)];
            let pressure = worst.spec_pressure();
            seq![
                Shown::Note("Busiest region"@, Tone::Label),
                Shown::Note(
                    "  "@ + truncated(worst.spec_label(), (if width >= 2 { width - 2 } else { 0 }) as nat),
                    Tone::Value,
                ),
                Shown::Field("  tick budget used"@, percent_text(pressure), load_health_of(Some(pressure as i64))),
            ]
        } else {
            Seq::empty()
        }
    } else {
        Seq::empty()
    }
}

/// The process part of the summary.
pub open spec fn process_summary(process: Option<ProcessStats>) -> Seq<Shown> {
    match process {
        Some(stats) => seq![
            Shown::Field("Process"@, "pid "@ + decimal(stats.pid as nat), Health::Unknown),
            Shown::Field("Resident"@, bytes_text(stats.rss as nat), Health::Unknown),
            Shown::Field("Threads"@, number_or_dash(stats.threads), Health::Unknown),
        ] + match stats.load_average {
            Some((one, five, fifteen)) => seq![Shown::Field(
                "Load average"@,
                fixed_text(one as int, 2) + " "@ + fixed_text(five as int, 2) + " "@ + fixed_text(fifteen as int, 2),
                Health::Unknown,
            )],
            None => Seq::empty(),
        },
        None => Seq::empty(),
    }
}

/// The collector part of the summary.
pub open spec fn gc_summary(heap: HeapStats) -> Seq<Shown> {
    if heap.gc_load.is_some() || heap.young_collections.is_some() {
        seq![
            Shown::Field("GC load"@, percent_or_dash(heap.gc_load), gc_health_of(heap.gc_load)),
            Shown::Field(
                "GC young / full"@,
                count_or_dash(heap.young_collections) + " / "@ + count_or_dash(heap.full_collections),
                Health::Unknown,
            ),
        ]
    } else {
        Seq::empty()
    }
}

/// The disk part of the summary.
pub open spec fn disk_summary(disk: DiskUsage) -> Seq<Shown> {
    if disk.worlds@.len() > 0 {
        seq![
            Shown::Blank,
            Shown::Field("Worlds on disk"@, bytes_text(sum_held(world_bytes(disk.worlds@)) as nat), Health::Unknown),
        ] + match disk.free {
            Some((free, total)) => {
                let used = share_of((if total >= free { total - free } else { 0 }) as u64, total);
                seq![
                    Shown::Field("Disk free"@, bytes_text(free as nat), load_health_of(Some(used))),
                    Shown::Meter(used as int, load_health_of(Some(used))),
                ]
            },
            None => Seq::empty(),
        }
    } else {
        Seq::empty()
    }
}

/// The Overview's summary column, `width` columns wide.
pub open spec fn summary_rows(
    players: Players,
    regions: RegionReport,
    process: Option<ProcessStats>,
    heap: HeapStats,
    disk: DiskUsage,
    width: u16,
) -> Seq<Shown> {
    seq![Shown::Field("Players"@, players_value(players), Health::Unknown)] + region_summary(regions, width)
        + seq![Shown::Blank] + process_summary(process) + gc_summary(heap) + disk_summary(disk)
}

fn push_region_summary(rows: &mut Vec<Row>, regions: &RegionReport, limits: &Thresholds, width: u16)
    ensures
        shown_all(final(rows)@) == shown_all(old(rows)@) + region_summary(*regions, width),
{
    let ghost start = shown_all(rows@);
    if regions.regions.len() > 0 || regions.total.is_some() {
        push_row(rows, field("Regions", number_or_dash_text(regions.total), Health::Unknown));
        if let Some(threads) = regions.threads {
            push_row(rows, field("Region threads", decimal_text(threads as u64), Health::Unknown));
        }
        let ghost middle = shown_all(rows@);
        if let Some(worst) = regions.worst() {
            proof {
                let k = choose|k: int|
                    0 <= k < regions.regions@.len() && *worst == regions.regions@[k] && (forall|j: int|
                        0 <= j < regions.regions@.len() ==> (#[trigger] regions.regions@[j]).spec_pressure()
                            <= regions.regions@[k].spec_pressure()) && (forall|j: int|
                        k < j < regions.regions@.len() ==> (#[trigger] regions.regions@[j]).spec_pressure()
                            < regions.regions@[k].spec_pressure());
                assert(is_worst(regions.regions@, k));
                lemma_worst_is_unique(regions.regions@, k, worst_of(regions.regions@));
            }
            let pressure = worst.pressure();
            let health = limits.load_health(Some(pressure));
            push_row(rows, note("Busiest region", Tone::Label));
            let room: usize = if width >= 2 { (width - 2) as usize } else { 0 };
            let mut label = chars_of("  ");
            push_str(&mut label, truncate(worst.label().as_str(), room).as_str());
            push_row(rows, Row::Note { text: string_from(&label), tone: Tone::Value });
            push_row(rows, field("  tick budget used", percent(pressure), health));
        }
    }
    assert(shown_all(rows@) =~= start + region_summary(*regions, width));
}

fn push_process_summary(rows: &mut Vec<Row>, process: &Option<ProcessStats>)
    ensures
        shown_all(final(rows)@) == shown_all(old(rows)@) + process_summary(*process),
{
    let ghost start = shown_all(rows@);
    if let Some(stats) = process {
        let mut pid = chars_of("pid ");
        push_decimal(&mut pid, stats.pid as u128);
        push_row(rows, field("Process", string_from(&pid), Health::Unknown));
        push_row(rows, field("Resident", bytes(stats.rss), Health::Unknown));
        push_row(rows, field("Threads", number_or_dash_text(stats.threads), Health::Unknown));
        if let Some((one, five, fifteen)) = stats.load_average {
            let mut load = chars_of(fixed(one, 2).as_str());
            push_str(&mut load, " ");
            push_str(&mut load, fixed(five, 2).as_str());
            push_str(&mut load, " ");
            push_str(&mut load, fixed(fifteen, 2).as_str());
            push_row(rows, field("Load average", string_from(&load), Health::Unknown));
        }
    }
    assert(shown_all(rows@) =~= start + process_summary(*process));
}

fn push_gc_summary(rows: &mut Vec<Row>, heap: &HeapStats)
    ensures
        shown_all(final(rows)@) == shown_all(old(rows)@) + gc_summary(*heap),
{
    let ghost start = shown_all(rows@);
    if heap.gc_load.is_some() || heap.young_collections.is_some() {
        push_row(rows, field("GC load", percent_or_dash_text(heap.gc_load), gc_health(heap.gc_load)));
        let mut counts = chars_of(count_or_dash_text(heap.young_collections).as_str());
        push_str(&mut counts, " / ");
        push_str(&mut counts, count_or_dash_text(heap.full_collections).as_str());
        push_row(rows, field("GC young / full", string_from(&counts), Health::Unknown));
    }
    assert(shown_all(rows@) =~= start + gc_summary(*heap));
}

fn push_disk_summary(rows: &mut Vec<Row>, disk: &DiskUsage, limits: &Thresholds)
    ensures
        shown_all(final(rows)@) == shown_all(old(rows)@) + disk_summary(*disk),
{
    let ghost start = shown_all(rows@);
    if disk.worlds.len() > 0 {
        push_row(rows, Row::Blank);
        push_row(rows, field("Worlds on disk", bytes(disk_total(&disk.worlds)), Health::Unknown));
        if let Some((free, total)) = disk.free {
            let used = share(if total >= free { total - free } else { 0 }, total);
            let health = limits.load_health(Some(used));
            push_row(rows, field("Disk free", bytes(free), health));
            push_row(rows, Row::Meter { fraction: used, health });
        }
    }
    assert(shown_all(rows@) =~= start + disk_summary(*disk));
}

/// What the Overview's summary column says.
pub fn summary_panel(
    players: &Players,
    regions: &RegionReport,
    process: &Option<ProcessStats>,
    heap: &HeapStats,
    disk: &DiskUsage,
    limits: &Thresholds,
    width: u16,
) -> (r: Vec<Row>)
    ensures
        shown_all(r@) == summary_rows(*players, *regions, *process, *heap, *disk, width),
{
    let mut rows: Vec<Row> = Vec::new();
    let mut value: Vec<char> = Vec::new();
    push_decimal(&mut value, players.online as u128);
    if let Some(max) = players.max {
        push_str(&mut value, " / ");
        push_decimal(&mut value, max as u128);
    }
    assert(value@ =~= players_value(*players));
    push_row(&mut rows, field("Players", string_from(&value), Health::Unknown));
    push_region_summary(&mut rows, regions, limits, width);
    push_row(&mut rows, Row::Blank);
    push_process_summary(&mut rows, process);
    push_gc_summary(&mut rows, heap);
    push_disk_summary(&mut rows, disk, limits);
    assert(shown_all(rows@) =~= summary_rows(*players, *regions, *process, *heap, *disk, width));
    rows
}

/// A chunk's coordinates, scaled by `scale`: `-12, 44`.
pub open spec fn pair_text(chunk: Option<(i64, i64)>, scale: int) -> Seq<char> {
    match chunk {
        Some((x, z)) => signed_decimal(x * scale) + ", "@ + signed_decimal(z * scale),
        None => dash(),
    }
}

fn pair(chunk: Option<(i64, i64)>, scale: i128) -> (r: String)
    requires
        scale == 1 || scale == 16,
    ensures
        r@ == pair_text(chunk, scale as int),
{
    match chunk {
        Some((x, z)) => {
            let mut out: Vec<char> = Vec::new();
            push_signed(&mut out, (x as i128) * scale);
            push_str(&mut out, ", ");
            push_signed(&mut out, (z as i128) * scale);
            string_from(&out)
        },
        None => dash_text(),
    }
}

/// A reading with two decimals and its unit, or a dash.
pub open spec fn reading_text(value: Option<i64>, unit: Seq<char>) -> Seq<char> {
    match value {
        Some(v) => fixed_text(v as int, 2) + unit,
        None => dash(),
    }
}

fn reading(value: Option<i64>, unit: &str) -> (r: String)
    ensures
        r@ == reading_text(value, unit@),
{
    match value {
        Some(v) => {
            let mut out = chars_of(fixed(v, 2).as_str());
            push_str(&mut out, unit);
            string_from(&out)
        },
        None => dash_text(),
    }
}

/// The left half of the selected region's panel: where it is. A chunk is
/// sixteen blocks square, and operators think in blocks when they go to look
/// at the problem.
pub open spec fn region_place_rows(region: Region) -> Seq<Shown> {
    seq![
        Shown::Note(region.spec_label(), Tone::Strong),
        Shown::Blank,
        Shown::Field("World"@, or_dash(opt_text(region.world)), Health::Unknown),
        Shown::Field("Centre chunk"@, pair_text(region.chunk, 1), Health::Unknown),
        Shown::Field("Block position"@, pair_text(region.chunk, 16), Health::Unknown),
    ]
}

/// The right half of the selected region's panel: how it is doing.
pub open spec fn region_state_rows(region: Region, limits: Thresholds) -> Seq<Shown> {
    let pressure = region.spec_pressure();
    let health = load_health_of(Some(pressure as i64));
    seq![
        Shown::Field("Tick rate"@, reading_text(region.tps, " tps"@), tps_health_of(limits, region.tps)),
        Shown::Field("Tick time"@, reading_text(region.mspt, " ms"@), mspt_health_of(limits, region.mspt)),
        Shown::Field("Tick budget used"@, percent_text(pressure), health),
        Shown::Meter(pressure, health),
        Shown::Field(
            "Players \u{b7} entities \u{b7} chunks"@,
            number_or_dash(region.players) + " \u{b7} "@ + number_or_dash(region.entities) + " \u{b7} "@
                + number_or_dash(region.chunks),
            Health::Unknown,
        ),
    ]
}

/// What the selected region's panel says, left half and right half.
pub fn region_panel(region: &Region, limits: &Thresholds) -> (r: (Vec<Row>, Vec<Row>))
    ensures
        shown_all(r.0@) == region_place_rows(*region),
        shown_all(r.1@) == region_state_rows(*region, *limits),
{
    let mut left: Vec<Row> = Vec::new();
    push_row(&mut left, Row::Note { text: region.label(), tone: Tone::Strong });
    push_row(&mut left, Row::Blank);
    let world = match &region.world {
        Some(name) => name.clone(),
        None => dash_text(),
    };
    push_row(&mut left, field("World", world, Health::Unknown));
    push_row(&mut left, field("Centre chunk", pair(region.chunk, 1), Health::Unknown));
    push_row(&mut left, field("Block position", pair(region.chunk, 16), Health::Unknown));
    assert(shown_all(left@) =~= region_place_rows(*region));

    let pressure = region.pressure();
    let health = limits.load_health(Some(pressure));
    let mut right: Vec<Row> = Vec::new();
    push_row(&mut right, field("Tick rate", reading(region.tps, " tps"), limits.tps_health(region.tps)));
    push_row(&mut right, field("Tick time", reading(region.mspt, " ms"), limits.mspt_health(region.mspt)));
    push_row(&mut right, field("Tick budget used", percent(pressure), health));
    push_row(&mut right, Row::Meter { fraction: pressure, health });
    let mut counts = chars_of(number_or_dash_text(region.players).as_str());
    push_str(&mut counts, " \u{b7} ");
    push_str(&mut counts, number_or_dash_text(region.entities).as_str());
    push_str(&mut counts, " \u{b7} ");
    push_str(&mut counts, number_or_dash_text(region.chunks).as_str());
    push_row(&mut right, field("Players \u{b7} entities \u{b7} chunks", string_from(&counts), Health::Unknown));
    assert(shown_all(right@) =~= region_state_rows(*region, *limits));
    (left, right)
}

/// One line of the region table.
pub struct RegionCells {
    pub label: String,
    pub tps: String,
    pub tps_health: Health,
    pub mspt: String,
    pub mspt_health: Health,
    pub players: String,
    pub entities: String,
    pub chunks: String,
    pub load: String,
    pub pressure: i64,
    pub load_health: Health,
}

/// A count of things that may be missing, grouped in thousands.
pub open spec fn grouped_or_dash(value: Option<u32>) -> Seq<char> {
    match value {
        Some(n) => grouped(decimal(n as nat)),
        None => dash(),
    }
}

/// What the region table shows for `region`: its label cut to thirty
/// columns, the tick rate to two places and the tick time to one, the counts,
/// and how much of the tick budget it uses.
pub fn region_cells(region: &Region, limits: &Thresholds) -> (r: RegionCells)
    ensures
        r.label@ == truncated(region.spec_label(), 30),
        r.tps@ == match region.tps {
            Some(t) => fixed_text(t as int, 2),
            None => dash(),
        },
        r.tps_health == tps_health_of(*limits, region.tps),
        r.mspt@ == match region.mspt {
            Some(m) => fixed_text(m as int, 1),
            None => dash(),
        },
        r.mspt_health == mspt_health_of(*limits, region.mspt),
        r.players@ == number_or_dash(region.players),
        r.entities@ == grouped_or_dash(region.entities),
        r.chunks@ == grouped_or_dash(region.chunks),
        r.pressure == region.spec_pressure(),
        r.load@ == percent_text(region.spec_pressure()),
        r.load_health == load_health_of(Some(region.spec_pressure() as i64)),
{
    let pressure = region.pressure();
    RegionCells {
        label: truncate(region.label().as_str(), 30),
        tps: match region.tps {
            Some(t) => fixed(t, 2),
            None => dash_text(),
        },
        tps_health: limits.tps_health(region.tps),
        mspt: match region.mspt {
            Some(m) => fixed(m, 1),
            None => dash_text(),
        },
        mspt_health: limits.mspt_health(region.mspt),
        players: number_or_dash_text(region.players),
        entities: match region.entities {
            Some(n) => count(n as u64),
            None => dash_text(),
        },
        chunks: match region.chunks {
            Some(n) => count(n as u64),
            None => dash_text(),
        },
        load: percent(pressure),
        pressure,
        load_health: limits.load_health(Some(pressure)),
    }
}

/// Whether any world's walk was cut short.
pub open spec fn any_partial(worlds: Seq<WorldUsage>) -> bool {
    exists|i: int| 0 <= i < worlds.len() && (#[trigger] worlds[i]).partial
}

/// The left half of the Storage panel: what was measured. A partial walk is
/// flagged rather than silently under-reported.
pub open spec fn measured_rows(disk: DiskUsage, rescan_secs: u64) -> Seq<Shown> {
    seq![
        Shown::Field("Worlds measured"@, decimal(disk.worlds@.len()), Health::Unknown),
        Shown::Field("Total on disk"@, bytes_text(sum_held(world_bytes(disk.worlds@)) as nat), Health::Unknown),
        Shown::Field("Files"@, grouped(decimal(sum_held(world_files(disk.worlds@)) as nat)), Health::Unknown),
        Shown::Field("Rescan every"@, duration_text((rescan_secs as nat) * 1000), Health::Unknown),
    ] + if any_partial(disk.worlds@) {
        seq![Shown::Blank, Shown::Note("* some files could not be read; totals are a floor"@, Tone::Warn)]
    } else {
        Seq::empty()
    }
}

/// The right half of the Storage panel: the filesystem the worlds sit on.
pub open spec fn filesystem_rows(disk: DiskUsage) -> Seq<Shown> {
    match disk.free {
        Some((free, total)) => {
            let used: u64 = if total >= free { (total - free) as u64 } else { 0 };
            let fraction = share_of(used, total);
            let health = load_health_of(Some(fraction));
            seq![
                Shown::Field("Filesystem"@, bytes_text(total as nat), Health::Unknown),
                Shown::Field("Used"@, bytes_text(used as nat), health),
                Shown::Field("Free"@, bytes_text(free as nat), health),
                Shown::Meter(fraction as int, health),
                Shown::Blank,
                Shown::Field(
                    "Worlds' share of it"@,
                    percent_text(share_of(sum_held(world_bytes(disk.worlds@)), total) as int),
                    Health::Unknown,
                ),
            ]
        },
        None => seq![Shown::Note("Filesystem usage unavailable"@, Tone::Label)],
    }
}

fn partial_somewhere(worlds: &Vec<WorldUsage>) -> (r: bool)
    ensures
        r == any_partial(worlds@),
{
    let mut i: usize = 0;
    while i < worlds.len()
        invariant
            i <= worlds@.len(),
            forall|j: int| 0 <= j < i ==> !(#[trigger] worlds@[j]).partial,
        decreases worlds@.len() - i,
    {
        if worlds[i].partial {
            return true;
        }
        i += 1;
    }
    false
}

/// What the Storage panel says, left half and right half; the disk is
/// rescanned every `rescan_secs` seconds.
pub fn storage_panel(disk: &DiskUsage, rescan_secs: u64, limits: &Thresholds) -> (r: (Vec<Row>, Vec<Row>))
    ensures
        shown_all(r.0@) == measured_rows(*disk, rescan_secs),
        shown_all(r.1@) == filesystem_rows(*disk),
{
    let total_bytes = disk_total(&disk.worlds);
    let mut left: Vec<Row> = Vec::new();
    push_row(&mut left, field("Worlds measured", decimal_text(disk.worlds.len() as u64), Health::Unknown));
    push_row(&mut left, field("Total on disk", bytes(total_bytes), Health::Unknown));
    push_row(&mut left, field("Files", count(files_total(&disk.worlds)), Health::Unknown));
    push_row(&mut left, field("Rescan every", duration((rescan_secs as u128) * 1000), Health::Unknown));
    if partial_somewhere(&disk.worlds) {
        push_row(&mut left, Row::Blank);
        push_row(&mut left, note("* some files could not be read; totals are a floor", Tone::Warn));
    }
    assert(shown_all(left@) =~= measured_rows(*disk, rescan_secs));

    let mut right: Vec<Row> = Vec::new();
    match disk.free {
        Some((free, total)) => {
            let used: u64 = if total >= free { total - free } else { 0 };
            let fraction = share(used, total);
            let health = limits.load_health(Some(fraction));
            push_row(&mut right, field("Filesystem", bytes(total), Health::Unknown));
            push_row(&mut right, field("Used", bytes(used), health));
            push_row(&mut right, field("Free", bytes(free), health));
            push_row(&mut right, Row::Meter { fraction, health });
            push_row(&mut right, Row::Blank);
            push_row(&mut right, field("Worlds' share of it", percent(share(total_bytes, total)), Health::Unknown));
        },
        None => {
            push_row(&mut right, note("Filesystem usage unavailable", Tone::Label));
        },
    }
    assert(shown_all(right@) =~= filesystem_rows(*disk));
    (left, right)
}

/// One line of the worlds table.
pub struct WorldCells {
    /// The name, marked with ` *` when the walk was cut short.
    pub name: String,
    pub bytes: String,
    pub region: String,
    pub entities: String,
    pub poi: String,
    pub files: String,
    /// The world's share of all the worlds' bytes, in millionths.
    pub share: i64,
    pub share_text: String,
}

/// What the worlds table shows for `world`, out of `all_bytes` across every
/// world.
pub fn world_cells(world: &WorldUsage, all_bytes: u64) -> (r: WorldCells)
    ensures
        r.name@ == if world.partial { world.name@ + " *"@ } else { world.name@ },
        r.bytes@ == bytes_text(world.bytes as nat),
        r.region@ == bytes_text(world.region_bytes as nat),
        r.entities@ == bytes_text(world.entity_bytes as nat),
        r.poi@ == bytes_text(world.poi_bytes as nat),
        r.files@ == grouped(decimal(world.files as nat)),
        r.share == share_of(world.bytes, all_bytes),
        r.share_text@ == percent_text(share_of(world.bytes, all_bytes) as int),
{
    let mut name = chars_of(world.name.as_str());
    if world.partial {
        push_str(&mut name, " *");
    }
    let portion = share(world.bytes, all_bytes);
    WorldCells {
        name: string_from(&name),
        bytes: bytes(world.bytes),
        region: bytes(world.region_bytes),
        entities: bytes(world.entity_bytes),
        poi: bytes(world.poi_bytes),
        files: count(world.files),
        share: portion,
        share_text: percent(portion),
    }
}

/// How a piece of a caption is coloured.
#[derive(Debug, Clone, Copy, PartialEq, Eq, Structural)]
pub enum Paint {
    Label,
    Value,
    /// The colour of a health.
    Health(Health),
}

/// A run of text in one colour.
#[derive(Debug, Clone, PartialEq, Eq)]
pub struct Piece {
    pub text: String,
    pub paint: Paint,
}

/// A headline tile: the reading in one or more renderings, widest first, its
/// unit, its health, and one or more captions, widest first. A tile is only
/// ever a quarter of the screen, so it takes the first rendering and the
/// first caption that fit rather than cutting a number in half.
pub struct Tile {
    pub values: Vec<String>,
    pub unit: String,
    pub health: Health,
    pub captions: Vec<Vec<Piece>>,
}

/// What a run of pieces shows.
pub open spec fn pieces_shown(pieces: Seq<Piece>) -> Seq<(Seq<char>, Paint)> {
    Seq::new(pieces.len(), |i: int| (pieces[i].text@, pieces[i].paint))
}

/// What a tile's captions show.
pub open spec fn captions_shown(captions: Seq<Vec<Piece>>) -> Seq<Seq<(Seq<char>, Paint)>> {
    Seq::new(captions.len(), |i: int| pieces_shown(captions[i]@))
}

/// What a tile's renderings show.
pub open spec fn values_shown(values: Seq<String>) -> Seq<Seq<char>> {
    Seq::new(values.len(), |i: int| values[i]@)
}

fn piece(text: String, paint: Paint) -> (r: Piece)
    ensures
        r.text@ == text@,
        r.paint == paint,
{
    Piece { text, paint }
}

fn push_piece(pieces: &mut Vec<Piece>, text: String, paint: Paint)
    ensures
        pieces_shown(final(pieces)@) == pieces_shown(old(pieces)@).push((text@, paint)),
{
    let ghost before = pieces@;
    pieces.push(piece(text, paint));
    assert(pieces_shown(pieces@) =~= pieces_shown(before).push((text@, paint)));
}

fn text_of(chars: &str) -> (r: String)
    ensures
        r@ == chars@,
{
    chars.to_owned()
}

/// One longer window of the tick rate, as the TPS tile's caption shows it:
/// its label, and its rate to one place in the colour of its health.
pub open spec fn window_pieces(window: (String, i64), limits: Thresholds, trailing: Seq<char>) -> Seq<(Seq<char>, Paint)> {
    seq![
        (window.0@ + seq![' '], Paint::Label),
        (fixed_text(window.1 as int, 1) + trailing, Paint::Health(tps_health_of(limits, Some(window.1)))),
    ]
}

/// The captions of windows `from` to `to` (exclusive).
pub open spec fn windows_caption(
    windows: Seq<(String, i64)>,
    limits: Thresholds,
    trailing: Seq<char>,
    to: int,
) -> Seq<(Seq<char>, Paint)>
    decreases to,
{
    if to <= 1 {
        Seq::empty()
    } else {
        windows_caption(windows, limits, trailing, to - 1) + window_pieces(windows[to - 1], limits, trailing)
    }
}

/// The TPS tile. The longer windows say whether a dip is a blip or a trend.
/// The panel is already titled TPS, so it gives no unit, which would only
/// cost the columns that decide whether the large digits fit at all.
pub open spec fn tps_tile_shown(tps: TpsReading, limits: Thresholds) -> (Seq<Seq<char>>, Seq<char>, Health, Seq<Seq<(Seq<char>, Paint)>>) {
    let windows = tps.windows@;
    let current = if windows.len() == 0 { None } else { Some(windows[0].1) };
    let long_to: int = if windows.len() < 4 { windows.len() as int } else { 4 };
    let short_to: int = if windows.len() < 2 { windows.len() as int } else { 2 };
    (
        seq![
            match current { Some(v) => fixed_text(v as int, 2), None => dash() },
            match current { Some(v) => fixed_text(v as int, 1), None => dash() },
        ],
        ""@,
        tps_health_of(limits, current),
        seq![
            if windows.len() > 1 {
                windows_caption(windows, limits, " "@, long_to)
            } else {
                seq![("waiting for a reading"@, Paint::Label)]
            },
            windows_caption(windows, limits, ""@, short_to),
        ],
    )
}

fn push_windows(
    pieces: &mut Vec<Piece>,
    windows: &Vec<(String, i64)>,
    limits: &Thresholds,
    trailing: &str,
    to: usize,
)
    requires
        1 <= to <= windows@.len(),
    ensures
        pieces_shown(final(pieces)@) == pieces_shown(old(pieces)@) + windows_caption(windows@, *limits, trailing@, to as int),
{
    let ghost start = pieces_shown(pieces@);
    let mut i: usize = 1;
    while i < to
        invariant
            1 <= i <= to <= windows@.len(),
            pieces_shown(pieces@) == start + windows_caption(windows@, *limits, trailing@, i as int),
        decreases to - i,
    {
        let (label, value) = &windows[i];
        let ghost before = pieces_shown(pieces@);
        let mut name = chars_of(label.as_str());
        name.push(' ');
        push_piece(pieces, string_from(&name), Paint::Label);
        let mut rate = chars_of(fixed(*value, 1).as_str());
        push_str(&mut rate, trailing);
        push_piece(pieces, string_from(&rate), Paint::Health(limits.tps_health(Some(*value))));
        proof {
            assert(windows@[i as int].0@ + seq![' '] == name@);
            assert(pieces_shown(pieces@) =~= before + window_pieces(windows@[i as int], *limits, trailing@));
        }
        i += 1;
        assert(pieces_shown(pieces@) =~= start + windows_caption(windows@, *limits, trailing@, i as int));
    }
}

/// What the TPS tile shows.
pub fn tps_tile(tps: &TpsReading, limits: &Thresholds) -> (r: Tile)
    ensures
        (values_shown(r.values@), r.unit@, r.health, captions_shown(r.captions@)) == tps_tile_shown(*tps, *limits),
{
    let current = tps.current();
    let mut values: Vec<String> = Vec::new();
    match current {
        Some(v) => {
            values.push(fixed(v, 2));
            values.push(fixed(v, 1));
        },
        None => {
            values.push(dash_text());
            values.push(dash_text());
        },
    }
    let len = tps.windows.len();
    let mut long: Vec<Piece> = Vec::new();
    if len > 1 {
        let to = if len < 4 { len } else { 4 };
        push_windows(&mut long, &tps.windows, limits, " ", to);
    } else {
        push_piece(&mut long, text_of("waiting for a reading"), Paint::Label);
    }
    let mut short: Vec<Piece> = Vec::new();
    if len > 1 {
        push_windows(&mut short, &tps.windows, limits, "", 2);
    }
    let ghost long_view = pieces_shown(long@);
    let ghost short_view = pieces_shown(short@);
    let mut captions: Vec<Vec<Piece>> = Vec::new();
    captions.push(long);
    captions.push(short);
    let r = Tile { values, unit: text_of(""), health: limits.tps_health(current), captions };
    proof {
        let want = tps_tile_shown(*tps, *limits);
        assert(values_shown(r.values@) =~= want.0);
        assert(r.unit@ =~= want.1);
        assert(long_view =~= want.3[0]);
        if len <= 1 {
            assert(short_view =~= want.3[1]);
        }
        assert(captions_shown(r.captions@) =~= want.3);
    }
    r
}

/// The MSPT tile. The maximum is the number that explains a stutter players
/// felt but the average smoothed away.
pub open spec fn mspt_tile_shown(mspt: MsptReading, limits: Thresholds) -> (Seq<Seq<char>>, Seq<char>, Health, Seq<Seq<(Seq<char>, Paint)>>) {
    let windows = mspt.windows@;
    let average = if windows.len() == 0 { None } else { Some(windows[0].1.average) };
    (
        seq![
            match average { Some(v) => fixed_text(v as int, 1), None => dash() },
            match average { Some(v) => fixed_text(v as int, 0), None => dash() },
        ],
        "ms"@,
        mspt_health_of(limits, average),
        if windows.len() == 0 {
            seq![seq![("waiting for a reading"@, Paint::Label)], seq![("waiting"@, Paint::Label)]]
        } else {
            let w = windows[0].1;
            let top = Paint::Health(mspt_health_of(limits, Some(w.maximum)));
            seq![
                seq![
                    ("min "@, Paint::Label),
                    (fixed_text(w.minimum as int, 1) + "  "@, Paint::Value),
                    ("max "@, Paint::Label),
                    (fixed_text(w.maximum as int, 1), top),
                ],
                seq![("max "@, Paint::Label), (fixed_text(w.maximum as int, 0), top)],
            ]
        },
    )
}

/// What the MSPT tile shows.
pub fn mspt_tile(mspt: &MsptReading, limits: &Thresholds) -> (r: Tile)
    ensures
        (values_shown(r.values@), r.unit@, r.health, captions_shown(r.captions@)) == mspt_tile_shown(*mspt, *limits),
{
    let window = mspt.current();
    let average = match window {
        Some(w) => Some(w.average),
        None => None,
    };
    let mut values: Vec<String> = Vec::new();
    let mut long: Vec<Piece> = Vec::new();
    let mut short: Vec<Piece> = Vec::new();
    match window {
        Some(w) => {
            values.push(fixed(w.average, 1));
            values.push(fixed(w.average, 0));
            let top = Paint::Health(limits.mspt_health(Some(w.maximum)));
            push_piece(&mut long, text_of("min "), Paint::Label);
            let mut low = chars_of(fixed(w.minimum, 1).as_str());
            push_str(&mut low, "  ");
            push_piece(&mut long, string_from(&low), Paint::Value);
            push_piece(&mut long, text_of("max "), Paint::Label);
            push_piece(&mut long, fixed(w.maximum, 1), top);
            push_piece(&mut short, text_of("max "), Paint::Label);
            push_piece(&mut short, fixed(w.maximum, 0), top);
        },
        None => {
            values.push(dash_text());
            values.push(dash_text());
            push_piece(&mut long, text_of("waiting for a reading"), Paint::Label);
            push_piece(&mut short, text_of("waiting"), Paint::Label);
        },
    }
    let ghost long_view = pieces_shown(long@);
    let ghost short_view = pieces_shown(short@);
    let mut captions: Vec<Vec<Piece>> = Vec::new();
    captions.push(long);
    captions.push(short);
    let r = Tile { values, unit: text_of("ms"), health: limits.mspt_health(average), captions };
    proof {
        let want = mspt_tile_shown(*mspt, *limits);
        assert(values_shown(r.values@) =~= want.0);
        assert(long_view =~= want.3[0]);
        assert(short_view =~= want.3[1]);
        assert(captions_shown(r.captions@) =~= want.3);
    }
    r
}

/// The CPU tile: the process's share of one core, and of the whole machine.
pub open spec fn cpu_tile_shown(stats: ProcessStats) -> (Seq<Seq<char>>, Seq<char>, Health, Seq<Seq<(Seq<char>, Paint)>>) {
    let fraction: int = if stats.cores == 0 { 0 } else { (stats.cpu_percent as int) / (100 * stats.cores as int) };
    (
        seq![fixed_text(stats.cpu_percent as int, 0)],
        "%"@,
        load_health_of(Some(fraction as i64)),
        seq![
            seq![(percent_text(fraction) + " of "@ + decimal(stats.cores as nat) + " cores"@, Paint::Label)],
            seq![(percent_text(fraction) + " of host"@, Paint::Label)],
        ],
    )
}

/// What the CPU tile shows.
pub fn cpu_tile(stats: &ProcessStats, limits: &Thresholds) -> (r: Tile)
    ensures
        (values_shown(r.values@), r.unit@, r.health, captions_shown(r.captions@)) == cpu_tile_shown(*stats),
{
    let fraction = stats.cpu_fraction();
    let mut values: Vec<String> = Vec::new();
    values.push(fixed(stats.cpu_percent, 0));
    let share = percent(fraction);
    let mut cores = chars_of(share.as_str());
    push_str(&mut cores, " of ");
    push_decimal(&mut cores, stats.cores as u128);
    push_str(&mut cores, " cores");
    let mut host = chars_of(share.as_str());
    push_str(&mut host, " of host");
    let mut long: Vec<Piece> = Vec::new();
    push_piece(&mut long, string_from(&cores), Paint::Label);
    let mut short: Vec<Piece> = Vec::new();
    push_piece(&mut short, string_from(&host), Paint::Label);
    let ghost long_view = pieces_shown(long@);
    let ghost short_view = pieces_shown(short@);
    let mut captions: Vec<Vec<Piece>> = Vec::new();
    captions.push(long);
    captions.push(short);
    let r = Tile { values, unit: text_of("%"), health: limits.load_health(Some(fraction)), captions };
    proof {
        let want = cpu_tile_shown(*stats);
        assert(values_shown(r.values@) =~= want.0);
        assert(long_view =~= want.3[0]);
        assert(short_view =~= want.3[1]);
        assert(captions_shown(r.captions@) =~= want.3);
    }
    r
}

/// How a byte count reads beside a ceiling: the unit is stated once, on the
/// ceiling, when both agree.
pub open spec fn beside_ceiling(value: u64, ceiling: Option<u64>) -> Seq<char> {
    let (number, unit) = byte_parts(value as nat);
    match ceiling {
        Some(max) => if byte_parts(max as nat).1 == unit {
            number
        } else {
            number + seq![' '] + unit
        },
        None => number + seq![' '] + unit,
    }
}

/// The Heap tile, when there is a heap reading. Occupancy after a collection
/// is the honest measure of heap pressure; current usage includes garbage
/// that is about to be given back.
pub open spec fn heap_tile_shown(heap: HeapStats) -> Option<(Seq<Seq<char>>, Seq<char>, Health, Seq<Seq<(Seq<char>, Paint)>>)> {
    match heap.used {
        None => None,
        Some(used) => {
            let pressure = heap_pressure_of(heap);
            let health = load_health_of(pressure);
            Some((
                seq![byte_parts(used as nat).0],
                byte_parts(used as nat).1,
                health,
                seq![
                    seq![
                        (if heap.after_gc_measured { "after GC "@ } else { "after GC \u{2248}"@ }, Paint::Label),
                        (match heap.after_gc {
                            Some(after) => beside_ceiling(after, heap.max),
                            None => dash(),
                        }, Paint::Health(health)),
                        (" / "@ + match heap.max {
                            Some(max) => bytes_text(max as nat),
                            None => dash(),
                        }, Paint::Label),
                    ],
                    seq![("after GC "@, Paint::Label), (percent_or_dash(pressure), Paint::Health(health))],
                ],
            ))
        },
    }
}

/// What the Heap tile shows; `None` when there is no heap reading.
pub fn heap_tile(heap: &HeapStats, limits: &Thresholds) -> (r: Option<Tile>)
    ensures
        match (r, heap_tile_shown(*heap)) {
            (Some(tile), Some(want)) => (values_shown(tile.values@), tile.unit@, tile.health, captions_shown(
                tile.captions@,
            )) == want,
            (None, None) => true,
            _ => false,
        },
{
    let used = match heap.used {
        Some(used) => used,
        None => return None,
    };
    let pressure = heap.pressure();
    assert(pressure == heap_pressure_of(*heap));
    let health = limits.load_health(pressure);
    let (number, unit) = bytes_parts(used);
    let mut values: Vec<String> = Vec::new();
    values.push(number);

    let after = match heap.after_gc {
        Some(after) => {
            let (figure, after_unit) = bytes_parts(after);
            let same = match heap.max {
                Some(max) => {
                    let (_, max_unit) = bytes_parts(max);
                    crate::metrics::same_chars(&chars_of(max_unit), &chars_of(after_unit))
                },
                None => false,
            };
            if same {
                figure
            } else {
                let mut text = chars_of(figure.as_str());
                text.push(' ');
                push_str(&mut text, after_unit);
                string_from(&text)
            }
        },
        None => dash_text(),
    };
    assert(after@ == match heap.after_gc {
        Some(a) => beside_ceiling(a, heap.max),
        None => dash(),
    });
    let mut ceiling = chars_of(" / ");
    match heap.max {
        Some(max) => push_str(&mut ceiling, bytes(max).as_str()),
        None => push_str(&mut ceiling, dash_text().as_str()),
    }
    assert(ceiling@ == " / "@ + match heap.max {
        Some(max) => bytes_text(max as nat),
        None => dash(),
    });
    let mut long: Vec<Piece> = Vec::new();
    push_piece(
        &mut long,
        text_of(if heap.after_gc_measured { "after GC " } else { "after GC \u{2248}" }),
        Paint::Label,
    );
    push_piece(&mut long, after, Paint::Health(health));
    push_piece(&mut long, string_from(&ceiling), Paint::Label);
    let mut short: Vec<Piece> = Vec::new();
    push_piece(&mut short, text_of("after GC "), Paint::Label);
    push_piece(&mut short, percent_or_dash_text(pressure), Paint::Health(health));
    let ghost long_view = pieces_shown(long@);
    let ghost short_view = pieces_shown(short@);
    let mut captions: Vec<Vec<Piece>> = Vec::new();
    captions.push(long);
    captions.push(short);
    let r = Tile { values, unit: text_of(unit), health, captions };
    proof {
        let want = heap_tile_shown(*heap).unwrap();
        assert(values_shown(r.values@) =~= want.0);
        assert(long_view =~= want.3[0]);
        assert(short_view =~= want.3[1]);
        assert(captions_shown(r.captions@) =~= want.3);
    }
    Some(r)
}

/// The header's account of the link, the uptime, the players, and whether the
/// display can be trusted.
pub struct Header {
    pub indicator: String,
    pub link: String,
    pub link_health: Health,
    /// The server's uptime, when there is room for it.
    pub uptime: Option<String>,
    pub players: String,
    /// `PAUSED`, or how stale the readings are, in the colour of a warning.
    pub flag: Option<String>,
}

/// How the header describes the link.
pub open spec fn link_shown(link: Link) -> (Seq<char>, Seq<char>, Health) {
    match link {
        Link::Up => ("\u{25cf}"@, "connected"@, Health::Good),
        Link::Connecting => ("\u{25cc}"@, "connecting"@, Health::Warn),
        Link::Down(reason) => ("\u{25cf}"@, "down \u{2014} "@ + reason@, Health::Bad),
    }
}

/// How the header counts the players. Before the first player list arrives,
/// "0 players" would be a claim mctop has no basis for.
pub open spec fn players_shown(players: Players, heard: bool) -> Seq<char> {
    if !heard {
        "\u{2014} players"@
    } else {
        players_value(players) + " players"@
    }
}

/// What the header flags: a pause, or readings ten seconds old or more; a
/// display that has quietly stopped updating is worse than no display.
pub open spec fn flag_shown(paused: bool, stale_ms: Option<u128>) -> Option<Seq<char>> {
    if paused {
        Some("PAUSED"@)
    } else {
        match stale_ms {
            Some(ms) => if ms >= 10_000 {
                Some("stale "@ + ago_text(ms as nat))
            } else {
                None
            },
            None => None,
        }
    }
}

/// What the header says. `heard` is whether a player list has arrived yet;
/// `stale_ms` is how long ago the last reading did. Uptime is the first thing
/// to go when the header runs out of room; it is also on the System tab.
pub fn header(
    link: &Link,
    process: &Option<ProcessStats>,
    players: &Players,
    heard: bool,
    paused: bool,
    stale_ms: Option<u128>,
    width: u16,
) -> (r: Header)
    ensures
        (r.indicator@, r.link@, r.link_health) == link_shown(*link),
        match r.uptime {
            Some(text) => width >= 100 && (process matches Some(stats) && text@ == "up "@ + duration_text(
                (stats.uptime as nat) * 1000,
            )),
            None => width < 100 || process is None,
        },
        r.players@ == players_shown(*players, heard),
        match (r.flag, flag_shown(paused, stale_ms)) {
            (Some(got), Some(want)) => got@ == want,
            (None, None) => true,
            _ => false,
        },
{
    let (indicator, text, health) = match link {
        Link::Up => (text_of("\u{25cf}"), text_of("connected"), Health::Good),
        Link::Connecting => (text_of("\u{25cc}"), text_of("connecting"), Health::Warn),
        Link::Down(reason) => {
            let mut out = chars_of("down \u{2014} ");
            push_str(&mut out, reason.as_str());
            (text_of("\u{25cf}"), string_from(&out), Health::Bad)
        },
    };
    let uptime = match process {
        Some(stats) => if width >= 100 {
            let mut out = chars_of("up ");
            push_str(&mut out, duration((stats.uptime as u128) * 1000).as_str());
            Some(string_from(&out))
        } else {
            None
        },
        None => None,
    };
    let people = if !heard {
        text_of("\u{2014} players")
    } else {
        let mut out: Vec<char> = Vec::new();
        push_decimal(&mut out, players.online as u128);
        if let Some(max) = players.max {
            push_str(&mut out, " / ");
            push_decimal(&mut out, max as u128);
        }
        assert(out@ =~= players_value(*players));
        push_str(&mut out, " players");
        string_from(&out)
    };
    let flag = if paused {
        Some(text_of("PAUSED"))
    } else {
        match stale_ms {
            Some(ms) => if ms >= 10_000 {
                let mut out = chars_of("stale ");
                push_str(&mut out, ago(ms).as_str());
                Some(string_from(&out))
            } else {
                None
            },
            None => None,
        }
    };
    Header { indicator, link: text, link_health: health, uptime, players: people, flag }
}

/// The keys the footer offers. The console owns the keyboard while its
/// command line has the focus, so then the footer shows a different set
/// outright: telling someone to press `q` when `q` types a letter is worse
/// than saying nothing, and `?` types a question mark.
pub open spec fn footer_shown(tab: Tab, paused: bool, focused: bool, raw: bool) -> Seq<(Seq<char>, Seq<char>)> {
    if tab == Tab::Console && focused {
        seq![
            ("^C"@, "quit"@),
            ("\u{21b9}"@, "tab"@),
            ("\u{23ce}"@, "send"@),
            ("\u{2191}\u{2193}"@, "history"@),
            ("PgUp/Dn"@, "scroll"@),
            ("Esc"@, "keys back"@),
        ]
    } else {
        seq![
            ("q"@, "quit"@),
            ("\u{21b9}"@, "tab"@),
            ("r"@, "refresh"@),
            ("p"@, if paused { "resume"@ } else { "pause"@ }),
        ] + (if tab == Tab::Regions {
            seq![("\u{2191}\u{2193}"@, "select"@), ("s"@, "sort"@)]
        } else if tab == Tab::Console {
            seq![
                ("\u{23ce}"@, "type a command"@),
                ("\u{2191}\u{2193}"@, "scroll"@),
                ("v"@, if raw { "console"@ } else { "raw"@ }),
            ]
        } else {
            Seq::empty()
        }) + seq![("?"@, "help"@)]
    }
}

/// The keys as plain values.
pub open spec fn keys_shown(keys: Seq<(&'static str, &'static str)>) -> Seq<(Seq<char>, Seq<char>)> {
    Seq::new(keys.len(), |i: int| (keys[i].0@, keys[i].1@))
}

fn push_key(keys: &mut Vec<(&'static str, &'static str)>, key: &'static str, what: &'static str)
    ensures
        keys_shown(final(keys)@) == keys_shown(old(keys)@).push((key@, what@)),
{
    let ghost before = keys@;
    keys.push((key, what));
    assert(keys_shown(keys@) =~= keys_shown(before).push((key@, what@)));
}

/// The keys the footer offers on `tab`.
pub fn footer_keys(tab: Tab, paused: bool, focused: bool, raw: bool) -> (r: Vec<(&'static str, &'static str)>)
    ensures
        keys_shown(r@) == footer_shown(tab, paused, focused, raw),
{
    let mut keys: Vec<(&'static str, &'static str)> = Vec::new();
    let console = match tab {
        Tab::Console => true,
        _ => false,
    };
    let regions = match tab {
        Tab::Regions => true,
        _ => false,
    };
    if console && focused {
        push_key(&mut keys, "^C", "quit");
        push_key(&mut keys, "\u{21b9}", "tab");
        push_key(&mut keys, "\u{23ce}", "send");
        push_key(&mut keys, "\u{2191}\u{2193}", "history");
        push_key(&mut keys, "PgUp/Dn", "scroll");
        push_key(&mut keys, "Esc", "keys back");
        assert(keys_shown(keys@) =~= footer_shown(tab, paused, focused, raw));
        return keys;
    }
    push_key(&mut keys, "q", "quit");
    push_key(&mut keys, "\u{21b9}", "tab");
    push_key(&mut keys, "r", "refresh");
    push_key(&mut keys, "p", if paused { "resume" } else { "pause" });
    if regions {
        push_key(&mut keys, "\u{2191}\u{2193}", "select");
        push_key(&mut keys, "s", "sort");
    } else if console {
        push_key(&mut keys, "\u{23ce}", "type a command");
        push_key(&mut keys, "\u{2191}\u{2193}", "scroll");
        push_key(&mut keys, "v", if raw { "console" } else { "raw" });
    }
    push_key(&mut keys, "?", "help");
    assert(keys_shown(keys@) =~= footer_shown(tab, paused, focused, raw));
    keys
}

/// The command line: its title, the part of the typed text that is in view,
/// whether a placeholder stands in for it, and the cursor's column.
pub struct CommandLine {
    pub title: String,
    pub shown: String,
    pub placeholder: bool,
    /// Columns from the left edge of the box's interior.
    pub cursor: u16,
}

/// The prompt before the typed text.
pub open spec fn prompt() -> Seq<char> {
    "> "@
}

/// Where the view of a line that outruns the box starts: far enough along to
/// keep the cursor in view rather than letting it run off the edge.
pub open spec fn view_start(cursor: nat, width: u16) -> nat {
    let room: int = if width >= 2 { width - 2 } else { 0 };
    let keep: int = if room >= 1 { room - 1 } else { 0 };
    if cursor >= keep { (cursor - keep) as nat } else { 0 }
}

/// The command line for `text`, with the cursor `cursor` characters in, in a
/// box `width` columns wide.
pub open spec fn command_line_shown(
    text: Seq<char>,
    cursor: nat,
    focused: bool,
    connected: bool,
    width: u16,
) -> (Seq<char>, Seq<char>, bool, int) {
    let room: nat = if width >= 2 { (width - 2) as nat } else { 0 };
    let start = view_start(cursor, width);
    let shown_from: int = if start <= text.len() { start as int } else { text.len() as int };
    let end: int = if shown_from + room <= text.len() { shown_from + room } else { text.len() as int };
    let column: int = 2 + (cursor - start);
    (
        if !focused {
            "Command \u{2014} press Enter to type"@
        } else if connected {
            "Command"@
        } else {
            "Command \u{2014} not connected"@
        },
        if text.len() == 0 && focused {
            "say something, or `list`, or `save-all`"@
        } else {
            text.subrange(shown_from, end)
        },
        text.len() == 0 && focused,
        if width == 0 { 0 } else if column < width - 1 { column } else { width - 1 },
    )
}

/// The command line, as the Console tab shows it.
pub fn command_line(text: &str, cursor: usize, focused: bool, connected: bool, width: u16) -> (r: CommandLine)
    requires
        cursor <= text@.len(),
    ensures
        (r.title@, r.shown@, r.placeholder, r.cursor as int) == command_line_shown(
            text@,
            cursor as nat,
            focused,
            connected,
            width,
        ),
{
    let chars = chars_of(text);
    let title = if !focused {
        text_of("Command \u{2014} press Enter to type")
    } else if connected {
        text_of("Command")
    } else {
        text_of("Command \u{2014} not connected")
    };
    let room: usize = if width >= 2 { (width - 2) as usize } else { 0 };
    let keep: usize = if room >= 1 { room - 1 } else { 0 };
    let start: usize = if cursor >= keep { cursor - keep } else { 0 };
    let placeholder = chars.len() == 0 && focused;
    let shown = if placeholder {
        text_of("say something, or `list`, or `save-all`")
    } else {
        let from = if start <= chars.len() { start } else { chars.len() };
        let end = if room <= chars.len() - from { from + room } else { chars.len() };
        crate::text::string_between(&chars, from, end)
    };
    let column: u64 = 2 + (cursor - start) as u64;
    let cursor_column: u16 = if width == 0 {
        0
    } else if column < (width - 1) as u64 {
        column as u16
    } else {
        width - 1
    };
    CommandLine { title, shown, placeholder, cursor: cursor_column }
}

/// What an empty Regions tab says. An empty tab is a fact about the server,
/// not a failure: a Folia server whose report could not be read is told which
/// command it was asked to run; any other server is told that regions are a
/// Folia feature.
pub open spec fn region_absence(folia: bool, command: Seq<char>) -> Seq<Shown> {
    if folia {
        seq![
            Shown::Blank,
            Shown::Note("This server reports itself as Folia, but its region report could not be read."@, Tone::Value),
            Shown::Blank,
            Shown::Note("mctop asked it to run `"@ + command + "`. Check the Log tab for the raw response, and set"@, Tone::Label),
            Shown::Note("[commands].regions in the config to whatever this build answers to."@, Tone::Label),
        ]
    } else {
        seq![
            Shown::Blank,
            Shown::Note("No per-region detail is available."@, Tone::Value),
            Shown::Blank,
            Shown::Note("Regions are a Folia feature: it splits each world into slices that tick on"@, Tone::Label),
            Shown::Note("separate threads. Paper, Spigot, and vanilla tick one thread per server, so"@, Tone::Label),
            Shown::Note("the global TPS and MSPT on the Overview tab already tell the whole story."@, Tone::Label),
        ]
    }
}

/// The rows of an empty Regions tab, for a server that does or does not call
/// itself Folia and the command that asks for its regions.
pub fn explain_absence(folia: bool, command: &str) -> (r: Vec<Row>)
    ensures
        shown_all(r@) == region_absence(folia, command@),
{
    let mut rows: Vec<Row> = Vec::new();
    push_row(&mut rows, Row::Blank);
    if folia {
        push_row(&mut rows, note("This server reports itself as Folia, but its region report could not be read.", Tone::Value));
        push_row(&mut rows, Row::Blank);
        let mut text: Vec<char> = chars_of("mctop asked it to run `");
        push_str(&mut text, command);
        push_str(&mut text, "`. Check the Log tab for the raw response, and set");
        push_row(&mut rows, Row::Note { text: string_from(&text), tone: Tone::Label });
        push_row(&mut rows, note("[commands].regions in the config to whatever this build answers to.", Tone::Label));
    } else {
        push_row(&mut rows, note("No per-region detail is available.", Tone::Value));
        push_row(&mut rows, Row::Blank);
        push_row(&mut rows, note("Regions are a Folia feature: it splits each world into slices that tick on", Tone::Label));
        push_row(&mut rows, note("separate threads. Paper, Spigot, and vanilla tick one thread per server, so", Tone::Label));
        push_row(&mut rows, note("the global TPS and MSPT on the Overview tab already tell the whole story.", Tone::Label));
    }
    assert(shown_all(rows@) =~= region_absence(folia, command@));
    rows
}

/// What the Worlds tab says when it has no worlds: that the first scan is
/// still running, or how to name the worlds in the config.
pub open spec fn world_absence(scanning: bool) -> Seq<Shown> {
    if scanning {
        seq![
            Shown::Blank,
            Shown::Note("Measuring\u{2026}"@, Tone::Value),
            Shown::Blank,
            Shown::Note("A busy overworld is hundreds of thousands of files, so the first"@, Tone::Label),
            Shown::Note("scan can take a while."@, Tone::Label),
        ]
    } else {
        seq![
            Shown::Blank,
            Shown::Note("No world folders are configured."@, Tone::Value),
            Shown::Blank,
            Shown::Note("Set [server].directory to the server's folder and mctop will find the"@, Tone::Label),
            Shown::Note("worlds under it, or list them explicitly as [[world]] entries:"@, Tone::Label),
            Shown::Blank,
            Shown::Note("    [[world]]"@, Tone::Info),
            Shown::Note("    path = \"/srv/minecraft/world\""@, Tone::Info),
        ]
    }
}

/// The rows of an empty Worlds tab, while the first scan runs or when there is
/// nothing to scan.
pub fn no_worlds(scanning: bool) -> (r: Vec<Row>)
    ensures
        shown_all(r@) == world_absence(scanning),
{
    let mut rows: Vec<Row> = Vec::new();
    push_row(&mut rows, Row::Blank);
    if scanning {
        push_row(&mut rows, note("Measuring\u{2026}", Tone::Value));
        push_row(&mut rows, Row::Blank);
        push_row(&mut rows, note("A busy overworld is hundreds of thousands of files, so the first", Tone::Label));
        push_row(&mut rows, note("scan can take a while.", Tone::Label));
    } else {
        push_row(&mut rows, note("No world folders are configured.", Tone::Value));
        push_row(&mut rows, Row::Blank);
        push_row(&mut rows, note("Set [server].directory to the server's folder and mctop will find the", Tone::Label));
        push_row(&mut rows, note("worlds under it, or list them explicitly as [[world]] entries:", Tone::Label));
        push_row(&mut rows, Row::Blank);
        push_row(&mut rows, note("    [[world]]", Tone::Info));
        push_row(&mut rows, note("    path = \"/srv/minecraft/world\"", Tone::Info));
    }
    assert(shown_all(rows@) =~= world_absence(scanning));
    rows
}

/// A process id that may be unknown, as text.
pub open spec fn pid_text(pid: Option<u32>) -> Seq<char> {
    match pid {
        Some(n) => decimal(n as nat),
        None => "?"@,
    }
}

/// What the Heap panel says when there is no heap reading, for the reason
/// there is none. When the tools could not attach, the remedy comes before
/// the explanation, so that a panel clipped from the bottom keeps it.
pub open spec fn heap_absence(reason: Unavailable, pid: Option<u32>) -> Seq<Shown> {
    match reason {
        Unavailable::SamplingOff => seq![Shown::Blank, Shown::Note("Process sampling is disabled in the config."@, Tone::Value)],
        Unavailable::HeapOff => seq![Shown::Blank, Shown::Note("Heap readings are disabled in the config."@, Tone::Value)],
        Unavailable::NoProcess => seq![Shown::Blank, Shown::Note("No server process to read a heap from."@, Tone::Value)],
        Unavailable::ToolFailed(error) => seq![
            Shown::Blank,
            Shown::Note("Process "@ + pid_text(pid) + " was found, but its heap could not be read."@, Tone::Value),
            Shown::Blank,
        ] + match error {
            Some(e) => seq![Shown::Note(e@, Tone::Warn), Shown::Blank],
            None => Seq::empty(),
        } + seq![
            Shown::Note("Run mctop as the user that owns the server:"@, Tone::Value),
            Shown::Note("    sudo -u <server user> mctop"@, Tone::Info),
            Shown::Blank,
            Shown::Note(
                "jstat and jcmd attach through a file owned by that user and readable only by them, so belonging to their group is not enough. Set [jvm].enabled = false to stop asking."@,
                Tone::Label,
            ),
        ],
    }
}

/// The rows of the Heap panel when there is no heap reading, given why, and
/// the id of the process whose heap could not be read.
pub fn heap_unavailable_rows(reason: &Unavailable, pid: Option<u32>) -> (r: Vec<Row>)
    ensures
        shown_all(r@) == heap_absence(*reason, pid),
{
    let mut rows: Vec<Row> = Vec::new();
    push_row(&mut rows, Row::Blank);
    match reason {
        Unavailable::SamplingOff => {
            push_row(&mut rows, note("Process sampling is disabled in the config.", Tone::Value));
        },
        Unavailable::HeapOff => {
            push_row(&mut rows, note("Heap readings are disabled in the config.", Tone::Value));
        },
        Unavailable::NoProcess => {
            push_row(&mut rows, note("No server process to read a heap from.", Tone::Value));
        },
        Unavailable::ToolFailed(error) => {
            let mut text: Vec<char> = chars_of("Process ");
            match pid {
                Some(n) => push_decimal(&mut text, n as u128),
                None => push_str(&mut text, "?"),
            }
            push_str(&mut text, " was found, but its heap could not be read.");
            push_row(&mut rows, Row::Note { text: string_from(&text), tone: Tone::Value });
            push_row(&mut rows, Row::Blank);
            let ghost head = shown_all(rows@);
            match error {
                Some(e) => {
                    push_row(&mut rows, Row::Note { text: e.clone(), tone: Tone::Warn });
                    push_row(&mut rows, Row::Blank);
                },
                None => {},
            }
            let ghost middle = shown_all(rows@);
            push_row(&mut rows, note("Run mctop as the user that owns the server:", Tone::Value));
            push_row(&mut rows, note("    sudo -u <server user> mctop", Tone::Info));
            push_row(&mut rows, Row::Blank);
            push_row(&mut rows, note(
                "jstat and jcmd attach through a file owned by that user and readable only by them, so belonging to their group is not enough. Set [jvm].enabled = false to stop asking.",
                Tone::Label,
            ));
            assert(shown_all(rows@) =~= heap_absence(*reason, pid));
        },
    }
    assert(shown_all(rows@) =~= heap_absence(*reason, pid));
    rows
}

/// What the processor and memory panels say when there is no process reading:
/// that sampling is off, or that no process matched, and then where the
/// readings come from.
pub open spec fn process_absence(reason: Unavailable) -> Seq<Shown> {
    seq![
        Shown::Blank,
        Shown::Note(
            match reason {
                Unavailable::SamplingOff => "Process sampling is disabled in the config."@,
                _ => "No matching Java process on this machine."@,
            },
            Tone::Value,
        ),
        Shown::Blank,
        Shown::Note(
            "CPU and memory are read from the local machine, not over RCON. Run mctop on the server's own host, widen [process].match_pattern, or set [process].pid to pin the PID."@,
            Tone::Label,
        ),
    ]
}

/// The rows of a processor or memory panel without a process reading.
pub fn process_unavailable_rows(reason: &Unavailable) -> (r: Vec<Row>)
    ensures
        shown_all(r@) == process_absence(*reason),
{
    let mut rows: Vec<Row> = Vec::new();
    push_row(&mut rows, Row::Blank);
    let message = match reason {
        Unavailable::SamplingOff => "Process sampling is disabled in the config.",
        _ => "No matching Java process on this machine.",
    };
    push_row(&mut rows, note(message, Tone::Value));
    push_row(&mut rows, Row::Blank);
    push_row(&mut rows, note(
        "CPU and memory are read from the local machine, not over RCON. Run mctop on the server's own host, widen [process].match_pattern, or set [process].pid to pin the PID.",
        Tone::Label,
    ));
    assert(shown_all(rows@) =~= process_absence(*reason));
    rows
}

/// A value held to the range of an `i64`.
pub open spec fn clamped(v: int) -> int {
    if v < i64::MIN { i64::MIN as int } else if v > i64::MAX { i64::MAX as int } else { v }
}

/// The value axis of a history chart, in millionths. The readings' range
/// (nought to one when there are none) is widened to take in the baseline,
/// made one unit tall when it has no height, and then given a twentieth of its
/// height as headroom above; below too when its floor is above zero, though
/// never below zero.
pub open spec fn chart_range(bounds: Option<(i64, i64)>, baseline: Option<(i64, i64)>) -> (int, int) {
    let (low, high) = match bounds {
        Some((l, h)) => (l as int, h as int),
        None => (0int, UNIT as int),
    };
    let (low, high) = match baseline {
        Some((floor, ceiling)) => (
            if (floor as int) < low { floor as int } else { low },
            if (ceiling as int) > high { ceiling as int } else { high },
        ),
        None => (low, high),
    };
    let high = if high == low { low + UNIT } else { high };
    let height = high - low;
    let padding = if height >= 0 { height / 20 } else { -((-height) / 20) };
    let bottom = if low > 0 {
        if low - padding > 0 { low - padding } else { 0 }
    } else {
        low
    };
    (bottom, high + padding)
}

/// How far back a history chart reaches, in milliseconds: the age of its
/// oldest point, and at least a second.
pub open spec fn chart_reach(oldest: Option<i64>) -> int {
    match oldest {
        Some(x) => {
            let age = if x < 0 { -(x as int) } else { x as int };
            if age < 1000 { 1000 } else { clamped(age) }
        },
        None => 1000,
    }
}

/// How a history chart is framed: its value axis, how far back it reaches,
/// and the labels on both axes.
pub struct ChartFrame {
    /// The bottom and top of the value axis, in millionths.
    pub low: i64,
    pub high: i64,
    /// How far back the time axis reaches, in milliseconds.
    pub reach: i64,
    /// The labels of the value axis, bottom, middle and top, in whole units.
    pub values: (String, String, String),
    /// The label at the far end of the time axis: `-3m`.
    pub oldest: String,
}

/// The frame of a history chart, from the smallest and largest reading, the
/// range the axis always covers, and the age of the oldest point drawn (as a
/// negative number of milliseconds).
pub fn chart_frame(bounds: Option<(i64, i64)>, baseline: Option<(i64, i64)>, oldest: Option<i64>) -> (r: ChartFrame)
    ensures
        r.low == clamped(chart_range(bounds, baseline).0),
        r.high == clamped(chart_range(bounds, baseline).1),
        r.reach == chart_reach(oldest),
        r.values.0@ == fixed_text(r.low as int, 0),
        r.values.1@ == fixed_text((r.low as int + r.high as int) / 2, 0),
        r.values.2@ == fixed_text(r.high as int, 0),
        r.oldest@ == seq!['-'] + span_text(r.reach as int),
{
    let (bottom, top) = chart_axis(bounds, baseline);
    let low: i64 = clamp_to_i64(bottom);
    let high: i64 = clamp_to_i64(top);
    let middle = midpoint(low, high);
    let reach = reach_of(oldest);
    let mut label: Vec<char> = Vec::new();
    label.push('-');
    let span_label = span(reach);
    let span_chars = chars_of(span_label.as_str());
    push_all(&mut label, &span_chars);
    assert(label@ =~= seq!['-'] + span_text(reach as int));
    ChartFrame {
        low,
        high,
        reach,
        values: (fixed(low, 0), fixed(middle, 0), fixed(high, 0)),
        oldest: string_from(&label),
    }
}

fn chart_axis(bounds: Option<(i64, i64)>, baseline: Option<(i64, i64)>) -> (r: (i128, i128))
    ensures
        r.0 as int == chart_range(bounds, baseline).0,
        r.1 as int == chart_range(bounds, baseline).1,
{
    let (mut low, mut high): (i128, i128) = match bounds {
        Some((l, h)) => (l as i128, h as i128),
        None => (0, UNIT as i128),
    };
    match baseline {
        Some((floor, ceiling)) => {
            if (floor as i128) < low {
                low = floor as i128;
            }
            if (ceiling as i128) > high {
                high = ceiling as i128;
            }
        },
        None => {},
    }
    if high == low {
        high = low + UNIT as i128;
    }
    let height: i128 = high - low;
    let padding: i128 = if height >= 0 { height / 20 } else { -((-height) / 20) };
    let bottom: i128 = if low > 0 {
        if low - padding > 0 { low - padding } else { 0 }
    } else {
        low
    };
    (bottom, high + padding)
}

fn midpoint(low: i64, high: i64) -> (r: i64)
    ensures
        r as int == (low as int + high as int) / 2,
{
    if high >= low {
        (low as i128 + ((high as i128 - low as i128) / 2)) as i64
    } else {
        (high as i128 + ((low as i128 - high as i128) / 2)) as i64
    }
}

fn reach_of(oldest: Option<i64>) -> (r: i64)
    ensures
        r as int == chart_reach(oldest),
{
    match oldest {
        Some(x) => {
            let age: i128 = if x < 0 { -(x as i128) } else { x as i128 };
            if age < 1000 { 1000 } else { clamp_to_i64(age) }
        },
        None => 1000,
    }
}

fn clamp_to_i64(v: i128) -> (r: i64)
    ensures
        r as int == clamped(v as int),
{
    if v < i64::MIN as i128 {
        i64::MIN
    } else if v > i64::MAX as i128 {
        i64::MAX
    } else {
        v as i64
    }
}

} // verus!
