use mctop::config::UiConfig;
use mctop::metrics::{
    DiskUsage, HeapStats, MsptReading, MsptWindow, Players, ProcessStats, Region, RegionReport, TpsReading,
    WorldUsage, UNIT,
};
use mctop::app::Tab;
use mctop::metrics::Link;
use mctop::panels::{
    command_line, footer_keys, header, collector_panel, cpu_tile, heap_panel, heap_tile, memory_panel, mspt_tile, processor_panel, region_cells,
    region_panel, storage_panel, summary_panel, tps_tile, world_cells, Paint, Row, Tone,
};
use mctop::panels::{chart_frame, explain_absence, heap_unavailable_rows, no_worlds, process_unavailable_rows};
use mctop::view::Unavailable;
use mctop::view::{Health, Thresholds};

fn limits() -> Thresholds {
    Thresholds::new(&UiConfig::default())
}

fn field(row: &Row) -> (&str, &str, Health) {
    match row {
        Row::Field { label, value, health } => (label.as_str(), value.as_str(), *health),
        other => panic!("expected a field, got {other:?}"),
    }
}

fn stats() -> ProcessStats {
    ProcessStats {
        pid: 4242,
        cpu_percent: 250 * UNIT,
        rss: 6 << 30,
        virtual_size: 12 << 30,
        threads: Some(180),
        uptime: 3 * 86_400 + 4 * 3_600,
        cores: 8,
        load_average: Some((2_500_000, 2_000_000, 9_000_000)),
        system_memory: (12 << 30, 16 << 30),
    }
}

#[test]
fn the_processor_panel_judges_load_against_the_cores() {
    let rows = processor_panel(&stats(), &limits());
    assert_eq!(field(&rows[0]), ("Server process", "250.0% of one core", Health::Good));
    assert_eq!(field(&rows[1]), ("Share of machine", "31.2%", Health::Good));
    assert!(matches!(rows[2], Row::Meter { fraction: 312_500, health: Health::Good }));
    assert_eq!(rows[3], Row::Blank);
    assert_eq!(field(&rows[6]), ("Uptime", "3d 4h", Health::Unknown));
    assert_eq!(field(&rows[7]), ("PID", "4242", Health::Unknown));
    assert_eq!(field(&rows[9]), ("Load average 1m", "2.50", Health::Good));
    // Nine runnable tasks on eight cores is work queueing.
    assert_eq!(field(&rows[11]), ("Load average 15m", "9.00", Health::Bad));
}

#[test]
fn an_estimated_heap_floor_says_so() {
    let heap = HeapStats {
        used: Some(3 << 30),
        committed: Some(4 << 30),
        max: Some(8 << 30),
        after_gc: Some(2 << 30),
        after_gc_measured: false,
        ..HeapStats::default()
    };
    let rows = heap_panel(&heap, &limits());
    assert_eq!(field(&rows[1]), ("After collection (est.)", "2.0 GiB", Health::Good));
    assert_eq!(field(&rows[5]), ("Occupancy after GC", "25.0%", Health::Good));
    assert!(matches!(
        rows.last(),
        Some(Row::Note { tone: Tone::Label, .. })
    ));
    let measured = HeapStats {
        after_gc_measured: true,
        ..heap.clone()
    };
    let rows = heap_panel(&measured, &limits());
    assert_eq!(field(&rows[1]).0, "After collection");
    assert_eq!(rows.len(), 9);
}

#[test]
fn the_collector_panel_needs_statistics() {
    assert!(collector_panel(&HeapStats::default(), &None).is_none());
    let heap = HeapStats {
        young_collections: Some(1_284),
        full_collections: Some(21),
        gc_seconds: Some(12_500_000),
        gc_load: Some(40_000),
        ..HeapStats::default()
    };
    let rows = collector_panel(&heap, &Some(stats())).unwrap();
    assert_eq!(field(&rows[0]), ("Recent GC load", "4.0%", Health::Warn));
    assert_eq!(field(&rows[3]), ("Young collections", "1\u{202f}284", Health::Unknown));
    assert_eq!(field(&rows[4]), ("Full collections", "21", Health::Warn));
    assert_eq!(field(&rows[5]), ("Total time collecting", "12s", Health::Unknown));
    assert_eq!(field(&rows[6]).0, "Share of lifetime");
}

#[test]
fn memory_beyond_the_heap_is_the_difference() {
    let heap = HeapStats {
        used: Some(4 << 30),
        ..HeapStats::default()
    };
    let rows = memory_panel(&stats(), &heap, &limits());
    assert_eq!(field(&rows[2]), ("Beyond the heap", "2.0 GiB", Health::Unknown));
    assert_eq!(field(&rows[4]), ("Machine memory", "12.0 GiB / 16.0 GiB", Health::Warn));
    assert_eq!(field(&rows[7]), ("Server share", "37.5%", Health::Unknown));
}

fn region(world: &str, chunk: (i64, i64), utilisation: i64) -> Region {
    Region {
        world: Some(world.into()),
        chunk: Some(chunk),
        tps: Some(14_200_000),
        mspt: Some(48_600_000),
        utilisation: Some(utilisation),
        players: Some(1),
        entities: Some(4_102),
        chunks: Some(1_204),
    }
}

#[test]
fn the_summary_names_the_busiest_region() {
    let regions = RegionReport {
        regions: vec![region("world", (-12, 44), 64_000), region("world", (96, -8), 972_000)],
        total: Some(4),
        threads: Some(6),
    };
    let players = Players {
        online: 47,
        max: Some(120),
        names: Vec::new(),
    };
    let rows = summary_panel(
        &players,
        &regions,
        &None,
        &HeapStats::default(),
        &DiskUsage::default(),
        &limits(),
        32,
    );
    assert_eq!(field(&rows[0]), ("Players", "47 / 120", Health::Unknown));
    assert_eq!(field(&rows[1]), ("Regions", "4", Health::Unknown));
    assert_eq!(field(&rows[2]), ("Region threads", "6", Health::Unknown));
    assert_eq!(
        rows[4],
        Row::Note {
            text: "  world (96, -8)".into(),
            tone: Tone::Value
        }
    );
    assert_eq!(field(&rows[5]), ("  tick budget used", "97.2%", Health::Bad));
    assert_eq!(rows[6], Row::Blank);
    assert_eq!(rows.len(), 7);
}

#[test]
fn the_summary_shows_disk_space_when_worlds_were_measured() {
    let disk = DiskUsage {
        worlds: vec![WorldUsage {
            name: "world".into(),
            path: "/srv/world".into(),
            bytes: 1 << 30,
            files: 10,
            region_bytes: 0,
            entity_bytes: 0,
            poi_bytes: 0,
            partial: false,
        }],
        free: Some((1 << 30, 4 << 30)),
        scanned_at: None,
        scanning: false,
    };
    let rows = summary_panel(
        &Players::default(),
        &RegionReport::default(),
        &None,
        &HeapStats::default(),
        &disk,
        &limits(),
        32,
    );
    assert_eq!(field(&rows[3]), ("Worlds on disk", "1.0 GiB", Health::Unknown));
    assert_eq!(field(&rows[4]), ("Disk free", "1.0 GiB", Health::Warn));
    assert!(matches!(rows[5], Row::Meter { fraction: 750_000, .. }));

    let (left, right) = storage_panel(&disk, 120, &limits());
    assert_eq!(field(&left[3]), ("Rescan every", "2m 0s", Health::Unknown));
    assert_eq!(field(&right[5]), ("Worlds' share of it", "25.0%", Health::Unknown));
    let cells = world_cells(&disk.worlds[0], 1 << 30);
    assert_eq!(cells.share_text, "100%");
}

#[test]
fn a_region_is_placed_in_blocks_and_judged_by_its_tick() {
    let (place, state) = region_panel(&region("world", (96, -8), 972_000), &limits());
    assert_eq!(field(&place[3]), ("Centre chunk", "96, -8", Health::Unknown));
    assert_eq!(field(&place[4]), ("Block position", "1536, -128", Health::Unknown));
    assert_eq!(field(&state[0]), ("Tick rate", "14.20 tps", Health::Bad));
    assert_eq!(field(&state[1]), ("Tick time", "48.60 ms", Health::Bad));
    assert_eq!(
        field(&state[4]),
        ("Players · entities · chunks", "1 · 4102 · 1204", Health::Unknown)
    );
    let cells = region_cells(&region("world", (96, -8), 972_000), &limits());
    assert_eq!(cells.tps, "14.20");
    assert_eq!(cells.mspt, "48.6");
    assert_eq!(cells.entities, "4\u{202f}102");
    assert_eq!(cells.load, "97.2%");
}

#[test]
fn the_tiles_fall_back_to_shorter_renderings() {
    let tps = TpsReading {
        windows: vec![
            ("5s".into(), 19_870_000),
            ("1m".into(), 19_950_000),
            ("5m".into(), 17_000_000),
        ],
    };
    let tile = tps_tile(&tps, &limits());
    assert_eq!(tile.values, vec!["19.87".to_owned(), format!("{:.1}", 19.87f64)]);
    assert_eq!(tile.health, Health::Good);
    let long: Vec<(&str, Paint)> = tile.captions[0]
        .iter()
        .map(|piece| (piece.text.as_str(), piece.paint))
        .collect();
    assert_eq!(long[0], ("1m ", Paint::Label));
    assert_eq!(long[1].0, format!("{:.1} ", 19.95f64));
    assert_eq!(long[3], ("17.0 ", Paint::Health(Health::Bad)));
    assert_eq!(tile.captions[1].len(), 2);

    let waiting = tps_tile(&TpsReading::default(), &limits());
    assert_eq!(waiting.values, vec!["—".to_owned(), "—".to_owned()]);
    assert_eq!(waiting.captions[0][0].text, "waiting for a reading");

    let mspt = MsptReading {
        windows: vec![(
            "5s".into(),
            MsptWindow {
                average: 4_210_000,
                minimum: 940_000,
                maximum: 46_800_000,
            },
        )],
    };
    let tile = mspt_tile(&mspt, &limits());
    assert_eq!(tile.values, vec!["4.2".to_owned(), "4".to_owned()]);
    assert_eq!(tile.unit, "ms");
    assert_eq!(tile.captions[1][1].text, "47");

    let tile = cpu_tile(&stats(), &limits());
    assert_eq!(tile.captions[0][0].text, "31.2% of 8 cores");

    assert!(heap_tile(&HeapStats::default(), &limits()).is_none());
    let heap = HeapStats {
        used: Some(3 << 30),
        max: Some(8 << 30),
        after_gc: Some(2 << 30),
        after_gc_measured: true,
        ..HeapStats::default()
    };
    let tile = heap_tile(&heap, &limits()).unwrap();
    assert_eq!(tile.values, vec!["3.0".to_owned()]);
    assert_eq!(tile.unit, "GiB");
    let caption: String = tile.captions[0].iter().map(|piece| piece.text.as_str()).collect();
    assert_eq!(caption, "after GC 2.0 / 8.0 GiB");
}

#[test]
fn the_header_says_how_far_to_trust_the_screen() {
    let players = Players {
        online: 47,
        max: Some(120),
        names: Vec::new(),
    };
    let top = header(&Link::Up, &Some(stats()), &players, true, false, Some(12_000), 120);
    assert_eq!(top.indicator, "●");
    assert_eq!(top.link, "connected");
    assert_eq!(top.link_health, Health::Good);
    assert_eq!(top.uptime.as_deref(), Some("up 3d 4h"));
    assert_eq!(top.players, "47 / 120 players");
    assert_eq!(top.flag.as_deref(), Some("stale 12s ago"));

    let narrow = header(&Link::Down("refused".into()), &Some(stats()), &players, false, true, Some(60_000), 80);
    assert_eq!(narrow.link, "down — refused");
    assert_eq!(narrow.uptime, None);
    assert_eq!(narrow.players, "— players");
    assert_eq!(narrow.flag.as_deref(), Some("PAUSED"));

    let fresh = header(&Link::Connecting, &None, &players, true, false, Some(9_999), 120);
    assert_eq!(fresh.indicator, "◌");
    assert_eq!(fresh.flag, None);
}

#[test]
fn the_footer_follows_the_keyboard() {
    let typing = footer_keys(Tab::Console, false, true, false);
    assert_eq!(typing[0], ("^C", "quit"));
    assert!(!typing.iter().any(|(key, _)| *key == "?"));
    let browsing = footer_keys(Tab::Console, true, false, true);
    assert_eq!(browsing[3], ("p", "resume"));
    assert!(browsing.contains(&("v", "console")));
    assert_eq!(browsing.last(), Some(&("?", "help")));
    let regions = footer_keys(Tab::Regions, false, false, false);
    assert!(regions.contains(&("s", "sort")));
    assert_eq!(footer_keys(Tab::Overview, false, false, false).len(), 5);
}

#[test]
fn the_command_line_keeps_the_cursor_in_view() {
    let empty = command_line("", 0, true, true, 40);
    assert_eq!(empty.title, "Command");
    assert!(empty.placeholder);
    assert_eq!(empty.cursor, 2);

    let long = "say hello to everyone on the server";
    let line = command_line(long, long.chars().count(), true, false, 12);
    assert_eq!(line.title, "Command — not connected");
    assert_eq!(line.shown, "he server");
    assert_eq!(line.cursor, 11);

    let idle = command_line("list", 0, false, true, 40);
    assert_eq!(idle.title, "Command — press Enter to type");
    assert_eq!(idle.shown, "list");
    assert!(!idle.placeholder);
}

fn note(row: &Row) -> (&str, Tone) {
    match row {
        Row::Note { text, tone } => (text.as_str(), *tone),
        other => panic!("expected a note, got {other:?}"),
    }
}

#[test]
fn an_empty_regions_tab_on_folia_names_the_command_it_tried() {
    let rows = explain_absence(true, "tps --regions");
    assert_eq!(rows.len(), 5);
    assert_eq!(rows[0], Row::Blank);
    assert_eq!(
        note(&rows[3]),
        (
            "mctop asked it to run `tps --regions`. Check the Log tab for the raw response, and set",
            Tone::Label
        )
    );
}

#[test]
fn an_empty_regions_tab_elsewhere_explains_that_regions_are_folias() {
    let rows = explain_absence(false, "tps");
    assert_eq!(rows.len(), 6);
    assert_eq!(note(&rows[1]), ("No per-region detail is available.", Tone::Value));
}

#[test]
fn an_empty_worlds_tab_says_whether_a_scan_is_running() {
    let scanning = no_worlds(true);
    assert_eq!(note(&scanning[1]), ("Measuring\u{2026}", Tone::Value));
    let idle = no_worlds(false);
    assert_eq!(idle.len(), 8);
    assert_eq!(note(&idle[6]), ("    [[world]]", Tone::Info));
}

#[test]
fn a_refused_heap_puts_the_process_error_and_remedy_first() {
    let rows = heap_unavailable_rows(&Unavailable::ToolFailed(Some("permission denied".to_owned())), Some(4242));
    assert_eq!(
        note(&rows[1]),
        ("Process 4242 was found, but its heap could not be read.", Tone::Value)
    );
    assert_eq!(note(&rows[3]), ("permission denied", Tone::Warn));
    assert_eq!(note(&rows[5]), ("Run mctop as the user that owns the server:", Tone::Value));
    assert_eq!(rows.len(), 9);
    let bare = heap_unavailable_rows(&Unavailable::ToolFailed(None), None);
    assert_eq!(note(&bare[1]).0, "Process ? was found, but its heap could not be read.");
    assert_eq!(bare.len(), 7);
    let off = heap_unavailable_rows(&Unavailable::HeapOff, None);
    assert_eq!(off.len(), 2);
    assert_eq!(note(&off[1]).0, "Heap readings are disabled in the config.");
}

#[test]
fn a_missing_process_is_explained_by_why() {
    let off = process_unavailable_rows(&Unavailable::SamplingOff);
    assert_eq!(note(&off[1]).0, "Process sampling is disabled in the config.");
    let none = process_unavailable_rows(&Unavailable::NoProcess);
    assert_eq!(note(&none[1]).0, "No matching Java process on this machine.");
    assert_eq!(none.len(), 4);
}

#[test]
fn a_tick_rate_chart_keeps_its_baseline_and_gets_headroom() {
    // Readings between 19.5 and 20: the axis covers 18 to 20, then a tenth of
    // a unit above; the floor is above zero, so a tenth below as well.
    let frame = chart_frame(Some((19_500_000, 20_000_000)), Some((18 * UNIT, 20 * UNIT)), Some(-90_000));
    assert_eq!(frame.low, 17_900_000);
    assert_eq!(frame.high, 20_100_000);
    assert_eq!(frame.values.0, format!("{:.0}", 17.9f64));
    assert_eq!(frame.values.1, "19");
    assert_eq!(frame.values.2, "20");
    assert_eq!(frame.reach, 90_000);
    assert_eq!(frame.oldest, "-90s");
}

#[test]
fn a_flat_chart_is_one_unit_tall_and_reaches_back_a_second_at_least() {
    let frame = chart_frame(Some((0, 0)), None, Some(-10));
    // Zero to one, with a twentieth above and none below a floor of zero.
    assert_eq!((frame.low, frame.high), (0, 1_050_000));
    assert_eq!(frame.reach, 1000);
    assert_eq!(frame.oldest, "-1s");
    let tick_time = chart_frame(Some((3 * UNIT, 80 * UNIT)), Some((0, 50 * UNIT)), None);
    assert_eq!((tick_time.low, tick_time.high), (0, 84_000_000));
    assert_eq!(tick_time.values.2, "84");
}
