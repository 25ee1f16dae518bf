use mctop::config::CommandConfig;
use mctop::metrics::{HeapStats, Link, UNIT};
use mctop::source::engine::{heap_report, typed_command, typed_reply, Engine};
use mctop::source::{Kind, Update};

fn folia_tps() -> String {
    let mut report = String::from(
        "\u{a7}6TPS from last 5s, 15s, 1m, 5m, 15m: \u{a7}a19.87, 19.91, 19.70, 19.90, 20.00\n\
         \u{a7}6Total Regions: \u{a7}a4\n\
         \u{a7}6Region Threads: \u{a7}a6\n",
    );
    for (world, x, z, tps, mspt, util, players, entities, chunks) in [
        ("world", -12, 44, "19.98", "3.21", "6.4", 2, 812, 441),
        ("world", 96, -8, "14.20", "48.60", "97.2", 1, 4102, 1204),
        ("world_nether", 30, 8, "20.00", "1.10", "2.2", 0, 96, 121),
        ("world_the_end", -4, 2, "19.94", "4.80", "9.6", 0, 214, 289),
    ] {
        report.push_str(&format!(
            "\u{a7}6Region \u{a7}f{world} \u{a7}7({x}, {z})\u{a7}6: \
             tps=\u{a7}a{tps}\u{a7}6, mspt=\u{a7}a{mspt}\u{a7}6, util=\u{a7}a{util}%\u{a7}6, \
             players=\u{a7}a{players}\u{a7}6, entities=\u{a7}a{entities}\u{a7}6, chunks=\u{a7}a{chunks}\n"
        ));
    }
    report
}

const PAPER_TPS: &str =
    "\u{a7}6TPS from last 1m, 5m, 15m: \u{a7}a*20.0\u{a7}6, \u{a7}a19.87\u{a7}6, \u{a7}a19.94";

fn messages(updates: &[Update], kind: Kind) -> Vec<String> {
    updates
        .iter()
        .filter_map(|update| match update {
            Update::Log(entry) if entry.kind == kind => Some(entry.message.clone()),
            _ => None,
        })
        .collect()
}

#[test]
fn folia_region_detail_rides_along_with_the_tick_rate() {
    let mut engine = Engine::new(CommandConfig::default());
    let updates = engine.tps_reply(&folia_tps());
    assert_eq!(updates.len(), 2);
    match &updates[0] {
        Update::Tps(tps) => assert_eq!(tps.current(), Some(19_870_000)),
        other => panic!("expected a tick rate, got {other:?}"),
    }
    match &updates[1] {
        Update::Regions(report) => {
            assert_eq!(report.total, Some(4));
            assert_eq!(report.threads, Some(6));
            assert_eq!(report.regions.len(), 4);
            let worst = report.worst().unwrap();
            assert_eq!(worst.chunk, Some((96, -8)));
            assert_eq!(worst.pressure(), 972_000);
        }
        other => panic!("expected regions, got {other:?}"),
    }
    // The region command is the tick-rate command, so it is not run again.
    assert!(!engine.polls_regions());
}

#[test]
fn a_paper_server_reports_no_regions_and_says_so_once() {
    let mut engine = Engine::new(CommandConfig::default());
    let updates = engine.tps_reply(PAPER_TPS);
    match &updates[0] {
        Update::Tps(tps) => assert_eq!(tps.current(), Some(20 * UNIT)),
        other => panic!("expected a tick rate, got {other:?}"),
    }
    let notes = messages(&updates, Kind::Info);
    assert_eq!(notes.len(), 1);
    assert!(notes[0].contains("reported no regions"));
    assert!(!engine.regions_supported);

    // A second report says nothing more.
    let again = engine.tps_reply(PAPER_TPS);
    assert!(messages(&again, Kind::Info).is_empty());
}

#[test]
fn unreadable_output_is_reported_rather_than_invented() {
    let mut engine = Engine::new(CommandConfig::default());
    let updates = engine.tps_reply("Unknown or incomplete command, see below for error");
    let warnings = messages(&updates, Kind::Warn);
    assert_eq!(warnings.len(), 1);
    assert!(warnings[0].contains("[commands]"));
    assert!(warnings[0].contains("got `Unknown or incomplete command"));
    assert!(!updates.iter().any(|update| matches!(update, Update::Tps(_))));

    match engine.mspt_reply("") {
        Update::Log(entry) => assert!(entry.message.contains("empty response")),
        other => panic!("expected a warning, got {other:?}"),
    }
}

#[test]
fn a_refusal_to_retry_is_not_logged_each_time() {
    let (updates, response) = Engine::polled("tps", Err("waiting to reconnect to localhost:25575".into()));
    assert!(updates.is_empty());
    assert!(response.is_none());

    let (updates, response) = Engine::polled("tps", Err("connecting to localhost:1: refused".into()));
    assert_eq!(messages(&updates, Kind::Error), vec!["connecting to localhost:1: refused".to_owned()]);
    assert!(response.is_none());

    let (updates, response) = Engine::polled("tps", Ok("TPS: 20".into()));
    assert!(matches!(&updates[0], Update::Raw { command, response } if command == "tps" && response == "TPS: 20"));
    assert_eq!(response.as_deref(), Some("TPS: 20"));
}

#[test]
fn the_link_is_reported_only_when_it_changes() {
    let mut engine = Engine::new(CommandConfig::default());
    let updates = engine.link_report(Link::Up, "127.0.0.1:25575");
    assert_eq!(messages(&updates, Kind::Info), vec!["connected to 127.0.0.1:25575".to_owned()]);
    assert!(matches!(updates.last(), Some(Update::Link(Link::Up))));
    assert!(engine.link_report(Link::Up, "127.0.0.1:25575").is_empty());

    let updates = engine.link_report(Link::Down("gone".into()), "127.0.0.1:25575");
    assert_eq!(messages(&updates, Kind::Warn), vec!["disconnected: gone".to_owned()]);
}

#[test]
fn a_reconnected_server_is_asked_who_it_is_again() {
    let mut engine = Engine::new(CommandConfig::default());
    assert!(engine.asks_identity());
    engine.version_reply("This server is running Folia version 1.21.4-DEV-a1b2c3d (MC: 1.21.4)");
    assert!(!engine.asks_identity());
    engine.link_report(Link::Down("restart".into()), "h:1");
    engine.link_report(Link::Up, "h:1");
    assert!(engine.asks_identity());
}

#[test]
fn a_multi_line_reply_becomes_one_entry_per_line() {
    let updates = typed_reply(Ok("\u{a7}aline one\nline two\n\n".into()));
    assert_eq!(
        messages(&updates, Kind::Received),
        vec!["line one".to_owned(), "line two".to_owned()]
    );
    let silent = typed_reply(Ok("   ".into()));
    assert_eq!(messages(&silent, Kind::Received), vec!["(no output)".to_owned()]);
    let failed = typed_reply(Err("`list` timed out after 5s".into()));
    assert_eq!(messages(&failed, Kind::Error), vec!["`list` timed out after 5s".to_owned()]);
}

#[test]
fn a_typed_command_is_trimmed_and_blank_ones_are_dropped() {
    assert_eq!(typed_command("  list  ").as_deref(), Some("list"));
    assert_eq!(typed_command("   "), None);
}

#[test]
fn a_heap_failure_is_warned_about_once() {
    let first = heap_report(None, None, Some("jstat: not found".into()));
    assert_eq!(messages(&first, Kind::Warn).len(), 1);
    let again = heap_report(Some("jstat: not found".into()), None, Some("jstat: not found".into()));
    assert!(messages(&again, Kind::Warn).is_empty());
    let fine = heap_report(None, Some(HeapStats::default()), None);
    assert!(matches!(&fine[0], Update::Heap { stats: Some(_), error: None }));
}

#[test]
fn replies_become_the_readings_they_carry() {
    let engine = Engine::new(CommandConfig::default());
    match engine.mspt_reply("Server tick times (avg/min/max) from last 5s, 10s, 1m:\n◴ 4.2/1.1/46.8, 5.0/1.0/50.2, 6.1/0.9/61.0") {
        Update::Mspt(mspt) => {
            assert_eq!(mspt.windows.len(), 3);
            assert_eq!(mspt.windows[0].1.average, 4_200_000);
            assert_eq!(mspt.windows[0].1.maximum, 46_800_000);
        }
        other => panic!("expected a tick-time reading, got {other:?}"),
    }
    match engine.players_reply("There are 47 of a max of 120 players online: alex, steve") {
        Update::Players(players) => {
            assert_eq!(players.online, 47);
            assert_eq!(players.max, Some(120));
            assert_eq!(players.names, vec!["alex".to_owned(), "steve".to_owned()]);
        }
        other => panic!("expected players, got {other:?}"),
    }
}
