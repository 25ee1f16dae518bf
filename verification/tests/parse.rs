use mctop::metrics::MsptWindow;
use mctop::source::parse::{
    is_metric_word, parse_mspt, parse_players, parse_regions, parse_tps, parse_version,
    strip_formatting,
};

/// A reading in millionths as the decimal it stands for.
fn units(value: i64) -> f64 {
    value as f64 / 1_000_000.0
}

fn windows(pairs: &[(String, i64)]) -> Vec<(String, f64)> {
    pairs.iter().map(|(label, value)| (label.clone(), units(*value))).collect()
}

fn window(average: f64, minimum: f64, maximum: f64) -> MsptWindow {
    MsptWindow {
        average: (average * 1_000_000.0).round() as i64,
        minimum: (minimum * 1_000_000.0).round() as i64,
        maximum: (maximum * 1_000_000.0).round() as i64,
    }
}

#[test]
fn strips_section_codes_and_ansi() {
    assert_eq!(strip_formatting("\u{a7}6TPS: \u{a7}a20.0"), "TPS: 20.0");
    assert_eq!(strip_formatting("\x1b[32mgreen\x1b[0m"), "green");
}

#[test]
fn reads_paper_tps() {
    let raw = "\u{a7}6TPS from last 1m, 5m, 15m: \u{a7}a*20.0\u{a7}6, \u{a7}a19.87\u{a7}6, \u{a7}a19.94";
    let tps = parse_tps(raw);
    assert_eq!(
        windows(&tps.windows),
        vec![
            ("1m".to_string(), 20.0),
            ("5m".to_string(), 19.87),
            ("15m".to_string(), 19.94),
        ]
    );
    assert_eq!(tps.current().map(units), Some(20.0));
    assert_eq!(tps.window("15m").map(units), Some(19.94));
}

#[test]
fn reads_folia_style_tps_with_extra_windows() {
    let raw = "TPS from last 5s, 15s, 1m, 5m, 15m: 20.0, 19.9, 19.8, 19.7, 19.6";
    let tps = parse_tps(raw);
    assert_eq!(tps.windows.len(), 5);
    assert_eq!(windows(&tps.windows)[0], ("5s".to_string(), 20.0));
    assert_eq!(tps.current().map(units), Some(20.0));
}

#[test]
fn tps_ignores_per_region_lines() {
    let raw = "\
Server TPS from last 1m, 5m, 15m: 19.5, 19.6, 19.7
Region world (0, 0): TPS 12.0";
    assert_eq!(parse_tps(raw).current().map(units), Some(19.5));
}

#[test]
fn tps_labels_positionally_without_a_header() {
    let tps = parse_tps("TPS: 20.0 20.0");
    assert_eq!(
        windows(&tps.windows),
        vec![("#1".to_string(), 20.0), ("#2".to_string(), 20.0)]
    );
}

#[test]
fn unparseable_tps_is_empty_rather_than_guessed() {
    assert!(parse_tps("Unknown command").windows.is_empty());
    assert_eq!(parse_tps("").current(), None);
}

#[test]
fn reads_paper_mspt() {
    let raw = "\u{a7}6Server tick times \u{a7}e(\u{a7}aavg\u{a7}e/\u{a7}amin\u{a7}e/\u{a7}amax\u{a7}e)\u{a7}6 from last 5s, 10s, 1m:\n\
\u{a7}6\u{25f4} \u{a7}a1.05\u{a7}e/\u{a7}a0.40\u{a7}e/\u{a7}a12.30\u{a7}6, \u{a7}a1.10/0.42/18.00\u{a7}6, \u{a7}a1.20/0.39/44.10";
    let mspt = parse_mspt(raw);
    assert_eq!(mspt.windows.len(), 3);
    assert_eq!(mspt.windows[0].0, "5s");
    assert_eq!(mspt.windows[0].1, window(1.05, 0.40, 12.30));
    assert_eq!(units(mspt.current().unwrap().maximum), 12.30);
    assert_eq!(units(mspt.windows[2].1.maximum), 44.10);
}

#[test]
fn reads_a_bare_mspt_average() {
    let mspt = parse_mspt("Current MSPT: 4.2");
    assert_eq!(mspt.current(), Some(window(4.2, 4.2, 4.2)));
}

#[test]
fn unparseable_mspt_is_empty() {
    assert!(parse_mspt("Unknown command").windows.is_empty());
}

#[test]
fn reads_regions_written_as_key_value_pairs() {
    let raw = "\
Total Regions: 3
Region Threads: 4
Region 1: world=world, chunk=(12, -4), tps=19.90, mspt=3.20, util=6.4%, players=3, entities=120, chunks=441
Region 2: world=world_nether, chunk=(-30, 8), tps=20.00, mspt=1.10, util=2.2%, players=0, entities=14, chunks=90";

    let report = parse_regions(raw);
    assert_eq!(report.total, Some(3));
    assert_eq!(report.threads, Some(4));
    assert_eq!(report.regions.len(), 2);

    let first = &report.regions[0];
    assert_eq!(first.world.as_deref(), Some("world"));
    assert_eq!(first.chunk, Some((12, -4)));
    assert_eq!(first.tps.map(units), Some(19.90));
    assert_eq!(first.mspt.map(units), Some(3.20));
    assert_eq!(first.players, Some(3));
    assert_eq!(first.entities, Some(120));
    assert_eq!(first.chunks, Some(441));
    assert!((units(first.utilisation.unwrap()) - 0.064).abs() < 1e-9);
    assert_eq!(report.worst().unwrap().world.as_deref(), Some("world"));
}

#[test]
fn reads_regions_written_as_prose() {
    let raw = "\
Region world (12, -4): TPS 19.98, MSPT 3.21, Util 6.4%
Region world_the_end (-30, 8): TPS 20.00, MSPT 1.05, Util 2.1%";

    let report = parse_regions(raw);
    assert_eq!(report.regions.len(), 2);
    assert_eq!(report.regions[1].world.as_deref(), Some("world_the_end"));
    assert_eq!(report.regions[1].chunk, Some((-30, 8)));
    assert_eq!(report.regions[1].tps.map(units), Some(20.00));
    // Absent totals fall back to the number of regions actually detailed.
    assert_eq!(report.total, Some(2));
}

#[test]
fn reads_regions_written_as_indented_blocks() {
    let raw = "\
Region [world, (0, 0)]:
  TPS: 20.0
  MSPT: 2.5
  Utilisation: 5.0%
Region [world_nether, (4, 4)]:
  TPS: 18.2
  MSPT: 27.4
  Utilisation: 54.8%";

    let report = parse_regions(raw);
    assert_eq!(report.regions.len(), 2);
    assert_eq!(report.regions[0].world.as_deref(), Some("world"));
    assert_eq!(report.regions[1].mspt.map(units), Some(27.4));
    assert!((units(report.regions[1].utilisation.unwrap()) - 0.548).abs() < 1e-9);
    assert_eq!(
        report.worst().unwrap().world.as_deref(),
        Some("world_nether")
    );
}

#[test]
fn utilisation_given_as_a_fraction_is_left_alone() {
    let report = parse_regions("Region world (0, 0): util=0.42");
    assert_eq!(report.regions[0].utilisation.map(units), Some(0.42));
}

#[test]
fn a_report_without_regions_yields_none() {
    let report = parse_regions("TPS from last 1m, 5m, 15m: 20.0, 20.0, 20.0");
    assert!(report.regions.is_empty());
    assert_eq!(report.total, None);
}

#[test]
fn reads_the_player_list() {
    let raw = "There are 3 of a max of 20 players online: alice, bob, carol";
    let players = parse_players(raw);
    assert_eq!(players.online, 3);
    assert_eq!(players.max, Some(20));
    assert_eq!(players.names, vec!["alice", "bob", "carol"]);
}

#[test]
fn reads_a_slash_separated_player_list() {
    let players = parse_players("There are 1/60 players online: dave");
    assert_eq!(players.online, 1);
    assert_eq!(players.max, Some(60));
    assert_eq!(players.names, vec!["dave"]);
}

#[test]
fn reads_an_empty_player_list() {
    let players = parse_players("There are 0 of a max of 20 players online:");
    assert_eq!(players.online, 0);
    assert_eq!(players.max, Some(20));
    assert!(players.names.is_empty());
}

#[test]
fn reads_the_folia_version() {
    let raw = "This server is running Folia version 1.21.4-DEV-a1b2c3d (MC: 1.21.4) (Implementing API version 1.21.4-R0.1-SNAPSHOT)";
    let identity = parse_version(raw);
    assert_eq!(identity.flavour.as_deref(), Some("Folia"));
    assert_eq!(identity.minecraft_version.as_deref(), Some("1.21.4"));
    assert!(identity.is_folia());
    assert_eq!(identity.summary(), "Folia 1.21.4");
}

#[test]
fn reads_the_paper_version() {
    let identity =
        parse_version("This server is running Paper version git-Paper-196 (MC: 1.20.4)");
    assert_eq!(identity.flavour.as_deref(), Some("Paper"));
    assert!(!identity.is_folia());
}

#[test]
fn an_unrecognised_version_still_keeps_the_raw_line() {
    let identity = parse_version("some custom build");
    assert_eq!(identity.flavour, None);
    assert_eq!(identity.raw.as_deref(), Some("some custom build"));
    assert_eq!(identity.summary(), "unknown");
}

// Further cases, on the edges of the patterns.

#[test]
fn a_bare_version_needs_a_word_boundary_after_it() {
    let identity = parse_version("built from 1.21.4a and 1.20");
    assert_eq!(identity.minecraft_version.as_deref(), Some("1.21"));
    let identity = parse_version("made for 1.21.x");
    assert_eq!(identity.minecraft_version.as_deref(), Some("1.21"));
}

#[test]
fn the_mc_group_is_trimmed_inside_its_brackets() {
    let identity = parse_version("running Purpur version 7 ( mc :  1.21.1  )");
    assert_eq!(identity.flavour.as_deref(), Some("Purpur"));
    assert_eq!(identity.minecraft_version.as_deref(), Some("1.21.1"));
}

#[test]
fn the_first_filled_line_is_the_one_read() {
    let identity = parse_version("\n   \n  Paper 1.20.1  \nsecond line");
    assert_eq!(identity.raw.as_deref(), Some("Paper 1.20.1"));
    assert_eq!(identity.minecraft_version.as_deref(), Some("1.20.1"));
    assert_eq!(parse_version("   ").raw, None);
}

#[test]
fn a_header_without_a_world_name_falls_back_to_a_region_digit() {
    let report = parse_regions("Region 12, tps=19.0");
    assert_eq!(report.regions.len(), 1);
    assert_eq!(report.regions[0].world.as_deref(), Some("2"));
}

#[test]
fn a_metric_is_never_taken_for_a_world() {
    let report = parse_regions("Region tps=19.0");
    assert_eq!(report.regions[0].world, None);
    assert!(is_metric_word("TPS"));
    assert!(is_metric_word("Utilization"));
    assert!(!is_metric_word("world"));
}

#[test]
fn counts_clamp_at_zero_and_drop_fractions() {
    let report = parse_regions("Region world: players=-3, entities=7.9, chunks=12");
    let region = &report.regions[0];
    assert_eq!(region.players, Some(0));
    assert_eq!(region.entities, Some(7));
    assert_eq!(region.chunks, Some(12));
}

#[test]
fn numbers_beyond_six_decimals_are_cut() {
    let tps = parse_tps("TPS: 19.12345678");
    assert_eq!(tps.current(), Some(19_123_456));
}

#[test]
fn a_count_too_large_for_u32_is_skipped_for_the_next_line() {
    let report = parse_regions("Total regions: 99999999999\nRegions: 7");
    assert_eq!(report.total, Some(7));
}

#[test]
fn a_trailing_name_list_counts_the_players() {
    let players = parse_players("online: erin, frank");
    assert_eq!(players.online, 2);
    assert_eq!(players.max, None);
}

#[test]
fn a_long_s_and_kelvin_sign_match_their_letters_when_case_is_ignored() {
    let tps = parse_tps("TPS from la\u{17f}t 1m: 20.0");
    assert_eq!(tps.windows[0].0, "1m");
    let report = parse_regions("Region world (1, 2): \u{212a}chun\u{212a}s=4");
    assert_eq!(report.regions[0].chunks, None);
    let report = parse_regions("Region world (1, 2): chun\u{212a}s=4");
    assert_eq!(report.regions[0].chunks, Some(4));
}
