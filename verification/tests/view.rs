use std::time::{Duration, UNIX_EPOCH};

use mctop::config::UiConfig;
use mctop::metrics::UNIT;
use mctop::source::Kind;
use mctop::view::{
    big_text, big_text_width, centred, choose_caption, choose_value, clock, clock_text,
    field_gap, fill_from_bottom, kind_marker, meter_cells, truncate, wrapped_height, Health,
    Thresholds, Unavailable,
};

#[test]
fn the_clock_wraps_at_midnight() {
    let at = UNIX_EPOCH + Duration::from_secs(86_400 + 3_661);
    assert_eq!(clock(&at), "01:01:01");
    assert_eq!(clock(&UNIX_EPOCH), "00:00:00");
}

#[test]
fn wrapped_height_counts_the_rows_a_long_reply_needs() {
    // Eighty columns leaves sixty-five for the message.
    assert_eq!(wrapped_height("short", 80), 1);
    assert_eq!(wrapped_height(&"x".repeat(65), 80), 1);
    assert_eq!(wrapped_height(&"x".repeat(66), 80), 2);
    assert_eq!(wrapped_height(&"x".repeat(130), 80), 2);
    assert_eq!(wrapped_height(&"x".repeat(131), 80), 3);

    // An empty message and an absurdly narrow box still take one row.
    assert_eq!(wrapped_height("", 80), 1);
    assert_eq!(wrapped_height("something", 4), 9);
}

#[test]
fn every_kind_marker_is_the_same_width() {
    // The markers are padded to five so the message column lines up
    // regardless of what kind of line it is.
    for kind in [Kind::Info, Kind::Warn, Kind::Error, Kind::Sent, Kind::Received] {
        let marker = kind_marker(kind);
        assert!(marker.chars().count() <= 5, "{marker:?} is too wide");
    }
    assert_eq!(kind_marker(Kind::Sent), "  \u{bb} ");
}

#[test]
fn truncation_marks_where_it_cut() {
    assert_eq!(truncate("world", 10), "world");
    assert_eq!(truncate("world_the_end", 6), "world\u{2026}");
    assert_eq!(truncate("world", 0), "");
}

#[test]
fn big_text_is_three_rows_of_equal_width() {
    let rows = big_text("19.9");
    assert_eq!(rows.len(), 3);
    let widths: Vec<usize> = rows.iter().map(|row| row.chars().count()).collect();
    assert_eq!(widths[0], widths[1]);
    assert_eq!(widths[1], widths[2]);
    assert_eq!(widths[0], big_text_width("19.9") as usize);
}

#[test]
fn big_text_handles_an_empty_string() {
    let rows = big_text("");
    assert!(rows.iter().all(String::is_empty));
    assert_eq!(big_text_width(""), 0);
}

#[test]
fn unknown_characters_become_blanks_rather_than_panicking() {
    let rows = big_text("2x");
    assert_eq!(rows[0].chars().count(), big_text_width("2x") as usize);
}

fn thresholds() -> Thresholds {
    Thresholds::new(&UiConfig::default())
}

fn units(value: f64) -> i64 {
    (value * UNIT as f64).round() as i64
}

#[test]
fn tps_health_follows_the_configured_thresholds() {
    let limits = thresholds();
    assert_eq!(limits.tps_health(Some(units(20.0))), Health::Good);
    assert_eq!(limits.tps_health(Some(units(19.5))), Health::Good);
    assert_eq!(limits.tps_health(Some(units(19.0))), Health::Warn);
    assert_eq!(limits.tps_health(Some(units(12.0))), Health::Bad);
    assert_eq!(limits.tps_health(None), Health::Unknown);
}

#[test]
fn mspt_health_is_inverted() {
    let limits = thresholds();
    assert_eq!(limits.mspt_health(Some(units(3.0))), Health::Good);
    assert_eq!(limits.mspt_health(Some(units(30.0))), Health::Warn);
    assert_eq!(limits.mspt_health(Some(units(60.0))), Health::Bad);
}

#[test]
fn thresholds_come_from_the_config() {
    let limits = Thresholds::new(&UiConfig {
        tps_good: units(20.0),
        tps_warn: units(19.9),
        ..UiConfig::default()
    });
    assert_eq!(limits.tps_health(Some(units(19.95))), Health::Warn);
}

#[test]
fn load_health_climbs_with_the_fraction() {
    let limits = thresholds();
    assert_eq!(limits.load_health(Some(units(0.5))), Health::Good);
    assert_eq!(limits.load_health(Some(units(0.8))), Health::Warn);
    assert_eq!(limits.load_health(Some(units(0.95))), Health::Bad);
}

#[test]
fn a_placeholder_is_never_set_in_large_digits() {
    let (value, big) = choose_value(&vec!["\u{2014}".to_string()], "tps", 40, 10);
    assert_eq!(value, Some(0));
    assert!(!big, "a value with no digits should stay small");

    assert!(choose_value(&vec!["19.98".to_string()], "", 40, 10).1, "a number should be enlarged");
}

#[test]
fn a_narrow_tile_falls_back_to_the_shorter_value_and_caption() {
    let values = vec!["19.98".to_string(), "20.0".to_string()];
    let captions = vec![24, 7];

    // Wide enough for the long form.
    assert_eq!(choose_value(&values, "", 40, 10).0, Some(0));
    assert_eq!(choose_caption(&captions, 40), Some(0));

    // Not wide enough; both fall back.
    assert_eq!(choose_value(&values, "", 16, 10).0, Some(1));
    assert_eq!(choose_caption(&captions, 16), Some(1));
}

#[test]
fn the_meter_fills_proportionally() {
    assert_eq!(meter_cells(units(1.0), 10), (10, 0, 0));
    assert_eq!(meter_cells(0, 10), (0, 0, 10));
    assert_eq!(meter_cells(units(0.5), 10), (5, 0, 5));
}

#[test]
fn the_meter_clamps_out_of_range_fractions() {
    assert_eq!(meter_cells(units(4.0), 6), (6, 0, 0));
    assert_eq!(meter_cells(units(-1.0), 6), (0, 0, 6));
    assert_eq!(meter_cells(units(0.5), 0), (0, 0, 0));
}

#[test]
fn fields_pad_between_label_and_value() {
    let gap = field_gap("Players", "12 / 60", 24);
    assert_eq!("Players".len() + gap + "12 / 60".len(), 24);
}

#[test]
fn a_field_too_wide_for_its_column_keeps_one_space() {
    assert_eq!(field_gap("a-very-long-label", "and-a-long-value", 4), 1);
}

#[test]
fn centring_never_leaves_the_area() {
    let area = (0, 0, 80, 24);
    assert_eq!(centred(area, 40, 10), (20, 7, 40, 10));

    // An overlay larger than the screen is clipped to it.
    let clipped = centred(area, 200, 200);
    assert_eq!((clipped.2, clipped.3), (80, 24));
}

// Further cases.

#[test]
fn a_partial_cell_is_drawn_in_eighths() {
    // 0.33 of 10 cells is 26.4 eighths, so three full cells and two eighths.
    assert_eq!(meter_cells(units(0.33), 10), (3, 2, 6));
}

#[test]
fn the_clock_reads_hours_minutes_and_seconds() {
    assert_eq!(clock_text(86_399), "23:59:59");
    assert_eq!(clock_text(86_400 * 3 + 45_296), "12:34:56");
}

#[test]
fn the_newest_lines_fill_the_box_from_the_bottom() {
    // Oldest first: heights 1, 3, 2, 1 in a box of 4 rows takes the newest two
    // and then the 3-row entry no longer fits.
    assert_eq!(fill_from_bottom(&vec![1, 3, 2, 1], 4), (2, 3));
    // The newest line is shown even when it is taller than the box.
    assert_eq!(fill_from_bottom(&vec![1, 9], 4), (1, 9));
    assert_eq!(fill_from_bottom(&vec![], 4), (0, 0));
}

#[test]
fn unavailable_reasons_are_short() {
    assert_eq!(Unavailable::NoProcess.short(), "no server process found");
    assert_eq!(Unavailable::ToolFailed(None).short(), "jstat cannot attach");
}

#[test]
fn the_region_table_gives_the_meter_what_the_name_can_spare() {
    // Wide: the name gets 30 past the fixed columns and the meter its 40.
    assert_eq!(mctop::view::region_columns(200), (44, 40));
    // Just past the point where a six-column meter fits.
    assert_eq!(mctop::view::region_columns(89), (30, 6));
    // Too narrow for a meter: the name takes what is left, at least ten.
    assert_eq!(mctop::view::region_columns(88), (35, 0));
    assert_eq!(mctop::view::region_columns(20), (10, 0));
}
