use std::time::Duration;

use mctop::format::{ago, bytes, bytes_parts, count, duration, fixed, optional, percent, span};

#[test]
fn scales_byte_sizes() {
    assert_eq!(bytes(0), "0 B");
    assert_eq!(bytes(999), "999 B");
    assert_eq!(bytes(1024), "1.0 KiB");
    assert_eq!(bytes(4_509_715_660), "4.2 GiB");
    assert_eq!(bytes(500 * 1024 * 1024), "500 MiB");
}

#[test]
fn byte_parts_agree_with_the_joined_form() {
    assert_eq!(bytes_parts(0), ("0".into(), "B"));
    assert_eq!(bytes_parts(4_509_715_660), ("4.2".into(), "GiB"));
    let (number, unit) = bytes_parts(1024);
    assert_eq!(format!("{number} {unit}"), bytes(1024));
}

#[test]
fn abbreviates_durations() {
    assert_eq!(duration(Duration::from_millis(450).as_millis()), "450ms");
    assert_eq!(duration(Duration::from_secs(45).as_millis()), "45s");
    assert_eq!(duration(Duration::from_secs(750).as_millis()), "12m 30s");
    assert_eq!(duration(Duration::from_secs(3 * 3600 + 240).as_millis()), "3h 4m");
    assert_eq!(
        duration(Duration::from_secs(3 * 86_400 + 4 * 3600).as_millis()),
        "3d 4h"
    );
}

#[test]
fn axis_spans_round_to_a_single_unit() {
    assert_eq!(span(45_000), "45s");
    assert_eq!(span(163_000), "3m");
    assert_eq!(span(7_200_000), "2h");
    assert_eq!(span(-5_000), "0s");
}

#[test]
fn describes_how_long_ago() {
    assert_eq!(ago(Duration::from_secs(1).as_millis()), "just now");
    assert_eq!(ago(Duration::from_secs(12).as_millis()), "12s ago");
    assert_eq!(ago(Duration::from_secs(240).as_millis()), "4m 0s ago");
}

#[test]
fn renders_percentages() {
    assert_eq!(percent(64_000), "6.4%");
    assert_eq!(percent(1_000_000), "100%");
    assert_eq!(percent(0), "0.0%");
}

#[test]
fn groups_digits() {
    assert_eq!(count(7), "7");
    assert_eq!(count(1_284_302), "1\u{202f}284\u{202f}302");
}

#[test]
fn missing_values_read_as_a_dash() {
    assert_eq!(optional(None::<u64>, bytes), "\u{2014}");
    assert_eq!(optional(Some(1024), bytes), "1.0 KiB");
}

// Further cases.

#[test]
fn large_sizes_stop_at_pebibytes() {
    assert_eq!(bytes(u64::MAX), "16384 PiB");
    assert_eq!(bytes(1023), "1023 B");
    assert_eq!(bytes(1_048_575), "1024 KiB");
    assert_eq!(bytes(1_048_576), "1.0 MiB");
    assert_eq!(bytes(104_857_600), "100 MiB");
}

#[test]
fn halfway_tenths_round_to_even() {
    // 1.25 KiB and 1.75 KiB sit exactly between two tenths.
    assert_eq!(bytes(1280), "1.2 KiB");
    assert_eq!(bytes(1792), "1.8 KiB");
}

#[test]
fn sizes_match_the_double_they_come_from() {
    for value in [0u64, 1, 1023, 1024, 1536, 123_456_789, 9_007_199_254_740_993, u64::MAX - 1] {
        let scaled = {
            let mut v = value as f64;
            let mut unit = 0;
            while v >= 1024.0 && unit < 5 {
                v /= 1024.0;
                unit += 1;
            }
            if unit == 0 || v >= 100.0 { format!("{v:.0}") } else { format!("{v:.1}") }
        };
        assert_eq!(bytes_parts(value).0, scaled, "for {value}");
    }
}

#[test]
fn durations_under_a_second_read_in_milliseconds() {
    assert_eq!(duration(0), "0ms");
    assert_eq!(duration(999), "999ms");
    assert_eq!(duration(1_000), "1s");
}

#[test]
fn negative_and_large_percentages() {
    assert_eq!(percent(-5), "-0.0%");
    assert_eq!(percent(2_345_000), "235%");
    assert_eq!(percent(999_949), "100.0%");
}

#[test]
fn spans_switch_units_past_ninety() {
    assert_eq!(span(90_000), "90s");
    assert_eq!(span(91_000), "2m");
    assert_eq!(span(5_400_000), "90m");
    assert_eq!(span(5_401_000), "2h");
}

#[test]
fn fixed_places_print_as_the_double_would() {
    let mut values: Vec<i64> = (-2_000_000..2_000_000).step_by(1_234).collect();
    // Readings reported to two places and shown to one: every one of these
    // sits exactly halfway, and the double decides which way it goes.
    for hundredths in 0..4_000i64 {
        values.push(hundredths * 10_000 + 5_000);
        values.push(hundredths * 1_000 + 500);
        values.push(-(hundredths * 10_000 + 5_000));
    }
    values.extend([0, 1, -1, 250_000, 125_000, 375_000, 999_999_999_995, i64::MAX, i64::MIN + 1]);
    for value in values {
        for places in 0..=2u32 {
            let expected = format!("{:.*}", places as usize, value as f64 / 1_000_000.0);
            assert_eq!(fixed(value, places), expected, "{value} to {places} places");
        }
    }
}

#[test]
fn a_tick_rate_of_nineteen_ninety_five_shows_as_the_double_does() {
    assert_eq!(fixed(19_950_000, 1), format!("{:.1}", 19.95f64));
    assert_eq!(fixed(19_950_000, 2), "19.95");
    assert_eq!(fixed(250_000, 1), "0.2");
}

fn percent_of_double(fraction: f64) -> String {
    let value = fraction * 100.0;
    if value >= 100.0 {
        format!("{value:.0}%")
    } else {
        format!("{value:.1}%")
    }
}

#[test]
fn percentages_print_as_the_hundredfold_double_would() {
    // 0.0645 * 100.0 lands just above 6.45, and 0.0015 * 100.0 just below 0.15.
    assert_eq!(percent(64_500), "6.5%");
    assert_eq!(percent(1_500), "0.1%");
    let mut values: Vec<i64> = Vec::new();
    for v in 0..200_000i64 {
        values.push(v * 5);
        values.push(-(v * 5) - 1);
    }
    for v in [
        999_949, 999_950, 999_999, 1_000_000, 1_004_999, 1_005_000, 1_015_000, 2_345_000, 123_456_789,
        4_503_599_627_370_495, -4_503_599_627_370_495,
    ] {
        values.push(v);
    }
    for v in values {
        assert_eq!(percent(v), percent_of_double(v as f64 / 1_000_000.0), "fraction {v}");
    }
}
