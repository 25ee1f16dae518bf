use mctop::metrics::{HeapStats, History, Region, RegionReport, UNIT};

#[test]
fn history_drops_the_oldest_sample() {
    let mut history = History::new(3);
    for (at, value) in [(0u64, 1 * UNIT), (1, 2 * UNIT), (2, 3 * UNIT), (3, 4 * UNIT)] {
        history.push_at(at, value);
    }
    assert_eq!(history.tail(10), vec![2 * UNIT, 3 * UNIT, 4 * UNIT]);
    assert_eq!(history.last(), Some(4 * UNIT));
    assert_eq!(history.bounds(), Some((2 * UNIT, 4 * UNIT)));
}

#[test]
fn history_points_run_backwards_from_zero() {
    let mut history = History::new(4);
    let now: u64 = 1_000_000;
    history.push_at(now - 2_000, UNIT);
    history.push_at(now, 2 * UNIT);

    let points = history.points(10);
    assert_eq!(points.len(), 2);
    assert!((points[0].0 + 2_000).abs() < 50);
    assert_eq!(points[1].0, 0);
}

#[test]
fn history_min_over_a_window_ignores_older_samples() {
    let mut history = History::new(8);
    let now: u64 = 10_000_000;
    history.push_at(now - 600_000, UNIT);
    history.push_at(now - 10_000, 5 * UNIT);
    history.push_at(now, 7 * UNIT);

    assert_eq!(history.min_over(60_000), Some(5 * UNIT));
    assert_eq!(history.min_over(3_600_000), Some(UNIT));
}

#[test]
fn region_pressure_prefers_utilisation_then_mspt_then_tps() {
    let region = Region {
        utilisation: Some(800_000),
        mspt: Some(50 * UNIT),
        tps: Some(10 * UNIT),
        ..Region::default()
    };
    assert_eq!(region.pressure(), 800_000);

    let region = Region {
        mspt: Some(25 * UNIT),
        tps: Some(10 * UNIT),
        ..Region::default()
    };
    assert_eq!(region.pressure(), 500_000);

    let region = Region {
        tps: Some(10 * UNIT),
        ..Region::default()
    };
    assert_eq!(region.pressure(), 2 * UNIT);
    assert_eq!(Region::default().pressure(), 0);
}

#[test]
fn region_labels_degrade_gracefully() {
    let region = Region {
        world: Some("world".into()),
        chunk: Some((-12, 44)),
        ..Region::default()
    };
    assert_eq!(region.label(), "world (-12, 44)");
    assert_eq!(Region::default().label(), "region");
}

#[test]
fn worst_region_is_the_one_under_most_pressure() {
    let report = RegionReport {
        regions: vec![
            Region {
                world: Some("a".into()),
                utilisation: Some(200_000),
                ..Region::default()
            },
            Region {
                world: Some("b".into()),
                utilisation: Some(900_000),
                ..Region::default()
            },
        ],
        ..RegionReport::default()
    };
    assert_eq!(report.worst().unwrap().world.as_deref(), Some("b"));
}

#[test]
fn heap_pressure_needs_both_ends() {
    let heap = HeapStats {
        after_gc: Some(2 << 30),
        max: Some(4 << 30),
        ..HeapStats::default()
    };
    assert_eq!(heap.pressure(), Some(UNIT / 2));
    assert_eq!(HeapStats::default().pressure(), None);
}

#[test]
fn a_full_history_keeps_its_capacity() {
    let mut history = History::new(2);
    for at in 0..10u64 {
        history.push_at(at, at as i64);
    }
    assert_eq!(history.len(), 2);
    assert_eq!(history.tail(5), vec![8, 9]);
}

#[test]
fn a_region_with_only_a_chunk_is_labelled_by_it() {
    let region = Region {
        chunk: Some((3, -4)),
        ..Region::default()
    };
    assert_eq!(region.label(), "(3, -4)");
}
