use mctop::source::jvm::parse_max_heap;

#[test]
fn reads_the_heap_ceiling_from_vm_flags() {
    let output = "-XX:CICompilerCount=4 -XX:MaxHeapSize=8589934592 -XX:+UseG1GC";
    assert_eq!(parse_max_heap(output), Some(8_589_934_592));
    assert_eq!(parse_max_heap("-XX:+UseG1GC"), None);
    assert_eq!(parse_max_heap("-XX:MaxHeapSize=0"), None);
}

#[test]
fn only_the_first_heap_flag_counts() {
    assert_eq!(parse_max_heap("-XX:MaxHeapSize=junk -XX:MaxHeapSize=4096"), None);
    assert_eq!(parse_max_heap("\n\t-XX:MaxHeapSize=4096\n"), Some(4096));
}

use mctop::config::JvmConfig;
use mctop::source::jvm::{parse_jstat, HeapWatcher};

const G1_OUTPUT: &str = "\
 S0C    S1C    S0U    S1U      EC       EU        OC         OU       MC     MU    CCSC   CCSU   YGC     YGCT    FGC    FGCT    CGC    CGCT     GCT
0.0    8192.0  0.0   8192.0  1024000.0 512000.0 3145728.0  1048576.0 51200.0 49000.0 6400.0 6000.0    182    2.451     2    0.512     4    0.201    3.164";

fn get(columns: &[(String, i64)], name: &str) -> f64 {
    let value = columns.iter().rev().find(|(n, _)| n == name).unwrap().1;
    value as f64 / 1_000_000.0
}

#[test]
fn reads_jstat_columns_by_name() {
    let columns = parse_jstat(G1_OUTPUT).unwrap();
    assert_eq!(get(&columns, "S1U"), 8192.0);
    assert_eq!(get(&columns, "OU"), 1_048_576.0);
    assert_eq!(get(&columns, "YGC"), 182.0);
    assert_eq!(get(&columns, "FGC"), 2.0);
    assert_eq!(get(&columns, "GCT"), 3.164);
}

#[test]
fn rejects_jstat_output_that_does_not_line_up() {
    assert!(parse_jstat("S0C S1C\n1.0").is_none());
    assert!(parse_jstat("").is_none());
    assert!(parse_jstat("only a header").is_none());
}

#[test]
fn a_column_without_a_figure_is_left_out() {
    let columns = parse_jstat("\n  A  B  C \n\n 1.5 - .25\n").unwrap();
    assert_eq!(columns, vec![("A".to_string(), 1_500_000), ("C".to_string(), 250_000)]);
}

#[test]
fn a_sample_reads_the_heap_and_spots_collections() {
    let mut watcher = HeapWatcher::new(&JvmConfig::default());
    assert!(watcher.wants_max_heap());
    assert!(!watcher.wants_max_heap());
    watcher.take_max_heap(Ok("-XX:MaxHeapSize=8589934592".into()));
    assert_eq!(watcher.max_heap, Some(8_589_934_592));

    let first = watcher.take_sample(1_000, 4242, Ok(G1_OUTPUT.into())).unwrap();
    // S0U + S1U + EU + OU, in kilobytes.
    assert_eq!(first.used, Some((8192 + 512_000 + 1_048_576) * 1024));
    assert_eq!(first.committed, Some((8192 + 1_024_000 + 3_145_728) * 1024));
    assert_eq!(first.max, Some(8_589_934_592));
    assert_eq!(first.young_collections, Some(182));
    assert_eq!(first.full_collections, Some(2));
    assert_eq!(first.after_gc, first.used);
    assert!(!first.after_gc_measured, "no collection has been seen yet");
    assert_eq!(first.gc_load, None);

    // One more young collection, and half a second of collector time in two
    // seconds of wall clock.
    let later = G1_OUTPUT.replace("    182    2.451", "    183    2.951").replace("3.164", "3.664");
    let second = watcher.take_sample(3_000, 4242, Ok(later)).unwrap();
    assert!(second.after_gc_measured);
    assert_eq!(second.gc_load, Some(250_000));
    assert!(watcher.last_error.is_none());
}

#[test]
fn a_failed_tool_is_reported_with_its_name() {
    let mut watcher = HeapWatcher::new(&JvmConfig::default());
    assert!(watcher.take_sample(0, 7, Err("not found".into())).is_none());
    assert_eq!(watcher.last_error.as_deref(), Some("jstat: not found"));
    assert!(watcher.take_sample(0, 7, Ok("garbage".into())).is_none());
    assert_eq!(
        watcher.last_error.as_deref(),
        Some("could not read `jstat -gc 7` output")
    );
}

#[test]
fn columns_read_every_form_a_double_parse_takes() {
    let columns = parse_jstat("A B C D E F G H\n1.5E3 2e-3 +.5e1 5. 1e400 1e-400 inf 0e99999999999999999999999\n").unwrap();
    assert_eq!(
        columns,
        vec![
            ("A".to_string(), 1_500_000_000),
            ("B".to_string(), 2_000),
            ("C".to_string(), 5_000_000),
            ("D".to_string(), 5_000_000),
            // 1e400 is past the largest double: not finite, so left out.
            ("F".to_string(), 0),
            ("H".to_string(), 0),
        ]
    );
}

#[test]
fn a_figure_is_dropped_exactly_where_its_double_is_infinite() {
    // The largest finite double, and the halfway point past it, which rounds
    // up to infinity.
    let largest = "179769313486231570814527423731704356798070567525844996598917476803157260780028538760589558632766878171540458953514382464234321326889464182768467546703537516986049910576551282076245490090389328944075868508455133942304583236903222948165808559332123348274797826204144723168738177180919299881250404026184124858368";
    let halfway = "179769313486231580793728971405303415079934132710037826936173778980444968292764750946649017977587207096330286416692887910946555547851940402630657488671505820681908902000708383676273854845817711531764475730270069855571366959622842914819860834936475292719074168444365510704342711559699508093042880177904174497792";
    let below = "179769313486231580793728971405303415079934132710037826936173778980444968292764750946649017977587207096330286416692887910946555547851940402630657488671505820681908902000708383676273854845817711531764475730270069855571366959622842914819860834936475292719074168444365510704342711559699508093042880177904174497791";
    for (text, kept) in [(largest, true), (halfway, false), (below, true), ("1.7976931348623158e308", true), ("1.8e308", false)] {
        let finite = text.parse::<f64>().unwrap().is_finite();
        assert_eq!(finite, kept, "{text}");
        let columns = parse_jstat(&format!("X\n{text}\n")).unwrap();
        assert_eq!(columns.len() == 1, kept, "{text}");
        if kept {
            assert_eq!(columns[0].1, i64::MAX);
        }
    }
}
