use mctop::config::ProcessConfig;
use mctop::source::process::{Candidate, Matcher, ProcessWatcher};

fn candidate(pid: u32, thread: bool, name: &str, command: &str, memory: u64) -> Candidate {
    Candidate {
        pid,
        thread,
        name: name.into(),
        command: command.split(' ').map(str::to_owned).collect(),
        memory,
    }
}

fn table() -> Vec<Candidate> {
    vec![
        candidate(10, false, "java", "java -jar gradle-wrapper.jar build", 900),
        candidate(11, false, "java", "java -Xmx8G -jar folia-1.21.jar nogui", 8_000),
        candidate(12, true, "java", "java -Xmx8G -jar folia-1.21.jar nogui", 8_000),
        candidate(13, false, "bash", "bash start.sh folia.jar", 10),
        candidate(14, false, "java", "java -jar paper.jar --nogui", 4_000),
    ]
}

#[test]
fn a_pattern_that_matches_nothing_yields_nothing() {
    let mut watcher = ProcessWatcher::new(&ProcessConfig {
        pid: None,
        match_pattern: "mctop-no-such-server-anywhere".into(),
        enabled: true,
    })
    .unwrap();

    watcher.located(&table());
    assert_eq!(watcher.watched(), None);
    assert!(watcher.searching());
}

#[test]
fn an_invalid_pattern_is_rejected_at_startup() {
    let result = ProcessWatcher::new(&ProcessConfig {
        pid: None,
        match_pattern: "(unclosed".into(),
        enabled: true,
    });
    let error = result.err().expect("an invalid regex should be refused");
    assert!(error.contains("process.match_pattern"));
}

#[test]
fn the_largest_matching_jvm_is_the_server() {
    let mut watcher = ProcessWatcher::new(&ProcessConfig {
        pid: None,
        match_pattern: r"(?i)(folia|paper).*\.jar".into(),
        enabled: true,
    })
    .unwrap();
    assert_eq!(watcher.find(&table()), Some(11));
    watcher.located(&table());
    assert_eq!(watcher.watched(), Some(11));
    assert!(!watcher.searching());

    watcher.refreshed(true);
    assert_eq!(watcher.watched(), Some(11));
    watcher.refreshed(false);
    assert_eq!(watcher.watched(), None);
}

#[test]
fn a_pinned_pid_is_taken_as_given() {
    let watcher = ProcessWatcher::new(&ProcessConfig {
        pid: Some(12),
        match_pattern: "(unclosed".into(),
        enabled: true,
    })
    .unwrap();
    assert_eq!(watcher.find(&table()), Some(12));
    assert_eq!(watcher.find(&Vec::new()), None);
}

#[test]
fn ties_go_to_the_later_process() {
    let watcher = ProcessWatcher::new(&ProcessConfig {
        pid: None,
        match_pattern: "server".into(),
        enabled: true,
    })
    .unwrap();
    let table = vec![
        candidate(1, false, "openjdk", "server a", 5),
        candidate(2, false, "jre-bin", "server b", 5),
        candidate(3, false, "node", "server c", 50),
    ];
    assert_eq!(watcher.find(&table), Some(2));
}

#[test]
fn a_matcher_tests_anywhere_in_the_text() {
    let matcher = Matcher::new("b+c").unwrap();
    assert!(matcher.is_match("abbbcd"));
    assert!(!matcher.is_match("acd"));
}
