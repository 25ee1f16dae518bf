use std::sync::Arc;

use mctop::app::{Action, App, Key, RegionSort, Tab};
use mctop::config::{Config, JvmConfig};
use mctop::metrics::{ProcessStats, Region, RegionReport, TpsReading, UNIT};
use mctop::source::{Kind, Update};
use mctop::view::{heap_unavailable, process_unavailable, Unavailable};

fn app() -> App {
    App::new(Arc::new(Config::default()))
}

/// A decimal reading in millionths.
fn units(value: f64) -> i64 {
    (value * UNIT as f64).round() as i64
}

#[test]
fn tabs_wrap_in_both_directions() {
    let mut app = app();
    assert_eq!(app.tab, Tab::Overview);

    for _ in 0..Tab::ALL.len() {
        app.on_key(Key::Tab);
    }
    assert_eq!(app.tab, Tab::Overview);

    app.on_key(Key::BackTab);
    assert_eq!(app.tab, Tab::Console);
}

#[test]
fn number_keys_jump_to_a_tab() {
    let mut app = app();
    app.on_key(Key::Char('3'));
    assert_eq!(app.tab, Tab::System);
    app.on_key(Key::Char('1'));
    assert_eq!(app.tab, Tab::Overview);
}

#[test]
fn quitting_and_refreshing_are_reported_to_the_caller() {
    let mut app = app();
    assert_eq!(app.on_key(Key::Char('r')), Action::Refresh);
    assert_eq!(app.on_key(Key::Char('q')), Action::Quit);
    assert_eq!(app.on_key(Key::Ctrl('c')), Action::Quit);
}

#[test]
fn pausing_toggles_and_reports() {
    let mut app = app();
    assert_eq!(app.on_key(Key::Char('p')), Action::SetPaused(true));
    assert!(app.paused);
    assert_eq!(app.on_key(Key::Char('p')), Action::SetPaused(false));
    assert!(!app.paused);
}

#[test]
fn help_swallows_keys_until_dismissed() {
    let mut app = app();
    app.on_key(Key::Char('?'));
    assert!(app.show_help);

    // A key that would normally switch tabs only closes the help.
    assert_eq!(app.on_key(Key::Char('3')), Action::Nothing);
    assert_eq!(app.tab, Tab::Overview);
    assert!(!app.show_help);

    app.on_key(Key::Char('?'));
    assert_eq!(app.on_key(Key::Ctrl('c')), Action::Quit);
}

#[test]
fn sorting_only_applies_on_the_regions_tab() {
    let mut app = app();
    app.on_key(Key::Char('s'));
    assert_eq!(app.region_sort, RegionSort::Pressure);

    app.tab = Tab::Regions;
    app.on_key(Key::Char('s'));
    assert_eq!(app.region_sort, RegionSort::Tps);
}

fn region(world: &str, tps: f64, mspt: f64, players: u32) -> Region {
    Region {
        world: Some(world.into()),
        tps: Some(units(tps)),
        mspt: Some(units(mspt)),
        players: Some(players),
        ..Region::default()
    }
}

#[test]
fn regions_sort_worst_first() {
    let mut app = app();
    app.apply(Update::Regions(RegionReport {
        regions: vec![
            region("calm", 20.0, 2.0, 1),
            region("busy", 14.0, 48.0, 9),
            region("middling", 19.0, 20.0, 4),
        ],
        ..RegionReport::default()
    }));

    app.region_sort = RegionSort::Pressure;
    assert_eq!(app.sorted_regions()[0].world.as_deref(), Some("busy"));

    app.region_sort = RegionSort::Tps;
    assert_eq!(app.sorted_regions()[0].world.as_deref(), Some("busy"));

    app.region_sort = RegionSort::Players;
    assert_eq!(app.sorted_regions()[0].world.as_deref(), Some("busy"));

    app.region_sort = RegionSort::World;
    assert_eq!(app.sorted_regions()[0].world.as_deref(), Some("busy"));
}

#[test]
fn selection_moves_and_stays_in_range() {
    let mut app = app();
    app.tab = Tab::Regions;
    app.apply(Update::Regions(RegionReport {
        regions: vec![region("a", 20.0, 1.0, 0), region("b", 19.0, 2.0, 0)],
        ..RegionReport::default()
    }));

    app.on_key(Key::Down);
    assert_eq!(app.region_selected, 1);
    app.on_key(Key::Down);
    assert_eq!(app.region_selected, 1, "selection stops at the last row");
    app.on_key(Key::PageUp);
    assert_eq!(app.region_selected, 0);
    assert!(app.selected_region().is_some());
}

fn copies(regions: &[Region]) -> Vec<Region> {
    regions
        .iter()
        .map(|region| Region {
            world: region.world.clone(),
            chunk: region.chunk,
            tps: region.tps,
            mspt: region.mspt,
            utilisation: region.utilisation,
            players: region.players,
            entities: region.entities,
            chunks: region.chunks,
        })
        .collect()
}

#[test]
fn the_region_table_offset_never_hides_the_selection() {
    let mut app = app();
    app.tab = Tab::Regions;
    app.apply(Update::Regions(RegionReport {
        regions: (0..40)
            .map(|i| region(&format!("w{i}"), 20.0 - i as f64 * 0.1, 1.0, 0))
            .collect(),
        ..RegionReport::default()
    }));

    // Pretend the table has been scrolled well down the list.
    app.region_offset = 25;
    app.region_selected = 30;

    // Moving the selection above the window pulls the window up with it.
    app.region_selected = 3;
    app.apply(Update::Regions(RegionReport {
        regions: copies(&app.regions.regions),
        ..RegionReport::default()
    }));
    assert!(app.region_offset <= app.region_selected);
}

#[test]
fn a_shrinking_region_list_pulls_the_selection_back() {
    let mut app = app();
    app.apply(Update::Regions(RegionReport {
        regions: vec![region("a", 20.0, 1.0, 0), region("b", 19.0, 2.0, 0)],
        ..RegionReport::default()
    }));
    app.region_selected = 1;

    app.apply(Update::Regions(RegionReport {
        regions: vec![region("a", 20.0, 1.0, 0)],
        ..RegionReport::default()
    }));
    assert_eq!(app.region_selected, 0);

    app.apply(Update::Regions(RegionReport::default()));
    assert_eq!(app.region_selected, 0);
    assert!(app.selected_region().is_none());
}

#[test]
fn readings_feed_the_history_series() {
    let mut app = app();
    app.apply(Update::Tps(TpsReading {
        windows: vec![("1m".into(), units(19.5))],
    }));
    app.apply(Update::Tps(TpsReading {
        windows: vec![("1m".into(), units(18.5))],
    }));

    assert_eq!(app.tps_history.tail(4), vec![units(19.5), units(18.5)]);
    assert_eq!(app.tps.current(), Some(units(18.5)));
    assert!(app.staleness().is_some());
}

#[test]
fn a_refused_heap_is_not_reported_as_a_missing_process() {
    let mut app = app();
    app.apply(Update::Process(Some(ProcessStats {
        pid: 4242,
        cpu_percent: 100 * UNIT,
        rss: 1 << 30,
        virtual_size: 2 << 30,
        threads: Some(64),
        uptime: 60,
        cores: 8,
        load_average: None,
        system_memory: (1 << 30, 8 << 30),
    })));
    app.apply(Update::Heap {
        stats: None,
        error: Some("jstat: Could not attach to 4242".into()),
    });

    // The process is there, so only the heap is missing, and the reason
    // must point at the tools rather than sending the reader hunting for a
    // process that was found perfectly well.
    assert!(matches!(
        heap_unavailable(&app),
        Unavailable::ToolFailed(Some(_))
    ));
    assert_eq!(
        app.heap_error.as_deref(),
        Some("jstat: Could not attach to 4242")
    );

    // With no process at all, it really is the process that is missing.
    app.apply(Update::Process(None));
    assert_eq!(heap_unavailable(&app), Unavailable::NoProcess);
    assert_eq!(process_unavailable(&app), Unavailable::NoProcess);
}

#[test]
fn a_disabled_collector_says_so_rather_than_blaming_the_process() {
    let app = App::new(Arc::new(Config {
        jvm: JvmConfig {
            enabled: false,
            ..JvmConfig::default()
        },
        ..Config::default()
    }));
    assert_eq!(heap_unavailable(&app), Unavailable::HeapOff);
}

#[test]
fn repeated_log_lines_are_collapsed() {
    let mut app = app();
    app.note(Kind::Warn, "disconnected".into());
    app.note(Kind::Warn, "disconnected".into());
    app.note(Kind::Warn, "reconnected".into());
    assert_eq!(app.log.len(), 2);
}

#[test]
fn the_log_is_bounded() {
    let mut app = app();
    for index in 0..(app.config.ui.log_lines + 50) {
        app.note(Kind::Info, format!("line {index}"));
    }
    assert_eq!(app.log.len(), app.config.ui.log_lines);
}

#[test]
fn raw_responses_are_kept_newest_first_and_bounded() {
    let mut app = app();
    for index in 0..40 {
        app.apply(Update::Raw {
            command: format!("cmd{index}"),
            response: "ok".into(),
        });
    }
    assert_eq!(app.raw.len(), 32);
    assert_eq!(app.raw[0].0, "cmd39");
}

/// Type a string into the console, one key at a time.
fn type_in(app: &mut App, text: &str) -> Vec<Action> {
    text.chars().map(|ch| app.on_key(Key::Char(ch))).collect()
}

fn console() -> App {
    let mut app = app();
    app.on_key(Key::Char('5'));
    app
}

#[test]
fn the_console_takes_the_keyboard_when_it_is_open() {
    let mut app = console();
    assert_eq!(app.tab, Tab::Console);
    assert!(
        app.input_focused,
        "the command line should be ready to type"
    );

    // Keys that are global everywhere else are just letters here.
    let actions = type_in(&mut app, "stop");
    assert!(actions.iter().all(|action| *action == Action::Nothing));
    assert_eq!(app.input.text(), "stop");
    assert_eq!(
        app.tab,
        Tab::Console,
        "`p` and `s` must not act as commands"
    );
}

#[test]
fn enter_sends_the_line_and_clears_it() {
    let mut app = console();
    type_in(&mut app, "say hello");

    assert_eq!(app.on_key(Key::Enter), Action::Send("say hello".to_owned()));
    assert!(app.input.is_empty());
    assert_eq!(app.history, ["say hello"]);
}

#[test]
fn an_empty_line_sends_nothing() {
    let mut app = console();
    assert_eq!(app.on_key(Key::Enter), Action::Nothing);

    type_in(&mut app, "   ");
    assert_eq!(app.on_key(Key::Enter), Action::Nothing);
    assert!(app.history.is_empty());
}

#[test]
fn ctrl_c_still_quits_from_inside_the_command_line() {
    let mut app = console();
    type_in(&mut app, "half a command");
    assert_eq!(app.on_key(Key::Ctrl('c')), Action::Quit);
}

#[test]
fn escape_clears_the_line_before_giving_back_the_keys() {
    let mut app = console();
    type_in(&mut app, "oops");

    app.on_key(Key::Esc);
    assert!(app.input.is_empty(), "the first Esc clears");
    assert!(app.input_focused, "and keeps the focus");

    app.on_key(Key::Esc);
    assert!(!app.input_focused, "the second gives the keys back");

    // Now the global keys work again.
    app.on_key(Key::Char('v'));
    assert!(app.show_raw);
    assert_eq!(app.on_key(Key::Char('q')), Action::Quit);
}

#[test]
fn returning_to_the_console_refocuses_the_line() {
    let mut app = console();
    app.on_key(Key::Esc);
    assert!(!app.input_focused);

    app.on_key(Key::Char('1'));
    assert_eq!(app.tab, Tab::Overview);
    app.on_key(Key::Char('5'));
    assert!(app.input_focused);
}

#[test]
fn tab_still_changes_tab_while_typing() {
    let mut app = console();
    type_in(&mut app, "list");

    app.on_key(Key::Tab);
    assert_eq!(
        app.tab,
        Tab::Overview,
        "console is the last tab, so it wraps"
    );
    assert_eq!(app.input.text(), "list", "the half-typed line survives");
}

#[test]
fn the_history_walks_back_and_forward() {
    let mut app = console();
    for command in ["list", "tps", "save-all"] {
        type_in(&mut app, command);
        app.on_key(Key::Enter);
    }

    app.on_key(Key::Up);
    assert_eq!(app.input.text(), "save-all");
    app.on_key(Key::Up);
    assert_eq!(app.input.text(), "tps");
    app.on_key(Key::Up);
    assert_eq!(app.input.text(), "list");
    app.on_key(Key::Up);
    assert_eq!(app.input.text(), "list", "it stops at the oldest");

    app.on_key(Key::Down);
    assert_eq!(app.input.text(), "tps");
    app.on_key(Key::Down);
    assert_eq!(app.input.text(), "save-all");
    app.on_key(Key::Down);
    assert!(
        app.input.is_empty(),
        "walking past the newest empties the line"
    );
}

#[test]
fn the_history_does_not_repeat_the_same_command() {
    let mut app = console();
    for _ in 0..3 {
        type_in(&mut app, "list");
        app.on_key(Key::Enter);
    }
    assert_eq!(app.history, ["list"]);
}

#[test]
fn the_line_can_be_edited_in_the_middle() {
    let mut app = console();
    type_in(&mut app, "sy hello");

    for _ in 0..7 {
        app.on_key(Key::Left);
    }
    app.on_key(Key::Char('a'));
    assert_eq!(app.input.text(), "say hello");

    app.on_key(Key::End);
    app.on_key(Key::Backspace);
    assert_eq!(app.input.text(), "say hell");

    app.on_key(Key::Home);
    app.on_key(Key::Delete);
    assert_eq!(app.input.text(), "ay hell");

    app.on_key(Key::Ctrl('w'));
    assert_eq!(
        app.input.text(),
        "ay hell",
        "nothing to delete before the cursor"
    );
    app.on_key(Key::End);
    app.on_key(Key::Ctrl('w'));
    assert_eq!(app.input.text(), "ay ");

    app.on_key(Key::Ctrl('u'));
    assert!(app.input.is_empty());
}

#[test]
fn the_line_handles_characters_wider_than_a_byte() {
    let mut app = console();
    type_in(&mut app, "say héllo → ✓");

    app.on_key(Key::Home);
    app.on_key(Key::Right);
    app.on_key(Key::Delete);
    assert_eq!(app.input.text(), "sy héllo → ✓");

    app.on_key(Key::End);
    app.on_key(Key::Backspace);
    assert_eq!(app.input.text(), "sy héllo → ");
    assert_eq!(app.input.cursor(), app.input.text().chars().count());
}

#[test]
fn scrolling_back_holds_position_as_new_lines_arrive() {
    let mut app = console();
    for index in 0..20 {
        app.note(Kind::Received, format!("line {index}"));
    }

    app.on_key(Key::PageUp);
    assert_eq!(app.log_scroll, 10);
    let anchored = app.log.len() - app.log_scroll;

    app.note(Kind::Received, "line 20".into());
    assert_eq!(
        app.log.len() - app.log_scroll,
        anchored,
        "the visible window should not drift"
    );

    // Sending a command returns to the bottom, where the reply will appear.
    type_in(&mut app, "list");
    app.on_key(Key::Enter);
    assert_eq!(app.log_scroll, 0);
}

#[test]
fn console_traffic_is_never_collapsed_but_repeated_complaints_are() {
    let mut app = app();
    for _ in 0..3 {
        app.note(Kind::Sent, "list".into());
        app.note(Kind::Received, "There are 0 of a max of 20 players online:".into());
    }
    assert_eq!(app.log.len(), 6, "every command and reply must be shown");

    app.note(Kind::Error, "connection refused".into());
    app.note(Kind::Error, "connection refused".into());
    assert_eq!(app.log.len(), 7, "a repeated complaint is collapsed");
}

#[test]
fn regions_are_absent_until_the_server_reports_some() {
    let mut app = app();
    assert!(!app.has_regions());

    app.apply(Update::Regions(RegionReport {
        total: Some(12),
        ..RegionReport::default()
    }));
    assert!(app.has_regions());
}

#[test]
fn the_sort_key_comes_back_round_every_seventh_press() {
    for start in [RegionSort::Pressure, RegionSort::Chunks, RegionSort::World] {
        let mut sort = start;
        for press in 1..=21 {
            sort = sort.next();
            assert_eq!(sort == start, press % 7 == 0, "press {press}");
        }
    }
}
