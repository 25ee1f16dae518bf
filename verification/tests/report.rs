use mctop::cli::{Command, ConfigAction};
use mctop::config::{CommandConfig, Config};
use mctop::format::fixed;
use mctop::metrics::{
    MsptReading, MsptWindow, Players, Region, RegionReport, ServerIdentity, TpsReading, WorldUsage, UNIT,
};
use mctop::report::{
    apply_overrides, probe_body, probe_heading, probe_plan, rcon_port, status_failure, status_report,
    status_target,
};

#[test]
fn overrides_replace_the_configured_values() {
    let mut config = Config::default();
    apply_overrides(
        &mut config,
        Some("10.0.0.5:25599".into()),
        Some(500),
        Some("/srv/minecraft".into()),
    )
    .unwrap();
    assert_eq!(config.rcon.address, "10.0.0.5:25599");
    assert_eq!(config.refresh.tick_ms, 500);
    assert_eq!(config.refresh.region_ms, 500);
    assert_eq!(config.server.directory.as_deref(), Some("/srv/minecraft"));
}

#[test]
fn a_bad_address_override_is_refused_before_anything_changes() {
    let mut config = Config::default();
    let error = apply_overrides(&mut config, Some("host:99999".into()), Some(500), None).unwrap_err();
    assert!(error.contains("invalid port"));
    assert!(error.starts_with("--address"));
    assert_eq!(config.refresh.tick_ms, Config::default().refresh.tick_ms);
}

#[test]
fn status_keeps_the_host_and_the_rcon_port() {
    let mut config = Config::default();
    config.rcon.address = "127.0.0.1:25599".into();
    assert_eq!(rcon_port(&config), 25599);
    let (parsed, target) = status_target(&config, "play.example.net").unwrap();
    assert_eq!(parsed.port, 25565);
    assert_eq!(target, "play.example.net:25599");
    let (_, target) = status_target(&config, "[::1]:25565").unwrap();
    assert_eq!(target, "[::1]:25599");
    assert!(status_target(&config, "host:x").is_err());
}

#[test]
fn readings_print_with_two_decimals() {
    assert_eq!(fixed(19_980_000, 2), "19.98");
    assert_eq!(fixed(20 * UNIT, 2), "20.00");
    assert_eq!(fixed(1_234_567, 2), "1.23");
    assert_eq!(fixed(-50_000, 2), "-0.05");
}

fn region(world: &str, utilisation: i64) -> Region {
    Region {
        world: Some(world.into()),
        utilisation: Some(utilisation),
        ..Region::default()
    }
}

#[test]
fn status_reads_like_a_report() {
    let identity = ServerIdentity {
        flavour: Some("Folia".into()),
        minecraft_version: Some("1.21.4".into()),
        raw: None,
    };
    let tps = TpsReading {
        windows: vec![("5s".into(), 19_980_000), ("1m".into(), 20 * UNIT)],
    };
    let mspt = MsptReading {
        windows: vec![(
            "5s".into(),
            MsptWindow {
                average: 12_340_000,
                minimum: 1_000_000,
                maximum: 48_500_000,
            },
        )],
    };
    let players = Players {
        online: 3,
        max: Some(100),
        names: Vec::new(),
    };
    let regions = RegionReport {
        regions: vec![region("world", 200_000), region("nether", 640_000)],
        total: Some(12),
        threads: None,
    };
    let worlds = vec![WorldUsage {
        name: "world".into(),
        path: "/srv/world".into(),
        bytes: 1_536,
        files: 2,
        region_bytes: 0,
        entity_bytes: 0,
        poi_bytes: 0,
        partial: false,
    }];
    let report = status_report(&identity, &tps, &mspt, &players, &regions, &worlds);
    assert_eq!(report.server, "server    Folia 1.21.4");
    assert_eq!(report.tps, "tps       5s 19.98  1m 20.00");
    assert_eq!(report.mspt.as_deref(), Some("mspt      avg 12.34  min 1.00  max 48.50"));
    assert_eq!(report.players, "players   3 / 100");
    assert_eq!(report.regions.as_deref(), Some("regions   12"));
    assert_eq!(report.busiest.as_deref(), Some("busiest   nether at 64.0%"));
    assert_eq!(report.worlds, vec!["world     world            1.5 KiB".to_owned()]);
}

#[test]
fn status_without_readings_says_unavailable_and_fails() {
    let commands = CommandConfig::default();
    let report = status_report(
        &ServerIdentity::default(),
        &TpsReading::default(),
        &MsptReading::default(),
        &Players::default(),
        &RegionReport::default(),
        &Vec::new(),
    );
    assert_eq!(report.tps, "tps       unavailable");
    assert_eq!(report.mspt, None);
    assert_eq!(report.players, "players   0");
    assert_eq!(report.regions, None);
    assert_eq!(report.busiest, None);
    let failure = status_failure(&TpsReading::default(), &commands).unwrap();
    assert!(failure.contains("could not read the tick rate from `tps`"));
    assert!(failure.contains("mctop probe"));
    let fine = TpsReading {
        windows: vec![("1m".into(), 20 * UNIT)],
    };
    assert_eq!(status_failure(&fine, &commands), None);
}

#[test]
fn probe_runs_each_command_once() {
    let commands = CommandConfig {
        tps: "tps".into(),
        mspt: "mspt".into(),
        regions: "tps".into(),
        players: "  ".into(),
        version: "version".into(),
    };
    let plan = probe_plan(&commands);
    let names: Vec<(&str, &str)> = plan.iter().map(|(m, c)| (m.as_str(), c.as_str())).collect();
    assert_eq!(names, vec![("tps", "tps"), ("mspt", "mspt"), ("version", "version")]);
}

#[test]
fn probe_shows_each_reply_line_by_line() {
    assert_eq!(
        probe_heading("tps", "tps"),
        format!("── tps: `tps` {}", "─".repeat(40))
    );
    assert_eq!(
        probe_body(&Ok("§6TPS: 20.0\nsecond line".into())),
        vec!["  TPS: 20.0".to_owned(), "  second line".to_owned()]
    );
    assert_eq!(probe_body(&Ok("  \n".into())), vec!["  (empty response)".to_owned()]);
    assert_eq!(
        probe_body(&Err("`tps` timed out after 5s".into())),
        vec!["  failed: `tps` timed out after 5s".to_owned()]
    );
}

#[test]
fn no_subcommand_means_the_dashboard() {
    assert_eq!(Command::or_default(None), Command::Watch);
    assert!(Command::Watch.connects());
    assert!(Command::Probe.connects());
    assert!(!Command::Config {
        action: ConfigAction::Init { force: true }
    }
    .connects());
}
