use mctop::config::{RefreshConfig, Tool};

#[test]
fn intervals_have_a_floor() {
    let refresh = RefreshConfig {
        tick_ms: 0,
        ..RefreshConfig::default()
    };
    assert_eq!(refresh.tick(), 200);
}

#[test]
fn an_empty_tool_is_rejected() {
    assert!(Tool::from_words(Vec::<String>::new()).is_err());
    assert!(Tool::from_words(vec![String::new()]).is_err());
}

#[test]
fn a_tool_splits_into_program_and_leading_arguments() {
    let tool = Tool::from_words(vec!["sudo".into(), "-n".into(), "jcmd".into()]).unwrap();
    let (program, leading) = tool.parts().unwrap();
    assert_eq!(program, "sudo");
    assert_eq!(leading, ["-n", "jcmd"]);
    assert_eq!(tool.label(), "sudo -n jcmd");
}

use mctop::config::RconConfig;

#[test]
fn password_file_wins_over_inline() {
    let config = RconConfig {
        password: Some("inline".into()),
        password_file: Some("/etc/mctop/password".into()),
        ..RconConfig::default()
    };
    let wanted = config.password_file_wanted(&None);
    assert_eq!(wanted.map(String::as_str), Some("/etc/mctop/password"));
    let password = config
        .resolve_password(None, Some(Ok("from-file\n".to_owned())))
        .unwrap();
    assert_eq!(password, "from-file");
}

#[test]
fn the_environment_wins_over_everything() {
    let config = RconConfig {
        password: Some("inline".into()),
        password_file: Some("/etc/mctop/password".into()),
        ..RconConfig::default()
    };
    assert_eq!(config.password_file_wanted(&Some("secret".into())), None);
    assert_eq!(
        config.resolve_password(Some("secret".into()), None).unwrap(),
        "secret"
    );
    // An empty variable counts as unset.
    assert_eq!(
        config
            .resolve_password(Some(String::new()), Some(Ok("  padded  \r\nsecond".into())))
            .unwrap(),
        "padded"
    );
}

#[test]
fn a_missing_password_names_every_place_to_put_one() {
    let error = RconConfig::default().resolve_password(None, None).unwrap_err();
    assert!(error.contains("MCTOP_RCON_PASSWORD"));
    assert!(error.contains("rcon.password_file"));
}

#[test]
fn an_unreadable_password_file_is_reported() {
    let config = RconConfig {
        password_file: Some("/nowhere".into()),
        ..RconConfig::default()
    };
    let error = config
        .resolve_password(None, Some(Err("No such file or directory (os error 2)".into())))
        .unwrap_err();
    assert_eq!(
        error,
        "reading password file /nowhere: No such file or directory (os error 2)"
    );
}

#[test]
fn an_inline_password_is_used_when_nothing_else_is_set() {
    let config = RconConfig {
        password: Some("inline".into()),
        ..RconConfig::default()
    };
    assert_eq!(config.password_file_wanted(&None), None);
    assert_eq!(config.resolve_password(None, None).unwrap(), "inline");
}
