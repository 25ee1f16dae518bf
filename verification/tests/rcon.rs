use mctop::config::RconConfig;
use mctop::metrics::Link;
use mctop::source::rcon::{wait_string, CommandFailure, ConnectFailure, RconClient, Step, DEFAULT_RCON_PORT};

fn client(address: &str) -> RconClient {
    RconClient::new(
        &RconConfig {
            address: address.into(),
            connect_timeout_ms: 100,
            command_timeout_ms: 1_500,
            reconnect_delay_ms: 60_000,
            ..RconConfig::default()
        },
        "hunter2".into(),
    )
    .unwrap()
}

#[test]
fn the_port_defaults_to_the_rcon_one() {
    let client = client("10.0.0.5");
    assert_eq!(client.address().port, DEFAULT_RCON_PORT);
    assert_eq!(client.target(), "10.0.0.5:25575");
    assert_eq!(client.password(), "hunter2");
    assert_eq!(client.link(), &Link::Connecting);
}

#[test]
fn a_bad_address_is_refused() {
    let result = RconClient::new(
        &RconConfig {
            address: "host:notaport".into(),
            ..RconConfig::default()
        },
        String::new(),
    );
    assert!(result.is_err());
}

#[test]
fn timeouts_have_a_floor() {
    let client = client("localhost");
    assert_eq!(client.connect_timeout_ms(), 250);
    assert_eq!(client.command_timeout_ms(), 1_500);
}

#[test]
fn waits_read_like_durations() {
    assert_eq!(wait_string(250), "250ms");
    assert_eq!(wait_string(5_000), "5s");
    assert_eq!(wait_string(1_500), "1.5s");
    assert_eq!(wait_string(1_250), "1.25s");
    assert_eq!(wait_string(10_001), "10.001s");
    assert_eq!(
        wait_string(1_250),
        format!("{:?}", std::time::Duration::from_millis(1_250))
    );
}

#[test]
fn a_fresh_client_connects_first() {
    let mut client = client("localhost");
    assert_eq!(client.begin(), Step::Connect);
    client.connected();
    assert_eq!(client.link(), &Link::Up);
    assert_eq!(client.begin(), Step::Send);
}

#[test]
fn a_failure_holds_off_the_next_attempt() {
    let mut client = client("localhost:25599");
    assert_eq!(client.begin(), Step::Connect);
    let error = client.connect_failed(ConnectFailure::Failed("Connection refused (os error 111)".into()));
    assert_eq!(
        error,
        "connecting to localhost:25599: Connection refused (os error 111)"
    );
    assert_eq!(
        client.link(),
        &Link::Down("Connection refused (os error 111)".into())
    );
    assert_eq!(
        client.begin(),
        Step::Wait("waiting to reconnect to localhost:25599".into())
    );
    // Once the delay has passed, another attempt is made.
    assert_eq!(client.step(60_000), Step::Connect);
    assert_eq!(client.link(), &Link::Connecting);
}

#[test]
fn a_bad_password_is_reported_as_such() {
    let mut client = client("localhost");
    client.begin();
    let error = client.connect_failed(ConnectFailure::Auth);
    assert_eq!(
        error,
        "RCON authentication failed for localhost:25575: check the password"
    );
    assert_eq!(
        client.link(),
        &Link::Down("authentication failed: check the RCON password".into())
    );
}

#[test]
fn a_slow_connection_says_how_long_it_waited() {
    let mut client = client("localhost");
    client.begin();
    let error = client.connect_failed(ConnectFailure::TimedOut);
    assert_eq!(error, "connecting to localhost:25575 timed out");
    assert_eq!(
        client.link(),
        &Link::Down("connection timed out after 250ms".into())
    );
}

#[test]
fn a_failed_command_drops_the_link() {
    let mut client = client("[::1]:25575");
    client.begin();
    client.connected();
    client.replied();
    let error = client.command_failed("tps", CommandFailure::TimedOut);
    assert_eq!(error, "`tps` timed out after 1.5s");
    assert_eq!(client.link(), &Link::Down("`tps` timed out".into()));
    assert!(matches!(client.begin(), Step::Wait(message) if message == "waiting to reconnect to [::1]:25575"));

    let mut other = self::client("localhost");
    other.begin();
    other.connected();
    let error = other.command_failed("list", CommandFailure::Failed("broken pipe".into()));
    assert_eq!(error, "`list` failed: broken pipe");
    assert_eq!(other.link(), &Link::Down("list: broken pipe".into()));
}
