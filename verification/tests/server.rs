use mctop::server::{Address, AddressError, DEFAULT_PORT};

#[test]
fn defaults_the_port() {
    let address = Address::parse("play.example.net").unwrap();
    assert_eq!(address.host, "play.example.net");
    assert_eq!(address.port, DEFAULT_PORT);
}

#[test]
fn reads_an_explicit_port() {
    assert_eq!(Address::parse("10.0.0.5:25566").unwrap().port, 25566);
}

#[test]
fn reads_ipv6() {
    let bare = Address::parse("[::1]").unwrap();
    assert_eq!(bare.host, "::1");
    assert_eq!(bare.port, DEFAULT_PORT);

    let with_port = Address::parse("[::1]:25566").unwrap();
    assert_eq!(with_port.host, "::1");
    assert_eq!(with_port.port, 25566);
}

#[test]
fn honours_a_caller_chosen_default_port() {
    let address = Address::parse_with_default_port("127.0.0.1", 25575).unwrap();
    assert_eq!(address.port, 25575);

    // An explicit port still wins.
    let address = Address::parse_with_default_port("127.0.0.1:25580", 25575).unwrap();
    assert_eq!(address.port, 25580);
}

#[test]
fn rejects_junk() {
    assert!(Address::parse("").is_err());
    assert!(Address::parse("host:port").is_err());
}

// Further cases.

#[test]
fn each_refusal_says_why() {
    assert_eq!(Address::parse("   "), Err(AddressError::Empty));
    assert_eq!(Address::parse("[]:25565"), Err(AddressError::NoHost));
    assert_eq!(
        Address::parse("host:port"),
        Err(AddressError::InvalidPort("port".into()))
    );
    assert_eq!(
        Address::parse("host:70000").unwrap_err().message(),
        "invalid port: 70000"
    );
    assert_eq!(AddressError::Empty.message(), "server address is empty");
    assert_eq!(AddressError::NoHost.message(), "server address has no host");
}

#[test]
fn ports_take_a_plus_sign_but_not_a_minus() {
    assert_eq!(Address::parse("host:+25566").unwrap().port, 25566);
    assert!(Address::parse("host:-1").is_err());
    assert!(Address::parse("host:").is_err());
}

#[test]
fn text_puts_brackets_round_an_ipv6_host() {
    assert_eq!(Address::parse("[::1]:25566").unwrap().text(), "[::1]:25566");
    assert_eq!(Address::parse(" example.org ").unwrap().text(), "example.org:25565");
}
