use tako::config::Config;
use tako::error::Error;

#[test]
pub fn config_with_0_restart_units_is_parsed() {
    let config_lines = [
        "Origin=https://images.example.com/app-foo",
        "PublicKey=8+r5DKNN/cwI+h0oHxMtgdyND3S/5xDLHQu0hFUmq+g=",
        "Destination=/var/lib/images/app-foo",
    ];
    let config_res = Config::parse(&config_lines);
    assert!(config_res.is_ok());
}

#[test]
fn config_contents_are_read() {
    let lines = [
        "Origin=https://images.example.com/app-foo",
        "",
        "PublicKey=8+r5DKNN/cwI+h0oHxMtgdyND3S/5xDLHQu0hFUmq+g=",
        "Destination=/var/lib/images/app-foo",
        "RestartUnit=foo.service",
        "RestartUnit=bar.service",
    ];
    let config = Config::parse(&lines).unwrap();
    assert_eq!(config.origin, "https://images.example.com/app-foo");
    assert_eq!(config.destination, "/var/lib/images/app-foo");
    assert_eq!(config.restart_units, vec!["foo.service".to_string(), "bar.service".to_string()]);
    assert_eq!(config.public_key[0], 0xf3);
    assert_eq!(config.public_key[31], 0xe8);
}

#[test]
fn config_line_without_equals_is_refused() {
    let lines = ["Origin=https://example.com", "garbage"];
    assert!(matches!(Config::parse(&lines), Err(Error::InvalidConfig(1, _))));
}

#[test]
fn config_unknown_key_is_refused() {
    let lines = ["Colour=blue"];
    assert!(matches!(Config::parse(&lines), Err(Error::InvalidConfig(0, _))));
}

#[test]
fn config_bad_base64_key_is_refused() {
    let lines = ["PublicKey=not base64!"];
    assert!(matches!(Config::parse(&lines), Err(Error::InvalidPublicKeyData(0))));
}

#[test]
fn config_short_key_is_refused() {
    let lines = ["PublicKey=AAAA"];
    assert!(matches!(Config::parse(&lines), Err(Error::InvalidPublicKeyData(0))));
}

#[test]
fn config_bad_uri_is_refused() {
    let lines = ["Origin=http://exa mple.com"];
    assert!(matches!(Config::parse(&lines), Err(Error::InvalidUri(0))));
}

#[test]
fn config_missing_keys_are_reported() {
    let only_origin = ["Origin=https://example.com"];
    assert!(matches!(Config::parse(&only_origin), Err(Error::IncompleteConfig(_))));
    let no_destination = [
        "Origin=https://example.com",
        "PublicKey=8+r5DKNN/cwI+h0oHxMtgdyND3S/5xDLHQu0hFUmq+g=",
    ];
    assert!(matches!(Config::parse(&no_destination), Err(Error::IncompleteConfig(_))));
    let empty: [&str; 0] = [];
    assert!(matches!(Config::parse(&empty), Err(Error::IncompleteConfig(_))));
}

#[test]
fn config_repeated_keys_are_refused() {
    let two_origins = [
        "Origin=https://a.example.com",
        "PublicKey=8+r5DKNN/cwI+h0oHxMtgdyND3S/5xDLHQu0hFUmq+g=",
        "Destination=/var/lib/images/app-foo",
        "Origin=https://b.example.com",
    ];
    assert!(matches!(Config::parse(&two_origins), Err(Error::InvalidConfig(3, _))));
    let two_keys = [
        "PublicKey=8+r5DKNN/cwI+h0oHxMtgdyND3S/5xDLHQu0hFUmq+g=",
        "PublicKey=8+r5DKNN/cwI+h0oHxMtgdyND3S/5xDLHQu0hFUmq+g=",
    ];
    assert!(matches!(Config::parse(&two_keys), Err(Error::InvalidConfig(1, _))));
    let two_destinations = ["Destination=/a", "Destination=/b"];
    assert!(matches!(Config::parse(&two_destinations), Err(Error::InvalidConfig(1, _))));
}
