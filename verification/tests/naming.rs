use arpchat::config::{
    eq_ignore_ascii_case_str, first_label, set_log_level, Config, LogLevel,
};
use arpchat::error::NetError;
use arpchat::interface::{usable_order, InterfaceInfo};
use arpchat::engine::contains_bytes;
use arpchat::ether_type::EtherType;
use arpchat::session::normalize_username;

#[test]
fn normalize_keeps_ordinary_names() {
    assert_eq!(normalize_username("alice"), "alice");
    assert_eq!(normalize_username("ab"), "ab");
}

#[test]
fn normalize_replaces_too_short_names() {
    assert_eq!(normalize_username(""), "Anonymous");
    assert_eq!(normalize_username("a"), "Anonymous");
}

#[test]
fn normalize_cuts_too_long_names_at_the_byte_limit() {
    assert_eq!(
        normalize_username("abcdefghijklmnopqrstuvwxyz"),
        "abcdefghijklmnopqrstuvwxy"
    );
}

#[test]
fn normalize_never_cuts_inside_a_character() {
    // 24 ASCII bytes followed by a two-byte character: the cut point
    // falls back to the last character boundary.
    let name = "abcdefghijklmnopqrstuvwxé";
    assert_eq!(normalize_username(name), "abcdefghijklmnopqrstuvwx");
}

#[test]
fn ascii_case_insensitive_comparison() {
    assert!(eq_ignore_ascii_case_str("WaRn", "warn"));
    assert!(!eq_ignore_ascii_case_str("warn", "warm"));
    assert!(!eq_ignore_ascii_case_str("warn", "warns"));
}

#[test]
fn log_level_names_round_trip() {
    for level in [
        LogLevel::Off,
        LogLevel::Error,
        LogLevel::Warn,
        LogLevel::Info,
        LogLevel::Debug,
        LogLevel::Trace,
    ] {
        assert_eq!(LogLevel::from_name(level.name()), Some(level));
    }
    assert_eq!(LogLevel::from_name("debug"), Some(LogLevel::Debug));
    assert_eq!(LogLevel::from_name("chatty"), None);
}

#[test]
fn effective_log_level_defaults_to_warn() {
    let mut config = Config::default();
    assert_eq!(config.get_log_level(), Some(LogLevel::Warn));
    config.log_level = Some(String::from("nonsense"));
    assert_eq!(config.get_log_level(), Some(LogLevel::Warn));
    config.log_level = Some(String::from("trace"));
    assert_eq!(config.get_log_level(), Some(LogLevel::Trace));
}

#[test]
fn set_log_level_stores_the_canonical_name() {
    let mut config = Config::default();
    config.username = Some(String::from("kept"));
    set_log_level(&mut config, LogLevel::Debug);
    assert_eq!(config.log_level.as_deref(), Some("DEBUG"));
    assert_eq!(config.username.as_deref(), Some("kept"));
}

#[test]
fn configured_username_wins_and_is_normalized() {
    let mut config = Config::default();
    config.username = Some(String::from("configured"));
    assert_eq!(config.get_username(), Some(String::from("configured")));
    config.username = Some(String::from(""));
    assert_eq!(config.get_username(), Some(String::from("Anonymous")));
    config.username = Some(String::from("x"));
    assert_eq!(config.get_username(), Some(String::from("Anonymous")));
}

#[test]
fn fallback_username_is_within_bounds() {
    let config = Config::default();
    let name = config.get_username().expect("always some name");
    assert!(name.len() >= 2);
    assert!(name.len() <= 25);
}

#[test]
fn resolved_username_takes_the_machine_name_when_unset() {
    let config = Config::default();
    assert_eq!(config.resolved_username("box"), "box");
    assert_eq!(config.resolved_username(""), "Anonymous");
}

#[test]
fn first_label_stops_at_the_first_dot() {
    assert_eq!(first_label("host.example.org"), "host");
    assert_eq!(first_label("plainhost"), "plainhost");
    assert_eq!(first_label(".hidden"), "");
}

#[test]
fn substring_search() {
    assert!(contains_bytes(b"hi bob!", b"bob"));
    assert!(contains_bytes(b"bob", b"bob"));
    assert!(contains_bytes(b"anything", b""));
    assert!(!contains_bytes(b"hi bo b", b"bob"));
    assert!(!contains_bytes(b"bo", b"bob"));
}

#[test]
fn ether_type_bytes() {
    assert_eq!(EtherType::Experimental1.bytes(), [0x88, 0xB5]);
    assert_eq!(EtherType::Experimental2.bytes(), [0x88, 0xB6]);
    assert_eq!(EtherType::IPv4.bytes(), [0x08, 0x00]);
    assert_eq!(EtherType::default(), EtherType::Experimental1);
}

#[test]
fn interface_ranking_prefers_more_addresses_then_later_discovery() {
    let infos = vec![
        InterfaceInfo { has_mac: true, ip_count: 1 },  // 0
        InterfaceInfo { has_mac: false, ip_count: 5 }, // 1: no hardware address
        InterfaceInfo { has_mac: true, ip_count: 3 },  // 2
        InterfaceInfo { has_mac: true, ip_count: 0 },  // 3: no network address
        InterfaceInfo { has_mac: true, ip_count: 3 },  // 4: ties with 2
        InterfaceInfo { has_mac: true, ip_count: 7 },  // 5
    ];
    assert_eq!(usable_order(&infos), vec![5, 4, 2, 0]);
    assert_eq!(usable_order(&Vec::new()), Vec::<usize>::new());
}

#[test]
fn error_messages() {
    assert_eq!(NetError::MessageTooLong.message(), "Message too long to send.");
    assert_eq!(
        NetError::InvalidInterface(String::from("eth9")).message(),
        "Invalid interface eth9"
    );
}
