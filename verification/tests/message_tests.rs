//! Tests of the message protocol and the role dispatch decisions.

use relayd::config::Config;
use relayd::error::Error;
use relayd::message::{
    stub_health_step, stub_parent_step, Data, Type, MESSAGE_RESERVED, TYPE_CONFIG, TYPE_HOST_DOWN,
    TYPE_HOST_UP, TYPE_START,
};

#[test]
fn known_codes_decode() {
    assert_eq!(Type::from(TYPE_CONFIG), Type::Config);
    assert_eq!(Type::from(TYPE_START), Type::Start);
    assert_eq!(Type::from(TYPE_HOST_UP), Type::HostUp);
    assert_eq!(Type::from(TYPE_HOST_DOWN), Type::HostDown);
}

#[test]
fn unknown_kind_decodes_safely() {
    // Any numeric kind outside the known range decodes to Unknown rather
    // than failing: below the reserved range, inside it, just past the
    // known kinds, and far out.
    assert_eq!(Type::from(0), Type::Unknown);
    assert_eq!(Type::from(MESSAGE_RESERVED), Type::Unknown);
    assert_eq!(Type::from(TYPE_HOST_DOWN + 1), Type::Unknown);
    assert_eq!(Type::from(u32::MAX), Type::Unknown);
}

#[test]
fn codes_round_trip() {
    for t in [Type::Config, Type::Start, Type::HostUp, Type::HostDown] {
        assert_eq!(Type::from(t.code()), t);
    }
}

#[test]
fn wire_codes_match_transport_reservation() {
    // The transport reserves identifiers 0..=10; the protocol's kinds sit
    // directly above them.
    assert_eq!(MESSAGE_RESERVED, privsep::imsg::Message::RESERVED);
    assert_eq!(TYPE_CONFIG, privsep::imsg::Message::RESERVED + 1);
}

#[test]
fn stub_accepts_config_and_start_from_parent() {
    assert!(stub_parent_step(Type::Config, &Data::Config(Config::default())).is_ok());
    assert!(stub_parent_step(Type::Start, &Data::Empty).is_ok());
    assert!(stub_parent_step(Type::Start, &Data::Host(7)).is_ok());
}

#[test]
fn stub_rejects_unexpected_from_parent() {
    assert!(matches!(
        stub_parent_step(Type::Config, &Data::Empty),
        Err(Error::InvalidMessage)
    ));
    assert!(matches!(
        stub_parent_step(Type::HostUp, &Data::Host(1)),
        Err(Error::InvalidMessage)
    ));
    assert!(matches!(
        stub_parent_step(Type::Unknown, &Data::Empty),
        Err(Error::InvalidMessage)
    ));
}

#[test]
fn stub_accepts_transitions_from_health() {
    assert_eq!(stub_health_step(Type::HostUp, &Data::Host(3)).unwrap(), 3);
    assert_eq!(stub_health_step(Type::HostDown, &Data::Host(9)).unwrap(), 9);
}

#[test]
fn stub_rejects_unexpected_from_health() {
    assert!(matches!(
        stub_health_step(Type::Start, &Data::Empty),
        Err(Error::InvalidMessage)
    ));
    assert!(matches!(
        stub_health_step(Type::HostUp, &Data::Empty),
        Err(Error::InvalidMessage)
    ));
    assert!(matches!(
        stub_health_step(Type::Config, &Data::Config(Config::default())),
        Err(Error::InvalidMessage)
    ));
}
