//! Tests of the parent orchestrator's decisions and the process topology.

use relayd::error::Error;
use relayd::message::Type;
use relayd::parent::{broadcast_plan, parse_macro, supervise_exit_code, ExitEvent};
use relayd::{Privsep, HEALTH_ID, PARENT_ID, PROCESS_COUNT, REDIRECT_ID, RELAY_ID};

#[test]
fn broadcast_config_before_start_to_every_child() {
    let plan = broadcast_plan();
    assert_eq!(
        plan,
        vec![
            (Privsep::Health, Type::Config),
            (Privsep::Redirect, Type::Config),
            (Privsep::Relay, Type::Config),
            (Privsep::Health, Type::Start),
            (Privsep::Redirect, Type::Start),
            (Privsep::Relay, Type::Start),
        ]
    );
}

#[test]
fn clean_child_exit_is_zero() {
    assert_eq!(supervise_exit_code(&ExitEvent::Exited(0)), 0);
    assert_eq!(supervise_exit_code(&ExitEvent::Exited(3)), 1);
    assert_eq!(supervise_exit_code(&ExitEvent::Exited(-1)), 1);
    assert_eq!(supervise_exit_code(&ExitEvent::Other), 1);
}

#[test]
fn macro_definition_splits_on_separator() {
    let v = parse_macro("key=value").unwrap();
    assert_eq!(v.key, "key");
    assert_eq!(v.value, "value");
    let empty = parse_macro("key=").unwrap();
    assert_eq!(empty.key, "key");
    assert_eq!(empty.value, "");
}

#[test]
fn macro_without_separator_is_rejected() {
    match parse_macro("justkey") {
        Err(Error::ParserError(msg)) => assert_eq!(msg, "justkey"),
        other => panic!("unexpected: {:?}", other),
    }
}

#[test]
fn macro_with_two_separators_is_rejected() {
    assert!(matches!(
        parse_macro("a=b=c"),
        Err(Error::ParserError(_))
    ));
}

#[test]
fn topology_ids_are_stable() {
    assert_eq!(Privsep::Parent.id(), PARENT_ID);
    assert_eq!(Privsep::Health.id(), HEALTH_ID);
    assert_eq!(Privsep::Redirect.id(), REDIRECT_ID);
    assert_eq!(Privsep::Relay.id(), RELAY_ID);
    assert_eq!(PROCESS_COUNT, 4);
}

#[test]
fn topology_connections() {
    // The parent reaches every role; health additionally reaches the
    // redirect and relay roles directly; no role reaches itself.
    for peer in [Privsep::Health, Privsep::Redirect, Privsep::Relay] {
        assert!(Privsep::Parent.connects(peer));
        assert!(peer.connects(Privsep::Parent));
    }
    assert!(Privsep::Health.connects(Privsep::Redirect));
    assert!(Privsep::Health.connects(Privsep::Relay));
    assert!(!Privsep::Redirect.connects(Privsep::Relay));
    for role in [Privsep::Parent, Privsep::Health, Privsep::Redirect, Privsep::Relay] {
        assert!(!role.connects(role));
    }
}

#[test]
fn default_paths() {
    assert_eq!(relayd::relayd_config_path(), "/etc/relayd.conf");
    assert_eq!(relayd::relayd_socket_path(), "/var/run/relayd.sock");
}
