//! Tests of the health-check scheduler's decision logic.

use relayd::config::{Config, Variables};
use relayd::error::Error;
use relayd::health::{
    health_step, outcome_events, probe_address, probe_targets, probe_verdict, Event, HealthAction,
};
use relayd::message::{Data, Type};
use relayd::Privsep;

fn parse(input: &str) -> Config {
    Config::parse(input, Variables::new(), &Variables::new()).unwrap()
}

#[test]
fn targets_flatten_all_tables() {
    let cfg = parse("table <\"a\"> { \"h1\", \"h2\" }\ntable <\"b\"> { \"h3\" }\n");
    let targets = probe_targets(&cfg);
    assert_eq!(targets.len(), 3);
    assert_eq!(targets[0].name, "h1");
    assert_eq!(targets[1].name, "h2");
    assert_eq!(targets[2].name, "h3");
    assert_eq!(targets[0].id, cfg.tables[0].hosts[0].id);
    assert_eq!(targets[2].id, cfg.tables[1].hosts[0].id);
}

#[test]
fn disabled_tables_are_still_probed() {
    // The probe loop does not filter out disabled tables' hosts; that
    // quirk is preserved as specified behaviour.
    let cfg = parse("table <\"a\"> disable { \"h1\" }\ntable <\"b\"> { \"h2\" }\n");
    let targets = probe_targets(&cfg);
    assert_eq!(targets.len(), 2);
    assert_eq!(targets[0].name, "h1");
}

#[test]
fn probe_address_appends_port() {
    assert_eq!(probe_address("example.org"), "example.org:80");
}

#[test]
fn verdict_is_first_success() {
    assert!(!probe_verdict(&vec![]));
    assert!(!probe_verdict(&vec![false, false]));
    assert!(probe_verdict(&vec![false, true, false]));
    assert!(probe_verdict(&vec![true]));
}

#[test]
fn batch_emits_two_events_per_outcome() {
    let outcomes: Vec<(u32, bool)> = vec![(1, true), (2, false), (3, true)];
    let events = outcome_events(&outcomes);
    assert_eq!(events.len(), 6);
    assert_eq!(
        events[0],
        Event { peer: Privsep::Redirect, kind: Type::HostUp, host: 1 }
    );
    assert_eq!(
        events[1],
        Event { peer: Privsep::Relay, kind: Type::HostUp, host: 1 }
    );
    assert_eq!(
        events[2],
        Event { peer: Privsep::Redirect, kind: Type::HostDown, host: 2 }
    );
    assert_eq!(
        events[3],
        Event { peer: Privsep::Relay, kind: Type::HostDown, host: 2 }
    );
    assert_eq!(
        events[4],
        Event { peer: Privsep::Redirect, kind: Type::HostUp, host: 3 }
    );
    assert_eq!(
        events[5],
        Event { peer: Privsep::Relay, kind: Type::HostUp, host: 3 }
    );
}

#[test]
fn batch_complete_regardless_of_order() {
    // Whatever order the outcomes complete in, each host's verdict
    // reaches each peer exactly once.
    let in_order: Vec<(u32, bool)> = vec![(1, true), (2, false), (3, true)];
    let shuffled: Vec<(u32, bool)> = vec![(3, true), (1, true), (2, false)];
    let a = outcome_events(&in_order);
    let b = outcome_events(&shuffled);
    assert_eq!(a.len(), b.len());
    for host in 1u32..=3 {
        for peer in [Privsep::Redirect, Privsep::Relay] {
            let in_a = a
                .iter()
                .filter(|e| e.host == host && e.peer == peer)
                .count();
            let in_b = b
                .iter()
                .filter(|e| e.host == host && e.peer == peer)
                .count();
            assert_eq!(in_a, 1);
            assert_eq!(in_b, 1);
            let kind_a = a.iter().find(|e| e.host == host && e.peer == peer).unwrap().kind;
            let kind_b = b.iter().find(|e| e.host == host && e.peer == peer).unwrap().kind;
            assert_eq!(kind_a, kind_b);
        }
    }
}

#[test]
fn health_accepts_config_then_start() {
    let cfg = parse("table <\"a\"> { \"h1\" }\n");
    match health_step(Type::Config, Data::Config(cfg)).unwrap() {
        HealthAction::SetConfig(c) => assert_eq!(c.tables.len(), 1),
        other => panic!("unexpected action: {:?}", other),
    }
    assert!(matches!(
        health_step(Type::Start, Data::Empty).unwrap(),
        HealthAction::Start
    ));
    assert!(matches!(
        health_step(Type::Start, Data::Config(Config::default())).unwrap(),
        HealthAction::Start
    ));
}

#[test]
fn health_rejects_unexpected() {
    assert!(matches!(
        health_step(Type::Config, Data::Empty),
        Err(Error::InvalidMessage)
    ));
    assert!(matches!(
        health_step(Type::HostUp, Data::Host(1)),
        Err(Error::InvalidMessage)
    ));
    assert!(matches!(
        health_step(Type::Unknown, Data::Empty),
        Err(Error::InvalidMessage)
    ));
}
