//! Tests of the structural parser and the parsed data model.

use relayd::config::{config_parser, Config, ProtocolType, Variables};
use relayd::error::Error;

fn parse(input: &str) -> Result<Config, Error> {
    Config::parse(input, Variables::new(), &Variables::new())
}

#[test]
fn empty_input_yields_defaults() {
    let cfg = parse("").unwrap();
    assert_eq!(cfg.interval, 10);
    assert_eq!(cfg.timeout, 200);
    assert_eq!(cfg.socket, "/var/run/relayd.sock");
    assert!(cfg.tables.is_empty());
    assert!(cfg.redirects.is_empty());
    assert!(cfg.relays.is_empty());
    assert!(cfg.protocols.is_empty());
}

#[test]
fn global_directives_are_applied() {
    let cfg = parse("interval 30\ntimeout 500\nsocket <\"/tmp/r.sock\">\n").unwrap();
    assert_eq!(cfg.interval, 30);
    assert_eq!(cfg.timeout, 500);
    assert_eq!(cfg.socket, "/tmp/r.sock");
}

#[test]
fn table_host_count() {
    // One table named pool1 with exactly two hosts, each with a distinct
    // freshly assigned identifier.
    let cfg = parse("table <\"pool1\"> { \"h1\", \"h2\" }\n").unwrap();
    assert_eq!(cfg.tables.len(), 1);
    let t = &cfg.tables[0];
    assert_eq!(t.name, "pool1");
    assert_eq!(t.hosts.len(), 2);
    assert_eq!(t.hosts[0].name, "h1");
    assert_eq!(t.hosts[1].name, "h2");
    assert_ne!(t.hosts[0].id, t.hosts[1].id);
    assert_ne!(t.hosts[0].id, 0);
    assert_ne!(t.hosts[1].id, 0);
    assert!(!t.disabled);
}

#[test]
fn disabled_table_flag() {
    let cfg = parse("table <\"pool1\"> disable { \"h1\" }\n").unwrap();
    assert_eq!(cfg.tables.len(), 1);
    assert!(cfg.tables[0].disabled);
    assert_eq!(cfg.tables[0].name, "pool1");
    assert_eq!(cfg.tables[0].hosts.len(), 1);
}

#[test]
fn identifiers_are_fresh_per_parse() {
    let input = "table <\"a\"> { \"h1\" }\ntable <\"b\"> { \"h2\", \"h3\" }\n";
    let cfg = parse(input).unwrap();
    assert_eq!(cfg.tables[0].id, 1);
    assert_eq!(cfg.tables[1].id, 2);
    assert_eq!(cfg.tables[0].hosts[0].id, 1);
    assert_eq!(cfg.tables[1].hosts[0].id, 2);
    assert_eq!(cfg.tables[1].hosts[1].id, 3);
    // A fresh parse assigns the same identifiers again.
    let again = parse(input).unwrap();
    assert_eq!(again.tables[1].hosts[1].id, 3);
}

#[test]
fn comment_does_not_alter_parsing() {
    let with = parse("interval 5\n# hello\ntable <\"t\"> { \"h\" }\n").unwrap();
    let without = parse("interval 5\ntable <\"t\"> { \"h\" }\n").unwrap();
    assert_eq!(with.interval, without.interval);
    assert_eq!(with.tables.len(), without.tables.len());
    assert_eq!(with.tables[0].name, without.tables[0].name);
    assert_eq!(with.tables[0].id, without.tables[0].id);
    assert_eq!(with.tables[0].hosts.len(), without.tables[0].hosts.len());
    assert_eq!(with.tables[0].hosts[0].id, without.tables[0].hosts[0].id);
}

#[test]
fn redirect_and_relay_bodies_are_skipped() {
    let cfg = parse("redirect <\"r1\"> { anything here }\nrelay <\"l1\"> { other stuff }\n")
        .unwrap();
    assert_eq!(cfg.redirects.len(), 1);
    assert_eq!(cfg.redirects[0].name, "r1");
    assert_eq!(cfg.redirects[0].id, 1);
    assert_eq!(cfg.relays.len(), 1);
    assert_eq!(cfg.relays[0].name, "l1");
    assert_eq!(cfg.relays[0].id, 1);
}

#[test]
fn nested_braces_balance() {
    let cfg = parse("redirect <\"r1\"> { outer { inner } tail }\n").unwrap();
    assert_eq!(cfg.redirects.len(), 1);
}

#[test]
fn unbalanced_brace_fails() {
    assert!(parse("redirect <\"r1\"> { open { \n").is_err());
}

#[test]
fn protocol_with_type() {
    let cfg = parse("protocol http <\"web\"> { return error\n}\n").unwrap();
    assert_eq!(cfg.protocols.len(), 1);
    assert_eq!(cfg.protocols[0].name, "web");
    assert!(matches!(cfg.protocols[0].typ, ProtocolType::Http));
}

#[test]
fn protocol_defaults_to_tcp() {
    let cfg = parse("protocol <\"plain\"> { tcp nodelay\n}\n").unwrap();
    assert!(matches!(cfg.protocols[0].typ, ProtocolType::Tcp));
}

#[test]
fn protocol_options_are_recognized_syntactically() {
    let input = "protocol dns <\"d\"> { return error\nblock\nmatch something\ntls keypair\n# note\n}\n";
    let cfg = parse(input).unwrap();
    assert!(matches!(cfg.protocols[0].typ, ProtocolType::Dns));
}

#[test]
fn full_parse_failure_is_deterministic() {
    // An unterminated table never yields a partial configuration, and the
    // failure is the same on every run.
    let first = parse("table <\"x\"\n");
    let second = parse("table <\"x\"\n");
    let m1 = match first {
        Err(Error::ParserError(m)) => m,
        other => panic!("expected a parse error, got {:?}", other),
    };
    let m2 = match second {
        Err(Error::ParserError(m)) => m,
        other => panic!("expected a parse error, got {:?}", other),
    };
    assert_eq!(m1, m2);
    assert!(m1.starts_with("configuration parse error at: "));
}

#[test]
fn trailing_garbage_is_an_error() {
    assert!(parse("interval 5\n???garbage(((\n").is_err());
}

#[test]
fn integer_overflow_is_an_error() {
    assert!(parse("interval 99999999999999999999\n").is_err());
}

#[test]
fn last_directive_wins() {
    let cfg = parse("interval 5\ninterval 7\n").unwrap();
    assert_eq!(cfg.interval, 7);
}

#[test]
fn expansion_feeds_parser() {
    let mut vars = Variables::new();
    vars.insert(String::from("pool"), String::from("pool1"));
    let cfg = Config::parse("table <$pool> { \"h1\" }\n", vars, &Variables::new()).unwrap();
    assert_eq!(cfg.tables[0].name, "pool1");
}
