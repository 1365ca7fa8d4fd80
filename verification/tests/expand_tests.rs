//! Tests of the expansion engine.

use relayd::config::expand::inline_keyword;
use relayd::config::{config_expand2, Token, Variable, Variables};
use relayd::error::Error;

fn expand(input: &str) -> Result<String, Error> {
    config_expand2(input, Variables::new(), &Variables::new())
}

#[test]
fn variable_definition_is_idempotent() {
    // The second definition of `k` is ignored: both uses resolve to "a".
    let twice = expand("k=\"a\"\n$k\nk=\"b\"\n$k\n").unwrap();
    assert_eq!(twice, "\na\n\na\n");
    let once = expand("k=\"a\"\n$k\n$k\n").unwrap();
    assert_eq!(once, "\na\na\n");
}

#[test]
fn variable_substitution_uses_value() {
    let out = expand("name=\"www\"\nhost is $name here\n").unwrap();
    assert_eq!(out, "\nhost is www here\n");
}

#[test]
fn undefined_variable_passes_through() {
    let out = expand("$missing\n").unwrap();
    assert_eq!(out, "$missing\n");
}

#[test]
fn forward_only_resolution() {
    // A use before the definition stays literal: resolution is a single
    // forward pass.
    let out = expand("$k\nk=\"a\"\n$k\n").unwrap();
    assert_eq!(out, "$k\n\na\n");
}

#[test]
fn comment_lines_are_dropped() {
    let out = expand("a\n# hello\nb\n").unwrap();
    assert_eq!(out, "a\nb\n");
}

#[test]
fn line_continuation_is_spliced() {
    // The backslash-newline pair is removed, not replaced with whitespace.
    let out = expand("foo\\\nbar\n").unwrap();
    assert_eq!(out, "foobar\n");
}

#[test]
fn missing_trailing_newline_is_added() {
    let out = expand("last line").unwrap();
    assert_eq!(out, "last line\n");
}

#[test]
fn inserted_file_defines_variables() {
    // A variable defined in an inserted file resolves in the including
    // text after the directive line.
    let mut files = Variables::new();
    files.insert(String::from("x.conf"), String::from("a=\"1\"\n"));
    let input = format!("{} \"x.conf\"\n$a\n", inline_keyword());
    let out = config_expand2(&input, Variables::new(), &files).unwrap();
    assert_eq!(out, "\n\n1\n");
}

#[test]
fn inserted_file_splices_text() {
    let mut files = Variables::new();
    files.insert(String::from("x.conf"), String::from("middle\n"));
    let input = format!("top\n{} \"x.conf\"\nbottom\n", inline_keyword());
    let out = config_expand2(&input, Variables::new(), &files).unwrap();
    assert_eq!(out, "top\nmiddle\n\nbottom\n");
}

#[test]
fn missing_file_is_fatal() {
    let input = format!("{} \"absent.conf\"\n", inline_keyword());
    let err = config_expand2(&input, Variables::new(), &Variables::new()).unwrap_err();
    match err {
        Error::ParserError(msg) => {
            assert_eq!(msg, format!("{} file not found: absent.conf", inline_keyword()));
        }
        other => panic!("unexpected error: {:?}", other),
    }
}

#[test]
fn nested_insertion_failure_is_invalid() {
    // The inner directive names a file that is not available, so the
    // outer insertion is reported as invalid.
    let mut files = Variables::new();
    files.insert(
        String::from("outer.conf"),
        format!("{} \"inner.conf\"\n", inline_keyword()),
    );
    let input = format!("{} \"outer.conf\"\n", inline_keyword());
    let err = config_expand2(&input, Variables::new(), &files).unwrap_err();
    match err {
        Error::ParserError(msg) => {
            assert_eq!(msg, format!("invalid {}: outer.conf", inline_keyword()));
        }
        other => panic!("unexpected error: {:?}", other),
    }
}

#[test]
fn self_insertion_is_invalid() {
    let mut files = Variables::new();
    files.insert(
        String::from("loop.conf"),
        format!("{} \"loop.conf\"\n", inline_keyword()),
    );
    let input = format!("{} \"loop.conf\"\n", inline_keyword());
    let err = config_expand2(&input, Variables::new(), &files).unwrap_err();
    assert!(matches!(err, Error::ParserError(_)));
}

#[test]
fn externally_supplied_variables_resolve() {
    let mut vars = Variables::new();
    vars.insert(String::from("host"), String::from("example"));
    let out = config_expand2("$host\n", vars, &Variables::new()).unwrap();
    assert_eq!(out, "example\n");
}

#[test]
fn resolve_ignores_redefinition() {
    let mut vars = Variables::new();
    let mut output = String::new();
    Token::Variable(Variable {
        key: String::from("k"),
        value: String::from("a"),
    })
    .resolve(&mut output, &mut vars);
    Token::Variable(Variable {
        key: String::from("k"),
        value: String::from("b"),
    })
    .resolve(&mut output, &mut vars);
    assert_eq!(output, "");
    assert_eq!(vars.get("k").unwrap().as_str(), "a");
}

#[test]
fn direct_insert_overwrites() {
    // Unlike a definition resolved from the text, a direct insert (as the
    // command line's repeated macro definitions use) overwrites.
    let mut vars = Variables::new();
    vars.insert(String::from("k"), String::from("1"));
    vars.insert(String::from("k"), String::from("2"));
    assert_eq!(vars.get("k").unwrap().as_str(), "2");
    assert!(vars.contains_key("k"));
    assert!(!vars.contains_key("missing"));
}

#[test]
fn token_rendering() {
    let t = Token::Variable(Variable {
        key: String::from("k"),
        value: String::from("v"),
    });
    assert_eq!(t.to_string(), "k=\"v\"");
    assert_eq!(Token::UseVariable(String::from("x")).to_string(), "$x");
    assert_eq!(Token::Next(String::from("text")).to_string(), "text");
    assert_eq!(Token::Empty.to_string(), "");
    assert_eq!(Token::default().to_string(), "");
}
