//! The parent orchestrator's decision logic.
//!
//! The parent loads the configuration, broadcasts it to every child role
//! followed by a start command, and thereafter only supervises: child
//! exits decide the daemon's own exit status, and messages received from
//! children are logged but not acted on.  The process plumbing — forking,
//! signals, channel I/O — lives with the daemon; everything decided here
//! is a function of plain values.

use vstd::prelude::*;
use vstd::string::StrSliceExecFns;
use vstd::string::StringExecFns;
use crate::config::parser::{spec_find_char, find_char};
use crate::config::Variable;
use crate::error::Error;
use crate::message::Type;
use crate::Privsep;

verus! {

/// The broadcast the parent performs on startup, in order: a `Config`
/// message to every non-parent role in topology order, then a `Start`
/// message to every non-parent role in the same order.
pub open spec fn spec_broadcast_plan() -> Seq<(Privsep, Type)> {
    seq![
        (Privsep::Health, Type::Config),
        (Privsep::Redirect, Type::Config),
        (Privsep::Relay, Type::Config),
        (Privsep::Health, Type::Start),
        (Privsep::Redirect, Type::Start),
        (Privsep::Relay, Type::Start),
    ]
}

/// The parent's startup broadcast: which message kind goes to which peer,
/// in exactly this order.
pub fn broadcast_plan() -> (r: Vec<(Privsep, Type)>)
    ensures
        r@ == spec_broadcast_plan(),
{
    let mut r: Vec<(Privsep, Type)> = Vec::new();
    r.push((Privsep::Health, Type::Config));
    r.push((Privsep::Redirect, Type::Config));
    r.push((Privsep::Relay, Type::Config));
    r.push((Privsep::Health, Type::Start));
    r.push((Privsep::Redirect, Type::Start));
    r.push((Privsep::Relay, Type::Start));
    proof {
        assert(r@ =~= spec_broadcast_plan());
    }
    r
}

/// How a supervised child ended, as far as the exit decision needs it.
#[derive(Debug, Clone, Copy, PartialEq, Eq, Structural)]
pub enum ExitEvent {
    /// The child exited with this status code.
    Exited(i32),
    /// The child ended any other way (signal, error from the wait call).
    Other,
}

/// The daemon's own exit status on a child exit: zero only for the clean
/// "child exited with status 0" case, non-zero otherwise.
pub fn supervise_exit_code(ev: &ExitEvent) -> (r: i32)
    ensures
        (r == 0) <==> (*ev == ExitEvent::Exited(0)),
        r == 0 || r == 1,
{
    match ev {
        ExitEvent::Exited(status) => {
            if *status == 0 {
                0
            } else {
                1
            }
        },
        ExitEvent::Other => 1,
    }
}

/// The number of occurrences of `c` in `s` at or after `i`.
pub open spec fn spec_count_char(s: Seq<char>, i: int, c: char) -> nat
    decreases s.len() - i,
{
    if i >= s.len() {
        0
    } else {
        (if s[i] == c {
            1nat
        } else {
            0nat
        }) + spec_count_char(s, i + 1, c)
    }
}

proof fn lemma_count_none(s: Seq<char>, i: int, c: char)
    requires
        0 <= i <= s.len(),
        spec_find_char(s, i, c).is_none(),
    ensures
        spec_count_char(s, i, c) == 0,
    decreases s.len() - i,
{
    if i < s.len() {
        lemma_count_none(s, i + 1, c);
    }
}

proof fn lemma_count_found(s: Seq<char>, i: int, c: char, k: int)
    requires
        0 <= i <= s.len(),
        spec_find_char(s, i, c) == Some(k),
    ensures
        i <= k < s.len(),
        spec_count_char(s, i, c) == 1 + spec_count_char(s, k + 1, c),
    decreases s.len() - i,
{
    crate::config::parser::lemma_find_char_bounds(s, i, c);
    if i < s.len() && s[i] != c {
        lemma_count_found(s, i + 1, c, k);
    }
}

/// Split a command-line macro definition `key=value` into a variable.  A
/// definition must contain exactly one `=` separator; anything else is a
/// `ParserError` carrying the offending argument, fatal before any
/// network activity begins.
pub fn parse_macro(arg: &str) -> (r: Result<Variable, Error>)
    ensures
        match r {
            Ok(v) => spec_count_char(arg@, 0, '=') == 1 && (spec_find_char(arg@, 0, '=')
                matches Some(k) && v.key@ == arg@.subrange(0, k) && v.value@ == arg@.subrange(
                k + 1,
                arg@.len() as int,
            )),
            Err(e) => spec_count_char(arg@, 0, '=') != 1 && e.is_parser_error(arg@),
        },
{
    let len = arg.unicode_len();
    match find_char(arg, 0, '=') {
        Some(k) => {
            match find_char(arg, k + 1, '=') {
                Some(_second) => {
                    proof {
                        lemma_count_found(arg@, 0, '=', k as int);
                        lemma_count_found(
                            arg@,
                            k + 1,
                            '=',
                            spec_find_char(arg@, k + 1, '=').unwrap(),
                        );
                    }
                    Err(Error::ParserError(String::from_str(arg)))
                },
                None => {
                    proof {
                        lemma_count_found(arg@, 0, '=', k as int);
                        lemma_count_none(arg@, k + 1, '=');
                    }
                    let key = String::from_str(arg.substring_char(0, k));
                    let value = String::from_str(arg.substring_char(k + 1, len));
                    Ok(Variable { key, value })
                },
            }
        },
        None => {
            proof {
                lemma_count_none(arg@, 0, '=');
            }
            Err(Error::ParserError(String::from_str(arg)))
        },
    }
}

} // verus!
