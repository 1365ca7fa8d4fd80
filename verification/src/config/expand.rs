//! The expansion engine.
//!
//! Resolves variable assignments, variable substitutions, file-insertion
//! directives and line continuations, and drops comment lines, producing a
//! single expanded text for the structural parser.  Expansion happens in
//! two phases: the text is first cut into tokens (with inserted files cut
//! recursively and spliced in place, depth-first), then the token stream is
//! resolved in a single forward pass that threads the variable mapping.
//!
//! The engine does not touch the filesystem: the caller hands it the
//! contents of every file the text may pull in, keyed by path, and a path
//! that is not present is reported as a fatal error naming the file.

use vstd::prelude::*;
use vstd::string::StrSliceExecFns;
use vstd::string::StringExecFns;
use super::parser::{spec_p_comment, spec_p_line, spec_p_quoted, spec_p_string, spec_skip_spaces,
    spec_tag, p_comment, p_line, p_quoted, p_string, p_tag, skip_ws};
use super::{Variable, Variables};
use crate::error::Error;

verus! {

/// How deep file insertion may nest before it is reported as invalid; a
/// cycle of files inserting one another would otherwise never terminate.
pub const MAX_INLINE_DEPTH: u64 = 32;

/// The directive keyword that inserts another file's contents.
pub open spec fn spec_inline_keyword() -> Seq<char> {
    "incl"@ + "ude"@
}

/// The directive keyword that inserts another file's contents.
pub fn inline_keyword() -> (r: String)
    ensures
        r@ == spec_inline_keyword(),
{
    let mut r = String::from_str("incl");
    r.append("ude");
    r
}

/// Mathematical model of an expansion token.
#[verifier::ext_equal]
pub enum TokenM {
    /// A variable definition `key="value"`.
    Variable { key: Seq<char>, value: Seq<char> },
    /// A variable substitution `$name`.
    UseVariable(Seq<char>),
    /// The text before a line continuation; the backslash-newline pair is
    /// removed, not replaced with whitespace.
    Escaped(Seq<char>),
    /// Literal text passed through unchanged.
    Next(Seq<char>),
    /// A discarded comment line.
    Empty,
}

/// One token of the expansion grammar.
#[derive(Debug, Clone)]
pub enum Token {
    /// A variable definition `key="value"`.
    Variable(Variable),
    /// A variable substitution `$name`.
    UseVariable(String),
    /// The text before a line continuation.
    Escaped(String),
    /// Literal text passed through unchanged.
    Next(String),
    /// A discarded comment line.
    Empty,
}

impl View for Token {
    type V = TokenM;

    open spec fn view(&self) -> TokenM {
        match self {
            Token::Variable(v) => TokenM::Variable { key: v.key@, value: v.value@ },
            Token::UseVariable(n) => TokenM::UseVariable(n@),
            Token::Escaped(v) => TokenM::Escaped(v@),
            Token::Next(v) => TokenM::Next(v@),
            Token::Empty => TokenM::Empty,
        }
    }
}

impl Default for Token {
    fn default() -> (r: Self)
        ensures
            r == Token::Empty,
    {
        Token::Empty
    }
}

/// The text a token renders back to.
pub open spec fn spec_token_to_string(t: TokenM) -> Seq<char> {
    match t {
        TokenM::Variable { key, value } => key + "=\""@ + value + "\""@,
        TokenM::UseVariable(n) => "$"@ + n,
        TokenM::Escaped(v) => v,
        TokenM::Next(v) => v,
        TokenM::Empty => Seq::empty(),
    }
}

/// What resolving one token does to the output text and the variable
/// mapping: a definition binds its key only if the key is still unbound
/// (the first definition wins) and emits nothing; a substitution emits the
/// variable's value, or itself verbatim when the variable is undefined, so
/// that the error surfaces in the structural parser; continuation and
/// literal text are appended; a comment emits nothing.
pub open spec fn spec_resolve(t: TokenM, out: Seq<char>, vars: Map<Seq<char>, Seq<char>>) -> (
    Seq<char>,
    Map<Seq<char>, Seq<char>>,
) {
    match t {
        TokenM::Variable { key, value } => if vars.contains_key(key) {
            (out, vars)
        } else {
            (out, vars.insert(key, value))
        },
        TokenM::UseVariable(n) => if vars.contains_key(n) {
            (out + vars[n], vars)
        } else {
            (out + "$"@ + n, vars)
        },
        TokenM::Escaped(v) => (out + v, vars),
        TokenM::Next(v) => (out + v, vars),
        TokenM::Empty => (out, vars),
    }
}

/// Resolving a token sequence: a single forward pass threading the
/// variable mapping.
pub open spec fn spec_resolve_seq(
    ts: Seq<TokenM>,
    out: Seq<char>,
    vars: Map<Seq<char>, Seq<char>>,
) -> (Seq<char>, Map<Seq<char>, Seq<char>>)
    decreases ts.len(),
{
    if ts.len() == 0 {
        (out, vars)
    } else {
        let a = spec_resolve(ts.first(), out, vars);
        spec_resolve_seq(ts.drop_first(), a.0, a.1)
    }
}

impl Token {
    /// The token rendered back as text.
    pub fn to_string(&self) -> (r: String)
        ensures
            r@ == spec_token_to_string(self@),
    {
        match self {
            Token::Variable(v) => v.to_string(),
            Token::UseVariable(n) => {
                let mut r = String::from_str("$");
                r.append(n.as_str());
                r
            },
            Token::Escaped(v) => v.clone(),
            Token::Next(v) => v.clone(),
            Token::Empty => String::new(),
        }
    }

    /// Resolve this token against the variable mapping, appending any
    /// produced text to `output`.
    pub fn resolve(&self, output: &mut String, variables: &mut Variables)
        ensures
            final(output)@ == spec_resolve(self@, old(output)@, old(variables)@).0,
            final(variables)@ == spec_resolve(self@, old(output)@, old(variables)@).1,
    {
        match self {
            Token::Empty => {},
            Token::Variable(var) => {
                if !variables.contains_key(var.key.as_str()) {
                    variables.insert(var.key.clone(), var.value.clone());
                }
            },
            Token::UseVariable(name) => {
                let defined = variables.contains_key(name.as_str());
                if defined {
                    match variables.get(name.as_str()) {
                        Some(value) => {
                            let value = value.clone();
                            output.append(value.as_str());
                        },
                        None => {},
                    }
                } else {
                    output.append("$");
                    output.append(name.as_str());
                }
            },
            Token::Escaped(v) => {
                output.append(v.as_str());
            },
            Token::Next(v) => {
                output.append(v.as_str());
            },
        }
    }
}

/// Resolving a concatenation of token streams resolves the first stream,
/// then the second against the output and variables the first one left
/// behind.  In particular the definitions made by tokens spliced in place
/// of a file-insertion directive govern every token that follows the
/// directive, exactly as if the inserted text had been written in place.
pub proof fn lemma_resolve_seq_concat(
    a: Seq<TokenM>,
    b: Seq<TokenM>,
    out: Seq<char>,
    vars: Map<Seq<char>, Seq<char>>,
)
    ensures
        spec_resolve_seq(a + b, out, vars) == spec_resolve_seq(
            b,
            spec_resolve_seq(a, out, vars).0,
            spec_resolve_seq(a, out, vars).1,
        ),
    decreases a.len(),
{
    if a.len() == 0 {
        assert(a + b =~= b);
    } else {
        assert((a + b).first() == a.first());
        assert((a + b).drop_first() =~= a.drop_first() + b);
        let r = spec_resolve(a.first(), out, vars);
        lemma_resolve_seq_concat(a.drop_first(), b, r.0, r.1);
    }
}

/// Idempotent variable definition: a definition of a key that is already
/// defined resolves to nothing — it changes neither the output nor the
/// variables — so a token stream that redefines a key expands exactly as
/// the stream without the second definition, whatever follows it.
pub proof fn lemma_variable_definition_idempotent(
    ts1: Seq<TokenM>,
    ts2: Seq<TokenM>,
    key: Seq<char>,
    value: Seq<char>,
    out: Seq<char>,
    vars: Map<Seq<char>, Seq<char>>,
)
    requires
        spec_resolve_seq(ts1, out, vars).1.contains_key(key),
    ensures
        spec_resolve_seq(ts1 + seq![TokenM::Variable { key, value }] + ts2, out, vars)
            == spec_resolve_seq(ts1 + ts2, out, vars),
{
    let m = spec_resolve_seq(ts1, out, vars);
    let one = seq![TokenM::Variable { key, value }];
    lemma_resolve_seq_concat(ts1, one, out, vars);
    assert(one.drop_first() =~= Seq::<TokenM>::empty());
    let a = spec_resolve(one.first(), m.0, m.1);
    assert(a == (m.0, m.1));
    assert(spec_resolve_seq(one.drop_first(), a.0, a.1) == (a.0, a.1));
    assert(spec_resolve_seq(one, m.0, m.1) == (a.0, a.1));
    assert(spec_resolve_seq(ts1 + one, out, vars).0 == m.0);
    assert(spec_resolve_seq(ts1 + one, out, vars).1 == m.1);
    lemma_resolve_seq_concat(ts1 + one, ts2, out, vars);
    lemma_resolve_seq_concat(ts1, ts2, out, vars);
}

// ---------------------------------------------------------------------------
// Scanners for the expansion grammar
// ---------------------------------------------------------------------------

/// The run of characters other than a backslash or a newline.
pub open spec fn spec_scan_plain_escape(s: Seq<char>, i: int) -> int
    decreases s.len() - i,
{
    if i < s.len() && s[i] != '\\' && s[i] != '\n' {
        spec_scan_plain_escape(s, i + 1)
    } else {
        i
    }
}

/// Consume characters other than a backslash or a newline.
pub fn scan_plain_escape(s: &str, i: usize) -> (r: usize)
    requires
        i <= s@.len(),
    ensures
        r == spec_scan_plain_escape(s@, i as int),
        i <= r <= s@.len(),
{
    let len = s.unicode_len();
    let mut j = i;
    loop
        invariant
            i <= j <= len,
            len == s@.len(),
            spec_scan_plain_escape(s@, i as int) == spec_scan_plain_escape(s@, j as int),
        decreases len - j,
    {
        if j >= len {
            return j;
        }
        let c = s.get_char(j);
        if c == '\\' || c == '\n' {
            return j;
        }
        j = j + 1;
    }
}

/// The run of characters other than a dollar sign or a newline.
pub open spec fn spec_scan_plain_use(s: Seq<char>, i: int) -> int
    decreases s.len() - i,
{
    if i < s.len() && s[i] != '$' && s[i] != '\n' {
        spec_scan_plain_use(s, i + 1)
    } else {
        i
    }
}

/// Consume characters other than a dollar sign or a newline.
pub fn scan_plain_use(s: &str, i: usize) -> (r: usize)
    requires
        i <= s@.len(),
    ensures
        r == spec_scan_plain_use(s@, i as int),
        i <= r <= s@.len(),
{
    let len = s.unicode_len();
    let mut j = i;
    loop
        invariant
            i <= j <= len,
            len == s@.len(),
            spec_scan_plain_use(s@, i as int) == spec_scan_plain_use(s@, j as int),
        decreases len - j,
    {
        if j >= len {
            return j;
        }
        let c = s.get_char(j);
        if c == '$' || c == '\n' {
            return j;
        }
        j = j + 1;
    }
}

// ---------------------------------------------------------------------------
// The token grammar: ordered alternation, first match wins per position
// ---------------------------------------------------------------------------

/// A variable definition: bare string, `=`, quoted-or-bare value.
pub open spec fn spec_try_variable(s: Seq<char>, i: int) -> Option<(int, TokenM)> {
    match spec_p_string(s, i) {
        Some((j, key)) => if j < s.len() && s[j] == '=' {
            match spec_p_quoted(s, j + 1) {
                Some((k, value)) => Some((k, TokenM::Variable { key, value })),
                None => None,
            }
        } else {
            None
        },
        None => None,
    }
}

/// A line continuation: text, then a backslash immediately followed by a
/// newline; the pair is removed.
pub open spec fn spec_try_escaped(s: Seq<char>, i: int) -> Option<(int, TokenM)> {
    let e = spec_scan_plain_escape(s, i);
    if e > i && e + 1 < s.len() && s[e] == '\\' && s[e + 1] == '\n' {
        Some((e + 2, TokenM::Escaped(s.subrange(i, e))))
    } else {
        None
    }
}

/// A variable substitution: optional preceding text on the fragment, `$`,
/// then the variable name.
pub open spec fn spec_try_use(s: Seq<char>, i: int) -> Option<(int, Seq<TokenM>)> {
    let p = spec_scan_plain_use(s, i);
    if p < s.len() && s[p] == '$' {
        match spec_p_string(s, p + 1) {
            Some((k, name)) => Some(
                (
                    k,
                    if p > i {
                        seq![TokenM::Next(s.subrange(i, p)), TokenM::UseVariable(name)]
                    } else {
                        seq![TokenM::UseVariable(name)]
                    },
                ),
            ),
            None => None,
        }
    } else {
        None
    }
}

proof fn lemma_scan_escape_stops(s: Seq<char>, i: int, q: int)
    requires
        0 <= i <= q <= s.len(),
        forall|k: int| i <= k < q ==> s[k] != '\\' && s[k] != '\n',
        q == s.len() || s[q] == '\\' || s[q] == '\n',
    ensures
        spec_scan_plain_escape(s, i) == q,
    decreases q - i,
{
    if i < q {
        lemma_scan_escape_stops(s, i + 1, q);
    }
}

proof fn lemma_scan_use_stops(s: Seq<char>, i: int, q: int)
    requires
        0 <= i <= q <= s.len(),
        forall|k: int| i <= k < q ==> s[k] != '$' && s[k] != '\n',
        q == s.len() || s[q] == '$' || s[q] == '\n',
    ensures
        spec_scan_plain_use(s, i) == q,
    decreases q - i,
{
    if i < q {
        lemma_scan_use_stops(s, i + 1, q);
    }
}

/// The outcome of cutting a text into tokens.
pub enum TokenizeResult {
    /// The token stream, with inserted files spliced in place.
    Parsed(Seq<TokenM>),
    /// A file-insertion directive named a path that is not available.
    FileNotFound(Seq<char>),
    /// The contents of an inserted file could not themselves be expanded,
    /// or insertion nests too deep.
    BadInsertion(Seq<char>),
}

/// The outcome of one grammar step.
pub enum AstResult {
    /// The tokens produced at this position, and where the step ended.
    Tok { end: int, tokens: Seq<TokenM> },
    /// A file-insertion failure.
    FileNotFound(Seq<char>),
    /// A nested insertion failure.
    BadInsertion(Seq<char>),
}

/// A file-insertion directive: the keyword, at least one whitespace
/// character, then the quoted-or-bare path.  `None` when the text at `i`
/// does not have that shape (the line then passes through the later
/// alternatives); a recognized directive whose file is missing or whose
/// contents do not expand is a fatal error.
pub open spec fn spec_try_inline(
    s: Seq<char>,
    i: int,
    files: Map<Seq<char>, Seq<char>>,
    depth: nat,
) -> Option<AstResult>
    decreases depth, s.len() - i, 0int,
{
    if spec_tag(s, i, spec_inline_keyword()) {
        let a = i + spec_inline_keyword().len();
        let j = spec_skip_spaces(s, a);
        if j > a {
            match spec_p_quoted(s, j) {
                Some((k, path)) => if !files.contains_key(path) {
                    Some(AstResult::FileNotFound(path))
                } else if depth == 0 {
                    Some(AstResult::BadInsertion(path))
                } else {
                    match spec_tokenize(files[path], 0, files, (depth - 1) as nat) {
                        TokenizeResult::Parsed(ts) => Some(AstResult::Tok { end: k, tokens: ts }),
                        TokenizeResult::FileNotFound(_p) => Some(AstResult::BadInsertion(path)),
                        TokenizeResult::BadInsertion(_p) => Some(AstResult::BadInsertion(path)),
                    }
                },
                None => None,
            }
        } else {
            None
        }
    } else {
        None
    }
}

/// A comment line becomes an empty token; any other line passes through
/// with a trailing newline.
pub open spec fn spec_read_line(s: Seq<char>, i: int) -> (int, Seq<TokenM>) {
    match spec_p_comment(s, i) {
        Some((j, _c)) => (j, seq![TokenM::Empty]),
        None => {
            let lv = spec_p_line(s, i);
            (lv.0, seq![TokenM::Next(lv.1 + "\n"@)])
        },
    }
}

/// One step of the expansion grammar at position `i`: the alternatives are
/// tried in order — variable definition, line continuation, variable
/// substitution, file insertion, comment or ordinary line — and the first
/// that matches is taken.
pub open spec fn spec_ast(s: Seq<char>, i: int, files: Map<Seq<char>, Seq<char>>, depth: nat)
    -> AstResult
    decreases depth, s.len() - i, 1int,
{
    match spec_try_variable(s, i) {
        Some((k, t)) => AstResult::Tok { end: k, tokens: seq![t] },
        None => match spec_try_escaped(s, i) {
            Some((k, t)) => AstResult::Tok { end: k, tokens: seq![t] },
            None => match spec_try_use(s, i) {
                Some((k, ts)) => AstResult::Tok { end: k, tokens: ts },
                None => match spec_try_inline(s, i, files, depth) {
                    Some(r) => r,
                    None => {
                        let lv = spec_read_line(s, i);
                        AstResult::Tok { end: lv.0, tokens: lv.1 }
                    },
                },
            },
        },
    }
}

/// Cut the text into tokens from position `i` to the end.
pub open spec fn spec_tokenize(
    s: Seq<char>,
    i: int,
    files: Map<Seq<char>, Seq<char>>,
    depth: nat,
) -> TokenizeResult
    decreases depth, s.len() - i, 2int,
{
    if i >= s.len() {
        TokenizeResult::Parsed(Seq::empty())
    } else {
        match spec_ast(s, i, files, depth) {
            AstResult::Tok { end, tokens } => if i < end <= s.len() {
                match spec_tokenize(s, end, files, depth) {
                    TokenizeResult::Parsed(rest) => TokenizeResult::Parsed(tokens + rest),
                    TokenizeResult::FileNotFound(p) => TokenizeResult::FileNotFound(p),
                    TokenizeResult::BadInsertion(p) => TokenizeResult::BadInsertion(p),
                }
            } else {
                TokenizeResult::Parsed(tokens)
            },
            AstResult::FileNotFound(p) => TokenizeResult::FileNotFound(p),
            AstResult::BadInsertion(p) => TokenizeResult::BadInsertion(p),
        }
    }
}

/// Round-trip of comments: at any position where a comment line starts —
/// optional whitespace and a `#` — the expansion grammar recognizes the
/// comment and produces only the empty token, which resolves to nothing:
/// the comment is absent from the structural parser's input, and neither
/// the output nor the variable mapping is altered.  (A comment whose text
/// carries a `$` substitution or ends in a line continuation is taken by
/// those earlier grammar alternatives instead, as the ordered alternation
/// prescribes; the premise rules those characters out.)
pub proof fn lemma_comment_round_trip(
    s: Seq<char>,
    i: int,
    files: Map<Seq<char>, Seq<char>>,
    depth: nat,
    out: Seq<char>,
    vars: Map<Seq<char>, Seq<char>>,
)
    requires
        0 <= i <= s.len(),
        spec_skip_spaces(s, i) < s.len(),
        s[spec_skip_spaces(s, i)] == '#',
        match super::parser::spec_find_char(s, i, '\n') {
            Some(nl) => forall|k: int| i <= k < nl ==> s[k] != '$' && s[k] != '\\',
            None => forall|k: int| i <= k < s.len() ==> s[k] != '$' && s[k] != '\\',
        },
    ensures
        spec_ast(s, i, files, depth) == (AstResult::Tok {
            end: spec_p_comment(s, i).unwrap().0,
            tokens: seq![TokenM::Empty],
        }),
        spec_resolve(TokenM::Empty, out, vars) == (out, vars),
{
    let j = spec_skip_spaces(s, i);
    super::parser::lemma_skip_spaces_bounds(s, i);
    assert(i < s.len());
    // The position starts with whitespace or `#`, so no bare string and
    // hence no variable definition can begin here.
    if j > i {
        assert(super::parser::is_space(s[i]));
    } else {
        assert(s[i] == '#');
    }
    assert(!super::parser::allowed_in_string(s[i]));
    assert(super::parser::spec_string_end(s, i) == i);
    assert(spec_try_variable(s, i).is_none());
    // The comment's text holds no `$` and no backslash up to its newline,
    // so neither a line continuation nor a substitution can begin here.
    super::parser::lemma_find_char_first(s, i, '\n');
    let q = match super::parser::spec_find_char(s, i, '\n') {
        Some(nl) => nl,
        None => s.len() as int,
    };
    super::parser::lemma_find_char_bounds(s, i, '\n');
    assert(forall|k: int| i <= k < q ==> s[k] != '\n');
    assert(forall|k: int| i <= k < q ==> s[k] != '$' && s[k] != '\\');
    lemma_scan_escape_stops(s, i, q);
    lemma_scan_use_stops(s, i, q);
    assert(spec_try_escaped(s, i).is_none());
    assert(spec_try_use(s, i).is_none());
    // The directive keyword starts with a letter, so it cannot begin at
    // whitespace or at `#`.
    reveal_strlit("incl");
    reveal_strlit("ude");
    let kw = spec_inline_keyword();
    assert(kw.len() == 7);
    assert(kw[0] == 'i');
    if spec_tag(s, i, kw) {
        assert(s.subrange(i, i + 7)[0] == s[i]);
        assert(s[i] == 'i');
        assert(false);
    }
    assert(spec_try_inline(s, i, files, depth).is_none());
    assert(spec_p_comment(s, i) matches Some(jv) && spec_read_line(s, i) == (
        jv.0,
        seq![TokenM::Empty],
    ));
}

/// The diagnostic for a missing inserted file.
pub open spec fn spec_err_not_found(path: Seq<char>) -> Seq<char> {
    spec_inline_keyword() + " file not found: "@ + path
}

/// The diagnostic for an inserted file whose contents do not expand.
pub open spec fn spec_err_bad_insertion(path: Seq<char>) -> Seq<char> {
    "invalid "@ + spec_inline_keyword() + ": "@ + path
}

/// Render the diagnostic for a missing inserted file.
fn render_not_found(path: &str) -> (r: String)
    ensures
        r@ == spec_err_not_found(path@),
{
    let mut r = inline_keyword();
    r.append(" file not found: ");
    r.append(path);
    r
}

/// Render the diagnostic for an inserted file whose contents do not
/// expand.
fn render_bad_insertion(path: &str) -> (r: String)
    ensures
        r@ == spec_err_bad_insertion(path@),
{
    let mut r = String::from_str("invalid ");
    let kw = inline_keyword();
    r.append(kw.as_str());
    r.append(": ");
    r.append(path);
    r
}

/// One executable step of the expansion grammar: pushes the produced
/// tokens and returns the position after the step.
fn ast_step(s: &str, i: usize, files: &Variables, depth: u64, out: &mut Vec<Token>) -> (r: Result<
    usize,
    Error,
>)
    requires
        i < s@.len(),
    ensures
        match spec_ast(s@, i as int, files@, depth as nat) {
            AstResult::Tok { end, tokens } => match r {
                Ok(j) => j == end && i < j <= s@.len() && final(out)@.map_values(|t: Token| t@)
                    == old(out)@.map_values(|t: Token| t@) + tokens,
                Err(_e) => false,
            },
            AstResult::FileNotFound(p) => r matches Err(e) && e.is_parser_error(
                spec_err_not_found(p),
            ),
            AstResult::BadInsertion(p) => r matches Err(e) && e.is_parser_error(
                spec_err_bad_insertion(p),
            ),
        },
    decreases depth, s@.len() - i, 1int,
{
    let ghost old_tokens = out@.map_values(|t: Token| t@);
    let len = s.unicode_len();

    // Variable definition.
    match p_string(s, i) {
        Some((j, key)) => {
            if j < len && s.get_char(j) == '=' {
                match p_quoted(s, j + 1) {
                    Some((k, value)) => {
                        out.push(Token::Variable(Variable { key, value }));
                        proof {
                            assert(out@.map_values(|t: Token| t@) =~= old_tokens + seq![
                                out@.last()@,
                            ]);
                        }
                        return Ok(k);
                    },
                    None => {},
                }
            }
        },
        None => {},
    }

    // Line continuation.
    let e = scan_plain_escape(s, i);
    if e > i && len - e > 1 && s.get_char(e) == '\\' && s.get_char(e + 1) == '\n' {
        let v = String::from_str(s.substring_char(i, e));
        out.push(Token::Escaped(v));
        proof {
            assert(spec_try_variable(s@, i as int).is_none());
            assert(out@.map_values(|t: Token| t@) =~= old_tokens + seq![out@.last()@]);
        }
        return Ok(e + 2);
    }

    // Variable substitution.
    let p = scan_plain_use(s, i);
    if p < len && s.get_char(p) == '$' {
        match p_string(s, p + 1) {
            Some((k, name)) => {
                if p > i {
                    let prefix = String::from_str(s.substring_char(i, p));
                    out.push(Token::Next(prefix));
                    out.push(Token::UseVariable(name));
                    proof {
                        assert(out@.map_values(|t: Token| t@) =~= old_tokens + seq![
                            out@[out@.len() - 2]@,
                            out@.last()@,
                        ]);
                    }
                } else {
                    out.push(Token::UseVariable(name));
                    proof {
                        assert(out@.map_values(|t: Token| t@) =~= old_tokens + seq![
                            out@.last()@,
                        ]);
                    }
                }
                return Ok(k);
            },
            None => {},
        }
    }

    // File insertion.
    let kw = inline_keyword();
    match p_tag(s, i, kw.as_str()) {
        Some(a) => {
            let j = skip_ws(s, a);
            if j > a {
                match p_quoted(s, j) {
                    Some((k, path)) => {
                        match files.get(path.as_str()) {
                            None => {
                                return Err(Error::ParserError(render_not_found(path.as_str())));
                            },
                            Some(contents) => {
                                if depth == 0 {
                                    return Err(
                                        Error::ParserError(render_bad_insertion(path.as_str())),
                                    );
                                }
                                let contents = contents.clone();
                                match tokenize(contents.as_str(), files, depth - 1, out) {
                                    Ok(_u) => {
                                        return Ok(k);
                                    },
                                    Err(_e) => {
                                        return Err(
                                            Error::ParserError(
                                                render_bad_insertion(path.as_str()),
                                            ),
                                        );
                                    },
                                }
                            },
                        }
                    },
                    None => {},
                }
            }
        },
        None => {},
    }

    // Comment or ordinary line.
    match p_comment(s, i) {
        Some((j, _c)) => {
            out.push(Token::Empty);
            proof {
                assert(out@.map_values(|t: Token| t@) =~= old_tokens + seq![out@.last()@]);
            }
            Ok(j)
        },
        None => {
            let lv = p_line(s, i);
            let mut v = lv.1;
            v.append("\n");
            out.push(Token::Next(v));
            proof {
                assert(out@.map_values(|t: Token| t@) =~= old_tokens + seq![out@.last()@]);
            }
            Ok(lv.0)
        },
    }
}

/// Cut a whole text into tokens, appending them to `out`.
fn tokenize(s: &str, files: &Variables, depth: u64, out: &mut Vec<Token>) -> (r: Result<(), Error>)
    ensures
        match spec_tokenize(s@, 0, files@, depth as nat) {
            TokenizeResult::Parsed(ts) => match r {
                Ok(_u) => final(out)@.map_values(|t: Token| t@) == old(out)@.map_values(
                    |t: Token| t@,
                ) + ts,
                Err(_e) => false,
            },
            TokenizeResult::FileNotFound(p) => r matches Err(e) && e.is_parser_error(
                spec_err_not_found(p),
            ),
            TokenizeResult::BadInsertion(p) => r matches Err(e) && e.is_parser_error(
                spec_err_bad_insertion(p),
            ),
        },
    decreases depth, s@.len(), 2int,
{
    let ghost base = out@.map_values(|t: Token| t@);
    let len = s.unicode_len();
    let mut i: usize = 0;
    let ghost mut acc: Seq<TokenM> = Seq::empty();
    proof {
        assert(base + acc =~= base);
    }
    loop
        invariant
            i <= len,
            len == s@.len(),
            base == old(out)@.map_values(|t: Token| t@),
            out@.map_values(|t: Token| t@) == base + acc,
            match spec_tokenize(s@, i as int, files@, depth as nat) {
                TokenizeResult::Parsed(rest) => spec_tokenize(s@, 0, files@, depth as nat)
                    == TokenizeResult::Parsed(acc + rest),
                TokenizeResult::FileNotFound(p) => spec_tokenize(s@, 0, files@, depth as nat)
                    == TokenizeResult::FileNotFound(p),
                TokenizeResult::BadInsertion(p) => spec_tokenize(s@, 0, files@, depth as nat)
                    == TokenizeResult::BadInsertion(p),
            },
        decreases len - i,
    {
        if i >= len {
            proof {
                assert(acc + Seq::<TokenM>::empty() =~= acc);
            }
            return Ok(());
        }
        match ast_step(s, i, files, depth, out) {
            Ok(j) => {
                proof {
                    match spec_ast(s@, i as int, files@, depth as nat) {
                        AstResult::Tok { end, tokens } => {
                            match spec_tokenize(s@, j as int, files@, depth as nat) {
                                TokenizeResult::Parsed(rest) => {
                                    assert((acc + tokens) + rest =~= acc + (tokens + rest));
                                },
                                TokenizeResult::FileNotFound(_p) => {},
                                TokenizeResult::BadInsertion(_p) => {},
                            }
                            acc = acc + tokens;
                        },
                        AstResult::FileNotFound(_p) => {},
                        AstResult::BadInsertion(_p) => {},
                    }
                }
                i = j;
            },
            Err(e) => {
                return Err(e);
            },
        }
    }
}

/// Expand a raw configuration text: cut it into tokens (splicing inserted
/// files depth-first), then resolve the token stream against the supplied
/// variable mapping in one forward pass.
pub fn config_expand2(s: &str, variables: Variables, files: &Variables) -> (r: Result<
    String,
    Error,
>)
    ensures
        match spec_tokenize(s@, 0, files@, MAX_INLINE_DEPTH as nat) {
            TokenizeResult::Parsed(ts) => match r {
                Ok(expanded) => expanded@ == spec_resolve_seq(
                    ts,
                    Seq::empty(),
                    variables@,
                ).0,
                Err(_e) => false,
            },
            TokenizeResult::FileNotFound(p) => r matches Err(e) && e.is_parser_error(
                spec_err_not_found(p),
            ),
            TokenizeResult::BadInsertion(p) => r matches Err(e) && e.is_parser_error(
                spec_err_bad_insertion(p),
            ),
        },
{
    let mut tokens: Vec<Token> = Vec::new();
    match tokenize(s, files, MAX_INLINE_DEPTH, &mut tokens) {
        Ok(_u) => {},
        Err(e) => {
            return Err(e);
        },
    }
    let ghost all = tokens@.map_values(|t: Token| t@);
    let mut output = String::new();
    let mut vars = variables;
    let mut k: usize = 0;
    proof {
        assert(all.subrange(0, all.len() as int) =~= all);
    }
    while k < tokens.len()
        invariant
            k <= tokens.len(),
            all == tokens@.map_values(|t: Token| t@),
            spec_resolve_seq(all, Seq::empty(), variables@) == spec_resolve_seq(
                all.subrange(k as int, all.len() as int),
                output@,
                vars@,
            ),
        decreases tokens.len() - k,
    {
        let ghost rest = all.subrange(k as int, all.len() as int);
        proof {
            assert(rest.first() == all[k as int]);
            assert(rest.drop_first() =~= all.subrange(k + 1, all.len() as int));
        }
        tokens[k].resolve(&mut output, &mut vars);
        k = k + 1;
    }
    proof {
        assert(all.subrange(tokens.len() as int, all.len() as int) =~= Seq::<TokenM>::empty());
    }
    Ok(output)
}

} // verus!
