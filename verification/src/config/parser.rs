//! The structural parser.
//!
//! Consumes a fully expanded configuration text and produces a `Config`,
//! failing deterministically on any syntax violation; trailing unparsed
//! content is itself an error.  The grammar is a fixed-priority ordered
//! alternation of sections; the first alternative that matches at the
//! current position is taken.
//!
//! Every parsing function is written against a specification-level grammar
//! function over the text's sequence of characters; the executable parser is
//! proved to return exactly what the grammar denotes.

use vstd::prelude::*;
use vstd::string::StrSliceExecFns;
use vstd::string::StringExecFns;
use super::{default_config, Config, ConfigM, Host, HostM, IdAlloc, Protocol, ProtocolM,
    ProtocolType, Redirect, RedirectM, Relay, RelayM, Table, TableM};
use crate::error::Error;

verus! {

/// Mathematical model of one parsed configuration section.
#[verifier::ext_equal]
pub enum SectionM {
    Interval(u64),
    Socket(Seq<char>),
    Timeout(u64),
    Table { name: Seq<char>, disabled: bool, hosts: Seq<Seq<char>> },
    Redirect(Seq<char>),
    Relay(Seq<char>),
    Protocol { name: Seq<char>, typ: ProtocolType },
    Ignore,
}

/// One parsed configuration section.
#[derive(Debug)]
pub enum Section {
    /// Global probe interval, in seconds.
    Interval(u64),
    /// Global control socket path.
    Socket(String),
    /// Global probe timeout, in milliseconds.
    Timeout(u64),
    /// A named pool of hosts, possibly disabled.
    Table { name: String, disabled: bool, hosts: Vec<String> },
    /// A redirect declaration; its body is skipped.
    Redirect(String),
    /// A relay declaration; its body is skipped.
    Relay(String),
    /// A protocol declaration; its option block is skipped.
    Protocol { name: String, typ: ProtocolType },
    /// A comment or blank run; contributes nothing.
    Ignore,
}

impl View for Section {
    type V = SectionM;

    open spec fn view(&self) -> SectionM {
        match self {
            Section::Interval(v) => SectionM::Interval(*v),
            Section::Socket(p) => SectionM::Socket(p@),
            Section::Timeout(v) => SectionM::Timeout(*v),
            Section::Table { name, disabled, hosts } => SectionM::Table {
                name: name@,
                disabled: *disabled,
                hosts: hosts@.map_values(|n: String| n@),
            },
            Section::Redirect(n) => SectionM::Redirect(n@),
            Section::Relay(n) => SectionM::Relay(n@),
            Section::Protocol { name, typ } => SectionM::Protocol { name: name@, typ: *typ },
            Section::Ignore => SectionM::Ignore,
        }
    }
}

// ---------------------------------------------------------------------------
// Character classes
// ---------------------------------------------------------------------------

/// Whitespace: space, tab, carriage return or newline.
pub open spec fn is_space(c: char) -> bool {
    c == ' ' || c == '\t' || c == '\r' || c == '\n'
}

/// Executable whitespace test.
pub fn is_space_char(c: char) -> (r: bool)
    ensures
        r == is_space(c),
{
    c == ' ' || c == '\t' || c == '\r' || c == '\n'
}

/// ASCII decimal digit.
pub open spec fn is_digit(c: char) -> bool {
    48 <= c as u32 <= 57
}

/// Executable digit test.
pub fn is_digit_char(c: char) -> (r: bool)
    ensures
        r == is_digit(c),
{
    let u = c as u32;
    48 <= u && u <= 57
}

/// ASCII punctuation.
pub open spec fn is_ascii_punct(c: char) -> bool {
    let u = c as u32;
    (33 <= u <= 47) || (58 <= u <= 64) || (91 <= u <= 96) || (123 <= u <= 126)
}

/// ASCII alphanumeric.
pub open spec fn is_ascii_alnum(c: char) -> bool {
    let u = c as u32;
    (48 <= u <= 57) || (65 <= u <= 90) || (97 <= u <= 122)
}

/// Characters a bare string may contain: alphanumerics plus punctuation,
/// excluding the structural delimiters `(` `)` `{` `}` `<` `>` `!` `=` `#`
/// `,` `/`.
pub open spec fn allowed_in_string(c: char) -> bool {
    is_ascii_alnum(c) || (is_ascii_punct(c) && c != '(' && c != ')' && c != '{' && c != '}'
        && c != '<' && c != '>' && c != '!' && c != '=' && c != '#' && c != ',' && c != '/')
}

/// Executable bare-string character test.
pub fn allowed_in_string_char(c: char) -> (r: bool)
    ensures
        r == allowed_in_string(c),
{
    let u = c as u32;
    let alnum = (48 <= u && u <= 57) || (65 <= u && u <= 90) || (97 <= u && u <= 122);
    let punct = (33 <= u && u <= 47) || (58 <= u && u <= 64) || (91 <= u && u <= 96) || (123 <= u
        && u <= 126);
    alnum || (punct && c != '(' && c != ')' && c != '{' && c != '}' && c != '<' && c != '>'
        && c != '!' && c != '=' && c != '#' && c != ',' && c != '/')
}

// ---------------------------------------------------------------------------
// Scanning primitives
// ---------------------------------------------------------------------------

/// The position after the run of whitespace starting at `i`.
pub open spec fn spec_skip_spaces(s: Seq<char>, i: int) -> int
    decreases s.len() - i,
{
    if i < s.len() && is_space(s[i]) {
        spec_skip_spaces(s, i + 1)
    } else {
        i
    }
}

pub proof fn lemma_skip_spaces_bounds(s: Seq<char>, i: int)
    requires
        0 <= i <= s.len(),
    ensures
        i <= spec_skip_spaces(s, i) <= s.len(),
    decreases s.len() - i,
{
    if i < s.len() && is_space(s[i]) {
        lemma_skip_spaces_bounds(s, i + 1);
    }
}

/// Consume whitespace.
pub fn skip_ws(s: &str, i: usize) -> (r: usize)
    requires
        i <= s@.len(),
    ensures
        r == spec_skip_spaces(s@, i as int),
        i <= r <= s@.len(),
{
    let len = s.unicode_len();
    let mut j = i;
    while j < len && is_space_char(s.get_char(j))
        invariant
            i <= j <= len,
            len == s@.len(),
            spec_skip_spaces(s@, i as int) == spec_skip_spaces(s@, j as int),
        decreases len - j,
    {
        j = j + 1;
    }
    j
}

/// The position after the run of bare-string characters starting at `i`.
pub open spec fn spec_string_end(s: Seq<char>, i: int) -> int
    decreases s.len() - i,
{
    if i < s.len() && allowed_in_string(s[i]) {
        spec_string_end(s, i + 1)
    } else {
        i
    }
}

pub proof fn lemma_string_end_bounds(s: Seq<char>, i: int)
    requires
        0 <= i <= s.len(),
    ensures
        i <= spec_string_end(s, i) <= s.len(),
    decreases s.len() - i,
{
    if i < s.len() && allowed_in_string(s[i]) {
        lemma_string_end_bounds(s, i + 1);
    }
}

/// Consume bare-string characters.
pub fn string_run_end(s: &str, i: usize) -> (r: usize)
    requires
        i <= s@.len(),
    ensures
        r == spec_string_end(s@, i as int),
        i <= r <= s@.len(),
{
    let len = s.unicode_len();
    let mut j = i;
    while j < len && allowed_in_string_char(s.get_char(j))
        invariant
            i <= j <= len,
            len == s@.len(),
            spec_string_end(s@, i as int) == spec_string_end(s@, j as int),
        decreases len - j,
    {
        j = j + 1;
    }
    j
}

/// The position after the run of digits starting at `i`.
pub open spec fn spec_digits_end(s: Seq<char>, i: int) -> int
    decreases s.len() - i,
{
    if i < s.len() && is_digit(s[i]) {
        spec_digits_end(s, i + 1)
    } else {
        i
    }
}

pub proof fn lemma_digits_end_bounds(s: Seq<char>, i: int)
    requires
        0 <= i <= s.len(),
    ensures
        i <= spec_digits_end(s, i) <= s.len(),
    decreases s.len() - i,
{
    if i < s.len() && is_digit(s[i]) {
        lemma_digits_end_bounds(s, i + 1);
    }
}

/// The index of the first occurrence of `c` at or after `i`, if any.
pub open spec fn spec_find_char(s: Seq<char>, i: int, c: char) -> Option<int>
    decreases s.len() - i,
{
    if i >= s.len() {
        None
    } else if s[i] == c {
        Some(i)
    } else {
        spec_find_char(s, i + 1, c)
    }
}

pub proof fn lemma_find_char_bounds(s: Seq<char>, i: int, c: char)
    requires
        0 <= i <= s.len(),
    ensures
        match spec_find_char(s, i, c) {
            Some(k) => i <= k < s.len() && s[k] == c,
            None => true,
        },
    decreases s.len() - i,
{
    if i < s.len() && s[i] != c {
        lemma_find_char_bounds(s, i + 1, c);
    }
}

pub proof fn lemma_find_char_first(s: Seq<char>, i: int, c: char)
    requires
        0 <= i <= s.len(),
    ensures
        match spec_find_char(s, i, c) {
            Some(k) => forall|j: int| i <= j < k ==> s[j] != c,
            None => forall|j: int| i <= j < s.len() ==> s[j] != c,
        },
    decreases s.len() - i,
{
    if i < s.len() && s[i] != c {
        lemma_find_char_first(s, i + 1, c);
    }
}

/// Find the first occurrence of `c` at or after `i`.
pub fn find_char(s: &str, i: usize, c: char) -> (r: Option<usize>)
    requires
        i <= s@.len(),
    ensures
        match r {
            Some(k) => spec_find_char(s@, i as int, c) == Some(k as int) && i <= k < s@.len(),
            None => spec_find_char(s@, i as int, c).is_none(),
        },
{
    let len = s.unicode_len();
    let mut j = i;
    while j < len && s.get_char(j) != c
        invariant
            i <= j <= len,
            len == s@.len(),
            spec_find_char(s@, i as int, c) == spec_find_char(s@, j as int, c),
        decreases len - j,
    {
        j = j + 1;
    }
    if j < len {
        Some(j)
    } else {
        None
    }
}

// ---------------------------------------------------------------------------
// Lexical productions: bare string, quoted string, line, comment, integer
// ---------------------------------------------------------------------------

/// A bare string: one or more characters allowed in a string.
pub open spec fn spec_p_string(s: Seq<char>, i: int) -> Option<(int, Seq<char>)> {
    let j = spec_string_end(s, i);
    if j > i {
        Some((j, s.subrange(i, j)))
    } else {
        None
    }
}

/// Parse a bare string.
pub fn p_string(s: &str, i: usize) -> (r: Option<(usize, String)>)
    requires
        i <= s@.len(),
    ensures
        match r {
            Some(jv) => spec_p_string(s@, i as int) == Some((jv.0 as int, jv.1@)) && i < jv.0
                <= s@.len(),
            None => spec_p_string(s@, i as int).is_none(),
        },
{
    let j = string_run_end(s, i);
    if j > i {
        let v = String::from_str(s.substring_char(i, j));
        Some((j, v))
    } else {
        None
    }
}

/// A quoted-or-bare value: a double-quoted string (any characters up to the
/// closing quote), or a bare string.
pub open spec fn spec_p_quoted(s: Seq<char>, i: int) -> Option<(int, Seq<char>)> {
    if i < s.len() && s[i] == '"' {
        match spec_find_char(s, i + 1, '"') {
            Some(k) => Some((k + 1, s.subrange(i + 1, k))),
            None => None,
        }
    } else {
        spec_p_string(s, i)
    }
}

/// Parse a quoted-or-bare value.
pub fn p_quoted(s: &str, i: usize) -> (r: Option<(usize, String)>)
    requires
        i <= s@.len(),
    ensures
        match r {
            Some(jv) => spec_p_quoted(s@, i as int) == Some((jv.0 as int, jv.1@)) && i < jv.0
                <= s@.len(),
            None => spec_p_quoted(s@, i as int).is_none(),
        },
{
    let len = s.unicode_len();
    if i < len && s.get_char(i) == '"' {
        match find_char(s, i + 1, '"') {
            Some(k) => {
                let v = String::from_str(s.substring_char(i + 1, k));
                Some((k + 1, v))
            },
            None => None,
        }
    } else {
        p_string(s, i)
    }
}

/// A line: everything up to the next newline or the end of input; the
/// newline and any following whitespace are consumed.
pub open spec fn spec_p_line(s: Seq<char>, i: int) -> (int, Seq<char>) {
    match spec_find_char(s, i, '\n') {
        Some(k) => (spec_skip_spaces(s, k), s.subrange(i, k)),
        None => (s.len() as int, s.subrange(i, s.len() as int)),
    }
}

pub proof fn lemma_p_line_bounds(s: Seq<char>, i: int)
    requires
        0 <= i <= s.len(),
    ensures
        i <= spec_p_line(s, i).0 <= s.len(),
        i < s.len() ==> i < spec_p_line(s, i).0,
{
    lemma_find_char_bounds(s, i, '\n');
    match spec_find_char(s, i, '\n') {
        Some(k) => {
            lemma_skip_spaces_bounds(s, k);
            assert(is_space(s[k]));
            assert(spec_skip_spaces(s, k) == spec_skip_spaces(s, k + 1));
            lemma_skip_spaces_bounds(s, k + 1);
        },
        None => {},
    }
}

/// Consume a line.
pub fn p_line(s: &str, i: usize) -> (r: (usize, String))
    requires
        i <= s@.len(),
    ensures
        r.0 as int == spec_p_line(s@, i as int).0 && r.1@ == spec_p_line(s@, i as int).1,
        i <= r.0 <= s@.len(),
        i < s@.len() ==> i < r.0,
{
    proof {
        lemma_p_line_bounds(s@, i as int);
    }
    match find_char(s, i, '\n') {
        Some(k) => {
            let v = String::from_str(s.substring_char(i, k));
            let j = skip_ws(s, k);
            (j, v)
        },
        None => {
            let len = s.unicode_len();
            let v = String::from_str(s.substring_char(i, len));
            (len, v)
        },
    }
}

/// A comment: optional whitespace, `#`, then the rest of the line.
pub open spec fn spec_p_comment(s: Seq<char>, i: int) -> Option<(int, Seq<char>)> {
    let j = spec_skip_spaces(s, i);
    if j < s.len() && s[j] == '#' {
        Some(spec_p_line(s, j + 1))
    } else {
        None
    }
}

pub proof fn lemma_p_comment_bounds(s: Seq<char>, i: int)
    requires
        0 <= i <= s.len(),
    ensures
        match spec_p_comment(s, i) {
            Some(jv) => i < jv.0 <= s.len(),
            None => true,
        },
{
    lemma_skip_spaces_bounds(s, i);
    let j = spec_skip_spaces(s, i);
    if j < s.len() && s[j] == '#' {
        lemma_p_line_bounds(s, j + 1);
    }
}

/// Parse a comment; the returned string is the comment's text.
pub fn p_comment(s: &str, i: usize) -> (r: Option<(usize, String)>)
    requires
        i <= s@.len(),
    ensures
        match r {
            Some(jv) => spec_p_comment(s@, i as int) == Some((jv.0 as int, jv.1@)) && i < jv.0
                <= s@.len(),
            None => spec_p_comment(s@, i as int).is_none(),
        },
{
    proof {
        lemma_p_comment_bounds(s@, i as int);
    }
    let len = s.unicode_len();
    let j = skip_ws(s, i);
    if j < len && s.get_char(j) == '#' {
        let lv = p_line(s, j + 1);
        Some((lv.0, lv.1))
    } else {
        None
    }
}

/// The numeric value of a digit sequence, most significant digit first.
pub open spec fn spec_digits_val(ds: Seq<char>) -> nat
    decreases ds.len(),
{
    if ds.len() == 0 {
        0
    } else {
        spec_digits_val(ds.drop_last()) * 10 + (ds.last() as u32 - 48) as nat
    }
}

/// An unsigned decimal integer that fits in 64 bits.
pub open spec fn spec_p_integer(s: Seq<char>, i: int) -> Option<(int, u64)> {
    let j = spec_digits_end(s, i);
    if j > i && spec_digits_val(s.subrange(i, j)) <= u64::MAX {
        Some((j, spec_digits_val(s.subrange(i, j)) as u64))
    } else {
        None
    }
}

/// Parse an unsigned decimal integer; a value that overflows 64 bits is a
/// parse failure.
pub fn p_integer(s: &str, i: usize) -> (r: Option<(usize, u64)>)
    requires
        i <= s@.len(),
    ensures
        match r {
            Some(jv) => spec_p_integer(s@, i as int) == Some((jv.0 as int, jv.1)) && i < jv.0
                <= s@.len(),
            None => spec_p_integer(s@, i as int).is_none(),
        },
{
    proof {
        lemma_digits_end_bounds(s@, i as int);
    }
    let len = s.unicode_len();
    let mut j = i;
    let mut val: u64 = 0;
    let mut overflow = false;
    while j < len && is_digit_char(s.get_char(j))
        invariant
            i <= j <= len,
            len == s@.len(),
            spec_digits_end(s@, i as int) == spec_digits_end(s@, j as int),
            !overflow ==> val == spec_digits_val(s@.subrange(i as int, j as int)),
            overflow ==> spec_digits_val(s@.subrange(i as int, j as int)) > u64::MAX,
        decreases len - j,
    {
        let d = s.get_char(j) as u32 - 48;
        proof {
            assert(s@.subrange(i as int, j + 1).drop_last() =~= s@.subrange(i as int, j as int));
            assert(s@.subrange(i as int, j + 1).last() == s@[j as int]);
        }
        if !overflow {
            if val > u64::MAX / 10 || (val == u64::MAX / 10 && (d as u64) > u64::MAX % 10) {
                overflow = true;
                proof {
                    let prev = spec_digits_val(s@.subrange(i as int, j as int));
                    assert(spec_digits_val(s@.subrange(i as int, j + 1)) == prev * 10 + d);
                    assert(prev * 10 + d > u64::MAX) by (nonlinear_arith)
                        requires
                            prev == val,
                            d < 10,
                            (val > u64::MAX / 10 || (val == u64::MAX / 10 && d > u64::MAX % 10)),
                    ;
                }
            } else {
                proof {
                    let prev = spec_digits_val(s@.subrange(i as int, j as int));
                    assert(prev * 10 + d <= u64::MAX) by (nonlinear_arith)
                        requires
                            prev == val,
                            d < 10,
                            !(val > u64::MAX / 10 || (val == u64::MAX / 10 && d > u64::MAX % 10)),
                    ;
                }
                val = val * 10 + (d as u64);
            }
        } else {
            proof {
                let prev = spec_digits_val(s@.subrange(i as int, j as int));
                assert(spec_digits_val(s@.subrange(i as int, j + 1)) == prev * 10 + d);
            }
        }
        j = j + 1;
    }
    if j > i && !overflow {
        Some((j, val))
    } else {
        proof {
            if j > i {
                assert(spec_digits_val(s@.subrange(i as int, j as int)) > u64::MAX);
            }
        }
        None
    }
}

/// Match a fixed keyword at position `i`.
pub open spec fn spec_tag(s: Seq<char>, i: int, tag: Seq<char>) -> bool {
    i + tag.len() <= s.len() && s.subrange(i, i + tag.len()) == tag
}

/// Match a fixed keyword at position `i`; returns the position after it.
pub fn p_tag(s: &str, i: usize, tag: &str) -> (r: Option<usize>)
    requires
        i <= s@.len(),
    ensures
        match r {
            Some(j) => spec_tag(s@, i as int, tag@) && j == i + tag@.len() && j <= s@.len(),
            None => !spec_tag(s@, i as int, tag@),
        },
{
    let len = s.unicode_len();
    let tag_len = tag.unicode_len();
    if tag_len > len - i {
        proof {
            assert(!spec_tag(s@, i as int, tag@));
        }
        return None;
    }
    let mut k: usize = 0;
    while k < tag_len
        invariant
            0 <= k <= tag_len,
            i + tag_len <= len,
            len == s@.len(),
            tag_len == tag@.len(),
            forall|m: int| 0 <= m < k ==> s@[i + m] == tag@[m],
        decreases tag_len - k,
    {
        if s.get_char(i + k) != tag.get_char(k) {
            proof {
                assert(s@.subrange(i as int, i + tag@.len())[k as int] != tag@[k as int]);
            }
            return None;
        }
        k = k + 1;
    }
    proof {
        assert(s@.subrange(i as int, i + tag@.len()) =~= tag@);
    }
    Some(i + tag_len)
}

// ---------------------------------------------------------------------------
// Balanced-brace blocks
// ---------------------------------------------------------------------------

/// The position just after the `}` that closes a block whose contents start
/// at `i`, with `depth` additional unclosed inner braces; `None` when the
/// input ends first.
pub open spec fn spec_block_end(s: Seq<char>, i: int, depth: nat) -> Option<int>
    decreases s.len() - i,
{
    if i >= s.len() {
        None
    } else if s[i] == '}' {
        if depth == 0 {
            Some(i + 1)
        } else {
            spec_block_end(s, i + 1, (depth - 1) as nat)
        }
    } else if s[i] == '{' {
        spec_block_end(s, i + 1, depth + 1)
    } else {
        spec_block_end(s, i + 1, depth)
    }
}

pub proof fn lemma_block_end_bounds(s: Seq<char>, i: int, depth: nat)
    requires
        0 <= i <= s.len(),
    ensures
        match spec_block_end(s, i, depth) {
            Some(k) => i < k <= s.len(),
            None => true,
        },
    decreases s.len() - i,
{
    if i < s.len() {
        lemma_block_end_bounds(s, i + 1, (depth + 1) as nat);
        if depth > 0 {
            lemma_block_end_bounds(s, i + 1, (depth - 1) as nat);
        }
        lemma_block_end_bounds(s, i + 1, depth);
    }
}

/// A balanced-brace block: `{`, any content whose braces balance, `}`;
/// returns the position after the matching close brace.
pub open spec fn spec_p_block(s: Seq<char>, i: int) -> Option<int> {
    if i < s.len() && s[i] == '{' {
        spec_block_end(s, i + 1, 0)
    } else {
        None
    }
}

/// Skip a balanced-brace block.
pub fn p_block(s: &str, i: usize) -> (r: Option<usize>)
    requires
        i <= s@.len(),
    ensures
        match r {
            Some(k) => spec_p_block(s@, i as int) == Some(k as int) && i < k <= s@.len(),
            None => spec_p_block(s@, i as int).is_none(),
        },
{
    let len = s.unicode_len();
    if !(i < len && s.get_char(i) == '{') {
        return None;
    }
    proof {
        lemma_block_end_bounds(s@, i + 1, 0);
    }
    let mut j = i + 1;
    let mut depth: usize = 0;
    loop
        invariant
            i + 1 <= j <= len,
            len == s@.len(),
            depth <= j,
            i < len && s@[i as int] == '{',
            spec_block_end(s@, i + 1, 0) == spec_block_end(s@, j as int, depth as nat),
        decreases len - j,
    {
        if j >= len {
            proof {
                assert(spec_block_end(s@, j as int, depth as nat).is_none());
            }
            return None;
        }
        let c = s.get_char(j);
        if c == '}' {
            if depth == 0 {
                proof {
                    assert(s@[i as int] == '{');
                    assert(spec_block_end(s@, j as int, 0nat) == Some(j + 1 as int));
                    assert(spec_block_end(s@, i as int + 1, 0nat) == Some(j + 1 as int));
                    assert(spec_p_block(s@, i as int) == Some(j + 1 as int));
                }
                return Some(j + 1);
            }
            depth = depth - 1;
        } else if c == '{' {
            depth = depth + 1;
        }
        j = j + 1;
    }
}

// ---------------------------------------------------------------------------
// Host lists
// ---------------------------------------------------------------------------

/// A list separator: whitespace, an optional comma, more whitespace.
pub open spec fn spec_p_sep(s: Seq<char>, i: int) -> int {
    let j = spec_skip_spaces(s, i);
    let k = if j < s.len() && s[j] == ',' {
        j + 1
    } else {
        j
    };
    spec_skip_spaces(s, k)
}

pub proof fn lemma_p_sep_bounds(s: Seq<char>, i: int)
    requires
        0 <= i <= s.len(),
    ensures
        i <= spec_p_sep(s, i) <= s.len(),
{
    lemma_skip_spaces_bounds(s, i);
    let j = spec_skip_spaces(s, i);
    let k = if j < s.len() && s[j] == ',' {
        j + 1
    } else {
        j
    };
    lemma_skip_spaces_bounds(s, k);
}

/// Consume a list separator.
pub fn p_sep(s: &str, i: usize) -> (r: usize)
    requires
        i <= s@.len(),
    ensures
        r == spec_p_sep(s@, i as int),
        i <= r <= s@.len(),
{
    let len = s.unicode_len();
    let j = skip_ws(s, i);
    let k = if j < len && s.get_char(j) == ',' {
        j + 1
    } else {
        j
    };
    skip_ws(s, k)
}

/// One host name inside a table's host list: separators around a
/// quoted-or-bare name.
pub open spec fn spec_p_host(s: Seq<char>, i: int) -> Option<(int, Seq<char>)> {
    let j = spec_p_sep(s, i);
    match spec_p_quoted(s, j) {
        Some((k, name)) => Some((spec_p_sep(s, k), name)),
        None => None,
    }
}

pub proof fn lemma_p_quoted_bounds(s: Seq<char>, i: int)
    requires
        0 <= i <= s.len(),
    ensures
        match spec_p_quoted(s, i) {
            Some(kv) => i < kv.0 <= s.len(),
            None => true,
        },
{
    if i < s.len() && s[i] == '"' {
        lemma_find_char_bounds(s, i + 1, '"');
    } else {
        lemma_string_end_bounds(s, i);
    }
}

pub proof fn lemma_p_host_bounds(s: Seq<char>, i: int)
    requires
        0 <= i <= s.len(),
    ensures
        match spec_p_host(s, i) {
            Some(kv) => i < kv.0 <= s.len(),
            None => true,
        },
{
    lemma_p_sep_bounds(s, i);
    let j = spec_p_sep(s, i);
    lemma_p_quoted_bounds(s, j);
    match spec_p_quoted(s, j) {
        Some((k, _name)) => {
            lemma_p_sep_bounds(s, k);
        },
        None => {},
    }
}

/// Parse one host name.
pub fn p_host(s: &str, i: usize) -> (r: Option<(usize, String)>)
    requires
        i <= s@.len(),
    ensures
        match r {
            Some(jv) => spec_p_host(s@, i as int) == Some((jv.0 as int, jv.1@)) && i < jv.0
                <= s@.len(),
            None => spec_p_host(s@, i as int).is_none(),
        },
{
    proof {
        lemma_p_host_bounds(s@, i as int);
    }
    let j = p_sep(s, i);
    match p_quoted(s, j) {
        Some((k, name)) => {
            let m = p_sep(s, k);
            Some((m, name))
        },
        None => None,
    }
}

/// The host names of a table body, parsed until the closing brace comes
/// into view.
pub open spec fn spec_p_hosts(s: Seq<char>, i: int) -> Option<(int, Seq<Seq<char>>)>
    decreases s.len() - i,
{
    if i < s.len() && s[i] == '}' {
        Some((i, Seq::empty()))
    } else {
        match spec_p_host(s, i) {
            Some((j, name)) => if i < j <= s.len() {
                match spec_p_hosts(s, j) {
                    Some((k, rest)) => Some((k, seq![name] + rest)),
                    None => None,
                }
            } else {
                None
            },
            None => None,
        }
    }
}

pub proof fn lemma_p_hosts_bounds(s: Seq<char>, i: int)
    requires
        0 <= i <= s.len(),
    ensures
        match spec_p_hosts(s, i) {
            Some(kv) => i <= kv.0 < s.len() && s[kv.0] == '}',
            None => true,
        },
    decreases s.len() - i,
{
    if i < s.len() && s[i] == '}' {
    } else {
        lemma_p_host_bounds(s, i);
        match spec_p_host(s, i) {
            Some((j, _name)) => {
                if i < j <= s.len() {
                    lemma_p_hosts_bounds(s, j);
                }
            },
            None => {},
        }
    }
}

/// Parse the host names of a table body.
pub fn p_hosts(s: &str, i: usize) -> (r: Option<(usize, Vec<String>)>)
    requires
        i <= s@.len(),
    ensures
        match r {
            Some(jv) => spec_p_hosts(s@, i as int) == Some(
                (jv.0 as int, jv.1@.map_values(|n: String| n@)),
            ) && i <= jv.0 <= s@.len(),
            None => spec_p_hosts(s@, i as int).is_none(),
        },
{
    let len = s.unicode_len();
    let mut names: Vec<String> = Vec::new();
    let mut j = i;
    loop
        invariant
            i <= j <= len,
            len == s@.len(),
            match spec_p_hosts(s@, j as int) {
                Some(kv) => spec_p_hosts(s@, i as int) == Some(
                    (kv.0, names@.map_values(|n: String| n@) + kv.1),
                ),
                None => spec_p_hosts(s@, i as int).is_none(),
            },
        decreases len - j,
    {
        if j < len && s.get_char(j) == '}' {
            proof {
                assert(spec_p_hosts(s@, j as int) == Some(
                    (j as int, Seq::<Seq<char>>::empty()),
                ));
                assert(names@.map_values(|n: String| n@) + Seq::<Seq<char>>::empty()
                    =~= names@.map_values(|n: String| n@));
            }
            return Some((j, names));
        }
        match p_host(s, j) {
            Some((k, name)) => {
                let ghost old_names = names@;
                names.push(name);
                proof {
                    assert(names@.map_values(|n: String| n@) =~= old_names.map_values(
                        |n: String| n@,
                    ) + seq![name@]);
                    match spec_p_hosts(s@, k as int) {
                        Some(kv) => {
                            assert(old_names.map_values(|n: String| n@) + (seq![name@] + kv.1)
                                =~= names@.map_values(|n: String| n@) + kv.1);
                        },
                        None => {},
                    }
                }
                j = k;
            },
            None => {
                return None;
            },
        }
    }
}

/// A table body: a brace-delimited, comma-or-newline-separated list of host
/// names.
pub open spec fn spec_p_table_options(s: Seq<char>, i: int) -> Option<(int, Seq<Seq<char>>)> {
    if i < s.len() && s[i] == '{' {
        match spec_p_hosts(s, i + 1) {
            Some((j, hosts)) => Some((j + 1, hosts)),
            None => None,
        }
    } else {
        None
    }
}

// ---------------------------------------------------------------------------
// Global directives
// ---------------------------------------------------------------------------

/// `interval <seconds>`.
pub open spec fn spec_p_interval(s: Seq<char>, i: int) -> Option<(int, u64)> {
    if spec_tag(s, i, "interval"@) {
        let a = spec_skip_spaces(s, i + "interval"@.len());
        spec_p_integer(s, a)
    } else {
        None
    }
}

/// Parse an `interval` directive.
pub fn p_interval(s: &str, i: usize) -> (r: Option<(usize, u64)>)
    requires
        i <= s@.len(),
    ensures
        match r {
            Some(jv) => spec_p_interval(s@, i as int) == Some((jv.0 as int, jv.1)) && i < jv.0
                <= s@.len(),
            None => spec_p_interval(s@, i as int).is_none(),
        },
{
    match p_tag(s, i, "interval") {
        Some(a0) => {
            let a = skip_ws(s, a0);
            p_integer(s, a)
        },
        None => None,
    }
}

/// `timeout <milliseconds>`.
pub open spec fn spec_p_timeout(s: Seq<char>, i: int) -> Option<(int, u64)> {
    if spec_tag(s, i, "timeout"@) {
        let a = spec_skip_spaces(s, i + "timeout"@.len());
        spec_p_integer(s, a)
    } else {
        None
    }
}

/// Parse a `timeout` directive.
pub fn p_timeout(s: &str, i: usize) -> (r: Option<(usize, u64)>)
    requires
        i <= s@.len(),
    ensures
        match r {
            Some(jv) => spec_p_timeout(s@, i as int) == Some((jv.0 as int, jv.1)) && i < jv.0
                <= s@.len(),
            None => spec_p_timeout(s@, i as int).is_none(),
        },
{
    match p_tag(s, i, "timeout") {
        Some(a0) => {
            let a = skip_ws(s, a0);
            p_integer(s, a)
        },
        None => None,
    }
}

/// `socket <"path">`: the control socket path in angle brackets.
pub open spec fn spec_p_socket(s: Seq<char>, i: int) -> Option<(int, Seq<char>)> {
    if spec_tag(s, i, "socket"@) {
        let a = spec_skip_spaces(s, i + "socket"@.len());
        if a < s.len() && s[a] == '<' {
            match spec_p_quoted(s, a + 1) {
                Some((b, path)) => if b < s.len() && s[b] == '>' {
                    Some((b + 1, path))
                } else {
                    None
                },
                None => None,
            }
        } else {
            None
        }
    } else {
        None
    }
}

/// Parse a `socket` directive.
pub fn p_socket(s: &str, i: usize) -> (r: Option<(usize, String)>)
    requires
        i <= s@.len(),
    ensures
        match r {
            Some(jv) => spec_p_socket(s@, i as int) == Some((jv.0 as int, jv.1@)) && i < jv.0
                <= s@.len(),
            None => spec_p_socket(s@, i as int).is_none(),
        },
{
    let len = s.unicode_len();
    match p_tag(s, i, "socket") {
        Some(a0) => {
            let a = skip_ws(s, a0);
            if a < len && s.get_char(a) == '<' {
                match p_quoted(s, a + 1) {
                    Some((b, path)) => {
                        if b < len && s.get_char(b) == '>' {
                            Some((b + 1, path))
                        } else {
                            None
                        }
                    },
                    None => None,
                }
            } else {
                None
            }
        },
        None => None,
    }
}

// ---------------------------------------------------------------------------
// Table sections
// ---------------------------------------------------------------------------

/// `table <"name"> [disable] { host-list }` followed by the rest of its
/// line.
pub open spec fn spec_p_table(s: Seq<char>, i: int) -> Option<(int, SectionM)> {
    if spec_tag(s, i, "table"@) {
        let a = spec_skip_spaces(s, i + "table"@.len());
        if a < s.len() && s[a] == '<' {
            match spec_p_quoted(s, a + 1) {
                Some((b, name)) => if b < s.len() && s[b] == '>' {
                    let c = spec_skip_spaces(s, b + 1);
                    let disabled = spec_tag(s, c, "disable"@);
                    let d = if disabled {
                        spec_skip_spaces(s, c + "disable"@.len())
                    } else {
                        c
                    };
                    match spec_p_table_options(s, d) {
                        Some((e, hosts)) => Some(
                            (spec_p_line(s, e).0, SectionM::Table { name, disabled, hosts }),
                        ),
                        None => None,
                    }
                } else {
                    None
                },
                None => None,
            }
        } else {
            None
        }
    } else {
        None
    }
}

/// Parse a `table` section.
pub fn p_table(s: &str, i: usize) -> (r: Option<(usize, Section)>)
    requires
        i <= s@.len(),
    ensures
        match r {
            Some(jv) => spec_p_table(s@, i as int) == Some((jv.0 as int, jv.1@)) && i < jv.0
                <= s@.len(),
            None => spec_p_table(s@, i as int).is_none(),
        },
{
    let len = s.unicode_len();
    match p_tag(s, i, "table") {
        Some(a0) => {
            let a = skip_ws(s, a0);
            if a < len && s.get_char(a) == '<' {
                match p_quoted(s, a + 1) {
                    Some((b, name)) => {
                        if b < len && s.get_char(b) == '>' {
                            let c = skip_ws(s, b + 1);
                            let (d, disabled) = match p_tag(s, c, "disable") {
                                Some(d0) => (skip_ws(s, d0), true),
                                None => (c, false),
                            };
                            match p_table_options(s, d) {
                                Some((e, hosts)) => {
                                    let lv = p_line(s, e);
                                    Some((lv.0, Section::Table { name, disabled, hosts }))
                                },
                                None => None,
                            }
                        } else {
                            None
                        }
                    },
                    None => None,
                }
            } else {
                None
            }
        },
        None => None,
    }
}

// ---------------------------------------------------------------------------
// Redirect and relay sections
// ---------------------------------------------------------------------------

/// `redirect <"name"> { ... }`: the body is skipped as a balanced-brace
/// block.
pub open spec fn spec_p_redirect(s: Seq<char>, i: int) -> Option<(int, Seq<char>)> {
    if spec_tag(s, i, "redirect"@) {
        spec_p_named_block(s, i + "redirect"@.len())
    } else {
        None
    }
}

/// `relay <"name"> { ... }`: the body is skipped as a balanced-brace block.
pub open spec fn spec_p_relay(s: Seq<char>, i: int) -> Option<(int, Seq<char>)> {
    if spec_tag(s, i, "relay"@) {
        spec_p_named_block(s, i + "relay"@.len())
    } else {
        None
    }
}

/// The common tail of a redirect or relay section: `<"name">`, a
/// balanced-brace block, then the rest of the line.
pub open spec fn spec_p_named_block(s: Seq<char>, i: int) -> Option<(int, Seq<char>)> {
    let a = spec_skip_spaces(s, i);
    if a < s.len() && s[a] == '<' {
        match spec_p_quoted(s, a + 1) {
            Some((b, name)) => if b < s.len() && s[b] == '>' {
                let c = spec_skip_spaces(s, b + 1);
                match spec_p_block(s, c) {
                    Some(d) => Some((spec_p_line(s, d).0, name)),
                    None => None,
                }
            } else {
                None
            },
            None => None,
        }
    } else {
        None
    }
}

/// Parse the common tail of a redirect or relay section.
pub fn p_named_block(s: &str, i: usize) -> (r: Option<(usize, String)>)
    requires
        i <= s@.len(),
    ensures
        match r {
            Some(jv) => spec_p_named_block(s@, i as int) == Some((jv.0 as int, jv.1@)) && i < jv.0
                <= s@.len(),
            None => spec_p_named_block(s@, i as int).is_none(),
        },
{
    let len = s.unicode_len();
    let a = skip_ws(s, i);
    if a < len && s.get_char(a) == '<' {
        match p_quoted(s, a + 1) {
            Some((b, name)) => {
                if b < len && s.get_char(b) == '>' {
                    let c = skip_ws(s, b + 1);
                    match p_block(s, c) {
                        Some(d) => {
                            let lv = p_line(s, d);
                            Some((lv.0, name))
                        },
                        None => None,
                    }
                } else {
                    None
                }
            },
            None => None,
        }
    } else {
        None
    }
}

/// Parse a `redirect` section.
pub fn p_redirect(s: &str, i: usize) -> (r: Option<(usize, String)>)
    requires
        i <= s@.len(),
    ensures
        match r {
            Some(jv) => spec_p_redirect(s@, i as int) == Some((jv.0 as int, jv.1@)) && i < jv.0
                <= s@.len(),
            None => spec_p_redirect(s@, i as int).is_none(),
        },
{
    match p_tag(s, i, "redirect") {
        Some(a) => p_named_block(s, a),
        None => None,
    }
}

/// Parse a `relay` section.
pub fn p_relay(s: &str, i: usize) -> (r: Option<(usize, String)>)
    requires
        i <= s@.len(),
    ensures
        match r {
            Some(jv) => spec_p_relay(s@, i as int) == Some((jv.0 as int, jv.1@)) && i < jv.0
                <= s@.len(),
            None => spec_p_relay(s@, i as int).is_none(),
        },
{
    match p_tag(s, i, "relay") {
        Some(a) => p_named_block(s, a),
        None => None,
    }
}

// ---------------------------------------------------------------------------
// Protocol sections
// ---------------------------------------------------------------------------

/// The protocol type keyword: `tcp`, `http` or `dns`.
pub open spec fn spec_p_protocol_type(s: Seq<char>, i: int) -> Option<(int, ProtocolType)> {
    if spec_tag(s, i, "tcp"@) {
        Some((i + "tcp"@.len(), ProtocolType::Tcp))
    } else if spec_tag(s, i, "http"@) {
        Some((i + "http"@.len(), ProtocolType::Http))
    } else if spec_tag(s, i, "dns"@) {
        Some((i + "dns"@.len(), ProtocolType::Dns))
    } else {
        None
    }
}

/// Parse a protocol type keyword.
pub fn p_protocol_type(s: &str, i: usize) -> (r: Option<(usize, ProtocolType)>)
    requires
        i <= s@.len(),
    ensures
        match r {
            Some(jv) => spec_p_protocol_type(s@, i as int) == Some((jv.0 as int, jv.1)) && i <= jv.0
                <= s@.len(),
            None => spec_p_protocol_type(s@, i as int).is_none(),
        },
{
    match p_tag(s, i, "tcp") {
        Some(j) => Some((j, ProtocolType::Tcp)),
        None => match p_tag(s, i, "http") {
            Some(j) => Some((j, ProtocolType::Http)),
            None => match p_tag(s, i, "dns") {
                Some(j) => Some((j, ProtocolType::Dns)),
                None => None,
            },
        },
    }
}

/// The run of plain characters inside a protocol block: anything but a
/// brace or a newline.
pub open spec fn spec_scan_plain(s: Seq<char>, i: int) -> int
    decreases s.len() - i,
{
    if i < s.len() && s[i] != '{' && s[i] != '}' && s[i] != '\n' {
        spec_scan_plain(s, i + 1)
    } else {
        i
    }
}

/// Consume plain characters inside a protocol block.
pub fn scan_plain(s: &str, i: usize) -> (r: usize)
    requires
        i <= s@.len(),
    ensures
        r == spec_scan_plain(s@, i as int),
        i <= r <= s@.len(),
{
    let len = s.unicode_len();
    let mut j = i;
    loop
        invariant
            i <= j <= len,
            len == s@.len(),
            spec_scan_plain(s@, i as int) == spec_scan_plain(s@, j as int),
        decreases len - j,
    {
        if j >= len {
            return j;
        }
        let c = s.get_char(j);
        if c == '{' || c == '}' || c == '\n' {
            return j;
        }
        j = j + 1;
    }
}

/// The end of one item inside a protocol option block: a recognized option
/// keyword consuming to end of line, a comment, a nested balanced-brace
/// group, or a run of plain characters.
pub open spec fn spec_proto_item_end(s: Seq<char>, j: int) -> Option<int> {
    if spec_tag(s, j, "return"@) {
        Some(spec_p_line(s, j + "return"@.len()).0)
    } else if spec_tag(s, j, "block"@) {
        Some(spec_p_line(s, j + "block"@.len()).0)
    } else if spec_tag(s, j, "match"@) {
        Some(spec_p_line(s, j + "match"@.len()).0)
    } else if spec_tag(s, j, "tcp"@) {
        Some(spec_p_line(s, j + "tcp"@.len()).0)
    } else if spec_tag(s, j, "tls"@) {
        Some(spec_p_line(s, j + "tls"@.len()).0)
    } else if j < s.len() && s[j] == '#' {
        Some(spec_p_line(s, j + 1).0)
    } else if j < s.len() && s[j] == '{' {
        spec_block_end(s, j + 1, 0)
    } else {
        Some(spec_scan_plain(s, j))
    }
}

/// Parse one item inside a protocol option block.
pub fn proto_item_end(s: &str, j: usize) -> (r: Option<usize>)
    requires
        j <= s@.len(),
    ensures
        match r {
            Some(k) => spec_proto_item_end(s@, j as int) == Some(k as int) && j <= k <= s@.len(),
            None => spec_proto_item_end(s@, j as int).is_none(),
        },
{
    let len = s.unicode_len();
    match p_tag(s, j, "return") {
        Some(a) => {
            return Some(p_line(s, a).0);
        },
        None => {},
    }
    match p_tag(s, j, "block") {
        Some(a) => {
            return Some(p_line(s, a).0);
        },
        None => {},
    }
    match p_tag(s, j, "match") {
        Some(a) => {
            return Some(p_line(s, a).0);
        },
        None => {},
    }
    match p_tag(s, j, "tcp") {
        Some(a) => {
            return Some(p_line(s, a).0);
        },
        None => {},
    }
    match p_tag(s, j, "tls") {
        Some(a) => {
            return Some(p_line(s, a).0);
        },
        None => {},
    }
    if j < len && s.get_char(j) == '#' {
        return Some(p_line(s, j + 1).0);
    }
    if j < len && s.get_char(j) == '{' {
        proof {
            lemma_block_end_bounds(s@, j + 1, 0);
        }
        let mut k = j + 1;
        let mut depth: usize = 0;
        loop
            invariant
                j + 1 <= k <= len,
                len == s@.len(),
                depth <= k,
                j < len && s@[j as int] == '{',
                spec_proto_item_end(s@, j as int) == spec_block_end(s@, j + 1, 0),
                spec_block_end(s@, j + 1, 0) == spec_block_end(s@, k as int, depth as nat),
            decreases len - k,
        {
            if k >= len {
                return None;
            }
            let c = s.get_char(k);
            if c == '}' {
                if depth == 0 {
                    proof {
                        assert(spec_block_end(s@, k as int, 0nat) == Some(k + 1 as int));
                    }
                    return Some(k + 1);
                }
                depth = depth - 1;
            } else if c == '{' {
                depth = depth + 1;
            }
            k = k + 1;
        }
    }
    Some(scan_plain(s, j))
}

/// The items of a protocol option block, consumed up to and including the
/// matching close brace.
pub open spec fn spec_proto_items(s: Seq<char>, i: int) -> Option<int>
    decreases s.len() - i,
{
    let j = spec_skip_spaces(s, i);
    if !(i <= j <= s.len()) {
        None
    } else if j >= s.len() {
        None
    } else if s[j] == '}' {
        Some(j + 1)
    } else {
        match spec_proto_item_end(s, j) {
            Some(k) => if j < k <= s.len() {
                spec_proto_items(s, k)
            } else {
                None
            },
            None => None,
        }
    }
}

/// A protocol option block: `{`, recognized options, comments and
/// balanced unknown content, `}`.
pub open spec fn spec_p_proto_block(s: Seq<char>, i: int) -> Option<int> {
    if i < s.len() && s[i] == '{' {
        spec_proto_items(s, i + 1)
    } else {
        None
    }
}

/// Parse a protocol option block.
pub fn p_proto_block(s: &str, i: usize) -> (r: Option<usize>)
    requires
        i <= s@.len(),
    ensures
        match r {
            Some(k) => spec_p_proto_block(s@, i as int) == Some(k as int) && i < k <= s@.len(),
            None => spec_p_proto_block(s@, i as int).is_none(),
        },
{
    let len = s.unicode_len();
    if !(i < len && s.get_char(i) == '{') {
        return None;
    }
    let mut cur = i + 1;
    loop
        invariant
            i + 1 <= cur <= len,
            len == s@.len(),
            i < len && s@[i as int] == '{',
            spec_proto_items(s@, i + 1) == spec_proto_items(s@, cur as int),
        decreases len - cur,
    {
        let j = skip_ws(s, cur);
        if j >= len {
            return None;
        }
        if s.get_char(j) == '}' {
            proof {
                assert(spec_proto_items(s@, cur as int) == Some(j + 1 as int));
            }
            return Some(j + 1);
        }
        match proto_item_end(s, j) {
            Some(k) => {
                if k <= j {
                    // An item that consumes nothing cannot occur after
                    // whitespace was skipped; treat it as a failure.
                    proof {
                        assert(spec_proto_items(s@, cur as int).is_none());
                    }
                    return None;
                }
                cur = k;
            },
            None => {
                return None;
            },
        }
    }
}

/// `protocol [type] <"name"> { options }` followed by the rest of its line.
pub open spec fn spec_p_protocol(s: Seq<char>, i: int) -> Option<(int, SectionM)> {
    if spec_tag(s, i, "protocol"@) {
        let a = spec_skip_spaces(s, i + "protocol"@.len());
        let bt = match spec_p_protocol_type(s, a) {
            Some((x, t)) => (spec_skip_spaces(s, x), t),
            None => (a, ProtocolType::Tcp),
        };
        let b = bt.0;
        let typ = bt.1;
        if b < s.len() && s[b] == '<' {
            match spec_p_quoted(s, b + 1) {
                Some((c, name)) => if c < s.len() && s[c] == '>' {
                    let d = spec_skip_spaces(s, c + 1);
                    match spec_p_proto_block(s, d) {
                        Some(e) => Some(
                            (spec_p_line(s, e).0, SectionM::Protocol { name, typ }),
                        ),
                        None => None,
                    }
                } else {
                    None
                },
                None => None,
            }
        } else {
            None
        }
    } else {
        None
    }
}

/// Parse a `protocol` section.
pub fn p_protocol(s: &str, i: usize) -> (r: Option<(usize, Section)>)
    requires
        i <= s@.len(),
    ensures
        match r {
            Some(jv) => spec_p_protocol(s@, i as int) == Some((jv.0 as int, jv.1@)) && i < jv.0
                <= s@.len(),
            None => spec_p_protocol(s@, i as int).is_none(),
        },
{
    let len = s.unicode_len();
    match p_tag(s, i, "protocol") {
        Some(a0) => {
            let a = skip_ws(s, a0);
            let (b, typ) = match p_protocol_type(s, a) {
                Some((x, t)) => (skip_ws(s, x), t),
                None => (a, ProtocolType::Tcp),
            };
            if b < len && s.get_char(b) == '<' {
                match p_quoted(s, b + 1) {
                    Some((c, name)) => {
                        if c < len && s.get_char(c) == '>' {
                            let d = skip_ws(s, c + 1);
                            match p_proto_block(s, d) {
                                Some(e) => {
                                    let lv = p_line(s, e);
                                    Some((lv.0, Section::Protocol { name, typ }))
                                },
                                None => None,
                            }
                        } else {
                            None
                        }
                    },
                    None => None,
                }
            } else {
                None
            }
        },
        None => None,
    }
}

// ---------------------------------------------------------------------------
// Sections
// ---------------------------------------------------------------------------

/// One section of the top-level grammar, tried in fixed priority order; the
/// first alternative that matches is taken.
pub open spec fn spec_p_section(s: Seq<char>, i: int) -> Option<(int, SectionM)> {
    match spec_p_interval(s, i) {
        Some((j, v)) => Some((j, SectionM::Interval(v))),
        None => match spec_p_socket(s, i) {
            Some((j, p)) => Some((j, SectionM::Socket(p))),
            None => match spec_p_timeout(s, i) {
                Some((j, v)) => Some((j, SectionM::Timeout(v))),
                None => match spec_p_table(s, i) {
                    Some(r) => Some(r),
                    None => match spec_p_redirect(s, i) {
                        Some((j, n)) => Some((j, SectionM::Redirect(n))),
                        None => match spec_p_relay(s, i) {
                            Some((j, n)) => Some((j, SectionM::Relay(n))),
                            None => match spec_p_protocol(s, i) {
                                Some(r) => Some(r),
                                None => match spec_p_comment(s, i) {
                                    Some((j, _c)) => Some((j, SectionM::Ignore)),
                                    None => {
                                        let j = spec_skip_spaces(s, i);
                                        if j > i {
                                            Some((j, SectionM::Ignore))
                                        } else {
                                            None
                                        }
                                    },
                                },
                            },
                        },
                    },
                },
            },
        },
    }
}

/// Parse one section.
pub fn p_section(s: &str, i: usize) -> (r: Option<(usize, Section)>)
    requires
        i <= s@.len(),
    ensures
        match r {
            Some(jv) => spec_p_section(s@, i as int) == Some((jv.0 as int, jv.1@)) && i < jv.0
                <= s@.len(),
            None => spec_p_section(s@, i as int).is_none(),
        },
{
    match p_interval(s, i) {
        Some((j, v)) => {
            return Some((j, Section::Interval(v)));
        },
        None => {},
    }
    match p_socket(s, i) {
        Some((j, p)) => {
            return Some((j, Section::Socket(p)));
        },
        None => {},
    }
    match p_timeout(s, i) {
        Some((j, v)) => {
            return Some((j, Section::Timeout(v)));
        },
        None => {},
    }
    match p_table(s, i) {
        Some((j, t)) => {
            return Some((j, t));
        },
        None => {},
    }
    match p_redirect(s, i) {
        Some((j, n)) => {
            return Some((j, Section::Redirect(n)));
        },
        None => {},
    }
    match p_relay(s, i) {
        Some((j, n)) => {
            return Some((j, Section::Relay(n)));
        },
        None => {},
    }
    match p_protocol(s, i) {
        Some((j, p)) => {
            return Some((j, p));
        },
        None => {},
    }
    match p_comment(s, i) {
        Some((j, _c)) => {
            return Some((j, Section::Ignore));
        },
        None => {},
    }
    let j = skip_ws(s, i);
    if j > i {
        Some((j, Section::Ignore))
    } else {
        None
    }
}

/// The outcome of parsing a section sequence: the sections, or the position
/// at which no section matched.
pub enum SectionsResult {
    Parsed(Seq<SectionM>),
    Failed(int),
}

/// Parse sections from position `i` to the end of the input; any position
/// where no section matches (or a section stalls) is a deterministic
/// failure, never a partial result.
pub open spec fn spec_parse_sections(s: Seq<char>, i: int) -> SectionsResult
    decreases s.len() - i,
{
    if i >= s.len() {
        SectionsResult::Parsed(Seq::empty())
    } else {
        match spec_p_section(s, i) {
            Some((j, sec)) => if i < j <= s.len() {
                match spec_parse_sections(s, j) {
                    SectionsResult::Parsed(rest) => SectionsResult::Parsed(seq![sec] + rest),
                    SectionsResult::Failed(p) => SectionsResult::Failed(p),
                }
            } else {
                SectionsResult::Failed(i)
            },
            None => SectionsResult::Failed(i),
        }
    }
}

/// Parse every section of an expanded configuration text, or report the
/// position of the first syntax violation.
pub fn parse_sections(s: &str) -> (r: Result<Vec<Section>, usize>)
    ensures
        match r {
            Ok(v) => spec_parse_sections(s@, 0) == SectionsResult::Parsed(
                v@.map_values(|sec: Section| sec@),
            ),
            Err(p) => spec_parse_sections(s@, 0) == SectionsResult::Failed(p as int) && p
                <= s@.len(),
        },
{
    let len = s.unicode_len();
    let mut sections: Vec<Section> = Vec::new();
    let mut i: usize = 0;
    loop
        invariant
            i <= len,
            len == s@.len(),
            match spec_parse_sections(s@, i as int) {
                SectionsResult::Parsed(rest) => spec_parse_sections(s@, 0)
                    == SectionsResult::Parsed(sections@.map_values(|sec: Section| sec@) + rest),
                SectionsResult::Failed(p) => spec_parse_sections(s@, 0)
                    == SectionsResult::Failed(p),
            },
        decreases len - i,
    {
        if i >= len {
            proof {
                assert(sections@.map_values(|sec: Section| sec@) + Seq::<SectionM>::empty()
                    =~= sections@.map_values(|sec: Section| sec@));
            }
            return Ok(sections);
        }
        match p_section(s, i) {
            Some((j, sec)) => {
                let ghost old_sections = sections@;
                sections.push(sec);
                proof {
                    assert(sections@.map_values(|x: Section| x@) =~= old_sections.map_values(
                        |x: Section| x@,
                    ) + seq![sec@]);
                    match spec_parse_sections(s@, j as int) {
                        SectionsResult::Parsed(rest) => {
                            assert(old_sections.map_values(|x: Section| x@) + (seq![sec@] + rest)
                                =~= sections@.map_values(|x: Section| x@) + rest);
                        },
                        SectionsResult::Failed(_p) => {},
                    }
                }
                i = j;
            },
            None => {
                return Err(i);
            },
        }
    }
}

/// Parse a table body.
pub fn p_table_options(s: &str, i: usize) -> (r: Option<(usize, Vec<String>)>)
    requires
        i <= s@.len(),
    ensures
        match r {
            Some(jv) => spec_p_table_options(s@, i as int) == Some(
                (jv.0 as int, jv.1@.map_values(|n: String| n@)),
            ) && i < jv.0 <= s@.len(),
            None => spec_p_table_options(s@, i as int).is_none(),
        },
{
    let len = s.unicode_len();
    if i < len && s.get_char(i) == '{' {
        proof {
            lemma_p_hosts_bounds(s@, i + 1);
        }
        match p_hosts(s, i + 1) {
            Some((j, hosts)) => Some((j + 1, hosts)),
            None => None,
        }
    } else {
        None
    }
}

// ---------------------------------------------------------------------------
// Building the configuration
// ---------------------------------------------------------------------------

/// The per-class identifier counters of the build fold, as unbounded
/// numbers.
#[verifier::ext_equal]
pub struct CountersM {
    pub table: nat,
    pub host: nat,
    pub redirect: nat,
    pub relay: nat,
    pub protocol: nat,
}

/// The counters a fresh build starts from: every class counts from 1.
pub open spec fn init_counters() -> CountersM {
    CountersM { table: 1, host: 1, redirect: 1, relay: 1, protocol: 1 }
}

/// Apply one section to the configuration under construction.  A global
/// directive overwrites its setting (the last occurrence wins); a
/// declaration is appended with a freshly allocated identifier of its
/// class; hosts are numbered in parse order across all tables.
pub open spec fn spec_apply(cfg: ConfigM, ctr: CountersM, sec: SectionM) -> (ConfigM, CountersM) {
    match sec {
        SectionM::Interval(v) => (ConfigM { interval: v, ..cfg }, ctr),
        SectionM::Socket(p) => (ConfigM { socket: p, ..cfg }, ctr),
        SectionM::Timeout(v) => (ConfigM { timeout: v, ..cfg }, ctr),
        SectionM::Table { name, disabled, hosts } => (
            ConfigM {
                tables: cfg.tables.push(
                    TableM {
                        id: ctr.table as u32,
                        name,
                        disabled,
                        hosts: Seq::new(
                            hosts.len(),
                            |k: int|
                                HostM {
                                    id: (ctr.host + k) as u32,
                                    name: hosts[k],
                                    ip_ttl: None,
                                    parent: None,
                                    priority: None,
                                    retry: 0,
                                },
                        ),
                    },
                ),
                ..cfg
            },
            CountersM { table: ctr.table + 1, host: ctr.host + hosts.len(), ..ctr },
        ),
        SectionM::Redirect(name) => (
            ConfigM {
                redirects: cfg.redirects.push(RedirectM { id: ctr.redirect as u32, name }),
                ..cfg
            },
            CountersM { redirect: ctr.redirect + 1, ..ctr },
        ),
        SectionM::Relay(name) => (
            ConfigM { relays: cfg.relays.push(RelayM { id: ctr.relay as u32, name }), ..cfg },
            CountersM { relay: ctr.relay + 1, ..ctr },
        ),
        SectionM::Protocol { name, typ } => (
            ConfigM {
                protocols: cfg.protocols.push(
                    ProtocolM { id: ctr.protocol as u32, name, typ },
                ),
                ..cfg
            },
            CountersM { protocol: ctr.protocol + 1, ..ctr },
        ),
        SectionM::Ignore => (cfg, ctr),
    }
}

/// Fold every section into the configuration, threading the identifier
/// counters.
pub open spec fn spec_run(secs: Seq<SectionM>, cfg: ConfigM, ctr: CountersM) -> (
    ConfigM,
    CountersM,
)
    decreases secs.len(),
{
    if secs.len() == 0 {
        (cfg, ctr)
    } else {
        let a = spec_apply(cfg, ctr, secs.first());
        spec_run(secs.drop_first(), a.0, a.1)
    }
}

/// The configuration a section sequence denotes, starting from the default
/// configuration and fresh per-class counters.
pub open spec fn spec_build(secs: Seq<SectionM>) -> ConfigM {
    spec_run(secs, default_config(), init_counters()).0
}

/// Whether every identifier the section sequence requires fits in the
/// 32-bit identifier space of its class.
pub open spec fn spec_counts_fit(secs: Seq<SectionM>) -> bool {
    let ctr = spec_run(secs, default_config(), init_counters()).1;
    ctr.table <= u32::MAX && ctr.host <= u32::MAX && ctr.redirect <= u32::MAX && ctr.relay
        <= u32::MAX && ctr.protocol <= u32::MAX
}

/// Applying a section never decreases a counter.
pub proof fn lemma_apply_monotone(cfg: ConfigM, ctr: CountersM, sec: SectionM)
    ensures
        spec_apply(cfg, ctr, sec).1.table >= ctr.table,
        spec_apply(cfg, ctr, sec).1.host >= ctr.host,
        spec_apply(cfg, ctr, sec).1.redirect >= ctr.redirect,
        spec_apply(cfg, ctr, sec).1.relay >= ctr.relay,
        spec_apply(cfg, ctr, sec).1.protocol >= ctr.protocol,
{
}

/// Running the fold never decreases a counter.
pub proof fn lemma_run_monotone(secs: Seq<SectionM>, cfg: ConfigM, ctr: CountersM)
    ensures
        spec_run(secs, cfg, ctr).1.table >= ctr.table,
        spec_run(secs, cfg, ctr).1.host >= ctr.host,
        spec_run(secs, cfg, ctr).1.redirect >= ctr.redirect,
        spec_run(secs, cfg, ctr).1.relay >= ctr.relay,
        spec_run(secs, cfg, ctr).1.protocol >= ctr.protocol,
    decreases secs.len(),
{
    if secs.len() > 0 {
        let a = spec_apply(cfg, ctr, secs.first());
        lemma_apply_monotone(cfg, ctr, secs.first());
        lemma_run_monotone(secs.drop_first(), a.0, a.1);
    }
}

/// Folding a concatenation of section sequences folds the first, then
/// the second from the configuration and counters the first one left
/// behind.
pub proof fn lemma_run_concat(a: Seq<SectionM>, b: Seq<SectionM>, cfg: ConfigM, ctr: CountersM)
    ensures
        spec_run(a + b, cfg, ctr) == spec_run(b, spec_run(a, cfg, ctr).0, spec_run(a, cfg, ctr).1),
    decreases a.len(),
{
    if a.len() == 0 {
        assert(a + b =~= b);
    } else {
        assert((a + b).first() == a.first());
        assert((a + b).drop_first() =~= a.drop_first() + b);
        let s = spec_apply(cfg, ctr, a.first());
        lemma_run_concat(a.drop_first(), b, s.0, s.1);
    }
}

/// Round-trip of comments, structural side: a comment or blank run parses
/// to an `Ignore` section, and an `Ignore` section spliced anywhere into
/// a section sequence leaves the built configuration — settings,
/// declarations and every assigned identifier — exactly as it was
/// without it.
pub proof fn lemma_ignore_section_transparent(
    s1: Seq<SectionM>,
    s2: Seq<SectionM>,
    cfg: ConfigM,
    ctr: CountersM,
)
    ensures
        spec_run(s1 + seq![SectionM::Ignore] + s2, cfg, ctr) == spec_run(s1 + s2, cfg, ctr),
{
    let m = spec_run(s1, cfg, ctr);
    let one = seq![SectionM::Ignore];
    lemma_run_concat(s1, one, cfg, ctr);
    assert(one.drop_first() =~= Seq::<SectionM>::empty());
    let a = spec_apply(m.0, m.1, one.first());
    assert(a == (m.0, m.1));
    assert(spec_run(one.drop_first(), a.0, a.1) == (a.0, a.1));
    assert(spec_run(one, m.0, m.1) == (a.0, a.1));
    assert(spec_run(s1 + one, cfg, ctr).0 == m.0);
    assert(spec_run(s1 + one, cfg, ctr).1 == m.1);
    lemma_run_concat(s1 + one, s2, cfg, ctr);
    lemma_run_concat(s1, s2, cfg, ctr);
}

/// Identifier well-formedness: within each entity class identifiers are
/// unique and never zero; hosts form one class across all tables.
pub open spec fn spec_ids_wf(c: ConfigM) -> bool {
    (forall|i: int, j: int|
        0 <= i < j < c.tables.len() ==> c.tables[i].id != c.tables[j].id) && (forall|i: int|
        0 <= i < c.tables.len() ==> c.tables[i].id != 0) && (forall|i: int, j: int|
        0 <= i < j < c.redirects.len() ==> c.redirects[i].id != c.redirects[j].id) && (forall|
        i: int,
    |
        0 <= i < c.redirects.len() ==> c.redirects[i].id != 0) && (forall|i: int, j: int|
        0 <= i < j < c.relays.len() ==> c.relays[i].id != c.relays[j].id) && (forall|i: int|
        0 <= i < c.relays.len() ==> c.relays[i].id != 0) && (forall|i: int, j: int|
        0 <= i < j < c.protocols.len() ==> c.protocols[i].id != c.protocols[j].id) && (forall|
        i: int,
    |
        0 <= i < c.protocols.len() ==> c.protocols[i].id != 0) && (forall|
        ti: int,
        hi: int,
        tj: int,
        hj: int,
    |
        0 <= ti < c.tables.len() && 0 <= hi < c.tables[ti].hosts.len() && 0 <= tj
            < c.tables.len() && 0 <= hj < c.tables[tj].hosts.len() && (ti != tj || hi != hj)
            ==> c.tables[ti].hosts[hi].id != c.tables[tj].hosts[hj].id) && (forall|
        ti: int,
        hi: int,
    |
        0 <= ti < c.tables.len() && 0 <= hi < c.tables[ti].hosts.len()
            ==> c.tables[ti].hosts[hi].id != 0)
}

/// Every identifier in the configuration lies strictly below its class
/// counter, and every counter is at least 1.
pub open spec fn spec_ids_bounded(c: ConfigM, ctr: CountersM) -> bool {
    ctr.table >= 1 && ctr.host >= 1 && ctr.redirect >= 1 && ctr.relay >= 1 && ctr.protocol >= 1
        && (forall|i: int|
        0 <= i < c.tables.len() ==> 0 < #[trigger] c.tables[i].id < ctr.table) && (forall|i: int|
        0 <= i < c.redirects.len() ==> 0 < #[trigger] c.redirects[i].id < ctr.redirect) && (
    forall|i: int|
        0 <= i < c.relays.len() ==> 0 < #[trigger] c.relays[i].id < ctr.relay) && (forall|i: int|
        0 <= i < c.protocols.len() ==> 0 < #[trigger] c.protocols[i].id < ctr.protocol) && (
    forall|ti: int, hi: int|
        0 <= ti < c.tables.len() && 0 <= hi < c.tables[ti].hosts.len() ==> 0 < #[trigger] c
            .tables[ti].hosts[hi].id < ctr.host)
}

proof fn lemma_apply_preserves_ids(cfg: ConfigM, ctr: CountersM, sec: SectionM)
    requires
        spec_ids_wf(cfg),
        spec_ids_bounded(cfg, ctr),
        spec_apply(cfg, ctr, sec).1.table <= u32::MAX,
        spec_apply(cfg, ctr, sec).1.host <= u32::MAX,
        spec_apply(cfg, ctr, sec).1.redirect <= u32::MAX,
        spec_apply(cfg, ctr, sec).1.relay <= u32::MAX,
        spec_apply(cfg, ctr, sec).1.protocol <= u32::MAX,
    ensures
        spec_ids_wf(spec_apply(cfg, ctr, sec).0),
        spec_ids_bounded(spec_apply(cfg, ctr, sec).0, spec_apply(cfg, ctr, sec).1),
{
    let c2 = spec_apply(cfg, ctr, sec).0;
    match sec {
        SectionM::Table { name, disabled, hosts } => {
            let last = c2.tables.len() - 1;
            assert(forall|i: int| 0 <= i < last ==> c2.tables[i] == cfg.tables[i]);
            assert(c2.tables[last].id == ctr.table as u32);
            assert(ctr.table as u32 == ctr.table);
            assert(forall|hi: int|
                0 <= hi < c2.tables[last].hosts.len() ==> c2.tables[last].hosts[hi].id == (
                ctr.host + hi) as u32);
            assert(forall|hi: int|
                0 <= hi < c2.tables[last].hosts.len() ==> #[trigger] ((ctr.host + hi) as u32)
                    == ctr.host + hi);
        },
        SectionM::Redirect(name) => {
            let last = c2.redirects.len() - 1;
            assert(forall|i: int| 0 <= i < last ==> c2.redirects[i] == cfg.redirects[i]);
            assert(c2.redirects[last].id == ctr.redirect as u32);
            assert(ctr.redirect as u32 == ctr.redirect);
        },
        SectionM::Relay(name) => {
            let last = c2.relays.len() - 1;
            assert(forall|i: int| 0 <= i < last ==> c2.relays[i] == cfg.relays[i]);
            assert(c2.relays[last].id == ctr.relay as u32);
            assert(ctr.relay as u32 == ctr.relay);
        },
        SectionM::Protocol { name, typ } => {
            let last = c2.protocols.len() - 1;
            assert(forall|i: int| 0 <= i < last ==> c2.protocols[i] == cfg.protocols[i]);
            assert(c2.protocols[last].id == ctr.protocol as u32);
            assert(ctr.protocol as u32 == ctr.protocol);
        },
        _ => {},
    }
}

proof fn lemma_run_preserves_ids(secs: Seq<SectionM>, cfg: ConfigM, ctr: CountersM)
    requires
        spec_ids_wf(cfg),
        spec_ids_bounded(cfg, ctr),
        spec_run(secs, cfg, ctr).1.table <= u32::MAX,
        spec_run(secs, cfg, ctr).1.host <= u32::MAX,
        spec_run(secs, cfg, ctr).1.redirect <= u32::MAX,
        spec_run(secs, cfg, ctr).1.relay <= u32::MAX,
        spec_run(secs, cfg, ctr).1.protocol <= u32::MAX,
    ensures
        spec_ids_wf(spec_run(secs, cfg, ctr).0),
        spec_ids_bounded(spec_run(secs, cfg, ctr).0, spec_run(secs, cfg, ctr).1),
    decreases secs.len(),
{
    if secs.len() > 0 {
        let a = spec_apply(cfg, ctr, secs.first());
        lemma_run_monotone(secs.drop_first(), a.0, a.1);
        lemma_apply_preserves_ids(cfg, ctr, secs.first());
        lemma_run_preserves_ids(secs.drop_first(), a.0, a.1);
    }
}

/// Monotonic identity assignment: whenever a section sequence can be
/// built at all, every identifier of the built configuration is unique
/// within its entity class and never zero.
pub proof fn lemma_build_ids_unique(secs: Seq<SectionM>)
    requires
        spec_counts_fit(secs),
    ensures
        spec_ids_wf(spec_build(secs)),
{
    lemma_run_preserves_ids(secs, default_config(), init_counters());
}

/// Build a `Config` from parsed sections, or report that the identifier
/// space of some class is exhausted.
pub fn build_config(sections: &Vec<Section>) -> (r: Option<Config>)
    ensures
        match r {
            Some(c) => spec_counts_fit(sections@.map_values(|sec: Section| sec@)) && c@
                == spec_build(sections@.map_values(|sec: Section| sec@)),
            None => !spec_counts_fit(sections@.map_values(|sec: Section| sec@)),
        },
{
    let ghost all = sections@.map_values(|sec: Section| sec@);
    let mut cfg = Config::default();
    let mut table_ids = IdAlloc::new();
    let mut host_ids = IdAlloc::new();
    let mut redirect_ids = IdAlloc::new();
    let mut relay_ids = IdAlloc::new();
    let mut protocol_ids = IdAlloc::new();
    let mut idx: usize = 0;
    proof {
        assert(all.subrange(0, all.len() as int) =~= all);
    }
    while idx < sections.len()
        invariant
            idx <= sections.len(),
            all == sections@.map_values(|sec: Section| sec@),
            spec_run(all, default_config(), init_counters()) == spec_run(
                all.subrange(idx as int, all.len() as int),
                cfg@,
                CountersM {
                    table: table_ids.spec_next() as nat,
                    host: host_ids.spec_next() as nat,
                    redirect: redirect_ids.spec_next() as nat,
                    relay: relay_ids.spec_next() as nat,
                    protocol: protocol_ids.spec_next() as nat,
                },
            ),
        decreases sections.len() - idx,
    {
        let ghost rest = all.subrange(idx as int, all.len() as int);
        let ghost ctr = CountersM {
            table: table_ids.spec_next() as nat,
            host: host_ids.spec_next() as nat,
            redirect: redirect_ids.spec_next() as nat,
            relay: relay_ids.spec_next() as nat,
            protocol: protocol_ids.spec_next() as nat,
        };
        proof {
            assert(rest.first() == all[idx as int]);
            assert(rest.drop_first() =~= all.subrange(idx + 1, all.len() as int));
        }
        match &sections[idx] {
            Section::Interval(v) => {
                cfg.interval = *v;
            },
            Section::Socket(p) => {
                cfg.socket = p.clone();
            },
            Section::Timeout(v) => {
                cfg.timeout = *v;
            },
            Section::Table { name, disabled, hosts } => {
                let tid = match table_ids.allocate() {
                    Some(tid) => tid,
                    None => {
                        proof {
                            let a = spec_apply(cfg@, ctr, rest.first());
                            lemma_run_monotone(rest.drop_first(), a.0, a.1);
                        }
                        return None;
                    },
                };
                let ghost h0 = host_ids.spec_next();
                let mut host_v: Vec<Host> = Vec::new();
                let mut k: usize = 0;
                while k < hosts.len()
                    invariant
                        k <= hosts.len(),
                        idx < sections@.len(),
                        all == sections@.map_values(|sec: Section| sec@),
                        rest == all.subrange(idx as int, all.len() as int),
                        rest.first() == (SectionM::Table {
                            name: name@,
                            disabled: *disabled,
                            hosts: hosts@.map_values(|n: String| n@),
                        }),
                        spec_run(all, default_config(), init_counters()) == spec_run(
                            rest,
                            cfg@,
                            ctr,
                        ),
                        ctr.host == h0 as nat,
                        host_ids.spec_next() as nat == h0 as nat + k as nat,
                        host_v@.map_values(|h: Host| h@) =~= Seq::new(
                            k as nat,
                            |m: int|
                                HostM {
                                    id: (h0 + m) as u32,
                                    name: hosts@.map_values(|n: String| n@)[m],
                                    ip_ttl: None,
                                    parent: None,
                                    priority: None,
                                    retry: 0,
                                },
                        ),
                    decreases hosts.len() - k,
                {
                    let hid = match host_ids.allocate() {
                        Some(hid) => hid,
                        None => {
                            proof {
                                let a = spec_apply(cfg@, ctr, rest.first());
                                assert(a.1.host == ctr.host + hosts@.map_values(
                                    |n: String| n@,
                                ).len());
                                assert(rest.len() > 0);
                                assert(spec_run(rest, cfg@, ctr) == spec_run(
                                    rest.drop_first(),
                                    a.0,
                                    a.1,
                                ));
                                lemma_run_monotone(rest.drop_first(), a.0, a.1);
                            }
                            return None;
                        },
                    };
                    let ghost before = host_v@;
                    host_v.push(
                        Host {
                            id: hid,
                            name: hosts[k].clone(),
                            ip_ttl: None,
                            parent: None,
                            priority: None,
                            retry: 0,
                        },
                    );
                    proof {
                        assert(host_v@.map_values(|h: Host| h@) =~= before.map_values(
                            |h: Host| h@,
                        ).push(host_v@.last()@));
                    }
                    k = k + 1;
                }
                let ghost before_tables = cfg.tables@;
                cfg.tables.push(
                    Table { id: tid, name: name.clone(), hosts: host_v, disabled: *disabled },
                );
                proof {
                    assert(cfg.tables@.map_values(|t: Table| t@) =~= before_tables.map_values(
                        |t: Table| t@,
                    ).push(cfg.tables@.last()@));
                }
            },
            Section::Redirect(name) => {
                match redirect_ids.allocate() {
                    Some(rid) => {
                        let ghost before = cfg.redirects@;
                        cfg.redirects.push(Redirect { id: rid, name: name.clone() });
                        proof {
                            assert(cfg.redirects@.map_values(|x: Redirect| x@)
                                =~= before.map_values(|x: Redirect| x@).push(
                                cfg.redirects@.last()@,
                            ));
                        }
                    },
                    None => {
                        proof {
                            let a = spec_apply(cfg@, ctr, rest.first());
                            lemma_run_monotone(rest.drop_first(), a.0, a.1);
                        }
                        return None;
                    },
                }
            },
            Section::Relay(name) => {
                match relay_ids.allocate() {
                    Some(rid) => {
                        let ghost before = cfg.relays@;
                        cfg.relays.push(Relay { id: rid, name: name.clone() });
                        proof {
                            assert(cfg.relays@.map_values(|x: Relay| x@) =~= before.map_values(
                                |x: Relay| x@,
                            ).push(cfg.relays@.last()@));
                        }
                    },
                    None => {
                        proof {
                            let a = spec_apply(cfg@, ctr, rest.first());
                            lemma_run_monotone(rest.drop_first(), a.0, a.1);
                        }
                        return None;
                    },
                }
            },
            Section::Protocol { name, typ } => {
                match protocol_ids.allocate() {
                    Some(pid) => {
                        let ghost before = cfg.protocols@;
                        cfg.protocols.push(Protocol { id: pid, name: name.clone(), typ: *typ });
                        proof {
                            assert(cfg.protocols@.map_values(|x: Protocol| x@)
                                =~= before.map_values(|x: Protocol| x@).push(
                                cfg.protocols@.last()@,
                            ));
                        }
                    },
                    None => {
                        proof {
                            let a = spec_apply(cfg@, ctr, rest.first());
                            lemma_run_monotone(rest.drop_first(), a.0, a.1);
                        }
                        return None;
                    },
                }
            },
            Section::Ignore => {},
        }
        proof {
            let applied = spec_apply(cfg@, ctr, rest.first());
            assert(spec_run(rest, cfg@, ctr) == spec_run(rest.drop_first(), applied.0, applied.1));
        }
        idx = idx + 1;
    }
    proof {
        assert(all.subrange(idx as int, all.len() as int) =~= Seq::<SectionM>::empty());
    }
    Some(cfg)
}

// ---------------------------------------------------------------------------
// The structural parser entry point
// ---------------------------------------------------------------------------

/// The diagnostic rendered for a syntax violation at position `p`: the
/// offending input context, up to 40 characters.
pub open spec fn spec_render_parse_error(s: Seq<char>, p: int) -> Seq<char> {
    "configuration parse error at: "@ + s.subrange(
        p,
        if p + 40 <= s.len() {
            p + 40
        } else {
            s.len() as int
        },
    )
}

/// Render the diagnostic for a syntax violation.
pub fn render_parse_error(s: &str, p: usize) -> (r: String)
    requires
        p <= s@.len(),
    ensures
        r@ == spec_render_parse_error(s@, p as int),
{
    let len = s.unicode_len();
    let end = if len - p >= 40 {
        p + 40
    } else {
        len
    };
    let mut r = String::from_str("configuration parse error at: ");
    r.append(s.substring_char(p, end));
    r
}

/// The diagnostic rendered when a parse would exhaust an identifier class.
pub open spec fn spec_render_exhausted() -> Seq<char> {
    "configuration has too many definitions"@
}

/// Consume an entire expanded configuration text and produce a `Config`,
/// or fail deterministically: every syntax violation, including trailing
/// unparsed content, yields a diagnostic and no configuration at all.
pub fn config_parser(s: &str) -> (r: Result<Config, Error>)
    ensures
        match spec_parse_sections(s@, 0) {
            SectionsResult::Parsed(secs) => if spec_counts_fit(secs) {
                match r {
                    Ok(c) => c@ == spec_build(secs),
                    Err(_e) => false,
                }
            } else {
                r matches Err(e) && e.is_parser_error(spec_render_exhausted())
            },
            SectionsResult::Failed(p) => r matches Err(e) && e.is_parser_error(
                spec_render_parse_error(s@, p),
            ),
        },
{
    match parse_sections(s) {
        Ok(sections) => match build_config(&sections) {
            Some(c) => Ok(c),
            None => Err(Error::ParserError(
                String::from_str("configuration has too many definitions"),
            )),
        },
        Err(p) => Err(Error::ParserError(render_parse_error(s, p))),
    }
}

} // verus!

