//! The configuration data model.
//!
//! A `Config` is an immutable snapshot produced by expanding and parsing a
//! configuration text; it is replaced as a whole when a new version is
//! loaded, never mutated in place.  Every table, host, redirect, relay and
//! protocol carries an identifier that is unique within its entity class,
//! assigned from a per-class monotonically increasing counter starting at 1.

pub mod expand;
pub mod parser;

use vstd::prelude::*;
use vstd::string::StrSliceExecFns;
use vstd::string::StringExecFns;
use crate::error::Error;

pub use expand::{config_expand2, Token};
pub use parser::config_parser;

verus! {

/// General object identifier: unique within its entity class, never zero.
pub type Id = u32;

/// Mathematical model of a `Host`.
#[verifier::ext_equal]
pub struct HostM {
    pub id: Id,
    pub name: Seq<char>,
    pub ip_ttl: Option<u8>,
    pub parent: Option<Id>,
    pub priority: Option<u8>,
    pub retry: usize,
}

/// Mathematical model of a `Table`.
#[verifier::ext_equal]
pub struct TableM {
    pub id: Id,
    pub name: Seq<char>,
    pub hosts: Seq<HostM>,
    pub disabled: bool,
}

/// Mathematical model of a `Redirect`.
#[verifier::ext_equal]
pub struct RedirectM {
    pub id: Id,
    pub name: Seq<char>,
}

/// Mathematical model of a `Relay`.
#[verifier::ext_equal]
pub struct RelayM {
    pub id: Id,
    pub name: Seq<char>,
}

/// Mathematical model of a `Protocol`.
#[verifier::ext_equal]
pub struct ProtocolM {
    pub id: Id,
    pub name: Seq<char>,
    pub typ: ProtocolType,
}

/// Mathematical model of a `Config`.
#[verifier::ext_equal]
pub struct ConfigM {
    pub interval: u64,
    pub socket: Seq<char>,
    pub timeout: u64,
    pub redirects: Seq<RedirectM>,
    pub relays: Seq<RelayM>,
    pub protocols: Seq<ProtocolM>,
    pub tables: Seq<TableM>,
}

/// Target host definition inside a table.
#[derive(Debug, Clone)]
pub struct Host {
    /// Id, unique among hosts, never zero.
    pub id: Id,
    /// FQDN or IP address of the host.
    pub name: String,
    /// Time-to-live value in the IP headers for host checks.
    pub ip_ttl: Option<u8>,
    /// Optional parent Id to inherit the state from; a dangling reference
    /// means "no inheritance", never an error.
    pub parent: Option<Id>,
    /// Optional route priority.
    pub priority: Option<u8>,
    /// Retry tolerance for host checks.  Carried as data; the scheduler in
    /// this scope does not consult it.
    pub retry: usize,
}

impl View for Host {
    type V = HostM;

    open spec fn view(&self) -> HostM {
        HostM {
            id: self.id,
            name: self.name@,
            ip_ttl: self.ip_ttl,
            parent: self.parent,
            priority: self.priority,
            retry: self.retry,
        }
    }
}

/// Named pool of target hosts.
#[derive(Debug, Clone)]
pub struct Table {
    /// Id, unique among tables, never zero.
    pub id: Id,
    /// Symbolic name of the table.
    pub name: String,
    /// Target host pool.
    pub hosts: Vec<Host>,
    /// Whether the table is disabled; disabling suppresses probing without
    /// removing configuration.
    pub disabled: bool,
}

impl View for Table {
    type V = TableM;

    open spec fn view(&self) -> TableM {
        TableM {
            id: self.id,
            name: self.name@,
            hosts: self.hosts@.map_values(|h: Host| h@),
            disabled: self.disabled,
        }
    }
}

/// Redirect declaration; its body is accepted syntactically and discarded.
#[derive(Debug, Clone)]
pub struct Redirect {
    /// Id, unique among redirects, never zero.
    pub id: Id,
    /// Symbolic name of the redirect.
    pub name: String,
}

impl View for Redirect {
    type V = RedirectM;

    open spec fn view(&self) -> RedirectM {
        RedirectM { id: self.id, name: self.name@ }
    }
}

/// Relay declaration; its body is accepted syntactically and discarded.
#[derive(Debug, Clone)]
pub struct Relay {
    /// Id, unique among relays, never zero.
    pub id: Id,
    /// Symbolic name of the relay.
    pub name: String,
}

impl View for Relay {
    type V = RelayM;

    open spec fn view(&self) -> RelayM {
        RelayM { id: self.id, name: self.name@ }
    }
}

/// Protocol or application type of a protocol declaration.
#[derive(Debug, Clone, Copy, PartialEq, Eq, Structural)]
pub enum ProtocolType {
    Tcp,
    Http,
    Dns,
}

impl Default for ProtocolType {
    fn default() -> (r: Self)
        ensures
            r == ProtocolType::Tcp,
    {
        ProtocolType::Tcp
    }
}

/// Protocol declaration; its option block is recognized syntactically and
/// discarded.
#[derive(Debug, Clone)]
pub struct Protocol {
    /// Id, unique among protocols, never zero.
    pub id: Id,
    /// Symbolic name of the protocol.
    pub name: String,
    /// Protocol or application type.
    pub typ: ProtocolType,
}

impl View for Protocol {
    type V = ProtocolM;

    open spec fn view(&self) -> ProtocolM {
        ProtocolM { id: self.id, name: self.name@, typ: self.typ }
    }
}

/// Root configuration object, replaced atomically as a whole whenever a new
/// version is loaded.
#[derive(Debug, Clone)]
pub struct Config {
    /// The interval in seconds at which the hosts will be checked.
    pub interval: u64,
    /// Path of the control socket.
    pub socket: String,
    /// The global timeout in milliseconds for checks.
    pub timeout: u64,

    pub redirects: Vec<Redirect>,
    pub relays: Vec<Relay>,
    pub protocols: Vec<Protocol>,
    pub tables: Vec<Table>,
}

impl View for Config {
    type V = ConfigM;

    open spec fn view(&self) -> ConfigM {
        ConfigM {
            interval: self.interval,
            socket: self.socket@,
            timeout: self.timeout,
            redirects: self.redirects@.map_values(|r: Redirect| r@),
            relays: self.relays@.map_values(|r: Relay| r@),
            protocols: self.protocols@.map_values(|p: Protocol| p@),
            tables: self.tables@.map_values(|t: Table| t@),
        }
    }
}

/// The default configuration model: built-in probe interval and timeout, the
/// well-known control socket path, and no declarations.
pub open spec fn default_config() -> ConfigM {
    ConfigM {
        interval: crate::CHECK_INTERVAL_SECS,
        socket: "/var/run/relayd.sock"@,
        timeout: crate::CHECK_TIMEOUT_MILLIS,
        redirects: Seq::empty(),
        relays: Seq::empty(),
        protocols: Seq::empty(),
        tables: Seq::empty(),
    }
}

impl Default for Config {
    fn default() -> (r: Self)
        ensures
            r@ == default_config(),
    {
        let r = Config {
            interval: crate::CHECK_INTERVAL_SECS,
            socket: String::from_str("/var/run/relayd.sock"),
            timeout: crate::CHECK_TIMEOUT_MILLIS,
            redirects: Vec::new(),
            relays: Vec::new(),
            protocols: Vec::new(),
            tables: Vec::new(),
        };
        proof {
            assert(r@.redirects =~= default_config().redirects);
            assert(r@.relays =~= default_config().relays);
            assert(r@.protocols =~= default_config().protocols);
            assert(r@.tables =~= default_config().tables);
            assert(r@ =~= default_config());
        }
        r
    }
}

impl Config {
    /// Expand a raw configuration text against the supplied variables and
    /// available file contents, then parse the expanded text into a
    /// configuration.  Fails deterministically, never partially: any
    /// expansion or syntax failure yields a diagnostic and no
    /// configuration.
    pub fn parse(input: &str, variables: Variables, files: &Variables) -> (r: Result<
        Config,
        Error,
    >)
        ensures
            match expand::spec_tokenize(
                input@,
                0,
                files@,
                expand::MAX_INLINE_DEPTH as nat,
            ) {
                expand::TokenizeResult::Parsed(ts) => {
                    let expanded = expand::spec_resolve_seq(ts, Seq::empty(), variables@).0;
                    match parser::spec_parse_sections(expanded, 0) {
                        parser::SectionsResult::Parsed(secs) => if parser::spec_counts_fit(secs) {
                            r matches Ok(c) && c@ == parser::spec_build(secs)
                        } else {
                            r matches Err(e) && e.is_parser_error(parser::spec_render_exhausted())
                        },
                        parser::SectionsResult::Failed(p) => r matches Err(e)
                            && e.is_parser_error(parser::spec_render_parse_error(expanded, p)),
                    }
                },
                expand::TokenizeResult::FileNotFound(p) => r matches Err(e) && e.is_parser_error(
                    expand::spec_err_not_found(p),
                ),
                expand::TokenizeResult::BadInsertion(p) => r matches Err(e) && e.is_parser_error(
                    expand::spec_err_bad_insertion(p),
                ),
            },
    {
        match expand::config_expand2(input, variables, files) {
            Ok(expanded) => parser::config_parser(expanded.as_str()),
            Err(e) => Err(e),
        }
    }
}

/// A key/value pair used purely during text expansion; not retained in the
/// parsed configuration.
#[derive(Debug, Clone)]
pub struct Variable {
    pub key: String,
    pub value: String,
}

impl From<(String, String)> for Variable {
    fn from(kv: (String, String)) -> (r: Self) {
        Variable { key: kv.0, value: kv.1 }
    }
}

impl vstd::std_specs::convert::FromSpecImpl<(String, String)> for Variable {
    open spec fn obeys_from_spec() -> bool {
        true
    }

    open spec fn from_spec(kv: (String, String)) -> Variable {
        Variable { key: kv.0, value: kv.1 }
    }
}

impl Variable {
    /// The definition rendered back as configuration text: `key="value"`.
    pub open spec fn spec_to_string(self) -> Seq<char> {
        self.key@ + "=\""@ + self.value@ + "\""@
    }

    /// The definition rendered back as configuration text: `key="value"`.
    pub fn to_string(&self) -> (r: String)
        ensures
            r@ == self.spec_to_string(),
    {
        let mut r = self.key.clone();
        r.append("=\"");
        r.append(self.value.as_str());
        r.append("\"");
        r
    }
}

/// The value of an association sequence of variables, as a map; a later
/// entry for the same key shadows an earlier one.
pub open spec fn vars_map(items: Seq<Variable>) -> Map<Seq<char>, Seq<char>>
    decreases items.len(),
{
    if items.len() == 0 {
        Map::empty()
    } else {
        vars_map(items.drop_last()).insert(items.last().key@, items.last().value@)
    }
}

/// Mapping of externally supplied and text-defined expansion variables.
#[derive(Debug, Clone)]
pub struct Variables {
    items: Vec<Variable>,
}

impl View for Variables {
    type V = Map<Seq<char>, Seq<char>>;

    closed spec fn view(&self) -> Map<Seq<char>, Seq<char>> {
        vars_map(self.items@)
    }
}

proof fn lemma_vars_map_last_match(items: Seq<Variable>, i: int)
    requires
        0 <= i < items.len(),
        forall|j: int| i < j < items.len() ==> items[j].key@ != items[i].key@,
    ensures
        vars_map(items).contains_key(items[i].key@),
        vars_map(items)[items[i].key@] == items[i].value@,
    decreases items.len(),
{
    if i == items.len() - 1 {
    } else {
        assert(items.drop_last()[i] == items[i]);
        lemma_vars_map_last_match(items.drop_last(), i);
    }
}

proof fn lemma_vars_map_no_match(items: Seq<Variable>, key: Seq<char>)
    requires
        forall|j: int| 0 <= j < items.len() ==> items[j].key@ != key,
    ensures
        !vars_map(items).contains_key(key),
    decreases items.len(),
{
    if items.len() > 0 {
        lemma_vars_map_no_match(items.drop_last(), key);
    }
}

impl Variables {
    /// An empty mapping.
    pub fn new() -> (r: Self)
        ensures
            r@ == Map::<Seq<char>, Seq<char>>::empty(),
    {
        Variables { items: Vec::new() }
    }

    /// Define or overwrite a variable.
    pub fn insert(&mut self, key: String, value: String)
        ensures
            final(self)@ == old(self)@.insert(key@, value@),
    {
        let ghost before = self.items@;
        self.items.push(Variable { key, value });
        proof {
            assert(self.items@.drop_last() =~= before);
        }
    }

    /// Whether a variable of this name is defined.
    pub fn contains_key(&self, key: &str) -> (r: bool)
        ensures
            r == self@.contains_key(key@),
    {
        self.get(key).is_some()
    }

    /// The current value of the named variable, if defined.
    pub fn get(&self, key: &str) -> (r: Option<&String>)
        ensures
            match r {
                Some(v) => self@.contains_key(key@) && v@ == self@[key@],
                None => !self@.contains_key(key@),
            },
    {
        let mut i = self.items.len();
        while i > 0
            invariant
                i <= self.items.len(),
                forall|j: int| i <= j < self.items@.len() ==> self.items@[j].key@ != key@,
            decreases i,
        {
            i = i - 1;
            if str_eq(self.items[i].key.as_str(), key) {
                proof {
                    lemma_vars_map_last_match(self.items@, i as int);
                }
                return Some(&self.items[i].value);
            }
        }
        proof {
            lemma_vars_map_no_match(self.items@, key@);
        }
        None
    }
}

/// Character-wise equality of two string slices.
pub fn str_eq(a: &str, b: &str) -> (r: bool)
    ensures
        r == (a@ == b@),
{
    let a_len = a.unicode_len();
    let b_len = b.unicode_len();
    if a_len != b_len {
        return false;
    }
    let mut i: usize = 0;
    while i < a_len
        invariant
            i <= a_len,
            a_len == a@.len(),
            b_len == b@.len(),
            a_len == b_len,
            forall|j: int| 0 <= j < i ==> a@[j] == b@[j],
        decreases a_len - i,
    {
        if a.get_char(i) != b.get_char(i) {
            return false;
        }
        i = i + 1;
    }
    proof {
        assert(a@ =~= b@);
    }
    true
}

/// Per-class identifier allocator, constructed once per configuration-load
/// lifecycle and threaded through the parser explicitly, so that identifier
/// assignment is deterministic and reproducible per parse.
#[derive(Debug, Clone)]
pub struct IdAlloc {
    next: Id,
}

impl IdAlloc {
    /// The identifier the next allocation will return.
    pub closed spec fn spec_next(self) -> Id {
        self.next
    }

    /// A fresh allocator; the first identifier handed out is 1.
    pub fn new() -> (r: Self)
        ensures
            r.spec_next() == 1u32,
    {
        IdAlloc { next: 1 }
    }

    /// Allocate the next identifier of this class, or report exhaustion of
    /// the identifier space.  Identifiers are never zero and never reused.
    pub fn allocate(&mut self) -> (r: Option<Id>)
        ensures
            old(self).spec_next() < u32::MAX ==> r == Some(old(self).spec_next())
                && final(self).spec_next() == old(self).spec_next() + 1,
            old(self).spec_next() == u32::MAX ==> r.is_none() && final(self).spec_next()
                == old(self).spec_next(),
    {
        if self.next < u32::MAX {
            let id = self.next;
            self.next = self.next + 1;
            Some(id)
        } else {
            None
        }
    }
}

} // verus!
