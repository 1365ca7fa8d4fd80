//! The typed message protocol shared by all process roles.
//!
//! A message kind is a small closed enumeration carried on the wire as a
//! 32-bit number above the transport's reserved range.  Decoding never
//! fails on an unrecognized number: it degrades to `Unknown`, so that
//! protocol evolution does not break older peers.  A role must match the
//! combination of kind and payload it expects; any other combination is an
//! `InvalidMessage` failure, fatal to that role's processing loop.

use vstd::prelude::*;
use crate::config::{Config, Id};
use crate::error::Error;

verus! {

/// Message identifiers at or below this value are reserved by the
/// process-separation transport; the protocol's own kinds start above it.
pub const MESSAGE_RESERVED: u32 = 10;

/// Message kind.
#[derive(Clone, Copy, Debug, PartialEq, Eq, Structural)]
pub enum Type {
    /// Send a configuration snapshot.
    Config,
    /// Begin active operation.
    Start,
    /// A backend host became reachable.
    HostUp,
    /// A backend host became unreachable.
    HostDown,
    /// Any unrecognized numeric kind.
    Unknown,
}

/// Wire code of the `Config` kind.
pub const TYPE_CONFIG: u32 = MESSAGE_RESERVED + 1;

/// Wire code of the `Start` kind.
pub const TYPE_START: u32 = MESSAGE_RESERVED + 2;

/// Wire code of the `HostUp` kind.
pub const TYPE_HOST_UP: u32 = MESSAGE_RESERVED + 3;

/// Wire code of the `HostDown` kind.
pub const TYPE_HOST_DOWN: u32 = MESSAGE_RESERVED + 4;

/// Wire code sent for the `Unknown` kind.
pub const TYPE_UNKNOWN: u32 = MESSAGE_RESERVED + 5;

/// The wire code of each message kind.
pub open spec fn spec_code_of(t: Type) -> u32 {
    match t {
        Type::Config => TYPE_CONFIG,
        Type::Start => TYPE_START,
        Type::HostUp => TYPE_HOST_UP,
        Type::HostDown => TYPE_HOST_DOWN,
        Type::Unknown => TYPE_UNKNOWN,
    }
}

/// The kind a wire code decodes to: the four known codes map to their
/// kinds, and every other number, in or out of the reserved range, decodes
/// to `Unknown` rather than failing.
pub open spec fn spec_type_of(code: u32) -> Type {
    if code == TYPE_CONFIG {
        Type::Config
    } else if code == TYPE_START {
        Type::Start
    } else if code == TYPE_HOST_UP {
        Type::HostUp
    } else if code == TYPE_HOST_DOWN {
        Type::HostDown
    } else {
        Type::Unknown
    }
}

impl Type {
    /// Encode this kind as its wire code.
    pub fn code(self) -> (r: u32)
        ensures
            r == spec_code_of(self),
    {
        match self {
            Type::Config => TYPE_CONFIG,
            Type::Start => TYPE_START,
            Type::HostUp => TYPE_HOST_UP,
            Type::HostDown => TYPE_HOST_DOWN,
            Type::Unknown => TYPE_UNKNOWN,
        }
    }
}

impl From<u32> for Type {
    fn from(id: u32) -> (r: Self) {
        if id == TYPE_CONFIG {
            Type::Config
        } else if id == TYPE_START {
            Type::Start
        } else if id == TYPE_HOST_UP {
            Type::HostUp
        } else if id == TYPE_HOST_DOWN {
            Type::HostDown
        } else {
            Type::Unknown
        }
    }
}

impl vstd::std_specs::convert::FromSpecImpl<u32> for Type {
    open spec fn obeys_from_spec() -> bool {
        true
    }

    open spec fn from_spec(id: u32) -> Type {
        spec_type_of(id)
    }
}

/// Message payload: a closed variant matched exhaustively at each
/// consumption site.
#[derive(Debug, Clone)]
pub enum Data {
    /// A complete configuration snapshot.
    Config(Config),
    /// A host identifier.
    Host(Id),
    /// No payload.
    Empty,
}

/// Whether the redirect or relay stub accepts this message from the
/// parent: a configuration push carrying a snapshot, or a start command
/// with any payload.
pub open spec fn spec_stub_accepts_parent(kind: Type, data: Data) -> bool {
    (kind == Type::Config && data matches Data::Config(_)) || kind == Type::Start
}

/// Handle a message the redirect or relay stub received from the parent:
/// a `Config` push (carrying a snapshot) or a `Start` command is accepted;
/// any other combination of kind and payload is an `InvalidMessage`
/// failure.
pub fn stub_parent_step(kind: Type, data: &Data) -> (r: Result<(), Error>)
    ensures
        match r {
            Ok(_u) => spec_stub_accepts_parent(kind, *data),
            Err(e) => !spec_stub_accepts_parent(kind, *data) && e matches Error::InvalidMessage,
        },
{
    match (kind, data) {
        (Type::Config, Data::Config(_c)) => Ok(()),
        (Type::Start, _d) => Ok(()),
        _ => Err(Error::InvalidMessage),
    }
}

/// Whether the redirect or relay stub accepts this message from the
/// health engine: a host transition event carrying a host identifier.
pub open spec fn spec_stub_accepts_health(kind: Type, data: Data) -> bool {
    (kind == Type::HostUp || kind == Type::HostDown) && data matches Data::Host(_)
}

/// Handle a message the redirect or relay stub received from the health
/// engine: a `HostUp` or `HostDown` event carrying a host identifier is
/// accepted and the identifier returned; any other combination of kind
/// and payload is an `InvalidMessage` failure.
pub fn stub_health_step(kind: Type, data: &Data) -> (r: Result<Id, Error>)
    ensures
        match r {
            Ok(id) => spec_stub_accepts_health(kind, *data) && *data == Data::Host(id),
            Err(e) => !spec_stub_accepts_health(kind, *data) && e matches Error::InvalidMessage,
        },
{
    match (kind, data) {
        (Type::HostUp, Data::Host(id)) => Ok(*id),
        (Type::HostDown, Data::Host(id)) => Ok(*id),
        _ => Err(Error::InvalidMessage),
    }
}

} // verus!
