//! The health-check scheduler's decision logic.
//!
//! On every tick the scheduler takes a fresh configuration snapshot,
//! flattens its tables into one batch of probe targets, probes each
//! target's resolved addresses, and fans each outcome out as a host
//! transition event to the redirect and relay roles.  The surrounding
//! loop — timers, name resolution, connection attempts — lives with the
//! daemon; everything decided here is a function of plain values.

use vstd::prelude::*;
use crate::config::{Config, ConfigM, Id, TableM};
use crate::error::Error;
use crate::message::{Data, Type};
use crate::Privsep;

verus! {

/// One host to probe: its identifier and the name to resolve.
#[derive(Debug, Clone)]
pub struct ProbeTarget {
    /// The host's identifier, carried through to the transition event.
    pub id: Id,
    /// FQDN or address of the host, as configured.
    pub name: String,
}

impl View for ProbeTarget {
    type V = (Id, Seq<char>);

    open spec fn view(&self) -> (Id, Seq<char>) {
        (self.id, self.name@)
    }
}

/// The probe pairs of one table: every host's identifier and name.
pub open spec fn spec_table_pairs(t: TableM) -> Seq<(Id, Seq<char>)> {
    t.hosts.map_values(|h: crate::config::HostM| (h.id, h.name))
}

/// The probe pairs of a table sequence, flattened in order.
pub open spec fn spec_flat_tables(tables: Seq<TableM>) -> Seq<(Id, Seq<char>)>
    decreases tables.len(),
{
    if tables.len() == 0 {
        Seq::empty()
    } else {
        spec_table_pairs(tables.first()) + spec_flat_tables(tables.drop_first())
    }
}

/// Every host of every table of the configuration, flattened in
/// configuration order.  Hosts of disabled tables are deliberately not
/// filtered out: the scheduler probes them too, a known quirk preserved
/// as specified behaviour.
pub open spec fn spec_flat_hosts(c: ConfigM) -> Seq<(Id, Seq<char>)> {
    spec_flat_tables(c.tables)
}

/// Flatten a configuration snapshot into one batch of probe targets.
pub fn probe_targets(config: &Config) -> (r: Vec<ProbeTarget>)
    ensures
        r@.map_values(|t: ProbeTarget| t@) == spec_flat_hosts(config@),
{
    let ghost all = config@.tables;
    let mut targets: Vec<ProbeTarget> = Vec::new();
    let mut ti: usize = 0;
    proof {
        assert(all.subrange(0, all.len() as int) =~= all);
        assert(targets@.map_values(|t: ProbeTarget| t@) + spec_flat_tables(all)
            =~= spec_flat_tables(all));
    }
    while ti < config.tables.len()
        invariant
            ti <= config.tables.len(),
            all == config@.tables,
            spec_flat_tables(all) == targets@.map_values(|t: ProbeTarget| t@)
                + spec_flat_tables(all.subrange(ti as int, all.len() as int)),
        decreases config.tables.len() - ti,
    {
        let ghost rest = all.subrange(ti as int, all.len() as int);
        proof {
            assert(rest.first() == all[ti as int]);
            assert(rest.drop_first() =~= all.subrange(ti + 1, all.len() as int));
        }
        let table = &config.tables[ti];
        let ghost pairs = spec_table_pairs(all[ti as int]);
        let mut hi: usize = 0;
        while hi < table.hosts.len()
            invariant
                hi <= table.hosts.len(),
                ti < config.tables.len(),
                all == config@.tables,
                table == config.tables[ti as int],
                pairs == spec_table_pairs(all[ti as int]),
                rest == all.subrange(ti as int, all.len() as int),
                spec_flat_tables(all) == targets@.map_values(|t: ProbeTarget| t@)
                    + pairs.subrange(hi as int, pairs.len() as int) + spec_flat_tables(
                    all.subrange(ti + 1, all.len() as int),
                ),
                pairs.len() == table.hosts@.len(),
            decreases table.hosts.len() - hi,
        {
            let host = &table.hosts[hi];
            let ghost before = targets@;
            targets.push(ProbeTarget { id: host.id, name: host.name.clone() });
            proof {
                assert(targets@.map_values(|t: ProbeTarget| t@) =~= before.map_values(
                    |t: ProbeTarget| t@,
                ).push((host.id, host.name@)));
                assert(pairs[hi as int] == (host.id, host.name@));
                assert(pairs.subrange(hi as int, pairs.len() as int).first() == pairs[hi as int]);
                assert(pairs.subrange(hi as int, pairs.len() as int).drop_first()
                    =~= pairs.subrange(hi + 1, pairs.len() as int));
                assert(before.map_values(|t: ProbeTarget| t@).push(pairs[hi as int]) + pairs
                    .subrange(hi + 1, pairs.len() as int) =~= before.map_values(
                    |t: ProbeTarget| t@,
                ) + pairs.subrange(hi as int, pairs.len() as int));
                assert((targets@.map_values(|t: ProbeTarget| t@) + pairs.subrange(
                    hi + 1,
                    pairs.len() as int,
                )) + spec_flat_tables(all.subrange(ti + 1, all.len() as int))
                    =~= targets@.map_values(|t: ProbeTarget| t@) + pairs.subrange(
                    hi + 1,
                    pairs.len() as int,
                ) + spec_flat_tables(all.subrange(ti + 1, all.len() as int)));
                assert((before.map_values(|t: ProbeTarget| t@) + pairs.subrange(
                    hi as int,
                    pairs.len() as int,
                )) + spec_flat_tables(all.subrange(ti + 1, all.len() as int))
                    =~= before.map_values(|t: ProbeTarget| t@) + pairs.subrange(
                    hi as int,
                    pairs.len() as int,
                ) + spec_flat_tables(all.subrange(ti + 1, all.len() as int)));
            }
            hi = hi + 1;
        }
        proof {
            assert(pairs.subrange(pairs.len() as int, pairs.len() as int)
                =~= Seq::<(Id, Seq<char>)>::empty());
            assert(targets@.map_values(|t: ProbeTarget| t@) + Seq::<(Id, Seq<char>)>::empty()
                + spec_flat_tables(all.subrange(ti + 1, all.len() as int))
                =~= targets@.map_values(|t: ProbeTarget| t@) + spec_flat_tables(
                all.subrange(ti + 1, all.len() as int),
            ));
        }
        ti = ti + 1;
    }
    proof {
        assert(all.subrange(ti as int, all.len() as int) =~= Seq::<TableM>::empty());
        assert(targets@.map_values(|t: ProbeTarget| t@) + Seq::<(Id, Seq<char>)>::empty()
            =~= targets@.map_values(|t: ProbeTarget| t@));
    }
    targets
}

/// The address a host is probed at: its name with the fixed service port.
pub fn probe_address(name: &str) -> (r: String)
    ensures
        r@ == name@ + ":80"@,
{
    let mut r = String::new();
    r.append(name);
    r.append(":80");
    r
}

/// Decide a host's reachability from its per-address connection outcomes,
/// in resolution order: the host is reachable exactly when some address
/// accepted the connection.  An empty sequence — resolution failure —
/// means unreachable.
pub fn probe_verdict(attempts: &Vec<bool>) -> (r: bool)
    ensures
        r == exists|i: int| 0 <= i < attempts@.len() && attempts@[i],
{
    let mut i: usize = 0;
    while i < attempts.len()
        invariant
            i <= attempts.len(),
            forall|j: int| 0 <= j < i ==> !attempts@[j],
        decreases attempts.len() - i,
    {
        if attempts[i] {
            return true;
        }
        i = i + 1;
    }
    false
}

/// The message kind reporting a probe outcome.
pub open spec fn spec_event_kind(up: bool) -> Type {
    if up {
        Type::HostUp
    } else {
        Type::HostDown
    }
}

/// One transition event to deliver: the peer to send to, the kind, and
/// the host it concerns.
#[derive(Debug, Clone, Copy, PartialEq, Eq, Structural)]
pub struct Event {
    /// The peer channel the event goes to.
    pub peer: Privsep,
    /// `HostUp` or `HostDown`.
    pub kind: Type,
    /// The identifier of the probed host.
    pub host: Id,
}

/// The two events one probe outcome fans out to: the same transition to
/// the redirect peer, then to the relay peer.
pub open spec fn spec_host_events(id: Id, up: bool) -> Seq<Event> {
    seq![
        Event { peer: Privsep::Redirect, kind: spec_event_kind(up), host: id },
        Event { peer: Privsep::Relay, kind: spec_event_kind(up), host: id },
    ]
}

/// The events a batch of outcomes fans out to, in outcome order.
pub open spec fn spec_outcome_events(outcomes: Seq<(Id, bool)>) -> Seq<Event>
    decreases outcomes.len(),
{
    if outcomes.len() == 0 {
        Seq::empty()
    } else {
        spec_host_events(outcomes.first().0, outcomes.first().1) + spec_outcome_events(
            outcomes.drop_first(),
        )
    }
}

/// Fan a batch of probe outcomes out into transition events: two events
/// per outcome, tagged with that outcome's host identifier, to the
/// redirect and relay peers in that order.
pub fn outcome_events(outcomes: &Vec<(Id, bool)>) -> (r: Vec<Event>)
    ensures
        r@ == spec_outcome_events(outcomes@),
{
    let ghost all = outcomes@;
    let mut events: Vec<Event> = Vec::new();
    let mut k: usize = 0;
    proof {
        assert(all.subrange(0, all.len() as int) =~= all);
        assert(events@ + spec_outcome_events(all) =~= spec_outcome_events(all));
    }
    while k < outcomes.len()
        invariant
            k <= outcomes.len(),
            all == outcomes@,
            spec_outcome_events(all) == events@ + spec_outcome_events(
                all.subrange(k as int, all.len() as int),
            ),
        decreases outcomes.len() - k,
    {
        let ghost rest = all.subrange(k as int, all.len() as int);
        proof {
            assert(rest.first() == all[k as int]);
            assert(rest.drop_first() =~= all.subrange(k + 1, all.len() as int));
        }
        let (id, up) = outcomes[k];
        let kind = if up {
            Type::HostUp
        } else {
            Type::HostDown
        };
        let ghost before = events@;
        events.push(Event { peer: Privsep::Redirect, kind, host: id });
        events.push(Event { peer: Privsep::Relay, kind, host: id });
        proof {
            assert(events@ =~= before + spec_host_events(id, up));
            assert((before + spec_host_events(id, up)) + spec_outcome_events(
                all.subrange(k + 1, all.len() as int),
            ) =~= before + (spec_host_events(id, up) + spec_outcome_events(
                all.subrange(k + 1, all.len() as int),
            )));
        }
        k = k + 1;
    }
    proof {
        assert(all.subrange(k as int, all.len() as int) =~= Seq::<(Id, bool)>::empty());
        assert(events@ + Seq::<Event>::empty() =~= events@);
    }
    events
}

/// How many outcomes of the batch concern host `id` with verdict `up`.
pub open spec fn spec_count_outcomes(os: Seq<(Id, bool)>, id: Id, up: bool) -> nat
    decreases os.len(),
{
    if os.len() == 0 {
        0
    } else {
        (if os.first() == (id, up) {
            1nat
        } else {
            0nat
        }) + spec_count_outcomes(os.drop_first(), id, up)
    }
}

/// How many events of the batch go to `peer` with kind `kind` for host
/// `id`.
pub open spec fn spec_count_events(es: Seq<Event>, peer: Privsep, kind: Type, id: Id) -> nat
    decreases es.len(),
{
    if es.len() == 0 {
        0
    } else {
        (if es.first() == (Event { peer, kind, host: id }) {
            1nat
        } else {
            0nat
        }) + spec_count_events(es.drop_first(), peer, kind, id)
    }
}

/// Health batch completeness: however the per-host outcomes are ordered
/// when they complete, the batch fans out exactly two events per outcome,
/// and each host's outcome reaches the redirect peer exactly once and the
/// relay peer exactly once, tagged with that host's identifier and its
/// verdict's kind.
pub proof fn lemma_batch_completeness(os: Seq<(Id, bool)>, id: Id, up: bool)
    ensures
        spec_outcome_events(os).len() == 2 * os.len(),
        spec_count_events(spec_outcome_events(os), Privsep::Redirect, spec_event_kind(up), id)
            == spec_count_outcomes(os, id, up),
        spec_count_events(spec_outcome_events(os), Privsep::Relay, spec_event_kind(up), id)
            == spec_count_outcomes(os, id, up),
    decreases os.len(),
{
    if os.len() > 0 {
        lemma_batch_completeness(os.drop_first(), id, up);
        let h = os.first().0;
        let u = os.first().1;
        let head = spec_host_events(h, u);
        let tail = spec_outcome_events(os.drop_first());
        let mid = head.drop_first() + tail;
        assert(spec_outcome_events(os) == head + tail);
        assert((head + tail).first() == (Event {
            peer: Privsep::Redirect,
            kind: spec_event_kind(u),
            host: h,
        }));
        assert((head + tail).drop_first() =~= mid);
        assert(mid.first() == (Event {
            peer: Privsep::Relay,
            kind: spec_event_kind(u),
            host: h,
        }));
        assert(mid.drop_first() =~= tail);
        if u == up && h == id {
            assert(os.first() == (id, up));
        } else {
            assert(os.first() != (id, up));
            if h == id && u != up {
                assert(spec_event_kind(u) != spec_event_kind(up));
            }
        }
        assert(spec_count_events(head + tail, Privsep::Redirect, spec_event_kind(up), id)
            == (if (head + tail).first() == (Event {
                peer: Privsep::Redirect,
                kind: spec_event_kind(up),
                host: id,
            }) {
                1nat
            } else {
                0nat
            }) + spec_count_events(mid, Privsep::Redirect, spec_event_kind(up), id));
        assert(spec_count_events(head + tail, Privsep::Relay, spec_event_kind(up), id)
            == (if (head + tail).first() == (Event {
                peer: Privsep::Relay,
                kind: spec_event_kind(up),
                host: id,
            }) {
                1nat
            } else {
                0nat
            }) + spec_count_events(mid, Privsep::Relay, spec_event_kind(up), id));
    }
}

/// What the health engine does with a message from the parent.
#[derive(Debug)]
pub enum HealthAction {
    /// Replace the engine's configuration snapshot with this one.
    SetConfig(Config),
    /// Begin the repeating probe timer.
    Start,
}

/// Handle a message the health engine received from the parent: a
/// `Config` push replaces the snapshot, a `Start` command (with any
/// payload) starts the timer, and any other combination of kind and
/// payload is an `InvalidMessage` failure.
pub fn health_step(kind: Type, data: Data) -> (r: Result<HealthAction, Error>)
    ensures
        match data {
            Data::Config(c) => if kind == Type::Config {
                r matches Ok(a) && a matches HealthAction::SetConfig(c2) && c2 == c
            } else if kind == Type::Start {
                r matches Ok(a) && a matches HealthAction::Start
            } else {
                r matches Err(e) && e matches Error::InvalidMessage
            },
            _ => if kind == Type::Start {
                r matches Ok(a) && a matches HealthAction::Start
            } else {
                r matches Err(e) && e matches Error::InvalidMessage
            },
        },
{
    match (kind, data) {
        (Type::Config, Data::Config(c)) => Ok(HealthAction::SetConfig(c)),
        (Type::Start, _d) => Ok(HealthAction::Start),
        _ => Err(Error::InvalidMessage),
    }
}

} // verus!
