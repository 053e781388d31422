//! Events of the paths of a connection.

use vstd::prelude::*;

use crate::net::SocketAddr;

verus! {

/// Both ends of a path.
#[derive(Clone, Copy, Debug)]
pub struct PathAddrs {
    /// Address of this end.
    pub local: SocketAddr,
    /// Address of the peer.
    pub peer: SocketAddr,
}

/// An event of a path.
#[derive(Clone, Copy, Debug)]
pub enum PathEvent {
    /// The peer uses a new path.
    New(PathAddrs),
    /// The path is validated.
    Validated(PathAddrs),
    /// The path could not be validated.
    FailedValidation(PathAddrs),
    /// The path is closed, with an error code.
    Closed(PathAddrs, u64),
    /// The peer used a connection identifier on another path.
    ReusedSourceConnectionId(u64, PathAddrs),
    /// The peer migrated to the path.
    PeerMigrated(PathAddrs),
    /// The peer asks for a status of the path.
    PeerPathStatus(PathAddrs, bool),
}

/// What to do about an event.
#[derive(Clone, Copy, Debug)]
pub enum PathAction {
    /// Probe the path.
    Probe(PathAddrs),
    /// Use the path.
    SetActive(PathAddrs),
    /// Follow the status that the peer asks for.
    SetStatus(PathAddrs, bool),
}

/// What to do about an event: a new path is probed, a validated one is used on
/// connections with several paths, and the status that the peer asks for is
/// followed. The other events ask for nothing.
pub open spec fn action_of(e: PathEvent, multipath: bool) -> Option<PathAction> {
    match e {
        PathEvent::New(p) => Some(PathAction::Probe(p)),
        PathEvent::Validated(p) => if multipath {
            Some(PathAction::SetActive(p))
        } else {
            None
        },
        PathEvent::PeerPathStatus(p, s) => Some(PathAction::SetStatus(p, s)),
        _ => None,
    }
}

/// What to do about some events in turn.
pub open spec fn actions_of(es: Seq<PathEvent>, multipath: bool) -> Seq<PathAction>
    decreases es.len(),
{
    if es.len() == 0 {
        Seq::empty()
    } else {
        match action_of(es.last(), multipath) {
            Some(a) => actions_of(es.drop_last(), multipath).push(a),
            None => actions_of(es.drop_last(), multipath),
        }
    }
}

/// What to do about an event.
pub fn handle_path_event(e: PathEvent, multipath: bool) -> (r: Option<PathAction>)
    ensures
        r == action_of(e, multipath),
{
    match e {
        PathEvent::New(p) => Some(PathAction::Probe(p)),
        PathEvent::Validated(p) => if multipath {
            Some(PathAction::SetActive(p))
        } else {
            None
        },
        PathEvent::PeerPathStatus(p, s) => Some(PathAction::SetStatus(p, s)),
        _ => None,
    }
}

/// What to do about some events in turn.
pub fn handle_path_events(events: &Vec<PathEvent>, multipath: bool) -> (r: Vec<PathAction>)
    ensures
        r@ == actions_of(events@, multipath),
{
    let mut r: Vec<PathAction> = Vec::new();
    let mut i: usize = 0;
    assert(events@.take(0) =~= Seq::<PathEvent>::empty());
    while i < events.len()
        invariant
            i <= events@.len(),
            r@ == actions_of(events@.take(i as int), multipath),
        decreases events@.len() - i,
    {
        assert(events@.take(i + 1).drop_last() =~= events@.take(i as int));
        assert(events@.take(i + 1).last() == events@[i as int]);
        if let Some(a) = handle_path_event(events[i], multipath) {
            r.push(a);
        }
        i += 1;
    }
    assert(events@.take(i as int) =~= events@);
    r
}

/// A new path is probed, a validated one is used where there are several paths, and a status that
/// the peer asks for is followed; no other event asks for anything.
pub proof fn events_ask_for_their_action(e: PathEvent, multipath: bool)
    ensures
        e matches PathEvent::New(p) ==> action_of(e, multipath) == Some(PathAction::Probe(p)),
        e matches PathEvent::Validated(p) ==> action_of(e, multipath) == if multipath {
            Some(PathAction::SetActive(p))
        } else {
            None
        },
        e matches PathEvent::PeerPathStatus(p, s) ==> action_of(e, multipath) == Some(
            PathAction::SetStatus(p, s),
        ),
        !(e is New || e is Validated || e is PeerPathStatus) ==> action_of(e, multipath) is None,
{
}

/// Events are handled in turn: what is done about some and then others is what is done about
/// both one after the other.
pub proof fn events_are_handled_in_turn(
    first: Seq<PathEvent>,
    second: Seq<PathEvent>,
    e: PathEvent,
    multipath: bool,
)
    ensures
        actions_of(first + second, multipath) == actions_of(first, multipath) + actions_of(
            second,
            multipath,
        ),
        action_of(e, multipath) is None ==> actions_of(seq![e], multipath).len() == 0,
        action_of(e, multipath) matches Some(a) ==> actions_of(seq![e], multipath) == seq![a],
    decreases second.len(),
{
    reveal_with_fuel(actions_of, 2);
    assert(seq![e].drop_last() =~= Seq::<PathEvent>::empty());
    if let Some(a) = action_of(e, multipath) {
        assert(actions_of(seq![e], multipath) =~= seq![a]);
    }
    if second.len() == 0 {
        assert(first + second =~= first);
        assert(actions_of(first, multipath) + actions_of(second, multipath) =~= actions_of(
            first,
            multipath,
        ));
    } else {
        assert((first + second).drop_last() =~= first + second.drop_last());
        events_are_handled_in_turn(first, second.drop_last(), e, multipath);
        assert(actions_of(first + second, multipath) =~= actions_of(first, multipath)
            + actions_of(second, multipath));
    }
}

} // verus!
