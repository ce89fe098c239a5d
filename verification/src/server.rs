//! The scrape server's decision logic: its lifecycle state machine and the
//! handling of one scrape request. The transport (sockets, tasks) lives
//! outside the library and only performs what these functions decide.

use vstd::prelude::*;
use crate::bytes::bytes_eq;
use crate::encode::{encode, snapshot_text};
use crate::model::metric_wf;
use crate::registry::Registry;

verus! {

/// The lifecycle of the scrape server.
#[derive(Clone, Copy, Debug, PartialEq, Eq, Structural)]
pub enum ServerState {
    Idle,
    Listening,
    Accepting,
    Serving,
    Stopped,
}

/// What can happen to the scrape server.
#[derive(Clone, Copy, Debug, PartialEq, Eq, Structural)]
pub enum ServerEvent {
    Start,
    Accept,
    Dispatch,
    Finish,
    Shutdown,
}

/// The transition function of the server's lifecycle:
/// `Idle -> Listening -> (per request: Accepting -> Serving -> Listening)`,
/// terminal `Stopped` on a shutdown while no request is in flight. A
/// shutdown during `Accepting` or `Serving` is deferred so that the in-flight
/// request completes; the caller re-issues it afterwards. Any other event is
/// ignored in a state it does not apply to.
pub open spec fn step_spec(s: ServerState, e: ServerEvent) -> ServerState {
    match (s, e) {
        (ServerState::Idle, ServerEvent::Start) => ServerState::Listening,
        (ServerState::Listening, ServerEvent::Accept) => ServerState::Accepting,
        (ServerState::Accepting, ServerEvent::Dispatch) => ServerState::Serving,
        (ServerState::Serving, ServerEvent::Finish) => ServerState::Listening,
        (ServerState::Idle, ServerEvent::Shutdown) => ServerState::Stopped,
        (ServerState::Listening, ServerEvent::Shutdown) => ServerState::Stopped,
        (_, _) => s,
    }
}

/// Advance the server's lifecycle by one event.
pub fn step(s: ServerState, e: ServerEvent) -> (t: ServerState)
    ensures
        t == step_spec(s, e),
{
    match (s, e) {
        (ServerState::Idle, ServerEvent::Start) => ServerState::Listening,
        (ServerState::Listening, ServerEvent::Accept) => ServerState::Accepting,
        (ServerState::Accepting, ServerEvent::Dispatch) => ServerState::Serving,
        (ServerState::Serving, ServerEvent::Finish) => ServerState::Listening,
        (ServerState::Idle, ServerEvent::Shutdown) => ServerState::Stopped,
        (ServerState::Listening, ServerEvent::Shutdown) => ServerState::Stopped,
        (_, _) => s,
    }
}

/// `Stopped` is terminal: no event leaves it.
pub proof fn lemma_stopped_terminal(e: ServerEvent)
    ensures
        step_spec(ServerState::Stopped, e) == ServerState::Stopped,
{
}

/// Only a shutdown reaches `Stopped`.
pub proof fn lemma_only_shutdown_stops(s: ServerState, e: ServerEvent)
    requires
        s != ServerState::Stopped,
        step_spec(s, e) == ServerState::Stopped,
    ensures
        e == ServerEvent::Shutdown,
{
}

/// The response to one scrape request.
pub struct ScrapeResponse {
    pub status: u16,
    pub body: Vec<u8>,
}

/// Handle one scrape request: on the configured route, a `200` whose body is
/// the encoded consistent snapshot of the registry; on any other path a
/// `404` with an empty body. The registry is never mutated.
pub fn respond(reg: &Registry, route: &Vec<u8>, path: &Vec<u8>) -> (r: ScrapeResponse)
    requires
        reg.wf(),
    ensures
        path@ == route@ ==> r.status == 200 && r.body@ == snapshot_text(reg@),
        path@ != route@ ==> r.status == 404 && r.body@ == Seq::<u8>::empty(),
{
    if bytes_eq(path, route) {
        let snap = reg.snapshot();
        proof {
            assert forall|i: int| 0 <= i < snap@.len() implies forall|j: int|
                0 <= j < (#[trigger] snap@[i]).series.len() ==> (#[trigger] snap@[i].series[
                    j
                ]).label_values.len() == snap@[i].label_keys.len() by {
                assert(metric_wf(snap@[i]));
            }
        }
        let body = encode(&snap);
        ScrapeResponse { status: 200, body }
    } else {
        let body: Vec<u8> = Vec::new();
        ScrapeResponse { status: 404, body }
    }
}

} // verus!
