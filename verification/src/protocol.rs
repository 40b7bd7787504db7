//! The per-connection protocol: a token-gated duplex channel that
//! multiplexes subscription traffic and correlated invoke requests.
//!
//! A connection starts awaiting authentication; its first frame must be a
//! valid `Auth`, or it closes. Once authenticated it accepts `Invoke`,
//! `Subscribe` and `Unsubscribe` frames, forwards the bus events it is
//! subscribed to, and answers every invoke with exactly one response
//! correlated by the caller's id. All outbound frames go through the
//! connection's private FIFO queue, drained by a single writer.

use vstd::prelude::*;

use crate::access::TokenGate;
use crate::fanout::BusEvent;
use crate::strutil::str_eq;

verus! {

/// A frame a client sends.
#[derive(Debug, Clone)]
pub enum ClientMessage {
    Auth { token: String },
    Invoke { id: u64, command: String, args: String },
    Subscribe { event: String },
    Unsubscribe { event: String },
}

/// A frame the server sends.
#[derive(Debug, Clone)]
pub enum ServerMessage {
    AuthResult { success: bool, error: Option<String> },
    InvokeResult { id: u64, result: Option<String>, error: Option<String> },
    Event { event: String, payload: String },
}

/// What the receive loop got from the socket: a decoded frame, text that
/// did not decode to any known frame, or no frame at all — a timeout, a
/// receive error, a non-text frame, or a disconnect.
#[derive(Debug, Clone)]
pub enum Inbound {
    Frame(ClientMessage),
    Malformed,
    Failed,
}

/// Where a connection stands.
#[derive(Debug, Clone)]
pub enum Phase {
    AwaitingAuth,
    Authenticated,
    Closed,
}

/// An invoke to hand to the dispatcher: the caller's correlation id, the
/// command name, and its arguments as JSON text.
#[derive(Debug, Clone)]
pub struct DispatchRequest {
    pub id: u64,
    pub command: String,
    pub args: String,
}

/// One client connection: its phase, its current subscription set, and
/// its private outbound queue.
#[derive(Debug, Clone)]
pub struct Connection {
    pub phase: Phase,
    pub subscriptions: Vec<String>,
    pub outbound: Vec<ServerMessage>,
}

impl Connection {
    /// The subscription list holds each event name once.
    pub open spec fn wf(self) -> bool {
        forall|i: int, j: int|
            0 <= i < j < self.subscriptions@.len() ==> (#[trigger] self.subscriptions@[i])@ != (
            #[trigger] self.subscriptions@[j])@
    }

    /// The connection is subscribed to this event name.
    pub open spec fn subscribed(self, event: Seq<char>) -> bool {
        exists|i: int|
            0 <= i < self.subscriptions@.len() && (#[trigger] self.subscriptions@[i])@ == event
    }

    /// A fresh connection, awaiting its first frame.
    pub fn new() -> (r: Self)
        ensures
            r.wf(),
            r.phase == Phase::AwaitingAuth,
            r.subscriptions@.len() == 0,
            r.outbound@.len() == 0,
    {
        Connection { phase: Phase::AwaitingAuth, subscriptions: Vec::new(), outbound: Vec::new() }
    }
}

/// The response to an invoke: success carries the result, failure the
/// error string, always under the caller's id.
pub open spec fn invoke_reply(id: u64, outcome: Result<String, String>) -> ServerMessage {
    match outcome {
        Ok(value) => ServerMessage::InvokeResult { id, result: Some(value), error: None },
        Err(e) => ServerMessage::InvokeResult { id, result: None, error: Some(e) },
    }
}

/// How the first frame settles a connection: a valid `Auth` authenticates
/// and is acknowledged; an invalid one is refused and closes; any other
/// frame, or undecodable text, is refused and closes; no frame at all —
/// timeout, receive error, non-text, disconnect — closes silently.
pub open spec fn step_first(
    pre: Connection,
    inbound: Inbound,
    gate: TokenGate,
    now: i64,
    post: Connection,
    reply: Option<ServerMessage>,
) -> bool {
    &&& post.subscriptions == pre.subscriptions
    &&& post.outbound == pre.outbound
    &&& match inbound {
        Inbound::Frame(ClientMessage::Auth { token }) => {
            if gate.valid_spec(token@, now) {
                &&& post.phase == Phase::Authenticated
                &&& reply == Some(ServerMessage::AuthResult { success: true, error: None })
            } else {
                &&& post.phase == Phase::Closed
                &&& (reply matches Some(ServerMessage::AuthResult { success: false, error }) && (
                error matches Some(e) && e@ == "Invalid or expired token"@))
            }
        },
        Inbound::Frame(_) | Inbound::Malformed => {
            &&& post.phase == Phase::Closed
            &&& (reply matches Some(ServerMessage::AuthResult { success: false, error }) && (
            error matches Some(e) && e@ == "First message must be Auth"@))
        },
        Inbound::Failed => post.phase == Phase::Closed && reply is None,
    }
}

/// How one frame moves an authenticated connection: a repeated `Auth` is
/// ignored, an `Invoke` is handed out for dispatch, `Subscribe` and
/// `Unsubscribe` edit the subscription set, and a malformed frame is
/// dropped with the connection left open.
pub open spec fn step_message(
    pre: Connection,
    inbound: Inbound,
    post: Connection,
    dispatch: Option<DispatchRequest>,
) -> bool {
    &&& post.phase == Phase::Authenticated
    &&& post.outbound == pre.outbound
    &&& match inbound {
        Inbound::Frame(ClientMessage::Invoke { id, command, args }) => {
            &&& post.subscriptions == pre.subscriptions
            &&& dispatch == Some(DispatchRequest { id, command, args })
        },
        Inbound::Frame(ClientMessage::Subscribe { event }) => {
            &&& dispatch is None
            &&& post.wf()
            &&& forall|e: Seq<char>|
                #[trigger] post.subscribed(e) <==> pre.subscribed(e) || e == event@
        },
        Inbound::Frame(ClientMessage::Unsubscribe { event }) => {
            &&& dispatch is None
            &&& post.wf()
            &&& forall|e: Seq<char>|
                #[trigger] post.subscribed(e) <==> pre.subscribed(e) && e != event@
        },
        Inbound::Frame(ClientMessage::Auth { .. }) | Inbound::Malformed => {
            &&& post.subscriptions == pre.subscriptions
            &&& dispatch is None
        },
        Inbound::Failed => false,
    }
}

/// How a bus event moves a connection: an event the connection is
/// subscribed to is queued as exactly one outbound frame; any other event
/// leaves the connection untouched.
pub open spec fn step_bus_event(pre: Connection, ev: BusEvent, post: Connection) -> bool {
    if pre.subscribed(ev.event@) {
        &&& post.phase == pre.phase
        &&& post.subscriptions == pre.subscriptions
        &&& post.outbound@ == pre.outbound@.push(
            ServerMessage::Event { event: ev.event, payload: ev.payload },
        )
    } else {
        post == pre
    }
}

/// Looks a name up in a list of names.
fn find_name(v: &Vec<String>, name: &str) -> (r: Option<usize>)
    ensures
        r matches Some(i) ==> i < v@.len() && v@[i as int]@ == name@,
        r is None ==> forall|k: int| 0 <= k < v@.len() ==> (#[trigger] v@[k])@ != name@,
{
    let mut i: usize = 0;
    while i < v.len()
        invariant
            i <= v@.len(),
            forall|k: int| 0 <= k < i ==> (#[trigger] v@[k])@ != name@,
        decreases v@.len() - i,
    {
        if str_eq(v[i].as_str(), name) {
            return Some(i);
        }
        i = i + 1;
    }
    None
}

impl Connection {
    /// Settles the connection on its first inbound event, against the
    /// token gate at `now`. The reply, if any, is the single
    /// acknowledgment frame to send before the verdict takes effect.
    pub fn on_first_inbound(&mut self, inbound: Inbound, gate: &TokenGate, now: i64) -> (reply:
        Option<ServerMessage>)
        requires
            old(self).phase == Phase::AwaitingAuth,
            old(self).wf(),
        ensures
            final(self).wf(),
            step_first(*old(self), inbound, *gate, now, *final(self), reply),
    {
        match inbound {
            Inbound::Frame(ClientMessage::Auth { token }) => {
                if gate.validate(token.as_str(), now) {
                    self.phase = Phase::Authenticated;
                    Some(ServerMessage::AuthResult { success: true, error: None })
                } else {
                    self.phase = Phase::Closed;
                    Some(
                        ServerMessage::AuthResult {
                            success: false,
                            error: Some("Invalid or expired token".to_owned()),
                        },
                    )
                }
            },
            Inbound::Frame(_) | Inbound::Malformed => {
                self.phase = Phase::Closed;
                Some(
                    ServerMessage::AuthResult {
                        success: false,
                        error: Some("First message must be Auth".to_owned()),
                    },
                )
            },
            Inbound::Failed => {
                self.phase = Phase::Closed;
                None
            },
        }
    }

    /// Handles one frame on an authenticated connection. An `Invoke`
    /// comes back as a dispatch request; the caller runs it and answers
    /// through `on_invoke_done`.
    pub fn on_message(&mut self, inbound: Inbound) -> (dispatch: Option<DispatchRequest>)
        requires
            old(self).phase == Phase::Authenticated,
            old(self).wf(),
            !(inbound is Failed),
        ensures
            final(self).wf(),
            step_message(*old(self), inbound, *final(self), dispatch),
    {
        match inbound {
            Inbound::Frame(ClientMessage::Invoke { id, command, args }) => {
                Some(DispatchRequest { id, command, args })
            },
            Inbound::Frame(ClientMessage::Subscribe { event }) => {
                self.subscribe(event);
                None
            },
            Inbound::Frame(ClientMessage::Unsubscribe { event }) => {
                self.unsubscribe(&event);
                None
            },
            Inbound::Frame(ClientMessage::Auth { .. }) => None,
            Inbound::Malformed => None,
            Inbound::Failed => None,
        }
    }

    fn subscribe(&mut self, event: String)
        requires
            old(self).wf(),
        ensures
            final(self).wf(),
            final(self).phase == old(self).phase,
            final(self).outbound == old(self).outbound,
            forall|e: Seq<char>|
                #[trigger] final(self).subscribed(e) <==> old(self).subscribed(e) || e == event@,
    {
        match find_name(&self.subscriptions, event.as_str()) {
            Some(_) => {
                proof {
                    assert(self.subscribed(event@));
                }
            },
            None => {
                let ghost pre = self.subscriptions@;
                self.subscriptions.push(event);
                proof {
                    assert forall|e: Seq<char>| #[trigger] self.subscribed(e) implies (exists|
                        k: int,
                    |
                        0 <= k < pre.len() && (#[trigger] pre[k])@ == e) || e == event@ by {
                        let k = choose|k: int|
                            0 <= k < self.subscriptions@.len() && (
                            #[trigger] self.subscriptions@[k])@ == e;
                        if k < pre.len() {
                            assert(pre[k]@ == e);
                        }
                    }
                    assert forall|e: Seq<char>|
                        (exists|k: int| 0 <= k < pre.len() && (#[trigger] pre[k])@ == e) || e
                            == event@ implies self.subscribed(e) by {
                        if e == event@ {
                            assert(self.subscriptions@[pre.len() as int]@ == e);
                        } else {
                            let k = choose|k: int| 0 <= k < pre.len() && (#[trigger] pre[k])@ == e;
                            assert(self.subscriptions@[k]@ == e);
                        }
                    }
                }
            },
        }
    }

    fn unsubscribe(&mut self, event: &String)
        requires
            old(self).wf(),
        ensures
            final(self).wf(),
            final(self).phase == old(self).phase,
            final(self).outbound == old(self).outbound,
            forall|e: Seq<char>|
                #[trigger] final(self).subscribed(e) <==> old(self).subscribed(e) && e != event@,
    {
        match find_name(&self.subscriptions, event.as_str()) {
            Some(i) => {
                let ghost pre = self.subscriptions@;
                self.subscriptions.remove(i);
                proof {
                    assert forall|e: Seq<char>| #[trigger] self.subscribed(e) implies (exists|
                        k: int,
                    |
                        0 <= k < pre.len() && (#[trigger] pre[k])@ == e) && e != event@ by {
                        let k = choose|k: int|
                            0 <= k < self.subscriptions@.len() && (
                            #[trigger] self.subscriptions@[k])@ == e;
                        if k < i {
                            assert(pre[k]@ == e);
                        } else {
                            assert(pre[k + 1]@ == e);
                        }
                        if e == event@ {
                            assert(pre[i as int]@ == event@);
                        }
                    }
                    assert forall|e: Seq<char>|
                        (exists|k: int| 0 <= k < pre.len() && (#[trigger] pre[k])@ == e) && e
                            != event@ implies self.subscribed(e) by {
                        let k = choose|k: int| 0 <= k < pre.len() && (#[trigger] pre[k])@ == e;
                        if k < i {
                            assert(self.subscriptions@[k]@ == e);
                        } else {
                            assert(self.subscriptions@[k - 1]@ == e);
                        }
                    }
                }
            },
            None => {
                proof {
                    assert(!self.subscribed(event@));
                }
            },
        }
    }

    /// Queues a bus event for this connection when it is subscribed to
    /// the event's name: exactly one outbound frame per matching event.
    pub fn on_bus_event(&mut self, ev: &BusEvent)
        requires
            old(self).wf(),
        ensures
            final(self).wf(),
            step_bus_event(*old(self), *ev, *final(self)),
    {
        match find_name(&self.subscriptions, ev.event.as_str()) {
            Some(_) => {
                proof {
                    assert(self.subscribed(ev.event@));
                }
                self.outbound.push(
                    ServerMessage::Event { event: ev.event.clone(), payload: ev.payload.clone() },
                );
            },
            None => {
                proof {
                    assert(!self.subscribed(ev.event@));
                }
            },
        }
    }

    /// Queues the response to a finished invoke, correlated by the
    /// caller's id — one response exactly, however long the dispatch
    /// took and in whatever order invokes complete.
    pub fn on_invoke_done(&mut self, id: u64, outcome: Result<String, String>)
        ensures
            final(self).phase == old(self).phase,
            final(self).subscriptions == old(self).subscriptions,
            final(self).outbound@ == old(self).outbound@.push(invoke_reply(id, outcome)),
    {
        let msg = match outcome {
            Ok(value) => ServerMessage::InvokeResult { id, result: Some(value), error: None },
            Err(e) => ServerMessage::InvokeResult { id, result: None, error: Some(e) },
        };
        self.outbound.push(msg);
    }

    /// Takes the next outbound frame, in FIFO order; the single writer
    /// drains the queue through this.
    pub fn next_outbound(&mut self) -> (r: Option<ServerMessage>)
        ensures
            final(self).phase == old(self).phase,
            final(self).subscriptions == old(self).subscriptions,
            old(self).outbound@.len() == 0 ==> r is None && final(self).outbound == old(
                self,
            ).outbound,
            old(self).outbound@.len() > 0 ==> (r == Some(old(self).outbound@[0])
                && final(self).outbound@ == old(self).outbound@.skip(1)),
    {
        if self.outbound.len() == 0 {
            return None;
        }
        let ghost pre = self.outbound@;
        let msg = self.outbound.remove(0);
        proof {
            assert(self.outbound@ =~= pre.skip(1));
        }
        Some(msg)
    }

    /// Tears the connection down: socket error, client disconnect, or
    /// explicit close.
    pub fn close(&mut self)
        ensures
            final(self).phase == Phase::Closed,
            final(self).subscriptions == old(self).subscriptions,
            final(self).outbound == old(self).outbound,
    {
        self.phase = Phase::Closed;
    }
}

// ---------------------------------------------------------------------------
// Protocol laws
// ---------------------------------------------------------------------------

/// A connection that gets no first frame — the authentication window
/// timed out, the receive failed, or the client went away — closes
/// without sending anything and never authenticates.
pub proof fn lemma_auth_timeout_closes(
    pre: Connection,
    gate: TokenGate,
    now: i64,
    post: Connection,
    reply: Option<ServerMessage>,
)
    requires
        pre.phase == Phase::AwaitingAuth,
        step_first(pre, Inbound::Failed, gate, now, post, reply),
    ensures
        post.phase == Phase::Closed,
        !(post.phase == Phase::Authenticated),
        reply is None,
{
}

/// After `Subscribe` of an event name, a published event of that name
/// yields exactly one outbound `Event` frame carrying it.
pub proof fn lemma_subscribe_delivers(
    c0: Connection,
    c1: Connection,
    c2: Connection,
    event: String,
    ev: BusEvent,
)
    requires
        step_message(c0, Inbound::Frame(ClientMessage::Subscribe { event }), c1, None),
        step_bus_event(c1, ev, c2),
        ev.event@ == event@,
    ensures
        c2.outbound@ == c1.outbound@.push(
            ServerMessage::Event { event: ev.event, payload: ev.payload },
        ),
        c2.outbound@.len() == c1.outbound@.len() + 1,
{
    assert(c1.subscribed(ev.event@));
}

/// After `Unsubscribe` of an event name, a published event of that name
/// yields no outbound frame at all.
pub proof fn lemma_unsubscribe_silences(
    c0: Connection,
    c1: Connection,
    c2: Connection,
    event: String,
    ev: BusEvent,
)
    requires
        step_message(c0, Inbound::Frame(ClientMessage::Unsubscribe { event }), c1, None),
        step_bus_event(c1, ev, c2),
        ev.event@ == event@,
    ensures
        c2 == c1,
        c2.outbound == c1.outbound,
{
    assert(!c1.subscribed(ev.event@));
}

/// Invoke responses correlate by id alone: two invokes answered in
/// either order each append the response that carries their own id and
/// their own outcome, whatever the completion order was.
pub proof fn lemma_invoke_correlation(
    c0: Connection,
    c1: Connection,
    c2: Connection,
    id_a: u64,
    id_b: u64,
    out_a: Result<String, String>,
    out_b: Result<String, String>,
)
    requires
        id_a != id_b,
        c1.outbound@ == c0.outbound@.push(invoke_reply(id_a, out_a)),
        c2.outbound@ == c1.outbound@.push(invoke_reply(id_b, out_b)),
    ensures
        c2.outbound@.len() == c0.outbound@.len() + 2,
        c2.outbound@[c0.outbound@.len() as int] == invoke_reply(id_a, out_a),
        c2.outbound@[c0.outbound@.len() as int + 1] == invoke_reply(id_b, out_b),
        (invoke_reply(id_a, out_a) matches ServerMessage::InvokeResult { id, .. } && id == id_a),
        (invoke_reply(id_b, out_b) matches ServerMessage::InvokeResult { id, .. } && id == id_b),
{
}

} // verus!
