//! The connection multiplexer's state and the request handle. The state owns
//! the pending-request table that maps each in-flight correlation id to a
//! one-shot completion slot; one background loop (run by the caller around
//! this library, since it owns the transport) decodes inbound messages and
//! routes each through `process_decoded_msg` to the exact request awaiting
//! it. A request handle couples one outbound message with its single-use
//! completion slot.

use crate::error::Error;
use crate::message::DiameterMessage;
use std::collections::HashMap;
use tokio::sync::oneshot::Receiver;
use tokio::sync::oneshot::Sender;
use vstd::prelude::*;

verus! {

/// Tokio's one-shot sender: the fulfilling half of a completion slot.
#[verifier::external_type_specification]
#[verifier::external_body]
#[verifier::reject_recursive_types(T)]
pub struct ExSender<T>(Sender<T>);

/// Tokio's one-shot receiver: the consuming half of a completion slot.
#[verifier::external_type_specification]
#[verifier::external_body]
#[verifier::reject_recursive_types(T)]
pub struct ExReceiver<T>(Receiver<T>);

/// Tokio's error for a completion slot whose sender dropped; it reaches this
/// library only through the receiver type above.
#[verifier::external_type_specification]
#[verifier::external_body]
pub struct ExRecvError(tokio::sync::oneshot::error::RecvError);

/// Relies on tokio::sync::oneshot::channel: allocates a connected
/// sender/receiver pair; the value sent on the sender is the value the
/// receiver yields.
pub assume_specification<T>[ tokio::sync::oneshot::channel::<T> ]() -> (r: (
    Sender<T>,
    Receiver<T>,
));

/// Relies on tokio::sync::oneshot::Sender::send: the value is handed to the
/// receiving half exactly once, or comes back unchanged when the receiver is
/// already gone.
pub assume_specification<T>[ Sender::<T>::send ](s: Sender<T>, t: T) -> (r: Result<(), T>)
    ensures
        r matches Err(t2) ==> t2 == t,
;

/// The observable lifecycle of a connection.
#[derive(Clone, Copy, Debug, PartialEq, Eq, Structural)]
pub enum ConnectionState {
    /// No transport is attached yet.
    Disconnected,
    /// The transport is attached and the background read loop is running.
    Connected,
    /// The background read loop met a transport or decode failure and
    /// stopped: no further response will ever be delivered, entries still
    /// pending stay unresolved, and new requests are refused.
    Faulted,
}

/// The multiplexer's shared state: the connection lifecycle and the
/// pending-request table keyed by correlation id. The caller around this
/// library guards it with a lock held only for one registration or one
/// routing step, never across a suspension point; the transport's write half
/// is a second, independently guarded resource that never lives here.
pub struct DiameterClient {
    state: ConnectionState,
    msg_caches: HashMap<u32, Sender<DiameterMessage>>,
}

impl DiameterClient {
    /// The connection's lifecycle state.
    pub closed spec fn spec_state(&self) -> ConnectionState {
        self.state
    }

    /// The pending-request table: each in-flight correlation id and the
    /// completion slot its caller awaits.
    pub closed spec fn pending(&self) -> Map<u32, Sender<DiameterMessage>> {
        self.msg_caches@
    }

    /// A fresh client: disconnected, with nothing in flight.
    pub fn new() -> (r: DiameterClient)
        ensures
            r.spec_state() == ConnectionState::Disconnected,
            r.pending() == Map::<u32, Sender<DiameterMessage>>::empty(),
    {
        DiameterClient { state: ConnectionState::Disconnected, msg_caches: HashMap::new() }
    }

    /// The current lifecycle state, for callers deciding whether to retry or
    /// reconnect; this library itself never reconnects.
    pub fn state(&self) -> (r: ConnectionState)
        ensures
            r == self.spec_state(),
    {
        self.state
    }

    /// Records that the transport is established and the background read
    /// loop is running: requests may be registered from now on.
    pub fn mark_connected(&mut self)
        ensures
            final(self).spec_state() == ConnectionState::Connected,
            final(self).pending() == old(self).pending(),
    {
        self.state = ConnectionState::Connected;
    }

    /// Records that the background read loop stopped on a transport, decode
    /// or protocol failure. Entries still pending are left in place — they
    /// will never be fulfilled — and every later registration is refused.
    pub fn mark_faulted(&mut self)
        ensures
            final(self).spec_state() == ConnectionState::Faulted,
            final(self).pending() == old(self).pending(),
    {
        self.state = ConnectionState::Faulted;
    }

    /// Registers one outbound request: allocates a completion slot, inserts
    /// it into the pending table under the message's correlation id
    /// (silently overwriting on a collision — uniqueness among ids in flight
    /// is the caller's contract), and returns the handle that will consume
    /// the response. Refused unless the connection is running.
    pub fn request(&mut self, req: DiameterMessage) -> (r: Result<DiameterRequest, Error>)
        ensures
            r is Ok <==> old(self).spec_state() == ConnectionState::Connected,
            final(self).spec_state() == old(self).spec_state(),
            r matches Ok(h) ==> {
                &&& final(self).pending().contains_key(req@.hop_by_hop_id)
                &&& final(self).pending() == old(self).pending().insert(
                    req@.hop_by_hop_id,
                    final(self).pending()[req@.hop_by_hop_id],
                )
                &&& h.spec_request() == req
                &&& h.has_receiver()
            },
            r is Err ==> final(self).pending() == old(self).pending(),
            r matches Err(e) ==> e == Error::NotConnected,
    {
        match self.state {
            ConnectionState::Connected => {
                let (tx, rx) = tokio::sync::oneshot::channel();
                let hop = req.get_hop_by_hop_id();
                self.msg_caches.insert(hop, tx);
                Ok(DiameterRequest::new(req, rx))
            },
            _ => Err(Error::NotConnected),
        }
    }

    /// One routing step of the background demultiplexing loop: remove the
    /// pending entry bearing the response's correlation id and fulfill its
    /// completion slot with the message. A response with no pending entry is
    /// reported as an error and dropped, with the table and the state
    /// untouched, so the loop goes on and later responses still resolve; a
    /// slot whose awaiting handle is already gone is reported likewise, with
    /// the entry removed either way.
    pub fn process_decoded_msg(&mut self, res: DiameterMessage) -> (r: Result<(), Error>)
        ensures
            final(self).spec_state() == old(self).spec_state(),
            old(self).pending().contains_key(res@.hop_by_hop_id) ==> {
                &&& final(self).pending() == old(self).pending().remove(res@.hop_by_hop_id)
                &&& (r is Ok || r == Err::<(), Error>(Error::ResponseDropped))
            },
            !old(self).pending().contains_key(res@.hop_by_hop_id) ==> {
                &&& final(self).pending() == old(self).pending()
                &&& r == Err::<(), Error>(Error::UnmatchedResponse(res@.hop_by_hop_id))
            },
    {
        let hop = res.get_hop_by_hop_id();
        match self.msg_caches.remove(&hop) {
            Some(slot) => match slot.send(res) {
                Ok(()) => Ok(()),
                Err(_) => Err(Error::ResponseDropped),
            },
            None => Err(Error::UnmatchedResponse(hop)),
        }
    }
}

/// One in-flight request: the original message and the single-use receiving
/// half of its completion slot. The caller around this library couples it
/// with the shared write half of the transport to send the message and to
/// await the routed response.
pub struct DiameterRequest {
    request: DiameterMessage,
    receiver: Option<Receiver<DiameterMessage>>,
}

impl DiameterRequest {
    /// The request message this handle was built from.
    pub closed spec fn spec_request(&self) -> DiameterMessage {
        self.request
    }

    /// Whether the single-use response receiver is still available.
    pub closed spec fn has_receiver(&self) -> bool {
        self.receiver is Some
    }

    /// Couples one outbound message with the receiving half of its
    /// completion slot.
    pub fn new(request: DiameterMessage, receiver: Receiver<DiameterMessage>) -> (r:
        DiameterRequest)
        ensures
            r.spec_request() == request,
            r.has_receiver(),
    {
        DiameterRequest { request, receiver: Some(receiver) }
    }

    /// The original request message, read-only.
    pub fn get_request(&self) -> (r: &DiameterMessage)
        ensures
            *r == self.spec_request(),
    {
        &self.request
    }

    /// Takes the single-use response receiver: it comes out exactly once,
    /// and every later call fails with an explicit already-taken error
    /// rather than blocking or yielding a stale value.
    pub fn take_receiver(&mut self) -> (r: Result<Receiver<DiameterMessage>, Error>)
        ensures
            r is Ok <==> old(self).has_receiver(),
            !final(self).has_receiver(),
            final(self).spec_request() == old(self).spec_request(),
            r matches Err(e) ==> e == Error::ResponseAlreadyTaken,
    {
        match self.receiver.take() {
            Some(rx) => Ok(rx),
            None => Err(Error::ResponseAlreadyTaken),
        }
    }
}

/// Law: with distinct correlation ids, each pending entry resolves to
/// exactly the slot registered under its own id, whatever the answering
/// order — stated here for two requests answered in reverse order of
/// registration, on the table model that `request` and
/// `process_decoded_msg` maintain — and entries of other ids in flight are
/// untouched by both deliveries.
pub proof fn lemma_no_cross_delivery<S>(table: Map<u32, S>, id1: u32, id2: u32, slot1: S, slot2: S)
    requires
        id1 != id2,
    ensures
        ({
            let t = table.insert(id1, slot1).insert(id2, slot2);
            &&& t[id2] == slot2
            &&& t.remove(id2)[id1] == slot1
            &&& forall|k: u32|
                #[trigger] table.contains_key(k) && k != id1 && k != id2 ==> t.remove(id2).remove(
                    id1,
                )[k] == table[k]
        }),
{
}

} // verus!
