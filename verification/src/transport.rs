//! The generic transport contract: the operations every backend — channel
//! or networked — offers identically, for application code that must not
//! care which backend it drives.

use vstd::prelude::*;
use crate::channel::ChannelServer;
use crate::error::{ChannelError, ServerError};
use crate::event::{generic_of, lemma_generic_of_snoc, Event, ServerEvent};
use crate::frontend::{poll_rel, ClientInfo, WebTransportServer};
use crate::message::Message;
use crate::registry::ClientId;
use crate::stream::ServerStream;

verus! {

/// A server-side transport: accepts client connections and carries typed
/// messages to and from them.
///
/// `C2S` is the type of messages clients send to the server, `S2C` the type
/// the server sends to clients. A client is *connected* exactly while
/// `connection_info` returns `Some`; that is the sole definition of
/// "connected" this contract uses. Each implementation says through the
/// spec members when its operations succeed and what one poll guarantees,
/// so code written against this trait still gets behavior, not just types.
pub trait TransportServer<C2S: Message, S2C: Message>: Sized {
    /// Info on one client's connection, as this transport measures it.
    type ConnectionInfo;

    /// The local, synchronous errors this transport returns.
    type Error;

    /// The implementation's internal invariant, established by its
    /// constructors and preserved by every operation.
    spec fn inv(&self) -> bool;

    /// Whether `client` is currently connected.
    spec fn connected_spec(&self, client: ClientId) -> bool;

    /// When a `send` to `client` is accepted.
    spec fn send_ok(&self, client: ClientId) -> bool;

    /// When a `disconnect` of `client` is accepted.
    spec fn disconnect_ok(&self, client: ClientId) -> bool;

    /// What one poll guarantees: how the events handed out relate the
    /// transport's state before (`pre`) and after (`self`) the call.
    spec fn recv_post(&self, pre: Self, out: Seq<ServerEvent<C2S>>) -> bool;

    /// The current snapshot of `client`'s connection: `Some` exactly while
    /// `client` is connected. A pure read; never blocks, never mutates.
    fn connection_info(&self, client: ClientId) -> (r: Option<Self::ConnectionInfo>)
        requires
            self.inv(),
        ensures
            r is Some <==> self.connected_spec(client),
    ;

    /// Whether `client` is currently connected:
    /// `connection_info(client).is_some()`.
    fn connected(&self, client: ClientId) -> (r: bool)
        requires
            self.inv(),
        ensures
            r == self.connected_spec(client),
    ;

    /// Queues `msg` for delivery to `client`. Success means only "accepted
    /// for attempted delivery" — a later failure surfaces as a
    /// `Disconnected` event — and comes if and only if the implementation's
    /// `send_ok` held, which requires at least that `client` was connected.
    fn send(&mut self, client: ClientId, msg: S2C) -> (r: Result<(), Self::Error>)
        requires
            old(self).inv(),
        ensures
            final(self).inv(),
            r is Ok <==> old(self).send_ok(client),
            r is Ok ==> old(self).connected_spec(client),
    ;

    /// Drains every event queued since the previous poll, in arrival
    /// order, as the implementation's `recv_post` states exactly. Must be
    /// called every application tick, or the transport cannot make forward
    /// progress.
    fn recv(&mut self) -> (r: Vec<ServerEvent<C2S>>)
        requires
            old(self).inv(),
        ensures
            final(self).inv(),
            final(self).recv_post(*old(self), r@),
    ;

    /// Asks the transport to close `client`'s connection, accepted if and
    /// only if the implementation's `disconnect_ok` held. An accepted
    /// disconnect is observable at once: `client` is no longer connected
    /// when the call returns. A disconnect never connects anyone.
    fn disconnect(&mut self, client: ClientId) -> (r: Result<(), Self::Error>)
        requires
            old(self).inv(),
        ensures
            final(self).inv(),
            r is Ok <==> old(self).disconnect_ok(client),
            r is Ok ==> !final(self).connected_spec(client),
            forall|c: ClientId| final(self).connected_spec(c)
                ==> old(self).connected_spec(c),
    ;
}

impl<C2S: Message, S2C: Message> TransportServer<C2S, S2C> for ChannelServer<C2S, S2C> {
    /// The channel transport carries no measurements.
    type ConnectionInfo = ();

    type Error = ChannelError;

    /// The channel server needs no invariant beyond its type.
    open spec fn inv(&self) -> bool {
        true
    }

    open spec fn connected_spec(&self, client: ClientId) -> bool {
        ChannelServer::connected_spec(*self, client)
    }

    /// A channel send is accepted exactly for connected clients.
    open spec fn send_ok(&self, client: ClientId) -> bool {
        ChannelServer::connected_spec(*self, client)
    }

    /// A channel disconnect is accepted exactly for connected clients.
    open spec fn disconnect_ok(&self, client: ClientId) -> bool {
        ChannelServer::connected_spec(*self, client)
    }

    /// One channel poll hands out exactly the queued events, in arrival
    /// order, and changes no client's state.
    open spec fn recv_post(&self, pre: Self, out: Seq<ServerEvent<C2S>>) -> bool {
        &&& out == pre.pending_events()
        &&& self.pending_events() == Seq::<ServerEvent<C2S>>::empty()
        &&& (forall|i: ClientId| self.known(i) == pre.known(i))
        &&& (forall|i: ClientId| ChannelServer::connected_spec(*self, i)
            == ChannelServer::connected_spec(pre, i))
        &&& (forall|i: ClientId| self.outbox(i) == pre.outbox(i))
    }

    fn connection_info(&self, client: ClientId) -> (r: Option<()>) {
        ChannelServer::connection_info(self, client)
    }

    fn connected(&self, client: ClientId) -> (r: bool) {
        ChannelServer::connected(self, client)
    }

    fn send(&mut self, client: ClientId, msg: S2C) -> (r: Result<(), ChannelError>) {
        ChannelServer::send(self, client, msg)
    }

    fn recv(&mut self) -> (r: Vec<ServerEvent<C2S>>) {
        ChannelServer::recv(self)
    }

    fn disconnect(&mut self, client: ClientId) -> (r: Result<(), ChannelError>) {
        ChannelServer::disconnect(self, client)
    }
}

impl<C2S: Message, S2C: Message> TransportServer<C2S, S2C> for WebTransportServer<C2S, S2C> {
    type ConnectionInfo = ClientInfo;

    type Error = ServerError;

    /// The networked frontend's invariant.
    open spec fn inv(&self) -> bool {
        self.wf()
    }

    open spec fn connected_spec(&self, client: ClientId) -> bool {
        WebTransportServer::connected_spec(*self, client)
    }

    /// A networked send is accepted exactly when the backend is open, the
    /// client connected, and the command queue has room.
    open spec fn send_ok(&self, client: ClientId) -> bool {
        self.send_outcome(client) is Ok
    }

    /// A networked disconnect is accepted exactly when the backend is
    /// open, the client known with no close already pending, and the
    /// command queue has room.
    open spec fn disconnect_ok(&self, client: ClientId) -> bool {
        self.disconnect_outcome(client) is Ok
    }

    /// One networked poll translates the buffered backend events through
    /// [`poll_rel`] and hands out their backend-agnostic view, in order;
    /// negotiation detail (`Connecting`) has no generic equivalent and is
    /// left out.
    open spec fn recv_post(&self, pre: Self, out: Seq<ServerEvent<C2S>>) -> bool {
        exists|rich: Seq<Event<C2S>>| {
            &&& #[trigger] poll_rel(pre.model(), pre.backlog(), self.model(), rich)
            &&& out == generic_of(rich)
        }
    }

    fn connection_info(&self, client: ClientId) -> (r: Option<ClientInfo>) {
        WebTransportServer::connection_info(self, client)
    }

    fn connected(&self, client: ClientId) -> (r: bool) {
        WebTransportServer::connected(self, client)
    }

    /// Sends along the datagram channel; callers that address a particular
    /// stream use the concrete type.
    fn send(&mut self, client: ClientId, msg: S2C) -> (r: Result<(), ServerError>) {
        WebTransportServer::send(self, client, ServerStream::Datagram, msg)
    }

    fn recv(&mut self) -> (r: Vec<ServerEvent<C2S>>) {
        let events = WebTransportServer::recv(self);
        let ghost rich = events@;
        let mut events = events;
        let mut r: Vec<ServerEvent<C2S>> = Vec::new();
        let ghost mut done: int = 0;
        proof {
            assert(rich.take(0) =~= Seq::<Event<C2S>>::empty());
            assert(r@ =~= generic_of(rich.take(done)));
        }
        while events.len() > 0
            invariant
                0 <= done <= rich.len(),
                events@ == rich.skip(done),
                r@ == generic_of(rich.take(done)),
            decreases events@.len(),
        {
            let ev: Event<C2S> = events.remove(0);
            proof {
                assert(ev == rich[done]);
            }
            match ev.into_generic() {
                Some(g) => r.push(g),
                None => {}
            }
            proof {
                lemma_generic_of_snoc(rich.take(done), rich[done]);
                assert(rich.take(done).push(rich[done]) =~= rich.take(done + 1));
                if rich[done].generic() is Some {
                    assert(r@ =~= generic_of(rich.take(done))
                        + seq![rich[done].generic().unwrap()]);
                } else {
                    assert(r@ =~= generic_of(rich.take(done))
                        + Seq::<ServerEvent<C2S>>::empty());
                }
                assert(events@ =~= rich.skip(done + 1));
                done = done + 1;
            }
        }
        proof {
            assert(rich.take(done) =~= rich);
        }
        r
    }

    fn disconnect(&mut self, client: ClientId) -> (r: Result<(), ServerError>) {
        WebTransportServer::disconnect(self, client)
    }
}

} // verus!
