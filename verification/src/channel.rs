//! The in-memory channel backend: a direct reference implementation with no
//! concurrency bridge, useful as a test double.
//!
//! The server owns all shared state: the per-client outboxes and one event
//! buffer in arrival order. A client holds only its id and talks to the
//! server directly, so messages move synchronously and every guarantee of
//! the transport contract can be checked in memory.

use vstd::prelude::*;
use crate::error::{ChannelError, SessionError, StreamError};
use crate::event::{ClientEvent, ServerEvent};
use crate::registry::{ClientId, ClientRegistry};
use crate::stream::StreamKind;

verus! {

/// The messages `msgs`, each wrapped as a `Recv` event, in order.
pub open spec fn as_recv_events<S2C>(msgs: Seq<S2C>) -> Seq<ClientEvent<S2C>> {
    msgs.map(|i: int, m: S2C| ClientEvent::Recv { msg: m })
}

struct ChannelConn<S2C> {
    s2c: Vec<S2C>,
    closing: Option<SessionError>,
}

/// The in-memory server. `C2S` is the type of messages clients send to the
/// server, `S2C` the type the server sends to clients.
pub struct ChannelServer<C2S, S2C> {
    clients: ClientRegistry<ChannelConn<S2C>>,
    events: Vec<ServerEvent<C2S>>,
}

impl<C2S, S2C> ChannelServer<C2S, S2C> {
    /// Whether `id` names a client this server knows (possibly one whose
    /// forced close the client has not observed yet).
    pub closed spec fn known(self, id: ClientId) -> bool {
        self.clients@.contains_key(id)
    }

    /// Whether `id` named a client once and never will again.
    pub closed spec fn retired(self, id: ClientId) -> bool {
        self.clients.stale(id)
    }

    /// Whether `id` names a connected client: known, with no close
    /// pending.
    pub open spec fn connected_spec(self, id: ClientId) -> bool {
        self.known(id) && self.closing_of(id) is None
    }

    /// The messages queued for `id` to receive, oldest first.
    pub closed spec fn outbox(self, id: ClientId) -> Seq<S2C> {
        if self.known(id) {
            self.clients@[id].s2c@
        } else {
            Seq::empty()
        }
    }

    /// The close reason `id`'s client will observe, if a close is pending.
    pub closed spec fn closing_of(self, id: ClientId) -> Option<SessionError> {
        if self.known(id) {
            self.clients@[id].closing
        } else {
            None
        }
    }

    /// The events queued for the next `recv`, in arrival order.
    pub closed spec fn pending_events(self) -> Seq<ServerEvent<C2S>> {
        self.events@
    }

    /// A new server with no clients and no queued events.
    pub fn new() -> (r: Self)
        ensures
            forall|id: ClientId| !r.known(id),
            forall|id: ClientId| !r.retired(id),
            r.pending_events() == Seq::<ServerEvent<C2S>>::empty(),
    {
        Self { clients: ClientRegistry::new(), events: Vec::new() }
    }

    /// `Some` exactly while `client` is connected. The channel transport
    /// carries no measurements, so the snapshot is empty.
    pub fn connection_info(&self, client: ClientId) -> (r: Option<()>)
        ensures
            r is Some <==> self.connected_spec(client),
    {
        match self.clients.get(client) {
            Some(c) => {
                if c.closing.is_none() {
                    Some(())
                } else {
                    None
                }
            }
            None => None,
        }
    }

    /// Whether `client` is currently connected:
    /// `connection_info(client).is_some()`.
    pub fn connected(&self, client: ClientId) -> (r: bool)
        ensures
            r == self.connected_spec(client),
    {
        self.connection_info(client).is_some()
    }

    /// What a `send` to `to` returns, given the server's current state.
    pub open spec fn send_outcome(self, to: ClientId) -> Result<(), ChannelError> {
        if !self.known(to) {
            Err(ChannelError::NoClient(to))
        } else if !self.connected_spec(to) {
            Err(ChannelError::Disconnected)
        } else {
            Ok(())
        }
    }

    /// Queues `msg` for `to` to receive. Fails, if and only if: `to` is
    /// unknown or stale (`NoClient`); `to`'s forced close is pending
    /// (`Disconnected`).
    pub fn send(&mut self, to: ClientId, msg: S2C) -> (r: Result<(), ChannelError>)
        ensures
            r == old(self).send_outcome(to),
            final(self).outbox(to) == if r is Ok {
                old(self).outbox(to).push(msg)
            } else {
                old(self).outbox(to)
            },
            forall|i: ClientId| i != to ==> final(self).outbox(i) == old(self).outbox(i),
            final(self).pending_events() == old(self).pending_events(),
            forall|i: ClientId| final(self).known(i) == old(self).known(i),
            forall|i: ClientId| final(self).connected_spec(i) == old(self).connected_spec(i),
            forall|i: ClientId| final(self).closing_of(i) == old(self).closing_of(i),
            forall|i: ClientId| old(self).retired(i) ==> final(self).retired(i),
    {
        let dummy = ChannelConn { s2c: Vec::new(), closing: None };
        match self.clients.replace(to, dummy) {
            Some(conn) => {
                let ChannelConn { s2c, closing } = conn;
                match closing {
                    None => {
                        let mut s2c = s2c;
                        s2c.push(msg);
                        self.clients.set(to, ChannelConn { s2c, closing: None });
                        Ok(())
                    }
                    Some(reason) => {
                        self.clients.set(to, ChannelConn { s2c, closing: Some(reason) });
                        proof {
                            assert(self.clients@ =~= old(self).clients@);
                        }
                        Err(ChannelError::Disconnected)
                    }
                }
            }
            None => Err(ChannelError::NoClient(to)),
        }
    }

    /// Drains every event queued since the previous call, in arrival order.
    pub fn recv(&mut self) -> (out: Vec<ServerEvent<C2S>>)
        ensures
            out@ == old(self).pending_events(),
            final(self).pending_events() == Seq::<ServerEvent<C2S>>::empty(),
            forall|i: ClientId| final(self).known(i) == old(self).known(i),
            forall|i: ClientId| final(self).connected_spec(i) == old(self).connected_spec(i),
            forall|i: ClientId| final(self).outbox(i) == old(self).outbox(i),
            forall|i: ClientId| final(self).closing_of(i) == old(self).closing_of(i),
            forall|i: ClientId| old(self).retired(i) ==> final(self).retired(i),
    {
        let mut out: Vec<ServerEvent<C2S>> = Vec::new();
        core::mem::swap(&mut out, &mut self.events);
        out
    }

    /// What a `disconnect` of `target` returns, given the server's current
    /// state.
    pub open spec fn disconnect_outcome(self, target: ClientId) -> Result<(), ChannelError> {
        if !self.connected_spec(target) {
            Err(ChannelError::AlreadyDisconnected)
        } else {
            Ok(())
        }
    }

    /// Forces `target`'s connection closed. The client observes the close,
    /// with reason `ForceDisconnect`, on its next poll; no server event is
    /// synthesized here. Returns an `AlreadyDisconnected` error, changing
    /// nothing, if and only if `target` is unknown, stale, or already
    /// disconnected.
    pub fn disconnect(&mut self, target: ClientId) -> (r: Result<(), ChannelError>)
        ensures
            r == old(self).disconnect_outcome(target),
            !final(self).connected_spec(target),
            r is Ok ==> final(self).known(target)
                && final(self).closing_of(target) == Some(SessionError::ForceDisconnect),
            r is Err ==> final(self).closing_of(target) == old(self).closing_of(target),
            final(self).pending_events() == old(self).pending_events(),
            forall|i: ClientId| final(self).known(i) == old(self).known(i),
            forall|i: ClientId| i != target
                ==> final(self).connected_spec(i) == old(self).connected_spec(i),
            forall|i: ClientId| i != target
                ==> final(self).closing_of(i) == old(self).closing_of(i),
            forall|i: ClientId| final(self).outbox(i) == old(self).outbox(i),
            forall|i: ClientId| old(self).retired(i) ==> final(self).retired(i),
    {
        let dummy = ChannelConn { s2c: Vec::new(), closing: None };
        match self.clients.replace(target, dummy) {
            Some(conn) => {
                let ChannelConn { s2c, closing } = conn;
                match closing {
                    None => {
                        self.clients.set(
                            target,
                            ChannelConn { s2c, closing: Some(SessionError::ForceDisconnect) },
                        );
                        Ok(())
                    }
                    Some(reason) => {
                        self.clients.set(target, ChannelConn { s2c, closing: Some(reason) });
                        proof {
                            assert(self.clients@ =~= old(self).clients@);
                        }
                        Err(ChannelError::AlreadyDisconnected)
                    }
                }
            }
            None => Err(ChannelError::AlreadyDisconnected),
        }
    }
}

enum ClientState {
    Disconnected,
    Connected { key: ClientId, sent_connect_event: bool },
}

/// The in-memory client: the other end of a [`ChannelServer`].
///
/// The client holds only its identity; the queues live in the server, so
/// every operation takes the server it talks to.
pub struct ChannelClient {
    state: ClientState,
}

impl ChannelClient {
    /// Whether this client is connected to a server.
    pub closed spec fn is_connected(self) -> bool {
        self.state is Connected
    }

    /// The id under which the server knows this client. Meaningful only
    /// while connected.
    pub closed spec fn key_spec(self) -> ClientId {
        match self.state {
            ClientState::Connected { key, .. } => key,
            ClientState::Disconnected => arbitrary(),
        }
    }

    /// Whether this client has already yielded its `Connected` event.
    pub closed spec fn announced(self) -> bool {
        match self.state {
            ClientState::Connected { sent_connect_event, .. } => sent_connect_event,
            ClientState::Disconnected => arbitrary(),
        }
    }

    /// A new client, not connected to any server.
    pub fn disconnected() -> (r: Self)
        ensures
            !r.is_connected(),
    {
        Self { state: ClientState::Disconnected }
    }

    /// Creates a new client connected to `server`, under a fresh id that
    /// the server has never used before. Queues a `Connected` event on the
    /// server's side.
    pub fn connected<C2S, S2C>(server: &mut ChannelServer<C2S, S2C>) -> (r: (Self, ClientId))
        ensures
            r.0.is_connected(),
            !r.0.announced(),
            r.0.key_spec() == r.1,
            !old(server).known(r.1),
            !old(server).retired(r.1),
            final(server).known(r.1),
            final(server).connected_spec(r.1),
            final(server).outbox(r.1) == Seq::<S2C>::empty(),
            final(server).closing_of(r.1) == None::<SessionError>,
            final(server).pending_events() == old(server).pending_events()
                .push(ServerEvent::Connected { client: r.1 }),
            forall|i: ClientId| i != r.1 ==> final(server).known(i) == old(server).known(i),
            forall|i: ClientId| i != r.1
                ==> final(server).connected_spec(i) == old(server).connected_spec(i),
            forall|i: ClientId| i != r.1 ==> final(server).outbox(i) == old(server).outbox(i),
            forall|i: ClientId| i != r.1
                ==> final(server).closing_of(i) == old(server).closing_of(i),
            forall|i: ClientId| old(server).retired(i) ==> final(server).retired(i),
    {
        let key = server.clients.insert(ChannelConn { s2c: Vec::new(), closing: None });
        server.events.push(ServerEvent::Connected { client: key });
        (Self { state: ClientState::Connected { key, sent_connect_event: false } }, key)
    }

    /// Connects this client to `server`. Fails with `AlreadyConnected`,
    /// changing nothing, if and only if the client is already connected.
    pub fn connect<C2S, S2C>(&mut self, server: &mut ChannelServer<C2S, S2C>)
        -> (r: Result<ClientId, ChannelError>)
        ensures
            old(self).is_connected() ==> r == Err::<ClientId, ChannelError>(
                ChannelError::AlreadyConnected,
            ) && *final(self) == *old(self) && *final(server) == *old(server),
            !old(self).is_connected() ==> {
                &&& r matches Ok(key)
                &&& final(self).is_connected()
                &&& !final(self).announced()
                &&& final(self).key_spec() == key
                &&& !old(server).known(key)
                &&& !old(server).retired(key)
                &&& final(server).known(key)
                &&& final(server).connected_spec(key)
                &&& final(server).outbox(key) == Seq::<S2C>::empty()
                &&& final(server).pending_events() == old(server).pending_events()
                    .push(ServerEvent::Connected { client: key })
                &&& forall|i: ClientId| i != key
                    ==> final(server).known(i) == old(server).known(i)
                &&& forall|i: ClientId| i != key
                    ==> final(server).outbox(i) == old(server).outbox(i)
                &&& forall|i: ClientId| i != key
                    ==> final(server).closing_of(i) == old(server).closing_of(i)
            },
            forall|i: ClientId| old(server).retired(i) ==> final(server).retired(i),
    {
        match self.state {
            ClientState::Connected { .. } => Err(ChannelError::AlreadyConnected),
            ClientState::Disconnected => {
                let (client, key) = Self::connected(server);
                *self = client;
                Ok(key)
            }
        }
    }

    /// `Some` exactly while this client is connected. The channel transport
    /// carries no measurements, so the snapshot is empty.
    pub fn connection_info(&self) -> (r: Option<()>)
        ensures
            r is Some <==> self.is_connected(),
    {
        match self.state {
            ClientState::Disconnected => None,
            ClientState::Connected { .. } => Some(()),
        }
    }

    /// Sends `msg` to the server: it arrives as a `Recv` event of the
    /// server's next poll. Fails with `Disconnected`, changing nothing, if
    /// and only if this client is disconnected, its id is gone from the
    /// server, or its forced close is pending.
    pub fn send<C2S, S2C>(
        &mut self,
        server: &mut ChannelServer<C2S, S2C>,
        msg: C2S,
    ) -> (r: Result<(), ChannelError>)
        ensures
            *final(self) == *old(self),
            r is Ok <==> old(self).is_connected()
                && old(server).connected_spec(old(self).key_spec()),
            r is Err ==> r == Err::<(), ChannelError>(ChannelError::Disconnected)
                && *final(server) == *old(server),
            r is Ok ==> final(server).pending_events() == old(server).pending_events()
                .push(ServerEvent::Recv { client: old(self).key_spec(), msg }),
            r is Ok ==> forall|i: ClientId| final(server).known(i) == old(server).known(i),
            r is Ok ==> forall|i: ClientId|
                final(server).connected_spec(i) == old(server).connected_spec(i),
            r is Ok ==> forall|i: ClientId| final(server).outbox(i) == old(server).outbox(i),
            forall|i: ClientId| old(server).retired(i) ==> final(server).retired(i),
    {
        match self.state {
            ClientState::Disconnected => Err(ChannelError::Disconnected),
            ClientState::Connected { key, .. } => {
                if server.connected(key) {
                    server.events.push(ServerEvent::Recv { client: key, msg });
                    Ok(())
                } else {
                    Err(ChannelError::Disconnected)
                }
            }
        }
    }

    /// Drains this client's events: its own `Connected` first (once), then
    /// every message the server queued, in order — or, when the connection
    /// is gone, the terminal `Disconnected` with the close reason, after
    /// which the client is disconnected and its id retired on the server.
    pub fn recv<C2S, S2C>(&mut self, server: &mut ChannelServer<C2S, S2C>)
        -> (out: Vec<ClientEvent<S2C>>)
        ensures
            !old(self).is_connected() ==> out@ == Seq::<ClientEvent<S2C>>::empty()
                && *final(self) == *old(self) && *final(server) == *old(server),
            old(self).is_connected() ==> ({
                let key = old(self).key_spec();
                let prefix: Seq<ClientEvent<S2C>> = if old(self).announced() {
                    Seq::empty()
                } else {
                    seq![ClientEvent::Connected]
                };
                &&& (old(server).connected_spec(key) ==> {
                    &&& out@ == prefix + as_recv_events(old(server).outbox(key))
                    &&& final(self).is_connected()
                    &&& final(self).announced()
                    &&& final(self).key_spec() == key
                    &&& final(server).connected_spec(key)
                    &&& final(server).outbox(key) == Seq::<S2C>::empty()
                    &&& final(server).pending_events() == old(server).pending_events()
                    &&& forall|i: ClientId| i != key
                        ==> final(server).outbox(i) == old(server).outbox(i)
                    &&& forall|i: ClientId| final(server).known(i) == old(server).known(i)
                })
                &&& (old(server).closing_of(key) matches Some(reason) ==> {
                    &&& out@ == prefix + seq![ClientEvent::Disconnected { reason }]
                    &&& !final(self).is_connected()
                    &&& !final(server).known(key)
                    &&& final(server).retired(key)
                    &&& final(server).pending_events() == old(server).pending_events()
                    &&& forall|i: ClientId| i != key
                        ==> final(server).known(i) == old(server).known(i)
                    &&& forall|i: ClientId| i != key
                        ==> final(server).outbox(i) == old(server).outbox(i)
                    &&& forall|i: ClientId| i != key
                        ==> final(server).closing_of(i) == old(server).closing_of(i)
                })
                &&& (!old(server).known(key) ==> {
                    &&& out@ == prefix
                        + seq![ClientEvent::Disconnected { reason: SessionError::ServerClosed }]
                    &&& !final(self).is_connected()
                    &&& *final(server) == *old(server)
                })
            }),
            forall|i: ClientId| old(server).retired(i) ==> final(server).retired(i),
    {
        let (key, sent) = match self.state {
            ClientState::Disconnected => {
                return Vec::new();
            }
            ClientState::Connected { key, sent_connect_event } => (key, sent_connect_event),
        };
        let mut out: Vec<ClientEvent<S2C>> = Vec::new();
        if !sent {
            out.push(ClientEvent::Connected);
            self.state = ClientState::Connected { key, sent_connect_event: true };
        }
        let ghost prefix = out@;
        let dummy = ChannelConn { s2c: Vec::new(), closing: None };
        match server.clients.replace(key, dummy) {
            None => {
                out.push(ClientEvent::Disconnected { reason: SessionError::ServerClosed });
                self.state = ClientState::Disconnected;
                out
            }
            Some(conn) => {
                let ChannelConn { s2c, closing } = conn;
                match closing {
                    Some(reason) => {
                        server.clients.remove(key);
                        out.push(ClientEvent::Disconnected { reason });
                        self.state = ClientState::Disconnected;
                        out
                    }
                    None => {
                        let ghost msgs = s2c@;
                        let mut pending = s2c;
                        while pending.len() > 0
                            invariant
                                pending@ == msgs.skip(out@.len() - prefix.len()),
                                prefix.len() <= out@.len(),
                                out@.len() - prefix.len() <= msgs.len(),
                                out@ == prefix + as_recv_events(msgs)
                                    .take(out@.len() - prefix.len()),
                            decreases pending@.len(),
                        {
                            let ghost j = out@.len() - prefix.len();
                            let m = pending.remove(0);
                            out.push(ClientEvent::Recv { msg: m });
                            proof {
                                assert(m == msgs[j]);
                                assert(pending@ =~= msgs.skip(j + 1));
                                assert(as_recv_events(msgs).take(j + 1)
                                    =~= as_recv_events(msgs).take(j)
                                        .push(ClientEvent::Recv { msg: msgs[j] }));
                                assert(out@ =~= prefix + as_recv_events(msgs).take(j + 1));
                            }
                        }
                        proof {
                            assert(as_recv_events(msgs).take(msgs.len() as int)
                                =~= as_recv_events(msgs));
                            assert(out@ == prefix + as_recv_events(msgs));
                        }
                        out
                    }
                }
            }
        }
    }

    /// Disconnects this client from `server`, removing its id for good and
    /// queueing a `Disconnected` event on the server's side. Fails with
    /// `AlreadyDisconnected`, changing nothing, if and only if the client
    /// is already disconnected.
    pub fn disconnect<C2S, S2C>(&mut self, server: &mut ChannelServer<C2S, S2C>)
        -> (r: Result<(), ChannelError>)
        ensures
            old(self).is_connected() ==> r == Ok::<(), ChannelError>(()),
            !old(self).is_connected() ==> r == Err::<(), ChannelError>(
                ChannelError::AlreadyDisconnected,
            ) && *final(server) == *old(server),
            !final(self).is_connected(),
            old(self).is_connected() ==> ({
                let key = old(self).key_spec();
                &&& !final(server).known(key)
                &&& (old(server).known(key) ==> final(server).retired(key)
                    && final(server).pending_events() == old(server).pending_events().push(
                        ServerEvent::Disconnected {
                            client: key,
                            reason: SessionError::Stream {
                                stream: StreamKind::Datagram,
                                source: StreamError::Closed,
                            },
                        },
                    ))
                &&& (!old(server).known(key)
                    ==> final(server).pending_events() == old(server).pending_events())
                &&& forall|i: ClientId| i != key
                    ==> final(server).known(i) == old(server).known(i)
                &&& forall|i: ClientId| i != key
                    ==> final(server).outbox(i) == old(server).outbox(i)
                &&& forall|i: ClientId| i != key
                    ==> final(server).closing_of(i) == old(server).closing_of(i)
            }),
            forall|i: ClientId| old(server).retired(i) ==> final(server).retired(i),
    {
        match self.state {
            ClientState::Disconnected => Err(ChannelError::AlreadyDisconnected),
            ClientState::Connected { key, .. } => {
                match server.clients.remove(key) {
                    Some(_) => {
                        server.events.push(ServerEvent::Disconnected {
                            client: key,
                            reason: SessionError::Stream {
                                stream: StreamKind::Datagram,
                                source: StreamError::Closed,
                            },
                        });
                    }
                    None => {}
                }
                self.state = ClientState::Disconnected;
                Ok(())
            }
        }
    }
}

} // verus!
