//! The synchronous frontend of the networked server.
//!
//! The application polls this handle once per tick. The backend — the tasks
//! doing the actual network I/O — feeds its output in as [`BackendEvent`]s;
//! each poll translates the buffered events into an ordered sequence of
//! [`Event`]s, exactly as the relation [`poll_rel`] states, keeps the
//! server's mirror of who is connected, and queues application commands for
//! the backend on a bounded command queue. The frontend never blocks: every
//! call returns using only the state already buffered.

use vstd::prelude::*;
use crate::error::{ServerError, SessionError};
use crate::event::{
    Event, EventKind, LifePhase, history_wf, kinds_for, lemma_kinds_for_concat,
    lemma_kinds_for_one, lemma_run_push, lemma_run_singleton, run_history,
};
use crate::registry::{ClientId, ClientRegistry};
use crate::stream::ServerStream;

verus! {

/// A remote socket address, as plain values: the sixteen address bytes as
/// one integer (a four-byte address is mapped into the low bytes), and the
/// port.
#[derive(Debug, Clone, Copy, PartialEq, Eq, Hash)]
pub struct RemoteAddr {
    /// The address bytes, big-endian.
    pub ip: u128,
    /// The port.
    pub port: u16,
}

/// A snapshot of a connected client, produced on demand from the live
/// connection state.
///
/// Absent (`None`) for unknown or disconnected clients: that absence is the
/// sole definition of "connected" used throughout.
#[derive(Debug, Clone, Copy, PartialEq, Eq)]
pub struct ClientInfo {
    /// The largest datagram the connection can carry, if datagrams are
    /// supported at all.
    pub max_datagram_size: Option<usize>,
    /// The remote address of the client.
    pub remote_address: RemoteAddr,
    /// The current round-trip-time estimate, in milliseconds.
    pub rtt: u64,
    /// A transport-assigned numeric id, stable across snapshots of the same
    /// connection; useful for logging and correlation.
    pub stable_id: usize,
}

/// What the backend tells the frontend, tagged by the backend's own
/// connection serial `conn`. The frontend mints the public [`ClientId`]s.
#[derive(Debug, Clone, PartialEq, Eq)]
pub enum BackendEvent<M> {
    /// The listener is up and accepting sessions.
    Opened,
    /// A session was accepted; its stream setup is still in progress.
    Connecting {
        /// The backend's serial for the new connection.
        conn: u64,
        /// The authority the client addressed.
        authority: String,
        /// The path the client requested.
        path: String,
        /// The headers of the request, in arrival order.
        headers: Vec<(String, String)>,
    },
    /// Every stream of the plan is open; the connection is established.
    Connected {
        /// The serial of the connection.
        conn: u64,
        /// The first measured snapshot of the connection.
        info: ClientInfo,
    },
    /// A fresh measurement of a live connection.
    UpdateInfo {
        /// The serial of the connection.
        conn: u64,
        /// The new snapshot.
        info: ClientInfo,
    },
    /// A message arrived and was decoded.
    Recv {
        /// The serial of the connection.
        conn: u64,
        /// The decoded message.
        msg: M,
    },
    /// The connection ended; nothing further will arrive for it.
    Disconnected {
        /// The serial of the connection.
        conn: u64,
        /// Why it ended.
        reason: SessionError,
    },
    /// The listener ended: the whole backend is gone.
    Closed,
}

/// A command queued by the frontend for the backend to act on.
#[derive(Debug, Clone, PartialEq, Eq)]
pub enum Command<M> {
    /// Send `msg` to `client` along `stream`.
    Send {
        /// The addressee.
        client: ClientId,
        /// The stream to carry the message.
        stream: ServerStream,
        /// The message.
        msg: M,
    },
    /// Forcibly close `client`'s connection.
    Disconnect {
        /// The client to disconnect.
        client: ClientId,
    },
}

/// Where the backend stands in its lifecycle. A server is in exactly one
/// of these states at any time.
#[derive(Debug, Clone, Copy, PartialEq, Eq, Structural)]
pub enum BackendState {
    /// The backend is gone (never started, or ended); it may be reopened.
    Closed,
    /// The backend is starting its listener; no traffic flows yet.
    Opening,
    /// The backend is accepting sessions and carrying traffic.
    Open,
}

#[derive(Clone, Copy)]
struct ClientConn {
    conn: u64,
    connected: bool,
    info: Option<ClientInfo>,
    closing: bool,
}

/// The abstract state of one client, as [`step_rel`] sees it.
pub struct ClientModel {
    /// The backend's serial for the connection.
    pub conn: u64,
    /// Whether the connection is fully established.
    pub established: bool,
    /// The last measured snapshot, once established.
    pub info: Option<ClientInfo>,
    /// Whether the application has asked for a forced close that the
    /// backend has not yet confirmed.
    pub closing: bool,
}

/// The abstract state of the server, as [`step_rel`] sees it.
pub struct ServerModel {
    /// Where the backend stands in its lifecycle.
    pub state: BackendState,
    /// Every known client's abstract state, by id.
    pub clients: Map<ClientId, ClientModel>,
    /// Every id the server has ever used: the known ids and the retired
    /// ones. A newly minted id is never among them.
    pub used: Set<ClientId>,
}

/// Whether some known client of `m` runs over the backend serial `conn`.
pub open spec fn has_conn(m: ServerModel, conn: u64) -> bool {
    exists|id: ClientId| #[trigger] m.clients.contains_key(id) && m.clients[id].conn == conn
}

/// The client of `m` that runs over the backend serial `conn`. Serials are
/// unique among known clients, so at most one exists.
pub open spec fn conn_id(m: ServerModel, conn: u64) -> ClientId {
    choose|id: ClientId| #[trigger] m.clients.contains_key(id) && m.clients[id].conn == conn
}

/// How one backend event translates: the exact relation between the state
/// before, the state after, and the events `out` emitted for it.
///
/// A `Connecting` announcement mints a fresh id; establishment and
/// messages act on the unique client with the event's serial; a client
/// whose serial is unknown, or a message for a client that is not
/// established, translates to nothing; `Disconnected` removes the client
/// and emits its terminal event; the backend closing emits one terminal
/// `Disconnected` with reason `ServerClosed` for every remaining client.
pub open spec fn step_rel<M>(
    pre: ServerModel,
    ev: BackendEvent<M>,
    post: ServerModel,
    out: Seq<Event<M>>,
) -> bool {
    match ev {
        BackendEvent::Opened => {
            &&& out == Seq::<Event<M>>::empty()
            &&& if pre.state is Opening {
                post == (ServerModel { state: BackendState::Open, ..pre })
            } else {
                post == pre
            }
        }
        BackendEvent::Connecting { conn, authority, path, headers } => {
            if pre.state is Open && !has_conn(pre, conn) {
                exists|id: ClientId| {
                    &&& !pre.used.contains(id)
                    &&& post == (ServerModel {
                        clients: pre.clients.insert(
                            id,
                            ClientModel { conn, established: false, info: None, closing: false },
                        ),
                        used: pre.used.insert(id),
                        ..pre
                    })
                    &&& out == seq![Event::<M>::Connecting { client: id, authority, path, headers }]
                }
            } else {
                post == pre && out == Seq::<Event<M>>::empty()
            }
        }
        BackendEvent::Connected { conn, info } => {
            if pre.state is Open && has_conn(pre, conn)
                && !pre.clients[conn_id(pre, conn)].established {
                let id = conn_id(pre, conn);
                &&& post == (ServerModel {
                    clients: pre.clients.insert(
                        id,
                        ClientModel { established: true, info: Some(info), ..pre.clients[id] },
                    ),
                    ..pre
                })
                &&& out == seq![Event::<M>::Connected { client: id }]
            } else {
                post == pre && out == Seq::<Event<M>>::empty()
            }
        }
        BackendEvent::UpdateInfo { conn, info } => {
            &&& out == Seq::<Event<M>>::empty()
            &&& if pre.state is Open && has_conn(pre, conn)
                && pre.clients[conn_id(pre, conn)].established {
                let id = conn_id(pre, conn);
                post == (ServerModel {
                    clients: pre.clients.insert(
                        id,
                        ClientModel { info: Some(info), ..pre.clients[id] },
                    ),
                    ..pre
                })
            } else {
                post == pre
            }
        }
        BackendEvent::Recv { conn, msg } => {
            &&& post == pre
            &&& if pre.state is Open && has_conn(pre, conn)
                && pre.clients[conn_id(pre, conn)].established {
                out == seq![Event::<M>::Recv { client: conn_id(pre, conn), msg }]
            } else {
                out == Seq::<Event<M>>::empty()
            }
        }
        BackendEvent::Disconnected { conn, reason } => {
            if pre.state is Open && has_conn(pre, conn) {
                let id = conn_id(pre, conn);
                &&& post == (ServerModel { clients: pre.clients.remove(id), ..pre })
                &&& out == seq![Event::<M>::Disconnected { client: id, reason }]
            } else {
                post == pre && out == Seq::<Event<M>>::empty()
            }
        }
        BackendEvent::Closed => {
            if pre.state is Open {
                &&& post == (ServerModel {
                    state: BackendState::Closed,
                    clients: Map::empty(),
                    ..pre
                })
                &&& closes_all(pre.clients, out)
            } else if pre.state is Opening {
                post == (ServerModel { state: BackendState::Closed, ..pre })
                    && out == Seq::<Event<M>>::empty()
            } else {
                post == pre && out == Seq::<Event<M>>::empty()
            }
        }
    }
}

/// `out` closes every client of `clients`: one terminal `Disconnected`
/// with reason `ServerClosed` per client, each client exactly once,
/// nothing else.
pub open spec fn closes_all<M>(
    clients: Map<ClientId, ClientModel>,
    out: Seq<Event<M>>,
) -> bool {
    &&& (forall|i: int| 0 <= i < out.len() ==> #[trigger] out[i] == (Event::<M>::Disconnected {
        client: out[i].client(),
        reason: SessionError::ServerClosed,
    }) && clients.contains_key(out[i].client()))
    &&& (forall|i: int, j: int| 0 <= i < j < out.len()
        ==> out[i].client() != out[j].client())
    &&& (forall|id: ClientId| #[trigger] clients.contains_key(id)
        ==> exists|i: int| 0 <= i < out.len() && #[trigger] out[i].client() == id)
}

/// How one whole poll translates: the steps of [`step_rel`], one per
/// buffered backend event in arrival order, with `out` their emissions
/// concatenated in the same order. An empty backlog translates to no
/// events and no change.
pub open spec fn poll_rel<M>(
    pre: ServerModel,
    backlog: Seq<BackendEvent<M>>,
    post: ServerModel,
    out: Seq<Event<M>>,
) -> bool
    decreases backlog.len(),
{
    if backlog.len() == 0 {
        post == pre && out == Seq::<Event<M>>::empty()
    } else {
        exists|mid: ServerModel, k: int| {
            &&& 0 <= k <= out.len()
            &&& #[trigger] step_rel(pre, backlog[0], mid, out.take(k))
            &&& poll_rel(mid, backlog.skip(1), post, out.skip(k))
        }
    }
}

/// A translated poll grows step by step.
pub proof fn lemma_poll_rel_snoc<M>(
    pre: ServerModel,
    evs: Seq<BackendEvent<M>>,
    mid: ServerModel,
    out1: Seq<Event<M>>,
    ev: BackendEvent<M>,
    post: ServerModel,
    delta: Seq<Event<M>>,
)
    requires
        poll_rel(pre, evs, mid, out1),
        step_rel(mid, ev, post, delta),
    ensures
        poll_rel(pre, evs.push(ev), post, out1 + delta),
    decreases evs.len(),
{
    let evs2 = evs.push(ev);
    let out2 = out1 + delta;
    if evs.len() == 0 {
        assert(mid == pre);
        assert(out1 =~= Seq::<Event<M>>::empty());
        assert(out2 =~= delta);
        assert(evs2[0] == ev);
        assert(evs2.skip(1) =~= Seq::<BackendEvent<M>>::empty());
        let k = delta.len() as int;
        assert(out2.take(k) =~= delta);
        assert(out2.skip(k) =~= Seq::<Event<M>>::empty());
        assert(step_rel(pre, evs2[0], post, out2.take(k)));
        assert(poll_rel(post, evs2.skip(1), post, out2.skip(k)));
    } else {
        let (m0, k) = choose|m0: ServerModel, k: int| {
            &&& 0 <= k <= out1.len()
            &&& #[trigger] step_rel(pre, evs[0], m0, out1.take(k))
            &&& poll_rel(m0, evs.skip(1), mid, out1.skip(k))
        };
        lemma_poll_rel_snoc(m0, evs.skip(1), mid, out1.skip(k), ev, post, delta);
        assert(evs2[0] == evs[0]);
        assert(evs2.skip(1) =~= evs.skip(1).push(ev));
        assert(out2.take(k) =~= out1.take(k));
        assert(out2.skip(k) =~= out1.skip(k) + delta);
        assert(step_rel(pre, evs2[0], m0, out2.take(k)));
        assert(poll_rel(m0, evs2.skip(1), post, out2.skip(k)));
    }
}

/// The synchronous handle of the networked server.
///
/// `C2S` is the type of messages clients send to the server, `S2C` the type
/// the server sends to clients.
pub struct WebTransportServer<C2S, S2C> {
    state: BackendState,
    clients: ClientRegistry<ClientConn>,
    commands: Vec<Command<S2C>>,
    incoming: Vec<BackendEvent<C2S>>,
    queue_capacity: usize,
    history: Ghost<Map<ClientId, Seq<EventKind>>>,
}

impl<C2S, S2C> WebTransportServer<C2S, S2C> {
    /// Whether the backend is open and carrying traffic.
    pub closed spec fn is_open(self) -> bool {
        self.state is Open
    }

    /// Whether the backend is closed.
    pub closed spec fn is_closed(self) -> bool {
        self.state is Closed
    }

    /// Whether the backend is still opening.
    pub closed spec fn is_opening(self) -> bool {
        self.state is Opening
    }

    /// Whether `id` names a client the server currently knows: announced
    /// and not yet gone.
    pub closed spec fn known(self, id: ClientId) -> bool {
        self.clients@.contains_key(id)
    }

    /// Whether `id` names a client whose connection was fully
    /// established: every planned stream opened.
    pub closed spec fn established(self, id: ClientId) -> bool {
        self.known(id) && self.clients@[id].connected
    }

    /// Whether the application has asked for `id`'s forced close and the
    /// backend has not yet confirmed it with the terminal event.
    pub closed spec fn closing_spec(self, id: ClientId) -> bool {
        self.known(id) && self.clients@[id].closing
    }

    /// The last snapshot the backend measured for `id`, if any.
    pub closed spec fn info_of(self, id: ClientId) -> Option<ClientInfo> {
        if self.known(id) {
            self.clients@[id].info
        } else {
            None
        }
    }

    /// Whether `id` names a client currently connected: the backend is
    /// open, the connection is established, and no forced close is
    /// pending.
    pub open spec fn connected_spec(self, id: ClientId) -> bool {
        self.is_open() && self.established(id) && !self.closing_spec(id)
    }

    /// The snapshot a `connection_info` call returns for `id`.
    pub open spec fn info_spec(self, id: ClientId) -> Option<ClientInfo> {
        if self.connected_spec(id) {
            self.info_of(id)
        } else {
            None
        }
    }

    /// The server abstracted to the state [`step_rel`] speaks of.
    pub closed spec fn model(self) -> ServerModel {
        ServerModel {
            state: self.state,
            clients: Map::new(
                |id: ClientId| self.clients@.contains_key(id),
                |id: ClientId| ClientModel {
                    conn: self.clients@[id].conn,
                    established: self.clients@[id].connected,
                    info: self.clients@[id].info,
                    closing: self.clients@[id].closing,
                },
            ),
            used: Set::new(
                |id: ClientId| self.clients@.contains_key(id) || self.clients.stale(id),
            ),
        }
    }

    /// The backend is in exactly one of its three lifecycle states.
    pub proof fn lemma_state_exclusive(self)
        ensures
            self.is_open() <==> !self.is_opening() && !self.is_closed(),
            !(self.is_opening() && self.is_closed()),
    {
    }

    /// How the abstract model and the server's predicates agree, for
    /// carrying conclusions of [`poll_rel`] back to the public predicates.
    pub proof fn lemma_model_agrees(self, id: ClientId)
        ensures
            self.known(id) == self.model().clients.contains_key(id),
            self.is_open() == (self.model().state is Open),
            self.is_opening() == (self.model().state is Opening),
            self.is_closed() == (self.model().state is Closed),
            self.known(id) ==> self.established(id) == self.model().clients[id].established,
            self.known(id) ==> self.closing_spec(id) == self.model().clients[id].closing,
            self.known(id) ==> self.info_of(id) == self.model().clients[id].info,
    {
    }

    /// The commands queued for the backend, oldest first.
    pub closed spec fn pending_commands(self) -> Seq<Command<S2C>> {
        self.commands@
    }

    /// The fixed capacity of the command queue.
    pub closed spec fn capacity(self) -> int {
        self.queue_capacity as int
    }

    /// The backend events buffered for the next poll, oldest first.
    pub closed spec fn backlog(self) -> Seq<BackendEvent<C2S>> {
        self.incoming@
    }

    /// The full event history this server has emitted, per client.
    pub closed spec fn history(self) -> Map<ClientId, Seq<EventKind>> {
        self.history@
    }

    /// The full event history emitted for `id`: empty if the server never
    /// emitted an event about `id`.
    pub open spec fn hist_of(self, id: ClientId) -> Seq<EventKind> {
        if self.history().contains_key(id) {
            self.history()[id]
        } else {
            Seq::empty()
        }
    }

    spec fn phase_of(self, id: ClientId) -> LifePhase {
        if self.clients@.contains_key(id) {
            if self.clients@[id].connected {
                LifePhase::Live
            } else {
                LifePhase::Announced
            }
        } else {
            LifePhase::Done
        }
    }

    /// The server's internal invariant: both bounded queues respect their
    /// bound, backend serials are unique among known clients, and every
    /// client's emitted history is accepted by the event automaton, at the
    /// phase matching the client's current state.
    pub closed spec fn wf(self) -> bool {
        &&& self.commands@.len() <= self.queue_capacity
        &&& self.incoming@.len() <= self.queue_capacity
        &&& (forall|id: ClientId| #[trigger] self.clients@.contains_key(id)
                ==> self.history@.contains_key(id))
        &&& (forall|id: ClientId| #[trigger] self.history@.contains_key(id)
                ==> run_history(self.history@[id]) == Some(self.phase_of(id)))
        &&& (forall|id: ClientId| #[trigger] self.history@.contains_key(id)
                ==> self.clients@.contains_key(id) || self.clients.stale(id))
        &&& (forall|id: ClientId| #[trigger] self.clients@.contains_key(id)
                && self.clients@[id].connected ==> self.clients@[id].info is Some)
        &&& (forall|i1: ClientId, i2: ClientId| #[trigger] self.clients@.contains_key(i1)
                && #[trigger] self.clients@.contains_key(i2) && i1 != i2
                ==> self.clients@[i1].conn != self.clients@[i2].conn)
        &&& !(self.state is Open) ==> (forall|id: ClientId| !self.clients@.contains_key(id))
    }

    /// Per client, the full event history this server has emitted through
    /// its polls is accepted by the event automaton: at most one
    /// `Connecting`, at most one `Connected`, only then `Recv`s, and
    /// nothing after the terminal `Disconnected`.
    pub proof fn lemma_event_order(self, id: ClientId)
        requires
            self.wf(),
        ensures
            history_wf(self.hist_of(id)),
    {
        if !self.history().contains_key(id) {
            assert(run_history(Seq::empty()) == Some(LifePhase::Fresh));
        }
    }

    /// A new server whose backend is still opening. `queue_capacity`
    /// bounds both the command queue and the buffered backend events, for
    /// the server's whole life.
    pub fn new_open(queue_capacity: usize) -> (r: Self)
        ensures
            r.wf(),
            r.is_opening(),
            !r.is_open(),
            !r.is_closed(),
            r.pending_commands() == Seq::<Command<S2C>>::empty(),
            r.backlog() == Seq::<BackendEvent<C2S>>::empty(),
            r.capacity() == queue_capacity,
            forall|id: ClientId| !r.history().contains_key(id),
            forall|id: ClientId| !r.known(id),
    {
        Self {
            state: BackendState::Opening,
            clients: ClientRegistry::new(),
            commands: Vec::new(),
            incoming: Vec::new(),
            queue_capacity,
            history: Ghost(Map::empty()),
        }
    }

    /// Reopens a closed server: the backend may be started again. Returns
    /// an error, changing nothing, unless the server is closed. Reopening
    /// clears the dead epoch's queued commands and buffered backend
    /// events.
    ///
    /// The client registry is kept, so ids of earlier epochs stay stale
    /// and are never minted again.
    pub fn open(&mut self) -> (r: Result<(), ServerError>)
        requires
            old(self).wf(),
        ensures
            final(self).wf(),
            old(self).is_closed() ==> {
                &&& r == Ok::<(), ServerError>(())
                &&& final(self).is_opening()
                &&& !final(self).is_open()
                &&& !final(self).is_closed()
                &&& final(self).pending_commands() == Seq::<Command<S2C>>::empty()
                &&& final(self).backlog() == Seq::<BackendEvent<C2S>>::empty()
            },
            !old(self).is_closed() ==> r == Err::<(), ServerError>(ServerError::BackendOpen)
                && *final(self) == *old(self),
            final(self).capacity() == old(self).capacity(),
            final(self).history() == old(self).history(),
            forall|id: ClientId| final(self).known(id) == old(self).known(id),
    {
        match self.state {
            BackendState::Closed => {
                self.commands.clear();
                self.incoming.clear();
                self.state = BackendState::Opening;
                Ok(())
            }
            _ => Err(ServerError::BackendOpen),
        }
    }

    /// The current snapshot of `client`'s connection, or `None` when
    /// `client` is unknown, stale, or not (yet, or any more) connected.
    /// Never blocks, never mutates.
    pub fn connection_info(&self, client: ClientId) -> (r: Option<ClientInfo>)
        requires
            self.wf(),
        ensures
            r == self.info_spec(client),
            r is Some <==> self.connected_spec(client),
            !self.known(client) ==> r is None,
            !self.is_open() ==> r is None,
    {
        match self.state {
            BackendState::Open => {
                match self.clients.get(client) {
                    Some(c) => {
                        if c.connected && !c.closing {
                            c.info
                        } else {
                            None
                        }
                    }
                    None => None,
                }
            }
            _ => None,
        }
    }

    /// Whether `client` is currently connected:
    /// `connection_info(client).is_some()`.
    pub fn connected(&self, client: ClientId) -> (r: bool)
        requires
            self.wf(),
        ensures
            r == self.connected_spec(client),
    {
        self.connection_info(client).is_some()
    }

    /// What a `send` to `to` returns, given the server's current state.
    pub open spec fn send_outcome(self, to: ClientId) -> Result<(), ServerError> {
        if !self.is_open() {
            Err(ServerError::BackendClosed)
        } else if !self.known(to) {
            Err(ServerError::NoClient(to))
        } else if !self.connected_spec(to) {
            Err(ServerError::NotConnected(to))
        } else if self.pending_commands().len() >= self.capacity() {
            Err(ServerError::ChannelFull)
        } else {
            Ok(())
        }
    }

    /// Queues `msg` for delivery to `to` along `stream`.
    ///
    /// Success means only "accepted for attempted delivery": a later
    /// failure surfaces as a `Disconnected` event. The error cases, each if
    /// and only if: the backend is not open; `to` is unknown or stale; `to`
    /// is known but not established; the command queue is full. A full
    /// queue never blocks and never drops silently.
    pub fn send(&mut self, to: ClientId, stream: ServerStream, msg: S2C)
        -> (r: Result<(), ServerError>)
        requires
            old(self).wf(),
        ensures
            final(self).wf(),
            r == old(self).send_outcome(to),
            r is Ok ==> final(self).pending_commands()
                == old(self).pending_commands().push(Command::Send { client: to, stream, msg }),
            r is Err ==> final(self).pending_commands() == old(self).pending_commands(),
            final(self).backlog() == old(self).backlog(),
            final(self).history() == old(self).history(),
            final(self).capacity() == old(self).capacity(),
            final(self).is_open() == old(self).is_open(),
            final(self).is_opening() == old(self).is_opening(),
            final(self).is_closed() == old(self).is_closed(),
            forall|id: ClientId| final(self).known(id) == old(self).known(id),
            forall|id: ClientId| final(self).connected_spec(id) == old(self).connected_spec(id),
            forall|id: ClientId| final(self).info_spec(id) == old(self).info_spec(id),
    {
        match self.state {
            BackendState::Open => {
                match self.clients.get(to) {
                    Some(c) => {
                        if !c.connected || c.closing {
                            Err(ServerError::NotConnected(to))
                        } else if self.commands.len() >= self.queue_capacity {
                            Err(ServerError::ChannelFull)
                        } else {
                            self.commands.push(Command::Send { client: to, stream, msg });
                            Ok(())
                        }
                    }
                    None => Err(ServerError::NoClient(to)),
                }
            }
            _ => Err(ServerError::BackendClosed),
        }
    }

    /// What a `disconnect` of `target` returns, given the server's current
    /// state.
    pub open spec fn disconnect_outcome(self, target: ClientId) -> Result<(), ServerError> {
        if !self.is_open() {
            Err(ServerError::BackendClosed)
        } else if !self.known(target) {
            Err(ServerError::NoClient(target))
        } else if self.closing_spec(target) {
            Err(ServerError::NotConnected(target))
        } else if self.pending_commands().len() >= self.capacity() {
            Err(ServerError::ChannelFull)
        } else {
            Ok(())
        }
    }

    /// Queues a forced close of `target`'s connection and marks `target`
    /// closing at once: from here on `target` is no longer connected, and
    /// a second `disconnect` is refused as already disconnected. The
    /// terminal `Disconnected` event is not synthesized here: it arrives
    /// once the backend confirms the close. Returns an error, if and only
    /// if: the backend is not open; `target` is unknown or stale; a close
    /// of `target` is already pending; the command queue is full.
    pub fn disconnect(&mut self, target: ClientId) -> (r: Result<(), ServerError>)
        requires
            old(self).wf(),
        ensures
            final(self).wf(),
            r == old(self).disconnect_outcome(target),
            r is Ok ==> final(self).pending_commands()
                == old(self).pending_commands().push(Command::Disconnect { client: target }),
            r is Err ==> final(self).pending_commands() == old(self).pending_commands(),
            r is Ok ==> final(self).closing_spec(target),
            r is Err ==> final(self).closing_spec(target) == old(self).closing_spec(target),
            r is Ok ==> !final(self).connected_spec(target),
            final(self).backlog() == old(self).backlog(),
            final(self).history() == old(self).history(),
            final(self).capacity() == old(self).capacity(),
            final(self).is_open() == old(self).is_open(),
            final(self).is_opening() == old(self).is_opening(),
            final(self).is_closed() == old(self).is_closed(),
            forall|id: ClientId| final(self).known(id) == old(self).known(id),
            forall|id: ClientId| final(self).established(id) == old(self).established(id),
            forall|id: ClientId| id != target
                ==> final(self).closing_spec(id) == old(self).closing_spec(id),
            forall|id: ClientId| id != target
                ==> final(self).connected_spec(id) == old(self).connected_spec(id),
            forall|id: ClientId| final(self).info_of(id) == old(self).info_of(id),
    {
        match self.state {
            BackendState::Open => {
                let conn = match self.clients.get(target) {
                    Some(c) => {
                        if c.closing {
                            return Err(ServerError::NotConnected(target));
                        }
                        *c
                    }
                    None => {
                        return Err(ServerError::NoClient(target));
                    }
                };
                if self.commands.len() >= self.queue_capacity {
                    Err(ServerError::ChannelFull)
                } else {
                    self.clients.set(target, ClientConn { closing: true, ..conn });
                    self.commands.push(Command::Disconnect { client: target });
                    Ok(())
                }
            }
            _ => Err(ServerError::BackendClosed),
        }
    }

    /// Hands every queued command to the caller, oldest first, emptying the
    /// queue. The backend pump calls this once per tick and performs the
    /// commands.
    pub fn take_commands(&mut self) -> (r: Vec<Command<S2C>>)
        requires
            old(self).wf(),
        ensures
            final(self).wf(),
            r@ == old(self).pending_commands(),
            final(self).pending_commands() == Seq::<Command<S2C>>::empty(),
            final(self).backlog() == old(self).backlog(),
            final(self).history() == old(self).history(),
            final(self).capacity() == old(self).capacity(),
            final(self).is_open() == old(self).is_open(),
            final(self).is_opening() == old(self).is_opening(),
            final(self).is_closed() == old(self).is_closed(),
            forall|id: ClientId| final(self).known(id) == old(self).known(id),
            forall|id: ClientId| final(self).connected_spec(id) == old(self).connected_spec(id),
    {
        let mut r: Vec<Command<S2C>> = Vec::new();
        core::mem::swap(&mut r, &mut self.commands);
        r
    }

    fn find_conn(&self, conn: u64) -> (r: Option<ClientId>)
        ensures
            r matches Some(id) ==> self.clients@.contains_key(id)
                && self.clients@[id].conn == conn,
            r is None ==> forall|id: ClientId| #[trigger] self.clients@.contains_key(id)
                ==> self.clients@[id].conn != conn,
    {
        let ids = self.clients.ids();
        let n = ids.len();
        let mut i: usize = 0;
        while i < n
            invariant
                n == ids@.len(),
                i <= n,
                forall|j: int| 0 <= j < n ==> self.clients@.contains_key(#[trigger] ids@[j]),
                forall|id: ClientId| self.clients@.contains_key(id) ==> ids@.contains(id),
                forall|j: int| 0 <= j < i
                    ==> self.clients@[#[trigger] ids@[j]].conn != conn,
            decreases n - i,
        {
            let id = ids[i];
            match self.clients.get(id) {
                Some(c) => {
                    if c.conn == conn {
                        return Some(id);
                    }
                }
                None => {}
            }
            i = i + 1;
        }
        proof {
            assert forall|id: ClientId| #[trigger] self.clients@.contains_key(id)
                implies self.clients@[id].conn != conn by {
                assert(ids@.contains(id));
                let j = choose|j: int| 0 <= j < ids@.len() && ids@[j] == id;
                assert(self.clients@[ids@[j]].conn != conn);
            }
        }
        None
    }

    /// Some known client of this server runs over the serial `conn`, and
    /// it is the one the model's `conn_id` picks: serials are unique.
    proof fn lemma_conn_unique(self, id: ClientId, conn: u64)
        requires
            self.wf(),
            self.clients@.contains_key(id),
            self.clients@[id].conn == conn,
        ensures
            has_conn(self.model(), conn),
            conn_id(self.model(), conn) == id,
    {
        let m = self.model();
        assert(m.clients.contains_key(id) && m.clients[id].conn == conn);
        let c = conn_id(m, conn);
        assert(m.clients.contains_key(c) && m.clients[c].conn == conn);
        if c != id {
            assert(self.clients@[c].conn != self.clients@[id].conn);
        }
    }

    /// No known client of this server runs over the serial `conn`.
    proof fn lemma_no_conn(self, conn: u64)
        requires
            forall|id: ClientId| #[trigger] self.clients@.contains_key(id)
                ==> self.clients@[id].conn != conn,
        ensures
            !has_conn(self.model(), conn),
    {
        let m = self.model();
        if has_conn(m, conn) {
            let id = choose|id: ClientId| #[trigger] m.clients.contains_key(id)
                && m.clients[id].conn == conn;
            assert(self.clients@.contains_key(id));
        }
    }

    /// Two servers with the same lifecycle state and the same registry
    /// have the same model.
    proof fn lemma_same_model(pre: Self, post: Self)
        requires
            post.state == pre.state,
            post.clients == pre.clients,
        ensures
            post.model() == pre.model(),
    {
        assert(post.model().clients =~= pre.model().clients);
        assert(post.model().used =~= pre.model().used);
    }

    /// Whether the backend-event buffer is at capacity, so that the next
    /// `feed` would be refused. The backend pump checks this before
    /// draining its I/O.
    pub fn backlog_full(&self) -> (r: bool)
        ensures
            r == (self.backlog().len() >= self.capacity()),
    {
        self.incoming.len() >= self.queue_capacity
    }

    /// Accepts one backend event into the buffer the next poll will
    /// translate. Fails with `ChannelFull`, dropping nothing silently, if
    /// and only if the buffer is at capacity: the backend pump must then
    /// pause its I/O until the application polls, which is the transport's
    /// deliberate backpressure.
    pub fn feed(&mut self, ev: BackendEvent<C2S>) -> (r: Result<(), ServerError>)
        requires
            old(self).wf(),
        ensures
            final(self).wf(),
            r is Ok <==> old(self).backlog().len() < old(self).capacity(),
            r is Ok ==> final(self).backlog() == old(self).backlog().push(ev),
            r is Err ==> r == Err::<(), ServerError>(ServerError::ChannelFull)
                && final(self).backlog() == old(self).backlog(),
            final(self).pending_commands() == old(self).pending_commands(),
            final(self).capacity() == old(self).capacity(),
            final(self).history() == old(self).history(),
            final(self).is_open() == old(self).is_open(),
            final(self).is_opening() == old(self).is_opening(),
            final(self).is_closed() == old(self).is_closed(),
            forall|id: ClientId| final(self).known(id) == old(self).known(id),
            forall|id: ClientId| final(self).connected_spec(id) == old(self).connected_spec(id),
            forall|id: ClientId| final(self).info_spec(id) == old(self).info_spec(id),
    {
        if self.incoming.len() >= self.queue_capacity {
            Err(ServerError::ChannelFull)
        } else {
            self.incoming.push(ev);
            Ok(())
        }
    }

    /// Translates every buffered backend event into the events of one
    /// poll, in arrival order, updating the server's view of its clients:
    /// the whole poll satisfies [`poll_rel`], one [`step_rel`] step per
    /// buffered event.
    ///
    /// On top of that, every client's emitted history extends by exactly
    /// this poll's events for it and stays accepted by the event
    /// automaton: `Connected` is emitted once per client, `Recv` only
    /// while established, nothing after the terminal `Disconnected`.
    pub fn recv(&mut self) -> (out: Vec<Event<C2S>>)
        requires
            old(self).wf(),
        ensures
            final(self).wf(),
            poll_rel(old(self).model(), old(self).backlog(), final(self).model(), out@),
            final(self).backlog() == Seq::<BackendEvent<C2S>>::empty(),
            final(self).pending_commands() == old(self).pending_commands(),
            final(self).capacity() == old(self).capacity(),
            forall|id: ClientId| final(self).hist_of(id)
                == old(self).hist_of(id) + kinds_for(out@, id),
    {
        let mut incoming: Vec<BackendEvent<C2S>> = Vec::new();
        core::mem::swap(&mut incoming, &mut self.incoming);
        let mut out: Vec<Event<C2S>> = Vec::new();
        let ghost orig = *old(self);
        let ghost mut done: int = 0;
        proof {
            assert forall|id: ClientId| orig.hist_of(id)
                == orig.hist_of(id) + kinds_for(out@, id) by {
                assert(out@ =~= Seq::<Event<C2S>>::empty());
                assert(kinds_for(out@, id) =~= Seq::<EventKind>::empty());
                assert(orig.hist_of(id) + kinds_for(out@, id) =~= orig.hist_of(id));
            }
            assert(incoming@ =~= orig.backlog().skip(0));
            assert(orig.backlog().take(0) =~= Seq::<BackendEvent<C2S>>::empty());
            assert(out@ =~= Seq::<Event<C2S>>::empty());
            Self::lemma_same_model(orig, *self);
            assert(poll_rel(orig.model(), orig.backlog().take(done), self.model(), out@));
        }
        while incoming.len() > 0
            invariant
                self.wf(),
                orig.wf(),
                0 <= done <= orig.backlog().len(),
                incoming@ == orig.backlog().skip(done),
                poll_rel(orig.model(), orig.backlog().take(done), self.model(), out@),
                self.backlog() == Seq::<BackendEvent<C2S>>::empty(),
                self.pending_commands() == orig.pending_commands(),
                self.capacity() == orig.capacity(),
                forall|id: ClientId| self.hist_of(id) == orig.hist_of(id) + kinds_for(out@, id),
            decreases incoming.len(),
        {
            let ev = incoming.remove(0);
            let ghost out_before = out@;
            let ghost self_before = *self;
            self.process_one(ev, &mut out);
            proof {
                let delta = out@.skip(out_before.len() as int);
                assert(out@ =~= out_before + delta);
                assert forall|id: ClientId| self.hist_of(id)
                    == orig.hist_of(id) + kinds_for(out@, id) by {
                    lemma_kinds_for_concat(out_before, delta, id);
                    assert(self.hist_of(id) == self_before.hist_of(id) + kinds_for(delta, id));
                    assert(orig.hist_of(id) + (kinds_for(out_before, id) + kinds_for(delta, id))
                        =~= (orig.hist_of(id) + kinds_for(out_before, id)) + kinds_for(delta, id));
                }
                assert(ev == orig.backlog()[done]);
                lemma_poll_rel_snoc(
                    orig.model(),
                    orig.backlog().take(done),
                    self_before.model(),
                    out_before,
                    ev,
                    self.model(),
                    delta,
                );
                assert(orig.backlog().take(done).push(ev) =~= orig.backlog().take(done + 1));
                assert(incoming@ =~= orig.backlog().skip(done + 1));
                done = done + 1;
            }
        }
        proof {
            assert(orig.backlog().take(done) =~= orig.backlog());
        }
        out
    }

    #[verifier::rlimit(100)]
    fn process_one(&mut self, ev: BackendEvent<C2S>, out: &mut Vec<Event<C2S>>)
        requires
            old(self).wf(),
        ensures
            final(self).wf(),
            step_rel(
                old(self).model(),
                ev,
                final(self).model(),
                final(out)@.skip(old(out)@.len() as int),
            ),
            final(self).backlog() == old(self).backlog(),
            final(self).pending_commands() == old(self).pending_commands(),
            final(self).capacity() == old(self).capacity(),
            final(out)@.len() >= old(out)@.len(),
            final(out)@.take(old(out)@.len() as int) == old(out)@,
            forall|id: ClientId| final(self).hist_of(id) == old(self).hist_of(id)
                + kinds_for(final(out)@.skip(old(out)@.len() as int), id),
    {
        let ghost pre = *old(self);
        let ghost pre_m = pre.model();
        let ghost ev_g = ev;
        let ghost out0 = out@;
        let st = self.state;
        match (st, ev) {
            (BackendState::Opening, BackendEvent::Opened) => {
                self.state = BackendState::Open;
                proof {
                    Self::lemma_no_emission(pre, *self, out0, out@);
                    let delta = out@.skip(out0.len() as int);
                    assert(delta =~= Seq::<Event<C2S>>::empty());
                    assert(self.model().clients =~= pre_m.clients);
                    assert(self.model().used =~= pre_m.used);
                    assert(self.model() == (ServerModel { state: BackendState::Open, ..pre_m }));
                    assert(step_rel(pre_m, ev_g, self.model(), delta));
                }
            }
            (BackendState::Opening, BackendEvent::Closed) => {
                self.state = BackendState::Closed;
                proof {
                    Self::lemma_no_emission(pre, *self, out0, out@);
                    let delta = out@.skip(out0.len() as int);
                    assert(delta =~= Seq::<Event<C2S>>::empty());
                    assert(self.model().clients =~= pre_m.clients);
                    assert(self.model().used =~= pre_m.used);
                    assert(self.model() == (ServerModel { state: BackendState::Closed, ..pre_m }));
                    assert(step_rel(pre_m, ev_g, self.model(), delta));
                }
            }
            (BackendState::Open, BackendEvent::Connecting { conn, authority, path, headers }) => {
                match self.find_conn(conn) {
                    Some(existing) => {
                        proof {
                            Self::lemma_no_emission(pre, *self, out0, out@);
                            let delta = out@.skip(out0.len() as int);
                            assert(delta =~= Seq::<Event<C2S>>::empty());
                            pre.lemma_conn_unique(existing, conn);
                            assert(step_rel(pre_m, ev_g, self.model(), delta));
                        }
                    }
                    None => {
                        proof {
                            pre.lemma_no_conn(conn);
                        }
                        let id = self.clients.insert(
                            ClientConn { conn, connected: false, info: None, closing: false },
                        );
                        proof {
                            self.history@ = self.history@.insert(id, seq![EventKind::Connecting]);
                        }
                        let e = Event::Connecting { client: id, authority, path, headers };
                        out.push(e);
                        proof {
                            assert(!pre.history@.contains_key(id));
                            assert(pre.hist_of(id) =~= Seq::<EventKind>::empty());
                            lemma_run_singleton(EventKind::Connecting);
                            assert(pre.hist_of(id).push(EventKind::Connecting)
                                =~= seq![EventKind::Connecting]);
                            Self::lemma_one_emission(pre, *self, out0, out@, e, id);
                            let delta = out@.skip(out0.len() as int);
                            assert(delta =~= seq![e]);
                            let cm = ClientModel {
                                conn,
                                established: false,
                                info: None,
                                closing: false,
                            };
                            assert(!pre_m.used.contains(id));
                            assert(self.model().clients =~= pre_m.clients.insert(id, cm));
                            assert(self.model().used =~= pre_m.used.insert(id)) by {
                                assert forall|x: ClientId| self.model().used.contains(x)
                                    == pre_m.used.insert(id).contains(x) by {
                                    if x != id {
                                        assert(pre.clients.stale(x) == self.clients.stale(x));
                                    }
                                }
                            }
                            assert(self.model() == (ServerModel {
                                clients: pre_m.clients.insert(id, cm),
                                used: pre_m.used.insert(id),
                                ..pre_m
                            }));
                            assert(step_rel(pre_m, ev_g, self.model(), delta));
                        }
                    }
                }
            }
            (BackendState::Open, BackendEvent::Connected { conn, info }) => {
                match self.find_conn(conn) {
                    Some(id) => {
                        let (already, was_closing) = match self.clients.get(id) {
                            Some(c) => (c.connected, c.closing),
                            None => (true, false),
                        };
                        if !already {
                            self.clients.set(
                                id,
                                ClientConn { conn, connected: true, info: Some(info), closing: was_closing },
                            );
                            proof {
                                self.history@ = self.history@.insert(
                                    id,
                                    pre.history@[id].push(EventKind::Connected),
                                );
                            }
                            let e = Event::Connected { client: id };
                            out.push(e);
                            proof {
                                assert(pre.hist_of(id) == pre.history@[id]);
                                lemma_run_push(pre.history@[id], EventKind::Connected);
                                Self::lemma_one_emission(pre, *self, out0, out@, e, id);
                                let delta = out@.skip(out0.len() as int);
                                assert(delta =~= seq![e]);
                                pre.lemma_conn_unique(id, conn);
                                assert(!pre_m.clients[id].established);
                                let cm = ClientModel {
                                    established: true,
                                    info: Some(info),
                                    ..pre_m.clients[id]
                                };
                                assert(self.model().clients =~= pre_m.clients.insert(id, cm));
                                assert(self.model().used =~= pre_m.used);
                                assert(self.model() == (ServerModel {
                                    clients: pre_m.clients.insert(id, cm),
                                    ..pre_m
                                }));
                                assert(step_rel(pre_m, ev_g, self.model(), delta));
                            }
                        } else {
                            proof {
                                Self::lemma_no_emission(pre, *self, out0, out@);
                                let delta = out@.skip(out0.len() as int);
                                assert(delta =~= Seq::<Event<C2S>>::empty());
                                pre.lemma_conn_unique(id, conn);
                                assert(pre_m.clients[id].established);
                                assert(step_rel(pre_m, ev_g, self.model(), delta));
                            }
                        }
                    }
                    None => {
                        proof {
                            Self::lemma_no_emission(pre, *self, out0, out@);
                            let delta = out@.skip(out0.len() as int);
                            assert(delta =~= Seq::<Event<C2S>>::empty());
                            pre.lemma_no_conn(conn);
                            assert(step_rel(pre_m, ev_g, self.model(), delta));
                        }
                    }
                }
            }
            (BackendState::Open, BackendEvent::UpdateInfo { conn, info }) => {
                match self.find_conn(conn) {
                    Some(id) => {
                        let (live, was_closing) = match self.clients.get(id) {
                            Some(c) => (c.connected, c.closing),
                            None => (false, false),
                        };
                        if live {
                            self.clients.set(
                                id,
                                ClientConn { conn, connected: true, info: Some(info), closing: was_closing },
                            );
                            proof {
                                Self::lemma_no_emission(pre, *self, out0, out@);
                                let delta = out@.skip(out0.len() as int);
                                assert(delta =~= Seq::<Event<C2S>>::empty());
                                pre.lemma_conn_unique(id, conn);
                                assert(pre_m.clients[id].established);
                                let cm = ClientModel { info: Some(info), ..pre_m.clients[id] };
                                assert(self.model().clients =~= pre_m.clients.insert(id, cm));
                                assert(self.model().used =~= pre_m.used);
                                assert(self.model() == (ServerModel {
                                    clients: pre_m.clients.insert(id, cm),
                                    ..pre_m
                                }));
                                assert(step_rel(pre_m, ev_g, self.model(), delta));
                            }
                        } else {
                            proof {
                                Self::lemma_no_emission(pre, *self, out0, out@);
                                let delta = out@.skip(out0.len() as int);
                                assert(delta =~= Seq::<Event<C2S>>::empty());
                                pre.lemma_conn_unique(id, conn);
                                assert(!pre_m.clients[id].established);
                                assert(step_rel(pre_m, ev_g, self.model(), delta));
                            }
                        }
                    }
                    None => {
                        proof {
                            Self::lemma_no_emission(pre, *self, out0, out@);
                            let delta = out@.skip(out0.len() as int);
                            assert(delta =~= Seq::<Event<C2S>>::empty());
                            pre.lemma_no_conn(conn);
                            assert(step_rel(pre_m, ev_g, self.model(), delta));
                        }
                    }
                }
            }
            (BackendState::Open, BackendEvent::Recv { conn, msg }) => {
                match self.find_conn(conn) {
                    Some(id) => {
                        let live = match self.clients.get(id) {
                            Some(c) => c.connected,
                            None => false,
                        };
                        if live {
                            proof {
                                self.history@ = self.history@.insert(
                                    id,
                                    pre.history@[id].push(EventKind::Recv),
                                );
                            }
                            let e = Event::Recv { client: id, msg };
                            out.push(e);
                            proof {
                                assert(pre.hist_of(id) == pre.history@[id]);
                                lemma_run_push(pre.history@[id], EventKind::Recv);
                                Self::lemma_one_emission(pre, *self, out0, out@, e, id);
                                let delta = out@.skip(out0.len() as int);
                                assert(delta =~= seq![e]);
                                pre.lemma_conn_unique(id, conn);
                                assert(pre_m.clients[id].established);
                                Self::lemma_same_model(pre, *self);
                                assert(step_rel(pre_m, ev_g, self.model(), delta));
                            }
                        } else {
                            proof {
                                Self::lemma_no_emission(pre, *self, out0, out@);
                                let delta = out@.skip(out0.len() as int);
                                assert(delta =~= Seq::<Event<C2S>>::empty());
                                pre.lemma_conn_unique(id, conn);
                                assert(!pre_m.clients[id].established);
                                assert(step_rel(pre_m, ev_g, self.model(), delta));
                            }
                        }
                    }
                    None => {
                        proof {
                            Self::lemma_no_emission(pre, *self, out0, out@);
                            let delta = out@.skip(out0.len() as int);
                            assert(delta =~= Seq::<Event<C2S>>::empty());
                            pre.lemma_no_conn(conn);
                            assert(step_rel(pre_m, ev_g, self.model(), delta));
                        }
                    }
                }
            }
            (BackendState::Open, BackendEvent::Disconnected { conn, reason }) => {
                match self.find_conn(conn) {
                    Some(id) => {
                        self.clients.remove(id);
                        proof {
                            self.history@ = self.history@.insert(
                                id,
                                pre.history@[id].push(EventKind::Disconnected),
                            );
                        }
                        let e = Event::Disconnected { client: id, reason };
                        out.push(e);
                        proof {
                            assert(pre.hist_of(id) == pre.history@[id]);
                            lemma_run_push(pre.history@[id], EventKind::Disconnected);
                            Self::lemma_one_emission(pre, *self, out0, out@, e, id);
                            let delta = out@.skip(out0.len() as int);
                            assert(delta =~= seq![e]);
                            pre.lemma_conn_unique(id, conn);
                            assert(self.model().clients =~= pre_m.clients.remove(id));
                            assert(self.model().used =~= pre_m.used) by {
                                assert forall|x: ClientId| self.model().used.contains(x)
                                    == pre_m.used.contains(x) by {
                                    if x == id {
                                        assert(pre.clients@.contains_key(id));
                                        assert(self.clients.stale(id));
                                    }
                                }
                            }
                            assert(self.model() == (ServerModel {
                                clients: pre_m.clients.remove(id),
                                ..pre_m
                            }));
                            assert(step_rel(pre_m, ev_g, self.model(), delta));
                        }
                    }
                    None => {
                        proof {
                            Self::lemma_no_emission(pre, *self, out0, out@);
                            let delta = out@.skip(out0.len() as int);
                            assert(delta =~= Seq::<Event<C2S>>::empty());
                            pre.lemma_no_conn(conn);
                            assert(step_rel(pre_m, ev_g, self.model(), delta));
                        }
                    }
                }
            }
            (BackendState::Open, BackendEvent::Closed) => {
                let ids = self.clients.ids();
                let n = ids.len();
                proof {
                    assert forall|x: ClientId| self.clients@.contains_key(x)
                        implies exists|j: int| 0 <= j < n as int && ids@[j] == x by {
                        assert(ids@.contains(x));
                    }
                    assert(out@.take(out0.len() as int) =~= out0);
                    assert forall|x: ClientId| self.hist_of(x) == pre.hist_of(x)
                        + kinds_for(out@.skip(out0.len() as int), x) by {
                        assert(out@.skip(out0.len() as int) =~= Seq::<Event<C2S>>::empty());
                        assert(kinds_for(Seq::<Event<C2S>>::empty(), x)
                            =~= Seq::<EventKind>::empty());
                        assert(pre.hist_of(x) + Seq::<EventKind>::empty() =~= pre.hist_of(x));
                    }
                    assert(self.model().used =~= pre_m.used);
                }
                let mut i: usize = 0;
                while i < n
                    invariant
                        self.wf(),
                        self.state is Open,
                        self.backlog() == pre.backlog(),
                        self.model().used == pre_m.used,
                        n == ids@.len(),
                        i <= n,
                        self.pending_commands() == pre.pending_commands(),
                        self.capacity() == pre.capacity(),
                        forall|j: int, k: int| 0 <= j < k < n ==> ids@[j] != ids@[k],
                        forall|j: int| i <= j < n
                            ==> self.clients@.contains_key(#[trigger] ids@[j]),
                        forall|id: ClientId| self.clients@.contains_key(id)
                            ==> exists|j: int| i <= j < n && ids@[j] == id,
                        out@.len() == out0.len() + i,
                        out@.take(out0.len() as int) == out0,
                        forall|t: int| 0 <= t < i ==> out@[out0.len() + t]
                            == (Event::<C2S>::Disconnected {
                            client: ids@[t],
                            reason: SessionError::ServerClosed,
                        }),
                        forall|id: ClientId| self.hist_of(id) == pre.hist_of(id)
                            + kinds_for(out@.skip(out0.len() as int), id),
                    decreases n - i,
                {
                    let id = ids[i];
                    let ghost mid = *self;
                    let ghost out_mid = out@;
                    self.clients.remove(id);
                    proof {
                        self.history@ = self.history@.insert(
                            id,
                            mid.history@[id].push(EventKind::Disconnected),
                        );
                    }
                    let e = Event::Disconnected { client: id, reason: SessionError::ServerClosed };
                    out.push(e);
                    proof {
                        assert(mid.hist_of(id) == mid.history@[id]);
                        lemma_run_push(mid.history@[id], EventKind::Disconnected);
                        Self::lemma_one_emission(mid, *self, out_mid, out@, e, id);
                        let d_old = out_mid.skip(out0.len() as int);
                        let d_new = out@.skip(out0.len() as int);
                        assert(d_new =~= d_old + seq![e]);
                        assert forall|x: ClientId| self.hist_of(x) == pre.hist_of(x)
                            + kinds_for(d_new, x) by {
                            lemma_kinds_for_concat(d_old, seq![e], x);
                            lemma_kinds_for_one(e, x);
                            if x == id {
                                assert(self.hist_of(x) == mid.hist_of(x)
                                    .push(EventKind::Disconnected));
                                assert(kinds_for(d_new, x)
                                    =~= kinds_for(d_old, x).push(EventKind::Disconnected));
                                assert(pre.hist_of(x) + kinds_for(d_new, x)
                                    =~= (pre.hist_of(x) + kinds_for(d_old, x))
                                        .push(EventKind::Disconnected));
                            } else {
                                assert(kinds_for(d_new, x) =~= kinds_for(d_old, x));
                            }
                        }
                        assert forall|x: ClientId| self.clients@.contains_key(x)
                            implies exists|j: int| i + 1 <= j < n && ids@[j] == x by {
                            let j = choose|j: int| i <= j < n && ids@[j] == x;
                            assert(x != id);
                            assert(j != i);
                        }
                        assert(out@.take(out0.len() as int) =~= out0);
                        assert(self.model().used =~= mid.model().used) by {
                            assert forall|x: ClientId| self.model().used.contains(x)
                                == mid.model().used.contains(x) by {
                                if x == id {
                                    assert(mid.clients@.contains_key(id));
                                    assert(self.clients.stale(id));
                                }
                            }
                        }
                    }
                    i = i + 1;
                }
                let ghost post_loop = *self;
                self.state = BackendState::Closed;
                proof {
                    assert forall|id: ClientId| self.hist_of(id) == pre.hist_of(id)
                        + kinds_for(out@.skip(out0.len() as int), id) by {
                        assert(post_loop.hist_of(id) == pre.hist_of(id)
                            + kinds_for(out@.skip(out0.len() as int), id));
                        assert(self.history@ == post_loop.history@);
                    }
                    assert forall|id: ClientId| !self.clients@.contains_key(id) by {
                        assert(!post_loop.clients@.contains_key(id));
                    }
                    let delta = out@.skip(out0.len() as int);
                    assert forall|t: int| 0 <= t < delta.len() implies #[trigger] delta[t]
                        == (Event::<C2S>::Disconnected {
                        client: delta[t].client(),
                        reason: SessionError::ServerClosed,
                    }) && pre_m.clients.contains_key(delta[t].client()) by {
                        assert(delta[t] == out@[out0.len() + t]);
                        assert(out@[out0.len() + t] == (Event::<C2S>::Disconnected {
                            client: ids@[t],
                            reason: SessionError::ServerClosed,
                        }));
                        assert(pre.clients@.contains_key(ids@[t]));
                    }
                    assert forall|t: int, u: int| 0 <= t < u < delta.len()
                        implies delta[t].client() != delta[u].client() by {
                        assert(delta[t] == out@[out0.len() + t]);
                        assert(delta[u] == out@[out0.len() + u]);
                        assert(out@[out0.len() + t] == (Event::<C2S>::Disconnected {
                            client: ids@[t],
                            reason: SessionError::ServerClosed,
                        }));
                        assert(out@[out0.len() + u] == (Event::<C2S>::Disconnected {
                            client: ids@[u],
                            reason: SessionError::ServerClosed,
                        }));
                        assert(delta[t].client() == ids@[t]);
                        assert(delta[u].client() == ids@[u]);
                        assert(ids@[t] != ids@[u]);
                    }
                    assert forall|id: ClientId| #[trigger] pre_m.clients.contains_key(id)
                        implies exists|t: int| 0 <= t < delta.len()
                            && #[trigger] delta[t].client() == id by {
                        assert(pre.clients@.contains_key(id));
                        assert(ids@.contains(id));
                        let t = choose|t: int| 0 <= t < ids@.len() && ids@[t] == id;
                        assert(delta[t] == out@[out0.len() + t]);
                        assert(delta[t].client() == id);
                    }
                    assert(closes_all(pre_m.clients, delta));
                    assert(self.model().clients =~= Map::<ClientId, ClientModel>::empty());
                    assert(self.model().used =~= post_loop.model().used);
                    assert(self.model() == (ServerModel {
                        state: BackendState::Closed,
                        clients: Map::<ClientId, ClientModel>::empty(),
                        ..pre_m
                    }));
                    assert(out@.take(out0.len() as int) =~= out0);
                    assert(step_rel(pre_m, ev_g, self.model(), delta));
                }
            }
            (_, _) => {
                proof {
                    Self::lemma_no_emission(pre, *self, out0, out@);
                    let delta = out@.skip(out0.len() as int);
                    assert(delta =~= Seq::<Event<C2S>>::empty());
                    assert(step_rel(pre_m, ev_g, self.model(), delta));
                }
            }
        }
    }

    /// Both helper lemmas below relate a processing step to the history
    /// extension it must produce. A step that emits nothing must leave
    /// every history unchanged.
    proof fn lemma_no_emission(
        pre: Self,
        post: Self,
        out0: Seq<Event<C2S>>,
        out1: Seq<Event<C2S>>,
    )
        requires
            post.history == pre.history,
            out1 == out0,
        ensures
            out1.len() >= out0.len(),
            out1.take(out0.len() as int) == out0,
            forall|id: ClientId| post.hist_of(id) == pre.hist_of(id)
                + kinds_for(out1.skip(out0.len() as int), id),
    {
        assert(out1.take(out0.len() as int) =~= out0);
        let delta = out1.skip(out0.len() as int);
        assert(delta =~= Seq::<Event<C2S>>::empty());
        assert forall|id: ClientId| post.hist_of(id) == pre.hist_of(id)
            + kinds_for(delta, id) by {
            assert(kinds_for(delta, id) =~= Seq::<EventKind>::empty());
            assert(pre.hist_of(id) + kinds_for(delta, id) =~= pre.hist_of(id));
        }
    }

    /// A step that emits one event `e` about `id` must extend exactly
    /// `id`'s history, by exactly `e`'s kind.
    proof fn lemma_one_emission(
        pre: Self,
        post: Self,
        out0: Seq<Event<C2S>>,
        out1: Seq<Event<C2S>>,
        e: Event<C2S>,
        id: ClientId,
    )
        requires
            out1 == out0.push(e),
            e.client() == id,
            post.history@ == pre.history@.insert(id, pre.hist_of(id).push(e.kind())),
        ensures
            out1.len() >= out0.len(),
            out1.take(out0.len() as int) == out0,
            forall|x: ClientId| post.hist_of(x) == pre.hist_of(x)
                + kinds_for(out1.skip(out0.len() as int), x),
    {
        assert(out1.take(out0.len() as int) =~= out0);
        let delta = out1.skip(out0.len() as int);
        assert(delta =~= seq![e]);
        assert forall|x: ClientId| post.hist_of(x) == pre.hist_of(x)
            + kinds_for(delta, x) by {
            lemma_kinds_for_one(e, x);
            if x == id {
                assert(post.hist_of(x) == pre.hist_of(x).push(e.kind()));
                assert(pre.hist_of(x) + seq![e.kind()] =~= pre.hist_of(x).push(e.kind()));
            } else {
                assert(post.hist_of(x) == pre.hist_of(x));
                assert(pre.hist_of(x) + kinds_for(delta, x) =~= pre.hist_of(x));
            }
        }
    }
}

} // verus!
