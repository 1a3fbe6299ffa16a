//! Events flowing from a backend to the application, and the per-client
//! ordering discipline they obey.
//!
//! Per client, the events observed through polling are at most one
//! `Connecting` announcement, then at most one `Connected`, then any number
//! of `Recv`, then at most one terminal `Disconnected`, after which nothing
//! follows for that client. The discipline is captured by a small automaton
//! over [`EventKind`] and proved as an invariant of the frontends.

use vstd::prelude::*;
use crate::error::SessionError;
use crate::registry::ClientId;

verus! {

/// An event of the networked server, as drained by one poll.
///
/// Produced exclusively by the backend, consumed exclusively by the
/// frontend, never mutated after creation.
#[derive(Debug, Clone, PartialEq, Eq)]
pub enum Event<M> {
    /// A client requested a connection and was assigned an id. Carries the
    /// negotiation metadata the client sent.
    Connecting {
        /// The id assigned to the incoming connection.
        client: ClientId,
        /// The authority the client addressed.
        authority: String,
        /// The path the client requested.
        path: String,
        /// The headers of the request, in arrival order.
        headers: Vec<(String, String)>,
    },
    /// A client established its connection in full: every planned stream is
    /// open and messages can flow both ways.
    Connected {
        /// The id of the connected client.
        client: ClientId,
    },
    /// A connected client sent a message.
    Recv {
        /// The id of the sender.
        client: ClientId,
        /// The decoded message.
        msg: M,
    },
    /// A client's connection ended, for good.
    Disconnected {
        /// The id of the disconnected client.
        client: ClientId,
        /// Why the connection ended.
        reason: SessionError,
    },
}

/// A backend-agnostic server event: the three variants every backend maps
/// onto identically.
#[derive(Debug, Clone, PartialEq, Eq)]
pub enum ServerEvent<M> {
    /// A client has fully connected.
    Connected {
        /// The id of the connected client.
        client: ClientId,
    },
    /// A client sent a message.
    Recv {
        /// The id of the sender.
        client: ClientId,
        /// The message.
        msg: M,
    },
    /// A client's connection ended, for good.
    Disconnected {
        /// The id of the disconnected client.
        client: ClientId,
        /// Why the connection ended.
        reason: SessionError,
    },
}

/// An event observed by the in-memory channel client.
#[derive(Debug, Clone, PartialEq, Eq)]
pub enum ClientEvent<M> {
    /// The client is connected to the server.
    Connected,
    /// The server sent a message.
    Recv {
        /// The message.
        msg: M,
    },
    /// The connection to the server ended, for good.
    Disconnected {
        /// Why the connection ended.
        reason: SessionError,
    },
}

impl<M> Event<M> {
    /// The client this event is about.
    pub open spec fn client(self) -> ClientId {
        match self {
            Event::Connecting { client, .. } => client,
            Event::Connected { client } => client,
            Event::Recv { client, .. } => client,
            Event::Disconnected { client, .. } => client,
        }
    }

    /// The kind of this event, with its payload forgotten.
    pub open spec fn kind(self) -> EventKind {
        match self {
            Event::Connecting { .. } => EventKind::Connecting,
            Event::Connected { .. } => EventKind::Connected,
            Event::Recv { .. } => EventKind::Recv,
            Event::Disconnected { .. } => EventKind::Disconnected,
        }
    }

    /// This event viewed through the backend-agnostic contract:
    /// `Connecting` carries protocol negotiation detail with no generic
    /// equivalent, so it maps to `None`.
    pub open spec fn generic(self) -> Option<ServerEvent<M>> {
        match self {
            Event::Connecting { .. } => None,
            Event::Connected { client } => Some(ServerEvent::Connected { client }),
            Event::Recv { client, msg } => Some(ServerEvent::Recv { client, msg }),
            Event::Disconnected { client, reason } =>
                Some(ServerEvent::Disconnected { client, reason }),
        }
    }

    /// Views this event through the backend-agnostic contract. `Connecting`
    /// maps to `None`; consumers that need its detail must use the concrete
    /// type.
    pub fn into_generic(self) -> (r: Option<ServerEvent<M>>)
        ensures
            r == self.generic(),
    {
        match self {
            Event::Connecting { .. } => None,
            Event::Connected { client } => Some(ServerEvent::Connected { client }),
            Event::Recv { client, msg } => Some(ServerEvent::Recv { client, msg }),
            Event::Disconnected { client, reason } =>
                Some(ServerEvent::Disconnected { client, reason }),
        }
    }
}

/// The kind of an [`Event`], payload forgotten. Event histories are
/// sequences of kinds.
#[derive(Debug, Clone, Copy, PartialEq, Eq, Structural)]
pub enum EventKind {
    /// A `Connecting` announcement.
    Connecting,
    /// The single `Connected` event.
    Connected,
    /// A received message.
    Recv,
    /// The single terminal `Disconnected` event.
    Disconnected,
}

/// How far one client's event history has progressed.
#[derive(Debug, Clone, Copy, PartialEq, Eq, Structural)]
pub enum LifePhase {
    /// No event yet.
    Fresh,
    /// Announced by `Connecting`, not yet established.
    Announced,
    /// Established: `Connected` was observed.
    Live,
    /// Ended: `Disconnected` was observed; nothing may follow.
    Done,
}

/// The automaton of one client's event history: which kind may follow in
/// which phase, and where it leads.
pub open spec fn phase_step(p: LifePhase, k: EventKind) -> Option<LifePhase> {
    match (p, k) {
        (LifePhase::Fresh, EventKind::Connecting) => Some(LifePhase::Announced),
        (LifePhase::Fresh, EventKind::Connected) => Some(LifePhase::Live),
        (LifePhase::Announced, EventKind::Connected) => Some(LifePhase::Live),
        (LifePhase::Announced, EventKind::Disconnected) => Some(LifePhase::Done),
        (LifePhase::Live, EventKind::Recv) => Some(LifePhase::Live),
        (LifePhase::Live, EventKind::Disconnected) => Some(LifePhase::Done),
        _ => None,
    }
}

/// Runs the automaton over a whole history: `Some(phase)` if every step was
/// allowed, `None` if the history breaks the discipline somewhere.
pub open spec fn run_history(h: Seq<EventKind>) -> Option<LifePhase>
    decreases h.len(),
{
    if h.len() == 0 {
        Some(LifePhase::Fresh)
    } else {
        match run_history(h.drop_last()) {
            Some(p) => phase_step(p, h.last()),
            None => None,
        }
    }
}

/// A history that the automaton accepts.
pub open spec fn history_wf(h: Seq<EventKind>) -> bool {
    run_history(h) is Some
}

/// How many events of kind `k` a history holds.
pub open spec fn count_kind(h: Seq<EventKind>, k: EventKind) -> int
    decreases h.len(),
{
    if h.len() == 0 {
        0
    } else {
        count_kind(h.drop_last(), k) + if h.last() == k { 1int } else { 0int }
    }
}

/// The kinds of the events among `evs` that are about client `id`, in
/// order: one client's slice of one poll's output.
pub open spec fn kinds_for<M>(evs: Seq<Event<M>>, id: ClientId) -> Seq<EventKind>
    decreases evs.len(),
{
    if evs.len() == 0 {
        Seq::empty()
    } else {
        kinds_for(evs.drop_last(), id)
            + if evs.last().client() == id { seq![evs.last().kind()] } else { Seq::empty() }
    }
}

/// The events of one poll viewed through the backend-agnostic contract, in
/// order, with the variants that have no generic equivalent left out.
pub open spec fn generic_of<M>(evs: Seq<Event<M>>) -> Seq<ServerEvent<M>>
    decreases evs.len(),
{
    if evs.len() == 0 {
        Seq::empty()
    } else {
        generic_of(evs.drop_last()) + match evs.last().generic() {
            Some(g) => seq![g],
            None => Seq::empty(),
        }
    }
}

/// The generic view of a poll grows event by event.
pub proof fn lemma_generic_of_snoc<M>(evs: Seq<Event<M>>, e: Event<M>)
    ensures
        generic_of(evs.push(e)) == generic_of(evs) + match e.generic() {
            Some(g) => seq![g],
            None => Seq::<ServerEvent<M>>::empty(),
        },
{
    assert(evs.push(e).drop_last() =~= evs);
    assert(evs.push(e).last() == e);
}

/// Slicing a concatenation of polls by client is the concatenation of the
/// slices: event histories compose across polls.
pub proof fn lemma_kinds_for_concat<M>(a: Seq<Event<M>>, b: Seq<Event<M>>, id: ClientId)
    ensures
        kinds_for(a + b, id) == kinds_for(a, id) + kinds_for(b, id),
    decreases b.len(),
{
    if b.len() == 0 {
        assert(a + b == a);
        assert(kinds_for(a, id) + Seq::<EventKind>::empty() == kinds_for(a, id));
    } else {
        lemma_kinds_for_concat(a, b.drop_last(), id);
        assert((a + b).drop_last() == a + b.drop_last());
        assert((a + b).last() == b.last());
        if b.last().client() == id {
            assert(kinds_for(a, id) + kinds_for(b, id)
                == (kinds_for(a, id) + kinds_for(b.drop_last(), id)) + seq![b.last().kind()]);
        } else {
            assert(kinds_for(b, id) == kinds_for(b.drop_last(), id));
        }
    }
}

/// Running the automaton one event further.
pub proof fn lemma_run_push(h: Seq<EventKind>, k: EventKind)
    ensures
        run_history(h.push(k)) == match run_history(h) {
            Some(p) => phase_step(p, k),
            None => None,
        },
{
    assert(h.push(k).drop_last() =~= h);
    assert(h.push(k).last() == k);
}

/// Running the automaton over a single event.
pub proof fn lemma_run_singleton(k: EventKind)
    ensures
        run_history(seq![k]) == phase_step(LifePhase::Fresh, k),
{
    assert(seq![k].drop_last() =~= Seq::<EventKind>::empty());
    assert(run_history(Seq::<EventKind>::empty()) == Some(LifePhase::Fresh));
    assert(seq![k].last() == k);
}

/// One client's slice of a single event.
pub proof fn lemma_kinds_for_one<M>(e: Event<M>, id: ClientId)
    ensures
        e.client() == id ==> kinds_for(seq![e], id) == seq![e.kind()],
        e.client() != id ==> kinds_for(seq![e], id) == Seq::<EventKind>::empty(),
{
    assert(seq![e].drop_last() =~= Seq::<Event<M>>::empty());
    assert(seq![e].last() == e);
    assert(kinds_for(Seq::<Event<M>>::empty(), id) =~= Seq::<EventKind>::empty());
    if e.client() == id {
        assert(kinds_for(seq![e], id) =~= seq![e.kind()]);
    } else {
        assert(kinds_for(seq![e], id) =~= Seq::<EventKind>::empty());
    }
}

/// Nothing follows a `Disconnected`: in an accepted history it can only
/// stand last.
pub proof fn lemma_nothing_after_disconnected(h: Seq<EventKind>, i: int)
    requires
        history_wf(h),
        0 <= i < h.len(),
        h[i] == EventKind::Disconnected,
    ensures
        i == h.len() - 1,
    decreases h.len(),
{
    if i < h.len() - 1 {
        let h0 = h.drop_last();
        assert(history_wf(h0));
        assert(h0[i] == EventKind::Disconnected);
        lemma_nothing_after_disconnected(h0, i);
        assert(h0.last() == EventKind::Disconnected);
        assert(run_history(h0) == Some(LifePhase::Done)) by {
            let p0 = run_history(h0.drop_last()).unwrap();
            assert(phase_step(p0, EventKind::Disconnected) == Some(LifePhase::Done)
                || phase_step(p0, EventKind::Disconnected) is None);
        }
        assert(phase_step(LifePhase::Done, h.last()) is None);
    }
}

/// A history that reached `Live` holds exactly one `Connected`; one that
/// has not holds none; a `Done` history holds at most one.
pub proof fn lemma_connected_count(h: Seq<EventKind>)
    requires
        history_wf(h),
    ensures
        run_history(h) == Some(LifePhase::Live) ==> count_kind(h, EventKind::Connected) == 1,
        run_history(h) == Some(LifePhase::Done) ==> count_kind(h, EventKind::Connected) <= 1,
        (run_history(h) == Some(LifePhase::Fresh) || run_history(h) == Some(LifePhase::Announced))
            ==> count_kind(h, EventKind::Connected) == 0,
    decreases h.len(),
{
    if h.len() > 0 {
        lemma_connected_count(h.drop_last());
    }
}

/// Every `Recv` in an accepted history comes after the `Connected`.
pub proof fn lemma_recv_after_connected(h: Seq<EventKind>, i: int)
    requires
        history_wf(h),
        0 <= i < h.len(),
        h[i] == EventKind::Recv,
    ensures
        exists|j: int| 0 <= j < i && h[j] == EventKind::Connected,
    decreases h.len(),
{
    let h0 = h.drop_last();
    assert(history_wf(h0));
    if i < h.len() - 1 {
        lemma_recv_after_connected(h0, i);
        let j = choose|j: int| 0 <= j < i && h0[j] == EventKind::Connected;
        assert(h[j] == EventKind::Connected);
    } else {
        assert(run_history(h0) == Some(LifePhase::Live));
        lemma_live_has_connected(h0);
        let j = choose|j: int| 0 <= j < h0.len() && h0[j] == EventKind::Connected;
        assert(h[j] == EventKind::Connected);
    }
}

/// A history in phase `Live` holds a `Connected` somewhere.
pub proof fn lemma_live_has_connected(h: Seq<EventKind>)
    requires
        run_history(h) == Some(LifePhase::Live),
    ensures
        exists|j: int| 0 <= j < h.len() && h[j] == EventKind::Connected,
    decreases h.len(),
{
    let h0 = h.drop_last();
    if h.last() == EventKind::Connected {
        assert(h[h.len() - 1] == EventKind::Connected);
    } else {
        assert(run_history(h0) == Some(LifePhase::Live));
        lemma_live_has_connected(h0);
        let j = choose|j: int| 0 <= j < h0.len() && h0[j] == EventKind::Connected;
        assert(h[j] == EventKind::Connected);
    }
}

} // verus!
