//! Stream kinds, stream identifiers, and the per-connection stream plan.

use vstd::prelude::*;

verus! {

/// A side-agnostic kind of stream used to transport data on one connection.
///
/// A connection multiplexes several streams. Since more than one stream of
/// the same directional kind may be open at once, each directional kind
/// carries a [`StreamId`] telling the instances apart. Stream identity is the
/// pair (kind tag, id): streams of different kinds may share a numeric id
/// without colliding.
#[derive(Debug, Clone, Copy, PartialEq, Eq, Hash, Structural)]
pub enum StreamKind {
    /// The unreliable, unordered datagram channel. Not really a stream, but
    /// treated as one for the sake of the API; exactly one exists per
    /// connection.
    Datagram,
    /// A bidirectional stream.
    Bi(StreamId),
    /// A unidirectional client-to-server stream.
    C2S(StreamId),
    /// A unidirectional server-to-client stream.
    S2C(StreamId),
}

/// An identifier for a single instance of an opened stream.
///
/// Ids are sequence indices assigned per kind in declaration order.
#[derive(Debug, Clone, Copy, PartialEq, Eq, Hash, Structural)]
pub struct StreamId(pub usize);

impl StreamId {
    /// Creates a stream id from a raw index.
    pub fn from_raw(raw: usize) -> (r: Self)
        ensures
            r == StreamId(raw),
    {
        Self(raw)
    }

    /// Gets the raw index of this stream id.
    pub fn into_raw(self) -> (r: usize)
        ensures
            r == self.0,
    {
        self.0
    }
}

/// The streams a server may send along.
///
/// A server never sends on a client-to-server stream, so that kind is absent
/// here.
#[derive(Debug, Clone, Copy, PartialEq, Eq, Hash, Structural)]
pub enum ServerStream {
    /// The datagram channel.
    Datagram,
    /// A bidirectional stream.
    Bi(StreamId),
    /// A server-to-client stream.
    S2C(StreamId),
}

impl ServerStream {
    /// The side-agnostic kind of this server-side stream.
    pub fn as_kind(self) -> (k: StreamKind)
        ensures
            k == match self {
                ServerStream::Datagram => StreamKind::Datagram,
                ServerStream::Bi(id) => StreamKind::Bi(id),
                ServerStream::S2C(id) => StreamKind::S2C(id),
            },
    {
        match self {
            Self::Datagram => StreamKind::Datagram,
            Self::Bi(id) => StreamKind::Bi(id),
            Self::S2C(id) => StreamKind::S2C(id),
        }
    }
}

/// The stream plan: how many streams of each directional kind a connection
/// opens during establishment.
///
/// The plan is built once, before the connection is established, and is fixed
/// for the connection's lifetime: every planned stream is opened during
/// establishment, in the order given by [`Streams::open_order`], and no
/// stream is opened afterwards. The datagram channel is implicit and not
/// counted here.
#[derive(Debug, Clone, Copy, PartialEq, Eq, Hash, Structural)]
pub struct Streams {
    /// Number of bidirectional streams.
    pub bi: usize,
    /// Number of client-to-server streams.
    pub c2s: usize,
    /// Number of server-to-client streams.
    pub s2c: usize,
}

impl Streams {
    /// An empty plan: no streams beyond the implicit datagram channel.
    pub fn new() -> (r: Self)
        ensures
            r == (Streams { bi: 0, c2s: 0, s2c: 0 }),
    {
        Self { bi: 0, c2s: 0, s2c: 0 }
    }

    /// Declares one more bidirectional stream and returns the kind under
    /// which it will be opened.
    pub fn add_bi(&mut self) -> (k: StreamKind)
        requires
            old(self).bi < usize::MAX,
        ensures
            k == StreamKind::Bi(StreamId(old(self).bi)),
            final(self).bi == old(self).bi + 1,
            final(self).c2s == old(self).c2s,
            final(self).s2c == old(self).s2c,
    {
        let i = self.bi;
        self.bi = self.bi + 1;
        StreamKind::Bi(StreamId(i))
    }

    /// Declares one more client-to-server stream and returns the kind under
    /// which it will be opened.
    pub fn add_c2s(&mut self) -> (k: StreamKind)
        requires
            old(self).c2s < usize::MAX,
        ensures
            k == StreamKind::C2S(StreamId(old(self).c2s)),
            final(self).c2s == old(self).c2s + 1,
            final(self).bi == old(self).bi,
            final(self).s2c == old(self).s2c,
    {
        let i = self.c2s;
        self.c2s = self.c2s + 1;
        StreamKind::C2S(StreamId(i))
    }

    /// Declares one more server-to-client stream and returns the kind under
    /// which it will be opened.
    pub fn add_s2c(&mut self) -> (k: StreamKind)
        requires
            old(self).s2c < usize::MAX,
        ensures
            k == StreamKind::S2C(StreamId(old(self).s2c)),
            final(self).s2c == old(self).s2c + 1,
            final(self).bi == old(self).bi,
            final(self).c2s == old(self).c2s,
    {
        let i = self.s2c;
        self.s2c = self.s2c + 1;
        StreamKind::S2C(StreamId(i))
    }

    /// Total number of planned streams.
    pub open spec fn total(self) -> int {
        self.bi + self.c2s + self.s2c
    }

    /// The kind opened at position `i` of the establishment order:
    /// bidirectional streams first, then client-to-server, then
    /// server-to-client.
    pub open spec fn planned_kind(self, i: int) -> StreamKind {
        if i < self.bi {
            StreamKind::Bi(StreamId(i as usize))
        } else if i < self.bi + self.c2s {
            StreamKind::C2S(StreamId((i - self.bi) as usize))
        } else {
            StreamKind::S2C(StreamId((i - self.bi - self.c2s) as usize))
        }
    }

    /// The exact order in which a connection opens its planned streams
    /// during establishment.
    pub fn open_order(&self) -> (r: Vec<StreamKind>)
        requires
            self.total() <= usize::MAX,
        ensures
            r@.len() == self.total(),
            forall|i: int| 0 <= i < r@.len() ==> r@[i] == self.planned_kind(i),
    {
        let mut r: Vec<StreamKind> = Vec::new();
        let mut i: usize = 0;
        while i < self.bi
            invariant
                i <= self.bi,
                self.total() <= usize::MAX,
                r@.len() == i,
                forall|j: int| 0 <= j < i ==> r@[j] == self.planned_kind(j),
            decreases self.bi - i,
        {
            r.push(StreamKind::Bi(StreamId(i)));
            i = i + 1;
        }
        let mut i: usize = 0;
        while i < self.c2s
            invariant
                i <= self.c2s,
                self.total() <= usize::MAX,
                r@.len() == self.bi + i,
                forall|j: int| 0 <= j < r@.len() ==> r@[j] == self.planned_kind(j),
            decreases self.c2s - i,
        {
            r.push(StreamKind::C2S(StreamId(i)));
            i = i + 1;
        }
        let mut i: usize = 0;
        while i < self.s2c
            invariant
                i <= self.s2c,
                self.total() <= usize::MAX,
                r@.len() == self.bi + self.c2s + i,
                forall|j: int| 0 <= j < r@.len() ==> r@[j] == self.planned_kind(j),
            decreases self.s2c - i,
        {
            r.push(StreamKind::S2C(StreamId(i)));
            i = i + 1;
        }
        r
    }
}

} // verus!
