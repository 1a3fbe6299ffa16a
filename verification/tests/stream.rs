use aeronet::stream::{ServerStream, StreamId, Streams, StreamKind};

#[test]
fn stream_ids_round_trip_their_raw_index() {
    assert_eq!(StreamId::from_raw(3).into_raw(), 3);
    assert_eq!(StreamId::from_raw(0), StreamId(0));
}

#[test]
fn plan_assigns_ids_per_kind_in_declaration_order() {
    let mut plan = Streams::new();
    assert_eq!(plan.add_bi(), StreamKind::Bi(StreamId(0)));
    assert_eq!(plan.add_bi(), StreamKind::Bi(StreamId(1)));
    assert_eq!(plan.add_c2s(), StreamKind::C2S(StreamId(0)));
    assert_eq!(plan.add_s2c(), StreamKind::S2C(StreamId(0)));
    assert_eq!(plan.add_s2c(), StreamKind::S2C(StreamId(1)));
    assert_eq!(plan, Streams { bi: 2, c2s: 1, s2c: 2 });
}

#[test]
fn establishment_opens_bi_then_c2s_then_s2c() {
    let plan = Streams { bi: 2, c2s: 1, s2c: 1 };
    assert_eq!(
        plan.open_order(),
        vec![
            StreamKind::Bi(StreamId(0)),
            StreamKind::Bi(StreamId(1)),
            StreamKind::C2S(StreamId(0)),
            StreamKind::S2C(StreamId(0)),
        ]
    );
    assert_eq!(Streams::new().open_order(), vec![]);
}

#[test]
fn server_streams_map_to_their_kind() {
    assert_eq!(ServerStream::Datagram.as_kind(), StreamKind::Datagram);
    assert_eq!(
        ServerStream::Bi(StreamId(1)).as_kind(),
        StreamKind::Bi(StreamId(1))
    );
    assert_eq!(
        ServerStream::S2C(StreamId(2)).as_kind(),
        StreamKind::S2C(StreamId(2))
    );
}

#[test]
fn stream_identity_is_kind_and_id() {
    // Two streams of different kinds may share a numeric id.
    assert_ne!(StreamKind::Bi(StreamId(0)), StreamKind::C2S(StreamId(0)));
    assert_ne!(StreamKind::C2S(StreamId(0)), StreamKind::S2C(StreamId(0)));
}
