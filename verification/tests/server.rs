use aeronet::error::{ServerError, SessionError, StreamError};
use aeronet::event::{Event, ServerEvent};
use aeronet::frontend::{BackendEvent, ClientInfo, Command, RemoteAddr, WebTransportServer};
use aeronet::registry::ClientId;
use aeronet::stream::{ServerStream, StreamId, StreamKind};

type Server = WebTransportServer<String, String>;

fn info(rtt: u64) -> ClientInfo {
    ClientInfo {
        max_datagram_size: Some(1200),
        remote_address: RemoteAddr { ip: 0x7f00_0001, port: 443 },
        rtt,
        stable_id: 7,
    }
}

fn connecting(conn: u64) -> BackendEvent<String> {
    BackendEvent::Connecting {
        conn,
        authority: String::from("example:443"),
        path: String::from("/play"),
        headers: vec![(String::from("origin"), String::from("example"))],
    }
}

/// Opens the server and returns the id of one fully connected client.
fn open_with_client(server: &mut Server) -> ClientId {
    server.feed(BackendEvent::Opened).unwrap();
    server.feed(connecting(1)).unwrap();
    server.feed(BackendEvent::Connected { conn: 1, info: info(25) }).unwrap();
    let events = server.recv();
    match events[1] {
        Event::Connected { client } => client,
        _ => panic!("expected a Connected event"),
    }
}

#[test]
fn lifecycle_from_opening_to_connected() {
    let mut server: Server = WebTransportServer::new_open(16);
    let ghost_id = ClientId::from_raw(0, 0);
    assert!(!server.connected(ghost_id));
    assert_eq!(
        server.send(ghost_id, ServerStream::Datagram, String::from("x")),
        Err(ServerError::BackendClosed)
    );

    server.feed(BackendEvent::Opened).unwrap();
    server.feed(connecting(1)).unwrap();
    server.feed(BackendEvent::Connected { conn: 1, info: info(25) }).unwrap();
    server.feed(BackendEvent::Recv { conn: 1, msg: String::from("hi") }).unwrap();
    let events = server.recv();
    assert_eq!(events.len(), 3);
    let client = match events[0] {
        Event::Connecting { client, .. } => client,
        _ => panic!("expected a Connecting event"),
    };
    assert_eq!(events[1], Event::Connected { client });
    assert_eq!(events[2], Event::Recv { client, msg: String::from("hi") });
    assert_eq!(server.connection_info(client), Some(info(25)));
    assert!(server.connected(client));
}

#[test]
fn send_and_disconnect_queue_commands() {
    let mut server: Server = WebTransportServer::new_open(16);
    let client = open_with_client(&mut server);

    let stream = ServerStream::Bi(StreamId::from_raw(0));
    assert_eq!(server.send(client, stream, String::from("pong")), Ok(()));
    assert_eq!(server.disconnect(client), Ok(()));
    assert_eq!(
        server.take_commands(),
        vec![
            Command::Send { client, stream, msg: String::from("pong") },
            Command::Disconnect { client },
        ]
    );
    assert_eq!(server.take_commands(), vec![]);
}

#[test]
fn disconnect_is_visible_at_once() {
    let mut server: Server = WebTransportServer::new_open(16);
    let client = open_with_client(&mut server);
    assert!(server.connected(client));

    assert_eq!(server.disconnect(client), Ok(()));
    // The accepted disconnect is observable before the backend confirms.
    assert!(!server.connected(client));
    assert_eq!(server.connection_info(client), None);
    assert_eq!(
        server.send(client, ServerStream::Datagram, String::from("x")),
        Err(ServerError::NotConnected(client))
    );
    assert_eq!(server.disconnect(client), Err(ServerError::NotConnected(client)));

    // The backend confirms with the terminal event; afterwards the id is
    // unknown for good.
    server
        .feed(BackendEvent::Disconnected { conn: 1, reason: SessionError::ForceDisconnect })
        .unwrap();
    assert_eq!(
        server.recv(),
        vec![Event::Disconnected { client, reason: SessionError::ForceDisconnect }]
    );
    assert_eq!(server.disconnect(client), Err(ServerError::NoClient(client)));
}

#[test]
fn reopening_clears_the_dead_epochs_queues() {
    let mut server: Server = WebTransportServer::new_open(16);
    let client = open_with_client(&mut server);
    assert_eq!(server.send(client, ServerStream::Datagram, String::from("late")), Ok(()));
    server.feed(BackendEvent::Closed).unwrap();
    server.recv();

    assert_eq!(server.open(), Ok(()));
    // Neither the dead epoch's commands nor its backend events survive.
    assert_eq!(server.take_commands(), vec![]);
    server.feed(BackendEvent::Opened).unwrap();
    assert_eq!(server.recv(), vec![]);
}

#[test]
fn duplicate_serial_announcement_is_dropped() {
    let mut server: Server = WebTransportServer::new_open(16);
    server.feed(BackendEvent::Opened).unwrap();
    server.feed(connecting(5)).unwrap();
    server.feed(connecting(5)).unwrap();
    let events = server.recv();
    assert_eq!(events.len(), 1);
    assert!(matches!(events[0], Event::Connecting { .. }));
}

#[test]
fn command_queue_overflow_is_a_local_error() {
    let mut server: Server = WebTransportServer::new_open(2);
    server.feed(BackendEvent::Opened).unwrap();
    server.recv();
    server.feed(connecting(1)).unwrap();
    server.feed(BackendEvent::Connected { conn: 1, info: info(25) }).unwrap();
    let events = server.recv();
    let client = match events[1] {
        Event::Connected { client } => client,
        _ => panic!("expected a Connected event"),
    };

    assert_eq!(server.send(client, ServerStream::Datagram, String::from("1")), Ok(()));
    assert_eq!(server.send(client, ServerStream::Datagram, String::from("2")), Ok(()));
    assert_eq!(
        server.send(client, ServerStream::Datagram, String::from("3")),
        Err(ServerError::ChannelFull)
    );
    // Draining makes room again.
    assert_eq!(server.take_commands().len(), 2);
    assert_eq!(server.send(client, ServerStream::Datagram, String::from("3")), Ok(()));
}

#[test]
fn event_buffer_overflow_pushes_back() {
    let mut server: Server = WebTransportServer::new_open(2);
    server.feed(BackendEvent::Opened).unwrap();
    server.feed(connecting(1)).unwrap();
    assert_eq!(
        server.feed(BackendEvent::Connected { conn: 1, info: info(1) }),
        Err(ServerError::ChannelFull)
    );
    server.recv();
    assert_eq!(server.feed(BackendEvent::Connected { conn: 1, info: info(1) }), Ok(()));
}

#[test]
fn disconnected_client_is_gone_for_good() {
    let mut server: Server = WebTransportServer::new_open(16);
    let client = open_with_client(&mut server);

    server
        .feed(BackendEvent::Disconnected { conn: 1, reason: SessionError::ForceDisconnect })
        .unwrap();
    assert_eq!(
        server.recv(),
        vec![Event::Disconnected { client, reason: SessionError::ForceDisconnect }]
    );
    assert!(!server.connected(client));
    assert_eq!(server.connection_info(client), None);
    assert_eq!(server.disconnect(client), Err(ServerError::NoClient(client)));
    assert_eq!(
        server.send(client, ServerStream::Datagram, String::from("x")),
        Err(ServerError::NoClient(client))
    );

    // Messages for the dead connection are dropped, and a reconnect under
    // the same serial gets a fresh id.
    server.feed(BackendEvent::Recv { conn: 1, msg: String::from("late") }).unwrap();
    server.feed(connecting(1)).unwrap();
    let events = server.recv();
    assert_eq!(events.len(), 1);
    match events[0] {
        Event::Connecting { client: reborn, .. } => assert_ne!(reborn, client),
        _ => panic!("expected a Connecting event"),
    }
}

#[test]
fn failed_stream_open_never_shows_as_connected() {
    let mut server: Server = WebTransportServer::new_open(16);
    server.feed(BackendEvent::Opened).unwrap();
    server.feed(connecting(9)).unwrap();
    let events = server.recv();
    let client = match events[0] {
        Event::Connecting { client, .. } => client,
        _ => panic!("expected a Connecting event"),
    };
    assert!(!server.connected(client));

    let reason = SessionError::Stream {
        stream: StreamKind::Bi(StreamId::from_raw(0)),
        source: StreamError::Open(String::from("refused")),
    };
    server.feed(BackendEvent::Disconnected { conn: 9, reason: reason.clone() }).unwrap();
    let events = server.recv();
    assert_eq!(events, vec![Event::Disconnected { client, reason }]);
    assert!(!server.connected(client));
    // No event of this connection's life was a Connected.
    assert_eq!(server.connection_info(client), None);
}

#[test]
fn backend_closing_disconnects_every_client() {
    let mut server: Server = WebTransportServer::new_open(16);
    server.feed(BackendEvent::Opened).unwrap();
    server.feed(connecting(1)).unwrap();
    server.feed(BackendEvent::Connected { conn: 1, info: info(1) }).unwrap();
    server.feed(connecting(2)).unwrap();
    server.feed(BackendEvent::Connected { conn: 2, info: info(2) }).unwrap();
    let events = server.recv();
    let (a, b) = match (&events[1], &events[3]) {
        (&Event::Connected { client: a }, &Event::Connected { client: b }) => (a, b),
        _ => panic!("expected two Connected events"),
    };

    server.feed(BackendEvent::Closed).unwrap();
    let events = server.recv();
    assert_eq!(events.len(), 2);
    for ev in &events {
        match ev {
            Event::Disconnected { reason, .. } => {
                assert_eq!(*reason, SessionError::ServerClosed)
            }
            _ => panic!("expected only Disconnected events"),
        }
    }
    assert!(!server.connected(a));
    assert!(!server.connected(b));
    assert_eq!(
        server.send(a, ServerStream::Datagram, String::from("x")),
        Err(ServerError::BackendClosed)
    );

    // A closed server can be reopened; an open or opening one cannot.
    assert_eq!(server.open(), Ok(()));
    assert_eq!(server.open(), Err(ServerError::BackendOpen));
}

#[test]
fn update_info_refreshes_the_snapshot() {
    let mut server: Server = WebTransportServer::new_open(16);
    let client = open_with_client(&mut server);
    assert_eq!(server.connection_info(client), Some(info(25)));

    server.feed(BackendEvent::UpdateInfo { conn: 1, info: info(42) }).unwrap();
    assert_eq!(server.recv(), vec![]);
    assert_eq!(server.connection_info(client), Some(info(42)));
}

#[test]
fn connecting_detail_has_no_generic_form() {
    let client = ClientId::from_raw(0, 0);
    let rich: Event<String> = connecting_event(client);
    assert_eq!(rich.into_generic(), None);
    let connected: Event<String> = Event::Connected { client };
    assert_eq!(
        connected.into_generic(),
        Some(ServerEvent::Connected { client })
    );
    let recv = Event::Recv { client, msg: String::from("m") };
    assert_eq!(
        recv.into_generic(),
        Some(ServerEvent::Recv { client, msg: String::from("m") })
    );
    let gone: Event<String> = Event::Disconnected { client, reason: SessionError::ServerClosed };
    assert_eq!(
        gone.into_generic(),
        Some(ServerEvent::Disconnected { client, reason: SessionError::ServerClosed })
    );
}

fn connecting_event(client: ClientId) -> Event<String> {
    Event::Connecting {
        client,
        authority: String::from("example:443"),
        path: String::from("/play"),
        headers: Vec::new(),
    }
}

#[test]
fn send_before_establishment_is_not_connected() {
    let mut server: Server = WebTransportServer::new_open(16);
    server.feed(BackendEvent::Opened).unwrap();
    server.feed(connecting(1)).unwrap();
    let events = server.recv();
    let client = match events[0] {
        Event::Connecting { client, .. } => client,
        _ => panic!("expected a Connecting event"),
    };
    assert_eq!(
        server.send(client, ServerStream::Datagram, String::from("early")),
        Err(ServerError::NotConnected(client))
    );
}

#[test]
fn message_before_establishment_is_dropped() {
    let mut server: Server = WebTransportServer::new_open(16);
    server.feed(BackendEvent::Opened).unwrap();
    server.feed(connecting(1)).unwrap();
    server.feed(BackendEvent::Recv { conn: 1, msg: String::from("early") }).unwrap();
    let events = server.recv();
    // Only the announcement: no Recv may precede the Connected event.
    assert_eq!(events.len(), 1);
    assert!(matches!(events[0], Event::Connecting { .. }));
}
