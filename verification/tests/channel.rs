use aeronet::channel::{ChannelClient, ChannelServer};
use aeronet::error::{ChannelError, SessionError, StreamError};
use aeronet::event::{ClientEvent, ServerEvent};
use aeronet::registry::ClientId;
use aeronet::stream::StreamKind;

type Server = ChannelServer<String, String>;

#[test]
fn end_to_end_ping_pong_and_forced_disconnect() {
    let mut server: Server = ChannelServer::new();
    let (mut client, a) = ChannelClient::connected(&mut server);

    assert_eq!(client.send(&mut server, String::from("ping")), Ok(()));
    assert_eq!(
        server.recv(),
        vec![
            ServerEvent::Connected { client: a },
            ServerEvent::Recv { client: a, msg: String::from("ping") },
        ]
    );

    assert_eq!(server.send(a, String::from("pong")), Ok(()));
    assert_eq!(
        client.recv(&mut server),
        vec![
            ClientEvent::Connected,
            ClientEvent::Recv { msg: String::from("pong") },
        ]
    );

    assert_eq!(server.disconnect(a), Ok(()));
    assert!(!server.connected(a));
    assert_eq!(
        client.recv(&mut server),
        vec![ClientEvent::Disconnected { reason: SessionError::ForceDisconnect }]
    );
    assert!(server.connection_info(a).is_none());
}

#[test]
fn disconnect_twice_is_an_error_and_adds_no_event() {
    let mut server: Server = ChannelServer::new();
    let (_client, a) = ChannelClient::connected(&mut server);
    server.recv();

    assert_eq!(server.disconnect(a), Ok(()));
    assert_eq!(server.disconnect(a), Err(ChannelError::AlreadyDisconnected));
    assert_eq!(server.recv(), vec![]);
}

#[test]
fn send_to_unknown_or_stale_client_fails() {
    let mut server: Server = ChannelServer::new();
    let ghost_id = ClientId::from_raw(0, 0);
    assert_eq!(
        server.send(ghost_id, String::from("x")),
        Err(ChannelError::NoClient(ghost_id))
    );

    let (mut client, a) = ChannelClient::connected(&mut server);
    assert_eq!(server.disconnect(a), Ok(()));
    client.recv(&mut server);
    // The slot is free again; the old id stays dead even after reuse.
    let (_client2, b) = ChannelClient::connected(&mut server);
    assert_eq!(a.into_raw().0, b.into_raw().0);
    assert_ne!(a, b);
    assert_eq!(server.send(a, String::from("x")), Err(ChannelError::NoClient(a)));
    assert_eq!(server.disconnect(a), Err(ChannelError::AlreadyDisconnected));
    assert_eq!(server.send(b, String::from("x")), Ok(()));
}

#[test]
fn client_side_disconnect_reports_to_the_server() {
    let mut server: Server = ChannelServer::new();
    let (mut client, a) = ChannelClient::connected(&mut server);
    server.recv();

    assert_eq!(client.disconnect(&mut server), Ok(()));
    assert!(client.connection_info().is_none());
    assert_eq!(
        server.recv(),
        vec![ServerEvent::Disconnected {
            client: a,
            reason: SessionError::Stream {
                stream: StreamKind::Datagram,
                source: StreamError::Closed,
            },
        }]
    );
    assert_eq!(client.disconnect(&mut server), Err(ChannelError::AlreadyDisconnected));
}

#[test]
fn connect_twice_is_an_error() {
    let mut server: Server = ChannelServer::new();
    let mut client = ChannelClient::disconnected();
    assert!(client.connection_info().is_none());
    let key = client.connect(&mut server).expect("first connect");
    assert!(client.connection_info().is_some());
    assert!(server.connected(key));
    assert_eq!(client.connect(&mut server), Err(ChannelError::AlreadyConnected));
}

#[test]
fn disconnected_client_operations_fail_locally() {
    let mut server: Server = ChannelServer::new();
    let mut client = ChannelClient::disconnected();
    assert_eq!(
        client.send(&mut server, String::from("x")),
        Err(ChannelError::Disconnected)
    );
    assert_eq!(client.disconnect(&mut server), Err(ChannelError::AlreadyDisconnected));
    assert_eq!(client.recv(&mut server), vec![]);
}

#[test]
fn two_clients_keep_their_own_queues() {
    let mut server: Server = ChannelServer::new();
    let (mut c1, a) = ChannelClient::connected(&mut server);
    let (mut c2, b) = ChannelClient::connected(&mut server);

    assert_eq!(server.send(a, String::from("for-a")), Ok(()));
    assert_eq!(server.send(b, String::from("for-b")), Ok(()));
    assert_eq!(
        c1.recv(&mut server),
        vec![
            ClientEvent::Connected,
            ClientEvent::Recv { msg: String::from("for-a") },
        ]
    );
    assert_eq!(
        c2.recv(&mut server),
        vec![
            ClientEvent::Connected,
            ClientEvent::Recv { msg: String::from("for-b") },
        ]
    );
}
