use aeronet::channel::{ChannelClient, ChannelServer};
use aeronet::event::ServerEvent;
use aeronet::frontend::{BackendEvent, ClientInfo, RemoteAddr, WebTransportServer};
use aeronet::registry::ClientId;
use aeronet::transport::TransportServer;

/// Behaves identically for every backend: polls, then answers every
/// received message with an echo.
fn echo_once<T: TransportServer<String, String>>(server: &mut T) -> Vec<ServerEvent<String>> {
    let events = server.recv();
    for ev in &events {
        if let ServerEvent::Recv { client, msg } = ev {
            let _ = server.send(*client, msg.clone());
        }
    }
    events
}

#[test]
fn generic_echo_over_the_channel_backend() {
    let mut server: ChannelServer<String, String> = ChannelServer::new();
    let (mut client, a) = ChannelClient::connected(&mut server);
    client.send(&mut server, String::from("marco")).unwrap();

    let events = echo_once(&mut server);
    assert_eq!(events.len(), 2);
    assert_eq!(events[1], ServerEvent::Recv { client: a, msg: String::from("marco") });

    let got = client.recv(&mut server);
    assert!(got
        .iter()
        .any(|e| *e == aeronet::event::ClientEvent::Recv { msg: String::from("marco") }));
}

#[test]
fn generic_echo_over_the_networked_backend() {
    let mut server: WebTransportServer<String, String> = WebTransportServer::new_open(16);
    server.feed(BackendEvent::Opened).unwrap();
    server
        .feed(BackendEvent::Connecting {
            conn: 1,
            authority: String::from("example"),
            path: String::from("/"),
            headers: Vec::new(),
        })
        .unwrap();
    server
        .feed(BackendEvent::Connected {
            conn: 1,
            info: ClientInfo {
                max_datagram_size: None,
                remote_address: RemoteAddr { ip: 1, port: 1 },
                rtt: 1,
                stable_id: 1,
            },
        })
        .unwrap();
    server.feed(BackendEvent::Recv { conn: 1, msg: String::from("marco") }).unwrap();

    let events = echo_once(&mut server);
    // The Connecting announcement has no generic form, so the generic view
    // holds only Connected and Recv.
    assert_eq!(events.len(), 2);
    let a = match events[0] {
        ServerEvent::Connected { client } => client,
        _ => panic!("expected Connected first"),
    };
    assert_eq!(events[1], ServerEvent::Recv { client: a, msg: String::from("marco") });

    // The echo was queued as a command for the backend.
    assert_eq!(server.take_commands().len(), 1);
}

#[test]
fn generic_operations_respect_connectedness() {
    let mut server: ChannelServer<String, String> = ChannelServer::new();
    let ghost_id = ClientId::from_raw(0, 0);
    assert!(!TransportServer::<String, String>::connected(&server, ghost_id));
    assert!(TransportServer::<String, String>::connection_info(&server, ghost_id).is_none());
    assert!(TransportServer::<String, String>::send(&mut server, ghost_id, String::new()).is_err());
    assert!(TransportServer::<String, String>::disconnect(&mut server, ghost_id).is_err());
}
