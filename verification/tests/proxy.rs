use vnc::protocol::{Encoding, PixelFormat, SecurityType, Version};
use vnc::proxy::handshake::HandshakeState;
use vnc::proxy::{can_follow, filter_encodings, filter_security_types, join, relay_c2s, relay_s2c};
use vnc::{Error, IoError};

#[test]
fn proxy_keeps_the_encodings_that_it_can_follow() {
    let offered = vec![
        Encoding::Zrle,
        Encoding::Hextile,
        Encoding::Raw,
        Encoding::Unknown(-999),
        Encoding::Rre,
        Encoding::CopyRect,
        Encoding::ExtendedKeyEvent,
        Encoding::Cursor,
        Encoding::DesktopSize,
    ];
    assert_eq!(
        filter_encodings(&offered),
        vec![Encoding::Zrle, Encoding::Raw, Encoding::CopyRect, Encoding::Cursor, Encoding::DesktopSize]
    );
    assert!(filter_encodings(&vec![]).is_empty());
    assert!(can_follow(&Encoding::Raw));
    assert!(!can_follow(&Encoding::Hextile));
    assert!(!can_follow(&Encoding::Unknown(0x7FFF_FFFF)));
}

#[test]
fn proxy_offers_no_authentication_only() {
    let offered = vec![
        SecurityType::VncAuthentication,
        SecurityType::NoAuthentication,
        SecurityType::Unknown(19),
        SecurityType::NoAuthentication,
        SecurityType::Invalid,
    ];
    assert_eq!(
        filter_security_types(&offered),
        vec![SecurityType::NoAuthentication, SecurityType::NoAuthentication]
    );
    assert!(filter_security_types(&vec![SecurityType::AppleRemoteDesktop]).is_empty());
}

#[test]
fn proxy_relays_client_messages() {
    let mut input = vec![2, 0, 0, 3, 0, 0, 0, 16, 0, 0, 0, 5, 0, 0, 0, 0];
    input.extend_from_slice(&[4, 1, 0, 0, 0, 0, 0, 0x41]);
    let relay = relay_c2s(&input).unwrap();
    assert_eq!(relay.consumed, 16);
    assert_eq!(relay.forward, vec![2, 0, 0, 2, 0, 0, 0, 16, 0, 0, 0, 0]);
    let relay = relay_c2s(&input[16..]).unwrap();
    assert_eq!(relay.consumed, 8);
    assert_eq!(relay.forward, vec![4, 1, 0, 0, 0, 0, 0, 0x41]);
    let relay = relay_c2s(&[4, 7, 9, 9, 0, 0, 0, 1]).unwrap();
    assert_eq!(relay.forward, vec![4, 1, 0, 0, 0, 0, 0, 1]);
    let mut set_format = vec![0, 0, 0, 0];
    set_format.extend_from_slice(&[32, 24, 1, 1, 0, 255, 0, 255, 0, 255, 0, 8, 16, 0, 0, 0]);
    assert!(matches!(relay_c2s(&set_format), Err(Error::Unexpected("SetPixelFormat"))));
    assert!(matches!(relay_c2s(&[]), Err(Error::Disconnected)));
    assert!(matches!(relay_c2s(&[4, 1]), Err(Error::Io(IoError::UnexpectedEof))));
    assert!(matches!(relay_c2s(&[8]), Err(Error::Unexpected("client to server message type"))));
}

#[test]
fn proxy_relays_server_messages_whole_and_as_they_came() {
    let format = PixelFormat::new_rgb8888();
    let mut input = vec![0, 0xEE, 0, 2];
    input.extend_from_slice(&[0, 0, 0, 0, 0, 1, 0, 1, 0, 0, 0, 0, 1, 2, 3, 4]);
    input.extend_from_slice(&[0, 0, 0, 0, 0, 9, 0, 9, 0, 0, 0, 16, 0, 0, 0, 2, 0x78, 0x9C]);
    let whole = input.len();
    input.extend_from_slice(&[2, 2]);
    let relay = relay_s2c(&format, &input).unwrap();
    assert_eq!(relay.consumed, whole);
    assert_eq!(relay.forward, &input[..whole]);
    let relay = relay_s2c(&format, &input[whole..]).unwrap();
    assert_eq!((relay.consumed, relay.forward), (1, vec![2]));
    assert!(matches!(
        relay_s2c(&format, &input[..whole - 1]),
        Err(Error::Io(IoError::UnexpectedEof))
    ));
    let hextile = [0, 0, 0, 1, 0, 0, 0, 0, 0, 1, 0, 1, 0, 0, 0, 5];
    assert!(matches!(relay_s2c(&format, &hextile), Err(Error::Unexpected("encoding"))));
    assert!(matches!(relay_s2c(&format, &[]), Err(Error::Disconnected)));
    let mut narrow = format;
    narrow.bits_per_pixel = 8;
    let small = [0, 0, 0, 1, 0, 0, 0, 0, 0, 2, 0, 1, 0, 0, 0, 0, 7, 8, 9];
    let relay = relay_s2c(&narrow, &small).unwrap();
    assert_eq!(relay.consumed, 18);
    assert!(matches!(relay_s2c(&format, &small), Err(Error::Io(IoError::UnexpectedEof))));
}

#[test]
fn proxy_session_ends_well_when_both_sides_hang_up() {
    assert!(join(Error::Disconnected, Error::Disconnected).is_ok());
    assert!(matches!(
        join(Error::Disconnected, Error::Io(IoError::Other)),
        Err(Error::Io(IoError::Other))
    ));
    assert!(matches!(
        join(Error::Unexpected("SetPixelFormat"), Error::Disconnected),
        Err(Error::Unexpected("SetPixelFormat"))
    ));
    assert!(matches!(
        join(Error::Unexpected("encoding"), Error::Io(IoError::Other)),
        Err(Error::Unexpected("encoding"))
    ));
}

fn run(server: &[u8], client: &[u8]) -> (Vec<u8>, Vec<u8>, Result<HandshakeState, Error>) {
    let mut state = HandshakeState::start();
    let (mut from_server, mut from_client) = (0, 0);
    let (mut to_client, mut to_server) = (Vec::new(), Vec::new());
    loop {
        match state {
            HandshakeState::Running { .. } | HandshakeState::Closed => {
                return (to_client, to_server, Ok(state))
            }
            _ => {}
        }
        let step = if state.awaits_server() {
            state.advance(&server[from_server..])
        } else {
            state.advance(&client[from_client..])
        };
        match step {
            Err(error) => return (to_client, to_server, Err(error)),
            Ok(step) => {
                if state.awaits_server() {
                    from_server += step.relay.consumed;
                    to_client.extend_from_slice(&step.relay.forward);
                } else {
                    from_client += step.relay.consumed;
                    to_server.extend_from_slice(&step.relay.forward);
                }
                state = step.state;
            }
        }
    }
}

fn server_init() -> Vec<u8> {
    let mut bytes = vec![0, 4, 0, 3];
    bytes.extend_from_slice(&[32, 24, 1, 1, 0, 255, 0, 255, 0, 255, 0, 8, 16, 0, 0, 0]);
    bytes.extend_from_slice(&[0, 0, 0, 1, b'x']);
    bytes
}

#[test]
fn proxy_passes_the_handshake_and_filters_the_offer() {
    let mut server = b"RFB 003.889\n".to_vec();
    server.extend_from_slice(&[3, 2, 1, 30]);
    server.extend_from_slice(&[0, 0, 0, 0]);
    server.extend_from_slice(&server_init());
    let mut client = b"RFB 003.008\n".to_vec();
    client.extend_from_slice(&[1, 1]);
    let (to_client, to_server, state) = run(&server, &client);
    let mut expected = b"RFB 003.008\n".to_vec();
    expected.extend_from_slice(&[1, 1]);
    expected.extend_from_slice(&[0, 0, 0, 0]);
    expected.extend_from_slice(&server_init());
    assert_eq!(to_client, expected);
    assert_eq!(to_server, client);
    assert_eq!(state.unwrap(), HandshakeState::Running { format: PixelFormat::new_rgb8888() });
}

#[test]
fn proxy_follows_the_version_that_the_client_settles_on() {
    let mut server = b"RFB 003.008\n".to_vec();
    server.extend_from_slice(&[0, 0, 0, 1]);
    server.extend_from_slice(&server_init());
    let mut client = b"RFB 003.003\n".to_vec();
    client.push(0);
    let (to_client, to_server, state) = run(&server, &client);
    assert_eq!(to_client, server);
    assert_eq!(to_server, client);
    assert!(matches!(state, Ok(HandshakeState::Running { .. })));

    let mut server = b"RFB 003.008\n".to_vec();
    server.extend_from_slice(&[1, 1]);
    server.extend_from_slice(&server_init());
    let mut client = b"RFB 003.007\n".to_vec();
    client.extend_from_slice(&[1, 1]);
    let (to_client, to_server, state) = run(&server, &client);
    assert_eq!(to_client, server);
    assert_eq!(to_server, client);
    assert!(matches!(state, Ok(HandshakeState::Running { .. })));
}

#[test]
fn proxy_passes_a_refusal_on_and_closes() {
    let mut server = b"RFB 003.008\n".to_vec();
    server.extend_from_slice(&[0]);
    server.extend_from_slice(&[0, 0, 0, 2, b'n', b'o']);
    let (to_client, _, state) = run(&server, b"RFB 003.008\n");
    assert_eq!(to_client, server);
    assert_eq!(state.unwrap(), HandshakeState::Closed);

    let mut server = b"RFB 003.008\n".to_vec();
    server.extend_from_slice(&[1, 1, 0, 0, 0, 1, 0, 0, 0, 1, b'x']);
    let mut client = b"RFB 003.008\n".to_vec();
    client.push(1);
    let (to_client, _, state) = run(&server, &client);
    assert_eq!(to_client, server);
    assert_eq!(state.unwrap(), HandshakeState::Closed);
}

#[test]
fn proxy_gives_up_on_what_it_cannot_follow() {
    let mut server = b"RFB 003.008\n".to_vec();
    server.extend_from_slice(&[2, 2, 30]);
    let (_, _, state) = run(&server, b"RFB 003.008\n");
    assert!(matches!(state, Err(Error::AuthenticationUnavailable)));
    let mut server = b"RFB 003.003\n".to_vec();
    server.extend_from_slice(&[0, 0, 0, 2]);
    let (_, _, state) = run(&server, b"RFB 003.003\n");
    assert!(matches!(state, Err(Error::AuthenticationUnavailable)));
    let mut server = b"RFB 003.008\n".to_vec();
    server.extend_from_slice(&[2, 1, 2]);
    let mut client = b"RFB 003.008\n".to_vec();
    client.push(2);
    let (_, _, state) = run(&server, &client);
    assert!(matches!(state, Err(Error::Unexpected("security type"))));
    let mut server = b"RFB 003.008\n".to_vec();
    server.extend_from_slice(&[1, 1, 0, 0, 0, 5]);
    let mut client = b"RFB 003.008\n".to_vec();
    client.push(1);
    let (_, _, state) = run(&server, &client);
    assert!(matches!(state, Err(Error::Unexpected("security result"))));
    assert!(matches!(
        HandshakeState::Closed.advance(&[1]),
        Err(Error::Unexpected("handshake step"))
    ));
    assert!(!HandshakeState::Choice { version: Version::Rfb38 }.awaits_server());
    assert!(HandshakeState::ServerInit.awaits_server());
}
