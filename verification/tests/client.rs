use flate2::{Compress, Compression, FlushCompress};
use vnc::client::handshake::HandshakeState;
use vnc::client::{AuthChoice, AuthMethod, Builder, Client, Event, FormatChange};
use vnc::protocol::{Colour, Encoding, Message, PixelFormat, ServerInit};
use vnc::security::challenge_response;
use vnc::wire::Reader;
use vnc::zrle::Decoder;
use vnc::{Error, IoError, Rect};

/// Runs the client's side of a handshake against what a server sends, and
/// gives what the client wrote and how the handshake ended.
fn run_handshake(
    server: &[u8],
    shared: bool,
    choice: fn(&[AuthMethod]) -> Option<AuthChoice>,
) -> (Vec<u8>, Result<ServerInit, Error>, usize) {
    let mut state = HandshakeState::start();
    let mut written = Vec::new();
    let mut at = 0;
    loop {
        let step = match state {
            HandshakeState::Done(init) => return (written, Ok(init), at),
            HandshakeState::Choice { ref methods, .. } => {
                let chosen = choice(methods);
                state.select(chosen, shared)
            }
            _ => state.advance(&server[at..], shared, &[1, 2, 3]),
        };
        match step {
            Ok(step) => {
                at += step.consumed;
                written.extend_from_slice(&step.reply);
                state = step.state;
            }
            Err(error) => return (written, Err(error), at),
        }
    }
}

fn choose_none(methods: &[AuthMethod]) -> Option<AuthChoice> {
    for method in methods {
        if let AuthMethod::NoAuthentication = method {
            return Some(AuthChoice::NoAuthentication);
        }
    }
    None
}

fn choose_password(methods: &[AuthMethod]) -> Option<AuthChoice> {
    for method in methods {
        if let AuthMethod::Password = method {
            return Some(AuthChoice::Password(*b"password"));
        }
    }
    None
}

fn server_init_bytes() -> Vec<u8> {
    let init = ServerInit {
        framebuffer_width: 640,
        framebuffer_height: 480,
        pixel_format: PixelFormat::new_rgb8888(),
        name: String::from("x"),
    };
    let mut bytes = Vec::new();
    init.write_to(&mut bytes).unwrap();
    bytes
}

#[test]
fn handshake_3_8_without_authentication() {
    let mut server = b"RFB 003.008\n".to_vec();
    server.extend_from_slice(&[0x01, 0x01]);
    server.extend_from_slice(&[0x00, 0x00, 0x00, 0x00]);
    server.extend_from_slice(&server_init_bytes());
    let (written, outcome, used) = run_handshake(&server, true, choose_none);
    let mut expected = b"RFB 003.008\n".to_vec();
    expected.extend_from_slice(&[0x01, 0x01]);
    assert_eq!(written, expected);
    assert_eq!(used, server.len());
    let client = Client::from_server_init(outcome.unwrap());
    assert_eq!(client.size(), (640, 480));
    assert_eq!(client.name(), "x");
    assert_eq!(client.format(), PixelFormat::new_rgb8888());
}

#[test]
fn handshake_3_3_refused_by_the_server() {
    let mut server = b"RFB 003.003\n".to_vec();
    server.extend_from_slice(&[0, 0, 0, 0]);
    server.extend_from_slice(&[0, 0, 0, 2, b'n', b'o']);
    let (written, outcome, _) = run_handshake(&server, false, choose_none);
    assert_eq!(written, b"RFB 003.003\n");
    match outcome {
        Err(Error::Server(reason)) => assert_eq!(reason, "no"),
        other => panic!("{:?}", other),
    }
}

#[test]
fn handshake_3_7_refused_with_an_empty_list() {
    let mut server = b"RFB 003.007\n".to_vec();
    server.extend_from_slice(&[0]);
    server.extend_from_slice(&[0, 0, 0, 4, b'f', b'u', b'l', b'l']);
    let (written, outcome, _) = run_handshake(&server, false, choose_none);
    assert_eq!(written, b"RFB 003.007\n");
    assert!(matches!(outcome, Err(Error::Server(reason)) if reason == "full"));
}

#[test]
fn handshake_before_3_8_skips_the_verdict_without_authentication() {
    let mut server = b"RFB 003.003\n".to_vec();
    server.extend_from_slice(&[0, 0, 0, 1]);
    server.extend_from_slice(&server_init_bytes());
    let (written, outcome, _) = run_handshake(&server, false, choose_none);
    let mut expected = b"RFB 003.003\n".to_vec();
    expected.push(0);
    assert_eq!(written, expected);
    assert_eq!(outcome.unwrap().framebuffer_width, 640);

    let mut server = b"RFB 003.007\n".to_vec();
    server.extend_from_slice(&[2, 2, 1]);
    server.extend_from_slice(&server_init_bytes());
    let (written, outcome, _) = run_handshake(&server, true, choose_none);
    let mut expected = b"RFB 003.007\n".to_vec();
    expected.extend_from_slice(&[1, 1]);
    assert_eq!(written, expected);
    assert_eq!(outcome.unwrap().name, "x");
}

#[test]
fn handshake_with_a_password_answers_the_challenge() {
    let challenge: Vec<u8> = (0..16u8).collect();
    let mut fixed = [0u8; 16];
    fixed.copy_from_slice(&challenge);
    let response = challenge_response(&fixed, b"password");
    for (version, named) in [(&b"RFB 003.003\n"[..], false), (b"RFB 003.007\n", true), (b"RFB 003.008\n", true)] {
        let mut server = version.to_vec();
        if named {
            server.extend_from_slice(&[2, 1, 2]);
        } else {
            server.extend_from_slice(&[0, 0, 0, 2]);
        }
        server.extend_from_slice(&challenge);
        server.extend_from_slice(&[0, 0, 0, 0]);
        server.extend_from_slice(&server_init_bytes());
        let (written, outcome, _) = run_handshake(&server, false, choose_password);
        let mut expected = version.to_vec();
        if named {
            expected.push(2);
        }
        expected.extend_from_slice(&response);
        expected.push(0);
        assert_eq!(written, expected);
        assert!(outcome.is_ok());
    }
}

#[test]
fn handshake_rejected_credentials() {
    let challenge = [9u8; 16];
    let mut server = b"RFB 003.008\n".to_vec();
    server.extend_from_slice(&[1, 2]);
    server.extend_from_slice(&challenge);
    server.extend_from_slice(&[0, 0, 0, 1]);
    server.extend_from_slice(&[0, 0, 0, 3, b'b', b'a', b'd']);
    let (_, outcome, _) = run_handshake(&server, false, choose_password);
    assert!(matches!(outcome, Err(Error::AuthenticationFailure(reason)) if reason == "bad"));

    let mut server = b"RFB 003.007\n".to_vec();
    server.extend_from_slice(&[1, 2]);
    server.extend_from_slice(&challenge);
    server.extend_from_slice(&[0, 0, 0, 1]);
    let (_, outcome, _) = run_handshake(&server, false, choose_password);
    assert!(matches!(outcome, Err(Error::AuthenticationFailure(reason)) if reason.is_empty()));

    let mut server = b"RFB 003.008\n".to_vec();
    server.extend_from_slice(&[1, 1]);
    server.extend_from_slice(&[0, 0, 0, 7]);
    let (_, outcome, _) = run_handshake(&server, false, choose_none);
    assert!(matches!(outcome, Err(Error::Unexpected("security result"))));
}

#[test]
fn handshake_without_an_acceptable_method() {
    let mut server = b"RFB 003.008\n".to_vec();
    server.extend_from_slice(&[2, 2, 19]);
    let (written, outcome, _) = run_handshake(&server, false, choose_none);
    assert_eq!(written, b"RFB 003.008\n");
    assert!(matches!(outcome, Err(Error::AuthenticationUnavailable)));
    let mut server = b"RFB 003.003\n".to_vec();
    server.extend_from_slice(&[0, 0, 1, 0]);
    let (_, outcome, _) = run_handshake(&server, false, choose_none);
    assert!(matches!(outcome, Err(Error::Unexpected("security type"))));
}

#[test]
fn handshake_lists_the_methods_in_the_order_of_the_offer() {
    let state = HandshakeState::Security { version: vnc::protocol::Version::Rfb38 };
    let step = state.advance(&[5, 30, 7, 2, 0, 1, 0xEE], false, &[]).unwrap();
    assert_eq!(step.consumed, 6);
    assert!(step.reply.is_empty());
    match step.state {
        HandshakeState::Choice { methods, .. } => assert_eq!(
            methods,
            vec![AuthMethod::AppleRemoteDesktop, AuthMethod::Password, AuthMethod::NoAuthentication]
        ),
        other => panic!("{:?}", other),
    }
}

#[test]
fn handshake_steps_wait_for_whole_messages() {
    let state = HandshakeState::start();
    assert!(matches!(
        state.advance(b"RFB 003.00", false, &[]),
        Err(Error::Io(IoError::UnexpectedEof))
    ));
    assert!(matches!(
        state.advance(b"HTTP/1.1 200 OK\r\n", false, &[]),
        Err(Error::Unexpected("protocol version"))
    ));
    let state = HandshakeState::Init;
    let bytes = server_init_bytes();
    assert!(matches!(
        state.advance(&bytes[..bytes.len() - 1], false, &[]),
        Err(Error::Io(IoError::UnexpectedEof))
    ));
    assert!(matches!(state.select(None, false), Err(Error::Unexpected("handshake step"))));
    let state = HandshakeState::Choice {
        version: vnc::protocol::Version::Rfb38,
        methods: vec![AuthMethod::NoAuthentication],
    };
    assert!(matches!(state.advance(&[1], false, &[]), Err(Error::Unexpected("handshake step"))));
    let step = state.select(Some(AuthChoice::NoAuthentication), true).unwrap();
    assert_eq!(step.reply, vec![1]);
    assert!(matches!(step.state, HandshakeState::Verdict { .. }));
}

#[test]
fn handshake_with_apple_remote_desktop_sends_key_and_credentials() {
    let state = HandshakeState::Choice {
        version: vnc::protocol::Version::Rfb38,
        methods: vec![AuthMethod::AppleRemoteDesktop],
    };
    let step = state
        .select(Some(AuthChoice::AppleRemoteDesktop(String::from("user"), String::from("secret"))), false)
        .unwrap();
    assert_eq!(step.reply, vec![30]);
    let keys = [0u8, 2, 0, 2, 0xFF, 0xF1, 0x12, 0x34];
    let step = step.state.advance(&keys, false, &[5]).unwrap();
    assert_eq!(step.consumed, 8);
    assert_eq!(step.reply.len(), 128 + 2);
    // 2^5 modulo 0xFFF1
    assert_eq!(&step.reply[128..], &[0, 32]);
    assert!(matches!(step.state, HandshakeState::Verdict { .. }));
}

/// Reads one message and gives its events and the bytes that it took; the
/// failure of a compressed rectangle comes back as the error.
fn pump(bytes: &[u8], format: PixelFormat) -> Result<(Vec<Event>, usize), Error> {
    let mut decoder = Decoder::new();
    let mut reader = Reader::new(bytes);
    let delivery = Event::pump(&mut reader, format, &mut decoder)?;
    match delivery.failure {
        Some(error) => Err(error),
        None => Ok((delivery.events, reader.position())),
    }
}

#[test]
fn raw_rectangle_puts_pixels() {
    let mut bytes = vec![0, 0, 0, 1];
    bytes.extend_from_slice(&[0, 0, 0, 0, 0, 2, 0, 1, 0, 0, 0, 0]);
    bytes.extend_from_slice(&[1, 2, 3, 4, 5, 6, 7, 8]);
    let (events, used) = pump(&bytes, PixelFormat::new_rgb8888()).unwrap();
    assert_eq!(used, bytes.len());
    assert_eq!(events.len(), 1);
    match &events[0] {
        Event::PutPixels(rect, pixels) => {
            assert_eq!(*rect, Rect::new(0, 0, 2, 1));
            assert_eq!(pixels, &vec![1, 2, 3, 4, 5, 6, 7, 8]);
        }
        other => panic!("{:?}", other),
    }
}

#[test]
fn copy_rectangle_copies_pixels() {
    let mut bytes = vec![0, 0, 0, 1];
    bytes.extend_from_slice(&[0, 10, 0, 20, 0, 5, 0, 5, 0, 0, 0, 1]);
    bytes.extend_from_slice(&[0, 100, 0, 200]);
    let (events, _) = pump(&bytes, PixelFormat::new_rgb8888()).unwrap();
    assert_eq!(events.len(), 1);
    match &events[0] {
        Event::CopyPixels { src, dst } => {
            assert_eq!(*src, Rect::new(100, 200, 5, 5));
            assert_eq!(*dst, Rect::new(10, 20, 5, 5));
        }
        other => panic!("{:?}", other),
    }
}

#[test]
fn zrle_rectangle_puts_the_pixels_of_each_tile() {
    let mut compressor = Compress::new(Compression::default(), true);
    let mut compressed = Vec::with_capacity(64);
    compressor.compress_vec(&[0x01, 0xAA, 0xBB, 0xCC], &mut compressed, FlushCompress::Sync).unwrap();
    let mut bytes = vec![0, 0, 0, 1];
    bytes.extend_from_slice(&[0, 3, 0, 4, 0, 1, 0, 1, 0, 0, 0, 16]);
    bytes.extend_from_slice(&(compressed.len() as u32).to_be_bytes());
    bytes.extend_from_slice(&compressed);
    let (events, used) = pump(&bytes, PixelFormat::new_rgb8888()).unwrap();
    assert_eq!(used, bytes.len());
    assert_eq!(events.len(), 1);
    match &events[0] {
        Event::PutPixels(rect, pixels) => {
            assert_eq!(*rect, Rect::new(3, 4, 1, 1));
            assert_eq!(pixels, &vec![0x00, 0xAA, 0xBB, 0xCC]);
        }
        other => panic!("{:?}", other),
    }
}

#[test]
fn events_come_in_the_order_of_the_wire() {
    let mut bytes = vec![0, 0, 0, 4];
    bytes.extend_from_slice(&[0, 0, 0, 0, 3, 0, 2, 0, 0xFF, 0xFF, 0xFF, 0x21]);
    bytes.extend_from_slice(&[0, 1, 0, 2, 0, 9, 0, 1, 0xFF, 0xFF, 0xFF, 0x11]);
    bytes.extend_from_slice(&[7; 36]);
    bytes.extend_from_slice(&[0x80, 0x01]);
    bytes.extend_from_slice(&[0, 0, 0, 0, 0, 1, 0, 1, 0, 0, 0, 0, 9, 9, 9, 9]);
    bytes.extend_from_slice(&[0, 5, 0, 5, 0, 1, 0, 1, 0, 0, 0, 1, 0, 6, 0, 6]);
    bytes.extend_from_slice(&[2]);
    let (events, used) = pump(&bytes, PixelFormat::new_rgb8888()).unwrap();
    assert_eq!(used, bytes.len() - 1);
    assert_eq!(events.len(), 4);
    assert!(matches!(events[0], Event::Resize(768, 512)));
    match &events[1] {
        Event::SetCursor { size, hotspot, pixels, mask_bits } => {
            assert_eq!(*size, (9, 1));
            assert_eq!(*hotspot, (1, 2));
            assert_eq!(pixels, &vec![7; 36]);
            assert_eq!(mask_bits, &vec![0x80, 0x01]);
        }
        other => panic!("{:?}", other),
    }
    assert!(matches!(&events[2], Event::PutPixels(rect, _) if *rect == Rect::new(0, 0, 1, 1)));
    assert!(matches!(&events[3], Event::CopyPixels { .. }));
    let (events, _) = pump(&bytes[used..], PixelFormat::new_rgb8888()).unwrap();
    assert!(matches!(events[..], [Event::Bell]));
}

#[test]
fn other_messages_become_one_event_each() {
    let (events, _) = pump(&[3, 0, 0, 0, 0, 0, 0, 2, b'o', b'k'], PixelFormat::new_rgb8888()).unwrap();
    assert!(matches!(&events[..], [Event::Clipboard(text)] if text == "ok"));
    let (events, _) = pump(&[1, 0, 0, 7, 0, 1, 0, 1, 0, 2, 0, 3], PixelFormat::new_rgb8888()).unwrap();
    match &events[..] {
        [Event::SetColourMap { first_colour, colours }] => {
            assert_eq!(*first_colour, 7);
            assert_eq!(colours, &vec![Colour { red: 1, green: 2, blue: 3 }]);
        }
        other => panic!("{:?}", other),
    }
    let (events, used) = pump(&[0, 0, 0, 0], PixelFormat::new_rgb8888()).unwrap();
    assert!(events.is_empty());
    assert_eq!(used, 4);
}

#[test]
fn pump_fails_on_what_it_cannot_read() {
    let format = PixelFormat::new_rgb8888();
    assert!(matches!(pump(&[], format), Err(Error::Disconnected)));
    assert!(matches!(pump(&[9], format), Err(Error::Unexpected("server to client message type"))));
    assert!(matches!(pump(&[0, 0, 0, 1, 0, 0], format), Err(Error::Io(IoError::UnexpectedEof))));
    let hextile = [0, 0, 0, 1, 0, 0, 0, 0, 0, 1, 0, 1, 0, 0, 0, 5];
    assert!(matches!(pump(&hextile, format), Err(Error::Unexpected("encoding"))));
    let corrupt = [0, 0, 0, 1, 0, 0, 0, 0, 0, 1, 0, 1, 0, 0, 0, 16, 0, 0, 0, 2, 0x12, 0x34];
    assert!(matches!(pump(&corrupt, format), Err(Error::Io(IoError::InvalidData))));
}

#[test]
fn pump_leaves_the_decoder_alone_until_the_message_is_whole() {
    let mut compressor = Compress::new(Compression::default(), true);
    let mut compressed = Vec::with_capacity(64);
    compressor.compress_vec(&[0x01, 1, 2, 3], &mut compressed, FlushCompress::Sync).unwrap();
    let mut bytes = vec![0, 0, 0, 2];
    bytes.extend_from_slice(&[0, 0, 0, 0, 0, 1, 0, 1, 0, 0, 0, 16]);
    bytes.extend_from_slice(&(compressed.len() as u32).to_be_bytes());
    bytes.extend_from_slice(&compressed);
    bytes.extend_from_slice(&[0, 0, 0, 0, 0, 1, 0, 1, 0, 0, 0, 0, 5, 6, 7, 8]);
    let format = PixelFormat::new_rgb8888();
    let mut decoder = Decoder::new();
    for cut in [1, 10, 20, bytes.len() - 1] {
        let mut reader = Reader::new(&bytes[..cut]);
        assert!(matches!(
            Event::pump(&mut reader, format, &mut decoder),
            Err(Error::Io(IoError::UnexpectedEof))
        ));
    }
    let mut reader = Reader::new(&bytes);
    let delivery = Event::pump(&mut reader, format, &mut decoder).unwrap();
    assert!(delivery.failure.is_none());
    let events = delivery.events;
    assert_eq!(events.len(), 2);
    assert!(matches!(&events[0], Event::PutPixels(_, pixels) if pixels == &vec![0, 1, 2, 3]));
    assert!(matches!(&events[1], Event::PutPixels(_, pixels) if pixels == &vec![5, 6, 7, 8]));
}

#[test]
fn closing_event_tells_a_clean_end_from_a_failure() {
    assert!(matches!(Event::closing(Error::Disconnected), Event::Disconnected(None)));
    assert!(matches!(
        Event::closing(Error::Io(IoError::Other)),
        Event::Disconnected(Some(Error::Io(IoError::Other)))
    ));
    assert!(matches!(
        Event::closing(Error::Unexpected("encoding")),
        Event::Disconnected(Some(Error::Unexpected("encoding")))
    ));
}

fn session() -> Client {
    Client::from_server_init(ServerInit {
        framebuffer_width: 4,
        framebuffer_height: 3,
        pixel_format: PixelFormat::new_rgb8888(),
        name: String::from("desk"),
    })
}

#[test]
fn queue_is_first_in_first_out() {
    let mut client = session();
    assert!(client.poll_event().is_none());
    client.deliver(Event::Bell);
    client.deliver(Event::Resize(10, 20));
    client.deliver(Event::Clipboard(String::from("a")));
    assert!(matches!(client.poll_event(), Some(Event::Bell)));
    assert_eq!(client.size(), (4, 3));
    client.deliver(Event::PutPixels(Rect::new(0, 0, 1, 1), vec![1]));
    assert!(matches!(client.poll_event(), Some(Event::Resize(10, 20))));
    assert_eq!(client.size(), (10, 20));
    assert!(matches!(client.poll_event(), Some(Event::Clipboard(_))));
    assert!(matches!(client.poll_event(), Some(Event::PutPixels(_, _))));
    assert!(client.poll_event().is_none());
    client.deliver(Event::Resize(1, 2));
    client.deliver(Event::Bell);
    client.deliver(Event::Resize(3, 4));
    let all = client.poll_iter();
    assert!(matches!(all[..], [Event::Resize(1, 2), Event::Bell, Event::Resize(3, 4)]));
    assert_eq!(client.size(), (3, 4));
    assert!(client.poll_iter().is_empty());
}

#[test]
fn commands_are_framed_in_the_order_of_the_calls() {
    let mut client = session();
    client.set_encodings(&[Encoding::Zrle, Encoding::Raw]).unwrap();
    client.request_update(Rect::new(1, 2, 3, 4), true).unwrap();
    client.send_key_event(true, 0x41).unwrap();
    client.send_pointer_event(1, 2, 3).unwrap();
    client.update_clipboard("hi").unwrap();
    let bytes = client.take_outgoing();
    let mut expected = vec![2, 0, 0, 2, 0, 0, 0, 16, 0, 0, 0, 0];
    expected.extend_from_slice(&[3, 1, 0, 1, 0, 2, 0, 3, 0, 4]);
    expected.extend_from_slice(&[4, 1, 0, 0, 0, 0, 0, 0x41]);
    expected.extend_from_slice(&[5, 1, 0, 2, 0, 3]);
    expected.extend_from_slice(&[6, 0, 0, 0, 0, 0, 0, 2, b'h', b'i']);
    assert_eq!(bytes, expected);
    assert!(client.take_outgoing().is_empty());
    client.poke_qemu().unwrap();
    let bytes = client.take_outgoing();
    assert_eq!(bytes.len(), 20);
    assert_eq!(&bytes[..8], &[0, 0, 0, 0, 32, 24, 1, 1]);
}

#[test]
fn format_changes_once_the_whole_framebuffer_has_come() {
    let mut client = session();
    client.deliver(Event::Resize(8, 6));
    client.deliver(Event::Bell);
    let wanted = PixelFormat::new_bgr8888();
    assert_eq!(client.set_format(wanted).unwrap(), FormatChange::Pending);
    assert_eq!(client.size(), (8, 6));
    assert!(client.poll_event().is_none());
    assert_eq!(client.take_outgoing(), vec![3, 0, 0, 0, 0, 0, 0, 8, 0, 6]);
    assert_eq!(client.format(), PixelFormat::new_rgb8888());
    assert_eq!(client.set_format(wanted).unwrap(), FormatChange::Pending);
    client.deliver(Event::PutPixels(Rect::new(0, 0, 8, 5), vec![]));
    client.deliver(Event::Resize(9, 9));
    assert_eq!(client.set_format(wanted).unwrap(), FormatChange::Pending);
    assert_eq!(client.format(), PixelFormat::new_rgb8888());
    assert_eq!(client.size(), (9, 9));
    assert!(client.take_outgoing().is_empty());
    client.deliver(Event::Bell);
    client.deliver(Event::PutPixels(Rect::new(0, 0, 8, 6), vec![]));
    client.deliver(Event::Clipboard(String::from("later")));
    assert_eq!(client.set_format(wanted).unwrap(), FormatChange::Done);
    assert_eq!(client.format(), wanted);
    let bytes = client.take_outgoing();
    let mut expected = vec![0, 0, 0, 0];
    wanted.write_to(&mut expected).unwrap();
    assert_eq!(bytes, expected);
    assert!(matches!(client.poll_event(), Some(Event::Clipboard(_))));
    assert!(client.take_outgoing().is_empty());
}

#[test]
fn format_change_writes_the_request_and_then_the_format() {
    let mut client = session();
    client.deliver(Event::Resize(0x0102, 0x0304));
    let wanted = PixelFormat::new_bgr8888();
    assert_eq!(client.set_format(wanted).unwrap(), FormatChange::Pending);
    client.deliver(Event::PutPixels(Rect::new(0, 0, 0x0102, 0x0304), vec![]));
    assert_eq!(client.set_format(wanted).unwrap(), FormatChange::Done);
    let mut expected = vec![3, 0, 0, 0, 0, 0, 1, 2, 3, 4, 0, 0, 0, 0];
    wanted.write_to(&mut expected).unwrap();
    assert_eq!(client.take_outgoing(), expected);
    assert_eq!(client.format(), wanted);
}

#[test]
fn format_change_ends_with_the_session() {
    let mut client = session();
    let wanted = PixelFormat::new_bgr8888();
    assert_eq!(client.set_format(wanted).unwrap(), FormatChange::Pending);
    client.deliver(Event::Bell);
    client.deliver(Event::Disconnected(None));
    assert!(matches!(client.set_format(wanted), Err(Error::Disconnected)));
    assert_eq!(client.format(), PixelFormat::new_rgb8888());
    assert!(matches!(client.poll_event(), Some(Event::Disconnected(None))));
    assert!(client.poll_event().is_none());
    assert!(matches!(client.set_format(wanted), Err(Error::Disconnected)));
    assert_eq!(client.format(), PixelFormat::new_rgb8888());
}

#[test]
fn format_change_on_a_session_that_is_over_fails_at_once() {
    let mut client = session();
    client.deliver(Event::Bell);
    client.deliver(Event::Disconnected(None));
    let wanted = PixelFormat::new_bgr8888();
    assert!(matches!(client.set_format(wanted), Err(Error::Disconnected)));
    assert!(client.take_outgoing().is_empty());
    assert!(matches!(client.poll_event(), Some(Event::Bell)));
    assert!(matches!(client.poll_event(), Some(Event::Disconnected(None))));
    assert!(matches!(client.set_format(wanted), Err(Error::Disconnected)));
    client.deliver(Event::PutPixels(Rect::new(0, 0, 0, 0), vec![]));
    assert!(matches!(client.set_format(wanted), Err(Error::Disconnected)));
    assert_eq!(client.format(), PixelFormat::new_rgb8888());
}

#[test]
fn format_change_does_not_wait_where_the_end_was_polled_away() {
    let mut client = session();
    let wanted = PixelFormat::new_bgr8888();
    assert_eq!(client.set_format(wanted).unwrap(), FormatChange::Pending);
    client.deliver(Event::Disconnected(Some(Error::Unexpected("gone"))));
    assert!(matches!(client.poll_event(), Some(Event::Disconnected(Some(_)))));
    assert!(matches!(client.set_format(wanted), Err(Error::Disconnected)));
    assert_eq!(client.format(), PixelFormat::new_rgb8888());
}

#[test]
fn builder_announces_raw_and_what_is_switched_on() {
    assert_eq!(Builder::new().encodings(), vec![Encoding::Raw]);
    assert!(!Builder::new().shared);
    let builder = Builder::new().copy_rect(true).set_cursor(true).resize(true).shared(true);
    assert!(builder.shared);
    assert_eq!(
        builder.encodings(),
        vec![Encoding::CopyRect, Encoding::Raw, Encoding::Cursor, Encoding::DesktopSize]
    );
    assert_eq!(
        Builder::new().zrle(true).resize(true).encodings(),
        vec![Encoding::Zrle, Encoding::Raw, Encoding::DesktopSize]
    );
    assert_eq!(builder.copy_rect(false).set_cursor(false).resize(false).encodings(), vec![Encoding::Raw]);
}

#[test]
fn nothing_follows_the_end_of_the_session() {
    let mut client = session();
    assert!(!client.is_closed());
    client.deliver(Event::Bell);
    client.deliver(Event::Disconnected(Some(Error::Io(IoError::Other))));
    assert!(client.is_closed());
    client.deliver(Event::Bell);
    client.deliver(Event::Disconnected(None));
    assert!(matches!(client.poll_event(), Some(Event::Bell)));
    assert!(matches!(
        client.poll_event(),
        Some(Event::Disconnected(Some(Error::Io(IoError::Other))))
    ));
    assert!(client.poll_event().is_none());
    client.deliver(Event::Resize(1, 1));
    assert!(client.poll_event().is_none());
    assert!(client.is_closed());
    assert_eq!(client.size(), (4, 3));
}

#[test]
fn compressed_data_that_breaks_off_is_told_from_a_message_that_is_not_whole() {
    let mut compressor = Compress::new(Compression::default(), true);
    let mut compressed = Vec::with_capacity(64);
    compressor.compress_vec(&[0x00, 1, 2], &mut compressed, FlushCompress::Sync).unwrap();
    let mut bytes = vec![0, 0, 0, 1];
    bytes.extend_from_slice(&[0, 0, 0, 0, 0, 1, 0, 1, 0, 0, 0, 16]);
    bytes.extend_from_slice(&(compressed.len() as u32).to_be_bytes());
    bytes.extend_from_slice(&compressed);
    let format = PixelFormat::new_rgb8888();
    let mut reader = Reader::new(&bytes);
    let message = vnc::protocol::ServerMessage::read_from(&mut reader, &format).unwrap();
    assert_eq!(reader.position(), bytes.len());
    let mut decoder = Decoder::new();
    let delivery = Event::of_message(message, format, &mut decoder);
    assert!(delivery.events.is_empty());
    assert!(matches!(delivery.failure, Some(Error::Io(IoError::UnexpectedEof))));
}

#[test]
fn events_before_a_rectangle_that_fails_are_delivered_with_the_failure() {
    let mut compressor = Compress::new(Compression::default(), true);
    let mut good = Vec::with_capacity(64);
    compressor.compress_vec(&[0x01, 1, 2, 3], &mut good, FlushCompress::Sync).unwrap();
    let mut bad = Vec::with_capacity(64);
    compressor.compress_vec(&[17], &mut bad, FlushCompress::Sync).unwrap();
    let mut bytes = vec![0, 0, 0, 4];
    bytes.extend_from_slice(&[0, 0, 0, 0, 0, 1, 0, 1, 0, 0, 0, 0, 5, 6, 7, 8]);
    bytes.extend_from_slice(&[0, 2, 0, 3, 0, 1, 0, 1, 0, 0, 0, 16]);
    bytes.extend_from_slice(&(good.len() as u32).to_be_bytes());
    bytes.extend_from_slice(&good);
    bytes.extend_from_slice(&[0, 0, 0, 0, 0, 1, 0, 1, 0, 0, 0, 16]);
    bytes.extend_from_slice(&(bad.len() as u32).to_be_bytes());
    bytes.extend_from_slice(&bad);
    bytes.extend_from_slice(&[0, 0, 0, 0, 0, 1, 0, 1, 0, 0, 0, 0, 9, 9, 9, 9]);
    let format = PixelFormat::new_rgb8888();
    let mut decoder = Decoder::new();
    let mut reader = Reader::new(&bytes);
    let delivery = Event::pump(&mut reader, format, &mut decoder).unwrap();
    assert_eq!(reader.position(), bytes.len());
    assert!(matches!(delivery.failure, Some(Error::Io(IoError::UnexpectedEof))));
    assert_eq!(delivery.events.len(), 2);
    assert!(matches!(
        &delivery.events[0],
        Event::PutPixels(rect, pixels) if *rect == Rect::new(0, 0, 1, 1) && pixels == &vec![5, 6, 7, 8]
    ));
    assert!(matches!(
        &delivery.events[1],
        Event::PutPixels(rect, pixels) if *rect == Rect::new(2, 3, 1, 1) && pixels == &vec![0, 1, 2, 3]
    ));
}

#[test]
fn a_message_without_compressed_rectangles_never_fails_once_it_is_read() {
    let mut bytes = vec![0, 0, 0, 2];
    bytes.extend_from_slice(&[0, 0, 0, 0, 0, 1, 0, 1, 0, 0, 0, 0, 5, 6, 7, 8]);
    bytes.extend_from_slice(&[0, 1, 0, 2, 0, 3, 0, 4, 0, 0, 0, 1, 0, 9, 0, 8]);
    let mut decoder = Decoder::new();
    let mut reader = Reader::new(&bytes);
    let delivery = Event::pump(&mut reader, PixelFormat::new_rgb8888(), &mut decoder).unwrap();
    assert!(delivery.failure.is_none());
    assert_eq!(delivery.events.len(), 2);
    assert!(matches!(
        &delivery.events[1],
        Event::CopyPixels { src, dst }
            if *src == Rect::new(9, 8, 3, 4) && *dst == Rect::new(1, 2, 3, 4)
    ));
}
