use vnc::protocol::PixelFormat;
use vnc::server::{Update, ValidationData};
use vnc::Rect;

/// Checks if `ValidationData` correctly converts bits per pixel from `PixelFormat` to bytes
/// per pixel.
#[test]
fn check_if_validation_data_correctly_rounds_bits_to_bytes() {
    let mut format = PixelFormat::new_rgb8888();
    let test_data = vec![(8, 1), (23, 3), (24, 3), (25, 4), (31, 4), (32, 4), (33, 5)];
    for (bits, expected_bytes) in test_data {
        format.bits_per_pixel = bits;
        let data = ValidationData::new(&format);
        assert_eq!(data.bytes_per_pixel, expected_bytes);
    }
}

/// Checks if `Update::Raw` accepts valid data both in case of very small and big buffer which
/// could cause `u16` overflow.
#[test]
fn check_if_raw_update_accepts_valid_data() {
    let data = vec![0; 4 * 800 * 100];
    let pixel_format = PixelFormat::new_rgb8888();
    let validation_data = ValidationData::new(&pixel_format);

    // Small rectangle
    assert!(Update::Raw { rect: Rect::new(0, 0, 8, 8), pixel_data: &data[0..(4 * 8 * 8)] }
        .is_valid(&validation_data));

    // Big rectangle (bigger than `u16::MAX`)
    assert!(Update::Raw { rect: Rect::new(0, 0, 800, 100), pixel_data: &data }
        .is_valid(&validation_data));

    Update::Raw { rect: Rect::new(0, 0, 8, 8), pixel_data: &data[0..(4 * 8 * 8)] }
        .check(&validation_data);
    Update::Raw { rect: Rect::new(0, 0, 800, 100), pixel_data: &data }.check(&validation_data);
}

/// A raw update with too few bytes for its rectangle is not valid.
#[test]
fn raw_update_with_too_few_bytes_is_not_valid() {
    let data = vec![0; 5];
    let pixel_format = PixelFormat::new_rgb8888();
    let validation_data = ValidationData::new(&pixel_format);

    assert!(!Update::Raw { rect: Rect::new(0, 0, 8, 8), pixel_data: &data }
        .is_valid(&validation_data));
}

/// Checks if `Update::SetCursor` accepts valid data both in case of very small and big buffer
/// which could cause `u16` overflow.
#[test]
fn check_if_set_cursor_update_accepts_valid_data() {
    let data = vec![0; 4 * 800 * 100];
    let pixel_format = PixelFormat::new_rgb8888();
    let validation_data = ValidationData::new(&pixel_format);

    // Small rectangle
    assert!(Update::SetCursor {
        size: (8, 8),
        hotspot: (0, 0),
        pixels: &data[0..(4 * 8 * 8)],
        mask_bits: &data[0..8],
    }
    .is_valid(&validation_data));

    // Big rectangle (bigger than `u16::MAX`)
    assert!(Update::SetCursor {
        size: (800, 100),
        hotspot: (0, 0),
        pixels: &data,
        mask_bits: &data[0..10000],
    }
    .is_valid(&validation_data));

    Update::SetCursor {
        size: (8, 8),
        hotspot: (0, 0),
        pixels: &data[0..(4 * 8 * 8)],
        mask_bits: &data[0..8],
    }
    .check(&validation_data);
    Update::SetCursor {
        size: (800, 100),
        hotspot: (0, 0),
        pixels: &data,
        mask_bits: &data[0..10000],
    }
    .check(&validation_data);
}

/// A cursor with too few bytes of pixels is not valid.
#[test]
fn cursor_update_with_too_few_pixel_bytes_is_not_valid() {
    let data = vec![0; 15];
    let pixel_format = PixelFormat::new_rgb8888();
    let validation_data = ValidationData::new(&pixel_format);

    assert!(!Update::SetCursor {
        size: (8, 8),
        hotspot: (0, 0),
        pixels: &data,
        mask_bits: &data[0..8],
    }
    .is_valid(&validation_data));
}

/// A cursor with too few bytes of bit mask is not valid.
#[test]
fn cursor_update_with_too_short_a_mask_is_not_valid() {
    let data = vec![0; 16];
    let pixel_format = PixelFormat::new_rgb8888();
    let validation_data = ValidationData::new(&pixel_format);

    assert!(!Update::SetCursor {
        size: (8, 8),
        hotspot: (0, 0),
        pixels: &data,
        mask_bits: &data[0..7],
    }
    .is_valid(&validation_data));
}

use vnc::client::handshake::HandshakeState as ClientHandshake;
use vnc::client::{AuthChoice, Client};
use vnc::protocol::{
    CopyRect, Encoding, Message, Payload, Rectangle, RectangleHeader, ServerInit, ServerMessage,
};
use vnc::server::handshake::HandshakeState;
use vnc::server::{Event, FramebufferUpdate, Server};
use vnc::wire::Reader;
use vnc::{Error, IoError};

fn header(x: u16, y: u16, width: u16, height: u16, encoding: Encoding) -> RectangleHeader {
    RectangleHeader { x_position: x, y_position: y, width, height, encoding }
}

#[test]
fn builder_frames_each_kind_of_update() {
    let pixels = [1u8, 2, 3, 4, 5, 6, 7, 8];
    let zlib = [9u8, 8, 7];
    let cursor = [5u8; 8];
    let mask = [0xC0u8];
    let mut update = FramebufferUpdate::new();
    update
        .add_raw_pixels(Rect::new(0, 0, 2, 1), &pixels)
        .add_copy_rect(Rect::new(10, 20, 5, 5), 100, 200)
        .add_compressed_pixels(Rect::new(1, 1, 64, 64), &zlib)
        .add_cursor(2, 1, 7, 8, &cursor, &mask)
        .add_desktop_size(800, 600)
        .add_pseudo_encoding(Encoding::ExtendedKeyEvent);
    assert_eq!(update.len(), 6);
    let validation = ValidationData::new(&PixelFormat::new_rgb8888());
    assert!(update.is_valid(&validation));
    let mut bytes = vec![0xEE];
    update.write_to(&mut bytes).unwrap();
    let mut expected = vec![0xEE, 0, 0, 0, 6];
    expected.extend_from_slice(&[0, 0, 0, 0, 0, 2, 0, 1, 0, 0, 0, 0, 1, 2, 3, 4, 5, 6, 7, 8]);
    expected.extend_from_slice(&[0, 10, 0, 20, 0, 5, 0, 5, 0, 0, 0, 1, 0, 100, 0, 200]);
    expected.extend_from_slice(&[0, 1, 0, 1, 0, 64, 0, 64, 0, 0, 0, 16, 0, 0, 0, 3, 9, 8, 7]);
    expected.extend_from_slice(&[0, 7, 0, 8, 0, 2, 0, 1, 0xFF, 0xFF, 0xFF, 0x11]);
    expected.extend_from_slice(&cursor);
    expected.extend_from_slice(&mask);
    expected.extend_from_slice(&[0, 0, 0, 0, 3, 0x20, 2, 0x58, 0xFF, 0xFF, 0xFF, 0x21]);
    expected.extend_from_slice(&[0, 0, 0, 0, 0, 0, 0, 0, 0xFF, 0xFF, 0xFE, 0xFE]);
    assert_eq!(bytes, expected);
}

#[test]
fn framed_updates_parse_back_as_the_client_reads_them() {
    let pixels = [1u8, 2, 3, 4, 5, 6, 7, 8];
    let zlib = [9u8, 8, 7];
    let cursor = [5u8; 8];
    let mask = [0xC0u8];
    let mut update = FramebufferUpdate::new();
    update
        .add_raw_pixels(Rect::new(0, 0, 2, 1), &pixels)
        .add_copy_rect(Rect::new(10, 20, 5, 5), 100, 200)
        .add_compressed_pixels(Rect::new(1, 1, 64, 64), &zlib)
        .add_cursor(2, 1, 7, 8, &cursor, &mask)
        .add_desktop_size(800, 600);
    let format = PixelFormat::new_rgb8888();
    let mut server = Server::new(&format);
    assert!(update.is_valid(&server.validation_data()));
    let mut bytes = Vec::new();
    server.send_update(&update, &mut bytes).unwrap();
    bytes.push(2);
    let mut reader = Reader::new(&bytes);
    let message = ServerMessage::read_from(&mut reader, &format).unwrap();
    assert_eq!(reader.position(), bytes.len() - 1);
    assert_eq!(
        message,
        ServerMessage::FramebufferUpdate(vec![
            Rectangle { header: header(0, 0, 2, 1, Encoding::Raw), payload: Payload::Raw(pixels.to_vec()) },
            Rectangle {
                header: header(10, 20, 5, 5, Encoding::CopyRect),
                payload: Payload::CopyRect(CopyRect { src_x_position: 100, src_y_position: 200 }),
            },
            Rectangle { header: header(1, 1, 64, 64, Encoding::Zrle), payload: Payload::Zrle(zlib.to_vec()) },
            Rectangle {
                header: header(7, 8, 2, 1, Encoding::Cursor),
                payload: Payload::Cursor { pixels: cursor.to_vec(), mask_bits: mask.to_vec() },
            },
            Rectangle { header: header(0, 0, 800, 600, Encoding::DesktopSize), payload: Payload::DesktopSize },
        ])
    );
}

#[test]
fn updates_are_cut_into_messages_of_at_most_65535_rectangles() {
    let mut update = FramebufferUpdate::new();
    for i in 0..65537u32 {
        update.add_desktop_size((i % 65536) as u16, (i / 65536) as u16);
    }
    let mut bytes = Vec::new();
    update.write_to(&mut bytes).unwrap();
    assert_eq!(bytes.len(), 4 + 65535 * 12 + 4 + 2 * 12);
    assert_eq!(&bytes[..4], &[0, 0, 0xFF, 0xFF]);
    let second = 4 + 65535 * 12;
    assert_eq!(&bytes[second..second + 4], &[0, 0, 0, 2]);
    let format = PixelFormat::new_rgb8888();
    let mut reader = Reader::new(&bytes);
    let first = ServerMessage::read_from(&mut reader, &format).unwrap();
    assert!(matches!(&first, ServerMessage::FramebufferUpdate(list) if list.len() == 65535));
    assert_eq!(reader.position(), second);
    match ServerMessage::read_from(&mut reader, &format).unwrap() {
        ServerMessage::FramebufferUpdate(list) => {
            assert_eq!(list.len(), 2);
            assert_eq!(list[0].header, header(0, 0, 65535, 0, Encoding::DesktopSize));
            assert_eq!(list[1].header, header(0, 0, 0, 1, Encoding::DesktopSize));
        }
        other => panic!("{:?}", other),
    }
    assert_eq!(reader.available(), 0);
    let mut empty = Vec::new();
    FramebufferUpdate::new().write_to(&mut empty).unwrap();
    assert!(empty.is_empty());
}

#[test]
fn builder_finds_the_invalid_update() {
    let validation = ValidationData::new(&PixelFormat::new_rgb8888());
    let good = [0u8; 4];
    let bad = [0u8; 5];
    let mut update = FramebufferUpdate::new();
    update.add_raw_pixels(Rect::new(0, 0, 1, 1), &good).add_copy_rect(Rect::new(0, 0, 9, 9), 1, 1);
    assert!(update.is_valid(&validation));
    update.check(&validation);
    update.add_raw_pixels(Rect::new(0, 0, 1, 1), &bad);
    assert!(!update.is_valid(&validation));
    assert!(FramebufferUpdate::new().is_valid(&validation));
    assert!(Update::Zrle { rect: Rect::new(0, 0, 1, 1), zlib_data: &good }.is_valid(&validation));
    assert!(Update::DesktopSize { width: 1, height: 1 }.is_valid(&validation));
    assert!(Update::Encoding { encoding: Encoding::Cursor }.is_valid(&validation));
    assert!(Update::CopyRect { dst: Rect::new(0, 0, 1, 1), src_x_position: 0, src_y_position: 0 }
        .is_valid(&validation));
    assert!(Update::SetCursor { size: (9, 2), hotspot: (0, 0), pixels: &[0; 72], mask_bits: &[0; 4] }
        .is_valid(&validation));
    assert!(!Update::SetCursor { size: (9, 2), hotspot: (0, 0), pixels: &[0; 72], mask_bits: &[0; 3] }
        .is_valid(&validation));
    assert!(Update::Raw { rect: Rect::new(0, 0, 0, 7), pixel_data: &[] }.is_valid(&validation));
}

#[test]
fn validation_data_follows_the_pixel_format() {
    let mut format = PixelFormat::new_rgb8888();
    let mut data = ValidationData::new(&format);
    assert_eq!(data.bytes_per_pixel, 4);
    format.bits_per_pixel = 255;
    data.update(&format);
    assert_eq!(data.bytes_per_pixel, 32);
    format.bits_per_pixel = 0;
    data.update(&format);
    assert_eq!(data.bytes_per_pixel, 0);
    format.bits_per_pixel = 1;
    data.update(&format);
    assert_eq!(data.bytes_per_pixel, 1);
}

#[test]
fn server_reads_events_and_follows_the_pixel_format() {
    let mut server = Server::new(&PixelFormat::new_rgb8888());
    assert_eq!(server.validation_data().bytes_per_pixel, 4);
    let mut bytes = vec![3, 0, 0, 1, 0, 2, 0, 3, 0, 4];
    bytes.extend_from_slice(&[4, 1, 0, 0, 0, 0, 0, 0x41]);
    bytes.extend_from_slice(&[5, 4, 0, 7, 0, 8]);
    bytes.extend_from_slice(&[6, 0, 0, 0, 0, 0, 0, 1, b'c']);
    bytes.extend_from_slice(&[2, 0, 0, 1, 0, 0, 0, 5]);
    bytes.extend_from_slice(&[255, 0, 0, 0, 0, 0, 0, 1, 0, 0, 0, 2]);
    let mut format = PixelFormat::new_rgb8888();
    format.bits_per_pixel = 16;
    bytes.extend_from_slice(&[0, 0, 0, 0]);
    format.write_to(&mut bytes).unwrap();
    let mut reader = Reader::new(&bytes);
    assert_eq!(
        server.read_event(&mut reader).unwrap(),
        Event::FramebufferUpdateRequest { incremental: false, rect: Rect::new(1, 2, 3, 4) }
    );
    assert_eq!(server.read_event(&mut reader).unwrap(), Event::KeyEvent { down: true, key: 0x41 });
    assert_eq!(
        server.read_event(&mut reader).unwrap(),
        Event::PointerEvent { button_mask: 4, x_position: 7, y_position: 8 }
    );
    assert_eq!(server.read_event(&mut reader).unwrap(), Event::CutText(String::from("c")));
    assert_eq!(server.read_event(&mut reader).unwrap(), Event::SetEncodings(vec![Encoding::Hextile]));
    assert_eq!(
        server.read_event(&mut reader).unwrap(),
        Event::ExtendedKeyEvent { down: false, keysym: 1, keycode: 2 }
    );
    assert_eq!(server.validation_data().bytes_per_pixel, 4);
    assert_eq!(server.read_event(&mut reader).unwrap(), Event::SetPixelFormat(format));
    assert_eq!(server.validation_data().bytes_per_pixel, 2);
    assert!(matches!(server.read_event(&mut reader), Err(Error::Disconnected)));
    let mut reader = Reader::new(&[3, 0]);
    assert!(matches!(server.read_event(&mut reader), Err(Error::Io(IoError::UnexpectedEof))));
    let mut reader = Reader::new(&[9]);
    assert!(matches!(
        server.read_event(&mut reader),
        Err(Error::Unexpected("client to server message type"))
    ));
}

fn desk() -> ServerInit {
    ServerInit {
        framebuffer_width: 1024,
        framebuffer_height: 768,
        pixel_format: PixelFormat::new_bgr8888(),
        name: String::from("desk"),
    }
}

#[test]
fn server_handshake_offers_no_authentication() {
    assert_eq!(HandshakeState::greeting(), b"RFB 003.008\n");
    let init = desk();
    let mut init_bytes = Vec::new();
    init.write_to(&mut init_bytes).unwrap();

    let state = HandshakeState::start();
    let step = state.advance(b"RFB 003.008\n", &init).unwrap();
    assert_eq!((step.consumed, &step.reply[..]), (12, &[1u8, 1][..]));
    let step = step.state.advance(&[1], &init).unwrap();
    assert_eq!((step.consumed, &step.reply[..]), (1, &[0u8, 0, 0, 0][..]));
    let step = step.state.advance(&[1], &init).unwrap();
    assert_eq!(step.reply, init_bytes);
    assert_eq!(step.state, HandshakeState::Done { shared: true });
    assert!(matches!(step.state.advance(&[0], &init), Err(Error::Unexpected("handshake step"))));

    let step = state.advance(b"RFB 003.007\n", &init).unwrap();
    assert_eq!(step.reply, vec![1, 1]);
    let step = step.state.advance(&[1], &init).unwrap();
    assert!(step.reply.is_empty());
    let step = step.state.advance(&[0], &init).unwrap();
    assert_eq!(step.state, HandshakeState::Done { shared: false });

    let step = state.advance(b"RFB 003.003\n", &init).unwrap();
    assert_eq!(step.reply, vec![0, 0, 0, 1]);
    assert_eq!(step.state, HandshakeState::Init);

    assert!(matches!(state.advance(b"RFB 003.0", &init), Err(Error::Io(IoError::UnexpectedEof))));
    assert!(matches!(state.advance(b"RFB 009.000\n", &init), Err(Error::Unexpected("protocol version"))));
    assert!(matches!(
        HandshakeState::Init.advance(&[], &init),
        Err(Error::Io(IoError::UnexpectedEof))
    ));
}

#[test]
fn client_and_server_agree_on_the_handshake() {
    for version in [&b"RFB 003.003\n"[..], b"RFB 003.007\n", b"RFB 003.008\n"] {
        let init = desk();
        let mut to_client: Vec<u8> = version.to_vec();
        let mut to_server: Vec<u8> = Vec::new();
        let mut client = ClientHandshake::start();
        let mut server = HandshakeState::start();
        let mut rounds = 0;
        let session = loop {
            rounds += 1;
            assert!(rounds < 50);
            if let ClientHandshake::Done(init) = client {
                break Client::from_server_init(init);
            }
            let step = match client {
                ClientHandshake::Choice { .. } => client.select(Some(AuthChoice::NoAuthentication), true),
                _ => client.advance(&to_client, true, &[]),
            };
            match step {
                Ok(step) => {
                    to_client.drain(..step.consumed);
                    to_server.extend_from_slice(&step.reply);
                    client = step.state;
                }
                Err(Error::Io(IoError::UnexpectedEof)) => {}
                Err(other) => panic!("{:?}", other),
            }
            match server.advance(&to_server, &init) {
                Ok(step) => {
                    to_server.drain(..step.consumed);
                    to_client.extend_from_slice(&step.reply);
                    server = step.state;
                }
                Err(Error::Io(IoError::UnexpectedEof)) | Err(Error::Unexpected("handshake step")) => {}
                Err(other) => panic!("{:?}", other),
            }
        };
        assert_eq!(server, HandshakeState::Done { shared: true });
        assert_eq!(session.name(), "desk");
        assert_eq!(session.size(), (1024, 768));
        assert_eq!(session.format(), PixelFormat::new_bgr8888());
        assert!(to_client.is_empty() && to_server.is_empty());
    }
}
