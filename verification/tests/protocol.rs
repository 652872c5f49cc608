use vnc::protocol::{
    AppleAuthHandshake, AppleAuthResponse, ClientInit, Colour, CopyRect, Encoding, Message,
    Payload, PixelFormat, Rectangle, RectangleHeader, SecurityResult, SecurityType, SecurityTypes,
    ServerInit, ServerMessage, Version, C2S, S2C,
};
use vnc::wire::Reader;
use vnc::{Error, IoError, Rect};

fn encode<M: Message>(message: &M) -> Vec<u8> {
    let mut out = Vec::new();
    message.write_to(&mut out).unwrap();
    out
}

fn decode<M: Message>(bytes: &[u8]) -> Result<(M, usize), Error> {
    let mut reader = Reader::new(bytes);
    let message = M::read_from(&mut reader)?;
    Ok((message, reader.position()))
}

fn round_trip<M: Message + PartialEq + std::fmt::Debug>(message: M, expected: &[u8]) {
    let bytes = encode(&message);
    assert_eq!(bytes, expected);
    let mut longer = bytes.clone();
    longer.extend_from_slice(&[0xAA, 0xBB]);
    let (back, used) = decode::<M>(&longer).unwrap();
    assert_eq!(back, message);
    assert_eq!(used, bytes.len());
    for cut in 0..bytes.len() {
        match decode::<M>(&bytes[..cut]) {
            Err(Error::Io(IoError::UnexpectedEof)) | Err(Error::Disconnected) => {}
            other => panic!("cut at {}: {:?}", cut, other.map(|(_, n)| n)),
        }
    }
}

#[test]
fn pixel_format_takes_sixteen_bytes_with_three_of_padding() {
    let bytes = encode(&PixelFormat::new_rgb8888());
    assert_eq!(bytes.len(), 16);
    assert_eq!(&bytes[13..], &[0, 0, 0]);
    assert_eq!(bytes, vec![32, 24, 1, 1, 0, 255, 0, 255, 0, 255, 0, 8, 16, 0, 0, 0]);
    let bytes = encode(&PixelFormat::new_bgr8888());
    assert_eq!(bytes, vec![32, 24, 1, 1, 0, 255, 0, 255, 0, 255, 16, 8, 0, 0, 0, 0]);
    let odd = PixelFormat {
        bits_per_pixel: 16,
        depth: 15,
        big_endian: false,
        true_colour: false,
        red_max: 0x1234,
        green_max: 0xFFFF,
        blue_max: 1,
        red_shift: 200,
        green_shift: 5,
        blue_shift: 0,
    };
    round_trip(odd, &[16, 15, 0, 0, 0x12, 0x34, 0xFF, 0xFF, 0, 1, 200, 5, 0, 0, 0, 0]);
}

#[test]
fn pixel_format_reads_any_nonzero_flag_as_set_and_passes_over_padding() {
    let bytes = [8, 8, 7, 0, 0, 7, 0, 7, 0, 3, 0, 3, 6, 9, 9, 9];
    let (format, used) = decode::<PixelFormat>(&bytes).unwrap();
    assert_eq!(used, 16);
    assert!(format.big_endian);
    assert!(!format.true_colour);
    assert_eq!(format.blue_shift, 6);
}

#[test]
fn constructors_give_the_two_common_formats() {
    let rgb = PixelFormat::new_rgb8888();
    assert_eq!((rgb.red_shift, rgb.green_shift, rgb.blue_shift), (0, 8, 16));
    let bgr = PixelFormat::new_bgr8888();
    assert_eq!((bgr.red_shift, bgr.green_shift, bgr.blue_shift), (16, 8, 0));
    assert_eq!(rgb.bits_per_pixel, 32);
    assert_eq!(rgb.depth, 24);
    assert!(rgb.big_endian && rgb.true_colour);
    assert_eq!((rgb.red_max, rgb.green_max, rgb.blue_max), (255, 255, 255));
}

#[test]
fn latin1_text_round_trips_byte_for_byte() {
    let all: Vec<u8> = (0..=255u8).collect();
    let mut wire = vec![0, 0, 1, 0];
    wire.extend_from_slice(&all);
    let (text, used) = decode::<String>(&wire).unwrap();
    assert_eq!(used, 260);
    assert_eq!(text.chars().count(), 256);
    for (i, c) in text.chars().enumerate() {
        assert_eq!(c as u32, i as u32);
    }
    assert_eq!(encode(&text), wire);
    round_trip(String::from("caf\u{e9}"), &[0, 0, 0, 4, b'c', b'a', b'f', 0xE9]);
    round_trip(String::new(), &[0, 0, 0, 0]);
}

#[test]
fn text_beyond_latin1_keeps_its_low_bits() {
    let bytes = encode(&String::from("\u{20AC}a"));
    assert_eq!(bytes, vec![0, 0, 0, 2, 0xAC, b'a']);
}

#[test]
fn byte_strings_are_length_prefixed() {
    round_trip(vec![1u8, 2, 3], &[0, 0, 0, 3, 1, 2, 3]);
    let long = vec![7u8; 0x0102];
    let bytes = encode(&long);
    assert_eq!(&bytes[..4], &[0, 0, 1, 2]);
    assert_eq!(bytes.len(), 4 + 0x0102);
}

#[test]
fn versions_are_twelve_bytes() {
    round_trip(Version::Rfb33, b"RFB 003.003\n");
    round_trip(Version::Rfb37, b"RFB 003.007\n");
    round_trip(Version::Rfb38, b"RFB 003.008\n");
    let (apple, used) = decode::<Version>(b"RFB 003.889\n").unwrap();
    assert_eq!(apple, Version::Rfb38);
    assert_eq!(used, 12);
    assert_eq!(encode(&apple), b"RFB 003.008\n");
    for bad in [&b"RFB 003.009\n"[..], b"RFB 004.008\n", b"rfb 003.008\n", b"RFB 003.008\r"] {
        assert!(matches!(decode::<Version>(bad), Err(Error::Unexpected("protocol version"))));
    }
}

#[test]
fn security_types_keep_unknown_numbers() {
    round_trip(SecurityType::Invalid, &[0]);
    round_trip(SecurityType::NoAuthentication, &[1]);
    round_trip(SecurityType::VncAuthentication, &[2]);
    round_trip(SecurityType::AppleRemoteDesktop, &[30]);
    round_trip(SecurityType::Unknown(19), &[19]);
    round_trip(SecurityType::Unknown(255), &[255]);
    assert_eq!(SecurityType::from_code(2), SecurityType::VncAuthentication);
    assert_eq!(SecurityType::Unknown(5).to_code(), 5);
    round_trip(
        SecurityTypes(vec![SecurityType::VncAuthentication, SecurityType::Unknown(16)]),
        &[2, 2, 16],
    );
    round_trip(SecurityTypes(vec![]), &[0]);
}

#[test]
fn security_result_is_zero_or_one() {
    round_trip(SecurityResult::Succeeded, &[0, 0, 0, 0]);
    round_trip(SecurityResult::Failed, &[0, 0, 0, 1]);
    assert!(matches!(
        decode::<SecurityResult>(&[0, 0, 0, 2]),
        Err(Error::Unexpected("security result"))
    ));
    assert!(matches!(
        decode::<SecurityResult>(&[1, 0, 0, 0]),
        Err(Error::Unexpected("security result"))
    ));
}

#[test]
fn client_init_is_one_flag() {
    round_trip(ClientInit { shared: true }, &[1]);
    round_trip(ClientInit { shared: false }, &[0]);
    let (init, _) = decode::<ClientInit>(&[9]).unwrap();
    assert!(init.shared);
}

#[test]
fn server_init_carries_size_format_and_name() {
    let init = ServerInit {
        framebuffer_width: 640,
        framebuffer_height: 480,
        pixel_format: PixelFormat::new_rgb8888(),
        name: String::from("x"),
    };
    let mut expected = vec![0x02, 0x80, 0x01, 0xE0];
    expected.extend_from_slice(&encode(&PixelFormat::new_rgb8888()));
    expected.extend_from_slice(&[0, 0, 0, 1, b'x']);
    round_trip(init, &expected);
}

#[test]
fn encodings_keep_unknown_numbers() {
    round_trip(Encoding::Raw, &[0, 0, 0, 0]);
    round_trip(Encoding::CopyRect, &[0, 0, 0, 1]);
    round_trip(Encoding::Rre, &[0, 0, 0, 2]);
    round_trip(Encoding::Hextile, &[0, 0, 0, 5]);
    round_trip(Encoding::Zrle, &[0, 0, 0, 16]);
    round_trip(Encoding::Cursor, &[0xFF, 0xFF, 0xFF, 0x11]);
    round_trip(Encoding::DesktopSize, &[0xFF, 0xFF, 0xFF, 0x21]);
    round_trip(Encoding::ExtendedKeyEvent, &[0xFF, 0xFF, 0xFE, 0xFE]);
    round_trip(Encoding::Unknown(7), &[0, 0, 0, 7]);
    round_trip(Encoding::Unknown(-1), &[0xFF, 0xFF, 0xFF, 0xFF]);
    round_trip(Encoding::Unknown(i32::MIN), &[0x80, 0, 0, 0]);
    round_trip(Encoding::Unknown(i32::MAX), &[0x7F, 0xFF, 0xFF, 0xFF]);
    assert_eq!(Encoding::from_code(-239), Encoding::Cursor);
    assert_eq!(Encoding::DesktopSize.to_code(), -223);
}

#[test]
fn small_records_are_big_endian() {
    round_trip(CopyRect { src_x_position: 100, src_y_position: 200 }, &[0, 100, 0, 200]);
    round_trip(CopyRect { src_x_position: 0x1234, src_y_position: 0xFFFE }, &[0x12, 0x34, 0xFF, 0xFE]);
    round_trip(Colour { red: 0x0102, green: 0x0304, blue: 0x0506 }, &[1, 2, 3, 4, 5, 6]);
    round_trip(Rect::new(1, 2, 0x0300, 4), &[0, 1, 0, 2, 3, 0, 0, 4]);
    assert_eq!(Rect::new_empty(), Rect::new(0, 0, 0, 0));
    round_trip(
        RectangleHeader {
            x_position: 10,
            y_position: 20,
            width: 5,
            height: 0x0105,
            encoding: Encoding::CopyRect,
        },
        &[0, 10, 0, 20, 0, 5, 1, 5, 0, 0, 0, 1],
    );
}

#[test]
fn client_messages_round_trip() {
    let mut expected = vec![0, 0, 0, 0];
    expected.extend_from_slice(&encode(&PixelFormat::new_bgr8888()));
    round_trip(C2S::SetPixelFormat(PixelFormat::new_bgr8888()), &expected);
    round_trip(
        C2S::SetEncodings(vec![Encoding::Zrle, Encoding::Raw, Encoding::Cursor, Encoding::Unknown(-7)]),
        &[
            2, 0, 0, 4, 0, 0, 0, 16, 0, 0, 0, 0, 0xFF, 0xFF, 0xFF, 0x11, 0xFF, 0xFF, 0xFF, 0xF9,
        ],
    );
    round_trip(C2S::SetEncodings(vec![]), &[2, 0, 0, 0]);
    round_trip(
        C2S::FramebufferUpdateRequest {
            incremental: true,
            x_position: 1,
            y_position: 2,
            width: 640,
            height: 480,
        },
        &[3, 1, 0, 1, 0, 2, 0x02, 0x80, 0x01, 0xE0],
    );
    round_trip(C2S::KeyEvent { down: true, key: 0xFF0D }, &[4, 1, 0, 0, 0, 0, 0xFF, 0x0D]);
    round_trip(C2S::KeyEvent { down: false, key: 0x0102_0304 }, &[4, 0, 0, 0, 1, 2, 3, 4]);
    round_trip(
        C2S::PointerEvent { button_mask: 0x81, x_position: 300, y_position: 2 },
        &[5, 0x81, 0x01, 0x2C, 0, 2],
    );
    round_trip(C2S::CutText(String::from("hi")), &[6, 0, 0, 0, 0, 0, 0, 2, b'h', b'i']);
    round_trip(
        C2S::ExtendedKeyEvent { down: true, keysym: 0x61, keycode: 0x1E },
        &[255, 0, 0, 1, 0, 0, 0, 0x61, 0, 0, 0, 0x1E],
    );
    round_trip(
        C2S::ExtendedKeyEvent { down: false, keysym: 0xFFFF_FFFF, keycode: 0 },
        &[255, 0, 0, 0, 0xFF, 0xFF, 0xFF, 0xFF, 0, 0, 0, 0],
    );
}

#[test]
fn client_messages_reject_what_the_protocol_does_not_define() {
    assert!(matches!(decode::<C2S>(&[]), Err(Error::Disconnected)));
    assert!(matches!(decode::<C2S>(&[1, 0, 0, 0]), Err(Error::Unexpected("client to server message type"))));
    assert!(matches!(decode::<C2S>(&[7]), Err(Error::Unexpected("client to server message type"))));
    assert!(matches!(
        decode::<C2S>(&[255, 1]),
        Err(Error::Unexpected("server to client QEMU submessage type"))
    ));
    assert!(matches!(decode::<C2S>(&[255]), Err(Error::Io(IoError::UnexpectedEof))));
    assert!(matches!(decode::<C2S>(&[2, 0, 0, 2, 0, 0, 0, 0]), Err(Error::Io(IoError::UnexpectedEof))));
    let (message, used) = decode::<C2S>(&[3, 2, 0, 0, 0, 0, 0, 1, 0, 1]).unwrap();
    assert_eq!(used, 10);
    assert_eq!(
        message,
        C2S::FramebufferUpdateRequest {
            incremental: true,
            x_position: 0,
            y_position: 0,
            width: 1,
            height: 1
        }
    );
    let (message, _) = decode::<C2S>(&[4, 0, 9, 9, 0, 0, 0, 1]).unwrap();
    assert_eq!(message, C2S::KeyEvent { down: false, key: 1 });
    let (message, _) = decode::<C2S>(&[255, 0, 1, 0, 0, 0, 0, 1, 0, 0, 0, 2]).unwrap();
    assert_eq!(message, C2S::ExtendedKeyEvent { down: true, keysym: 1, keycode: 2 });
}

#[test]
fn server_messages_round_trip() {
    round_trip(S2C::FramebufferUpdate { count: 0x0102 }, &[0, 0, 1, 2]);
    round_trip(
        S2C::SetColourMapEntries {
            first_colour: 3,
            colours: vec![
                Colour { red: 1, green: 2, blue: 3 },
                Colour { red: 0xFFFF, green: 0, blue: 0x8000 },
            ],
        },
        &[1, 0, 0, 3, 0, 2, 0, 1, 0, 2, 0, 3, 0xFF, 0xFF, 0, 0, 0x80, 0],
    );
    round_trip(S2C::SetColourMapEntries { first_colour: 0, colours: vec![] }, &[1, 0, 0, 0, 0, 0]);
    round_trip(S2C::Bell, &[2]);
    round_trip(S2C::CutText(String::from("\u{fc}ber")), &[3, 0, 0, 0, 0, 0, 0, 4, 0xFC, b'b', b'e', b'r']);
    assert!(matches!(decode::<S2C>(&[]), Err(Error::Disconnected)));
    assert!(matches!(decode::<S2C>(&[4]), Err(Error::Unexpected("server to client message type"))));
    assert!(matches!(decode::<S2C>(&[0, 0, 0]), Err(Error::Io(IoError::UnexpectedEof))));
}

#[test]
fn apple_handshake_round_trips() {
    round_trip(
        AppleAuthHandshake { generator: 2, prime: vec![0xFF, 0xFB], peer_key: vec![0x12, 0x34] },
        &[0, 2, 0, 2, 0xFF, 0xFB, 0x12, 0x34],
    );
    let response = AppleAuthResponse { ciphertext: [7; 128], pub_key: vec![1, 2, 3] };
    let mut bytes = Vec::new();
    response.write_to(&mut bytes).unwrap();
    assert_eq!(bytes.len(), 131);
    assert_eq!(&bytes[..128], &[7u8; 128][..]);
    assert_eq!(&bytes[128..], &[1, 2, 3]);
    let mut reader = Reader::new(&bytes);
    let back = AppleAuthResponse::read_from(&mut reader, 3).unwrap();
    assert_eq!(back, response);
    assert_eq!(reader.position(), 131);
    let mut reader = Reader::new(&bytes);
    assert!(matches!(
        AppleAuthResponse::read_from(&mut reader, 4),
        Err(Error::Io(IoError::UnexpectedEof))
    ));
}

#[test]
fn reader_leaves_the_cursor_where_a_read_fails() {
    let bytes = [1u8, 2, 3];
    let mut reader = Reader::new(&bytes);
    assert_eq!(reader.available(), 3);
    assert_eq!(reader.read_u16().unwrap(), 0x0102);
    assert!(matches!(reader.read_u16(), Err(Error::Io(IoError::UnexpectedEof))));
    assert!(matches!(reader.read_u32(), Err(Error::Io(IoError::UnexpectedEof))));
    assert!(matches!(reader.read_i32(), Err(Error::Io(IoError::UnexpectedEof))));
    assert!(matches!(reader.read_bytes(2), Err(Error::Io(IoError::UnexpectedEof))));
    assert!(matches!(reader.skip(2), Err(Error::Io(IoError::UnexpectedEof))));
    assert_eq!(reader.position(), 2);
    assert_eq!(reader.read_u8().unwrap(), 3);
    assert!(matches!(reader.read_u8(), Err(Error::Io(IoError::UnexpectedEof))));
    let bytes = [0xFFu8, 0xFF, 0xFF, 0x11, 0x80, 0, 0, 1, 9, 9];
    let mut reader = Reader::new(&bytes);
    assert_eq!(reader.read_i32().unwrap(), -239);
    assert_eq!(reader.read_u32().unwrap(), 0x8000_0001);
    reader.skip(1).unwrap();
    assert_eq!(reader.read_bytes(1).unwrap(), vec![9]);
    assert_eq!(reader.available(), 0);
}

#[test]
fn integers_are_written_most_significant_byte_first() {
    let mut out = vec![0xEE];
    vnc::wire::put_u8(&mut out, 1);
    vnc::wire::put_u16(&mut out, 0x0203);
    vnc::wire::put_u32(&mut out, 0x0405_0607);
    vnc::wire::put_i32(&mut out, -2);
    vnc::wire::put_zeros(&mut out, 2);
    vnc::wire::put_bytes(&mut out, &[8, 9]);
    assert_eq!(out, vec![0xEE, 1, 2, 3, 4, 5, 6, 7, 0xFF, 0xFF, 0xFF, 0xFE, 0, 0, 8, 9]);
    assert_eq!(vnc::wire::reversed(vec![1, 2, 3]), vec![3, 2, 1]);
}

fn header(x: u16, y: u16, width: u16, height: u16, encoding: Encoding) -> RectangleHeader {
    RectangleHeader { x_position: x, y_position: y, width, height, encoding }
}

#[test]
fn rectangles_carry_the_payload_that_their_encoding_asks_for() {
    let format = PixelFormat::new_rgb8888();
    let cases = vec![
        Rectangle { header: header(0, 0, 2, 1, Encoding::Raw), payload: Payload::Raw(vec![1, 2, 3, 4, 5, 6, 7, 8]) },
        Rectangle {
            header: header(10, 20, 5, 5, Encoding::CopyRect),
            payload: Payload::CopyRect(CopyRect { src_x_position: 100, src_y_position: 200 }),
        },
        Rectangle { header: header(1, 1, 64, 64, Encoding::Zrle), payload: Payload::Zrle(vec![9, 8, 7]) },
        Rectangle {
            header: header(3, 4, 9, 2, Encoding::Cursor),
            payload: Payload::Cursor { pixels: vec![5; 72], mask_bits: vec![0xF0, 0x80, 0xFF, 0x00] },
        },
        Rectangle { header: header(0, 0, 800, 600, Encoding::DesktopSize), payload: Payload::DesktopSize },
    ];
    for rectangle in cases {
        let mut bytes = Vec::new();
        rectangle.write_to(&mut bytes).unwrap();
        let mut longer = bytes.clone();
        longer.push(0x55);
        let mut reader = Reader::new(&longer);
        let back = Rectangle::read_from(&mut reader, &format).unwrap();
        assert_eq!(back, rectangle);
        assert_eq!(reader.position(), bytes.len());
        if bytes.len() > 12 {
            let mut reader = Reader::new(&bytes[..bytes.len() - 1]);
            assert!(matches!(
                Rectangle::read_from(&mut reader, &format),
                Err(Error::Io(IoError::UnexpectedEof))
            ));
        }
    }
    for encoding in [Encoding::Rre, Encoding::Hextile, Encoding::ExtendedKeyEvent, Encoding::Unknown(99)] {
        let bytes = encode(&header(0, 0, 1, 1, encoding));
        let mut reader = Reader::new(&bytes);
        assert!(matches!(Rectangle::read_from(&mut reader, &format), Err(Error::Unexpected("encoding"))));
    }
}

#[test]
fn a_framebuffer_update_is_read_with_all_its_rectangles() {
    let format = PixelFormat::new_rgb8888();
    let mut bytes = vec![0, 0, 0, 2];
    bytes.extend_from_slice(&[0, 0, 0, 0, 0, 1, 0, 1, 0, 0, 0, 0, 1, 2, 3, 4]);
    bytes.extend_from_slice(&[0, 0, 0, 0, 0, 9, 0, 8, 0xFF, 0xFF, 0xFF, 0x21]);
    let mut reader = Reader::new(&bytes);
    let message = ServerMessage::read_from(&mut reader, &format).unwrap();
    assert_eq!(
        message,
        ServerMessage::FramebufferUpdate(vec![
            Rectangle { header: header(0, 0, 1, 1, Encoding::Raw), payload: Payload::Raw(vec![1, 2, 3, 4]) },
            Rectangle { header: header(0, 0, 9, 8, Encoding::DesktopSize), payload: Payload::DesktopSize },
        ])
    );
    assert_eq!(reader.position(), bytes.len());
    let mut reader = Reader::new(&bytes[..bytes.len() - 1]);
    assert!(matches!(
        ServerMessage::read_from(&mut reader, &format),
        Err(Error::Io(IoError::UnexpectedEof))
    ));
    let mut reader = Reader::new(&[2]);
    assert_eq!(ServerMessage::read_from(&mut reader, &format).unwrap(), ServerMessage::Bell);
}

#[test]
fn errors_describe_themselves() {
    assert_eq!(Error::Unexpected("encoding").message(), "unexpected encoding");
    assert_eq!(Error::Server(String::from("no")).message(), "server error: no");
    assert_eq!(
        Error::AuthenticationFailure(String::from("bad")).message(),
        "authentication failure: bad"
    );
    assert_eq!(Error::AuthenticationUnavailable.message(), "authentication unavailable");
    assert_eq!(Error::Disconnected.message(), "peer disconnected");
    assert_eq!(Error::Io(IoError::UnexpectedEof).message(), "unexpected end of file");
    assert_eq!(Error::Unexpected("x").description(), "unexpected value");
    assert_eq!(Error::Server(String::new()).description(), "server error");
    assert_eq!(Error::AuthenticationFailure(String::new()).description(), "authentication failure");
    assert_eq!(Error::Io(IoError::InvalidData).description(), "invalid data");
    assert_eq!(Error::Io(IoError::Other).description(), "other error");
    assert_eq!(Error::Io(IoError::Other).cause(), Some(IoError::Other));
    assert_eq!(Error::Disconnected.cause(), None);
    assert!(matches!(Error::from(IoError::InvalidData), Error::Io(IoError::InvalidData)));
}

#[test]
fn counts_keep_as_many_bits_as_their_field_holds() {
    let many = C2S::SetEncodings(vec![Encoding::Raw; 0x1_0001]);
    let bytes = encode(&many);
    assert_eq!(&bytes[..4], &[2, 0, 0, 1]);
    assert_eq!(bytes.len(), 4 + 4 * 0x1_0001);
    let (back, used) = decode::<C2S>(&bytes).unwrap();
    assert_eq!(back, C2S::SetEncodings(vec![Encoding::Raw]));
    assert_eq!(used, 8);
    let types = SecurityTypes(vec![SecurityType::NoAuthentication; 258]);
    let bytes = encode(&types);
    assert_eq!(bytes.len(), 259);
    assert_eq!(bytes[0], 2);
    let colours = S2C::SetColourMapEntries {
        first_colour: 0,
        colours: vec![Colour { red: 1, green: 1, blue: 1 }; 0x1_0000],
    };
    let bytes = encode(&colours);
    assert_eq!(&bytes[..6], &[1, 0, 0, 0, 0, 0]);
    assert_eq!(bytes.len(), 6 + 6 * 0x1_0000);
    let keys = AppleAuthHandshake { generator: 1, prime: vec![9; 0x1_0002], peer_key: vec![] };
    assert_eq!(&encode(&keys)[..4], &[0, 1, 0, 2]);
}

#[test]
fn pixel_formats_are_held_against_what_the_protocol_allows() {
    assert!(PixelFormat::new_rgb8888().is_well_formed());
    assert!(PixelFormat::new_bgr8888().is_well_formed());
    let mut format = PixelFormat::new_rgb8888();
    format.bits_per_pixel = 24;
    assert!(!format.is_well_formed());
    format.bits_per_pixel = 16;
    assert!(!format.is_well_formed());
    format.blue_shift = 8;
    format.green_shift = 4;
    format.green_max = 15;
    format.red_max = 15;
    assert!(format.is_well_formed());
    format.blue_max = 256;
    assert!(!format.is_well_formed());
    format.true_colour = false;
    assert!(format.is_well_formed());
    format.bits_per_pixel = 8;
    format.true_colour = true;
    format.blue_max = 0;
    format.blue_shift = 255;
    format.green_max = 1;
    format.green_shift = 7;
    format.red_max = 7;
    format.red_shift = 0;
    assert!(format.is_well_formed());
    format.green_shift = 8;
    assert!(!format.is_well_formed());
    assert_eq!(vnc::protocol::place_channel(255, 8), Some(0xFF00));
    assert_eq!(vnc::protocol::place_channel(0xFFFF, 31), Some(0xFFFF << 31));
    assert_eq!(vnc::protocol::place_channel(1, 32), None);
    assert_eq!(vnc::protocol::place_channel(0, 200), Some(0));
}

#[test]
fn errors_tell_short_input_from_what_more_input_cannot_mend() {
    assert!(Error::Disconnected.is_short());
    assert!(Error::Io(IoError::UnexpectedEof).is_short());
    assert!(!Error::Io(IoError::InvalidData).is_short());
    assert!(!Error::Unexpected("encoding").is_short());
    assert!(!Error::AuthenticationUnavailable.is_short());
    assert!(matches!(Error::at_end_of_stream(0), Error::Disconnected));
    assert!(matches!(Error::at_end_of_stream(3), Error::Io(IoError::UnexpectedEof)));
}

#[test]
fn a_refused_client_tag_leaves_the_cursor_behind_the_tag() {
    for tag in [1u8, 7, 8, 100, 254] {
        let bytes = [tag, 0, 0, 0, 0, 0, 0, 0, 0, 0];
        let mut reader = Reader::new(&bytes);
        let r = C2S::read_from(&mut reader);
        assert!(matches!(r, Err(Error::Unexpected("client to server message type"))));
        assert_eq!(reader.position(), 1);
    }
}

#[test]
fn a_refused_client_sub_type_leaves_the_cursor_behind_the_sub_type() {
    let bytes = [255u8, 1, 0, 0, 0, 0, 0, 0, 0, 0, 0, 0];
    let mut reader = Reader::new(&bytes);
    let r = C2S::read_from(&mut reader);
    assert!(matches!(r, Err(Error::Unexpected(_))));
    assert_eq!(reader.position(), 2);
}

#[test]
fn a_refused_server_tag_leaves_the_cursor_behind_the_tag() {
    for tag in [4u8, 5, 127, 255] {
        let bytes = [tag, 0, 0, 0, 0, 0, 0, 0];
        let mut reader = Reader::new(&bytes);
        let r = S2C::read_from(&mut reader);
        assert!(matches!(r, Err(Error::Unexpected("server to client message type"))));
        assert_eq!(reader.position(), 1);
    }
}
