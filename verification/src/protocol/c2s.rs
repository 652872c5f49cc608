//! The messages that a client sends once the session runs.

use crate::error::{Error, IoError};
use crate::protocol::{
    decode_pixel_format, decode_text, encode_encoding, encode_pixel_format, encode_text, eof,
    flag_byte, is_latin1, length16, Encoding, Message, PixelFormat,
};
use crate::wire::{
    be16, be32, bytes16, bytes32, lemma_advance, lemma_be16_at, lemma_be32_at, put_i32, put_u16,
    put_u32, put_u8, put_zeros, signed32, zeros, Reader,
};
use vstd::prelude::*;

verus! {

/// A message from the client to the server.
#[derive(Debug, PartialEq, Eq)]
pub enum C2S {
    SetPixelFormat(PixelFormat),
    SetEncodings(Vec<Encoding>),
    FramebufferUpdateRequest { incremental: bool, x_position: u16, y_position: u16, width: u16, height: u16 },
    KeyEvent { down: bool, key: u32 },
    PointerEvent { button_mask: u8, x_position: u16, y_position: u16 },
    CutText(String),
    ExtendedKeyEvent { down: bool, keysym: u32, keycode: u32 },
}

/// The model of a `C2S`.
pub enum C2SView {
    SetPixelFormat(PixelFormat),
    SetEncodings(Seq<Encoding>),
    FramebufferUpdateRequest { incremental: bool, x_position: u16, y_position: u16, width: u16, height: u16 },
    KeyEvent { down: bool, key: u32 },
    PointerEvent { button_mask: u8, x_position: u16, y_position: u16 },
    CutText(Seq<char>),
    ExtendedKeyEvent { down: bool, keysym: u32, keycode: u32 },
}

impl View for C2S {
    type V = C2SView;

    open spec fn view(&self) -> C2SView {
        match *self {
            C2S::SetPixelFormat(format) => C2SView::SetPixelFormat(format),
            C2S::SetEncodings(encodings) => C2SView::SetEncodings(encodings@),
            C2S::FramebufferUpdateRequest { incremental, x_position, y_position, width, height } =>
                C2SView::FramebufferUpdateRequest {
                    incremental,
                    x_position,
                    y_position,
                    width,
                    height,
                },
            C2S::KeyEvent { down, key } => C2SView::KeyEvent { down, key },
            C2S::PointerEvent { button_mask, x_position, y_position } => C2SView::PointerEvent {
                button_mask,
                x_position,
                y_position,
            },
            C2S::CutText(text) => C2SView::CutText(text@),
            C2S::ExtendedKeyEvent { down, keysym, keycode } => C2SView::ExtendedKeyEvent {
                down,
                keysym,
                keycode,
            },
        }
    }
}

/// The bytes of a list of encodings: four for each, in order.
pub open spec fn encode_encodings(m: Seq<Encoding>) -> Seq<u8> {
    Seq::new(4 * m.len(), |k: int| encode_encoding(m[k / 4])[k % 4])
}

/// The `count` encodings whose bytes stand at the start of `s`.
pub open spec fn decode_encodings(s: Seq<u8>, count: nat) -> Seq<Encoding> {
    Seq::new(count, |i: int| Encoding::of_code(signed32(be32(s, 4 * i))))
}

/// The bytes of a client message: its tag, then its fields.
pub open spec fn encode_c2s(m: C2SView) -> Seq<u8> {
    match m {
        C2SView::SetPixelFormat(format) => seq![0u8] + zeros(3) + encode_pixel_format(format),
        C2SView::SetEncodings(encodings) => seq![2u8] + zeros(1) + bytes16(
            length16(encodings.len()),
        ) + encode_encodings(encodings),
        C2SView::FramebufferUpdateRequest { incremental, x_position, y_position, width, height } =>
            seq![3u8, flag_byte(incremental)] + bytes16(x_position) + bytes16(y_position)
                + bytes16(width) + bytes16(height),
        C2SView::KeyEvent { down, key } => seq![4u8, flag_byte(down)] + zeros(2) + bytes32(key),
        C2SView::PointerEvent { button_mask, x_position, y_position } => seq![5u8, button_mask]
            + bytes16(x_position) + bytes16(y_position),
        C2SView::CutText(text) => seq![6u8] + zeros(3) + encode_text(text),
        C2SView::ExtendedKeyEvent { down, keysym, keycode } => seq![255u8, 0u8] + bytes16(
            flag_byte(down) as u16,
        ) + bytes32(keysym) + bytes32(keycode),
    }
}

/// The client message that `s` starts with. An empty input is the end of the
/// session; a message that breaks off is a failure of the transport.
pub open spec fn decode_c2s(s: Seq<u8>) -> Result<(C2SView, nat), Error> {
    if s.len() < 1 {
        Err(Error::Disconnected)
    } else if s[0] == 0 {
        if s.len() < 4 {
            eof()
        } else {
            match decode_pixel_format(s.skip(4)) {
                Ok((format, n)) => Ok((C2SView::SetPixelFormat(format), 4 + n)),
                Err(e) => Err(e),
            }
        }
    } else if s[0] == 2 {
        if s.len() < 4 {
            eof()
        } else if s.len() - 4 < 4 * be16(s, 2) {
            eof()
        } else {
            Ok(
                (
                    C2SView::SetEncodings(decode_encodings(s.skip(4), be16(s, 2) as nat)),
                    (4 + 4 * be16(s, 2)) as nat,
                ),
            )
        }
    } else if s[0] == 3 {
        if s.len() < 10 {
            eof()
        } else {
            Ok(
                (
                    C2SView::FramebufferUpdateRequest {
                        incremental: s[1] != 0,
                        x_position: be16(s, 2),
                        y_position: be16(s, 4),
                        width: be16(s, 6),
                        height: be16(s, 8),
                    },
                    10,
                ),
            )
        }
    } else if s[0] == 4 {
        if s.len() < 8 {
            eof()
        } else {
            Ok((C2SView::KeyEvent { down: s[1] != 0, key: be32(s, 4) }, 8))
        }
    } else if s[0] == 5 {
        if s.len() < 6 {
            eof()
        } else {
            Ok(
                (
                    C2SView::PointerEvent {
                        button_mask: s[1],
                        x_position: be16(s, 2),
                        y_position: be16(s, 4),
                    },
                    6,
                ),
            )
        }
    } else if s[0] == 6 {
        if s.len() < 4 {
            eof()
        } else {
            match decode_text(s.skip(4)) {
                Ok((text, n)) => Ok((C2SView::CutText(text), 4 + n)),
                Err(e) => Err(e),
            }
        }
    } else if s[0] == 255 {
        if s.len() < 2 {
            eof()
        } else if s[1] != 0 {
            Err(Error::Unexpected("server to client QEMU submessage type"))
        } else if s.len() < 12 {
            eof()
        } else {
            Ok(
                (
                    C2SView::ExtendedKeyEvent {
                        down: be16(s, 2) != 0,
                        keysym: be32(s, 4),
                        keycode: be32(s, 8),
                    },
                    12,
                ),
            )
        }
    } else {
        Err(Error::Unexpected("client to server message type"))
    }
}

/// Whether a client message can be written without loss.
pub open spec fn c2s_fits(m: C2SView) -> bool {
    match m {
        C2SView::SetEncodings(encodings) => {
            &&& encodings.len() <= 0xffff
            &&& forall|i: int| 0 <= i < encodings.len() ==> (#[trigger] encodings[i]).canonical()
        },
        C2SView::CutText(text) => text.len() <= u32::MAX && is_latin1(text),
        _ => true,
    }
}

impl Message for C2S {
    open spec fn encode(m: C2SView) -> Seq<u8> {
        encode_c2s(m)
    }

    open spec fn decode(s: Seq<u8>) -> Result<(C2SView, nat), Error> {
        decode_c2s(s)
    }

    open spec fn fits(m: C2SView) -> bool {
        c2s_fits(m)
    }

    /// Reads one message. Where the tag is refused, the cursor stands behind
    /// the tag, and where the tag is 255 and its sub-type is refused, behind
    /// the sub-type: one byte was passed, or two.
    fn read_from(reader: &mut Reader) -> (r: Result<C2S, Error>)
        ensures
            r matches Err(Error::Unexpected(_)) ==> final(reader).offset() == old(reader).offset()
                + (if old(reader).remaining()[0] == 255 {
                2nat
            } else {
                1nat
            }),
    {
        let ghost s = reader.remaining();
        if reader.available() < 1 {
            return Err(Error::Disconnected);
        }
        let message_type = reader.read_u8()?;
        match message_type {
            0 => {
                reader.skip(3)?;
                proof {
                    lemma_advance(*old(reader), *reader, 4);
                }
                let format = PixelFormat::read_from(reader)?;
                Ok(C2S::SetPixelFormat(format))
            },
            2 => {
                reader.skip(1)?;
                let count = reader.read_u16()?;
                if reader.available() / 4 < count as usize {
                    return Err(Error::Io(IoError::UnexpectedEof));
                }
                let mut encodings: Vec<Encoding> = Vec::new();
                let mut i: u16 = 0;
                while i < count
                    invariant
                        i <= count,
                        reader.input() == old(reader).input(),
                        reader.offset() == old(reader).offset() + 4 + 4 * i,
                        s == old(reader).remaining(),
                        s.len() >= 4 + 4 * count,
                        old(reader).offset() + s.len() == old(reader).input().len(),
                        encodings@ == decode_encodings(s.skip(4), i as nat),
                    decreases count - i,
                {
                    let code = reader.read_i32()?;
                    encodings.push(Encoding::from_code(code));
                    i = i + 1;
                    assert(encodings@ =~= decode_encodings(s.skip(4), i as nat));
                }
                Ok(C2S::SetEncodings(encodings))
            },
            3 => {
                if reader.available() < 9 {
                    return Err(Error::Io(IoError::UnexpectedEof));
                }
                let incremental = reader.read_u8()? != 0;
                let x_position = reader.read_u16()?;
                let y_position = reader.read_u16()?;
                let width = reader.read_u16()?;
                let height = reader.read_u16()?;
                Ok(C2S::FramebufferUpdateRequest { incremental, x_position, y_position, width, height })
            },
            4 => {
                if reader.available() < 7 {
                    return Err(Error::Io(IoError::UnexpectedEof));
                }
                let down = reader.read_u8()? != 0;
                reader.skip(2)?;
                let key = reader.read_u32()?;
                Ok(C2S::KeyEvent { down, key })
            },
            5 => {
                if reader.available() < 5 {
                    return Err(Error::Io(IoError::UnexpectedEof));
                }
                let button_mask = reader.read_u8()?;
                let x_position = reader.read_u16()?;
                let y_position = reader.read_u16()?;
                Ok(C2S::PointerEvent { button_mask, x_position, y_position })
            },
            6 => {
                reader.skip(3)?;
                proof {
                    lemma_advance(*old(reader), *reader, 4);
                }
                let text = String::read_from(reader)?;
                Ok(C2S::CutText(text))
            },
            255 => {
                let submessage_type = reader.read_u8()?;
                match submessage_type {
                    0 => {
                        if reader.available() < 10 {
                            return Err(Error::Io(IoError::UnexpectedEof));
                        }
                        let down = reader.read_u16()? != 0;
                        let keysym = reader.read_u32()?;
                        let keycode = reader.read_u32()?;
                        Ok(C2S::ExtendedKeyEvent { down, keysym, keycode })
                    },
                    _ => Err(Error::Unexpected("server to client QEMU submessage type")),
                }
            },
            _ => Err(Error::Unexpected("client to server message type")),
        }
    }

    fn write_to(&self, writer: &mut Vec<u8>) -> (r: Result<(), Error>) {
        match self {
            C2S::SetPixelFormat(format) => {
                put_u8(writer, 0);
                put_zeros(writer, 3);
                let _ = format.write_to(writer);
                assert(writer@ =~= old(writer)@ + encode_c2s(self@));
            },
            C2S::SetEncodings(encodings) => {
                put_u8(writer, 2);
                put_zeros(writer, 1);
                put_u16(writer, (encodings.len() % 0x1_0000) as u16);
                let ghost head = writer@;
                let mut i: usize = 0;
                while i < encodings.len()
                    invariant
                        i <= encodings.len(),
                        writer@ == head + encode_encodings(encodings@.subrange(0, i as int)),
                    decreases encodings.len() - i,
                {
                    put_i32(writer, encodings[i].to_code());
                    i = i + 1;
                    assert(writer@ =~= head + encode_encodings(encodings@.subrange(0, i as int)));
                }
                assert(encodings@.subrange(0, i as int) =~= encodings@);
                assert(writer@ =~= old(writer)@ + encode_c2s(self@));
            },
            C2S::FramebufferUpdateRequest { incremental, x_position, y_position, width, height } => {
                put_u8(writer, 3);
                put_u8(writer, if *incremental { 1 } else { 0 });
                put_u16(writer, *x_position);
                put_u16(writer, *y_position);
                put_u16(writer, *width);
                put_u16(writer, *height);
                assert(writer@ =~= old(writer)@ + encode_c2s(self@));
            },
            C2S::KeyEvent { down, key } => {
                put_u8(writer, 4);
                put_u8(writer, if *down { 1 } else { 0 });
                put_zeros(writer, 2);
                put_u32(writer, *key);
                assert(writer@ =~= old(writer)@ + encode_c2s(self@));
            },
            C2S::PointerEvent { button_mask, x_position, y_position } => {
                put_u8(writer, 5);
                put_u8(writer, *button_mask);
                put_u16(writer, *x_position);
                put_u16(writer, *y_position);
                assert(writer@ =~= old(writer)@ + encode_c2s(self@));
            },
            C2S::CutText(text) => {
                put_u8(writer, 6);
                put_zeros(writer, 3);
                let _ = text.write_to(writer);
                assert(writer@ =~= old(writer)@ + encode_c2s(self@));
            },
            C2S::ExtendedKeyEvent { down, keysym, keycode } => {
                put_u8(writer, 255);
                put_u8(writer, 0);
                put_u16(writer, if *down { 1 } else { 0 });
                put_u32(writer, *keysym);
                put_u32(writer, *keycode);
                assert(writer@ =~= old(writer)@ + encode_c2s(self@));
            },
        }
        Ok(())
    }

    #[verifier::rlimit(60)]
    proof fn lemma_round_trip(m: C2SView, rest: Seq<u8>) {
        match m {
            C2SView::SetPixelFormat(format) => lemma_set_pixel_format_round_trip(format, rest),
            C2SView::SetEncodings(encodings) => lemma_set_encodings_round_trip(encodings, rest),
            C2SView::CutText(text) => lemma_cut_text_round_trip(text, rest),
            _ => lemma_fixed_round_trip(m, rest),
        }
    }
}

/// `SetPixelFormat` decodes to what was encoded.
#[verifier::rlimit(60)]
proof fn lemma_set_pixel_format_round_trip(format: PixelFormat, rest: Seq<u8>)
    ensures
        decode_c2s(encode_c2s(C2SView::SetPixelFormat(format)) + rest) == Ok::<(C2SView, nat), Error>(
            (C2SView::SetPixelFormat(format), encode_c2s(C2SView::SetPixelFormat(format)).len()),
        ),
{
    let s = encode_c2s(C2SView::SetPixelFormat(format)) + rest;
    assert(s.skip(4) =~= encode_pixel_format(format) + rest);
    PixelFormat::lemma_round_trip(format, rest);
}

/// Reading `m.len()` encodings from what `encode_encodings` wrote gives `m` back.
#[verifier::rlimit(60)]
pub proof fn lemma_encodings_round_trip(m: Seq<Encoding>, rest: Seq<u8>)
    requires
        forall|i: int| 0 <= i < m.len() ==> (#[trigger] m[i]).canonical(),
    ensures
        decode_encodings(encode_encodings(m) + rest, m.len()) == m,
        encode_encodings(m).len() == 4 * m.len(),
{
    let s = encode_encodings(m) + rest;
    assert forall|i: int| 0 <= i < m.len() implies decode_encodings(s, m.len())[i] == m[i] by {
        let e = m[i];
        assert(e.canonical());
        assert(s[4 * i] == encode_encoding(e)[0]);
        assert(s[4 * i + 1] == encode_encoding(e)[1]);
        assert(s[4 * i + 2] == encode_encoding(e)[2]);
        assert(s[4 * i + 3] == encode_encoding(e)[3]);
        assert(be32(s, 4 * i) == be32(encode_encoding(e), 0));
        Encoding::lemma_round_trip(e, Seq::empty());
        assert(encode_encoding(e) + Seq::<u8>::empty() =~= encode_encoding(e));
    }
    assert(decode_encodings(s, m.len()) =~= m);
}

/// `SetEncodings` decodes to what was encoded.
#[verifier::rlimit(60)]
proof fn lemma_set_encodings_round_trip(encodings: Seq<Encoding>, rest: Seq<u8>)
    requires
        c2s_fits(C2SView::SetEncodings(encodings)),
    ensures
        decode_c2s(encode_c2s(C2SView::SetEncodings(encodings)) + rest) == Ok::<(C2SView, nat), Error>(
            (C2SView::SetEncodings(encodings), encode_c2s(C2SView::SetEncodings(encodings)).len()),
        ),
{
    let head = seq![2u8] + zeros(1) + bytes16(length16(encodings.len()));
    let body = encode_encodings(encodings);
    let s = encode_c2s(C2SView::SetEncodings(encodings)) + rest;
    assert(encode_c2s(C2SView::SetEncodings(encodings)) == head + body);
    assert(head.len() == 4);
    assert(body.len() == 4 * encodings.len());
    assert(s.len() == 4 + 4 * encodings.len() + rest.len());
    assert(s[0] == 2);
    assert(s.subrange(2, 4) =~= bytes16(length16(encodings.len())));
    lemma_be16_at(s, 2, length16(encodings.len()));
    assert(be16(s, 2) == encodings.len());
    assert(s.skip(4) =~= body + rest);
    lemma_encodings_round_trip(encodings, rest);
    assert(decode_encodings(s.skip(4), be16(s, 2) as nat) == encodings);
}

/// `CutText` decodes to what was encoded.
#[verifier::rlimit(60)]
proof fn lemma_cut_text_round_trip(text: Seq<char>, rest: Seq<u8>)
    requires
        c2s_fits(C2SView::CutText(text)),
    ensures
        decode_c2s(encode_c2s(C2SView::CutText(text)) + rest) == Ok::<(C2SView, nat), Error>(
            (C2SView::CutText(text), encode_c2s(C2SView::CutText(text)).len()),
        ),
{
    let s = encode_c2s(C2SView::CutText(text)) + rest;
    assert(s.skip(4) =~= encode_text(text) + rest);
    String::lemma_round_trip(text, rest);
}

/// A message of fixed length decodes to what was encoded.
#[verifier::rlimit(60)]
proof fn lemma_fixed_round_trip(m: C2SView, rest: Seq<u8>)
    requires
        !(m is SetPixelFormat),
        !(m is SetEncodings),
        !(m is CutText),
    ensures
        decode_c2s(encode_c2s(m) + rest) == Ok::<(C2SView, nat), Error>((m, encode_c2s(m).len())),
{
    match m {
        C2SView::FramebufferUpdateRequest { incremental, x_position, y_position, width, height } => {
            lemma_update_request_round_trip(incremental, x_position, y_position, width, height, rest);
        },
        C2SView::KeyEvent { down, key } => {
            lemma_key_event_round_trip(down, key, rest);
        },
        C2SView::PointerEvent { button_mask, x_position, y_position } => {
            lemma_pointer_event_round_trip(button_mask, x_position, y_position, rest);
        },
        C2SView::ExtendedKeyEvent { down, keysym, keycode } => {
            lemma_extended_key_event_round_trip(down, keysym, keycode, rest);
        },
        _ => {},
    }
}

/// `FramebufferUpdateRequest` decodes to what was encoded.
#[verifier::rlimit(60)]
proof fn lemma_update_request_round_trip(
    incremental: bool,
    x_position: u16,
    y_position: u16,
    width: u16,
    height: u16,
    rest: Seq<u8>,
)
    ensures
        ({
            let m = C2SView::FramebufferUpdateRequest {
                incremental,
                x_position,
                y_position,
                width,
                height,
            };
            decode_c2s(encode_c2s(m) + rest) == Ok::<(C2SView, nat), Error>(
                (m, encode_c2s(m).len()),
            )
        }),
{
    let m = C2SView::FramebufferUpdateRequest { incremental, x_position, y_position, width, height };
    let s = encode_c2s(m) + rest;
    assert(encode_c2s(m).len() == 10);
    assert(s[0] == 3);
    assert(s[1] == flag_byte(incremental));
    assert(s.subrange(2, 4) =~= bytes16(x_position));
    lemma_be16_at(s, 2, x_position);
    assert(s.subrange(4, 6) =~= bytes16(y_position));
    lemma_be16_at(s, 4, y_position);
    assert(s.subrange(6, 8) =~= bytes16(width));
    lemma_be16_at(s, 6, width);
    assert(s.subrange(8, 10) =~= bytes16(height));
    lemma_be16_at(s, 8, height);
}

/// `KeyEvent` decodes to what was encoded.
#[verifier::rlimit(60)]
proof fn lemma_key_event_round_trip(down: bool, key: u32, rest: Seq<u8>)
    ensures
        ({
            let m = C2SView::KeyEvent { down, key };
            decode_c2s(encode_c2s(m) + rest) == Ok::<(C2SView, nat), Error>(
                (m, encode_c2s(m).len()),
            )
        }),
{
    let m = C2SView::KeyEvent { down, key };
    let s = encode_c2s(m) + rest;
    assert(encode_c2s(m).len() == 8);
    assert(s[0] == 4);
    assert(s[1] == flag_byte(down));
    assert(s.subrange(4, 8) =~= bytes32(key));
    lemma_be32_at(s, 4, key);
}

/// `PointerEvent` decodes to what was encoded.
#[verifier::rlimit(60)]
proof fn lemma_pointer_event_round_trip(button_mask: u8, x_position: u16, y_position: u16, rest: Seq<u8>)
    ensures
        ({
            let m = C2SView::PointerEvent { button_mask, x_position, y_position };
            decode_c2s(encode_c2s(m) + rest) == Ok::<(C2SView, nat), Error>(
                (m, encode_c2s(m).len()),
            )
        }),
{
    let m = C2SView::PointerEvent { button_mask, x_position, y_position };
    let s = encode_c2s(m) + rest;
    assert(encode_c2s(m).len() == 6);
    assert(s[0] == 5);
    assert(s[1] == button_mask);
    assert(s.subrange(2, 4) =~= bytes16(x_position));
    lemma_be16_at(s, 2, x_position);
    assert(s.subrange(4, 6) =~= bytes16(y_position));
    lemma_be16_at(s, 4, y_position);
}

/// `ExtendedKeyEvent` decodes to what was encoded.
#[verifier::rlimit(60)]
proof fn lemma_extended_key_event_round_trip(down: bool, keysym: u32, keycode: u32, rest: Seq<u8>)
    ensures
        ({
            let m = C2SView::ExtendedKeyEvent { down, keysym, keycode };
            decode_c2s(encode_c2s(m) + rest) == Ok::<(C2SView, nat), Error>(
                (m, encode_c2s(m).len()),
            )
        }),
{
    let m = C2SView::ExtendedKeyEvent { down, keysym, keycode };
    let s = encode_c2s(m) + rest;
    assert(encode_c2s(m).len() == 12);
    assert(s[0] == 255);
    assert(s[1] == 0);
    assert(s.subrange(2, 4) =~= bytes16(flag_byte(down) as u16));
    lemma_be16_at(s, 2, flag_byte(down) as u16);
    assert(s.subrange(4, 8) =~= bytes32(keysym));
    lemma_be32_at(s, 4, keysym);
    assert(s.subrange(8, 12) =~= bytes32(keycode));
    lemma_be32_at(s, 8, keycode);
}

} // verus!
