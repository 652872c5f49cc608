//! The messages of the protocol and their wire format.
//!
//! Every message type has a mathematical model (its view), a function from
//! the model to the bytes that stand for it, and a function from bytes to the
//! model that they start with. The executable `read_from` and `write_to` are
//! proved against these two, and the two are proved to undo each other.

use crate::error::{Error, IoError};
use crate::rect::Rect;
use crate::wire::{
    be16, be32, bytes16, bytes32, lemma_advance, lemma_be16_at, lemma_be32_at,
    lemma_be32_of_bytes32, lemma_signed_unsigned, put_bytes, put_i32, put_u16, put_u32, put_u8,
    put_zeros, signed32, unsigned32, zeros, Reader,
};
use vstd::arithmetic::power2::{
    lemma2_to64, lemma_pow2_strictly_increases, lemma_pow2_unfold, pow2,
};
use vstd::prelude::*;

pub mod c2s;
pub mod frame;
pub mod rectangle;
pub mod s2c;

pub use c2s::{
    c2s_fits, decode_c2s, decode_encodings, encode_c2s, encode_encodings,
    lemma_encodings_round_trip, C2SView, C2S,
};
pub use frame::{decode_server_message, ServerMessage, ServerMessageView};
pub use rectangle::{
    client_pixel_size, decode_payload, decode_rectangle, decode_rectangles, encode_payload,
    encode_rectangle, lemma_rectangle_round_trip, rectangle_fits, rectangles_view, Payload,
    PayloadView, Rectangle, RectangleView,
};
pub use s2c::{decode_colours, decode_s2c, encode_colours, encode_s2c, s2c_fits, S2CView, S2C};

verus! {

/// A value with a wire format.
pub trait Message: View + Sized {
    /// The bytes that stand for `m` on the wire.
    spec fn encode(m: Self::V) -> Seq<u8>;

    /// The message that `bytes` start with and the number of bytes it takes,
    /// or the error that reading them gives.
    spec fn decode(bytes: Seq<u8>) -> Result<(Self::V, nat), Error>;

    /// Whether `m` can be written without loss: its lengths fit their length
    /// fields and its text is Latin-1.
    spec fn fits(m: Self::V) -> bool;

    /// Reads one message. On success the cursor stands behind the message.
    /// On failure it stands where the read that failed left it; the
    /// messages that begin with a tag say where that is when they refuse
    /// the tag.
    fn read_from(reader: &mut Reader) -> (r: Result<Self, Error>)
        ensures
            final(reader).input() == old(reader).input(),
            final(reader).offset() <= final(reader).input().len(),
            match Self::decode(old(reader).remaining()) {
                Ok((m, n)) => (r matches Ok(v) && v@ == m) && final(reader).offset() == old(
                    reader,
                ).offset() + n,
                Err(e) => r matches Err(e2) && e2 == e,
            },
    ;

    /// Appends the message to `writer`. Writing to memory cannot fail.
    fn write_to(&self, writer: &mut Vec<u8>) -> (r: Result<(), Error>)
        ensures
            r is Ok,
            final(writer)@ == old(writer)@ + Self::encode(self@),
    ;

    /// Decoding what was encoded gives the message back, whatever follows it.
    proof fn lemma_round_trip(m: Self::V, rest: Seq<u8>)
        requires
            Self::fits(m),
        ensures
            Self::decode(Self::encode(m) + rest) == Ok::<(Self::V, nat), Error>(
                (m, Self::encode(m).len()),
            ),
    ;
}

/// The error of a read that found the input too short.
pub open spec fn eof<T>() -> Result<T, Error> {
    Err(Error::Io(IoError::UnexpectedEof))
}

/// The character that a byte of Latin-1 text stands for.
pub open spec fn latin1_char(b: u8) -> char {
    b as char
}

/// The byte that a character is written as: its code point, of which only the
/// low eight bits are kept.
pub open spec fn latin1_byte(c: char) -> u8 {
    (c as u32 % 0x100) as u8
}

/// Whether every character of `text` has a byte of its own in Latin-1.
pub open spec fn is_latin1(text: Seq<char>) -> bool {
    forall|i: int| 0 <= i < text.len() ==> (#[trigger] text[i]) as u32 <= 0xff
}

/// The length field of `n` items: `n` itself as far as 32 bits hold it.
pub open spec fn length32(n: nat) -> u32 {
    (n % 0x1_0000_0000) as u32
}

/// The bytes of a length-prefixed byte string.
pub open spec fn encode_bytes(m: Seq<u8>) -> Seq<u8> {
    bytes32(length32(m.len())) + m
}

/// The length-prefixed byte string that `s` starts with.
pub open spec fn decode_bytes(s: Seq<u8>) -> Result<(Seq<u8>, nat), Error> {
    if s.len() < 4 {
        eof()
    } else if s.len() - 4 < be32(s, 0) {
        eof()
    } else {
        Ok((s.subrange(4, 4 + be32(s, 0)), (4 + be32(s, 0)) as nat))
    }
}

impl Message for Vec<u8> {
    open spec fn encode(m: Seq<u8>) -> Seq<u8> {
        encode_bytes(m)
    }

    open spec fn decode(s: Seq<u8>) -> Result<(Seq<u8>, nat), Error> {
        decode_bytes(s)
    }

    open spec fn fits(m: Seq<u8>) -> bool {
        m.len() <= u32::MAX
    }

    fn read_from(reader: &mut Reader) -> (r: Result<Vec<u8>, Error>) {
        let length = reader.read_u32()?;
        let buffer = reader.read_bytes(length as usize)?;
        assert(buffer@ =~= old(reader).remaining().subrange(4, 4 + length));
        Ok(buffer)
    }

    fn write_to(&self, writer: &mut Vec<u8>) -> (r: Result<(), Error>) {
        let length: u32 = (self.len() as u64 % 0x1_0000_0000) as u32;
        put_u32(writer, length);
        put_bytes(writer, self.as_slice());
        assert(writer@ =~= old(writer)@ + encode_bytes(self@));
        Ok(())
    }

    #[verifier::rlimit(60)]
    proof fn lemma_round_trip(m: Seq<u8>, rest: Seq<u8>) {
        lemma_be32_of_bytes32(length32(m.len()), m + rest);
        let s = encode_bytes(m) + rest;
        assert(s =~= bytes32(length32(m.len())) + (m + rest));
        assert(s.subrange(4, 4 + m.len() as int) =~= m);
    }
}

/// `String::push` of std: the character is appended to the end of the string.
pub assume_specification[ String::push ](s: &mut String, ch: char)
    ensures
        final(s)@ == old(s)@.push(ch),
;

/// The text that Latin-1 bytes stand for.
pub open spec fn latin1_text(bytes: Seq<u8>) -> Seq<char> {
    Seq::new(bytes.len(), |i: int| latin1_char(bytes[i]))
}

/// The bytes that a text is written as.
pub open spec fn latin1_bytes(text: Seq<char>) -> Seq<u8> {
    Seq::new(text.len(), |i: int| latin1_byte(text[i]))
}

/// The bytes of a length-prefixed text.
pub open spec fn encode_text(m: Seq<char>) -> Seq<u8> {
    bytes32(length32(m.len())) + latin1_bytes(m)
}

/// The length-prefixed text that `s` starts with.
pub open spec fn decode_text(s: Seq<u8>) -> Result<(Seq<char>, nat), Error> {
    match decode_bytes(s) {
        Ok((bytes, n)) => Ok((latin1_text(bytes), n)),
        Err(e) => Err(e),
    }
}

/// A character of Latin-1 and its byte stand for each other.
pub proof fn lemma_latin1_char(c: char)
    requires
        c as u32 <= 0xff,
    ensures
        latin1_char(latin1_byte(c)) == c,
{
}

/// Latin-1 text survives being written as bytes and read back.
#[verifier::rlimit(60)]
pub proof fn lemma_latin1_round_trip(text: Seq<char>)
    requires
        is_latin1(text),
    ensures
        latin1_text(latin1_bytes(text)) == text,
{
    assert forall|i: int| 0 <= i < text.len() implies latin1_char(latin1_byte(text[i]))
        == text[i] by {
        lemma_latin1_char(text[i]);
    }
    assert(latin1_text(latin1_bytes(text)) =~= text);
}

/// Bytes survive being read as Latin-1 text and written back.
#[verifier::rlimit(60)]
pub proof fn lemma_latin1_bytes_round_trip(bytes: Seq<u8>)
    ensures
        latin1_bytes(latin1_text(bytes)) == bytes,
        is_latin1(latin1_text(bytes)),
{
    assert(latin1_bytes(latin1_text(bytes)) =~= bytes);
}

/// The text that `bytes` stand for in Latin-1.
pub fn text_from_latin1(bytes: &[u8]) -> (text: String)
    ensures
        text@ == latin1_text(bytes@),
{
    let mut text = String::new();
    let mut i: usize = 0;
    while i < bytes.len()
        invariant
            i <= bytes.len(),
            text@ == latin1_text(bytes@.subrange(0, i as int)),
        decreases bytes.len() - i,
    {
        text.push(bytes[i] as char);
        i = i + 1;
        assert(text@ =~= latin1_text(bytes@.subrange(0, i as int)));
    }
    assert(bytes@.subrange(0, i as int) =~= bytes@);
    text
}

/// The bytes that `text` is written as: one for each character.
pub fn text_to_latin1(text: &str) -> (bytes: Vec<u8>)
    ensures
        bytes@ == latin1_bytes(text@),
{
    let mut bytes: Vec<u8> = Vec::new();
    for c in it: text.chars()
        invariant
            it.seq() == text@,
            bytes@ == latin1_bytes(text@.subrange(0, it.index() as int)),
    {
        bytes.push((c as u32 % 0x100) as u8);
        assert(bytes@ =~= latin1_bytes(text@.subrange(0, it.index() + 1)));
    }
    assert(text@.subrange(0, text@.len() as int) =~= text@);
    bytes
}

impl Message for String {
    open spec fn encode(m: Seq<char>) -> Seq<u8> {
        encode_text(m)
    }

    open spec fn decode(s: Seq<u8>) -> Result<(Seq<char>, nat), Error> {
        decode_text(s)
    }

    open spec fn fits(m: Seq<char>) -> bool {
        m.len() <= u32::MAX && is_latin1(m)
    }

    fn read_from(reader: &mut Reader) -> (r: Result<String, Error>) {
        let bytes = Vec::<u8>::read_from(reader)?;
        Ok(text_from_latin1(bytes.as_slice()))
    }

    fn write_to(&self, writer: &mut Vec<u8>) -> (r: Result<(), Error>) {
        let bytes = text_to_latin1(self.as_str());
        let length: u32 = (bytes.len() as u64 % 0x1_0000_0000) as u32;
        put_u32(writer, length);
        put_bytes(writer, bytes.as_slice());
        assert(writer@ =~= old(writer)@ + encode_text(self@));
        Ok(())
    }

    #[verifier::rlimit(60)]
    proof fn lemma_round_trip(m: Seq<char>, rest: Seq<u8>) {
        Vec::<u8>::lemma_round_trip(latin1_bytes(m), rest);
        lemma_latin1_round_trip(m);
    }
}

/// How a pixel is laid out in the framebuffer.
#[derive(Debug, Clone, Copy, PartialEq, Eq, Structural)]
pub struct PixelFormat {
    pub bits_per_pixel: u8,
    pub depth: u8,
    pub big_endian: bool,
    pub true_colour: bool,
    pub red_max: u16,
    pub green_max: u16,
    pub blue_max: u16,
    pub red_shift: u8,
    pub green_shift: u8,
    pub blue_shift: u8,
}

/// The byte that a flag is written as.
pub open spec fn flag_byte(flag: bool) -> u8 {
    if flag {
        1
    } else {
        0
    }
}

impl View for PixelFormat {
    type V = PixelFormat;

    open spec fn view(&self) -> PixelFormat {
        *self
    }
}

/// The place of a colour channel in the pixel, as a number: its greatest
/// value moved up by its shift.
pub open spec fn channel_bits(max: u16, shift: u8) -> nat {
    max as nat * pow2(shift as nat)
}

/// The place of a colour channel in the pixel, where it lies within 32 bits
/// or not far beyond; `None` where it lies beyond.
pub fn place_channel(max: u16, shift: u8) -> (bits: Option<u64>)
    ensures
        match bits {
            Some(bits) => bits == channel_bits(max, shift),
            None => channel_bits(max, shift) >= 0x1_0000_0000,
        },
{
    proof {
        lemma2_to64();
    }
    if max == 0 {
        assert(channel_bits(max, shift) == 0) by (nonlinear_arith)
            requires
                max == 0,
        ;
        return Some(0);
    }
    if shift >= 32 {
        proof {
            if shift > 32 {
                lemma_pow2_strictly_increases(32, shift as nat);
            }
            assert(channel_bits(max, shift) >= 0x1_0000_0000) by (nonlinear_arith)
                requires
                    max >= 1,
                    pow2(shift as nat) >= 0x1_0000_0000,
            ;
        }
        return None;
    }
    let mut power: u64 = 1;
    let mut i: u8 = 0;
    while i < shift
        invariant
            i <= shift < 32,
            power == pow2(i as nat),
            power <= 0x8000_0000,
        decreases shift - i,
    {
        proof {
            lemma_pow2_unfold((i + 1) as nat);
            if i + 1 < 31 {
                lemma_pow2_strictly_increases((i + 1) as nat, 31);
            }
            lemma2_to64();
        }
        power = power * 2;
        i = i + 1;
    }
    assert(max as nat * power as nat <= 0xffff * 0x8000_0000) by (nonlinear_arith)
        requires
            max <= 0xffff,
            power <= 0x8000_0000,
    ;
    Some((max as u64) * power)
}

impl PixelFormat {
    /// Whether the format is one that the protocol allows: a pixel takes
    /// one, two or four bytes, and in a true-colour format every channel
    /// lies within the pixel.
    pub open spec fn well_formed(self) -> bool {
        &&& self.bits_per_pixel == 8 || self.bits_per_pixel == 16 || self.bits_per_pixel == 32
        &&& self.true_colour ==> {
            &&& channel_bits(self.red_max, self.red_shift) < pow2(self.bits_per_pixel as nat)
            &&& channel_bits(self.green_max, self.green_shift) < pow2(self.bits_per_pixel as nat)
            &&& channel_bits(self.blue_max, self.blue_shift) < pow2(self.bits_per_pixel as nat)
        }
    }

    /// Whether the format is one that the protocol allows.
    pub fn is_well_formed(&self) -> (ok: bool)
        ensures
            ok == self.well_formed(),
    {
        proof {
            lemma2_to64();
        }
        let limit: u64 = if self.bits_per_pixel == 8 {
            0x100
        } else if self.bits_per_pixel == 16 {
            0x1_0000
        } else if self.bits_per_pixel == 32 {
            0x1_0000_0000
        } else {
            return false;
        };
        if !self.true_colour {
            return true;
        }
        let red = match place_channel(self.red_max, self.red_shift) {
            Some(bits) => bits < limit,
            None => false,
        };
        let green = match place_channel(self.green_max, self.green_shift) {
            Some(bits) => bits < limit,
            None => false,
        };
        let blue = match place_channel(self.blue_max, self.blue_shift) {
            Some(bits) => bits < limit,
            None => false,
        };
        red && green && blue
    }

    /// RGB with four bytes to the pixel, of which three hold colour.
    pub open spec fn rgb8888() -> PixelFormat {
        PixelFormat {
            bits_per_pixel: 32,
            depth: 24,
            big_endian: true,
            true_colour: true,
            red_max: 255,
            green_max: 255,
            blue_max: 255,
            red_shift: 0,
            green_shift: 8,
            blue_shift: 16,
        }
    }

    /// BGR with four bytes to the pixel, of which three hold colour.
    pub open spec fn bgr8888() -> PixelFormat {
        PixelFormat {
            bits_per_pixel: 32,
            depth: 24,
            big_endian: true,
            true_colour: true,
            red_max: 255,
            green_max: 255,
            blue_max: 255,
            red_shift: 16,
            green_shift: 8,
            blue_shift: 0,
        }
    }

    /// The number of bytes that one pixel takes in a pixel buffer.
    pub open spec fn bytes_per_pixel(self) -> nat {
        (self.bits_per_pixel / 8) as nat
    }

    /// Creates RGB pixel format with 4 bytes per pixel and 3 bytes of depth.
    pub fn new_rgb8888() -> (format: PixelFormat)
        ensures
            format == PixelFormat::rgb8888(),
            format.well_formed(),
    {
        proof {
            lemma_common_formats();
        }
        PixelFormat {
            bits_per_pixel: 32,
            depth: 24,
            big_endian: true,
            true_colour: true,
            red_max: 255,
            green_max: 255,
            blue_max: 255,
            red_shift: 0,
            green_shift: 8,
            blue_shift: 16,
        }
    }

    /// Creates BGR pixel format with 4 bytes per pixel and 3 bytes of depth.
    pub fn new_bgr8888() -> (format: PixelFormat)
        ensures
            format == PixelFormat::bgr8888(),
            format.well_formed(),
    {
        proof {
            lemma_common_formats();
        }
        PixelFormat {
            bits_per_pixel: 32,
            depth: 24,
            big_endian: true,
            true_colour: true,
            red_max: 255,
            green_max: 255,
            blue_max: 255,
            red_shift: 16,
            green_shift: 8,
            blue_shift: 0,
        }
    }
}

/// The two common formats are well formed.
pub proof fn lemma_common_formats()
    ensures
        PixelFormat::rgb8888().well_formed(),
        PixelFormat::bgr8888().well_formed(),
{
    lemma2_to64();
    assert(channel_bits(255, 0) == 255) by (nonlinear_arith)
        requires
            channel_bits(255, 0) == 255 * pow2(0),
            pow2(0) == 1,
    ;
    assert(channel_bits(255, 8) == 255 * 0x100) by (nonlinear_arith)
        requires
            channel_bits(255, 8) == 255 * pow2(8),
            pow2(8) == 0x100,
    ;
    assert(channel_bits(255, 16) == 255 * 0x1_0000) by (nonlinear_arith)
        requires
            channel_bits(255, 16) == 255 * pow2(16),
            pow2(16) == 0x1_0000,
    ;
}

/// The sixteen bytes of a pixel format: ten of fields, three of padding.
pub open spec fn encode_pixel_format(m: PixelFormat) -> Seq<u8> {
    seq![m.bits_per_pixel, m.depth, flag_byte(m.big_endian), flag_byte(m.true_colour)] + bytes16(
        m.red_max,
    ) + bytes16(m.green_max) + bytes16(m.blue_max) + seq![m.red_shift, m.green_shift, m.blue_shift]
        + zeros(3)
}

/// The pixel format that the sixteen bytes at the start of `s` hold.
pub open spec fn decode_pixel_format(s: Seq<u8>) -> Result<(PixelFormat, nat), Error> {
    if s.len() < 16 {
        eof()
    } else {
        Ok(
            (
                PixelFormat {
                    bits_per_pixel: s[0],
                    depth: s[1],
                    big_endian: s[2] != 0,
                    true_colour: s[3] != 0,
                    red_max: be16(s, 4),
                    green_max: be16(s, 6),
                    blue_max: be16(s, 8),
                    red_shift: s[10],
                    green_shift: s[11],
                    blue_shift: s[12],
                },
                16,
            ),
        )
    }
}

/// A pixel format takes sixteen bytes on the wire, of which the last three are zero.
pub proof fn lemma_pixel_format_layout(m: PixelFormat)
    ensures
        encode_pixel_format(m).len() == 16,
        encode_pixel_format(m)[13] == 0,
        encode_pixel_format(m)[14] == 0,
        encode_pixel_format(m)[15] == 0,
{
}

impl Message for PixelFormat {
    open spec fn encode(m: PixelFormat) -> Seq<u8> {
        encode_pixel_format(m)
    }

    open spec fn decode(s: Seq<u8>) -> Result<(PixelFormat, nat), Error> {
        decode_pixel_format(s)
    }

    open spec fn fits(m: PixelFormat) -> bool {
        true
    }

    fn read_from(reader: &mut Reader) -> (r: Result<PixelFormat, Error>) {
        if reader.available() < 16 {
            return Err(Error::Io(IoError::UnexpectedEof));
        }
        let bits_per_pixel = reader.read_u8()?;
        let depth = reader.read_u8()?;
        let big_endian = reader.read_u8()? != 0;
        let true_colour = reader.read_u8()? != 0;
        let red_max = reader.read_u16()?;
        let green_max = reader.read_u16()?;
        let blue_max = reader.read_u16()?;
        let red_shift = reader.read_u8()?;
        let green_shift = reader.read_u8()?;
        let blue_shift = reader.read_u8()?;
        reader.skip(3)?;
        Ok(
            PixelFormat {
                bits_per_pixel,
                depth,
                big_endian,
                true_colour,
                red_max,
                green_max,
                blue_max,
                red_shift,
                green_shift,
                blue_shift,
            },
        )
    }

    fn write_to(&self, writer: &mut Vec<u8>) -> (r: Result<(), Error>) {
        put_u8(writer, self.bits_per_pixel);
        put_u8(writer, self.depth);
        put_u8(writer, if self.big_endian { 1 } else { 0 });
        put_u8(writer, if self.true_colour { 1 } else { 0 });
        put_u16(writer, self.red_max);
        put_u16(writer, self.green_max);
        put_u16(writer, self.blue_max);
        put_u8(writer, self.red_shift);
        put_u8(writer, self.green_shift);
        put_u8(writer, self.blue_shift);
        put_zeros(writer, 3);
        assert(writer@ =~= old(writer)@ + encode_pixel_format(*self));
        Ok(())
    }

    #[verifier::rlimit(60)]
    proof fn lemma_round_trip(m: PixelFormat, rest: Seq<u8>) {
        let s = encode_pixel_format(m) + rest;
        assert(encode_pixel_format(m).len() == 16);
        assert(s.subrange(4, 6) =~= bytes16(m.red_max));
        lemma_be16_at(s, 4, m.red_max);
        assert(s.subrange(6, 8) =~= bytes16(m.green_max));
        lemma_be16_at(s, 6, m.green_max);
        assert(s.subrange(8, 10) =~= bytes16(m.blue_max));
        lemma_be16_at(s, 8, m.blue_max);
    }
}

/// The version of the protocol that both sides speak.
#[derive(Debug, Clone, Copy, PartialEq, Eq, Structural)]
pub enum Version {
    Rfb33,
    Rfb37,
    Rfb38,
}

impl View for Version {
    type V = Version;

    open spec fn view(&self) -> Version {
        *self
    }
}

/// The twelve bytes `RFB 003.` + three digits + line feed.
pub open spec fn version_text(d0: u8, d1: u8, d2: u8) -> Seq<u8> {
    seq![0x52u8, 0x46u8, 0x42u8, 0x20u8, 0x30u8, 0x30u8, 0x33u8, 0x2eu8, d0, d1, d2, 0x0au8]
}

/// The twelve bytes that announce a version.
pub open spec fn encode_version(m: Version) -> Seq<u8> {
    match m {
        Version::Rfb33 => version_text(0x30, 0x30, 0x33),
        Version::Rfb37 => version_text(0x30, 0x30, 0x37),
        Version::Rfb38 => version_text(0x30, 0x30, 0x38),
    }
}

/// Whether `s` starts with `RFB 003.`, three more bytes and a line feed.
pub open spec fn is_version_text(s: Seq<u8>) -> bool {
    &&& s[0] == 0x52
    &&& s[1] == 0x46
    &&& s[2] == 0x42
    &&& s[3] == 0x20
    &&& s[4] == 0x30
    &&& s[5] == 0x30
    &&& s[6] == 0x33
    &&& s[7] == 0x2e
    &&& s[11] == 0x0a
}

/// The version that the twelve bytes at the start of `s` announce, by their
/// three digits. Apple's `889` is taken as 3.8.
pub open spec fn decode_version(s: Seq<u8>) -> Result<(Version, nat), Error> {
    if s.len() < 12 {
        eof()
    } else if !is_version_text(s) {
        Err(Error::Unexpected("protocol version"))
    } else if s[8] == 0x30 && s[9] == 0x30 && s[10] == 0x33 {
        Ok((Version::Rfb33, 12))
    } else if s[8] == 0x30 && s[9] == 0x30 && s[10] == 0x37 {
        Ok((Version::Rfb37, 12))
    } else if s[8] == 0x30 && s[9] == 0x30 && s[10] == 0x38 {
        Ok((Version::Rfb38, 12))
    } else if s[8] == 0x38 && s[9] == 0x38 && s[10] == 0x39 {
        Ok((Version::Rfb38, 12))
    } else {
        Err(Error::Unexpected("protocol version"))
    }
}

impl Message for Version {
    open spec fn encode(m: Version) -> Seq<u8> {
        encode_version(m)
    }

    open spec fn decode(s: Seq<u8>) -> Result<(Version, nat), Error> {
        decode_version(s)
    }

    open spec fn fits(m: Version) -> bool {
        true
    }

    fn read_from(reader: &mut Reader) -> (r: Result<Version, Error>) {
        let buf = reader.read_bytes(12)?;
        let framed = buf[0] == 0x52 && buf[1] == 0x46 && buf[2] == 0x42 && buf[3] == 0x20 && buf[4]
            == 0x30 && buf[5] == 0x30 && buf[6] == 0x33 && buf[7] == 0x2e && buf[11] == 0x0a;
        if !framed {
            return Err(Error::Unexpected("protocol version"));
        }
        let digits = (buf[8], buf[9], buf[10]);
        if digits.0 == 0x30 && digits.1 == 0x30 && digits.2 == 0x33 {
            Ok(Version::Rfb33)
        } else if digits.0 == 0x30 && digits.1 == 0x30 && digits.2 == 0x37 {
            Ok(Version::Rfb37)
        } else if digits.0 == 0x30 && digits.1 == 0x30 && digits.2 == 0x38 {
            Ok(Version::Rfb38)
        } else if digits.0 == 0x38 && digits.1 == 0x38 && digits.2 == 0x39 {
            Ok(Version::Rfb38)
        } else {
            Err(Error::Unexpected("protocol version"))
        }
    }

    fn write_to(&self, writer: &mut Vec<u8>) -> (r: Result<(), Error>) {
        let last: u8 = match self {
            Version::Rfb33 => 0x33,
            Version::Rfb37 => 0x37,
            Version::Rfb38 => 0x38,
        };
        put_u8(writer, 0x52);
        put_u8(writer, 0x46);
        put_u8(writer, 0x42);
        put_u8(writer, 0x20);
        put_u8(writer, 0x30);
        put_u8(writer, 0x30);
        put_u8(writer, 0x33);
        put_u8(writer, 0x2e);
        put_u8(writer, 0x30);
        put_u8(writer, 0x30);
        put_u8(writer, last);
        put_u8(writer, 0x0a);
        assert(writer@ =~= old(writer)@ + encode_version(*self));
        Ok(())
    }

    proof fn lemma_round_trip(m: Version, rest: Seq<u8>) {
        let s = encode_version(m) + rest;
        assert(encode_version(m).len() == 12);
        assert(is_version_text(s));
    }
}

/// A way in which the server can ask the client to prove who it is.
#[derive(Debug, Clone, Copy, PartialEq, Eq, Structural)]
pub enum SecurityType {
    Unknown(u8),
    Invalid,
    NoAuthentication,
    VncAuthentication,
    AppleRemoteDesktop,
}

impl View for SecurityType {
    type V = SecurityType;

    open spec fn view(&self) -> SecurityType {
        *self
    }
}

impl SecurityType {
    /// The number that stands for the security type on the wire.
    pub open spec fn code(self) -> u8 {
        match self {
            SecurityType::Invalid => 0,
            SecurityType::NoAuthentication => 1,
            SecurityType::VncAuthentication => 2,
            SecurityType::AppleRemoteDesktop => 30,
            SecurityType::Unknown(n) => n,
        }
    }

    /// The security type that a number stands for; one without a name is kept as `Unknown`.
    pub open spec fn of_code(n: u8) -> SecurityType {
        if n == 0 {
            SecurityType::Invalid
        } else if n == 1 {
            SecurityType::NoAuthentication
        } else if n == 2 {
            SecurityType::VncAuthentication
        } else if n == 30 {
            SecurityType::AppleRemoteDesktop
        } else {
            SecurityType::Unknown(n)
        }
    }

    /// Whether the value is the one that its number is read as: `Unknown`
    /// holds no number that has a name.
    pub open spec fn canonical(self) -> bool {
        SecurityType::of_code(self.code()) == self
    }

    /// The number that stands for the security type on the wire.
    pub fn to_code(&self) -> (n: u8)
        ensures
            n == self.code(),
    {
        match self {
            SecurityType::Invalid => 0,
            SecurityType::NoAuthentication => 1,
            SecurityType::VncAuthentication => 2,
            SecurityType::AppleRemoteDesktop => 30,
            SecurityType::Unknown(n) => *n,
        }
    }

    /// The security type that a number stands for.
    pub fn from_code(n: u8) -> (t: SecurityType)
        ensures
            t == SecurityType::of_code(n),
            t.canonical(),
    {
        match n {
            0 => SecurityType::Invalid,
            1 => SecurityType::NoAuthentication,
            2 => SecurityType::VncAuthentication,
            30 => SecurityType::AppleRemoteDesktop,
            n => SecurityType::Unknown(n),
        }
    }
}

impl Message for SecurityType {
    open spec fn encode(m: SecurityType) -> Seq<u8> {
        seq![m.code()]
    }

    open spec fn decode(s: Seq<u8>) -> Result<(SecurityType, nat), Error> {
        if s.len() < 1 {
            eof()
        } else {
            Ok((SecurityType::of_code(s[0]), 1))
        }
    }

    open spec fn fits(m: SecurityType) -> bool {
        m.canonical()
    }

    fn read_from(reader: &mut Reader) -> (r: Result<SecurityType, Error>) {
        let security_type = reader.read_u8()?;
        Ok(SecurityType::from_code(security_type))
    }

    fn write_to(&self, writer: &mut Vec<u8>) -> (r: Result<(), Error>) {
        put_u8(writer, self.to_code());
        assert(writer@ =~= old(writer)@ + seq![self.code()]);
        Ok(())
    }

    #[verifier::rlimit(60)]
    proof fn lemma_round_trip(m: SecurityType, rest: Seq<u8>) {
    }
}

/// The security types that a server offers, in its order.
#[derive(Debug, PartialEq, Eq)]
pub struct SecurityTypes(pub Vec<SecurityType>);

impl View for SecurityTypes {
    type V = Seq<SecurityType>;

    open spec fn view(&self) -> Seq<SecurityType> {
        self.0@
    }
}

/// The numbers of a list of security types.
pub open spec fn security_codes(m: Seq<SecurityType>) -> Seq<u8> {
    Seq::new(m.len(), |i: int| m[i].code())
}

/// The security types that a list of numbers stands for.
pub open spec fn security_types_of(codes: Seq<u8>) -> Seq<SecurityType> {
    Seq::new(codes.len(), |i: int| SecurityType::of_code(codes[i]))
}

/// A count in one byte, then one byte for each security type.
pub open spec fn encode_security_types(m: Seq<SecurityType>) -> Seq<u8> {
    seq![(m.len() % 0x100) as u8] + security_codes(m)
}

/// The counted list of security types that `s` starts with.
pub open spec fn decode_security_types(s: Seq<u8>) -> Result<(Seq<SecurityType>, nat), Error> {
    if s.len() < 1 {
        eof()
    } else if s.len() - 1 < s[0] {
        eof()
    } else {
        Ok((security_types_of(s.subrange(1, 1 + s[0])), (1 + s[0]) as nat))
    }
}

impl Message for SecurityTypes {
    open spec fn encode(m: Seq<SecurityType>) -> Seq<u8> {
        encode_security_types(m)
    }

    open spec fn decode(s: Seq<u8>) -> Result<(Seq<SecurityType>, nat), Error> {
        decode_security_types(s)
    }

    open spec fn fits(m: Seq<SecurityType>) -> bool {
        &&& m.len() <= 0xff
        &&& forall|i: int| 0 <= i < m.len() ==> (#[trigger] m[i]).canonical()
    }

    fn read_from(reader: &mut Reader) -> (r: Result<SecurityTypes, Error>) {
        let ghost s = reader.remaining();
        let count = reader.read_u8()?;
        if reader.available() < count as usize {
            return Err(Error::Io(IoError::UnexpectedEof));
        }
        let mut security_types: Vec<SecurityType> = Vec::new();
        let mut i: u8 = 0;
        while i < count
            invariant
                i <= count,
                reader.input() == old(reader).input(),
                reader.offset() == old(reader).offset() + 1 + i,
                s == old(reader).remaining(),
                s.len() >= 1 + count,
                count == s[0],
                old(reader).offset() + s.len() == old(reader).input().len(),
                security_types@ == security_types_of(s.subrange(1, 1 + i)),
            decreases count - i,
        {
            let t = SecurityType::read_from(reader)?;
            security_types.push(t);
            i = i + 1;
            assert(security_types@ =~= security_types_of(s.subrange(1, 1 + i)));
        }
        Ok(SecurityTypes(security_types))
    }

    fn write_to(&self, writer: &mut Vec<u8>) -> (r: Result<(), Error>) {
        let count: u8 = (self.0.len() % 0x100) as u8;
        put_u8(writer, count);
        let mut i: usize = 0;
        while i < self.0.len()
            invariant
                i <= self.0.len(),
                writer@ == old(writer)@ + seq![(self.0@.len() % 0x100) as u8] + security_codes(
                    self.0@.subrange(0, i as int),
                ),
            decreases self.0.len() - i,
        {
            put_u8(writer, self.0[i].to_code());
            i = i + 1;
            assert(writer@ =~= old(writer)@ + seq![(self.0@.len() % 0x100) as u8] + security_codes(
                self.0@.subrange(0, i as int),
            ));
        }
        assert(self.0@.subrange(0, i as int) =~= self.0@);
        assert(writer@ =~= old(writer)@ + encode_security_types(self@));
        Ok(())
    }

    #[verifier::rlimit(60)]
    proof fn lemma_round_trip(m: Seq<SecurityType>, rest: Seq<u8>) {
        let s = encode_security_types(m) + rest;
        assert(s[0] == m.len());
        assert(s.subrange(1, 1 + m.len() as int) =~= security_codes(m));
        assert(security_types_of(security_codes(m)) =~= m);
    }
}

/// Whether the server accepted the client.
#[derive(Debug, Clone, Copy, PartialEq, Eq, Structural)]
pub enum SecurityResult {
    Succeeded,
    Failed,
}

impl View for SecurityResult {
    type V = SecurityResult;

    open spec fn view(&self) -> SecurityResult {
        *self
    }
}

impl Message for SecurityResult {
    open spec fn encode(m: SecurityResult) -> Seq<u8> {
        match m {
            SecurityResult::Succeeded => bytes32(0),
            SecurityResult::Failed => bytes32(1),
        }
    }

    open spec fn decode(s: Seq<u8>) -> Result<(SecurityResult, nat), Error> {
        if s.len() < 4 {
            eof()
        } else if be32(s, 0) == 0 {
            Ok((SecurityResult::Succeeded, 4))
        } else if be32(s, 0) == 1 {
            Ok((SecurityResult::Failed, 4))
        } else {
            Err(Error::Unexpected("security result"))
        }
    }

    open spec fn fits(m: SecurityResult) -> bool {
        true
    }

    fn read_from(reader: &mut Reader) -> (r: Result<SecurityResult, Error>) {
        let result = reader.read_u32()?;
        match result {
            0 => Ok(SecurityResult::Succeeded),
            1 => Ok(SecurityResult::Failed),
            _ => Err(Error::Unexpected("security result")),
        }
    }

    fn write_to(&self, writer: &mut Vec<u8>) -> (r: Result<(), Error>) {
        let result: u32 = match self {
            SecurityResult::Succeeded => 0,
            SecurityResult::Failed => 1,
        };
        put_u32(writer, result);
        Ok(())
    }

    #[verifier::rlimit(60)]
    proof fn lemma_round_trip(m: SecurityResult, rest: Seq<u8>) {
        lemma_be32_of_bytes32(0, rest);
        lemma_be32_of_bytes32(1, rest);
    }
}

/// The client's first message after the security handshake.
#[derive(Debug, Clone, Copy, PartialEq, Eq, Structural)]
pub struct ClientInit {
    pub shared: bool,
}

impl View for ClientInit {
    type V = ClientInit;

    open spec fn view(&self) -> ClientInit {
        *self
    }
}

impl Message for ClientInit {
    open spec fn encode(m: ClientInit) -> Seq<u8> {
        seq![flag_byte(m.shared)]
    }

    open spec fn decode(s: Seq<u8>) -> Result<(ClientInit, nat), Error> {
        if s.len() < 1 {
            eof()
        } else {
            Ok((ClientInit { shared: s[0] != 0 }, 1))
        }
    }

    open spec fn fits(m: ClientInit) -> bool {
        true
    }

    fn read_from(reader: &mut Reader) -> (r: Result<ClientInit, Error>) {
        let shared = reader.read_u8()? != 0;
        Ok(ClientInit { shared })
    }

    fn write_to(&self, writer: &mut Vec<u8>) -> (r: Result<(), Error>) {
        put_u8(writer, if self.shared { 1 } else { 0 });
        assert(writer@ =~= old(writer)@ + seq![flag_byte(self.shared)]);
        Ok(())
    }

    #[verifier::rlimit(60)]
    proof fn lemma_round_trip(m: ClientInit, rest: Seq<u8>) {
    }
}

/// The source of a rectangle that the client copies within its own framebuffer.
#[derive(Debug, Clone, Copy, PartialEq, Eq, Structural)]
pub struct CopyRect {
    pub src_x_position: u16,
    pub src_y_position: u16,
}

impl View for CopyRect {
    type V = CopyRect;

    open spec fn view(&self) -> CopyRect {
        *self
    }
}

impl Message for CopyRect {
    open spec fn encode(m: CopyRect) -> Seq<u8> {
        bytes16(m.src_x_position) + bytes16(m.src_y_position)
    }

    open spec fn decode(s: Seq<u8>) -> Result<(CopyRect, nat), Error> {
        if s.len() < 4 {
            eof()
        } else {
            Ok((CopyRect { src_x_position: be16(s, 0), src_y_position: be16(s, 2) }, 4))
        }
    }

    open spec fn fits(m: CopyRect) -> bool {
        true
    }

    fn read_from(reader: &mut Reader) -> (r: Result<CopyRect, Error>) {
        if reader.available() < 4 {
            return Err(Error::Io(IoError::UnexpectedEof));
        }
        let src_x_position = reader.read_u16()?;
        let src_y_position = reader.read_u16()?;
        Ok(CopyRect { src_x_position, src_y_position })
    }

    fn write_to(&self, writer: &mut Vec<u8>) -> (r: Result<(), Error>) {
        put_u16(writer, self.src_x_position);
        put_u16(writer, self.src_y_position);
        Ok(())
    }

    #[verifier::rlimit(60)]
    proof fn lemma_round_trip(m: CopyRect, rest: Seq<u8>) {
        let s = Self::encode(m) + rest;
        assert(s.subrange(0, 2) =~= bytes16(m.src_x_position));
        lemma_be16_at(s, 0, m.src_x_position);
        assert(s.subrange(2, 4) =~= bytes16(m.src_y_position));
        lemma_be16_at(s, 2, m.src_y_position);
    }
}

/// The format of a rectangle's payload, or a capability that the client announces.
#[derive(Debug, Clone, Copy, PartialEq, Eq, Structural)]
pub enum Encoding {
    Unknown(i32),
    Raw,
    CopyRect,
    Rre,
    Hextile,
    Zrle,
    Cursor,
    DesktopSize,
    ExtendedKeyEvent,
}

impl View for Encoding {
    type V = Encoding;

    open spec fn view(&self) -> Encoding {
        *self
    }
}

impl Encoding {
    /// The number that stands for the encoding on the wire.
    pub open spec fn code(self) -> i32 {
        match self {
            Encoding::Raw => 0,
            Encoding::CopyRect => 1,
            Encoding::Rre => 2,
            Encoding::Hextile => 5,
            Encoding::Zrle => 16,
            Encoding::Cursor => (-239int) as i32,
            Encoding::DesktopSize => (-223int) as i32,
            Encoding::ExtendedKeyEvent => (-258int) as i32,
            Encoding::Unknown(n) => n,
        }
    }

    /// The encoding that a number stands for; one without a name is kept as `Unknown`.
    pub open spec fn of_code(n: i32) -> Encoding {
        if n == 0 {
            Encoding::Raw
        } else if n == 1 {
            Encoding::CopyRect
        } else if n == 2 {
            Encoding::Rre
        } else if n == 5 {
            Encoding::Hextile
        } else if n == 16 {
            Encoding::Zrle
        } else if n == -239 {
            Encoding::Cursor
        } else if n == -223 {
            Encoding::DesktopSize
        } else if n == -258 {
            Encoding::ExtendedKeyEvent
        } else {
            Encoding::Unknown(n)
        }
    }

    /// Whether the value is the one that its number is read as: `Unknown`
    /// holds no number that has a name.
    pub open spec fn canonical(self) -> bool {
        Encoding::of_code(self.code()) == self
    }

    /// The number that stands for the encoding on the wire.
    pub fn to_code(&self) -> (n: i32)
        ensures
            n == self.code(),
    {
        match self {
            Encoding::Raw => 0,
            Encoding::CopyRect => 1,
            Encoding::Rre => 2,
            Encoding::Hextile => 5,
            Encoding::Zrle => 16,
            Encoding::Cursor => -239,
            Encoding::DesktopSize => -223,
            Encoding::ExtendedKeyEvent => -258,
            Encoding::Unknown(n) => *n,
        }
    }

    /// The encoding that a number stands for.
    pub fn from_code(n: i32) -> (e: Encoding)
        ensures
            e == Encoding::of_code(n),
            e.canonical(),
    {
        match n {
            0 => Encoding::Raw,
            1 => Encoding::CopyRect,
            2 => Encoding::Rre,
            5 => Encoding::Hextile,
            16 => Encoding::Zrle,
            -239 => Encoding::Cursor,
            -223 => Encoding::DesktopSize,
            -258 => Encoding::ExtendedKeyEvent,
            n => Encoding::Unknown(n),
        }
    }
}

/// The four bytes of an encoding.
pub open spec fn encode_encoding(m: Encoding) -> Seq<u8> {
    bytes32(unsigned32(m.code()))
}

/// The encoding that the four bytes at the start of `s` hold.
pub open spec fn decode_encoding(s: Seq<u8>) -> Result<(Encoding, nat), Error> {
    if s.len() < 4 {
        eof()
    } else {
        Ok((Encoding::of_code(signed32(be32(s, 0))), 4))
    }
}

impl Message for Encoding {
    open spec fn encode(m: Encoding) -> Seq<u8> {
        encode_encoding(m)
    }

    open spec fn decode(s: Seq<u8>) -> Result<(Encoding, nat), Error> {
        decode_encoding(s)
    }

    open spec fn fits(m: Encoding) -> bool {
        m.canonical()
    }

    fn read_from(reader: &mut Reader) -> (r: Result<Encoding, Error>) {
        let encoding = reader.read_i32()?;
        Ok(Encoding::from_code(encoding))
    }

    fn write_to(&self, writer: &mut Vec<u8>) -> (r: Result<(), Error>) {
        put_i32(writer, self.to_code());
        Ok(())
    }

    #[verifier::rlimit(60)]
    proof fn lemma_round_trip(m: Encoding, rest: Seq<u8>) {
        lemma_be32_of_bytes32(unsigned32(m.code()), rest);
        lemma_signed_unsigned(m.code(), 0);
    }
}

/// What stands before the payload of each rectangle of a framebuffer update.
#[derive(Debug, Clone, Copy, PartialEq, Eq, Structural)]
pub struct RectangleHeader {
    pub x_position: u16,
    pub y_position: u16,
    pub width: u16,
    pub height: u16,
    pub encoding: Encoding,
}

impl View for RectangleHeader {
    type V = RectangleHeader;

    open spec fn view(&self) -> RectangleHeader {
        *self
    }
}

/// The twelve bytes of a rectangle header.
pub open spec fn encode_rectangle_header(m: RectangleHeader) -> Seq<u8> {
    bytes16(m.x_position) + bytes16(m.y_position) + bytes16(m.width) + bytes16(m.height)
        + encode_encoding(m.encoding)
}

/// The rectangle header that the twelve bytes at the start of `s` hold.
pub open spec fn decode_rectangle_header(s: Seq<u8>) -> Result<(RectangleHeader, nat), Error> {
    if s.len() < 12 {
        eof()
    } else {
        Ok(
            (
                RectangleHeader {
                    x_position: be16(s, 0),
                    y_position: be16(s, 2),
                    width: be16(s, 4),
                    height: be16(s, 6),
                    encoding: Encoding::of_code(signed32(be32(s, 8))),
                },
                12,
            ),
        )
    }
}

impl Message for RectangleHeader {
    open spec fn encode(m: RectangleHeader) -> Seq<u8> {
        encode_rectangle_header(m)
    }

    open spec fn decode(s: Seq<u8>) -> Result<(RectangleHeader, nat), Error> {
        decode_rectangle_header(s)
    }

    open spec fn fits(m: RectangleHeader) -> bool {
        m.encoding.canonical()
    }

    fn read_from(reader: &mut Reader) -> (r: Result<RectangleHeader, Error>) {
        if reader.available() < 12 {
            return Err(Error::Io(IoError::UnexpectedEof));
        }
        let x_position = reader.read_u16()?;
        let y_position = reader.read_u16()?;
        let width = reader.read_u16()?;
        let height = reader.read_u16()?;
        let encoding = Encoding::from_code(reader.read_i32()?);
        Ok(RectangleHeader { x_position, y_position, width, height, encoding })
    }

    fn write_to(&self, writer: &mut Vec<u8>) -> (r: Result<(), Error>) {
        put_u16(writer, self.x_position);
        put_u16(writer, self.y_position);
        put_u16(writer, self.width);
        put_u16(writer, self.height);
        put_i32(writer, self.encoding.to_code());
        assert(writer@ =~= old(writer)@ + encode_rectangle_header(*self));
        Ok(())
    }

    #[verifier::rlimit(60)]
    proof fn lemma_round_trip(m: RectangleHeader, rest: Seq<u8>) {
        let s = encode_rectangle_header(m) + rest;
        assert(s.subrange(0, 2) =~= bytes16(m.x_position));
        lemma_be16_at(s, 0, m.x_position);
        assert(s.subrange(2, 4) =~= bytes16(m.y_position));
        lemma_be16_at(s, 2, m.y_position);
        assert(s.subrange(4, 6) =~= bytes16(m.width));
        lemma_be16_at(s, 4, m.width);
        assert(s.subrange(6, 8) =~= bytes16(m.height));
        lemma_be16_at(s, 6, m.height);
        assert(s.subrange(8, 12) =~= bytes32(unsigned32(m.encoding.code())));
        lemma_be32_at(s, 8, unsigned32(m.encoding.code()));
        lemma_signed_unsigned(m.encoding.code(), 0);
    }
}

/// One entry of the colour map.
#[derive(Debug, Clone, Copy, PartialEq, Eq, Structural)]
pub struct Colour {
    pub red: u16,
    pub green: u16,
    pub blue: u16,
}

impl View for Colour {
    type V = Colour;

    open spec fn view(&self) -> Colour {
        *self
    }
}

/// The six bytes of a colour.
pub open spec fn encode_colour(m: Colour) -> Seq<u8> {
    bytes16(m.red) + bytes16(m.green) + bytes16(m.blue)
}

/// The colour whose six bytes stand at `at` in `s`.
pub open spec fn colour_at(s: Seq<u8>, at: int) -> Colour {
    Colour { red: be16(s, at), green: be16(s, at + 2), blue: be16(s, at + 4) }
}

impl Message for Colour {
    open spec fn encode(m: Colour) -> Seq<u8> {
        encode_colour(m)
    }

    open spec fn decode(s: Seq<u8>) -> Result<(Colour, nat), Error> {
        if s.len() < 6 {
            eof()
        } else {
            Ok((colour_at(s, 0), 6))
        }
    }

    open spec fn fits(m: Colour) -> bool {
        true
    }

    fn read_from(reader: &mut Reader) -> (r: Result<Colour, Error>) {
        if reader.available() < 6 {
            return Err(Error::Io(IoError::UnexpectedEof));
        }
        let red = reader.read_u16()?;
        let green = reader.read_u16()?;
        let blue = reader.read_u16()?;
        Ok(Colour { red, green, blue })
    }

    fn write_to(&self, writer: &mut Vec<u8>) -> (r: Result<(), Error>) {
        put_u16(writer, self.red);
        put_u16(writer, self.green);
        put_u16(writer, self.blue);
        assert(writer@ =~= old(writer)@ + encode_colour(*self));
        Ok(())
    }

    #[verifier::rlimit(60)]
    proof fn lemma_round_trip(m: Colour, rest: Seq<u8>) {
        let s = encode_colour(m) + rest;
        assert(s.subrange(0, 2) =~= bytes16(m.red));
        lemma_be16_at(s, 0, m.red);
        assert(s.subrange(2, 4) =~= bytes16(m.green));
        lemma_be16_at(s, 2, m.green);
        assert(s.subrange(4, 6) =~= bytes16(m.blue));
        lemma_be16_at(s, 4, m.blue);
    }
}

impl View for Rect {
    type V = Rect;

    open spec fn view(&self) -> Rect {
        *self
    }
}

/// The eight bytes of a rectangle: left, top, width, height.
pub open spec fn encode_rect(m: Rect) -> Seq<u8> {
    bytes16(m.left) + bytes16(m.top) + bytes16(m.width) + bytes16(m.height)
}

/// The rectangle whose eight bytes stand at `at` in `s`.
pub open spec fn rect_at(s: Seq<u8>, at: int) -> Rect {
    Rect { left: be16(s, at), top: be16(s, at + 2), width: be16(s, at + 4), height: be16(s, at + 6) }
}

impl Message for Rect {
    open spec fn encode(m: Rect) -> Seq<u8> {
        encode_rect(m)
    }

    open spec fn decode(s: Seq<u8>) -> Result<(Rect, nat), Error> {
        if s.len() < 8 {
            eof()
        } else {
            Ok((rect_at(s, 0), 8))
        }
    }

    open spec fn fits(m: Rect) -> bool {
        true
    }

    fn read_from(reader: &mut Reader) -> (r: Result<Rect, Error>) {
        if reader.available() < 8 {
            return Err(Error::Io(IoError::UnexpectedEof));
        }
        let left = reader.read_u16()?;
        let top = reader.read_u16()?;
        let width = reader.read_u16()?;
        let height = reader.read_u16()?;
        Ok(Rect { left, top, width, height })
    }

    fn write_to(&self, writer: &mut Vec<u8>) -> (r: Result<(), Error>) {
        put_u16(writer, self.left);
        put_u16(writer, self.top);
        put_u16(writer, self.width);
        put_u16(writer, self.height);
        assert(writer@ =~= old(writer)@ + encode_rect(*self));
        Ok(())
    }

    #[verifier::rlimit(60)]
    proof fn lemma_round_trip(m: Rect, rest: Seq<u8>) {
        let s = encode_rect(m) + rest;
        assert(s.subrange(0, 2) =~= bytes16(m.left));
        lemma_be16_at(s, 0, m.left);
        assert(s.subrange(2, 4) =~= bytes16(m.top));
        lemma_be16_at(s, 2, m.top);
        assert(s.subrange(4, 6) =~= bytes16(m.width));
        lemma_be16_at(s, 4, m.width);
        assert(s.subrange(6, 8) =~= bytes16(m.height));
        lemma_be16_at(s, 6, m.height);
    }
}

/// What the server tells the client at the end of the handshake.
#[derive(Debug, PartialEq, Eq)]
pub struct ServerInit {
    pub framebuffer_width: u16,
    pub framebuffer_height: u16,
    pub pixel_format: PixelFormat,
    pub name: String,
}

/// The model of a `ServerInit`.
pub struct ServerInitView {
    pub framebuffer_width: u16,
    pub framebuffer_height: u16,
    pub pixel_format: PixelFormat,
    pub name: Seq<char>,
}

impl View for ServerInit {
    type V = ServerInitView;

    open spec fn view(&self) -> ServerInitView {
        ServerInitView {
            framebuffer_width: self.framebuffer_width,
            framebuffer_height: self.framebuffer_height,
            pixel_format: self.pixel_format,
            name: self.name@,
        }
    }
}

/// Size, pixel format and length-prefixed name.
pub open spec fn encode_server_init(m: ServerInitView) -> Seq<u8> {
    bytes16(m.framebuffer_width) + bytes16(m.framebuffer_height) + encode_pixel_format(
        m.pixel_format,
    ) + encode_text(m.name)
}

/// The `ServerInit` that `s` starts with.
pub open spec fn decode_server_init(s: Seq<u8>) -> Result<(ServerInitView, nat), Error> {
    if s.len() < 20 {
        eof()
    } else {
        match decode_text(s.skip(20)) {
            Ok((name, n)) => Ok(
                (
                    ServerInitView {
                        framebuffer_width: be16(s, 0),
                        framebuffer_height: be16(s, 2),
                        pixel_format: decode_pixel_format(s.skip(4))->Ok_0.0,
                        name,
                    },
                    20 + n,
                ),
            ),
            Err(e) => Err(e),
        }
    }
}

impl Message for ServerInit {
    open spec fn encode(m: ServerInitView) -> Seq<u8> {
        encode_server_init(m)
    }

    open spec fn decode(s: Seq<u8>) -> Result<(ServerInitView, nat), Error> {
        decode_server_init(s)
    }

    open spec fn fits(m: ServerInitView) -> bool {
        m.name.len() <= u32::MAX && is_latin1(m.name)
    }

    fn read_from(reader: &mut Reader) -> (r: Result<ServerInit, Error>) {
        if reader.available() < 20 {
            return Err(Error::Io(IoError::UnexpectedEof));
        }
        let framebuffer_width = reader.read_u16()?;
        let framebuffer_height = reader.read_u16()?;
        proof {
            lemma_advance(*old(reader), *reader, 4);
        }
        let pixel_format = PixelFormat::read_from(reader)?;
        proof {
            lemma_advance(*old(reader), *reader, 20);
        }
        let name = String::read_from(reader)?;
        Ok(ServerInit { framebuffer_width, framebuffer_height, pixel_format, name })
    }

    fn write_to(&self, writer: &mut Vec<u8>) -> (r: Result<(), Error>) {
        put_u16(writer, self.framebuffer_width);
        put_u16(writer, self.framebuffer_height);
        let _ = self.pixel_format.write_to(writer);
        let _ = self.name.write_to(writer);
        assert(writer@ =~= old(writer)@ + encode_server_init(self@));
        Ok(())
    }

    #[verifier::rlimit(60)]
    proof fn lemma_round_trip(m: ServerInitView, rest: Seq<u8>) {
        let s = encode_server_init(m) + rest;
        assert(s.subrange(0, 2) =~= bytes16(m.framebuffer_width));
        lemma_be16_at(s, 0, m.framebuffer_width);
        assert(s.subrange(2, 4) =~= bytes16(m.framebuffer_height));
        lemma_be16_at(s, 2, m.framebuffer_height);
        assert(s.skip(4) =~= encode_pixel_format(m.pixel_format) + (encode_text(m.name) + rest));
        PixelFormat::lemma_round_trip(m.pixel_format, encode_text(m.name) + rest);
        assert(s.skip(20) =~= encode_text(m.name) + rest);
        String::lemma_round_trip(m.name, rest);
    }
}

/// What the server sends to open the Apple Remote Desktop key exchange.
#[derive(Debug, PartialEq, Eq)]
pub struct AppleAuthHandshake {
    pub generator: u16,
    pub prime: Vec<u8>,
    pub peer_key: Vec<u8>,
}

/// The model of an `AppleAuthHandshake`.
pub struct AppleAuthHandshakeView {
    pub generator: u16,
    pub prime: Seq<u8>,
    pub peer_key: Seq<u8>,
}

impl View for AppleAuthHandshake {
    type V = AppleAuthHandshakeView;

    open spec fn view(&self) -> AppleAuthHandshakeView {
        AppleAuthHandshakeView {
            generator: self.generator,
            prime: self.prime@,
            peer_key: self.peer_key@,
        }
    }
}

/// The length field of `n` items in sixteen bits.
pub open spec fn length16(n: nat) -> u16 {
    (n % 0x1_0000) as u16
}

/// Generator, key length, prime and the server's public key; the two of the key length.
pub open spec fn encode_apple_handshake(m: AppleAuthHandshakeView) -> Seq<u8> {
    bytes16(m.generator) + bytes16(length16(m.prime.len())) + m.prime + m.peer_key
}

/// The key-exchange opening that `s` starts with.
pub open spec fn decode_apple_handshake(s: Seq<u8>) -> Result<(AppleAuthHandshakeView, nat), Error> {
    if s.len() < 4 {
        eof()
    } else if s.len() - 4 < 2 * be16(s, 2) {
        eof()
    } else {
        Ok(
            (
                AppleAuthHandshakeView {
                    generator: be16(s, 0),
                    prime: s.subrange(4, 4 + be16(s, 2)),
                    peer_key: s.subrange(4 + be16(s, 2), 4 + 2 * be16(s, 2)),
                },
                (4 + 2 * be16(s, 2)) as nat,
            ),
        )
    }
}

impl Message for AppleAuthHandshake {
    open spec fn encode(m: AppleAuthHandshakeView) -> Seq<u8> {
        encode_apple_handshake(m)
    }

    open spec fn decode(s: Seq<u8>) -> Result<(AppleAuthHandshakeView, nat), Error> {
        decode_apple_handshake(s)
    }

    open spec fn fits(m: AppleAuthHandshakeView) -> bool {
        m.prime.len() <= 0xffff && m.peer_key.len() == m.prime.len()
    }

    fn read_from(reader: &mut Reader) -> (r: Result<AppleAuthHandshake, Error>) {
        let ghost s = reader.remaining();
        if reader.available() < 4 {
            return Err(Error::Io(IoError::UnexpectedEof));
        }
        let generator = reader.read_u16()?;
        let key_length = reader.read_u16()?;
        if reader.available() < 2 * (key_length as usize) {
            return Err(Error::Io(IoError::UnexpectedEof));
        }
        let prime = reader.read_bytes(key_length as usize)?;
        let peer_key = reader.read_bytes(key_length as usize)?;
        assert(prime@ =~= s.subrange(4, 4 + key_length));
        assert(peer_key@ =~= s.subrange(4 + key_length, 4 + 2 * key_length));
        Ok(AppleAuthHandshake { generator, prime, peer_key })
    }

    fn write_to(&self, writer: &mut Vec<u8>) -> (r: Result<(), Error>) {
        put_u16(writer, self.generator);
        put_u16(writer, (self.prime.len() % 0x1_0000) as u16);
        put_bytes(writer, self.prime.as_slice());
        put_bytes(writer, self.peer_key.as_slice());
        Ok(())
    }

    #[verifier::rlimit(60)]
    proof fn lemma_round_trip(m: AppleAuthHandshakeView, rest: Seq<u8>) {
        let s = encode_apple_handshake(m) + rest;
        assert(s.subrange(0, 2) =~= bytes16(m.generator));
        lemma_be16_at(s, 0, m.generator);
        assert(s.subrange(2, 4) =~= bytes16(length16(m.prime.len())));
        lemma_be16_at(s, 2, length16(m.prime.len()));
        assert(s.subrange(4, 4 + m.prime.len() as int) =~= m.prime);
        assert(s.subrange(4 + m.prime.len() as int, 4 + 2 * m.prime.len() as int) =~= m.peer_key);
    }
}

/// What the client answers in the Apple Remote Desktop key exchange.
#[derive(Debug, PartialEq, Eq)]
pub struct AppleAuthResponse {
    pub ciphertext: [u8; 128],
    pub pub_key: Vec<u8>,
}

/// The model of an `AppleAuthResponse`.
pub struct AppleAuthResponseView {
    pub ciphertext: Seq<u8>,
    pub pub_key: Seq<u8>,
}

impl View for AppleAuthResponse {
    type V = AppleAuthResponseView;

    open spec fn view(&self) -> AppleAuthResponseView {
        AppleAuthResponseView { ciphertext: self.ciphertext@, pub_key: self.pub_key@ }
    }
}

/// The encrypted credentials, then the client's public key.
pub open spec fn encode_apple_response(m: AppleAuthResponseView) -> Seq<u8> {
    m.ciphertext + m.pub_key
}

/// The response that `s` starts with, for a public key of `key_length` bytes.
pub open spec fn decode_apple_response(s: Seq<u8>, key_length: nat) -> Result<
    (AppleAuthResponseView, nat),
    Error,
> {
    if s.len() < 128 + key_length {
        eof()
    } else {
        Ok(
            (
                AppleAuthResponseView {
                    ciphertext: s.subrange(0, 128),
                    pub_key: s.subrange(128, 128 + key_length as int),
                },
                128 + key_length,
            ),
        )
    }
}

impl AppleAuthResponse {
    /// Reads a response. The message does not say how long the public key
    /// is: the reader knows it from the handshake that it answers.
    pub fn read_from(reader: &mut Reader, key_length: u16) -> (r: Result<AppleAuthResponse, Error>)
        ensures
            final(reader).input() == old(reader).input(),
            final(reader).offset() <= final(reader).input().len(),
            match decode_apple_response(old(reader).remaining(), key_length as nat) {
                Ok((m, n)) => (r matches Ok(v) && v@ == m) && final(reader).offset() == old(
                    reader,
                ).offset() + n,
                Err(e) => r matches Err(e2) && e2 == e,
            },
    {
        let ghost s = reader.remaining();
        if reader.available() < 128 + key_length as usize {
            return Err(Error::Io(IoError::UnexpectedEof));
        }
        let mut ciphertext: [u8; 128] = [0u8; 128];
        let mut i: usize = 0;
        while i < 128
            invariant
                i <= 128,
                reader.input() == old(reader).input(),
                reader.offset() == old(reader).offset() + i,
                s == old(reader).remaining(),
                s.len() >= 128 + key_length,
                old(reader).offset() + s.len() == old(reader).input().len(),
                forall|j: int| 0 <= j < i ==> ciphertext@[j] == s[j],
            decreases 128 - i,
        {
            let b = reader.read_u8()?;
            ciphertext[i] = b;
            i = i + 1;
        }
        let pub_key = reader.read_bytes(key_length as usize)?;
        assert(ciphertext@ =~= s.subrange(0, 128));
        assert(pub_key@ =~= s.subrange(128, 128 + key_length));
        Ok(AppleAuthResponse { ciphertext, pub_key })
    }

    /// Appends the response to `writer`.
    pub fn write_to(&self, writer: &mut Vec<u8>) -> (r: Result<(), Error>)
        ensures
            r is Ok,
            final(writer)@ == old(writer)@ + encode_apple_response(self@),
    {
        let mut i: usize = 0;
        while i < 128
            invariant
                i <= 128,
                writer@ == old(writer)@ + self.ciphertext@.subrange(0, i as int),
            decreases 128 - i,
        {
            put_u8(writer, self.ciphertext[i]);
            i = i + 1;
            assert(writer@ =~= old(writer)@ + self.ciphertext@.subrange(0, i as int));
        }
        assert(self.ciphertext@.subrange(0, 128) =~= self.ciphertext@);
        put_bytes(writer, self.pub_key.as_slice());
        assert(writer@ =~= old(writer)@ + encode_apple_response(self@));
        Ok(())
    }

    /// Decoding what was encoded gives the response back, whatever follows it.
    pub proof fn lemma_round_trip(m: AppleAuthResponseView, rest: Seq<u8>)
        requires
            m.ciphertext.len() == 128,
        ensures
            decode_apple_response(encode_apple_response(m) + rest, m.pub_key.len()) == Ok::<
                (AppleAuthResponseView, nat),
                Error,
            >((m, encode_apple_response(m).len())),
    {
        let s = encode_apple_response(m) + rest;
        assert(s.subrange(0, 128) =~= m.ciphertext);
        assert(s.subrange(128, 128 + m.pub_key.len() as int) =~= m.pub_key);
    }
}

} // verus!
