//! The rectangles of a framebuffer update, each with the payload that its
//! encoding asks for.

use crate::error::{Error, IoError};
use crate::protocol::{
    decode_bytes, decode_rectangle_header, encode_bytes, encode_rectangle_header, eof, CopyRect,
    Encoding, Message, PixelFormat, RectangleHeader,
};
use crate::rect::{count_mask_bytes, count_pixel_bytes, mask_bytes, pixel_bytes};
use crate::wire::{be16, bytes16, lemma_advance, put_bytes, Reader};
use vstd::prelude::*;

verus! {

/// What follows the header of a rectangle.
#[derive(Debug, PartialEq, Eq)]
pub enum Payload {
    /// The pixels of the rectangle, row by row.
    Raw(Vec<u8>),
    /// Where in the framebuffer the pixels are to be taken from.
    CopyRect(CopyRect),
    /// The compressed tiles of the rectangle.
    Zrle(Vec<u8>),
    /// The picture of the pointer and the mask of its shape.
    Cursor { pixels: Vec<u8>, mask_bits: Vec<u8> },
    /// Nothing: the header holds the new size of the framebuffer.
    DesktopSize,
}

/// The model of a `Payload`.
pub enum PayloadView {
    Raw(Seq<u8>),
    CopyRect(CopyRect),
    Zrle(Seq<u8>),
    Cursor { pixels: Seq<u8>, mask_bits: Seq<u8> },
    DesktopSize,
}

impl View for Payload {
    type V = PayloadView;

    open spec fn view(&self) -> PayloadView {
        match *self {
            Payload::Raw(pixels) => PayloadView::Raw(pixels@),
            Payload::CopyRect(source) => PayloadView::CopyRect(source),
            Payload::Zrle(data) => PayloadView::Zrle(data@),
            Payload::Cursor { pixels, mask_bits } => PayloadView::Cursor {
                pixels: pixels@,
                mask_bits: mask_bits@,
            },
            Payload::DesktopSize => PayloadView::DesktopSize,
        }
    }
}

/// One rectangle of a framebuffer update.
#[derive(Debug, PartialEq, Eq)]
pub struct Rectangle {
    pub header: RectangleHeader,
    pub payload: Payload,
}

/// The model of a `Rectangle`.
pub struct RectangleView {
    pub header: RectangleHeader,
    pub payload: PayloadView,
}

impl View for Rectangle {
    type V = RectangleView;

    open spec fn view(&self) -> RectangleView {
        RectangleView { header: self.header, payload: self.payload@ }
    }
}

/// The number of bytes of a pixel in a pixel buffer of the client.
pub open spec fn client_pixel_size(format: PixelFormat) -> nat {
    (format.bits_per_pixel / 8) as nat
}

/// The bytes of a payload.
pub open spec fn encode_payload(m: PayloadView) -> Seq<u8> {
    match m {
        PayloadView::Raw(pixels) => pixels,
        PayloadView::CopyRect(source) => bytes16(source.src_x_position) + bytes16(
            source.src_y_position,
        ),
        PayloadView::Zrle(data) => encode_bytes(data),
        PayloadView::Cursor { pixels, mask_bits } => pixels + mask_bits,
        PayloadView::DesktopSize => Seq::empty(),
    }
}

/// The payload that `s` starts with, for a rectangle with the header
/// `header` in a session with the pixel format `format`.
pub open spec fn decode_payload(format: PixelFormat, header: RectangleHeader, s: Seq<u8>) -> Result<
    (PayloadView, nat),
    Error,
> {
    let pixels = pixel_bytes(header.width, header.height, client_pixel_size(format));
    let mask = mask_bytes(header.width, header.height);
    match header.encoding {
        Encoding::Raw => if s.len() < pixels {
            eof()
        } else {
            Ok((PayloadView::Raw(s.subrange(0, pixels as int)), pixels))
        },
        Encoding::CopyRect => if s.len() < 4 {
            eof()
        } else {
            Ok(
                (
                    PayloadView::CopyRect(
                        CopyRect { src_x_position: be16(s, 0), src_y_position: be16(s, 2) },
                    ),
                    4,
                ),
            )
        },
        Encoding::Zrle => match decode_bytes(s) {
            Ok((data, n)) => Ok((PayloadView::Zrle(data), n)),
            Err(e) => Err(e),
        },
        Encoding::Cursor => if s.len() < pixels + mask {
            eof()
        } else {
            Ok(
                (
                    PayloadView::Cursor {
                        pixels: s.subrange(0, pixels as int),
                        mask_bits: s.subrange(pixels as int, (pixels + mask) as int),
                    },
                    pixels + mask,
                ),
            )
        },
        Encoding::DesktopSize => Ok((PayloadView::DesktopSize, 0)),
        _ => Err(Error::Unexpected("encoding")),
    }
}

/// The bytes of a rectangle: its header, then its payload.
pub open spec fn encode_rectangle(m: RectangleView) -> Seq<u8> {
    encode_rectangle_header(m.header) + encode_payload(m.payload)
}

/// The rectangle that `s` starts with.
pub open spec fn decode_rectangle(format: PixelFormat, s: Seq<u8>) -> Result<
    (RectangleView, nat),
    Error,
> {
    match decode_rectangle_header(s) {
        Err(e) => Err(e),
        Ok((header, n)) => match decode_payload(format, header, s.skip(n as int)) {
            Err(e) => Err(e),
            Ok((payload, m)) => Ok((RectangleView { header, payload }, n + m)),
        },
    }
}

/// Whether the payload is the one that the header announces, with the
/// lengths that the geometry and the pixel format ask for.
pub open spec fn rectangle_fits(format: PixelFormat, m: RectangleView) -> bool {
    let pixels = pixel_bytes(m.header.width, m.header.height, client_pixel_size(format));
    let mask = mask_bytes(m.header.width, m.header.height);
    match m.payload {
        PayloadView::Raw(data) => m.header.encoding == Encoding::Raw && data.len() == pixels,
        PayloadView::CopyRect(_) => m.header.encoding == Encoding::CopyRect,
        PayloadView::Zrle(data) => m.header.encoding == Encoding::Zrle && data.len() <= u32::MAX,
        PayloadView::Cursor { pixels: data, mask_bits } => m.header.encoding == Encoding::Cursor
            && data.len() == pixels && mask_bits.len() == mask,
        PayloadView::DesktopSize => m.header.encoding == Encoding::DesktopSize,
    }
}

/// Decoding what was encoded gives the rectangle back, whatever follows it.
#[verifier::rlimit(60)]
pub proof fn lemma_rectangle_round_trip(format: PixelFormat, m: RectangleView, rest: Seq<u8>)
    requires
        rectangle_fits(format, m),
    ensures
        decode_rectangle(format, encode_rectangle(m) + rest) == Ok::<(RectangleView, nat), Error>(
            (m, encode_rectangle(m).len()),
        ),
{
    let s = encode_rectangle(m) + rest;
    let tail = encode_payload(m.payload) + rest;
    assert(s =~= encode_rectangle_header(m.header) + tail);
    RectangleHeader::lemma_round_trip(m.header, tail);
    assert(s.skip(12) =~= tail);
    match m.payload {
        PayloadView::Raw(data) => {
            assert(tail.subrange(0, data.len() as int) =~= data);
        },
        PayloadView::CopyRect(source) => {
            CopyRect::lemma_round_trip(source, rest);
        },
        PayloadView::Zrle(data) => {
            Vec::<u8>::lemma_round_trip(data, rest);
        },
        PayloadView::Cursor { pixels, mask_bits } => {
            assert(tail.subrange(0, pixels.len() as int) =~= pixels);
            assert(tail.subrange(pixels.len() as int, (pixels.len() + mask_bits.len()) as int)
                =~= mask_bits);
        },
        PayloadView::DesktopSize => {},
    }
}

/// The `count` rectangles that `s` starts with, and the number of bytes that they take.
pub open spec fn decode_rectangles(format: PixelFormat, s: Seq<u8>, count: nat) -> Result<
    (Seq<RectangleView>, nat),
    Error,
>
    decreases count,
{
    if count == 0 {
        Ok((Seq::empty(), 0))
    } else {
        match decode_rectangle(format, s) {
            Err(e) => Err(e),
            Ok((first, n)) => match decode_rectangles(format, s.skip(n as int), (count - 1) as nat) {
                Err(e) => Err(e),
                Ok((rest, m)) => Ok((seq![first] + rest, n + m)),
            },
        }
    }
}

/// The rectangles of a vector, as a list of models.
pub open spec fn rectangles_view(rectangles: Vec<Rectangle>) -> Seq<RectangleView> {
    Seq::new(rectangles@.len(), |i: int| rectangles@[i]@)
}

impl Rectangle {
    /// Reads one rectangle: its header, and the payload that the header
    /// announces. The length of raw pixels and of a cursor follows from the
    /// pixel format of the session.
    pub fn read_from(reader: &mut Reader, format: &PixelFormat) -> (r: Result<Rectangle, Error>)
        ensures
            final(reader).input() == old(reader).input(),
            final(reader).offset() <= final(reader).input().len(),
            match decode_rectangle(*format, old(reader).remaining()) {
                Ok((m, n)) => (r matches Ok(v) && v@ == m) && final(reader).offset() == old(
                    reader,
                ).offset() + n,
                Err(e) => r matches Err(e2) && e2 == e,
            },
    {
        let header = RectangleHeader::read_from(reader)?;
        proof {
            lemma_advance(*old(reader), *reader, 12);
        }
        let ghost tail = reader.remaining();
        let bytes_per_pixel = (format.bits_per_pixel / 8) as u16;
        let payload = match header.encoding {
            Encoding::Raw => {
                let length = count_pixel_bytes(header.width, header.height, bytes_per_pixel);
                if (reader.available() as u64) < length {
                    return Err(Error::Io(IoError::UnexpectedEof));
                }
                Payload::Raw(reader.read_bytes(length as usize)?)
            },
            Encoding::CopyRect => Payload::CopyRect(CopyRect::read_from(reader)?),
            Encoding::Zrle => Payload::Zrle(Vec::<u8>::read_from(reader)?),
            Encoding::Cursor => {
                let pixels = count_pixel_bytes(header.width, header.height, bytes_per_pixel);
                let mask = count_mask_bytes(header.width, header.height);
                if (reader.available() as u64) < pixels + mask {
                    return Err(Error::Io(IoError::UnexpectedEof));
                }
                let pixels = reader.read_bytes(pixels as usize)?;
                let mask_bits = reader.read_bytes(mask as usize)?;
                assert(mask_bits@ =~= tail.subrange(pixels@.len() as int, (pixels@.len() + mask) as int));
                Payload::Cursor { pixels, mask_bits }
            },
            Encoding::DesktopSize => Payload::DesktopSize,
            _ => {
                return Err(Error::Unexpected("encoding"));
            },
        };
        Ok(Rectangle { header, payload })
    }

    /// Appends the rectangle to `writer`.
    pub fn write_to(&self, writer: &mut Vec<u8>) -> (r: Result<(), Error>)
        ensures
            r is Ok,
            final(writer)@ == old(writer)@ + encode_rectangle(self@),
    {
        let _ = self.header.write_to(writer);
        match &self.payload {
            Payload::Raw(pixels) => {
                put_bytes(writer, pixels.as_slice());
            },
            Payload::CopyRect(source) => {
                let _ = source.write_to(writer);
            },
            Payload::Zrle(data) => {
                let _ = data.write_to(writer);
            },
            Payload::Cursor { pixels, mask_bits } => {
                put_bytes(writer, pixels.as_slice());
                put_bytes(writer, mask_bits.as_slice());
            },
            Payload::DesktopSize => {},
        }
        assert(writer@ =~= old(writer)@ + encode_rectangle(self@));
        Ok(())
    }

    /// Reads the `count` rectangles of a framebuffer update.
    pub fn read_all(reader: &mut Reader, format: &PixelFormat, count: u16) -> (r: Result<
        Vec<Rectangle>,
        Error,
    >)
        ensures
            final(reader).input() == old(reader).input(),
            final(reader).offset() <= final(reader).input().len(),
            match decode_rectangles(*format, old(reader).remaining(), count as nat) {
                Ok((m, n)) => {
                    &&& r matches Ok(v) && rectangles_view(v) == m
                    &&& final(reader).offset() == old(reader).offset() + n
                },
                Err(e) => r matches Err(e2) && e2 == e,
            },
    {
        let ghost whole = decode_rectangles(*format, reader.remaining(), count as nat);
        let mut rectangles: Vec<Rectangle> = Vec::new();
        let mut k: u16 = 0;
        let _ = reader.position();
        assert(rectangles_view(rectangles) =~= Seq::<RectangleView>::empty());
        assert(rectangles_view(rectangles) + whole->Ok_0.0 =~= whole->Ok_0.0);
        while k < count
            invariant
                k <= count,
                reader.input() == old(reader).input(),
                old(reader).offset() <= reader.offset() <= reader.input().len(),
                whole == decode_rectangles(*format, old(reader).remaining(), count as nat),
                match decode_rectangles(*format, reader.remaining(), (count - k) as nat) {
                    Ok((rest, n)) => whole == Ok::<(Seq<RectangleView>, nat), Error>(
                        (
                            rectangles_view(rectangles) + rest,
                            (reader.offset() - old(reader).offset() + n) as nat,
                        ),
                    ),
                    Err(e) => whole == Err::<(Seq<RectangleView>, nat), Error>(e),
                },
            decreases count - k,
        {
            let ghost before = *reader;
            let ghost listed = rectangles_view(rectangles);
            let rectangle = Rectangle::read_from(reader, format)?;
            proof {
                let n = (reader.offset() - before.offset()) as nat;
                lemma_advance(before, *reader, n);
                let tail = decode_rectangles(*format, reader.remaining(), (count - k - 1) as nat);
                if tail is Ok {
                    assert(listed + (seq![rectangle@] + tail->Ok_0.0) =~= listed.push(rectangle@)
                        + tail->Ok_0.0);
                }
            }
            rectangles.push(rectangle);
            assert(rectangles_view(rectangles) =~= listed.push(rectangle@));
            k = k + 1;
        }
        assert(rectangles_view(rectangles) + Seq::<RectangleView>::empty() =~= rectangles_view(
            rectangles,
        ));
        Ok(rectangles)
    }
}

} // verus!
