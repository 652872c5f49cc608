//! The messages that a server sends once the session runs.

use crate::error::{Error, IoError};
use crate::protocol::{
    colour_at, decode_text, encode_colour, encode_text, eof, is_latin1, length16, Colour, Message,
};
use crate::wire::{
    be16, bytes16, lemma_advance, lemma_be16_at, put_u16, put_u8, put_zeros, zeros, Reader,
};
use vstd::prelude::*;

verus! {

/// A message from the server to the client. The rectangles of a framebuffer
/// update follow its header and are not part of this value.
#[derive(Debug, PartialEq, Eq)]
pub enum S2C {
    FramebufferUpdate { count: u16 },
    SetColourMapEntries { first_colour: u16, colours: Vec<Colour> },
    Bell,
    CutText(String),
}

/// The model of an `S2C`.
pub enum S2CView {
    FramebufferUpdate { count: u16 },
    SetColourMapEntries { first_colour: u16, colours: Seq<Colour> },
    Bell,
    CutText(Seq<char>),
}

impl View for S2C {
    type V = S2CView;

    open spec fn view(&self) -> S2CView {
        match *self {
            S2C::FramebufferUpdate { count } => S2CView::FramebufferUpdate { count },
            S2C::SetColourMapEntries { first_colour, colours } => S2CView::SetColourMapEntries {
                first_colour,
                colours: colours@,
            },
            S2C::Bell => S2CView::Bell,
            S2C::CutText(text) => S2CView::CutText(text@),
        }
    }
}

/// The bytes of a list of colours: six for each, in order.
pub open spec fn encode_colours(m: Seq<Colour>) -> Seq<u8> {
    Seq::new(6 * m.len(), |k: int| encode_colour(m[k / 6])[k % 6])
}

/// The `count` colours whose bytes stand at the start of `s`.
pub open spec fn decode_colours(s: Seq<u8>, count: nat) -> Seq<Colour> {
    Seq::new(count, |i: int| colour_at(s, 6 * i))
}

/// The bytes of a server message: its tag, then its fields.
pub open spec fn encode_s2c(m: S2CView) -> Seq<u8> {
    match m {
        S2CView::FramebufferUpdate { count } => seq![0u8] + zeros(1) + bytes16(count),
        S2CView::SetColourMapEntries { first_colour, colours } => seq![1u8] + zeros(1) + bytes16(
            first_colour,
        ) + bytes16(length16(colours.len())) + encode_colours(colours),
        S2CView::Bell => seq![2u8],
        S2CView::CutText(text) => seq![3u8] + zeros(3) + encode_text(text),
    }
}

/// The server message that `s` starts with. An empty input is the end of the
/// session; a message that breaks off is a failure of the transport.
pub open spec fn decode_s2c(s: Seq<u8>) -> Result<(S2CView, nat), Error> {
    if s.len() < 1 {
        Err(Error::Disconnected)
    } else if s[0] == 0 {
        if s.len() < 4 {
            eof()
        } else {
            Ok((S2CView::FramebufferUpdate { count: be16(s, 2) }, 4))
        }
    } else if s[0] == 1 {
        if s.len() < 6 {
            eof()
        } else if s.len() - 6 < 6 * be16(s, 4) {
            eof()
        } else {
            Ok(
                (
                    S2CView::SetColourMapEntries {
                        first_colour: be16(s, 2),
                        colours: decode_colours(s.skip(6), be16(s, 4) as nat),
                    },
                    (6 + 6 * be16(s, 4)) as nat,
                ),
            )
        }
    } else if s[0] == 2 {
        Ok((S2CView::Bell, 1))
    } else if s[0] == 3 {
        if s.len() < 4 {
            eof()
        } else {
            match decode_text(s.skip(4)) {
                Ok((text, n)) => Ok((S2CView::CutText(text), 4 + n)),
                Err(e) => Err(e),
            }
        }
    } else {
        Err(Error::Unexpected("server to client message type"))
    }
}

/// Whether a server message can be written without loss.
pub open spec fn s2c_fits(m: S2CView) -> bool {
    match m {
        S2CView::SetColourMapEntries { first_colour, colours } => colours.len() <= 0xffff,
        S2CView::CutText(text) => text.len() <= u32::MAX && is_latin1(text),
        _ => true,
    }
}

impl Message for S2C {
    open spec fn encode(m: S2CView) -> Seq<u8> {
        encode_s2c(m)
    }

    open spec fn decode(s: Seq<u8>) -> Result<(S2CView, nat), Error> {
        decode_s2c(s)
    }

    open spec fn fits(m: S2CView) -> bool {
        s2c_fits(m)
    }

    /// Reads one message. Where the tag is refused, the cursor stands behind
    /// the tag: one byte was passed.
    fn read_from(reader: &mut Reader) -> (r: Result<S2C, Error>)
        ensures
            r matches Err(Error::Unexpected(_)) ==> final(reader).offset() == old(reader).offset()
                + 1,
    {
        let ghost s = reader.remaining();
        if reader.available() < 1 {
            return Err(Error::Disconnected);
        }
        let message_type = reader.read_u8()?;
        match message_type {
            0 => {
                if reader.available() < 3 {
                    return Err(Error::Io(IoError::UnexpectedEof));
                }
                reader.skip(1)?;
                let count = reader.read_u16()?;
                Ok(S2C::FramebufferUpdate { count })
            },
            1 => {
                if reader.available() < 5 {
                    return Err(Error::Io(IoError::UnexpectedEof));
                }
                reader.skip(1)?;
                let first_colour = reader.read_u16()?;
                let count = reader.read_u16()?;
                if reader.available() / 6 < count as usize {
                    return Err(Error::Io(IoError::UnexpectedEof));
                }
                let mut colours: Vec<Colour> = Vec::new();
                let mut i: u16 = 0;
                while i < count
                    invariant
                        i <= count,
                        reader.input() == old(reader).input(),
                        reader.offset() == old(reader).offset() + 6 + 6 * i,
                        s == old(reader).remaining(),
                        s.len() >= 6 + 6 * count,
                        old(reader).offset() + s.len() == old(reader).input().len(),
                        colours@ == decode_colours(s.skip(6), i as nat),
                    decreases count - i,
                {
                    let red = reader.read_u16()?;
                    let green = reader.read_u16()?;
                    let blue = reader.read_u16()?;
                    colours.push(Colour { red, green, blue });
                    i = i + 1;
                    assert(colours@ =~= decode_colours(s.skip(6), i as nat));
                }
                Ok(S2C::SetColourMapEntries { first_colour, colours })
            },
            2 => Ok(S2C::Bell),
            3 => {
                reader.skip(3)?;
                proof {
                    lemma_advance(*old(reader), *reader, 4);
                }
                let text = String::read_from(reader)?;
                Ok(S2C::CutText(text))
            },
            _ => Err(Error::Unexpected("server to client message type")),
        }
    }

    fn write_to(&self, writer: &mut Vec<u8>) -> (r: Result<(), Error>) {
        match self {
            S2C::FramebufferUpdate { count } => {
                put_u8(writer, 0);
                put_zeros(writer, 1);
                put_u16(writer, *count);
                assert(writer@ =~= old(writer)@ + encode_s2c(self@));
            },
            S2C::SetColourMapEntries { first_colour, colours } => {
                put_u8(writer, 1);
                put_zeros(writer, 1);
                put_u16(writer, *first_colour);
                put_u16(writer, (colours.len() % 0x1_0000) as u16);
                let ghost head = writer@;
                let mut i: usize = 0;
                while i < colours.len()
                    invariant
                        i <= colours.len(),
                        writer@ == head + encode_colours(colours@.subrange(0, i as int)),
                    decreases colours.len() - i,
                {
                    put_u16(writer, colours[i].red);
                    put_u16(writer, colours[i].green);
                    put_u16(writer, colours[i].blue);
                    i = i + 1;
                    assert(writer@ =~= head + encode_colours(colours@.subrange(0, i as int)));
                }
                assert(colours@.subrange(0, i as int) =~= colours@);
                assert(writer@ =~= old(writer)@ + encode_s2c(self@));
            },
            S2C::Bell => {
                put_u8(writer, 2);
                assert(writer@ =~= old(writer)@ + encode_s2c(self@));
            },
            S2C::CutText(text) => {
                put_u8(writer, 3);
                put_zeros(writer, 3);
                let _ = text.write_to(writer);
                assert(writer@ =~= old(writer)@ + encode_s2c(self@));
            },
        }
        Ok(())
    }

    #[verifier::rlimit(60)]
    proof fn lemma_round_trip(m: S2CView, rest: Seq<u8>) {
        let s = encode_s2c(m) + rest;
        match m {
            S2CView::FramebufferUpdate { count } => {
                assert(s.subrange(2, 4) =~= bytes16(count));
                lemma_be16_at(s, 2, count);
            },
            S2CView::SetColourMapEntries { first_colour, colours } => {
                assert(s.subrange(2, 4) =~= bytes16(first_colour));
                lemma_be16_at(s, 2, first_colour);
                assert(s.subrange(4, 6) =~= bytes16(length16(colours.len())));
                lemma_be16_at(s, 4, length16(colours.len()));
                assert forall|i: int| 0 <= i < colours.len() implies decode_colours(
                    s.skip(6),
                    colours.len(),
                )[i] == colours[i] by {
                    let c = colours[i];
                    let e = encode_colours(colours);
                    assert(e[6 * i] == encode_colour(c)[0]);
                    assert(e[6 * i + 1] == encode_colour(c)[1]);
                    assert(e[6 * i + 2] == encode_colour(c)[2]);
                    assert(e[6 * i + 3] == encode_colour(c)[3]);
                    assert(e[6 * i + 4] == encode_colour(c)[4]);
                    assert(e[6 * i + 5] == encode_colour(c)[5]);
                    assert(be16(s.skip(6), 6 * i) == c.red);
                    assert(be16(s.skip(6), 6 * i + 2) == c.green);
                    assert(be16(s.skip(6), 6 * i + 4) == c.blue);
                }
                assert(decode_colours(s.skip(6), colours.len()) =~= colours);
            },
            S2CView::Bell => {},
            S2CView::CutText(text) => {
                assert(s.skip(4) =~= encode_text(text) + rest);
                String::lemma_round_trip(text, rest);
            },
        }
    }
}

} // verus!
