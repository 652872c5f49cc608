//! Whole messages of the server: a framebuffer update together with its
//! rectangles.

use crate::error::Error;
use crate::protocol::{
    decode_rectangles, decode_s2c, rectangles_view, Colour, Message, PixelFormat, Rectangle,
    RectangleView, S2CView, S2C,
};
use crate::wire::{lemma_advance, Reader};
use vstd::prelude::*;

verus! {

/// A message of the server with all that belongs to it.
#[derive(Debug, PartialEq, Eq)]
pub enum ServerMessage {
    FramebufferUpdate(Vec<Rectangle>),
    SetColourMapEntries { first_colour: u16, colours: Vec<Colour> },
    Bell,
    CutText(String),
}

/// The model of a `ServerMessage`.
pub enum ServerMessageView {
    FramebufferUpdate(Seq<RectangleView>),
    SetColourMapEntries { first_colour: u16, colours: Seq<Colour> },
    Bell,
    CutText(Seq<char>),
}

impl View for ServerMessage {
    type V = ServerMessageView;

    open spec fn view(&self) -> ServerMessageView {
        match *self {
            ServerMessage::FramebufferUpdate(rectangles) => ServerMessageView::FramebufferUpdate(
                rectangles_view(rectangles),
            ),
            ServerMessage::SetColourMapEntries { first_colour, colours } =>
                ServerMessageView::SetColourMapEntries { first_colour, colours: colours@ },
            ServerMessage::Bell => ServerMessageView::Bell,
            ServerMessage::CutText(text) => ServerMessageView::CutText(text@),
        }
    }
}

/// The whole message that `s` starts with, and the number of bytes that it
/// takes: for a framebuffer update, its header and all its rectangles.
pub open spec fn decode_server_message(format: PixelFormat, s: Seq<u8>) -> Result<
    (ServerMessageView, nat),
    Error,
> {
    match decode_s2c(s) {
        Err(e) => Err(e),
        Ok((S2CView::FramebufferUpdate { count }, n)) => match decode_rectangles(
            format,
            s.skip(n as int),
            count as nat,
        ) {
            Err(e) => Err(e),
            Ok((rectangles, m)) => Ok((ServerMessageView::FramebufferUpdate(rectangles), n + m)),
        },
        Ok((S2CView::SetColourMapEntries { first_colour, colours }, n)) => Ok(
            (ServerMessageView::SetColourMapEntries { first_colour, colours }, n),
        ),
        Ok((S2CView::Bell, n)) => Ok((ServerMessageView::Bell, n)),
        Ok((S2CView::CutText(text), n)) => Ok((ServerMessageView::CutText(text), n)),
    }
}

impl ServerMessage {
    /// Reads one whole message. Nothing is handed out before all of it is
    /// there. Where the tag of the message is refused, the cursor stands
    /// behind the tag.
    pub fn read_from(reader: &mut Reader, format: &PixelFormat) -> (r: Result<ServerMessage, Error>)
        ensures
            final(reader).input() == old(reader).input(),
            final(reader).offset() <= final(reader).input().len(),
            match decode_server_message(*format, old(reader).remaining()) {
                Ok((m, n)) => (r matches Ok(v) && v@ == m) && final(reader).offset() == old(
                    reader,
                ).offset() + n,
                Err(e) => r matches Err(e2) && e2 == e,
            },
            decode_s2c(old(reader).remaining()) matches Err(Error::Unexpected(_))
                ==> final(reader).offset() == old(reader).offset() + 1,
    {
        let message = S2C::read_from(reader)?;
        match message {
            S2C::FramebufferUpdate { count } => {
                proof {
                    let n = (reader.offset() - old(reader).offset()) as nat;
                    lemma_advance(*old(reader), *reader, n);
                }
                let rectangles = Rectangle::read_all(reader, format, count)?;
                Ok(ServerMessage::FramebufferUpdate(rectangles))
            },
            S2C::SetColourMapEntries { first_colour, colours } => Ok(
                ServerMessage::SetColourMapEntries { first_colour, colours },
            ),
            S2C::Bell => Ok(ServerMessage::Bell),
            S2C::CutText(text) => Ok(ServerMessage::CutText(text)),
        }
    }
}

} // verus!
