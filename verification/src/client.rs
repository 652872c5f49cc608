//! The client side: the events that the server's messages stand for, and the
//! session that queues them and frames the client's commands.

use crate::error::Error;
use crate::protocol::{
    decode_s2c, decode_server_message, rectangles_view, Colour, Encoding, Payload, PayloadView,
    PixelFormat, Rectangle, RectangleView, ServerMessage, ServerMessageView,
};
use crate::rect::Rect;
use crate::wire::{reversed, Reader};
use crate::zrle::{
    decoded_as, decoded_tiles, is_inflate_failure, tiles_view, took_whole, Decoder, Tile,
};
use vstd::prelude::*;

pub mod handshake;
pub mod session;

pub use session::{Client, FormatChange};

verus! {

/// A way to authenticate that the server offers and this library knows.
#[derive(Debug, Clone, Copy, PartialEq, Eq, Structural)]
#[non_exhaustive]
pub enum AuthMethod {
    NoAuthentication,
    Password,
    AppleRemoteDesktop,
}

/// The way to authenticate that the caller chose, with its credentials.
#[derive(Debug, PartialEq, Eq)]
#[non_exhaustive]
pub enum AuthChoice {
    NoAuthentication,
    Password([u8; 8]),
    AppleRemoteDesktop(String, String),
}

/// What a client asks of a session before it connects: whether to share
/// the desktop, and which encodings to take besides raw pixels.
#[derive(Debug, Clone, Copy, PartialEq, Eq, Structural)]
pub struct Builder {
    pub shared: bool,
    pub copy_rect: bool,
    pub set_cursor: bool,
    pub resize: bool,
    pub zrle: bool,
}

impl Builder {
    /// The encodings that the client announces, the preferred first: raw
    /// pixels always, the others where they are switched on.
    pub open spec fn spec_encodings(self) -> Seq<Encoding> {
        (if self.zrle {
            seq![Encoding::Zrle]
        } else {
            Seq::empty()
        }) + (if self.copy_rect {
            seq![Encoding::CopyRect]
        } else {
            Seq::empty()
        }) + seq![Encoding::Raw] + (if self.set_cursor {
            seq![Encoding::Cursor]
        } else {
            Seq::empty()
        }) + (if self.resize {
            seq![Encoding::DesktopSize]
        } else {
            Seq::empty()
        })
    }

    /// A session that is not shared and takes raw pixels only.
    pub fn new() -> (builder: Builder)
        ensures
            builder == (Builder {
                shared: false,
                copy_rect: false,
                set_cursor: false,
                resize: false,
                zrle: false,
            }),
    {
        Builder { shared: false, copy_rect: false, set_cursor: false, resize: false, zrle: false }
    }

    /// Whether other clients may stay connected.
    pub fn shared(self, value: bool) -> (builder: Builder)
        ensures
            builder == (Builder { shared: value, ..self }),
    {
        Builder { shared: value, ..self }
    }

    /// Whether the server may tell the client to copy pixels that it has.
    pub fn copy_rect(self, value: bool) -> (builder: Builder)
        ensures
            builder == (Builder { copy_rect: value, ..self }),
    {
        Builder { copy_rect: value, ..self }
    }

    /// Whether the server may send the picture of the pointer.
    pub fn set_cursor(self, value: bool) -> (builder: Builder)
        ensures
            builder == (Builder { set_cursor: value, ..self }),
    {
        Builder { set_cursor: value, ..self }
    }

    /// Whether the server may change the size of the framebuffer.
    pub fn resize(self, value: bool) -> (builder: Builder)
        ensures
            builder == (Builder { resize: value, ..self }),
    {
        Builder { resize: value, ..self }
    }

    /// Whether the server may send compressed tiles.
    pub fn zrle(self, value: bool) -> (builder: Builder)
        ensures
            builder == (Builder { zrle: value, ..self }),
    {
        Builder { zrle: value, ..self }
    }

    /// The encodings that the client announces, the preferred first.
    pub fn encodings(&self) -> (list: Vec<Encoding>)
        ensures
            list@ == self.spec_encodings(),
    {
        let mut list: Vec<Encoding> = Vec::new();
        if self.zrle {
            list.push(Encoding::Zrle);
        }
        if self.copy_rect {
            list.push(Encoding::CopyRect);
        }
        list.push(Encoding::Raw);
        if self.set_cursor {
            list.push(Encoding::Cursor);
        }
        if self.resize {
            list.push(Encoding::DesktopSize);
        }
        assert(list@ =~= self.spec_encodings());
        list
    }
}

/// What the server told the client, in terms that a front-end can act on.
#[derive(Debug)]
pub enum Event {
    Disconnected(Option<Error>),
    Resize(u16, u16),
    SetColourMap { first_colour: u16, colours: Vec<Colour> },
    PutPixels(Rect, Vec<u8>),
    CopyPixels { src: Rect, dst: Rect },
    SetCursor { size: (u16, u16), hotspot: (u16, u16), pixels: Vec<u8>, mask_bits: Vec<u8> },
    Clipboard(String),
    Bell,
}

/// The model of an `Event`.
pub enum EventView {
    Disconnected(Option<Error>),
    Resize(u16, u16),
    SetColourMap { first_colour: u16, colours: Seq<Colour> },
    PutPixels(Rect, Seq<u8>),
    CopyPixels { src: Rect, dst: Rect },
    SetCursor { size: (u16, u16), hotspot: (u16, u16), pixels: Seq<u8>, mask_bits: Seq<u8> },
    Clipboard(Seq<char>),
    Bell,
}

impl View for Event {
    type V = EventView;

    open spec fn view(&self) -> EventView {
        match *self {
            Event::Disconnected(error) => EventView::Disconnected(error),
            Event::Resize(width, height) => EventView::Resize(width, height),
            Event::SetColourMap { first_colour, colours } => EventView::SetColourMap {
                first_colour,
                colours: colours@,
            },
            Event::PutPixels(rect, pixels) => EventView::PutPixels(rect, pixels@),
            Event::CopyPixels { src, dst } => EventView::CopyPixels { src, dst },
            Event::SetCursor { size, hotspot, pixels, mask_bits } => EventView::SetCursor {
                size,
                hotspot,
                pixels: pixels@,
                mask_bits: mask_bits@,
            },
            Event::Clipboard(text) => EventView::Clipboard(text@),
            Event::Bell => EventView::Bell,
        }
    }
}

/// The events of a vector, as a list of models.
pub open spec fn events_view(events: Vec<Event>) -> Seq<EventView> {
    Seq::new(events@.len(), |i: int| events@[i]@)
}

/// The part of the framebuffer that a rectangle is for.
pub open spec fn destination(m: RectangleView) -> Rect {
    Rect {
        left: m.header.x_position,
        top: m.header.y_position,
        width: m.header.width,
        height: m.header.height,
    }
}

/// The event that a rectangle other than a compressed one stands for.
pub open spec fn rectangle_event(m: RectangleView) -> EventView {
    match m.payload {
        PayloadView::Raw(pixels) => EventView::PutPixels(destination(m), pixels),
        PayloadView::CopyRect(source) => EventView::CopyPixels {
            src: Rect {
                left: source.src_x_position,
                top: source.src_y_position,
                width: m.header.width,
                height: m.header.height,
            },
            dst: destination(m),
        },
        PayloadView::Cursor { pixels, mask_bits } => EventView::SetCursor {
            size: (m.header.width, m.header.height),
            hotspot: (m.header.x_position, m.header.y_position),
            pixels,
            mask_bits,
        },
        _ => EventView::Resize(m.header.width, m.header.height),
    }
}

/// One `PutPixels` for each tile, in order.
pub open spec fn tile_events(tiles: Seq<(Rect, Seq<u8>)>) -> Seq<EventView> {
    Seq::new(tiles.len(), |i: int| EventView::PutPixels(tiles[i].0, tiles[i].1))
}

/// The events of one rectangle. For a compressed rectangle they depend on
/// `inflated`, the bytes that its payload decompresses to.
pub open spec fn rectangle_events_with(format: PixelFormat, m: RectangleView, inflated: Seq<u8>) -> Result<
    Seq<EventView>,
    Error,
> {
    match m.payload {
        PayloadView::Zrle(_) => match decoded_tiles(format, destination(m), inflated) {
            Ok(tiles) => Ok(tile_events(tiles)),
            Err(e) => Err(e),
        },
        _ => Ok(seq![rectangle_event(m)]),
    }
}

/// The events of the rectangles of a framebuffer update, where
/// `inflated[i]` is what the payload of the rectangle `i` decompresses to.
pub open spec fn update_events_with(
    format: PixelFormat,
    rectangles: Seq<RectangleView>,
    inflated: Seq<Seq<u8>>,
) -> Result<Seq<EventView>, Error>
    decreases rectangles.len(),
{
    if rectangles.len() == 0 {
        Ok(Seq::empty())
    } else {
        match update_events_with(format, rectangles.drop_last(), inflated) {
            Err(e) => Err(e),
            Ok(before) => match rectangle_events_with(
                format,
                rectangles.last(),
                inflated[rectangles.len() - 1],
            ) {
                Ok(events) => Ok(before + events),
                Err(e) => Err(e),
            },
        }
    }
}

/// The events of a rectangle list depend on the decompressed bytes of its
/// own rectangles only.
pub proof fn lemma_update_events_prefix(
    format: PixelFormat,
    rectangles: Seq<RectangleView>,
    a: Seq<Seq<u8>>,
    b: Seq<Seq<u8>>,
)
    requires
        forall|i: int| 0 <= i < rectangles.len() ==> a[i] == b[i],
    ensures
        update_events_with(format, rectangles, a) == update_events_with(format, rectangles, b),
    decreases rectangles.len(),
{
    if rectangles.len() > 0 {
        lemma_update_events_prefix(format, rectangles.drop_last(), a, b);
    }
}

/// The events of one more rectangle come behind those of the rectangles
/// before it. What comes back is what the payloads decompress to, with that
/// of the new rectangle at the end.
pub proof fn lemma_update_events_step(
    format: PixelFormat,
    rectangles: Seq<RectangleView>,
    k: int,
    inflated: Seq<Seq<u8>>,
    shown: Seq<EventView>,
    added: Seq<EventView>,
) -> (longer: Seq<Seq<u8>>)
    requires
        0 <= k < rectangles.len(),
        inflated.len() == k,
        update_events_with(format, rectangles.subrange(0, k), inflated) == Ok::<
            Seq<EventView>,
            Error,
        >(shown),
        exists|blob: Seq<u8>|
            rectangle_events_with(format, rectangles[k], blob) == Ok::<Seq<EventView>, Error>(
                added,
            ),
    ensures
        longer.len() == k + 1,
        update_events_with(format, rectangles.subrange(0, k + 1), longer) == Ok::<
            Seq<EventView>,
            Error,
        >(shown + added),
{
    let blob = choose|blob: Seq<u8>|
        rectangle_events_with(format, rectangles[k], blob) == Ok::<Seq<EventView>, Error>(added);
    let longer = inflated.push(blob);
    let done = rectangles.subrange(0, k + 1);
    assert(done.drop_last() =~= rectangles.subrange(0, k));
    assert(done.last() == rectangles[k]);
    assert(longer[done.len() - 1] == blob);
    lemma_update_events_prefix(format, rectangles.subrange(0, k), inflated, longer);
    longer
}

/// Whether none of the rectangles is compressed.
pub open spec fn without_zrle(rectangles: Seq<RectangleView>) -> bool {
    forall|i: int| 0 <= i < rectangles.len() ==> !((#[trigger] rectangles[i]).payload is Zrle)
}

/// The number of compressed bytes that a rectangle brings.
pub open spec fn compressed_len(m: RectangleView) -> nat {
    match m.payload {
        PayloadView::Zrle(data) => data.len(),
        _ => 0,
    }
}

/// The number of compressed bytes that the rectangles bring, all together.
pub open spec fn compressed_bytes(rectangles: Seq<RectangleView>) -> nat
    decreases rectangles.len(),
{
    if rectangles.len() == 0 {
        0
    } else {
        compressed_bytes(rectangles.drop_last()) + compressed_len(rectangles.last())
    }
}

/// The events that were made of a message, in the order of the wire, and
/// the error that ended the making of them, where one did: then the session
/// is over, once the events are delivered.
#[derive(Debug)]
pub struct Delivery {
    pub events: Vec<Event>,
    pub failure: Option<Error>,
}

/// Whether the making of events failed with `e` at the rectangle `k`,
/// which is a compressed one, after `events` were made of the rectangles
/// before it: the decompressor failed, or what its payload decompressed to
/// (`inflated[k]`) does not hold its tiles.
pub open spec fn failed_at(
    format: PixelFormat,
    rectangles: Seq<RectangleView>,
    k: int,
    inflated: Seq<Seq<u8>>,
    events: Seq<EventView>,
    e: Error,
) -> bool {
    &&& 0 <= k < rectangles.len()
    &&& rectangles[k].payload is Zrle
    &&& update_events_with(format, rectangles.subrange(0, k), inflated) == Ok::<
        Seq<EventView>,
        Error,
    >(events)
    &&& (is_inflate_failure(e) || rectangle_events_with(format, rectangles[k], inflated[k])
        == Err::<Seq<EventView>, Error>(e))
}

/// What holds of the events that were made of the rectangles of a
/// framebuffer update, with the decoder going from `before` to `after`.
///
/// Without a failure they are the events of all the rectangles, for some
/// bytes that the compressed payloads decompress to, and the decoder has
/// taken every compressed byte. With one, they are the events of the
/// rectangles before the one that failed. Without a compressed rectangle
/// nothing fails, and the decoder stays as it was.
pub open spec fn is_delivery_of(
    format: PixelFormat,
    rectangles: Seq<RectangleView>,
    before: Decoder,
    after: Decoder,
    events: Seq<EventView>,
    failure: Option<Error>,
) -> bool {
    &&& without_zrle(rectangles) ==> failure is None && after == before
    &&& failure is None ==> after.taken_in() == before.taken_in() + compressed_bytes(rectangles)
        && exists|inflated: Seq<Seq<u8>>|
        update_events_with(format, rectangles, inflated) == Ok::<Seq<EventView>, Error>(events)
    &&& failure matches Some(e) ==> exists|k: int, inflated: Seq<Seq<u8>>|
        failed_at(format, rectangles, k, inflated, events, e) && after.taken_in()
            <= before.taken_in() + compressed_bytes(rectangles.subrange(0, k + 1))
}

/// What holds of the events that were made of a message of the server: of
/// a framebuffer update what `is_delivery_of` says; of any other message
/// its one event, without a failure and with the decoder as it was.
pub open spec fn delivers(
    format: PixelFormat,
    m: ServerMessageView,
    before: Decoder,
    after: Decoder,
    delivery: Delivery,
) -> bool {
    match m {
        ServerMessageView::FramebufferUpdate(rectangles) => is_delivery_of(
            format,
            rectangles,
            before,
            after,
            events_view(delivery.events),
            delivery.failure,
        ),
        other => {
            &&& events_view(delivery.events) == seq![message_event(other)]
            &&& delivery.failure is None
            &&& after == before
        },
    }
}

/// The event that a message other than a framebuffer update stands for.
pub open spec fn message_event(m: ServerMessageView) -> EventView {
    match m {
        ServerMessageView::SetColourMapEntries { first_colour, colours } => EventView::SetColourMap {
            first_colour,
            colours,
        },
        ServerMessageView::CutText(text) => EventView::Clipboard(text),
        _ => EventView::Bell,
    }
}

/// A list of one event.
fn single(event: Event) -> (events: Vec<Event>)
    ensures
        events_view(events) == seq![event@],
{
    let mut events: Vec<Event> = Vec::new();
    events.push(event);
    assert(events_view(events) =~= seq![event@]);
    events
}

/// Appends one `PutPixels` for each tile.
fn push_tiles(events: &mut Vec<Event>, tiles: Vec<Tile>)
    ensures
        events_view(*final(events)) == events_view(*old(events)) + tile_events(tiles_view(tiles)),
{
    let ghost all = tiles_view(tiles);
    let ghost before = events_view(*events);
    // Tiles are taken from the back of a vector; turned round, they come in their order.
    let mut rest = reversed(tiles);
    assert(events_view(*events) =~= before + tile_events(all.subrange(0, 0)));
    while rest.len() > 0
        invariant
            rest@.len() <= all.len(),
            forall|i: int|
                0 <= i < rest@.len() ==> (#[trigger] rest@[i])@ == all[all.len() - 1 - i],
            events_view(*events) == before + tile_events(
                all.subrange(0, all.len() - rest@.len()),
            ),
        decreases rest.len(),
    {
        let ghost shown = events_view(*events);
        let ghost k = all.len() - rest@.len();
        let tile = rest.pop().unwrap();
        assert(tile@ == all[k]);
        let Tile { rect, pixels } = tile;
        events.push(Event::PutPixels(rect, pixels));
        assert(events_view(*events) =~= shown.push(EventView::PutPixels(all[k].0, all[k].1)));
        assert(events_view(*events) =~= before + tile_events(all.subrange(0, k + 1)));
    }
    assert(all.subrange(0, all.len() as int) =~= all);
}

impl Event {
    /// The event that ends a session: `Disconnected` without an error where
    /// the peer closed the connection at a message boundary, else with the error.
    pub fn closing(error: Error) -> (event: Event)
        ensures
            event@ == (match error {
                Error::Disconnected => EventView::Disconnected(None),
                e => EventView::Disconnected(Some(e)),
            }),
    {
        match error {
            Error::Disconnected => Event::Disconnected(None),
            e => Event::Disconnected(Some(e)),
        }
    }

    /// Appends to `events` the events of one rectangle. A compressed
    /// rectangle is decoded with `decoder`, which takes all of its payload,
    /// and gives one event for each tile; where that fails, `events` stays
    /// as it was. Any other rectangle leaves the decoder alone.
    pub fn of_rectangle(
        rectangle: Rectangle,
        format: PixelFormat,
        decoder: &mut Decoder,
        events: &mut Vec<Event>,
    ) -> (r: Result<(), Error>)
        ensures
            !(rectangle@.payload is Zrle) ==> r is Ok,
            r is Ok ==> events_view(*final(events)).len() >= events_view(*old(events)).len(),
            r is Ok ==> events_view(*final(events)).subrange(
                0,
                events_view(*old(events)).len() as int,
            ) == events_view(*old(events)),
            r is Ok ==> exists|inflated: Seq<u8>|
                rectangle_events_with(format, rectangle@, inflated) == Ok::<Seq<EventView>, Error>(
                    events_view(*final(events)).skip(events_view(*old(events)).len() as int),
                ),
            r is Err ==> *final(events) == *old(events),
            r matches Err(e) ==> is_inflate_failure(e) || exists|inflated: Seq<u8>|
                rectangle_events_with(format, rectangle@, inflated) == Err::<Seq<EventView>, Error>(
                    e,
                ),
            rectangle@.payload is Zrle || *final(decoder) == *old(decoder),
            final(decoder).taken_in() <= old(decoder).taken_in() + compressed_len(rectangle@),
            r is Ok ==> final(decoder).taken_in() == old(decoder).taken_in() + compressed_len(
                rectangle@,
            ),
    {
        let ghost before = events_view(*events);
        let ghost model = rectangle@;
        let Rectangle { header, payload } = rectangle;
        let dst = Rect {
            left: header.x_position,
            top: header.y_position,
            width: header.width,
            height: header.height,
        };
        match payload {
            Payload::Zrle(data) => {
                let ghost earlier = *decoder;
                let decoded = decoder.decode_all(format, dst, data.as_slice());
                let ghost inflated = choose|inflated: Seq<u8>|
                    took_whole(earlier, *decoder, data@, inflated) && decoded_as(
                        format,
                        dst,
                        inflated,
                        decoded,
                    );
                let tiles = match decoded {
                    Ok(tiles) => tiles,
                    Err(e) => {
                        assert(is_inflate_failure(e) || rectangle_events_with(
                            format,
                            model,
                            inflated,
                        ) == Err::<Seq<EventView>, Error>(e));
                        return Err(e);
                    },
                };
                push_tiles(events, tiles);
                proof {
                    assert(events_view(*events).skip(before.len() as int) =~= tile_events(
                        tiles_view(tiles),
                    ));
                    assert(events_view(*events).subrange(0, before.len() as int) =~= before);
                    assert(rectangle_events_with(format, model, inflated) == Ok::<
                        Seq<EventView>,
                        Error,
                    >(events_view(*events).skip(before.len() as int)));
                }
                Ok(())
            },
            other => {
                let event = match other {
                    Payload::Raw(pixels) => Event::PutPixels(dst, pixels),
                    Payload::CopyRect(source) => Event::CopyPixels {
                        src: Rect {
                            left: source.src_x_position,
                            top: source.src_y_position,
                            width: header.width,
                            height: header.height,
                        },
                        dst,
                    },
                    Payload::Cursor { pixels, mask_bits } => Event::SetCursor {
                        size: (header.width, header.height),
                        hotspot: (header.x_position, header.y_position),
                        pixels,
                        mask_bits,
                    },
                    _ => Event::Resize(header.width, header.height),
                };
                assert(event@ == rectangle_event(model));
                events.push(event);
                proof {
                    assert(events_view(*events) =~= before.push(rectangle_event(model)));
                    assert(events_view(*events).skip(before.len() as int) =~= seq![
                        rectangle_event(model),
                    ]);
                    assert(events_view(*events).subrange(0, before.len() as int) =~= before);
                    assert(rectangle_events_with(format, model, Seq::<u8>::empty()) == Ok::<
                        Seq<EventView>,
                        Error,
                    >(events_view(*events).skip(before.len() as int)));
                }
                Ok(())
            },
        }
    }

    /// The events of the rectangles of a framebuffer update, in their
    /// order. Where a compressed rectangle fails, the events of the
    /// rectangles before it come back with the error.
    pub fn of_update(rectangles: Vec<Rectangle>, format: PixelFormat, decoder: &mut Decoder) -> (delivery:
        Delivery)
        ensures
            is_delivery_of(
                format,
                rectangles_view(rectangles),
                *old(decoder),
                *final(decoder),
                events_view(delivery.events),
                delivery.failure,
            ),
    {
        let ghost all = rectangles_view(rectangles);
        let ghost mut inflated: Seq<Seq<u8>> = Seq::empty();
        let mut events: Vec<Event> = Vec::new();
        let mut rest = reversed(rectangles);
        assert(events_view(events) =~= Seq::<EventView>::empty());
        assert(all.subrange(0, 0) =~= Seq::<RectangleView>::empty());
        while rest.len() > 0
            invariant
                all == rectangles_view(rectangles),
                rest@.len() <= all.len(),
                inflated.len() == all.len() - rest@.len(),
                forall|i: int|
                    0 <= i < rest@.len() ==> (#[trigger] rest@[i])@ == all[all.len() - 1 - i],
                update_events_with(format, all.subrange(0, all.len() - rest@.len()), inflated)
                    == Ok::<Seq<EventView>, Error>(events_view(events)),
                decoder.taken_in() == old(decoder).taken_in() + compressed_bytes(
                    all.subrange(0, all.len() - rest@.len()),
                ),
                without_zrle(all.subrange(0, all.len() - rest@.len())) ==> *decoder == *old(
                    decoder,
                ),
            decreases rest.len(),
        {
            let ghost k = all.len() - rest@.len();
            let ghost shown = events_view(events);
            let rectangle = rest.pop().unwrap();
            assert(rectangle@ == all[k]);
            proof {
                let done = all.subrange(0, k + 1);
                assert(done.drop_last() =~= all.subrange(0, k));
                assert(done.last() == all[k]);
                if without_zrle(done) {
                    assert(done[k] == all[k]);
                    assert forall|i: int| 0 <= i < k implies !((#[trigger] all.subrange(0, k)[i]).payload
                        is Zrle) by {
                        assert(done[i] == all.subrange(0, k)[i]);
                    }
                }
            }
            match Event::of_rectangle(rectangle, format, decoder, &mut events) {
                Ok(()) => {},
                Err(e) => {
                    proof {
                        let longer = if is_inflate_failure(e) {
                            inflated
                        } else {
                            inflated.push(
                                choose|blob: Seq<u8>|
                                    rectangle_events_with(format, all[k], blob) == Err::<
                                        Seq<EventView>,
                                        Error,
                                    >(e),
                            )
                        };
                        lemma_update_events_prefix(format, all.subrange(0, k), inflated, longer);
                        assert(failed_at(format, all, k, longer, events_view(events), e));
                        assert(!without_zrle(all));
                    }
                    return Delivery { events, failure: Some(e) };
                },
            }
            proof {
                let added = events_view(events).skip(shown.len() as int);
                assert(events_view(events) =~= shown + added);
                inflated = lemma_update_events_step(format, all, k as int, inflated, shown, added);
            }
        }
        assert(all.subrange(0, all.len() as int) =~= all);
        Delivery { events, failure: None }
    }

    /// The events that a whole message of the server stands for, in the
    /// order of the wire. The events of compressed rectangles are those of
    /// the bytes that the decompressor gives; all others are stated exactly.
    pub fn of_message(message: ServerMessage, format: PixelFormat, decoder: &mut Decoder) -> (delivery:
        Delivery)
        ensures
            delivers(format, message@, *old(decoder), *final(decoder), delivery),
    {
        match message {
            ServerMessage::FramebufferUpdate(rectangles) => Event::of_update(
                rectangles,
                format,
                decoder,
            ),
            ServerMessage::SetColourMapEntries { first_colour, colours } => Delivery {
                events: single(Event::SetColourMap { first_colour, colours }),
                failure: None,
            },
            ServerMessage::Bell => Delivery { events: single(Event::Bell), failure: None },
            ServerMessage::CutText(text) => Delivery {
                events: single(Event::Clipboard(text)),
                failure: None,
            },
        }
    }

    /// Reads one whole message of the server and gives the events that it
    /// stands for, in the order of the wire.
    ///
    /// A message that is not all there fails before the decoder is touched,
    /// and one whose tag is refused leaves the cursor behind the tag. A
    /// message that was read gives its events, and the failure with which
    /// the decoding of a compressed rectangle ended, if it did.
    /// A caller that reads from a stream, and has to tell a message that is
    /// not all there yet from compressed data that breaks off, reads the
    /// message with `ServerMessage::read_from` first and hands it to
    /// `of_message`: that is what this function does in one step.
    pub fn pump(reader: &mut Reader, format: PixelFormat, decoder: &mut Decoder) -> (r: Result<
        Delivery,
        Error,
    >)
        ensures
            final(reader).input() == old(reader).input(),
            final(reader).offset() <= final(reader).input().len(),
            decode_s2c(old(reader).remaining()) matches Err(Error::Unexpected(_))
                ==> final(reader).offset() == old(reader).offset() + 1,
            match decode_server_message(format, old(reader).remaining()) {
                Err(e) => (r matches Err(e2) && e2 == e) && *final(decoder) == *old(decoder),
                Ok((m, n)) => {
                    &&& final(reader).offset() == old(reader).offset() + n
                    &&& r matches Ok(delivery) && delivers(
                        format,
                        m,
                        *old(decoder),
                        *final(decoder),
                        delivery,
                    )
                },
            },
    {
        let message = ServerMessage::read_from(reader, &format)?;
        Ok(Event::of_message(message, format, decoder))
    }
}

} // verus!
