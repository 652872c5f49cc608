//! What a client makes of the updates that the server frames.

use crate::error::Error;
use crate::protocol::{
    decode_rectangle, decode_rectangles, decode_s2c, decode_server_message, encode_rectangle,
    encode_s2c, lemma_rectangle_round_trip, rectangle_fits, CopyRect, Encoding, Message,
    PayloadView, PixelFormat, RectangleHeader, RectangleView, S2CView, ServerMessageView, S2C,
};
use crate::rect::Rect;
use crate::server::{
    encode_framebuffer_update, encode_updates, UpdateView, ValidationData, MAX_RECTANGLES,
};
use vstd::prelude::*;

verus! {

/// The rectangle that a client reads where the server wrote `update`.
pub open spec fn rectangle_of(update: UpdateView) -> RectangleView {
    match update {
        UpdateView::Raw { rect, pixel_data } => RectangleView {
            header: header_of(rect, Encoding::Raw),
            payload: PayloadView::Raw(pixel_data),
        },
        UpdateView::CopyRect { dst, src_x_position, src_y_position } => RectangleView {
            header: header_of(dst, Encoding::CopyRect),
            payload: PayloadView::CopyRect(CopyRect { src_x_position, src_y_position }),
        },
        UpdateView::Zrle { rect, zlib_data } => RectangleView {
            header: header_of(rect, Encoding::Zrle),
            payload: PayloadView::Zrle(zlib_data),
        },
        UpdateView::SetCursor { size, hotspot, pixels, mask_bits } => RectangleView {
            header: header_of(
                Rect { left: hotspot.0, top: hotspot.1, width: size.0, height: size.1 },
                Encoding::Cursor,
            ),
            payload: PayloadView::Cursor { pixels, mask_bits },
        },
        UpdateView::DesktopSize { width, height } => RectangleView {
            header: header_of(Rect { left: 0, top: 0, width, height }, Encoding::DesktopSize),
            payload: PayloadView::DesktopSize,
        },
        UpdateView::Encoding { encoding } => RectangleView {
            header: header_of(Rect { left: 0, top: 0, width: 0, height: 0 }, encoding),
            payload: PayloadView::DesktopSize,
        },
    }
}

/// The header of a rectangle with the given place and encoding.
pub open spec fn header_of(rect: Rect, encoding: Encoding) -> RectangleHeader {
    RectangleHeader {
        x_position: rect.left,
        y_position: rect.top,
        width: rect.width,
        height: rect.height,
        encoding,
    }
}

/// The rectangles that a client reads where the server wrote `updates`.
pub open spec fn rectangles_of(updates: Seq<UpdateView>) -> Seq<RectangleView> {
    Seq::new(updates.len(), |i: int| rectangle_of(updates[i]))
}

/// Whether a client can read `update` back: it is valid for the pixel
/// format, and it is no bare confirmation of an encoding, whose rectangle
/// a client takes for one of that encoding.
pub open spec fn reads_back(format: PixelFormat, update: UpdateView) -> bool {
    &&& !(update is Encoding)
    &&& update.valid(
        ValidationData { bytes_per_pixel: ValidationData::bytes_for(format.bits_per_pixel) },
    )
}

/// Whether the server and the client count the same bytes to the pixel:
/// the pixel takes a whole number of bytes.
pub open spec fn whole_bytes(format: PixelFormat) -> bool {
    format.bits_per_pixel % 8 == 0
}

/// What the server writes for an update is what stands for the rectangle
/// that the client reads, and the client can read it.
pub proof fn lemma_update_is_rectangle(format: PixelFormat, update: UpdateView)
    requires
        whole_bytes(format),
        reads_back(format, update),
    ensures
        update.encode() == encode_rectangle(rectangle_of(update)),
        rectangle_fits(format, rectangle_of(update)),
{
    match update {
        UpdateView::Raw { rect, pixel_data } => {
            assert(update.encode() =~= encode_rectangle(rectangle_of(update)));
        },
        UpdateView::CopyRect { dst, src_x_position, src_y_position } => {
            assert(update.encode() =~= encode_rectangle(rectangle_of(update)));
        },
        UpdateView::Zrle { rect, zlib_data } => {
            assert(update.encode() =~= encode_rectangle(rectangle_of(update)));
        },
        UpdateView::SetCursor { size, hotspot, pixels, mask_bits } => {
            assert(update.encode() =~= encode_rectangle(rectangle_of(update)));
        },
        UpdateView::DesktopSize { width, height } => {
            assert(update.encode() =~= encode_rectangle(rectangle_of(update)));
        },
        UpdateView::Encoding { encoding } => {},
    }
}

/// The bytes of a list of updates are those of the first, then those of the rest.
pub proof fn lemma_encode_updates_front(first: UpdateView, rest: Seq<UpdateView>)
    ensures
        encode_updates(seq![first] + rest) == first.encode() + encode_updates(rest),
    decreases rest.len(),
{
    let all = seq![first] + rest;
    if rest.len() == 0 {
        assert(all.drop_last() =~= Seq::<UpdateView>::empty());
        assert(encode_updates(all.drop_last()) =~= Seq::<u8>::empty());
        assert(encode_updates(all) =~= first.encode());
        assert(first.encode() + encode_updates(rest) =~= first.encode());
    } else {
        assert(all.drop_last() =~= seq![first] + rest.drop_last());
        lemma_encode_updates_front(first, rest.drop_last());
        assert(first.encode() + encode_updates(rest.drop_last()) + rest.last().encode()
            =~= first.encode() + (encode_updates(rest.drop_last()) + rest.last().encode()));
    }
}

/// The client reads back the rectangles of the updates that the server wrote.
pub proof fn lemma_updates_parse_back(format: PixelFormat, updates: Seq<UpdateView>, rest: Seq<u8>)
    requires
        whole_bytes(format),
        forall|i: int| 0 <= i < updates.len() ==> reads_back(format, #[trigger] updates[i]),
    ensures
        decode_rectangles(format, encode_updates(updates) + rest, updates.len()) == Ok::<
            (Seq<RectangleView>, nat),
            Error,
        >((rectangles_of(updates), encode_updates(updates).len())),
    decreases updates.len(),
{
    if updates.len() == 0 {
        assert(rectangles_of(updates) =~= Seq::<RectangleView>::empty());
    } else {
        let first = updates[0];
        let others = updates.skip(1);
        assert forall|i: int| 0 <= i < others.len() implies reads_back(
            format,
            #[trigger] others[i],
        ) by {
            assert(others[i] == updates[i + 1]);
        }
        lemma_updates_parse_back(format, others, rest);
        lemma_first_update_parses_back(format, first, others, rest);
        assert(updates =~= seq![first] + others);
        let s = encode_updates(updates) + rest;
        let n = first.encode().len();
        let tail = s.skip(n as int);
        assert(decode_rectangle(format, s) == Ok::<(RectangleView, nat), Error>(
            (rectangle_of(first), n),
        ));
        assert(tail == encode_updates(others) + rest);
        assert((updates.len() - 1) as nat == others.len());
        assert(decode_rectangles(format, tail, others.len()) == Ok::<
            (Seq<RectangleView>, nat),
            Error,
        >((rectangles_of(others), encode_updates(others).len())));
        assert(seq![rectangle_of(first)] + rectangles_of(others) =~= rectangles_of(updates));
        assert(decode_rectangles(format, s, updates.len()) == Ok::<
            (Seq<RectangleView>, nat),
            Error,
        >((seq![rectangle_of(first)] + rectangles_of(others), n + encode_updates(others).len())));
    }
}

/// The client reads the first of some updates back, and finds the others
/// behind it.
proof fn lemma_first_update_parses_back(
    format: PixelFormat,
    first: UpdateView,
    others: Seq<UpdateView>,
    rest: Seq<u8>,
)
    requires
        whole_bytes(format),
        reads_back(format, first),
    ensures
        ({
            let s = encode_updates(seq![first] + others) + rest;
            &&& decode_rectangle(format, s) == Ok::<(RectangleView, nat), Error>(
                (rectangle_of(first), first.encode().len()),
            )
            &&& s.skip(first.encode().len() as int) == encode_updates(others) + rest
            &&& encode_updates(seq![first] + others).len() == first.encode().len()
                + encode_updates(others).len()
        }),
{
    lemma_encode_updates_front(first, others);
    lemma_update_is_rectangle(format, first);
    let tail = encode_updates(others) + rest;
    let s = encode_updates(seq![first] + others) + rest;
    assert(s =~= encode_rectangle(rectangle_of(first)) + tail);
    lemma_rectangle_round_trip(format, rectangle_of(first), tail);
    assert(s.skip(first.encode().len() as int) =~= tail);
}

/// The first message of a framed update: what a client reads from the bytes
/// that the server wrote for `updates` is the first `MAX_RECTANGLES` of them
/// (all of them, where they are no more), each as the rectangle that stands
/// for it; and what is left of the bytes is what the server wrote for the
/// updates that are left.
pub proof fn lemma_framed_update_parses_back(
    format: PixelFormat,
    updates: Seq<UpdateView>,
    rest: Seq<u8>,
)
    requires
        whole_bytes(format),
        updates.len() > 0,
        forall|i: int| 0 <= i < updates.len() ==> reads_back(format, #[trigger] updates[i]),
    ensures
        ({
            let count = if updates.len() <= MAX_RECTANGLES {
                updates.len() as int
            } else {
                MAX_RECTANGLES as int
            };
            let s = encode_framebuffer_update(updates) + rest;
            &&& decode_server_message(format, s) matches Ok((message, n))
            &&& message == ServerMessageView::FramebufferUpdate(
                rectangles_of(updates.subrange(0, count)),
            )
            &&& s.skip(n as int) == encode_framebuffer_update(updates.skip(count)) + rest
        }),
{
    let count = if updates.len() <= MAX_RECTANGLES {
        updates.len() as int
    } else {
        MAX_RECTANGLES as int
    };
    let chunk = updates.subrange(0, count);
    let later = encode_framebuffer_update(updates.skip(count)) + rest;
    let head = S2CView::FramebufferUpdate { count: count as u16 };
    let body = encode_updates(chunk) + later;
    let s = encode_framebuffer_update(updates) + rest;
    lemma_frame_splits(updates, rest);
    assert(s == encode_s2c(head) + body);
    S2C::lemma_round_trip(head, body);
    assert(decode_s2c(s) == Ok::<(S2CView, nat), Error>((head, encode_s2c(head).len())));
    assert(s.skip(encode_s2c(head).len() as int) =~= body);
    assert forall|i: int| 0 <= i < chunk.len() implies reads_back(format, #[trigger] chunk[i]) by {
        assert(chunk[i] == updates[i]);
    }
    lemma_updates_parse_back(format, chunk, later);
    assert(s.skip((encode_s2c(head).len() + encode_updates(chunk).len()) as int) =~= later);
}

/// The bytes of a framed update are the header of its first message, the
/// rectangles of that message, and the messages that follow.
proof fn lemma_frame_splits(updates: Seq<UpdateView>, rest: Seq<u8>)
    requires
        updates.len() > 0,
    ensures
        ({
            let count = if updates.len() <= MAX_RECTANGLES {
                updates.len() as int
            } else {
                MAX_RECTANGLES as int
            };
            encode_framebuffer_update(updates) + rest == encode_s2c(
                S2CView::FramebufferUpdate { count: count as u16 },
            ) + (encode_updates(updates.subrange(0, count)) + (encode_framebuffer_update(
                updates.skip(count),
            ) + rest))
        }),
{
    let count = if updates.len() <= MAX_RECTANGLES {
        updates.len() as int
    } else {
        MAX_RECTANGLES as int
    };
    let header = encode_s2c(S2CView::FramebufferUpdate { count: count as u16 });
    let chunk = updates.subrange(0, count);
    let after = encode_framebuffer_update(updates.skip(count));
    if updates.len() <= MAX_RECTANGLES {
        assert(chunk =~= updates);
        assert(updates.skip(count).len() == 0);
        assert(after =~= Seq::<u8>::empty());
    }
    assert(encode_framebuffer_update(updates) =~= header + encode_updates(chunk) + after);
    assert(encode_framebuffer_update(updates) + rest =~= header + (encode_updates(chunk) + (after
        + rest)));
}

} // verus!
