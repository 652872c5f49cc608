//! What a client of this library sees of the updates that a server of this
//! library sent: for each update its event, in the order of the updates.

use crate::client::{tile_events, update_events_with, EventView};
use crate::error::Error;
use crate::protocol::{decode_server_message, PixelFormat, ServerMessageView};
use crate::rect::Rect;
use crate::server::laws::{
    lemma_framed_update_parses_back, reads_back, rectangle_of, rectangles_of, whole_bytes,
};
use crate::server::{encode_framebuffer_update, UpdateView, MAX_RECTANGLES};
use crate::zrle::decoded_tiles;
use vstd::prelude::*;

verus! {

/// The events that a client makes of an update: pixels to put, pixels to
/// copy, a cursor, a new size. Of a compressed update they are the tiles of
/// its rectangle, read from `inflated`, the bytes that its payload
/// decompresses to. A bare confirmation of an encoding is not among the
/// updates that a client reads back, and stands for no event here.
pub open spec fn events_of(format: PixelFormat, update: UpdateView, inflated: Seq<u8>) -> Result<
    Seq<EventView>,
    Error,
> {
    match update {
        UpdateView::Raw { rect, pixel_data } => Ok(seq![EventView::PutPixels(rect, pixel_data)]),
        UpdateView::CopyRect { dst, src_x_position, src_y_position } => Ok(
            seq![
                EventView::CopyPixels {
                    src: Rect {
                        left: src_x_position,
                        top: src_y_position,
                        width: dst.width,
                        height: dst.height,
                    },
                    dst,
                },
            ],
        ),
        UpdateView::Zrle { rect, zlib_data } => match decoded_tiles(format, rect, inflated) {
            Ok(tiles) => Ok(tile_events(tiles)),
            Err(e) => Err(e),
        },
        UpdateView::SetCursor { size, hotspot, pixels, mask_bits } => Ok(
            seq![EventView::SetCursor { size, hotspot, pixels, mask_bits }],
        ),
        UpdateView::DesktopSize { width, height } => Ok(seq![EventView::Resize(width, height)]),
        UpdateView::Encoding { encoding } => Ok(Seq::empty()),
    }
}

/// The events of the updates, one after the other, where `inflated[i]` is
/// what the payload of the update `i` decompresses to; or the error of the
/// first update whose tiles do not decode.
pub open spec fn events_of_all(
    format: PixelFormat,
    updates: Seq<UpdateView>,
    inflated: Seq<Seq<u8>>,
) -> Result<Seq<EventView>, Error>
    decreases updates.len(),
{
    if updates.len() == 0 {
        Ok(Seq::empty())
    } else {
        match events_of_all(format, updates.drop_last(), inflated) {
            Err(e) => Err(e),
            Ok(before) => match events_of(format, updates.last(), inflated[updates.len() - 1]) {
                Ok(events) => Ok(before + events),
                Err(e) => Err(e),
            },
        }
    }
}

/// The events that the client makes of the rectangles of the updates are
/// the events of the updates.
pub proof fn lemma_rectangles_give_the_events(
    format: PixelFormat,
    updates: Seq<UpdateView>,
    inflated: Seq<Seq<u8>>,
)
    requires
        forall|i: int| 0 <= i < updates.len() ==> !((#[trigger] updates[i]) is Encoding),
    ensures
        update_events_with(format, rectangles_of(updates), inflated) == events_of_all(
            format,
            updates,
            inflated,
        ),
    decreases updates.len(),
{
    if updates.len() > 0 {
        let shorter = updates.drop_last();
        assert forall|i: int| 0 <= i < shorter.len() implies !((#[trigger] shorter[i])
            is Encoding) by {
            assert(shorter[i] == updates[i]);
        }
        lemma_rectangles_give_the_events(format, shorter, inflated);
        assert(rectangles_of(updates).drop_last() =~= rectangles_of(shorter));
        assert(rectangles_of(updates).last() == rectangle_of(updates.last()));
        assert(!(updates[updates.len() - 1] is Encoding));
    }
}

/// A client whose pixel format is that of the server reads the framebuffer
/// update that the server wrote for `updates` as one message, and makes of
/// it the events of the updates, in their order: `PutPixels` of a raw
/// update with its rectangle and pixels, `CopyPixels` of a copy, the tiles
/// of a compressed update, `SetCursor` of a cursor, `Resize` of a new size.
///
/// The pixel takes a whole number of bytes, and no update is a bare
/// confirmation of an encoding: a client takes the rectangle of such a one
/// for a rectangle of that encoding.
pub proof fn lemma_client_sees_the_updates(
    format: PixelFormat,
    updates: Seq<UpdateView>,
    rest: Seq<u8>,
    inflated: Seq<Seq<u8>>,
)
    requires
        whole_bytes(format),
        0 < updates.len() <= MAX_RECTANGLES,
        forall|i: int| 0 <= i < updates.len() ==> reads_back(format, #[trigger] updates[i]),
    ensures
        decode_server_message(format, encode_framebuffer_update(updates) + rest) matches Ok(
            (ServerMessageView::FramebufferUpdate(rectangles), _),
        ) && update_events_with(format, rectangles, inflated) == events_of_all(
            format,
            updates,
            inflated,
        ),
{
    lemma_framed_update_parses_back(format, updates, rest);
    lemma_rectangles_give_the_events(format, updates, inflated);
    assert(updates.subrange(0, updates.len() as int) =~= updates);
}

} // verus!
