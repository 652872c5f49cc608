//! The session of a client after the handshake: what the server said of
//! itself, the queue of events, and the bytes that wait to be written.
//!
//! The session owns no connection. The code that does writes out what
//! `take_outgoing` hands over, and delivers the events that `Event::pump`
//! makes of what it read.

use crate::client::{events_view, Event, EventView};
use crate::error::Error;
use crate::protocol::{encode_c2s, C2SView, Encoding, Message, PixelFormat, ServerInit, C2S};
use crate::rect::Rect;
use std::collections::VecDeque;
use vstd::prelude::*;

verus! {

/// A session with a server.
pub struct Client {
    name: String,
    size: (u16, u16),
    format: PixelFormat,
    events: VecDeque<Event>,
    outgoing: Vec<u8>,
    awaited: Option<Rect>,
    closed: bool,
}

/// The model of a `Client`.
pub struct ClientView {
    /// The name of the desktop.
    pub name: Seq<char>,
    /// The size of the framebuffer, as far as the polled events tell.
    pub size: (u16, u16),
    /// The pixel format in which the server sends pixels.
    pub format: PixelFormat,
    /// The events that were delivered and not polled yet, the oldest first.
    pub queue: Seq<EventView>,
    /// The bytes that wait to be written to the server.
    pub outgoing: Seq<u8>,
    /// The rectangle whose pixels the session waits for before it changes
    /// its pixel format, where such a change is under way.
    pub awaited: Option<Rect>,
    /// Whether the end of the session has been delivered.
    pub closed: bool,
}

impl ClientView {
    /// Whether the end of the session, where it is in the queue, is the last
    /// event there, and the session knows of it.
    pub open spec fn orderly(self) -> bool {
        forall|i: int|
            0 <= i < self.queue.len() && (#[trigger] self.queue[i]) is Disconnected ==> i
                == self.queue.len() - 1 && self.closed
    }
}

/// The size of the framebuffer once the client has seen `event`.
pub open spec fn resized(size: (u16, u16), event: EventView) -> (u16, u16) {
    match event {
        EventView::Resize(width, height) => (width, height),
        _ => size,
    }
}

/// The size of the framebuffer once the client has seen all of `events`.
pub open spec fn size_after(size: (u16, u16), events: Seq<EventView>) -> (u16, u16)
    decreases events.len(),
{
    if events.len() == 0 {
        size
    } else {
        size_after(resized(size, events[0]), events.skip(1))
    }
}

/// Whether `event` ends the wait for a change of the pixel format: the
/// pixels of the whole framebuffer have come, or the session is over.
pub open spec fn is_decisive(event: EventView, awaited: Rect) -> bool {
    match event {
        EventView::Disconnected(_) => true,
        EventView::PutPixels(rect, _) => rect == awaited,
        _ => false,
    }
}

/// The place of the first decisive event in `events`; their number where none is.
pub open spec fn decisive_index(events: Seq<EventView>, awaited: Rect) -> nat
    decreases events.len(),
{
    if events.len() == 0 {
        0
    } else if is_decisive(events[0], awaited) {
        0
    } else {
        1 + decisive_index(events.skip(1), awaited)
    }
}

/// The whole framebuffer of a given size.
pub open spec fn whole(size: (u16, u16)) -> Rect {
    Rect { left: 0, top: 0, width: size.0, height: size.1 }
}

/// The request for all pixels of a rectangle.
pub open spec fn full_request(rect: Rect) -> C2SView {
    C2SView::FramebufferUpdateRequest {
        incremental: false,
        x_position: rect.left,
        y_position: rect.top,
        width: rect.width,
        height: rect.height,
    }
}

impl View for Client {
    type V = ClientView;

    closed spec fn view(&self) -> ClientView {
        ClientView {
            name: self.name@,
            size: self.size,
            format: self.format,
            queue: Seq::new(self.events@.len(), |i: int| self.events@[i]@),
            outgoing: self.outgoing@,
            awaited: self.awaited,
            closed: self.closed,
        }
    }
}

impl Client {
    #[verifier::type_invariant]
    spec fn inv(self) -> bool {
        self@.orderly()
    }

    /// The session that a handshake ends in.
    pub fn from_server_init(init: ServerInit) -> (client: Client)
        ensures
            client@ == (ClientView {
                name: init@.name,
                size: (init@.framebuffer_width, init@.framebuffer_height),
                format: init@.pixel_format,
                queue: Seq::empty(),
                outgoing: Seq::empty(),
                awaited: None,
                closed: false,
            }),
    {
        let client = Client {
            name: init.name,
            size: (init.framebuffer_width, init.framebuffer_height),
            format: init.pixel_format,
            events: VecDeque::new(),
            outgoing: Vec::new(),
            awaited: None,
            closed: false,
        };
        assert(client@.queue =~= Seq::<EventView>::empty());
        client
    }

    /// The name of the desktop.
    pub fn name(&self) -> (name: &str)
        ensures
            name@ == self@.name,
    {
        self.name.as_str()
    }

    /// The size of the framebuffer.
    pub fn size(&self) -> (size: (u16, u16))
        ensures
            size == self@.size,
    {
        self.size
    }

    /// The pixel format of the session.
    pub fn format(&self) -> (format: PixelFormat)
        ensures
            format == self@.format,
    {
        self.format
    }

    /// Whether the end of the session has been delivered. Where it has, it
    /// is the last event that the queue holds, or has left the queue.
    pub fn is_closed(&self) -> (closed: bool)
        ensures
            closed == self@.closed,
            self@.orderly(),
    {
        proof {
            use_type_invariant(self);
        }
        self.closed
    }

    /// Hands over the bytes that wait to be written, and forgets them.
    pub fn take_outgoing(&mut self) -> (bytes: Vec<u8>)
        ensures
            bytes@ == old(self)@.outgoing,
            final(self)@ == (ClientView { outgoing: Seq::empty(), ..old(self)@ }),
    {
        proof {
            use_type_invariant(&*self);
        }
        let mut bytes: Vec<u8> = Vec::new();
        std::mem::swap(&mut bytes, &mut self.outgoing);
        bytes
    }

    /// Frames a message for the server.
    fn send(&mut self, message: &C2S)
        ensures
            final(self)@ == (ClientView {
                outgoing: old(self)@.outgoing + encode_c2s(message@),
                ..old(self)@
            }),
    {
        proof {
            use_type_invariant(&*self);
        }
        let mut outgoing: Vec<u8> = Vec::new();
        std::mem::swap(&mut outgoing, &mut self.outgoing);
        let _ = message.write_to(&mut outgoing);
        self.outgoing = outgoing;
    }

    /// Tells the server which encodings the client takes, the preferred first.
    pub fn set_encodings(&mut self, encodings: &[Encoding]) -> (r: Result<(), Error>)
        ensures
            r is Ok,
            final(self)@ == (ClientView {
                outgoing: old(self)@.outgoing + encode_c2s(C2SView::SetEncodings(encodings@)),
                ..old(self)@
            }),
    {
        let message = C2S::SetEncodings(vstd::slice::slice_to_vec(encodings));
        self.send(&message);
        Ok(())
    }

    /// Asks for the pixels of `rect`: for those that changed where
    /// `incremental` is set, else for all.
    pub fn request_update(&mut self, rect: Rect, incremental: bool) -> (r: Result<(), Error>)
        ensures
            r is Ok,
            final(self)@ == (ClientView {
                outgoing: old(self)@.outgoing + encode_c2s(
                    C2SView::FramebufferUpdateRequest {
                        incremental,
                        x_position: rect.left,
                        y_position: rect.top,
                        width: rect.width,
                        height: rect.height,
                    },
                ),
                ..old(self)@
            }),
    {
        let message = C2S::FramebufferUpdateRequest {
            incremental,
            x_position: rect.left,
            y_position: rect.top,
            width: rect.width,
            height: rect.height,
        };
        self.send(&message);
        Ok(())
    }

    /// Tells the server that a key went down or up.
    pub fn send_key_event(&mut self, down: bool, key: u32) -> (r: Result<(), Error>)
        ensures
            r is Ok,
            final(self)@ == (ClientView {
                outgoing: old(self)@.outgoing + encode_c2s(C2SView::KeyEvent { down, key }),
                ..old(self)@
            }),
    {
        let message = C2S::KeyEvent { down, key };
        self.send(&message);
        Ok(())
    }

    /// Tells the server where the pointer is and which of its buttons are down.
    pub fn send_pointer_event(&mut self, buttons: u8, x: u16, y: u16) -> (r: Result<(), Error>)
        ensures
            r is Ok,
            final(self)@ == (ClientView {
                outgoing: old(self)@.outgoing + encode_c2s(
                    C2SView::PointerEvent { button_mask: buttons, x_position: x, y_position: y },
                ),
                ..old(self)@
            }),
    {
        let message = C2S::PointerEvent { button_mask: buttons, x_position: x, y_position: y };
        self.send(&message);
        Ok(())
    }

    /// Hands the server the text of the client's clipboard. Characters
    /// beyond Latin-1 lose all but their low eight bits.
    pub fn update_clipboard(&mut self, text: &str) -> (r: Result<(), Error>)
        ensures
            r is Ok,
            final(self)@ == (ClientView {
                outgoing: old(self)@.outgoing + encode_c2s(C2SView::CutText(text@)),
                ..old(self)@
            }),
    {
        let message = C2S::CutText(text.to_owned());
        self.send(&message);
        Ok(())
    }

    /// Sends the pixel format of the session once more, which makes some
    /// servers send the framebuffer anew.
    pub fn poke_qemu(&mut self) -> (r: Result<(), Error>)
        ensures
            r is Ok,
            final(self)@ == (ClientView {
                outgoing: old(self)@.outgoing + encode_c2s(
                    C2SView::SetPixelFormat(old(self)@.format),
                ),
                ..old(self)@
            }),
    {
        let message = C2S::SetPixelFormat(self.format);
        self.send(&message);
        Ok(())
    }

    /// Puts an event at the end of the queue. The end of the session is the
    /// last event that the queue takes: what is delivered after it is dropped.
    pub fn deliver(&mut self, event: Event)
        ensures
            old(self)@.closed ==> final(self)@ == old(self)@,
            !old(self)@.closed ==> final(self)@ == (ClientView {
                queue: old(self)@.queue.push(event@),
                closed: event@ is Disconnected,
                ..old(self)@
            }),
    {
        proof {
            use_type_invariant(&*self);
        }
        if self.closed {
            return ;
        }
        match &event {
            Event::Disconnected(_) => {
                self.closed = true;
            },
            _ => {},
        }
        let ghost before = self@.queue;
        let mut events: VecDeque<Event> = VecDeque::new();
        std::mem::swap(&mut events, &mut self.events);
        events.push_back(event);
        assert(Seq::new(events@.len(), |i: int| events@[i]@) =~= before.push(event@));
        self.events = events;
    }

    /// Takes the oldest event from the queue; `None` where the queue is
    /// empty. A `Resize` sets the size of the session.
    pub fn poll_event(&mut self) -> (r: Option<Event>)
        ensures
            old(self)@.queue.len() == 0 ==> r is None && final(self)@ == old(self)@,
            old(self)@.queue.len() > 0 ==> (r matches Some(event) && event@ == old(self)@.queue[0])
                && final(self)@ == (ClientView {
                queue: old(self)@.queue.skip(1),
                size: resized(old(self)@.size, old(self)@.queue[0]),
                ..old(self)@
            }),
    {
        proof {
            use_type_invariant(&*self);
        }
        let ghost before = self@.queue;
        let mut events: VecDeque<Event> = VecDeque::new();
        std::mem::swap(&mut events, &mut self.events);
        let first = events.pop_front();
        let ghost after = Seq::new(events@.len(), |i: int| events@[i]@);
        proof {
            if first is Some {
                assert(first->Some_0@ == before[0]);
                assert(after =~= before.skip(1));
                assert forall|i: int|
                    0 <= i < after.len() && (#[trigger] after[i]) is Disconnected implies i
                        == after.len() - 1 && self@.closed by {
                    assert(after[i] == before[i + 1]);
                }
            } else {
                assert(after =~= before);
            }
        }
        self.events = events;
        match &first {
            Some(Event::Resize(width, height)) => {
                self.size = (*width, *height);
            },
            _ => {},
        }
        first
    }

    /// Takes all events from the queue, the oldest first.
    pub fn poll_iter(&mut self) -> (events: Vec<Event>)
        ensures
            events_view(events) == old(self)@.queue,
            final(self)@ == (ClientView {
                queue: Seq::empty(),
                size: size_after(old(self)@.size, old(self)@.queue),
                ..old(self)@
            }),
    {
        let mut events: Vec<Event> = Vec::new();
        let ghost all = self@.queue;
        assert(events_view(events) =~= all.subrange(0, 0));
        assert(all.skip(0) =~= all);
        loop
            invariant
                all == old(self)@.queue,
                events@.len() <= all.len(),
                events_view(events) == all.subrange(0, events@.len() as int),
                size_after(self@.size, self@.queue) == size_after(old(self)@.size, all),
                self@ == (ClientView {
                    queue: all.skip(events@.len() as int),
                    size: self@.size,
                    ..old(self)@
                }),
            decreases all.len() - events@.len(),
        {
            let ghost shown = events_view(events);
            let ghost k = events@.len() as int;
            let ghost size = self@.size;
            let ghost queue = self@.queue;
            assert(queue.len() > 0 ==> size_after(size, queue) == size_after(
                resized(size, queue[0]),
                queue.skip(1),
            ));
            assert(queue.len() == 0 ==> size_after(size, queue) == size);
            match self.poll_event() {
                None => {
                    assert(all.subrange(0, all.len() as int) =~= all);
                    assert(self@.queue =~= Seq::<EventView>::empty());
                    return events;
                },
                Some(event) => {
                    events.push(event);
                    assert(events_view(events) =~= shown.push(all[k]));
                    assert(events_view(events) =~= all.subrange(0, k + 1));
                    assert(all.skip(k).skip(1) =~= all.skip(k + 1));
                },
            }
        }
    }

    /// Changes the pixel format, step by step: call it until it no longer
    /// says `Pending`, and deliver what arrives in between.
    ///
    /// Pixels in the old format may be on their way, and nothing on the wire
    /// tells them from pixels in the new one. So the first call empties the
    /// queue and asks for the whole framebuffer. Each later call drops the
    /// events up to the pixels of the whole framebuffer; when these have
    /// come, it tells the server the new format and makes the change:
    /// `Done`. This narrows the window in which the two formats can be mixed
    /// up; it does not close it.
    ///
    /// Where the session ends first, the call fails with `Disconnected` and
    /// the format stays as it was; the event that says so, if it was not
    /// polled yet, stays in the queue. `format_step` says all of this.
    pub fn set_format(&mut self, format: PixelFormat) -> (r: Result<FormatChange, Error>)
        ensures
            (r, final(self)@) == format_step(old(self)@, format),
            r == Ok::<FormatChange, Error>(FormatChange::Done) ==> final(self)@.format == format,
            r != Ok::<FormatChange, Error>(FormatChange::Done) ==> final(self)@.format == old(
                self,
            )@.format,
            r matches Err(e) ==> e == Error::Disconnected,
    {
        proof {
            use_type_invariant(&*self);
        }
        let awaited = match self.awaited {
            None => {
                if self.closed {
                    return Err(Error::Disconnected);
                }
                let _ = self.poll_iter();
                let framebuffer_rect = Rect {
                    left: 0,
                    top: 0,
                    width: self.size.0,
                    height: self.size.1,
                };
                let _ = self.request_update(framebuffer_rect, false);
                proof {
                    use_type_invariant(&*self);
                }
                self.awaited = Some(framebuffer_rect);
                return Ok(FormatChange::Pending);
            },
            Some(rect) => rect,
        };
        let ghost all = self@.queue;
        let ghost mut k: int = 0;
        assert(all.skip(0) =~= all);
        assert(all.subrange(0, 0) =~= Seq::<EventView>::empty());
        loop
            invariant
                0 <= k <= all.len(),
                all == old(self)@.queue,
                old(self)@.awaited == Some(awaited),
                decisive_index(all, awaited) == k + decisive_index(self@.queue, awaited),
                self@ == (ClientView {
                    queue: all.skip(k),
                    size: size_after(old(self)@.size, all.subrange(0, k)),
                    ..old(self)@
                }),
            decreases all.len() - k,
        {
            proof {
                use_type_invariant(&*self);
            }
            if self.events.len() == 0 {
                assert(self@.queue.len() == 0);
                assert(all.subrange(0, all.len() as int) =~= all);
                assert(self@.queue =~= Seq::<EventView>::empty());
                if self.closed {
                    self.awaited = None;
                    return Err(Error::Disconnected);
                }
                return Ok(FormatChange::Pending);
            }
            assert(self@.queue[0] == self.events@[0]@);
            assert(self@.queue.len() == all.len() - k);
            assert(self@.queue[0] == all.skip(k)[0]);
            assert(all[k] == self@.queue[0]);
            let decisive = match &self.events[0] {
                Event::Disconnected(_) => {
                    assert(is_decisive(self@.queue[0], awaited));
                    assert(decisive_index(self@.queue, awaited) == 0);
                    self.awaited = None;
                    return Err(Error::Disconnected);
                },
                Event::PutPixels(rect, _) => rect.left == awaited.left && rect.top == awaited.top
                    && rect.width == awaited.width && rect.height == awaited.height,
                _ => false,
            };
            assert(decisive == is_decisive(self@.queue[0], awaited));
            let _ = self.poll_event();
            proof {
                lemma_size_after_push(old(self)@.size, all.subrange(0, k), all[k]);
                assert(all.subrange(0, k).push(all[k]) =~= all.subrange(0, k + 1));
                assert(all.skip(k).skip(1) =~= all.skip(k + 1));
            }
            if decisive {
                let message = C2S::SetPixelFormat(format);
                self.send(&message);
                proof {
                    use_type_invariant(&*self);
                }
                self.format = format;
                self.awaited = None;
                return Ok(FormatChange::Done);
            }
            proof {
                k = k + 1;
            }
        }
    }
}

/// How far a change of the pixel format has come.
#[derive(Debug, Clone, Copy, PartialEq, Eq, Structural)]
pub enum FormatChange {
    /// The session has asked for the whole framebuffer and waits for its
    /// pixels: the format is still the old one.
    Pending,
    /// The server was told the new format, and the session has it.
    Done,
}

/// The session once a change of the pixel format has begun: the queue is
/// emptied, the whole framebuffer is asked for, and its pixels are awaited.
pub open spec fn begun(s: ClientView) -> ClientView {
    let size = size_after(s.size, s.queue);
    ClientView {
        queue: Seq::empty(),
        size,
        outgoing: s.outgoing + encode_c2s(full_request(whole(size))),
        awaited: Some(whole(size)),
        ..s
    }
}

/// One step of a change to the pixel format `format`: what it answers, and
/// the session after it.
///
/// Where no change is under way, one begins, unless the session is over.
/// Where one is, the events up to the first decisive one are dropped. If
/// that is the pixels of the whole framebuffer, the server is told the
/// format and the session has it. If it is the end of the session, or the
/// end was polled before, the change is given up. If none is there yet, the
/// change stays pending.
pub open spec fn format_step(s: ClientView, format: PixelFormat) -> (
    Result<FormatChange, Error>,
    ClientView,
) {
    match s.awaited {
        None => if s.closed {
            (Err(Error::Disconnected), s)
        } else {
            (Ok(FormatChange::Pending), begun(s))
        },
        Some(awaited) => {
            let i = decisive_index(s.queue, awaited) as int;
            let size = size_after(s.size, s.queue.subrange(0, i));
            if i == s.queue.len() {
                if s.closed {
                    (
                        Err(Error::Disconnected),
                        ClientView { queue: Seq::empty(), size, awaited: None, ..s },
                    )
                } else {
                    (Ok(FormatChange::Pending), ClientView { queue: Seq::empty(), size, ..s })
                }
            } else if s.queue[i] is Disconnected {
                (
                    Err(Error::Disconnected),
                    ClientView { queue: s.queue.skip(i), size, awaited: None, ..s },
                )
            } else {
                (
                    Ok(FormatChange::Done),
                    ClientView {
                        queue: s.queue.skip(i + 1),
                        size: resized(size, s.queue[i]),
                        outgoing: s.outgoing + encode_c2s(C2SView::SetPixelFormat(format)),
                        format,
                        awaited: None,
                        ..s
                    },
                )
            }
        },
    }
}

/// A change of the pixel format on a session that is not over: the first
/// step asks for the whole framebuffer and is pending. Whatever was
/// delivered and polled since, as long as nothing else was sent, a later
/// step that is done has told the server the new format right behind that
/// request, and the session has the new format; a step that fails says
/// `Disconnected` and leaves the old format.
pub proof fn lemma_format_change(s: ClientView, later: ClientView, format: PixelFormat)
    requires
        s.awaited is None,
        !s.closed,
        later.awaited == begun(s).awaited,
        later.outgoing == begun(s).outgoing,
        later.format == s.format,
    ensures
        format_step(s, format) == (Ok::<FormatChange, Error>(FormatChange::Pending), begun(s)),
        format_step(later, format).0 == Ok::<FormatChange, Error>(FormatChange::Done) ==> {
            &&& format_step(later, format).1.format == format
            &&& format_step(later, format).1.awaited is None
            &&& format_step(later, format).1.outgoing == s.outgoing + encode_c2s(
                full_request(whole(size_after(s.size, s.queue))),
            ) + encode_c2s(C2SView::SetPixelFormat(format))
        },
        format_step(later, format).0 is Err ==> {
            &&& format_step(later, format).0 == Err::<FormatChange, Error>(Error::Disconnected)
            &&& format_step(later, format).1.format == s.format
            &&& format_step(later, format).1.outgoing == later.outgoing
        },
{
}

/// A change of the pixel format that is under way stays pending exactly as
/// long as the session is not over and neither the pixels of the awaited
/// rectangle nor the end of the session are in the queue.
pub proof fn lemma_format_change_waits(s: ClientView, format: PixelFormat)
    requires
        s.awaited is Some,
    ensures
        format_step(s, format).0 == Ok::<FormatChange, Error>(FormatChange::Pending) <==> !s.closed
            && !exists|i: int|
            0 <= i < s.queue.len() && is_decisive(#[trigger] s.queue[i], s.awaited->Some_0),
{
    lemma_format_change_ends(s.queue, s.awaited->Some_0);
}

/// The queue is first in, first out: of two events that are delivered one
/// after the other to a queue, the polls that follow those of the events
/// that were queued before give the first, and then the second.
pub proof fn lemma_queue_is_fifo(queue: Seq<EventView>, first: EventView, second: EventView)
    ensures
        queue.push(first).push(second).skip(queue.len() as int)[0] == first,
        queue.push(first).push(second).skip(queue.len() as int).skip(1)[0] == second,
        queue.push(first).push(second).subrange(0, queue.len() as int) == queue,
{
    assert(queue.push(first).push(second).subrange(0, queue.len() as int) =~= queue);
}

/// The first decisive event of a queue is found exactly where there is
/// one: a change of the pixel format ends as soon as a decisive event is in
/// the queue, and not before.
pub proof fn lemma_format_change_ends(events: Seq<EventView>, awaited: Rect)
    ensures
        decisive_index(events, awaited) <= events.len(),
        decisive_index(events, awaited) < events.len() <==> exists|i: int|
            0 <= i < events.len() && is_decisive(#[trigger] events[i], awaited),
        decisive_index(events, awaited) < events.len() ==> is_decisive(
            events[decisive_index(events, awaited) as int],
            awaited,
        ),
    decreases events.len(),
{
    if events.len() > 0 && !is_decisive(events[0], awaited) {
        let rest = events.skip(1);
        lemma_format_change_ends(rest, awaited);
        if decisive_index(rest, awaited) < rest.len() {
            let j = decisive_index(rest, awaited) as int;
            assert(rest[j] == events[j + 1]);
        }
        if exists|i: int| 0 <= i < events.len() && is_decisive(#[trigger] events[i], awaited) {
            let i = choose|i: int|
                0 <= i < events.len() && is_decisive(#[trigger] events[i], awaited);
            assert(rest[i - 1] == events[i]);
        }
    }
}

/// The size after one more event.
pub proof fn lemma_size_after_push(size: (u16, u16), events: Seq<EventView>, event: EventView)
    ensures
        size_after(size, events.push(event)) == resized(size_after(size, events), event),
    decreases events.len(),
{
    let longer = events.push(event);
    assert(size_after(size, longer) == size_after(resized(size, longer[0]), longer.skip(1)));
    if events.len() == 0 {
        assert(longer.skip(1) =~= Seq::<EventView>::empty());
        assert(size_after(resized(size, event), longer.skip(1)) == resized(size, event));
        assert(size_after(size, events) == size);
    } else {
        assert(longer.skip(1) =~= events.skip(1).push(event));
        lemma_size_after_push(resized(size, events[0]), events.skip(1), event);
        assert(size_after(size, events) == size_after(resized(size, events[0]), events.skip(1)));
    }
}

} // verus!
