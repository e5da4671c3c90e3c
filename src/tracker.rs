use vstd::prelude::*;

use crate::wire::{decode_error, decode_error_spec, frame_sequence, le32, XError};

verus! {

/// How many sequence numbers there are: they are 16-bit and wrap.
pub const SEQUENCE_SPACE: usize = 65536;

/// The sequence number that follows `s`.
pub open spec fn next_sequence(s: u16) -> u16 {
    ((s + 1) % 65536) as u16
}

/// The state of the slot of one sequence number.
pub enum Slot {
    /// No request with a reply is outstanding under this number.
    Free,
    /// A request waits for its reply.
    Waiting,
    /// The reply frame has come.
    Replied(Vec<u8>),
    /// The server reported an error for the request.
    Failed(XError),
}

/// A slot as a mathematical value.
pub enum SlotView {
    Free,
    Waiting,
    Replied(Seq<u8>),
    Failed(XError),
}

impl View for Slot {
    type V = SlotView;

    open spec fn view(&self) -> SlotView {
        match self {
            Slot::Free => SlotView::Free,
            Slot::Waiting => SlotView::Waiting,
            Slot::Replied(v) => SlotView::Replied(v@),
            Slot::Failed(e) => SlotView::Failed(*e),
        }
    }
}

/// What a frame was.
#[derive(Debug, Clone, Copy, PartialEq, Eq)]
pub enum FrameKind {
    Error,
    Reply,
    Event,
}

/// Why the tracker refused a call.
#[derive(Debug, Clone, Copy, PartialEq, Eq)]
pub enum TrackerError {
    /// An earlier frame broke the stream; nothing more is read.
    Desynchronized,
    /// The request's sequence number still has a reply outstanding.
    WindowFull,
    /// A frame shorter than the 32-byte header.
    Truncated,
    /// A frame whose length disagrees with its kind or its length field.
    BadLength,
    /// A reply for which no request waits.
    UnexpectedReply,
    /// No request waits under this sequence number.
    NotPending,
    /// The server answered the request with this error.
    Protocol(XError),
}

/// The tracker as a mathematical value.
pub struct TrackerModel {
    /// The sequence number of the next request.
    pub next: u16,
    /// One slot per sequence number.
    pub slots: Seq<SlotView>,
    /// Errors that no waiting request claimed, oldest first.
    pub errors: Seq<XError>,
    /// Event frames, oldest first.
    pub events: Seq<Seq<u8>>,
    /// A frame broke the stream.
    pub fatal: bool,
}

impl TrackerModel {
    pub open spec fn wf(&self) -> bool {
        self.slots.len() == SEQUENCE_SPACE
    }

    /// The same model, marked as having lost the stream.
    pub open spec fn broken(self) -> TrackerModel {
        TrackerModel { fatal: true, ..self }
    }
}

/// Sending a request: it takes the next sequence number, and a slot when a
/// reply is expected.
pub open spec fn send_spec(m: TrackerModel, expects_reply: bool) -> (TrackerModel, Result<u16, TrackerError>) {
    if m.fatal {
        (m, Err(TrackerError::Desynchronized))
    } else if expects_reply && m.slots[m.next as int] != SlotView::Free {
        (m, Err(TrackerError::WindowFull))
    } else {
        (
            TrackerModel {
                next: next_sequence(m.next),
                slots: if expects_reply {
                    m.slots.update(m.next as int, SlotView::Waiting)
                } else {
                    m.slots
                },
                ..m
            },
            Ok(m.next),
        )
    }
}

/// The reply length that a reply frame declares: 32 bytes and that many
/// four-byte units more.
pub open spec fn reply_len(f: Seq<u8>) -> int {
    32 + 4 * le32(f[4], f[5], f[6], f[7])
}

/// How many bytes of a frame are still to be read after its 32-byte header:
/// the units that a reply declares, nothing for an error or an event.
pub open spec fn frame_rest_spec(h: Seq<u8>) -> int {
    if h[0] == 1 {
        4 * le32(h[4], h[5], h[6], h[7])
    } else {
        0
    }
}

/// How many bytes of the frame whose 32-byte header is `header` are still to be
/// read; a reply that declares more than `max_words` four-byte units is refused,
/// so that a corrupt length cannot make the reader swallow the frames after it.
pub fn frame_rest(header: &Vec<u8>, max_words: u32) -> (r: Result<u64, TrackerError>)
    requires
        header@.len() >= 32,
    ensures
        r.is_ok() <==> frame_rest_spec(header@) <= 4 * max_words,
        r.is_ok() ==> r.unwrap() == frame_rest_spec(header@),
        r.is_err() ==> r == Err::<u64, TrackerError>(TrackerError::BadLength),
{
    if header[0] != 1 {
        return Ok(0);
    }
    let words: u32 = header[4] as u32 + 256 * header[5] as u32 + 65536 * header[6] as u32
        + 16777216 * header[7] as u32;
    if words > max_words {
        return Err(TrackerError::BadLength);
    }
    Ok(4 * words as u64)
}

/// Taking in one frame from the server.
pub open spec fn handle_spec(m: TrackerModel, f: Seq<u8>) -> (TrackerModel, Result<FrameKind, TrackerError>) {
    if m.fatal {
        (m, Err(TrackerError::Desynchronized))
    } else if f.len() < 32 {
        (m.broken(), Err(TrackerError::Truncated))
    } else if f[0] == 0 {
        if f.len() != 32 {
            (m.broken(), Err(TrackerError::BadLength))
        } else {
            let e = decode_error_spec(f);
            if m.slots[e.sequence as int] == SlotView::Waiting {
                (
                    TrackerModel {
                        slots: m.slots.update(e.sequence as int, SlotView::Failed(e)),
                        ..m
                    },
                    Ok(FrameKind::Error),
                )
            } else {
                (TrackerModel { errors: m.errors.push(e), ..m }, Ok(FrameKind::Error))
            }
        }
    } else if f[0] == 1 {
        if f.len() != reply_len(f) {
            (m.broken(), Err(TrackerError::BadLength))
        } else if m.slots[frame_sequence(f) as int] != SlotView::Waiting {
            (m.broken(), Err(TrackerError::UnexpectedReply))
        } else {
            (
                TrackerModel {
                    slots: m.slots.update(frame_sequence(f) as int, SlotView::Replied(f)),
                    ..m
                },
                Ok(FrameKind::Reply),
            )
        }
    } else {
        if f.len() != 32 {
            (m.broken(), Err(TrackerError::BadLength))
        } else {
            (TrackerModel { events: m.events.push(f), ..m }, Ok(FrameKind::Event))
        }
    }
}

/// Collecting the outcome of the request with sequence number `s`: the reply,
/// the error, or nothing yet.
pub open spec fn take_spec(m: TrackerModel, s: u16) -> (TrackerModel, Result<Option<Seq<u8>>, TrackerError>) {
    match m.slots[s as int] {
        SlotView::Free => (m, Err(TrackerError::NotPending)),
        SlotView::Waiting => (m, Ok(None)),
        SlotView::Replied(v) => (
            TrackerModel { slots: m.slots.update(s as int, SlotView::Free), ..m },
            Ok(Some(v)),
        ),
        SlotView::Failed(e) => (
            TrackerModel { slots: m.slots.update(s as int, SlotView::Free), ..m },
            Err(TrackerError::Protocol(e)),
        ),
    }
}

/// Waiting again under sequence number `s` after a reply was collected, for a
/// request that the server answers with a series of replies.
pub open spec fn rearm_spec(m: TrackerModel, s: u16) -> (TrackerModel, Result<(), TrackerError>) {
    if m.fatal {
        (m, Err(TrackerError::Desynchronized))
    } else if m.slots[s as int] != SlotView::Free {
        (m, Err(TrackerError::WindowFull))
    } else {
        (TrackerModel { slots: m.slots.update(s as int, SlotView::Waiting), ..m }, Ok(()))
    }
}

/// The sequence numbers of a connection and what came back for each: it
/// correlates the server's frames with the requests that caused them.
pub struct Tracker {
    next: u16,
    slots: Vec<Slot>,
    errors: Vec<XError>,
    events: Vec<Vec<u8>>,
    fatal: bool,
}

impl View for Tracker {
    type V = TrackerModel;

    closed spec fn view(&self) -> TrackerModel {
        TrackerModel {
            next: self.next,
            slots: self.slots@.map_values(|s: Slot| s@),
            errors: self.errors@,
            events: self.events@.map_values(|e: Vec<u8>| e@),
            fatal: self.fatal,
        }
    }
}

impl Tracker {
    /// A tracker for a fresh connection: the first request gets sequence number 1.
    pub fn new() -> (r: Tracker)
        ensures
            r@.wf(),
            r@.next == 1,
            forall|i: int| 0 <= i < SEQUENCE_SPACE ==> r@.slots[i] == SlotView::Free,
            r@.errors.len() == 0,
            r@.events.len() == 0,
            !r@.fatal,
    {
        let mut slots: Vec<Slot> = Vec::new();
        let mut i: usize = 0;
        while i < SEQUENCE_SPACE
            invariant
                i <= SEQUENCE_SPACE,
                slots@.len() == i,
                forall|j: int| 0 <= j < i ==> slots@[j]@ == SlotView::Free,
            decreases SEQUENCE_SPACE - i,
        {
            slots.push(Slot::Free);
            i = i + 1;
        }
        Tracker { next: 1, slots, errors: Vec::new(), events: Vec::new(), fatal: false }
    }

    /// The sequence number that the next request will get.
    pub fn next_sequence(&self) -> (r: u16)
        ensures
            r == self@.next,
    {
        self.next
    }

    /// A frame broke the stream and nothing more is read.
    pub fn is_desynchronized(&self) -> (r: bool)
        ensures
            r == self@.fatal,
    {
        self.fatal
    }

    /// Records a request just encoded: returns its sequence number, and keeps a
    /// slot for its reply where one is expected.
    pub fn send(&mut self, expects_reply: bool) -> (r: Result<u16, TrackerError>)
        requires
            old(self)@.wf(),
        ensures
            final(self)@ == send_spec(old(self)@, expects_reply).0,
            r == send_spec(old(self)@, expects_reply).1,
    {
        if self.fatal {
            return Err(TrackerError::Desynchronized);
        }
        let s = self.next;
        if expects_reply {
            let free = match &self.slots[s as usize] {
                Slot::Free => true,
                _ => false,
            };
            if !free {
                return Err(TrackerError::WindowFull);
            }
            let ghost before = self.slots@;
            self.slots.set(s as usize, Slot::Waiting);
            proof {
                assert(self.slots@.map_values(|x: Slot| x@) =~= before.map_values(|x: Slot| x@).update(
                    s as int,
                    SlotView::Waiting,
                ));
            }
        }
        self.next = if s == 65535 { 0 } else { s + 1 };
        Ok(s)
    }

    fn set_slot(&mut self, s: u16, slot: Slot)
        requires
            old(self)@.wf(),
        ensures
            final(self)@ == (TrackerModel { slots: old(self)@.slots.update(s as int, slot@), ..old(self)@ }),
    {
        let ghost before = self.slots@;
        self.slots.set(s as usize, slot);
        proof {
            assert(self.slots@.map_values(|x: Slot| x@) =~= before.map_values(|x: Slot| x@).update(
                s as int,
                slot@,
            ));
        }
    }

    fn is_waiting(&self, s: u16) -> (r: bool)
        requires
            self@.wf(),
        ensures
            r == (self@.slots[s as int] == SlotView::Waiting),
    {
        match &self.slots[s as usize] {
            Slot::Waiting => true,
            _ => false,
        }
    }

    /// Takes in one frame read from the server: an error settles the request
    /// that waits under its sequence number or else is queued, a reply settles
    /// its request, an event is queued. A frame that breaks the stream stops
    /// all further reading.
    pub fn handle_frame(&mut self, frame: Vec<u8>) -> (r: Result<FrameKind, TrackerError>)
        requires
            old(self)@.wf(),
        ensures
            final(self)@ == handle_spec(old(self)@, frame@).0,
            r == handle_spec(old(self)@, frame@).1,
    {
        if self.fatal {
            return Err(TrackerError::Desynchronized);
        }
        let len: usize = frame.len();
        if len < 32 {
            self.fatal = true;
            return Err(TrackerError::Truncated);
        }
        if frame[0] == 0 {
            if len != 32 {
                self.fatal = true;
                return Err(TrackerError::BadLength);
            }
            let e = decode_error(&frame);
            if self.is_waiting(e.sequence) {
                self.set_slot(e.sequence, Slot::Failed(e));
            } else {
                self.errors.push(e);
            }
            Ok(FrameKind::Error)
        } else if frame[0] == 1 {
            let words: u64 = frame[4] as u64 + 256 * frame[5] as u64 + 65536 * frame[6] as u64
                + 16777216 * frame[7] as u64;
            if len as u64 != 32 + 4 * words {
                self.fatal = true;
                return Err(TrackerError::BadLength);
            }
            let s: u16 = frame[2] as u16 + 256 * frame[3] as u16;
            if !self.is_waiting(s) {
                self.fatal = true;
                return Err(TrackerError::UnexpectedReply);
            }
            let ghost fv = frame@;
            self.set_slot(s, Slot::Replied(frame));
            Ok(FrameKind::Reply)
        } else {
            if len != 32 {
                self.fatal = true;
                return Err(TrackerError::BadLength);
            }
            let ghost before = self.events@;
            let ghost fv = frame@;
            self.events.push(frame);
            proof {
                assert(self.events@.map_values(|e: Vec<u8>| e@) =~= before.map_values(
                    |e: Vec<u8>| e@,
                ).push(fv));
            }
            Ok(FrameKind::Event)
        }
    }

    /// Waits again under sequence number `s`, whose reply was just collected,
    /// for the next reply of a series.
    pub fn rearm(&mut self, s: u16) -> (r: Result<(), TrackerError>)
        requires
            old(self)@.wf(),
        ensures
            final(self)@ == rearm_spec(old(self)@, s).0,
            r == rearm_spec(old(self)@, s).1,
    {
        if self.fatal {
            return Err(TrackerError::Desynchronized);
        }
        let free = match &self.slots[s as usize] {
            Slot::Free => true,
            _ => false,
        };
        if !free {
            return Err(TrackerError::WindowFull);
        }
        self.set_slot(s, Slot::Waiting);
        Ok(())
    }

    /// Collects the outcome of the request with sequence number `s`: its reply
    /// frame, the error the server reported for it, or `Ok(None)` while it
    /// still waits. A collected outcome frees the slot.
    pub fn take_reply(&mut self, s: u16) -> (r: Result<Option<Vec<u8>>, TrackerError>)
        requires
            old(self)@.wf(),
        ensures
            final(self)@ == take_spec(old(self)@, s).0,
            match (r, take_spec(old(self)@, s).1) {
                (Ok(Some(v)), Ok(Some(w))) => v@ == w,
                (Ok(None), Ok(None)) => true,
                (Err(e), Err(f)) => e == f,
                _ => false,
            },
    {
        let ghost before = self.slots@;
        let mut tmp = Slot::Free;
        std::mem::swap(&mut self.slots[s as usize], &mut tmp);
        proof {
            assert(self.slots@.map_values(|x: Slot| x@) =~= before.map_values(|x: Slot| x@).update(
                s as int,
                SlotView::Free,
            ));
        }
        match tmp {
            Slot::Free => {
                self.slots.set(s as usize, Slot::Free);
                proof {
                    assert(self.slots@.map_values(|x: Slot| x@) =~= before.map_values(|x: Slot| x@));
                }
                Err(TrackerError::NotPending)
            },
            Slot::Waiting => {
                self.slots.set(s as usize, Slot::Waiting);
                proof {
                    assert(self.slots@.map_values(|x: Slot| x@) =~= before.map_values(|x: Slot| x@));
                }
                Ok(None)
            },
            Slot::Replied(v) => Ok(Some(v)),
            Slot::Failed(e) => Err(TrackerError::Protocol(e)),
        }
    }

    /// Hands out the queued errors, oldest first, and empties the queue.
    pub fn drain_errors(&mut self) -> (r: Vec<XError>)
        requires
            old(self)@.wf(),
        ensures
            r@ == old(self)@.errors,
            final(self)@ == (TrackerModel { errors: Seq::empty(), ..old(self)@ }),
    {
        let mut r: Vec<XError> = Vec::new();
        std::mem::swap(&mut self.errors, &mut r);
        proof {
            assert(self.errors@ =~= Seq::<XError>::empty());
        }
        r
    }

    /// Hands out the queued event frames, oldest first, and empties the queue.
    pub fn drain_events(&mut self) -> (r: Vec<Vec<u8>>)
        requires
            old(self)@.wf(),
        ensures
            r@.map_values(|e: Vec<u8>| e@) == old(self)@.events,
            final(self)@ == (TrackerModel { events: Seq::empty(), ..old(self)@ }),
    {
        let mut r: Vec<Vec<u8>> = Vec::new();
        std::mem::swap(&mut self.events, &mut r);
        proof {
            assert(self.events@.map_values(|e: Vec<u8>| e@) =~= Seq::<Seq<u8>>::empty());
        }
        r
    }
}

/// Requests sent one after another get consecutive sequence numbers, wrapping
/// at 65536, so no two of fewer than 65536 requests share one.
pub proof fn lemma_sequence_numbers_follow(m: TrackerModel, first: bool, second: bool)
    requires
        m.wf(),
        send_spec(m, first).1.is_ok(),
        send_spec(send_spec(m, first).0, second).1.is_ok(),
    ensures
        send_spec(send_spec(m, first).0, second).1.unwrap() == next_sequence(
            send_spec(m, first).1.unwrap(),
        ),
        send_spec(send_spec(m, first).0, second).1.unwrap() != send_spec(m, first).1.unwrap(),
{
}

/// A reply settles the request of its own sequence number and no other: the
/// reply is what collecting that request gives, and every other slot stays.
pub proof fn lemma_reply_attribution(m: TrackerModel, f: Seq<u8>, s: u16)
    requires
        m.wf(),
        handle_spec(m, f).1 == Ok::<FrameKind, TrackerError>(FrameKind::Reply),
    ensures
        take_spec(handle_spec(m, f).0, frame_sequence(f)).1 == Ok::<Option<Seq<u8>>, TrackerError>(
            Some(f),
        ),
        s != frame_sequence(f) ==> handle_spec(m, f).0.slots[s as int] == m.slots[s as int],
{
}

/// An error for a waiting request settles that request alone: collecting it
/// gives the error.
pub proof fn lemma_error_attribution(m: TrackerModel, f: Seq<u8>, s: u16)
    requires
        m.wf(),
        !m.fatal,
        f.len() == 32,
        f[0] == 0,
        m.slots[frame_sequence(f) as int] == SlotView::Waiting,
    ensures
        take_spec(handle_spec(m, f).0, frame_sequence(f)).1 == Err::<Option<Seq<u8>>, TrackerError>(
            TrackerError::Protocol(decode_error_spec(f)),
        ),
        s != frame_sequence(f) ==> handle_spec(m, f).0.slots[s as int] == m.slots[s as int],
        handle_spec(m, f).0.errors == m.errors,
{
}

/// An error frame that no waiting request claims is queued as it came, after
/// the errors queued before it, so that the next drain hands it out.
pub proof fn lemma_unclaimed_error_queued(m: TrackerModel, f: Seq<u8>)
    requires
        m.wf(),
        !m.fatal,
        f.len() == 32,
        f[0] == 0,
        m.slots[frame_sequence(f) as int] != SlotView::Waiting,
    ensures
        handle_spec(m, f).1 == Ok::<FrameKind, TrackerError>(FrameKind::Error),
        handle_spec(m, f).0.errors == m.errors.push(decode_error_spec(f)),
        handle_spec(m, f).0.slots == m.slots,
{
}

/// A reply that declares more bytes than the frame holds breaks the stream, and
/// after that no frame is taken in.
pub proof fn lemma_overlong_reply_stops(m: TrackerModel, f: Seq<u8>, g: Seq<u8>)
    requires
        m.wf(),
        !m.fatal,
        f.len() >= 32,
        f[0] == 1,
        reply_len(f) > f.len(),
    ensures
        handle_spec(m, f).1 == Err::<FrameKind, TrackerError>(TrackerError::BadLength),
        handle_spec(m, f).0 == m.broken(),
        handle_spec(handle_spec(m, f).0, g) == (
        handle_spec(m, f).0,
        Err::<FrameKind, TrackerError>(TrackerError::Desynchronized),
        ),
{
}

/// Every frame that is taken in has the length of its kind: 32 bytes for an
/// error or an event, 32 bytes and the declared units for a reply.
pub proof fn lemma_frame_lengths(m: TrackerModel, f: Seq<u8>)
    requires
        m.wf(),
        handle_spec(m, f).1.is_ok(),
    ensures
        handle_spec(m, f).1 == Ok::<FrameKind, TrackerError>(FrameKind::Error) ==> f.len() == 32,
        handle_spec(m, f).1 == Ok::<FrameKind, TrackerError>(FrameKind::Event) ==> f.len() == 32,
        handle_spec(m, f).1 == Ok::<FrameKind, TrackerError>(FrameKind::Reply) ==> f.len()
            == reply_len(f) && f.len() % 4 == 0,
{
}

} // verus!
