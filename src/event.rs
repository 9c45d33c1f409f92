//! Events of a captured stream, and logs that carry them.
//!
//! A captured stream is a sequence of events: reports of progress, and
//! batches of data. An [`EventLink`] keeps them in memory for any number of
//! readers; an [`EventWriter`]
//! and an [`EventReader`] frame their encodings as bytes, each frame readable
//! on its own.

use vstd::prelude::*;

verus! {

/// Data and progress events of a captured stream.
#[derive(Debug)]
pub enum Event<T, C> {
    /// Changes to the counts of timestamps.
    Progress(Vec<(T, i64)>),
    /// A batch of data at a timestamp.
    Messages(T, C),
}

/// Receives events.
pub trait EventPusher<T, C> {
    /// The events received and not yet read back.
    spec fn queued(&self) -> Seq<Event<T, C>>;

    /// Appends `event`.
    fn push(&mut self, event: Event<T, C>)
        ensures
            final(self).queued() == old(self).queued().push(event),
    ;
}

/// Hands out events, oldest first.
pub trait EventIterator<T, C> {
    /// The events available and not yet handed out.
    spec fn unread(&self) -> Seq<Event<T, C>>;

    /// The next event, or `None` where none is available now.
    fn next(&mut self) -> (r: Option<&Event<T, C>>)
        ensures
            r is None <==> old(self).unread().len() == 0,
            r is None ==> final(self).unread() == old(self).unread(),
            r matches Some(e) ==> *e == old(self).unread()[0]
                && final(self).unread() == old(self).unread().drop_first(),
    ;
}

/// An in-memory log of events, appended at the end. Any number of readers
/// can each read it from the start, or from any position.
pub struct EventLink<T, C> {
    events: Vec<Event<T, C>>,
}

impl<T, C> EventLink<T, C> {
    /// The events held, oldest first.
    pub closed spec fn view(&self) -> Seq<Event<T, C>> {
        self.events@
    }

    /// An empty log.
    pub fn new() -> (r: EventLink<T, C>)
        ensures
            r.view().len() == 0,
    {
        EventLink { events: Vec::new() }
    }

    /// The number of events held.
    pub fn len(&self) -> (r: usize)
        ensures
            r == self.view().len(),
    {
        self.events.len()
    }

    /// A reader of the whole log, from its first event.
    pub fn reader(&self) -> (r: EventLinkReader<'_, T, C>)
        ensures
            r.unread() == self.view(),
            r.position_view() == 0,
    {
        let r = EventLinkReader { link: self, position: 0 };
        assert(r.unread() =~= self.view());
        r
    }

    /// A reader of the log from event `position` on.
    pub fn reader_at(&self, position: usize) -> (r: EventLinkReader<'_, T, C>)
        requires
            position <= self.view().len(),
        ensures
            r.unread() == self.view().subrange(position as int, self.view().len() as int),
            r.position_view() == position,
    {
        EventLinkReader { link: self, position }
    }
}

impl<T, C> EventPusher<T, C> for EventLink<T, C> {
    open spec fn queued(&self) -> Seq<Event<T, C>> {
        self.view()
    }

    fn push(&mut self, event: Event<T, C>) {
        self.events.push(event);
    }
}

/// A reader of an [`EventLink`], at a position of its own.
pub struct EventLinkReader<'a, T, C> {
    link: &'a EventLink<T, C>,
    position: usize,
}

impl<'a, T, C> EventLinkReader<'a, T, C> {
    /// The events of the log from this reader's position on.
    pub closed spec fn remaining(&self) -> Seq<Event<T, C>> {
        if self.position <= self.link.view().len() {
            self.link.view().subrange(self.position as int, self.link.view().len() as int)
        } else {
            Seq::empty()
        }
    }

    pub closed spec fn position_view(&self) -> nat {
        self.position as nat
    }

    /// The index of the next event this reader hands out.
    pub fn position(&self) -> (r: usize)
        ensures
            r == self.position_view(),
    {
        self.position
    }
}

impl<'a, T, C> EventIterator<T, C> for EventLinkReader<'a, T, C> {
    open spec fn unread(&self) -> Seq<Event<T, C>> {
        self.remaining()
    }

    fn next(&mut self) -> (r: Option<&Event<T, C>>) {
        if self.position < self.link.events.len() {
            let i = self.position;
            self.position = i + 1;
            assert(self.remaining() =~= old(self).remaining().drop_first());
            Some(&self.link.events[i])
        } else {
            None
        }
    }
}

impl<T, C> Default for EventLink<T, C> {
    fn default() -> (r: EventLink<T, C>)
        ensures
            r.view().len() == 0,
    {
        EventLink::new()
    }
}

/// The eight bytes of `n`, least significant first.
pub open spec fn le_bytes(n: u64) -> Seq<u8> {
    seq![
        (n & 0xff) as u8,
        ((n >> 8u64) & 0xff) as u8,
        ((n >> 16u64) & 0xff) as u8,
        ((n >> 24u64) & 0xff) as u8,
        ((n >> 32u64) & 0xff) as u8,
        ((n >> 40u64) & 0xff) as u8,
        ((n >> 48u64) & 0xff) as u8,
        ((n >> 56u64) & 0xff) as u8,
    ]
}

/// The number whose bytes, least significant first, begin `b`.
pub open spec fn le_value(b: Seq<u8>) -> u64
    recommends
        b.len() >= 8,
{
    (b[0] as u64) | ((b[1] as u64) << 8u64) | ((b[2] as u64) << 16u64) | ((b[3] as u64) << 24u64)
        | ((b[4] as u64) << 32u64) | ((b[5] as u64) << 40u64) | ((b[6] as u64) << 48u64)
        | ((b[7] as u64) << 56u64)
}

/// A frame: the length of `payload` in eight bytes, then `payload`.
pub open spec fn frame(payload: Seq<u8>) -> Seq<u8> {
    le_bytes(payload.len() as u64) + payload
}

proof fn lemma_le_value_bytes(n: u64)
    ensures
        le_value(le_bytes(n)) == n,
{
    let b = le_bytes(n);
    assert(b[0] == (n & 0xff) as u8);
    assert(b[7] == ((n >> 56u64) & 0xff) as u8);
    assert(((n & 0xff) as u8 as u64) | ((((n >> 8u64) & 0xff) as u8 as u64) << 8u64)
        | ((((n >> 16u64) & 0xff) as u8 as u64) << 16u64) | ((((n >> 24u64) & 0xff) as u8 as u64) << 24u64)
        | ((((n >> 32u64) & 0xff) as u8 as u64) << 32u64) | ((((n >> 40u64) & 0xff) as u8 as u64) << 40u64)
        | ((((n >> 48u64) & 0xff) as u8 as u64) << 48u64) | ((((n >> 56u64) & 0xff) as u8 as u64) << 56u64)
        == n) by (bit_vector);
}

/// Framing round trip: a frame followed by anything starts with the length
/// of its payload, then the payload itself, then what followed.
pub proof fn lemma_frame_round_trip(payload: Seq<u8>, rest: Seq<u8>)
    requires
        payload.len() <= u64::MAX,
    ensures
        ({
            let u = frame(payload) + rest;
            &&& u.len() >= 8
            &&& le_value(u) == payload.len()
            &&& u.subrange(8, 8 + payload.len() as int) == payload
            &&& u.subrange(8 + payload.len() as int, u.len() as int) == rest
        }),
{
    let u = frame(payload) + rest;
    let n = payload.len() as u64;
    lemma_le_value_bytes(n);
    assert(u.take(8) =~= le_bytes(n));
    assert(le_value(u) == le_value(le_bytes(n)));
    assert(u.subrange(8, 8 + payload.len() as int) =~= payload);
    assert(u.subrange(8 + payload.len() as int, u.len() as int) =~= rest);
}

/// A copy of `b[start..end]`.
fn copy_bytes(b: &Vec<u8>, start: usize, end: usize) -> (r: Vec<u8>)
    requires
        start <= end <= b@.len(),
    ensures
        r@ == b@.subrange(start as int, end as int),
{
    let mut r: Vec<u8> = Vec::new();
    let mut i: usize = start;
    while i < end
        invariant
            start <= i <= end,
            end <= b@.len(),
            r@ == b@.subrange(start as int, i as int),
        decreases end - i,
    {
        r.push(b[i]);
        i = i + 1;
        assert(r@ =~= b@.subrange(start as int, i as int));
    }
    r
}

/// Writes events as frames of bytes. Each event's encoding is framed with its
/// length, so that each can be read back on its own.
pub struct EventWriter<T, C> {
    stream: Vec<u8>,
    phant: std::marker::PhantomData<(T, C)>,
}

impl<T, C> EventWriter<T, C> {
    /// The bytes written and not yet taken.
    pub closed spec fn bytes(&self) -> Seq<u8> {
        self.stream@
    }

    /// A writer with nothing written.
    pub fn new() -> (r: EventWriter<T, C>)
        ensures
            r.bytes().len() == 0,
    {
        EventWriter { stream: Vec::new(), phant: std::marker::PhantomData }
    }

    /// Writes one frame holding `payload`.
    pub fn push_frame(&mut self, payload: &Vec<u8>)
        ensures
            final(self).bytes() == old(self).bytes() + frame(payload@),
    {
        let n = payload.len() as u64;
        let mut k: u64 = 0;
        while k < 8
            invariant
                k <= 8,
                n == payload@.len(),
                self.stream@ == old(self).stream@ + le_bytes(n).take(k as int),
            decreases 8 - k,
        {
            let byte = ((n >> (8 * k)) & 0xff) as u8;
            proof {
                assert(k < 8);
                assert(byte == le_bytes(n)[k as int]) by {
                    if k == 0 { assert(n >> 0u64 == n) by (bit_vector); }
                };
            }
            self.stream.push(byte);
            k = k + 1;
            assert(self.stream@ =~= old(self).stream@ + le_bytes(n).take(k as int));
        }
        let mut i: usize = 0;
        while i < payload.len()
            invariant
                i <= payload@.len(),
                self.stream@ == old(self).stream@ + le_bytes(n) + payload@.take(i as int),
            decreases payload@.len() - i,
        {
            self.stream.push(payload[i]);
            i = i + 1;
            assert(self.stream@ =~= old(self).stream@ + le_bytes(n) + payload@.take(i as int));
        }
        assert(payload@.take(payload@.len() as int) =~= payload@);
        assert(self.stream@ =~= old(self).stream@ + frame(payload@));
    }

    /// Hands out the bytes written, leaving none.
    pub fn take_bytes(&mut self) -> (r: Vec<u8>)
        ensures
            r@ == old(self).bytes(),
            final(self).bytes().len() == 0,
    {
        let mut r: Vec<u8> = Vec::new();
        std::mem::swap(&mut r, &mut self.stream);
        r
    }
}

/// Reads frames written by an [`EventWriter`] from bytes as they arrive.
pub struct EventReader<T, C> {
    reader: Vec<u8>,
    pos: usize,
    phant: std::marker::PhantomData<(T, C)>,
}

impl<T, C> EventReader<T, C> {
    /// The bytes received and not yet read.
    pub closed spec fn unread(&self) -> Seq<u8> {
        self.reader@.subrange(self.pos as int, self.reader@.len() as int)
    }

    pub closed spec fn wf(&self) -> bool {
        self.pos <= self.reader@.len()
    }

    /// A reader with nothing received.
    pub fn new() -> (r: EventReader<T, C>)
        ensures
            r.wf(),
            r.unread().len() == 0,
    {
        EventReader { reader: Vec::new(), pos: 0, phant: std::marker::PhantomData }
    }

    /// Appends received bytes.
    pub fn feed(&mut self, bytes: &Vec<u8>)
        requires
            old(self).wf(),
        ensures
            final(self).wf(),
            final(self).unread() == old(self).unread() + bytes@,
    {
        if self.pos == self.reader.len() {
            self.reader.clear();
            self.pos = 0;
        }
        let ghost u0 = self.unread();
        let ghost r0 = self.reader@;
        assert(u0 =~= old(self).unread());
        let mut i: usize = 0;
        while i < bytes.len()
            invariant
                self.pos <= r0.len(),
                u0 == r0.subrange(self.pos as int, r0.len() as int),
                i <= bytes@.len(),
                self.reader@ == r0 + bytes@.take(i as int),
            decreases bytes@.len() - i,
        {
            self.reader.push(bytes[i]);
            i = i + 1;
            assert(self.reader@ =~= r0 + bytes@.take(i as int));
        }
        assert(bytes@.take(bytes@.len() as int) =~= bytes@);
        assert(self.unread() =~= u0 + bytes@);
    }

    /// The payload of the next frame, where all of it has arrived; `None`
    /// otherwise, with nothing changed.
    pub fn next_frame(&mut self) -> (r: Option<Vec<u8>>)
        requires
            old(self).wf(),
        ensures
            final(self).wf(),
            r is Some <==> old(self).unread().len() >= 8
                && old(self).unread().len() - 8 >= le_value(old(self).unread()),
            r is None ==> *final(self) == *old(self),
            r matches Some(p) ==> old(self).unread() == frame(p@) + final(self).unread(),
    {
        let avail = self.reader.len() - self.pos;
        if avail < 8 {
            return None;
        }
        let ghost u = self.unread();
        let p = self.pos;
        let n: u64 = (self.reader[p] as u64) | ((self.reader[p + 1] as u64) << 8u64)
            | ((self.reader[p + 2] as u64) << 16u64) | ((self.reader[p + 3] as u64) << 24u64)
            | ((self.reader[p + 4] as u64) << 32u64) | ((self.reader[p + 5] as u64) << 40u64)
            | ((self.reader[p + 6] as u64) << 48u64) | ((self.reader[p + 7] as u64) << 56u64);
        assert(n == le_value(u));
        if ((avail - 8) as u64) < n {
            return None;
        }
        let end = p + 8 + n as usize;
        let payload = copy_bytes(&self.reader, p + 8, end);
        self.pos = end;
        proof {
            lemma_le_value_bytes(n);
            assert(u.take(8) =~= le_bytes(n)) by {
                assert forall|i: int| 0 <= i < 8 implies u[i] == #[trigger] le_bytes(n)[i] by {
                    let b0 = u[0]; let b1 = u[1]; let b2 = u[2]; let b3 = u[3];
                    let b4 = u[4]; let b5 = u[5]; let b6 = u[6]; let b7 = u[7];
                    assert(n == (b0 as u64) | ((b1 as u64) << 8u64) | ((b2 as u64) << 16u64) | ((b3 as u64) << 24u64)
                        | ((b4 as u64) << 32u64) | ((b5 as u64) << 40u64) | ((b6 as u64) << 48u64) | ((b7 as u64) << 56u64));
                    assert(((n & 0xff) as u8 == b0) && (((n >> 8u64) & 0xff) as u8 == b1)
                        && (((n >> 16u64) & 0xff) as u8 == b2) && (((n >> 24u64) & 0xff) as u8 == b3)
                        && (((n >> 32u64) & 0xff) as u8 == b4) && (((n >> 40u64) & 0xff) as u8 == b5)
                        && (((n >> 48u64) & 0xff) as u8 == b6) && (((n >> 56u64) & 0xff) as u8 == b7)) by (bit_vector)
                        requires
                            n == (b0 as u64) | ((b1 as u64) << 8u64) | ((b2 as u64) << 16u64) | ((b3 as u64) << 24u64)
                                | ((b4 as u64) << 32u64) | ((b5 as u64) << 40u64) | ((b6 as u64) << 48u64)
                                | ((b7 as u64) << 56u64);
                }
            }
            assert(u =~= frame(payload@) + self.unread());
        }
        Some(payload)
    }
}

} // verus!
