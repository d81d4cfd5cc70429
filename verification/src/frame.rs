//! Length-prefixed framing of messages on a QUIC stream.
//!
//! A frame is one tag byte (`1` for text, `2` for binary), the payload
//! length as four big-endian bytes, then the payload. Text payloads are
//! UTF-8.
use vstd::prelude::*;
use vstd::utf8::*;
use bytes::{Buf, BufMut};

verus! {

broadcast use {encode_utf8_valid_utf8, encode_utf8_decode_utf8};

/// Tag byte of a text frame.
pub const TEXT_TAG: u8 = 1;

/// Tag byte of a binary frame.
pub const BINARY_TAG: u8 = 2;

/// Bytes before the payload: the tag and the four length bytes.
pub const HEADER_LEN: usize = 5;

/// A message of a viewer, control, data or tunnel connection.
pub enum Message {
    Text(String),
    Binary(Vec<u8>),
    Ping(Vec<u8>),
    Pong(Vec<u8>),
    Close,
}

/// The mathematical content of a [`Message`].
pub enum MessageView {
    Text(Seq<char>),
    Binary(Seq<u8>),
    Ping(Seq<u8>),
    Pong(Seq<u8>),
    Close,
}

impl View for Message {
    type V = MessageView;

    open spec fn view(&self) -> MessageView {
        match self {
            Message::Text(s) => MessageView::Text(s@),
            Message::Binary(b) => MessageView::Binary(b@),
            Message::Ping(b) => MessageView::Ping(b@),
            Message::Pong(b) => MessageView::Pong(b@),
            Message::Close => MessageView::Close,
        }
    }
}

/// The view of an optional message.
pub open spec fn option_view(m: Option<Message>) -> Option<MessageView> {
    match m {
        Some(x) => Some(x@),
        None => None,
    }
}

/// The four big-endian bytes of `n`.
pub open spec fn be_bytes(n: u32) -> Seq<u8> {
    seq![(n >> 24u32) as u8, (n >> 16u32) as u8, (n >> 8u32) as u8, n as u8]
}

/// The number whose big-endian bytes are `b0 b1 b2 b3`.
pub open spec fn be_value(b0: u8, b1: u8, b2: u8, b3: u8) -> u32 {
    ((b0 as u32) << 24u32) | ((b1 as u32) << 16u32) | ((b2 as u32) << 8u32) | (b3 as u32)
}

/// The length field written for a payload of `len` bytes: the length
/// taken modulo 2^32, as a `u32` cast does.
pub open spec fn wire_length(len: nat) -> u32 {
    (len % 0x1_0000_0000) as u32
}

/// The frame of a payload with the given tag.
pub open spec fn frame_bytes(tag: u8, payload: Seq<u8>) -> Seq<u8> {
    seq![tag] + be_bytes(wire_length(payload.len())) + payload
}

/// What is sent for a message: a frame for text and binary messages,
/// nothing for the others.
pub open spec fn encoding(m: MessageView) -> Option<Seq<u8>> {
    match m {
        MessageView::Text(s) => Some(frame_bytes(TEXT_TAG, encode_utf8(s))),
        MessageView::Binary(b) => Some(frame_bytes(BINARY_TAG, b)),
        _ => None,
    }
}

/// Whether a message is carried in a frame whose length field is exact.
pub open spec fn fits_frame(m: MessageView) -> bool {
    match m {
        MessageView::Text(s) => encode_utf8(s).len() < 0x1_0000_0000,
        MessageView::Binary(b) => b.len() < 0x1_0000_0000,
        _ => false,
    }
}

/// The message held by a payload read after the given tag: text when the
/// tag is `1` and the payload is UTF-8, binary when the tag is `2`.
pub open spec fn payload_message(tag: u8, payload: Seq<u8>) -> Option<MessageView> {
    if tag == TEXT_TAG {
        if valid_utf8(payload) {
            Some(MessageView::Text(decode_utf8(payload)))
        } else {
            None
        }
    } else if tag == BINARY_TAG {
        Some(MessageView::Binary(payload))
    } else {
        None
    }
}

proof fn lemma_be_roundtrip(n: u32)
    ensures
        be_value(be_bytes(n)[0], be_bytes(n)[1], be_bytes(n)[2], be_bytes(n)[3]) == n,
{
    assert(((((n >> 24u32) as u8) as u32) << 24u32) | ((((n >> 16u32) as u8) as u32) << 16u32)
        | ((((n >> 8u32) as u8) as u32) << 8u32) | ((n as u8) as u32) == n) by (bit_vector);
}

/// The four length bytes of a frame header, big-endian.
pub fn length_of_header(b0: u8, b1: u8, b2: u8, b3: u8) -> (n: u32)
    ensures
        n == be_value(b0, b1, b2, b3),
{
    ((b0 as u32) << 24u32) | ((b1 as u32) << 16u32) | ((b2 as u32) << 8u32) | (b3 as u32)
}

/// Builds the frame of `payload` with the given tag.
pub fn encode_frame(tag: u8, payload: &[u8]) -> (out: Vec<u8>)
    ensures
        out@ == frame_bytes(tag, payload@),
{
    let n: u32 = (payload.len() as u64 % 0x1_0000_0000u64) as u32;
    let mut out: Vec<u8> = Vec::new();
    out.push(tag);
    out.push((n >> 24u32) as u8);
    out.push((n >> 16u32) as u8);
    out.push((n >> 8u32) as u8);
    out.push(n as u8);
    let mut i: usize = 0;
    while i < payload.len()
        invariant
            i <= payload@.len(),
            out@ == seq![tag] + be_bytes(n) + payload@.take(i as int),
        decreases payload@.len() - i,
    {
        out.push(payload[i]);
        assert(payload@.take(i + 1) == payload@.take(i as int).push(payload@[i as int]));
        i = i + 1;
    }
    assert(payload@.take(payload@.len() as int) == payload@);
    out
}

/// The frame sent for a message, or `None` for a message that is not
/// framed (ping, pong, close).
pub fn encode_message(m: &Message) -> (out: Option<Vec<u8>>)
    ensures
        match out {
            Some(v) => encoding(m@) == Some(v@),
            None => encoding(m@) is None,
        },
{
    match m {
        Message::Text(s) => Some(encode_frame(TEXT_TAG, s.as_str().as_bytes())),
        Message::Binary(b) => Some(encode_frame(BINARY_TAG, b.as_slice())),
        _ => None,
    }
}

/// `String::from_utf8`: the string that the bytes encode, or `None` where
/// they are not UTF-8.
#[verifier::external_body]
fn string_from_utf8(bytes: Vec<u8>) -> (s: Option<String>)
    ensures
        s is Some <==> valid_utf8(bytes@),
        s matches Some(t) ==> t@ == decode_utf8(bytes@),
{
    String::from_utf8(bytes).ok()
}

/// The message held by a payload read after its tag, as the client reads
/// frames one by one: `None` for an unknown tag or a text payload that is
/// not UTF-8.
pub fn decode_payload(tag: u8, payload: Vec<u8>) -> (m: Option<Message>)
    ensures
        option_view(m) == payload_message(tag, payload@),
{
    if tag == TEXT_TAG {
        match string_from_utf8(payload) {
            Some(s) => Some(Message::Text(s)),
            None => None,
        }
    } else if tag == BINARY_TAG {
        Some(Message::Binary(payload))
    } else {
        None
    }
}

/// The request id that opens a tunnel stream: the payload of a text frame.
/// `None` where the tag is not the text tag or the payload is not UTF-8.
pub fn decode_request_id(tag: u8, payload: Vec<u8>) -> (id: Option<String>)
    ensures
        tag == TEXT_TAG && valid_utf8(payload@) <==> id is Some,
        id matches Some(s) ==> s@ == decode_utf8(payload@),
{
    if tag != TEXT_TAG {
        return None;
    }
    string_from_utf8(payload)
}

/// What the buffered reader of a stream finds next.
pub enum FrameEvent {
    /// A whole text or binary message.
    Message(Message),
    /// A whole text frame whose payload is not UTF-8.
    BadText,
    /// No whole frame yet: more bytes must be read.
    NeedMore,
}

pub enum FrameEventView {
    Message(MessageView),
    BadText,
    NeedMore,
}

impl View for FrameEvent {
    type V = FrameEventView;

    open spec fn view(&self) -> FrameEventView {
        match self {
            FrameEvent::Message(m) => FrameEventView::Message(m@),
            FrameEvent::BadText => FrameEventView::BadText,
            FrameEvent::NeedMore => FrameEventView::NeedMore,
        }
    }
}

/// The length field of the frame at the start of `buf`.
pub open spec fn header_length(buf: Seq<u8>) -> int
    recommends
        buf.len() >= 5,
{
    be_value(buf[1], buf[2], buf[3], buf[4]) as int
}

/// Whether `buf` starts with a whole frame.
pub open spec fn has_whole_frame(buf: Seq<u8>) -> bool {
    buf.len() >= 5 && buf.len() - 5 >= header_length(buf)
}

/// The next event of a buffered reader and the bytes left after it.
/// Frames with an unknown tag are dropped; a text frame that is not UTF-8
/// is consumed and reported.
pub open spec fn next_event(buf: Seq<u8>) -> (FrameEventView, Seq<u8>)
    decreases buf.len(),
{
    if !has_whole_frame(buf) {
        (FrameEventView::NeedMore, buf)
    } else {
        let end = 5 + header_length(buf);
        let payload = buf.subrange(5, end);
        let rest = buf.subrange(end, buf.len() as int);
        if buf[0] == TEXT_TAG {
            if valid_utf8(payload) {
                (FrameEventView::Message(MessageView::Text(decode_utf8(payload))), rest)
            } else {
                (FrameEventView::BadText, rest)
            }
        } else if buf[0] == BINARY_TAG {
            (FrameEventView::Message(MessageView::Binary(payload)), rest)
        } else {
            next_event(rest)
        }
    }
}

#[verifier::external_type_specification]
#[verifier::external_body]
pub struct ExBytesMut(bytes::BytesMut);

/// The bytes a `bytes::BytesMut` holds, in order.
pub uninterp spec fn buffer_contents(b: bytes::BytesMut) -> Seq<u8>;

/// `bytes::BytesMut::with_capacity`: an empty buffer.
#[verifier::external_body]
fn buffer_with_capacity(capacity: usize) -> (b: bytes::BytesMut)
    ensures
        buffer_contents(b) == Seq::<u8>::empty(),
{
    bytes::BytesMut::with_capacity(capacity)
}

/// `bytes::BytesMut::len`: the number of bytes held.
#[verifier::external_body]
fn buffer_len(b: &bytes::BytesMut) -> (n: usize)
    ensures
        n == buffer_contents(*b).len(),
{
    b.len()
}

/// The byte at index `i` of the buffer, read through its slice.
#[verifier::external_body]
fn buffer_byte(b: &bytes::BytesMut, i: usize) -> (x: u8)
    requires
        i < buffer_contents(*b).len(),
    ensures
        x == buffer_contents(*b)[i as int],
{
    b[i]
}

/// `bytes::BufMut::put_slice` on a `BytesMut`: appends the bytes.
#[verifier::external_body]
fn buffer_put(b: &mut bytes::BytesMut, chunk: &[u8])
    ensures
        buffer_contents(*final(b)) == buffer_contents(*old(b)) + chunk@,
{
    b.put_slice(chunk)
}

/// `bytes::Buf::advance` on a `BytesMut`: drops the first `n` bytes. It
/// panics where fewer are held, which `requires` rules out.
#[verifier::external_body]
fn buffer_advance(b: &mut bytes::BytesMut, n: usize)
    requires
        n <= buffer_contents(*old(b)).len(),
    ensures
        buffer_contents(*final(b)) == buffer_contents(*old(b)).skip(n as int),
{
    b.advance(n)
}

/// `bytes::Buf::copy_to_bytes` on a `BytesMut`, as a vector: takes the
/// first `n` bytes out. It panics where fewer are held, which `requires`
/// rules out.
#[verifier::external_body]
fn buffer_take(b: &mut bytes::BytesMut, n: usize) -> (out: Vec<u8>)
    requires
        n <= buffer_contents(*old(b)).len(),
    ensures
        out@ == buffer_contents(*old(b)).take(n as int),
        buffer_contents(*final(b)) == buffer_contents(*old(b)).skip(n as int),
{
    b.copy_to_bytes(n).to_vec()
}

/// The capacity a stream's buffer starts with.
pub const BUFFER_CAPACITY: usize = 8192;

/// The bytes read from a stream and not yet taken as frames.
pub struct FrameBuffer {
    buf: bytes::BytesMut,
}

impl View for FrameBuffer {
    type V = Seq<u8>;

    closed spec fn view(&self) -> Seq<u8> {
        buffer_contents(self.buf)
    }
}

impl FrameBuffer {
    /// An empty buffer.
    pub fn new() -> (b: FrameBuffer)
        ensures
            b@ == Seq::<u8>::empty(),
    {
        FrameBuffer { buf: buffer_with_capacity(BUFFER_CAPACITY) }
    }

    /// Whether no bytes are held.
    pub fn is_empty(&self) -> (e: bool)
        ensures
            e == (self@.len() == 0),
    {
        buffer_len(&self.buf) == 0
    }

    /// The number of bytes held.
    pub fn len(&self) -> (n: usize)
        ensures
            n == self@.len(),
    {
        buffer_len(&self.buf)
    }

    /// Appends bytes read from the stream.
    pub fn push(&mut self, chunk: &[u8])
        ensures
            final(self)@ == old(self)@ + chunk@,
    {
        buffer_put(&mut self.buf, chunk);
    }

    /// Takes the next whole message from the buffer, dropping frames with an
    /// unknown tag on the way.
    pub fn next_event(&mut self) -> (ev: FrameEvent)
        ensures
            (ev@, final(self)@) == next_event(old(self)@),
    {
        loop
            invariant
                next_event(buffer_contents(self.buf)) == next_event(buffer_contents(old(self).buf)),
            decreases buffer_contents(self.buf).len(),
        {
            let n = buffer_len(&self.buf);
            if n < HEADER_LEN {
                return FrameEvent::NeedMore;
            }
            let len = length_of_header(
                buffer_byte(&self.buf, 1),
                buffer_byte(&self.buf, 2),
                buffer_byte(&self.buf, 3),
                buffer_byte(&self.buf, 4),
            ) as usize;
            if n - HEADER_LEN < len {
                return FrameEvent::NeedMore;
            }
            let tag = buffer_byte(&self.buf, 0);
            let ghost whole = buffer_contents(self.buf);
            let end = HEADER_LEN + len;
            buffer_advance(&mut self.buf, HEADER_LEN);
            let payload = buffer_take(&mut self.buf, len);
            assert(payload@ == whole.subrange(5, end as int));
            assert(buffer_contents(self.buf) == whole.subrange(end as int, whole.len() as int));
            if tag == TEXT_TAG {
                match string_from_utf8(payload) {
                    Some(s) => {
                        return FrameEvent::Message(Message::Text(s));
                    },
                    None => {
                        return FrameEvent::BadText;
                    },
                }
            } else if tag == BINARY_TAG {
                return FrameEvent::Message(Message::Binary(payload));
            }
        }
    }
}

/// The payload that a frame carries for a framed message.
pub open spec fn payload_of(m: MessageView) -> Seq<u8> {
    match m {
        MessageView::Text(s) => encode_utf8(s),
        MessageView::Binary(b) => b,
        _ => Seq::empty(),
    }
}

proof fn lemma_frame_shape(m: MessageView)
    requires
        fits_frame(m),
    ensures
        encoding(m) is Some,
        encoding(m)->0.len() == 5 + payload_of(m).len(),
        encoding(m)->0[0] == (if m is Text { TEXT_TAG } else { BINARY_TAG }),
        be_value(encoding(m)->0[1], encoding(m)->0[2], encoding(m)->0[3], encoding(m)->0[4])
            == payload_of(m).len(),
        encoding(m)->0.subrange(5, encoding(m)->0.len() as int) == payload_of(m),
{
    let p = payload_of(m);
    let n = wire_length(p.len());
    assert(n == p.len());
    lemma_be_roundtrip(n);
    let e = encoding(m)->0;
    assert(e == seq![if m is Text { TEXT_TAG } else { BINARY_TAG }] + be_bytes(n) + p);
    assert(e.subrange(5, e.len() as int) == p);
}

/// A frame read back one by one: its header gives the payload's length,
/// and its tag and payload give back the message that was sent.
pub proof fn lemma_payload_roundtrip(m: MessageView)
    requires
        fits_frame(m),
    ensures
        encoding(m) is Some,
        encoding(m)->0.len() >= 5,
        be_value(encoding(m)->0[1], encoding(m)->0[2], encoding(m)->0[3], encoding(m)->0[4])
            == encoding(m)->0.len() - 5,
        payload_message(encoding(m)->0[0], encoding(m)->0.subrange(5, encoding(m)->0.len() as int))
            == Some(m),
{
    lemma_frame_shape(m);
}

/// A frame read back through the buffer gives back the message that was
/// sent, and leaves whatever followed it.
pub proof fn lemma_frame_roundtrip(m: MessageView, rest: Seq<u8>)
    requires
        fits_frame(m),
    ensures
        encoding(m) is Some,
        next_event(encoding(m)->0 + rest) == (FrameEventView::Message(m), rest),
{
    lemma_frame_shape(m);
    let e = encoding(m)->0;
    let buf = e + rest;
    assert(buf[1] == e[1] && buf[2] == e[2] && buf[3] == e[3] && buf[4] == e[4]);
    assert(buf.subrange(5, e.len() as int) == e.subrange(5, e.len() as int));
    assert(buf.subrange(e.len() as int, buf.len() as int) == rest);
}

/// Nothing is taken from a buffer that holds only part of a frame.
pub proof fn lemma_partial_frame(m: MessageView, k: int)
    requires
        fits_frame(m),
        0 <= k < 5 + payload_of(m).len(),
    ensures
        encoding(m) is Some,
        next_event(encoding(m)->0.take(k)) == (FrameEventView::NeedMore, encoding(m)->0.take(k)),
{
    lemma_frame_shape(m);
    let e = encoding(m)->0;
    let b = e.take(k);
    if b.len() >= 5 {
        assert(b[1] == e[1] && b[2] == e[2] && b[3] == e[3] && b[4] == e[4]);
    }
}

/// The bytes of a sequence of messages sent one after another.
pub open spec fn encode_all(ms: Seq<MessageView>) -> Seq<u8>
    decreases ms.len(),
{
    if ms.len() == 0 {
        Seq::empty()
    } else {
        encode_all(ms.drop_last()) + encoding(ms.last())->0
    }
}

/// The events of `k` reads from the buffer, and the bytes left after them.
pub open spec fn drain(buf: Seq<u8>, k: nat) -> (Seq<FrameEventView>, Seq<u8>)
    decreases k,
{
    if k == 0 {
        (Seq::empty(), buf)
    } else {
        let (ev, rest) = next_event(buf);
        let (evs, left) = drain(rest, (k - 1) as nat);
        (seq![ev] + evs, left)
    }
}

/// The events that give back each message of a sequence, in order.
pub open spec fn message_events(ms: Seq<MessageView>) -> Seq<FrameEventView> {
    ms.map_values(|m: MessageView| FrameEventView::Message(m))
}

/// Messages sent one after another on a stream are read back by the buffer
/// in the order they were sent, and the bytes after them stay.
pub proof fn lemma_stream_roundtrip(ms: Seq<MessageView>, rest: Seq<u8>)
    requires
        forall|i: int| 0 <= i < ms.len() ==> fits_frame(#[trigger] ms[i]),
    ensures
        drain(encode_all(ms) + rest, ms.len()) == (message_events(ms), rest),
    decreases ms.len(),
{
    if ms.len() > 0 {
        let first = ms[0];
        let tail = ms.drop_first();
        assert(fits_frame(ms[0]));
        lemma_encode_all_first(ms);
        lemma_frame_roundtrip(first, encode_all(tail) + rest);
        assert(encode_all(ms) + rest == encoding(first)->0 + (encode_all(tail) + rest));
        assert forall|i: int| 0 <= i < tail.len() implies fits_frame(#[trigger] tail[i]) by {
            assert(tail[i] == ms[i + 1]);
        }
        lemma_stream_roundtrip(tail, rest);
        assert(message_events(ms) == seq![FrameEventView::Message(first)] + message_events(tail));
    } else {
        assert(encode_all(ms) + rest == rest);
        assert(message_events(ms) == Seq::<FrameEventView>::empty());
    }
}

proof fn lemma_encode_all_first(ms: Seq<MessageView>)
    requires
        ms.len() > 0,
    ensures
        encode_all(ms) == encoding(ms[0])->0 + encode_all(ms.drop_first()),
    decreases ms.len(),
{
    if ms.len() == 1 {
        assert(ms.drop_last() == Seq::<MessageView>::empty());
        assert(ms.drop_first() == Seq::<MessageView>::empty());
        assert(encode_all(ms) == encode_all(ms.drop_last()) + encoding(ms.last())->0);
    } else {
        let init = ms.drop_last();
        lemma_encode_all_first(init);
        assert(init.drop_first() == ms.drop_first().drop_last());
        assert(init[0] == ms[0]);
        assert(ms.drop_first().last() == ms.last());
        assert(encode_all(ms.drop_first()) == encode_all(ms.drop_first().drop_last())
            + encoding(ms.drop_first().last())->0);
    }
}

/// The events a buffer gives when it is read until it needs more bytes,
/// and the bytes then left in it.
pub open spec fn drain_ready(buf: Seq<u8>) -> (Seq<FrameEventView>, Seq<u8>)
    decreases buf.len(),
{
    let (ev, rest) = next_event(buf);
    if ev is NeedMore {
        (Seq::empty(), buf)
    } else if rest.len() < buf.len() {
        let (evs, left) = drain_ready(rest);
        (seq![ev] + evs, left)
    } else {
        (seq![ev], rest)
    }
}

/// Chunks of a stream pushed into the buffer one after another, the buffer
/// being read until it needs more bytes after each: all the events, in
/// order, and the bytes left at the end.
pub open spec fn read_chunks(buf: Seq<u8>, chunks: Seq<Seq<u8>>) -> (Seq<FrameEventView>, Seq<u8>)
    decreases chunks.len(),
{
    if chunks.len() == 0 {
        (Seq::empty(), buf)
    } else {
        let (evs, left) = drain_ready(buf + chunks[0]);
        let (more, last) = read_chunks(left, chunks.drop_first());
        (evs + more, last)
    }
}

/// How many whole frames of the messages `ms`, sent one after another, lie
/// within the first `k` bytes.
spec fn whole_frames(ms: Seq<MessageView>, k: int) -> nat
    decreases ms.len(),
{
    if ms.len() > 0 && encoding(ms[0])->0.len() <= k {
        1 + whole_frames(ms.drop_first(), k - encoding(ms[0])->0.len())
    } else {
        0
    }
}

proof fn lemma_encode_all_split(ms: Seq<MessageView>, c: int)
    requires
        0 <= c <= ms.len(),
    ensures
        encode_all(ms) == encode_all(ms.take(c)) + encode_all(ms.skip(c)),
    decreases c,
{
    if c == 0 {
        assert(ms.take(0) == Seq::<MessageView>::empty());
        assert(ms.skip(0) == ms);
        assert(encode_all(ms.take(0)) == Seq::<u8>::empty());
        assert(Seq::<u8>::empty() + encode_all(ms) == encode_all(ms));
    } else {
        let tail = ms.drop_first();
        lemma_encode_all_first(ms);
        lemma_encode_all_split(tail, c - 1);
        let mc = ms.take(c);
        lemma_encode_all_first(mc);
        assert(mc[0] == ms[0]);
        assert(mc.drop_first() == tail.take(c - 1));
        assert(ms.skip(c) == tail.skip(c - 1));
        assert(encode_all(ms) == encode_all(mc) + encode_all(ms.skip(c)));
    }
}

proof fn lemma_drain_prefix(ms: Seq<MessageView>, k: int)
    requires
        forall|i: int| 0 <= i < ms.len() ==> fits_frame(#[trigger] ms[i]),
        0 <= k <= encode_all(ms).len(),
    ensures
        whole_frames(ms, k) <= ms.len(),
        encode_all(ms.take(whole_frames(ms, k) as int)).len() <= k,
        drain_ready(encode_all(ms).take(k)) == (
            message_events(ms.take(whole_frames(ms, k) as int)),
            encode_all(ms.skip(whole_frames(ms, k) as int)).take(
                k - encode_all(ms.take(whole_frames(ms, k) as int)).len(),
            ),
        ),
        whole_frames(
            ms.skip(whole_frames(ms, k) as int),
            k - encode_all(ms.take(whole_frames(ms, k) as int)).len(),
        ) == 0,
    decreases ms.len(),
{
    let e = encode_all(ms);
    if ms.len() > 0 && encoding(ms[0])->0.len() <= k {
        let m0 = ms[0];
        let e0 = encoding(m0)->0;
        let tail = ms.drop_first();
        assert(fits_frame(ms[0]));
        lemma_frame_shape(m0);
        lemma_encode_all_first(ms);
        let k2 = k - e0.len();
        assert forall|i: int| 0 <= i < tail.len() implies fits_frame(#[trigger] tail[i]) by {
            assert(tail[i] == ms[i + 1]);
        }
        lemma_drain_prefix(tail, k2);
        let c2 = whole_frames(tail, k2) as int;
        let c = whole_frames(ms, k) as int;
        assert(c == c2 + 1);
        let rest = encode_all(tail).take(k2);
        assert(e.take(k) == e0 + rest);
        lemma_frame_roundtrip(m0, rest);
        assert(next_event(e.take(k)) == (FrameEventView::Message(m0), rest));
        let mc = ms.take(c);
        lemma_encode_all_first(mc);
        assert(mc[0] == m0);
        assert(mc.drop_first() == tail.take(c2));
        assert(ms.skip(c) == tail.skip(c2));
        assert(message_events(mc) == seq![FrameEventView::Message(m0)] + message_events(
            tail.take(c2),
        ));
    } else {
        assert(whole_frames(ms, k) == 0);
        assert(ms.take(0) == Seq::<MessageView>::empty());
        assert(ms.skip(0) == ms);
        assert(encode_all(ms.take(0)) == Seq::<u8>::empty());
        assert(message_events(ms.take(0)) == Seq::<FrameEventView>::empty());
        if ms.len() == 0 {
            assert(e.take(k) == Seq::<u8>::empty());
        } else {
            let m0 = ms[0];
            assert(fits_frame(ms[0]));
            lemma_frame_shape(m0);
            lemma_encode_all_first(ms);
            lemma_partial_frame(m0, k);
            assert(e.take(k) == encoding(m0)->0.take(k));
        }
    }
}

#[verifier::rlimit(40)]
proof fn lemma_read_chunks_from(ms: Seq<MessageView>, j: int, chunks: Seq<Seq<u8>>)
    requires
        forall|i: int| 0 <= i < ms.len() ==> fits_frame(#[trigger] ms[i]),
        0 <= j <= encode_all(ms).len(),
        whole_frames(ms, j) == 0,
        chunks.flatten() == encode_all(ms).skip(j),
    ensures
        read_chunks(encode_all(ms).take(j), chunks) == (message_events(ms), Seq::<u8>::empty()),
    decreases chunks.len(),
{
    let e = encode_all(ms);
    if chunks.len() == 0 {
        assert(e.skip(j).len() == 0);
        if ms.len() > 0 {
            lemma_encode_all_first(ms);
            assert(whole_frames(ms, j) > 0);
        }
        assert(e.take(j) == Seq::<u8>::empty());
        assert(message_events(ms) == Seq::<FrameEventView>::empty());
    } else {
        let c0 = chunks[0];
        let others = chunks.drop_first();
        assert(chunks.flatten() == c0 + others.flatten());
        let k = j + c0.len();
        assert(e.skip(j).take(c0.len() as int) == c0);
        assert(e.take(j) + c0 == e.take(k));
        lemma_drain_prefix(ms, k);
        let c = whole_frames(ms, k) as int;
        let first = ms.take(c);
        let later = ms.skip(c);
        lemma_encode_all_split(ms, c);
        let l = encode_all(first).len();
        assert(e.skip(k) == encode_all(later).skip(k - l));
        assert(e.skip(k) =~= e.skip(j).skip(c0.len() as int));
        assert((c0 + others.flatten()).skip(c0.len() as int) =~= others.flatten());
        assert(others.flatten() == e.skip(k));
        assert forall|i: int| 0 <= i < later.len() implies fits_frame(#[trigger] later[i]) by {
            assert(later[i] == ms[i + c]);
        }
        lemma_read_chunks_from(later, k - l, others);
        assert(message_events(first) + message_events(later) == message_events(ms)) by {
            assert(ms == first + later);
        }
    }
}

/// Messages sent one after another on a stream are read back in the order
/// they were sent, however the bytes are cut into chunks on the way: with
/// the buffer read until it needs more bytes after each chunk, the events
/// are exactly the messages, in order, and no byte is left.
pub proof fn lemma_chunked_stream_roundtrip(ms: Seq<MessageView>, chunks: Seq<Seq<u8>>)
    requires
        forall|i: int| 0 <= i < ms.len() ==> fits_frame(#[trigger] ms[i]),
        chunks.flatten() == encode_all(ms),
    ensures
        read_chunks(Seq::empty(), chunks) == (message_events(ms), Seq::<u8>::empty()),
{
    let e = encode_all(ms);
    if ms.len() > 0 {
        assert(fits_frame(ms[0]));
        lemma_frame_shape(ms[0]);
    }
    assert(whole_frames(ms, 0) == 0);
    assert(e.take(0) == Seq::<u8>::empty());
    assert(e.skip(0) == e);
    lemma_read_chunks_from(ms, 0, chunks);
}

} // verus!
