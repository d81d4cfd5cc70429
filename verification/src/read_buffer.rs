//! Terminal output that arrives in chunks and is read into buffers of
//! limited room: what does not fit is kept for the next read.
use vstd::prelude::*;

verus! {

/// Output received but not yet read.
pub struct ReadBuffer {
    pending: Vec<u8>,
}

impl View for ReadBuffer {
    type V = Seq<u8>;

    closed spec fn view(&self) -> Seq<u8> {
        self.pending@
    }
}

/// The smaller of two numbers.
pub open spec fn min(a: int, b: int) -> int {
    if a < b {
        a
    } else {
        b
    }
}

fn split_vec(v: Vec<u8>, at: usize) -> (r: (Vec<u8>, Vec<u8>))
    requires
        at <= v@.len(),
    ensures
        r.0@ == v@.take(at as int),
        r.1@ == v@.skip(at as int),
{
    let mut head = v;
    let tail = head.split_off(at);
    (head, tail)
}

impl ReadBuffer {
    /// A buffer holding nothing.
    pub fn new() -> (b: ReadBuffer)
        ensures
            b@ == Seq::<u8>::empty(),
    {
        ReadBuffer { pending: Vec::new() }
    }

    /// Whether output is waiting to be read.
    pub fn has_pending(&self) -> (p: bool)
        ensures
            p == (self@.len() > 0),
    {
        self.pending.len() > 0
    }

    /// Reads waiting output into a buffer with room for `room` bytes: as
    /// much of it as fits, the rest stays.
    pub fn read_pending(&mut self, room: usize) -> (out: Vec<u8>)
        ensures
            out@ == old(self)@.take(min(old(self)@.len() as int, room as int)),
            final(self)@ == old(self)@.skip(min(old(self)@.len() as int, room as int)),
    {
        let n = if self.pending.len() < room {
            self.pending.len()
        } else {
            room
        };
        let mut all: Vec<u8> = Vec::new();
        std::mem::swap(&mut all, &mut self.pending);
        let (head, tail) = split_vec(all, n);
        self.pending = tail;
        head
    }

    /// Reads a newly received chunk into a buffer with room for `room`
    /// bytes: as much of it as fits; the rest is kept after what was
    /// waiting.
    pub fn read_chunk(&mut self, chunk: Vec<u8>, room: usize) -> (out: Vec<u8>)
        ensures
            out@ == chunk@.take(min(chunk@.len() as int, room as int)),
            final(self)@ == old(self)@ + chunk@.skip(min(chunk@.len() as int, room as int)),
    {
        let n = if chunk.len() < room {
            chunk.len()
        } else {
            room
        };
        let (head, mut tail) = split_vec(chunk, n);
        self.pending.append(&mut tail);
        head
    }
}

/// One read of a terminal reader with room for `room` bytes, given the
/// output waiting and the chunks still to arrive: waiting output is read
/// first; else the next chunk is received and read, and what does not fit
/// waits; with nothing waiting and no chunk left, the read gives nothing.
/// The result is the bytes read, the output then waiting, and the chunks
/// still to arrive.
pub open spec fn read_step(pending: Seq<u8>, chunks: Seq<Seq<u8>>, room: nat) -> (
    Seq<u8>,
    Seq<u8>,
    Seq<Seq<u8>>,
) {
    if pending.len() > 0 {
        let k = min(pending.len() as int, room as int);
        (pending.take(k), pending.skip(k), chunks)
    } else if chunks.len() > 0 {
        let c = chunks[0];
        let k = min(c.len() as int, room as int);
        (c.take(k), pending + c.skip(k), chunks.drop_first())
    } else {
        (Seq::empty(), pending, chunks)
    }
}

/// Successive reads with the rooms given: all the bytes read, in order, and
/// the state left after the last.
pub open spec fn read_all(pending: Seq<u8>, chunks: Seq<Seq<u8>>, rooms: Seq<nat>) -> (
    Seq<u8>,
    Seq<u8>,
    Seq<Seq<u8>>,
)
    decreases rooms.len(),
{
    if rooms.len() == 0 {
        (Seq::empty(), pending, chunks)
    } else {
        let (out, p, cs) = read_step(pending, chunks, rooms[0]);
        let (rest, p2, cs2) = read_all(p, cs, rooms.drop_first());
        (out + rest, p2, cs2)
    }
}

/// Whatever the rooms of successive reads, the bytes read, then the output
/// still waiting, then the chunks still to arrive, are the output that was
/// waiting followed by all the chunks, in order: nothing is lost or
/// reordered. So once nothing waits and no chunk is left, the reads have
/// given back exactly the chunks in order, and every further read gives
/// nothing.
pub proof fn lemma_reads_return_chunks_in_order(
    pending: Seq<u8>,
    chunks: Seq<Seq<u8>>,
    rooms: Seq<nat>,
)
    ensures
        read_all(pending, chunks, rooms).0 + read_all(pending, chunks, rooms).1 + read_all(
            pending,
            chunks,
            rooms,
        ).2.flatten() == pending + chunks.flatten(),
        read_all(pending, chunks, rooms).1.len() == 0 && read_all(pending, chunks, rooms).2.len()
            == 0 ==> read_all(pending, chunks, rooms).0 == pending + chunks.flatten(),
        forall|r: nat| #[trigger] read_step(Seq::empty(), Seq::empty(), r).0.len() == 0,
    decreases rooms.len(),
{
    if rooms.len() > 0 {
        let (out, p, cs) = read_step(pending, chunks, rooms[0]);
        lemma_reads_return_chunks_in_order(p, cs, rooms.drop_first());
        let (rest, p2, cs2) = read_all(p, cs, rooms.drop_first());
        assert(rest + p2 + cs2.flatten() == p + cs.flatten());
        if pending.len() > 0 {
            let k = min(pending.len() as int, rooms[0] as int);
            assert(pending.take(k) + pending.skip(k) =~= pending);
            assert(out + p == pending);
        } else if chunks.len() > 0 {
            let c = chunks[0];
            let k = min(c.len() as int, rooms[0] as int);
            assert(c.take(k) + (pending + c.skip(k)) =~= c);
            assert(chunks.flatten() == c + chunks.drop_first().flatten());
            assert(out + p + cs.flatten() =~= pending + chunks.flatten());
        } else {
            assert(chunks.flatten() == Seq::<u8>::empty());
        }
        assert(out + rest + p2 + cs2.flatten() =~= out + (rest + p2 + cs2.flatten()));
        assert(out + p + cs.flatten() =~= pending + chunks.flatten());
    } else {
        assert(Seq::<u8>::empty() + pending + chunks.flatten() =~= pending + chunks.flatten());
    }
    if read_all(pending, chunks, rooms).1.len() == 0 && read_all(pending, chunks, rooms).2.len() == 0 {
        let r = read_all(pending, chunks, rooms);
        assert(r.2.flatten() == Seq::<u8>::empty());
        assert(r.0 + r.1 + r.2.flatten() =~= r.0);
    }
}

} // verus!
