use vstd::prelude::*;

verus! {

/// The outcome of polling a non-blocking operation once.
#[derive(Debug)]
pub enum Polled<T, E> {
    /// The operation finished, with this result.
    Ready(Result<T, E>),
    /// The operation cannot make progress yet.
    Pending,
}

/// The read region of the scratch-buffer convention: a buffer of fixed capacity whose
/// front part is filled, and whose rest is free for the next read.
pub struct ScratchBuf {
    bytes: Vec<u8>,
    filled: usize,
}

impl ScratchBuf {
    /// The whole buffer, filled part and free part.
    pub closed spec fn contents(&self) -> Seq<u8> {
        self.bytes@
    }

    /// How many bytes at the front are filled.
    pub closed spec fn filled_len(&self) -> nat {
        self.filled as nat
    }

    pub closed spec fn wf(&self) -> bool {
        self.filled <= self.bytes.len()
    }

    /// The filled bytes.
    pub open spec fn filled_view(&self) -> Seq<u8> {
        self.contents().subrange(0, self.filled_len() as int)
    }

    /// The number of bytes the free part can still take.
    pub open spec fn room(&self) -> nat {
        (self.contents().len() - self.filled_len()) as nat
    }

    /// An empty buffer that can take `capacity` bytes.
    pub fn new(capacity: usize) -> (r: Self)
        ensures
            r.wf(),
            r.contents().len() == capacity,
            r.filled_len() == 0,
    {
        let mut bytes: Vec<u8> = Vec::new();
        let mut i: usize = 0;
        while i < capacity
            invariant
                i <= capacity,
                bytes@.len() == i,
            decreases capacity - i,
        {
            bytes.push(0);
            i = i + 1;
        }
        ScratchBuf { bytes, filled: 0 }
    }

    /// The number of bytes the buffer can hold in all.
    pub fn capacity(&self) -> (r: usize)
        ensures
            r == self.contents().len(),
    {
        self.bytes.len()
    }

    /// The number of bytes the free part can still take.
    pub fn remaining(&self) -> (r: usize)
        requires
            self.wf(),
        ensures
            r == self.room(),
    {
        self.bytes.len() - self.filled
    }

    /// A copy of the filled bytes.
    pub fn filled(&self) -> (r: Vec<u8>)
        requires
            self.wf(),
        ensures
            r@ == self.filled_view(),
    {
        let mut r: Vec<u8> = Vec::new();
        let mut i: usize = 0;
        while i < self.filled
            invariant
                self.wf(),
                i <= self.filled,
                r@ == self.contents().subrange(0, i as int),
            decreases self.filled - i,
        {
            r.push(self.bytes[i]);
            i = i + 1;
            assert(r@ =~= self.contents().subrange(0, i as int));
        }
        assert(r@ =~= self.filled_view());
        r
    }

    /// Empties the filled part.
    pub fn clear(&mut self)
        requires
            old(self).wf(),
        ensures
            final(self).wf(),
            final(self).contents() == old(self).contents(),
            final(self).filled_len() == 0,
    {
        self.filled = 0;
    }
}

/// The filled length of a scratch buffer after a read of the slice convention into its
/// free part, and the outcome in the scratch-buffer convention: a count of bytes read
/// extends the filled part by that many; an error and a pending outcome pass through as
/// they are and leave the filled length as it was.
pub fn next_filled<E>(filled: usize, capacity: usize, polled: Polled<usize, E>) -> (r: (
    Polled<(), E>,
    usize,
))
    requires
        filled <= capacity,
        polled matches Polled::Ready(Ok(n)) ==> n <= capacity - filled,
    ensures
        r.1 <= capacity,
        match polled {
            Polled::Ready(Ok(n)) => r.0 == Polled::<(), E>::Ready(Ok(())) && r.1 == filled + n,
            Polled::Ready(Err(e)) => r.0 == Polled::<(), E>::Ready(Err(e)) && r.1 == filled,
            Polled::Pending => r.0 == Polled::<(), E>::Pending && r.1 == filled,
        },
{
    match polled {
        Polled::Ready(Ok(n)) => (Polled::Ready(Ok(())), filled + n),
        Polled::Ready(Err(e)) => (Polled::Ready(Err(e)), filled),
        Polled::Pending => (Polled::Pending, filled),
    }
}

/// Completes a read of the scratch-buffer convention from the outcome of a read of the
/// slice convention into the free part of `buf`, as `next_filled` says.
pub fn complete_read<E>(buf: &mut ScratchBuf, polled: Polled<usize, E>) -> (r: Polled<(), E>)
    requires
        old(buf).wf(),
        polled matches Polled::Ready(Ok(n)) ==> n <= old(buf).room(),
    ensures
        final(buf).wf(),
        final(buf).contents() == old(buf).contents(),
        match polled {
            Polled::Ready(Ok(n)) => r == Polled::<(), E>::Ready(Ok(()))
                && final(buf).filled_len() == old(buf).filled_len() + n,
            Polled::Ready(Err(e)) => r == Polled::<(), E>::Ready(Err(e))
                && final(buf).filled_len() == old(buf).filled_len(),
            Polled::Pending => r == Polled::<(), E>::Pending
                && final(buf).filled_len() == old(buf).filled_len(),
        },
{
    let (r, filled) = next_filled(buf.filled, buf.bytes.len(), polled);
    buf.filled = filled;
    r
}

/// A stream over a transport of the slice convention that also offers the scratch-buffer
/// convention. It holds the transport alone, adds no buffering, and hands every outcome,
/// errors included, through unchanged.
pub struct Socket<T> {
    inner: T,
}

impl<T: AsyncReadWriter> Socket<T> {
    /// The transport this stream owns.
    pub closed spec fn transport(&self) -> T {
        self.inner
    }

    /// Wraps `stream`.
    pub fn new(stream: T) -> (r: Self)
        ensures
            r.transport() == stream,
    {
        Socket { inner: stream }
    }

    /// Gives the transport back.
    pub fn into_inner(self) -> (r: T)
        ensures
            r == self.transport(),
    {
        self.inner
    }

    /// Reads through the slice convention: the transport's own read.
    pub fn poll_read(&mut self, dst: &mut [u8]) -> (r: Polled<usize, T::Error>)
        requires
            old(self).transport().inv(),
        ensures
            final(self).transport().inv(),
            r == old(self).transport().read_result(old(dst)@.len()),
            final(self).transport().model() == old(self).transport().after_read(old(dst)@.len()),
            r matches Polled::Ready(Ok(n)) ==> {
                let got = old(self).transport().read_bytes(old(dst)@.len());
                &&& got.len() == n
                &&& n <= old(dst)@.len()
                &&& final(dst)@ == got + old(dst)@.subrange(n as int, old(dst)@.len() as int)
            },
            !(r matches Polled::Ready(Ok(_))) ==> final(dst)@ == old(dst)@,
    {
        self.inner.poll_read(dst)
    }

    /// Reads through the scratch-buffer convention: the transport reads into the free part
    /// of `buf`, and the filled part grows by what it read.
    pub fn poll_read_buf(&mut self, buf: &mut ScratchBuf) -> (r: Polled<(), T::Error>)
        requires
            old(self).transport().inv(),
            old(buf).wf(),
        ensures
            final(self).transport().inv(),
            final(buf).wf(),
            final(buf).contents().len() == old(buf).contents().len(),
            final(self).transport().model() == old(self).transport().after_read(old(buf).room()),
            match old(self).transport().read_result(old(buf).room()) {
                Polled::Ready(Ok(n)) => {
                    &&& r == Polled::<(), T::Error>::Ready(Ok(()))
                    &&& n <= old(buf).room()
                    &&& final(buf).filled_len() == old(buf).filled_len() + n
                    &&& final(buf).filled_view() == old(buf).filled_view() + old(
                        self,
                    ).transport().read_bytes(old(buf).room())
                },
                Polled::Ready(Err(e)) => r == Polled::<(), T::Error>::Ready(Err(e))
                    && final(buf).filled_view() == old(buf).filled_view(),
                Polled::Pending => r == Polled::<(), T::Error>::Pending && final(buf).filled_view()
                    == old(buf).filled_view(),
            },
    {
        let start = buf.filled;
        let ghost b0 = buf.bytes@;
        let polled = {
            let whole = buf.bytes.as_mut_slice();
            let (_front, free) = whole.split_at_mut(start);
            self.inner.poll_read(free)
        };
        assert(buf.bytes@.subrange(0, start as int) =~= b0.subrange(0, start as int));
        let r = complete_read(buf, polled);
        assert(buf.filled_view() =~= b0.subrange(0, start as int) + buf.bytes@.subrange(
            start as int,
            buf.filled_len() as int,
        ));
        r
    }

    /// Writes through either convention: the transport's own write.
    pub fn poll_write(&mut self, src: &[u8]) -> (r: Polled<usize, T::Error>)
        requires
            old(self).transport().inv(),
        ensures
            final(self).transport().inv(),
            r == old(self).transport().write_result(src@),
            final(self).transport().model() == old(self).transport().after_write(src@),
    {
        self.inner.poll_write(src)
    }

    /// Flushes through either convention: the transport's own flush.
    pub fn poll_flush(&mut self) -> (r: Polled<(), T::Error>)
        requires
            old(self).transport().inv(),
        ensures
            final(self).transport().inv(),
            r == old(self).transport().flush_result(),
            final(self).transport().model() == old(self).transport().after_flush(),
    {
        self.inner.poll_flush()
    }

    /// Closes the writing side through either convention: the transport's own close.
    pub fn poll_shutdown(&mut self) -> (r: Polled<(), T::Error>)
        requires
            old(self).transport().inv(),
        ensures
            final(self).transport().inv(),
            r == old(self).transport().close_result(),
            final(self).transport().model() == old(self).transport().after_close(),
    {
        self.inner.poll_close()
    }
}

/// Errors of the in-memory pipe.
#[derive(Debug, Clone, Copy, PartialEq, Eq, Structural)]
pub enum PipeError {
    /// A write after the writing side was closed.
    Closed,
}

/// The queue after `data` was written behind `queued`.
pub open spec fn written(queued: Seq<u8>, data: Seq<u8>) -> Seq<u8> {
    queued + data
}

/// How many bytes a read with room for `room` bytes takes from `queued`.
pub open spec fn read_count(queued: Seq<u8>, room: nat) -> nat {
    if queued.len() < room {
        queued.len()
    } else {
        room
    }
}

/// The bytes a read with room for `room` bytes takes from `queued`.
pub open spec fn delivered(queued: Seq<u8>, room: nat) -> Seq<u8> {
    queued.subrange(0, read_count(queued, room) as int)
}

/// The bytes left in `queued` after a read with room for `room` bytes.
pub open spec fn kept(queued: Seq<u8>, room: nat) -> Seq<u8> {
    queued.subrange(read_count(queued, room) as int, queued.len() as int)
}

/// The slice convention of non-blocking I/O, with a model of the transport's behaviour:
/// each operation's outcome, and the state it leaves, as spec functions of the state
/// before it.
pub trait AsyncReadWriter: Sized {
    type Error;

    /// What the outcomes of operations depend on.
    type Model;

    spec fn model(&self) -> Self::Model;

    spec fn inv(&self) -> bool;

    /// The outcome of a read into a slice of `room` bytes.
    spec fn read_result(&self, room: nat) -> Polled<usize, Self::Error>;

    /// The bytes such a read puts at the front of the slice.
    spec fn read_bytes(&self, room: nat) -> Seq<u8>;

    /// The state after such a read.
    spec fn after_read(&self, room: nat) -> Self::Model;

    /// The outcome of a write of `data`.
    spec fn write_result(&self, data: Seq<u8>) -> Polled<usize, Self::Error>;

    /// The state after such a write.
    spec fn after_write(&self, data: Seq<u8>) -> Self::Model;

    /// The outcome of a flush.
    spec fn flush_result(&self) -> Polled<(), Self::Error>;

    /// The state after a flush.
    spec fn after_flush(&self) -> Self::Model;

    /// The outcome of closing the writing side.
    spec fn close_result(&self) -> Polled<(), Self::Error>;

    /// The state after closing the writing side.
    spec fn after_close(&self) -> Self::Model;

    /// Reads into the front of `dst` and returns how many bytes were read.
    fn poll_read(&mut self, dst: &mut [u8]) -> (r: Polled<usize, Self::Error>)
        requires
            old(self).inv(),
        ensures
            final(self).inv(),
            r == old(self).read_result(old(dst)@.len()),
            final(self).model() == old(self).after_read(old(dst)@.len()),
            r matches Polled::Ready(Ok(n)) ==> {
                let got = old(self).read_bytes(old(dst)@.len());
                &&& got.len() == n
                &&& n <= old(dst)@.len()
                &&& final(dst)@ == got + old(dst)@.subrange(n as int, old(dst)@.len() as int)
            },
            !(r matches Polled::Ready(Ok(_))) ==> final(dst)@ == old(dst)@,
    ;

    /// Writes a prefix of `src` and returns its length.
    fn poll_write(&mut self, src: &[u8]) -> (r: Polled<usize, Self::Error>)
        requires
            old(self).inv(),
        ensures
            final(self).inv(),
            r == old(self).write_result(src@),
            final(self).model() == old(self).after_write(src@),
    ;

    /// Pushes out what was written.
    fn poll_flush(&mut self) -> (r: Polled<(), Self::Error>)
        requires
            old(self).inv(),
        ensures
            final(self).inv(),
            r == old(self).flush_result(),
            final(self).model() == old(self).after_flush(),
    ;

    /// Closes the writing side.
    fn poll_close(&mut self) -> (r: Polled<(), Self::Error>)
        requires
            old(self).inv(),
        ensures
            final(self).inv(),
            r == old(self).close_result(),
            final(self).model() == old(self).after_close(),
    ;
}

/// An in-memory transport: what is written on one side is read, in order, on the other.
/// Closing the writing side lets the reader drain what is queued and then see the end.
pub struct MemoryPipe {
    data: Vec<u8>,
    head: usize,
    closed: bool,
}

impl MemoryPipe {
    /// The bytes written and not yet read.
    pub closed spec fn queued(&self) -> Seq<u8> {
        self.data@.subrange(self.head as int, self.data@.len() as int)
    }

    /// Whether the writing side is closed.
    pub closed spec fn is_closed(&self) -> bool {
        self.closed
    }

    pub closed spec fn wf(&self) -> bool {
        self.head <= self.data.len()
    }

    /// An open, empty pipe.
    pub fn new() -> (r: Self)
        ensures
            r.inv(),
            r.queued() == Seq::<u8>::empty(),
            !r.is_closed(),
    {
        let r = MemoryPipe { data: Vec::new(), head: 0, closed: false };
        assert(r.queued() =~= Seq::<u8>::empty());
        r
    }
}

impl AsyncReadWriter for MemoryPipe {
    type Error = PipeError;

    type Model = (Seq<u8>, bool);

    open spec fn model(&self) -> (Seq<u8>, bool) {
        (self.queued(), self.is_closed())
    }

    open spec fn inv(&self) -> bool {
        self.wf()
    }

    /// With nothing queued, a read is pending while the pipe is open and reads zero bytes
    /// once it is closed; otherwise it takes as many queued bytes as fit.
    open spec fn read_result(&self, room: nat) -> Polled<usize, PipeError> {
        if self.queued().len() == 0 && room > 0 {
            if self.is_closed() {
                Polled::Ready(Ok(0))
            } else {
                Polled::Pending
            }
        } else {
            Polled::Ready(Ok(read_count(self.queued(), room) as usize))
        }
    }

    open spec fn read_bytes(&self, room: nat) -> Seq<u8> {
        delivered(self.queued(), room)
    }

    open spec fn after_read(&self, room: nat) -> (Seq<u8>, bool) {
        (kept(self.queued(), room), self.is_closed())
    }

    /// A write takes all of the data, unless the pipe is closed.
    open spec fn write_result(&self, data: Seq<u8>) -> Polled<usize, PipeError> {
        if self.is_closed() {
            Polled::Ready(Err(PipeError::Closed))
        } else {
            Polled::Ready(Ok(data.len() as usize))
        }
    }

    open spec fn after_write(&self, data: Seq<u8>) -> (Seq<u8>, bool) {
        if self.is_closed() {
            self.model()
        } else {
            (written(self.queued(), data), false)
        }
    }

    /// Written bytes are readable at once, so there is nothing to flush.
    open spec fn flush_result(&self) -> Polled<(), PipeError> {
        Polled::Ready(Ok(()))
    }

    open spec fn after_flush(&self) -> (Seq<u8>, bool) {
        self.model()
    }

    open spec fn close_result(&self) -> Polled<(), PipeError> {
        Polled::Ready(Ok(()))
    }

    open spec fn after_close(&self) -> (Seq<u8>, bool) {
        (self.queued(), true)
    }

    fn poll_read(&mut self, dst: &mut [u8]) -> (r: Polled<usize, PipeError>) {
        let avail = self.data.len() - self.head;
        if avail == 0 && dst.len() > 0 {
            assert(kept(self.queued(), dst@.len()) =~= self.queued());
            if self.closed {
                return Polled::Ready(Ok(0));
            } else {
                return Polled::Pending;
            }
        }
        let n = if avail < dst.len() {
            avail
        } else {
            dst.len()
        };
        let ghost q = self.queued();
        let ghost d0 = dst@;
        let mut i: usize = 0;
        while i < n
            invariant
                self.wf(),
                *self == *old(self),
                q == self.queued(),
                n == read_count(q, d0.len()),
                i <= n,
                dst@.len() == d0.len(),
                dst@ == q.subrange(0, i as int) + d0.subrange(i as int, d0.len() as int),
            decreases n - i,
        {
            dst[i] = self.data[self.head + i];
            i = i + 1;
            assert(dst@ =~= q.subrange(0, i as int) + d0.subrange(i as int, d0.len() as int));
        }
        self.head = self.head + n;
        assert(self.queued() =~= kept(q, d0.len()));
        Polled::Ready(Ok(n))
    }

    fn poll_write(&mut self, src: &[u8]) -> (r: Polled<usize, PipeError>) {
        if self.closed {
            return Polled::Ready(Err(PipeError::Closed));
        }
        let mut i: usize = 0;
        while i < src.len()
            invariant
                self.wf(),
                self.head == old(self).head,
                !self.closed,
                i <= src@.len(),
                self.data@ == old(self).data@ + src@.subrange(0, i as int),
            decreases src@.len() - i,
        {
            self.data.push(src[i]);
            i = i + 1;
            assert(self.data@ =~= old(self).data@ + src@.subrange(0, i as int));
        }
        assert(src@.subrange(0, i as int) =~= src@);
        assert(self.queued() =~= written(old(self).queued(), src@));
        Polled::Ready(Ok(src.len()))
    }

    fn poll_flush(&mut self) -> (r: Polled<(), PipeError>) {
        Polled::Ready(Ok(()))
    }

    fn poll_close(&mut self) -> (r: Polled<(), PipeError>) {
        self.closed = true;
        Polled::Ready(Ok(()))
    }
}

/// Bytes written through the slice convention and read back through either convention,
/// with room for them all, come out as they went in, in order, and nothing stays behind.
pub proof fn lemma_round_trip(queued: Seq<u8>, data: Seq<u8>, room: nat)
    requires
        room >= queued.len() + data.len(),
    ensures
        delivered(written(queued, data), room) == queued + data,
        kept(written(queued, data), room) == Seq::<u8>::empty(),
{
    assert(delivered(written(queued, data), room) =~= queued + data);
    assert(kept(written(queued, data), room) =~= Seq::<u8>::empty());
}

/// The bytes that successive reads, with room for `rooms[0]`, `rooms[1]`, ... bytes, take
/// from `queued`, in the order they are delivered.
pub open spec fn delivered_over(queued: Seq<u8>, rooms: Seq<nat>) -> Seq<u8>
    decreases rooms.len(),
{
    if rooms.len() == 0 {
        Seq::empty()
    } else {
        delivered(queued, rooms[0]) + delivered_over(kept(queued, rooms[0]), rooms.drop_first())
    }
}

/// The bytes left in `queued` after those successive reads.
pub open spec fn kept_over(queued: Seq<u8>, rooms: Seq<nat>) -> Seq<u8>
    decreases rooms.len(),
{
    if rooms.len() == 0 {
        queued
    } else {
        kept_over(kept(queued, rooms[0]), rooms.drop_first())
    }
}

/// Successive reads of any sizes take the queued bytes from the front, in order: what they
/// deliver, followed by what is left, is exactly what was queued. When every read has room
/// for at least one byte and there are at least as many reads as queued bytes, everything
/// queued has been delivered and nothing is left.
pub proof fn lemma_successive_reads(queued: Seq<u8>, rooms: Seq<nat>)
    ensures
        delivered_over(queued, rooms) + kept_over(queued, rooms) == queued,
        rooms.len() >= queued.len() && (forall|i: int| 0 <= i < rooms.len() ==> #[trigger] rooms[i] > 0)
            ==> delivered_over(queued, rooms) == queued && kept_over(queued, rooms) == Seq::<
            u8,
        >::empty(),
    decreases rooms.len(),
{
    if rooms.len() == 0 {
        assert(delivered_over(queued, rooms) + kept_over(queued, rooms) =~= queued);
    } else {
        let rest = kept(queued, rooms[0]);
        let tail = rooms.drop_first();
        lemma_successive_reads(rest, tail);
        assert(delivered(queued, rooms[0]) + rest =~= queued);
        assert(delivered_over(queued, rooms) + kept_over(queued, rooms) =~= queued);
        if rooms.len() >= queued.len() && (forall|i: int|
            0 <= i < rooms.len() ==> #[trigger] rooms[i] > 0) {
            assert(rooms[0] > 0);
            assert forall|i: int| 0 <= i < tail.len() implies #[trigger] tail[i] > 0 by {
                assert(tail[i] == rooms[i + 1]);
            }
            assert(tail.len() >= rest.len());
            assert(kept_over(queued, rooms) =~= Seq::<u8>::empty());
            assert(delivered_over(queued, rooms) =~= queued);
        }
    }
}

/// Once the writing side is closed and every queued byte has been read, a read ends the
/// stream: it succeeds with no bytes and leaves the pipe as it is.
pub proof fn lemma_end_of_stream(pipe: MemoryPipe, room: nat)
    requires
        pipe.is_closed(),
        pipe.queued().len() == 0,
        room > 0,
    ensures
        pipe.read_result(room) == Polled::<usize, PipeError>::Ready(Ok(0)),
        pipe.read_bytes(room) == Seq::<u8>::empty(),
        pipe.after_read(room) == pipe.model(),
{
    assert(pipe.read_bytes(room) =~= Seq::<u8>::empty());
    assert(kept(pipe.queued(), room) =~= pipe.queued());
}

} // verus!
