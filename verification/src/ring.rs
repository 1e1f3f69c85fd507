//! Fixed-capacity single-producer/single-consumer byte ring.
//!
//! The shared storage is a [`RingBuffer`]: a byte buffer of capacity `C > 0`
//! and a live length `len`. The producer endpoint ([`RingBufferWriter`])
//! owns the write cursor `end`; the consumer endpoint ([`RingBufferReader`])
//! owns the read cursor `start`. The occupied bytes are the logical slice
//! `[start, start + len) mod C`; the endpoints and the storage are tied
//! together by [`spsc_wf`], which pins `end == (start + len) mod C`.
//!
//! Each endpoint's operations borrow the shared `RingBuffer`; the pair plus
//! the storage are created together by [`spsc_stream`]. Pushes and pops move
//! `min(requested, room)` bytes, wrapping at the end of the buffer; a short
//! count is the ring's only backpressure signal.

use vstd::prelude::*;

verus! {

/// Index arithmetic for one wrap of the ring: maps `i` in `[0, 2*cap)` to
/// `i mod cap` without a modulus.
pub open spec fn wrap_index(i: int, cap: int) -> int {
    if i < cap {
        i
    } else {
        i - cap
    }
}

/// Shared storage of the ring: the byte buffer and the live length.
pub struct RingBuffer {
    buf: Vec<u8>,
    len: usize,
}

/// Consumer endpoint: owns the read cursor.
pub struct RingBufferReader {
    start: usize,
}

/// Producer endpoint: owns the write cursor.
pub struct RingBufferWriter {
    end: usize,
}

impl RingBuffer {
    /// Fixed capacity `C` of the ring.
    pub closed spec fn capacity(&self) -> int {
        self.buf@.len() as int
    }

    /// Number of live bytes `len`.
    pub closed spec fn length(&self) -> int {
        self.len as int
    }

    /// Storage well-formedness: positive capacity, `0 <= len <= C`.
    pub closed spec fn wf(&self) -> bool {
        0 < self.buf@.len() && self.len <= self.buf@.len()
    }

    /// The live bytes as seen from read cursor `start`: `len` bytes beginning
    /// at `buf[start]`, wrapping at the end of the buffer.
    pub closed spec fn contents_from(&self, start: int) -> Seq<u8> {
        Seq::new(
            self.len as nat,
            |j: int| self.buf@[wrap_index(start + j, self.buf@.len() as int)],
        )
    }

    /// Allocates a ring of capacity `size`, initially empty.
    pub fn new(size: usize) -> (r: RingBuffer)
        requires
            size > 0,
        ensures
            r.wf(),
            r.capacity() == size,
            r.length() == 0,
    {
        let mut buf: Vec<u8> = Vec::new();
        let mut i: usize = 0;
        while i < size
            invariant
                i <= size,
                buf@.len() == i,
            decreases size - i,
        {
            buf.push(0);
            i += 1;
        }
        RingBuffer { buf, len: 0 }
    }
}

/// Ties the two endpoints to the storage: the write cursor sits `len` bytes
/// past the read cursor, modulo the capacity.
pub open spec fn spsc_wf(w: RingBufferWriter, r: RingBufferReader, ring: RingBuffer) -> bool {
    &&& r.wf(ring)
    &&& w.cursor() < ring.capacity()
    &&& w.cursor() == wrap_index(r.cursor() + ring.length(), ring.capacity())
}

impl RingBufferReader {
    /// The consumer's read cursor.
    pub closed spec fn cursor(&self) -> int {
        self.start as int
    }

    /// Cursor well-formedness with respect to the storage.
    pub open spec fn wf(&self, ring: RingBuffer) -> bool {
        ring.wf() && 0 <= self.cursor() < ring.capacity()
    }

    /// The live bytes of the ring, oldest first.
    pub open spec fn contents(&self, ring: RingBuffer) -> Seq<u8> {
        ring.contents_from(self.cursor())
    }

    /// Snapshot predicate: no live bytes.
    pub fn is_empty(&self, ring: &RingBuffer) -> (r: bool)
        ensures
            r == (ring.length() == 0),
    {
        ring.len == 0
    }

    /// Snapshot predicate: the ring holds `capacity` live bytes.
    pub fn is_full(&self, ring: &RingBuffer) -> (r: bool)
        ensures
            r == (ring.length() == ring.capacity()),
    {
        ring.len == ring.buf.len()
    }

    /// Pops up to `min(|dst|, len)` bytes into the front of `dst`, oldest
    /// first, advancing the read cursor and shrinking the live length by the
    /// returned count. Returns `0` exactly when the ring is empty or `dst`
    /// has no room.
    pub fn read(&mut self, ring: &mut RingBuffer, dst: &mut Vec<u8>) -> (n: usize)
        requires
            old(self).wf(*old(ring)),
        ensures
            n == vstd::math::min(old(dst)@.len() as int, old(ring).length()),
            final(self).wf(*final(ring)),
            final(ring).capacity() == old(ring).capacity(),
            final(ring).length() == old(ring).length() - n,
            final(dst)@.len() == old(dst)@.len(),
            final(dst)@ == old(self).contents(*old(ring)).take(n as int) + old(dst)@.skip(n as int),
            final(self).contents(*final(ring)) == old(self).contents(*old(ring)).skip(n as int),
            forall|w: RingBufferWriter|
                spsc_wf(w, *old(self), *old(ring)) ==> spsc_wf(w, *final(self), *final(ring)),
    {
        let cap = ring.buf.len();
        let n = if dst.len() < ring.len {
            dst.len()
        } else {
            ring.len
        };
        let ghost cap_i = cap as int;
        let ghost old_c = old(self).contents(*old(ring));
        let ghost old_dst = old(dst)@;
        let ghost old_start = self.start as int;
        let ghost old_len = ring.len as int;

        let mut k: usize = 0;
        while k < n
            invariant
                k <= n,
                n <= old_len,
                n <= old_dst.len(),
                ring.buf@ == old(ring).buf@,
                ring.buf@.len() == cap_i,
                0 < cap_i,
                old_len <= cap_i,
                ring.len as int == old_len - k,
                self.start < cap,
                cap == cap_i,
                self.start as int == wrap_index(old_start + k, cap_i),
                0 <= old_start < cap_i,
                old_c.len() == old_len,
                ring.contents_from(self.start as int) == old_c.skip(k as int),
                dst@.len() == old_dst.len(),
                dst@ == old_c.take(k as int) + old_dst.skip(k as int),
            decreases n - k,
        {
            let ghost pre_start = self.start as int;
            let ghost pre_len = ring.len as int;
            let b = ring.buf[self.start];
            proof {
                assert(ring.contents_from(pre_start)[0] == b);
                assert(old_c.skip(k as int)[0] == old_c[k as int]);
            }
            dst.set(k, b);
            self.start = if self.start + 1 == cap {
                0
            } else {
                self.start + 1
            };
            ring.len = ring.len - 1;
            proof {
                lemma_pop_byte(ring.buf@, pre_start, pre_len);
                assert(self.start as int == wrap_index(pre_start + 1, cap_i));
                assert(ring.contents_from(self.start as int) =~= old_c.skip(k + 1));
                assert(dst@ =~= old_c.take(k + 1) + old_dst.skip(k + 1));
            }
            k += 1;
        }
        proof {
            assert(dst@ =~= old_c.take(n as int) + old_dst.skip(n as int));
            assert forall|w: RingBufferWriter|
                spsc_wf(w, *old(self), *old(ring)) implies spsc_wf(
                w,
                *self,
                *ring,
            ) by {
                assert(w.cursor() == wrap_index(old_start + old_len, cap_i));
                assert(self.start as int == wrap_index(old_start + n, cap_i));
                assert(wrap_index(wrap_index(old_start + n, cap_i) + (old_len - n), cap_i)
                    == wrap_index(old_start + old_len, cap_i));
            }
        }
        n
    }
}

impl RingBufferWriter {
    /// The producer's write cursor.
    pub closed spec fn cursor(&self) -> int {
        self.end as int
    }

    /// Cursor well-formedness with respect to the storage.
    pub open spec fn wf(&self, ring: RingBuffer) -> bool {
        ring.wf() && 0 <= self.cursor() < ring.capacity()
    }

    /// Snapshot predicate: no live bytes.
    pub fn is_empty(&self, ring: &RingBuffer) -> (r: bool)
        ensures
            r == (ring.length() == 0),
    {
        ring.len == 0
    }

    /// Snapshot predicate: the ring holds `capacity` live bytes.
    pub fn is_full(&self, ring: &RingBuffer) -> (r: bool)
        ensures
            r == (ring.length() == ring.capacity()),
    {
        ring.len == ring.buf.len()
    }

    /// Pushes up to `min(|src|, capacity - len)` bytes from the front of
    /// `src`, advancing the write cursor and growing the live length by the
    /// returned count. Returns `0` exactly when the ring is full or `src` is
    /// empty. For every consumer endpoint consistent with this producer, the
    /// live bytes afterwards are the old live bytes followed by the accepted
    /// prefix of `src`.
    pub fn write(&mut self, ring: &mut RingBuffer, src: &[u8]) -> (n: usize)
        requires
            old(self).wf(*old(ring)),
        ensures
            n == vstd::math::min(src@.len() as int, old(ring).capacity() - old(ring).length()),
            final(self).wf(*final(ring)),
            final(ring).capacity() == old(ring).capacity(),
            final(ring).length() == old(ring).length() + n,
            forall|r: RingBufferReader|
                #[trigger] spsc_wf(*old(self), r, *old(ring)) ==> spsc_wf(
                    *final(self),
                    r,
                    *final(ring),
                ) && r.contents(*final(ring)) == r.contents(*old(ring)) + src@.take(n as int),
    {
        let cap = ring.buf.len();
        let avail = cap - ring.len;
        let n = if src.len() < avail {
            src.len()
        } else {
            avail
        };
        let ghost cap_i = cap as int;
        let ghost old_end = self.end as int;
        let ghost old_len = ring.len as int;
        let ghost s0: int = if self.end >= ring.len {
            self.end - ring.len
        } else {
            self.end - ring.len + cap_i
        };
        let ghost old_c = old(ring).contents_from(s0);
        proof {
            assert(0 <= s0 < cap_i);
            assert(old_end == wrap_index(s0 + old_len, cap_i));
        }

        let mut i: usize = 0;
        while i < n
            invariant
                i <= n,
                n as int == vstd::math::min(src@.len() as int, cap_i - old_len),
                old_len + n <= cap_i,
                0 < cap_i,
                ring.buf@.len() == cap_i,
                cap == cap_i,
                i <= src@.len(),
                ring.len as int == old_len + i,
                self.end < cap,
                0 <= s0 < cap_i,
                self.end as int == wrap_index(s0 + ring.len as int, cap_i),
                old_c.len() == old_len,
                ring.contents_from(s0) == old_c + src@.take(i as int),
            decreases n - i,
        {
            let ghost pre_buf = ring.buf@;
            let ghost pre_len = ring.len as int;
            let b = src[i];
            ring.buf.set(self.end, b);
            self.end = if self.end + 1 == cap {
                0
            } else {
                self.end + 1
            };
            ring.len = ring.len + 1;
            proof {
                lemma_push_byte(pre_buf, ring.buf@, s0, pre_len, b);
                assert(ring.contents_from(s0) =~= (old_c + src@.take(i as int)).push(b));
                assert((old_c + src@.take(i as int)).push(b) =~= old_c + src@.take(i + 1));
            }
            i += 1;
        }
        proof {
            assert forall|r: RingBufferReader|
                #[trigger] spsc_wf(*old(self), r, *old(ring)) implies spsc_wf(*self, r, *ring)
                && r.contents(*ring) == r.contents(*old(ring)) + src@.take(n as int) by {
                assert(old_end == wrap_index(r.cursor() + old_len, cap_i));
                assert(r.cursor() == s0);
                assert(r.contents(*old(ring)) == old_c);
                assert(ring.contents_from(s0) == old_c + src@.take(n as int));
                assert(self.end as int == wrap_index(s0 + (old_len + n), cap_i));
            }
        }
        n
    }

    /// Handing bytes to the ring needs no separate flush: a completed push is
    /// already visible to the consumer. Changes nothing.
    pub fn flush(&mut self)
        ensures
            *final(self) == *old(self),
    {
    }
}

/// Popping the byte under the read cursor: the bytes seen from the advanced
/// cursor, one fewer in count, are the old live bytes less their head.
proof fn lemma_pop_byte(buf: Seq<u8>, s: int, len: int)
    requires
        0 < buf.len(),
        0 <= s < buf.len(),
        0 < len <= buf.len(),
    ensures
        Seq::new(
            (len - 1) as nat,
            |j: int| buf[wrap_index(wrap_index(s + 1, buf.len() as int) + j, buf.len() as int)],
        ) == Seq::new(len as nat, |j: int| buf[wrap_index(s + j, buf.len() as int)]).skip(1),
{
    let cap = buf.len() as int;
    let s2 = wrap_index(s + 1, cap);
    let lhs = Seq::new((len - 1) as nat, |j: int| buf[wrap_index(s2 + j, cap)]);
    let rhs = Seq::new(len as nat, |j: int| buf[wrap_index(s + j, cap)]).skip(1);
    assert forall|j: int| 0 <= j < len - 1 implies lhs[j] == rhs[j] by {
        assert(wrap_index(s2 + j, cap) == wrap_index(s + 1 + j, cap));
    }
    assert(lhs =~= rhs);
}

/// Pushing one byte at the write cursor `(s + len) mod cap` extends the bytes
/// seen from read cursor `s` by exactly that byte.
proof fn lemma_push_byte(buf: Seq<u8>, post: Seq<u8>, s: int, len: int, b: u8)
    requires
        0 < buf.len(),
        0 <= s < buf.len(),
        0 <= len < buf.len(),
        post == buf.update(wrap_index(s + len, buf.len() as int), b),
    ensures
        post.len() == buf.len(),
        Seq::new((len + 1) as nat, |j: int| post[wrap_index(s + j, post.len() as int)])
            == Seq::new(len as nat, |j: int| buf[wrap_index(s + j, buf.len() as int)]).push(b),
{
    let cap = buf.len() as int;
    let w = wrap_index(s + len, cap);
    let lhs = Seq::new((len + 1) as nat, |j: int| post[wrap_index(s + j, cap)]);
    let rhs = Seq::new(len as nat, |j: int| buf[wrap_index(s + j, cap)]).push(b);
    assert forall|j: int| 0 <= j < len + 1 implies lhs[j] == rhs[j] by {
        if j < len {
            assert(wrap_index(s + j, cap) != w);
        } else {
            assert(wrap_index(s + j, cap) == w);
        }
    }
    assert(lhs =~= rhs);
}

/// The view through a consumer endpoint has exactly `length` bytes, and a
/// well-formed ring keeps `0 <= length <= capacity`.
pub proof fn lemma_contents_length(r: RingBufferReader, ring: RingBuffer)
    requires
        r.wf(ring),
    ensures
        r.contents(ring).len() == ring.length(),
        0 <= ring.length() <= ring.capacity(),
        0 < ring.capacity(),
{
}

/// Creates the shared storage and the producer/consumer endpoint pair for a
/// ring of capacity `size`.
pub fn spsc_stream(size: usize) -> (r: (RingBufferWriter, RingBufferReader, RingBuffer))
    requires
        size > 0,
    ensures
        spsc_wf(r.0, r.1, r.2),
        r.0.wf(r.2),
        r.1.wf(r.2),
        r.2.capacity() == size,
        r.2.length() == 0,
        r.1.contents(r.2) == Seq::<u8>::empty(),
{
    let buffer = RingBuffer::new(size);
    let producer = RingBufferWriter { end: 0 };
    let consumer = RingBufferReader { start: 0 };
    proof {
        assert(consumer.contents(buffer) =~= Seq::<u8>::empty());
    }
    (producer, consumer, buffer)
}

/// One operation of the ring's abstract model: exactly what the contracts of
/// [`RingBufferWriter::write`] and [`RingBufferReader::read`] say the exec
/// code does to the live bytes.
pub enum RingOp {
    /// Offer these bytes to `write`.
    Push(Seq<u8>),
    /// Ask `read` for up to this many bytes.
    Pop(nat),
}

/// Effect of one operation on live bytes `c` in a ring of capacity `cap`:
/// returns (live bytes after, bytes accepted by the push, bytes emitted by
/// the pop).
pub open spec fn ring_step(c: Seq<u8>, cap: int, op: RingOp) -> (Seq<u8>, Seq<u8>, Seq<u8>) {
    match op {
        RingOp::Push(src) => {
            let n = vstd::math::min(src.len() as int, cap - c.len());
            (c + src.take(n), src.take(n), Seq::<u8>::empty())
        },
        RingOp::Pop(want) => {
            let n = vstd::math::min(want as int, c.len() as int);
            (c.skip(n), Seq::<u8>::empty(), c.take(n))
        },
    }
}

/// Effect of a whole sequence of operations: (live bytes after, concatenation
/// of all accepted bytes, concatenation of all emitted bytes).
pub open spec fn ring_run(c0: Seq<u8>, cap: int, ops: Seq<RingOp>) -> (Seq<u8>, Seq<u8>, Seq<u8>)
    decreases ops.len(),
{
    if ops.len() == 0 {
        (c0, Seq::<u8>::empty(), Seq::<u8>::empty())
    } else {
        let first = ring_step(c0, cap, ops[0]);
        let rest = ring_run(first.0, cap, ops.skip(1));
        (rest.0, first.1 + rest.1, first.2 + rest.2)
    }
}

/// Ring conservation and byte-exact FIFO order, over any sequence of pushes
/// and pops: the bytes emitted so far followed by the bytes still live are
/// exactly the initial live bytes followed by the bytes accepted so far; the
/// live length stays within `[0, cap]` and equals the initial length plus
/// accepted minus emitted. Applying this to every prefix of `ops` gives the
/// claim at every observation point.
pub proof fn lemma_ring_trace_conservation(c0: Seq<u8>, cap: int, ops: Seq<RingOp>)
    requires
        0 <= c0.len() <= cap,
    ensures
        ({
            let r = ring_run(c0, cap, ops);
            &&& r.2 + r.0 == c0 + r.1
            &&& 0 <= r.0.len() <= cap
            &&& r.0.len() == c0.len() + r.1.len() - r.2.len()
        }),
    decreases ops.len(),
{
    if ops.len() == 0 {
        let r = ring_run(c0, cap, ops);
        assert(r.2 + r.0 =~= c0 + r.1);
    } else {
        let first = ring_step(c0, cap, ops[0]);
        match ops[0] {
            RingOp::Push(src) => {
                let n = vstd::math::min(src.len() as int, cap - c0.len());
                assert(first.0 == c0 + src.take(n));
                lemma_ring_trace_conservation(first.0, cap, ops.skip(1));
                let rest = ring_run(first.0, cap, ops.skip(1));
                assert(first.2 + rest.2 =~= rest.2);
                assert((c0 + first.1) + rest.1 =~= c0 + (first.1 + rest.1));
                assert(rest.2 + rest.0 == first.0 + rest.1);
            },
            RingOp::Pop(want) => {
                let n = vstd::math::min(want as int, c0.len() as int);
                assert(first.0 == c0.skip(n));
                lemma_ring_trace_conservation(first.0, cap, ops.skip(1));
                let rest = ring_run(first.0, cap, ops.skip(1));
                assert(rest.2 + rest.0 == c0.skip(n) + rest.1);
                assert(first.1 + rest.1 =~= rest.1);
                assert((first.2 + rest.2) + rest.0 =~= first.2 + (rest.2 + rest.0));
                assert(c0.take(n) + (c0.skip(n) + rest.1) =~= (c0.take(n) + c0.skip(n)) + rest.1);
                assert(c0.take(n) + c0.skip(n) =~= c0);
            },
        }
    }
}

/// Round-trip law: pushing `src` with `|src| <= cap` into an empty ring
/// accepts every byte, and popping `|src|` bytes afterwards emits exactly
/// `src`, in order, leaving the ring empty.
pub proof fn lemma_push_pop_round_trip(src: Seq<u8>, cap: int)
    requires
        0 < cap,
        src.len() <= cap,
    ensures
        ({
            let pushed = ring_step(Seq::<u8>::empty(), cap, RingOp::Push(src));
            let popped = ring_step(pushed.0, cap, RingOp::Pop(src.len()));
            &&& pushed.0 == src
            &&& pushed.1 == src
            &&& popped.2 == src
            &&& popped.0 == Seq::<u8>::empty()
        }),
{
    let pushed = ring_step(Seq::<u8>::empty(), cap, RingOp::Push(src));
    assert(src.take(src.len() as int) =~= src);
    assert(pushed.0 =~= src);
    let popped = ring_step(pushed.0, cap, RingOp::Pop(src.len()));
    assert(popped.2 =~= src);
    assert(popped.0 =~= Seq::<u8>::empty());
}

/// Rounds of the bounded-work model behind the writable adapter: each round
/// the user pushes the pending bytes into the empty ring — the push accepts
/// `min(cap, pending)` of them — and the worker drains the ring completely
/// into the pipe. Returns the concatenation of everything drained.
pub open spec fn transported(b: Seq<u8>, cap: int) -> Seq<u8>
    decreases b.len(),
{
    if b.len() == 0 || cap <= 0 {
        Seq::<u8>::empty()
    } else {
        let n = vstd::math::min(cap, b.len() as int);
        b.take(n) + transported(b.skip(n), cap)
    }
}

/// No deadlock under bounded work, at the model level: for any finite byte
/// sequence, the rounds of [`transported`] terminate (the recursion is
/// well-founded because every round moves at least one byte) and deliver all
/// bytes, in order.
pub proof fn lemma_transport_complete(b: Seq<u8>, cap: int)
    requires
        0 < cap,
    ensures
        transported(b, cap) == b,
    decreases b.len(),
{
    if b.len() == 0 {
        assert(transported(b, cap) =~= b);
    } else {
        let n = vstd::math::min(cap, b.len() as int);
        lemma_transport_complete(b.skip(n), cap);
        assert(b.take(n) + b.skip(n) =~= b);
    }
}

} // verus!
