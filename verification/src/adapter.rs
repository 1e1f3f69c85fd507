//! The two adapter protocol cores.
//!
//! Each adapter pairs a ring with a reactor-visible readiness cell and a
//! termination flag. The readable side ([`AnonReadCore`]) is filled by a
//! worker that drains a blocking pipe and emptied by the user's non-blocking
//! `read`; the writable side ([`AnonWriteCore`]) is filled by the user's
//! non-blocking `write` and emptied by a worker that feeds a blocking pipe.
//!
//! Everything that decides is here: which bytes move, when the readiness cell
//! changes, when the peer thread must be woken, and when a worker must park.
//! The surrounding plumbing — spawning the workers, parking on a condition
//! variable when a step says to wait, performing the pipe syscalls, and
//! mirroring the readiness value into a reactor — performs exactly what these
//! functions return.
//!
//! Both cores maintain the readiness law: between steps the cell is
//! `Readable` exactly when the ring is non-empty (readable side), and
//! `Writable` exactly when the ring is non-full (writable side).

use crate::ring::RingBuffer;
use crate::ring::RingBufferReader;
use crate::ring::RingBufferWriter;
use crate::ring::lemma_contents_length;
use crate::ring::spsc_stream;
use crate::ring::spsc_wf;
use vstd::prelude::*;

verus! {

/// States of the reactor-visible readiness cell that the adapters write.
#[derive(Clone, Copy, PartialEq, Eq, Structural, Debug)]
pub enum Readiness {
    Empty,
    Readable,
    Writable,
}

/// Outcome of one readable-side worker step.
pub enum WorkerStep {
    /// The ring is full: park until the consumer signals "not full".
    Wait,
    /// This many bytes of the offered chunk were placed into the ring.
    Advanced(usize),
}

/// Outcome of one writable-side worker step.
pub enum DrainStep {
    /// The ring is empty: park until the producer signals "not empty".
    Wait,
    /// These bytes were taken out of the ring, oldest first; hand them to the
    /// blocking pipe write.
    Bytes(Vec<u8>),
}

/// Readable-side core: `pipe -> worker -> ring -> user read`.
pub struct AnonReadCore {
    producer: RingBufferWriter,
    consumer: RingBufferReader,
    ring: RingBuffer,
    readiness: Readiness,
    done: bool,
}

impl AnonReadCore {
    /// The bytes sitting in the ring, oldest first.
    pub closed spec fn buffered(&self) -> Seq<u8> {
        self.consumer.contents(self.ring)
    }

    /// Fixed ring capacity.
    pub closed spec fn capacity(&self) -> int {
        self.ring.capacity()
    }

    /// Current value of the readiness cell.
    pub closed spec fn ready(&self) -> Readiness {
        self.readiness
    }

    /// Whether the termination flag is set.
    pub closed spec fn terminated(&self) -> bool {
        self.done
    }

    /// Protocol invariant: the ring is well formed and, between steps, the
    /// readiness cell is `Readable` exactly when the ring is non-empty. The
    /// readable side never asserts `Writable`.
    pub closed spec fn inv(&self) -> bool {
        &&& spsc_wf(self.producer, self.consumer, self.ring)
        &&& self.readiness != Readiness::Writable
        &&& (self.readiness == Readiness::Readable <==> self.buffered().len() > 0)
    }

    /// Builds the core for a fresh adapter: empty ring of the given capacity,
    /// readiness cell empty (no readable edge before the first byte),
    /// termination flag clear.
    pub fn new(capacity: usize) -> (c: AnonReadCore)
        requires
            capacity > 0,
        ensures
            c.inv(),
            c.capacity() == capacity,
            c.buffered() == Seq::<u8>::empty(),
            c.ready() == Readiness::Empty,
            !c.terminated(),
    {
        let (producer, consumer, ring) = spsc_stream(capacity);
        AnonReadCore { producer, consumer, ring, readiness: Readiness::Empty, done: false }
    }

    /// One worker transfer step: offer the chunk the blocking pipe read
    /// returned. If the ring is full the worker must park; otherwise as many
    /// bytes as fit are pushed, and the `empty -> readable` edge is published
    /// when the push filled an empty ring.
    pub fn worker_transfer(&mut self, chunk: &[u8]) -> (step: WorkerStep)
        requires
            old(self).inv(),
        ensures
            final(self).inv(),
            final(self).capacity() == old(self).capacity(),
            final(self).terminated() == old(self).terminated(),
            match step {
                WorkerStep::Wait => {
                    &&& *final(self) == *old(self)
                    &&& old(self).buffered().len() == old(self).capacity()
                },
                WorkerStep::Advanced(n) => {
                    &&& old(self).buffered().len() < old(self).capacity()
                    &&& n == vstd::math::min(
                        chunk@.len() as int,
                        old(self).capacity() - old(self).buffered().len(),
                    )
                    &&& final(self).buffered() == old(self).buffered() + chunk@.take(n as int)
                    &&& final(self).ready() == (if final(self).buffered().len() > 0 {
                        Readiness::Readable
                    } else {
                        Readiness::Empty
                    })
                },
            },
    {
        proof {
            lemma_contents_length(self.consumer, self.ring);
        }
        if self.producer.is_full(&self.ring) {
            return WorkerStep::Wait;
        }
        let was_empty = self.producer.is_empty(&self.ring);
        proof {
            assert(spsc_wf(self.producer, self.consumer, self.ring));
        }
        let n = self.producer.write(&mut self.ring, chunk);
        if was_empty && n > 0 {
            self.readiness = Readiness::Readable;
        }
        proof {
            lemma_contents_length(self.consumer, self.ring);
            if n == 0 {
                assert(self.buffered() =~= old(self).buffered() + chunk@.take(0));
            }
        }
        WorkerStep::Advanced(n)
    }

    /// The user's non-blocking read: pops up to `|dst|` bytes into the front
    /// of `dst` and never touches the pipe. Returns the byte count and
    /// whether the worker must be woken (the pop just freed a full ring).
    /// When the pop leaves the ring empty the `readable -> empty` edge is
    /// published, with a race-closing recheck that re-asserts `Readable` if
    /// the worker has pushed in the meantime.
    pub fn read(&mut self, dst: &mut Vec<u8>) -> (r: (usize, bool))
        requires
            old(self).inv(),
        ensures
            final(self).inv(),
            final(self).capacity() == old(self).capacity(),
            final(self).terminated() == old(self).terminated(),
            r.0 == vstd::math::min(old(dst)@.len() as int, old(self).buffered().len() as int),
            final(dst)@.len() == old(dst)@.len(),
            final(dst)@ == old(self).buffered().take(r.0 as int) + old(dst)@.skip(r.0 as int),
            final(self).buffered() == old(self).buffered().skip(r.0 as int),
            r.1 == (old(self).buffered().len() == old(self).capacity() && r.0 > 0),
            final(self).ready() == (if final(self).buffered().len() > 0 {
                Readiness::Readable
            } else {
                Readiness::Empty
            }),
    {
        proof {
            lemma_contents_length(self.consumer, self.ring);
            assert(spsc_wf(self.producer, self.consumer, self.ring));
        }
        let was_full = self.consumer.is_full(&self.ring);
        let n = self.consumer.read(&mut self.ring, dst);
        let notify = n > 0 && was_full;
        if self.consumer.is_empty(&self.ring) {
            self.readiness = Readiness::Empty;
            // The worker may push between the emptiness observation and the
            // cell update; observing the ring again closes that race.
            if !self.consumer.is_empty(&self.ring) {
                self.readiness = Readiness::Readable;
            }
        }
        proof {
            lemma_contents_length(self.consumer, self.ring);
        }
        (n, notify)
    }

    /// Current value of the readiness cell, for the reactor mirror.
    pub fn readiness(&self) -> (r: Readiness)
        ensures
            r == self.ready(),
    {
        self.readiness
    }

    /// First step of teardown: raise the termination flag the worker checks
    /// on every loop. Changes nothing else.
    pub fn terminate(&mut self)
        requires
            old(self).inv(),
        ensures
            final(self).inv(),
            final(self).terminated(),
            final(self).buffered() == old(self).buffered(),
            final(self).capacity() == old(self).capacity(),
            final(self).ready() == old(self).ready(),
    {
        self.done = true;
    }

    /// Whether teardown has begun; the worker exits its loop once this holds.
    pub fn is_terminated(&self) -> (r: bool)
        ensures
            r == self.terminated(),
    {
        self.done
    }
}

/// Readiness law of the readable side: between steps the cell is `Readable`
/// exactly when the ring holds bytes, and never `Writable`.
pub proof fn lemma_readable_quiescence(c: AnonReadCore)
    requires
        c.inv(),
    ensures
        (c.ready() == Readiness::Readable) <==> c.buffered().len() > 0,
        c.ready() != Readiness::Writable,
{
}

/// Writable-side core: `user write -> ring -> worker -> pipe`.
pub struct AnonWriteCore {
    producer: RingBufferWriter,
    consumer: RingBufferReader,
    ring: RingBuffer,
    readiness: Readiness,
    done: bool,
}

impl AnonWriteCore {
    /// The bytes sitting in the ring, oldest first.
    pub closed spec fn buffered(&self) -> Seq<u8> {
        self.consumer.contents(self.ring)
    }

    /// Fixed ring capacity.
    pub closed spec fn capacity(&self) -> int {
        self.ring.capacity()
    }

    /// Current value of the readiness cell.
    pub closed spec fn ready(&self) -> Readiness {
        self.readiness
    }

    /// Whether the termination flag is set.
    pub closed spec fn terminated(&self) -> bool {
        self.done
    }

    /// Protocol invariant: the ring is well formed and, between steps, the
    /// readiness cell is `Writable` exactly when the ring has room. The
    /// writable side never asserts `Readable`.
    pub closed spec fn inv(&self) -> bool {
        &&& spsc_wf(self.producer, self.consumer, self.ring)
        &&& self.readiness != Readiness::Readable
        &&& (self.readiness == Readiness::Writable <==> self.buffered().len() < self.capacity())
    }

    /// Builds the core for a fresh adapter: empty ring of the given capacity,
    /// the `writable` edge asserted immediately (the empty ring can accept
    /// bytes at once), termination flag clear.
    pub fn new(capacity: usize) -> (c: AnonWriteCore)
        requires
            capacity > 0,
        ensures
            c.inv(),
            c.capacity() == capacity,
            c.buffered() == Seq::<u8>::empty(),
            c.ready() == Readiness::Writable,
            !c.terminated(),
    {
        let (producer, consumer, ring) = spsc_stream(capacity);
        AnonWriteCore { producer, consumer, ring, readiness: Readiness::Writable, done: false }
    }

    /// The user's non-blocking write: pushes up to `|src|` bytes and never
    /// touches the pipe. Returns the byte count — `0` means the ring is
    /// full — and whether the worker must be woken (the push just filled an
    /// empty ring). When the push leaves the ring full the
    /// `writable -> empty` edge is published, with a race-closing recheck
    /// that re-asserts `Writable` if the worker has drained in the meantime.
    pub fn write(&mut self, src: &[u8]) -> (r: (usize, bool))
        requires
            old(self).inv(),
        ensures
            final(self).inv(),
            final(self).capacity() == old(self).capacity(),
            final(self).terminated() == old(self).terminated(),
            r.0 == vstd::math::min(
                src@.len() as int,
                old(self).capacity() - old(self).buffered().len(),
            ),
            final(self).buffered() == old(self).buffered() + src@.take(r.0 as int),
            r.1 == (old(self).buffered().len() == 0 && r.0 > 0),
            final(self).ready() == (if final(self).buffered().len() < final(self).capacity() {
                Readiness::Writable
            } else {
                Readiness::Empty
            }),
    {
        proof {
            lemma_contents_length(self.consumer, self.ring);
            assert(spsc_wf(self.producer, self.consumer, self.ring));
        }
        let was_empty = self.producer.is_empty(&self.ring);
        let n = self.producer.write(&mut self.ring, src);
        let notify = n > 0 && was_empty;
        if self.producer.is_full(&self.ring) {
            self.readiness = Readiness::Empty;
            // The worker may pop between the fullness observation and the
            // cell update; observing the ring again closes that race.
            if !self.producer.is_full(&self.ring) {
                self.readiness = Readiness::Writable;
            }
        }
        proof {
            lemma_contents_length(self.consumer, self.ring);
        }
        (n, notify)
    }

    /// One worker drain step. If the ring is empty the worker must park;
    /// otherwise up to `max` bytes are popped for the blocking pipe write,
    /// and the `empty -> writable` edge is re-published when the pop freed a
    /// full ring.
    pub fn worker_drain(&mut self, max: usize) -> (step: DrainStep)
        requires
            old(self).inv(),
        ensures
            final(self).inv(),
            final(self).capacity() == old(self).capacity(),
            final(self).terminated() == old(self).terminated(),
            match step {
                DrainStep::Wait => {
                    &&& *final(self) == *old(self)
                    &&& old(self).buffered().len() == 0
                },
                DrainStep::Bytes(v) => {
                    &&& old(self).buffered().len() > 0
                    &&& v@.len() == vstd::math::min(max as int, old(self).buffered().len() as int)
                    &&& v@ == old(self).buffered().take(v@.len() as int)
                    &&& final(self).buffered() == old(self).buffered().skip(v@.len() as int)
                    &&& final(self).ready() == (if final(self).buffered().len()
                        < final(self).capacity() {
                        Readiness::Writable
                    } else {
                        Readiness::Empty
                    })
                },
            },
    {
        proof {
            lemma_contents_length(self.consumer, self.ring);
            assert(spsc_wf(self.producer, self.consumer, self.ring));
        }
        if self.consumer.is_empty(&self.ring) {
            return DrainStep::Wait;
        }
        let was_full = self.consumer.is_full(&self.ring);
        let mut tmp: Vec<u8> = Vec::new();
        let mut i: usize = 0;
        while i < max
            invariant
                i <= max,
                tmp@.len() == i,
            decreases max - i,
        {
            tmp.push(0);
            i += 1;
        }
        let ghost zeros = tmp@;
        let n = self.consumer.read(&mut self.ring, &mut tmp);
        tmp.truncate(n);
        proof {
            assert(tmp@ =~= old(self).buffered().take(n as int));
        }
        if was_full && n > 0 {
            self.readiness = Readiness::Writable;
        }
        proof {
            lemma_contents_length(self.consumer, self.ring);
        }
        DrainStep::Bytes(tmp)
    }

    /// Bytes pushed into the ring are already on their way to the worker, so
    /// there is nothing further to flush. Changes nothing.
    pub fn flush(&mut self)
        ensures
            *final(self) == *old(self),
    {
    }

    /// Current value of the readiness cell, for the reactor mirror.
    pub fn readiness(&self) -> (r: Readiness)
        ensures
            r == self.ready(),
    {
        self.readiness
    }

    /// First step of teardown: raise the termination flag the worker checks
    /// on every loop. Changes nothing else. The caller must also wake the
    /// worker's "not empty" signal, since a parked worker cannot observe the
    /// flag.
    pub fn terminate(&mut self)
        requires
            old(self).inv(),
        ensures
            final(self).inv(),
            final(self).terminated(),
            final(self).buffered() == old(self).buffered(),
            final(self).capacity() == old(self).capacity(),
            final(self).ready() == old(self).ready(),
    {
        self.done = true;
    }

    /// Whether teardown has begun; the worker exits its loop once this holds.
    pub fn is_terminated(&self) -> (r: bool)
        ensures
            r == self.terminated(),
    {
        self.done
    }
}

/// Readiness law of the writable side: between steps the cell is `Writable`
/// exactly when the ring has room, and never `Readable`.
pub proof fn lemma_writable_quiescence(c: AnonWriteCore)
    requires
        c.inv(),
    ensures
        (c.ready() == Readiness::Writable) <==> c.buffered().len() < c.capacity(),
        c.ready() != Readiness::Readable,
{
}

} // verus!
