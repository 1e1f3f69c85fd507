//! A readiness-based adapter that makes blocking anonymous pipe handles
//! usable from a single-threaded readiness-driven reactor.
//!
//! The heart of the crate is a fixed-capacity single-producer/single-consumer
//! byte ring ([`ring`]) and the two adapter protocols built on top of it
//! ([`adapter`]): a readable side, where a worker drains a blocking pipe into
//! the ring and the user thread pops bytes out, and a writable side, where the
//! user thread pushes bytes in and a worker drains them into a blocking pipe.
//! Both sides publish readiness edges to a reactor-visible cell and close the
//! race between "buffer observed empty/full" and "readiness updated".
//!
//! Everything that decides — ring arithmetic, readiness edges, the
//! notification and termination protocol — lives here and is verified. The
//! thread spawning, condition-variable parking, pipe syscalls and reactor
//! registration are plumbing around these functions.

pub mod adapter;
pub mod ring;
