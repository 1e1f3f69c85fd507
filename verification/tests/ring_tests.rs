use mio_anonymous_pipes::ring::spsc_stream;

/// Pushing `k <= C` bytes into an empty ring and popping them back yields
/// exactly those bytes in order.
#[test]
fn round_trip_within_capacity() {
    let (mut producer, mut consumer, mut ring) = spsc_stream(16);
    let src: Vec<u8> = b"abcdef".to_vec();
    let n = producer.write(&mut ring, &src);
    assert_eq!(n, 6);
    let mut dst = vec![0u8; 16];
    let m = consumer.read(&mut ring, &mut dst);
    assert_eq!(m, 6);
    assert_eq!(&dst[..6], b"abcdef");
    assert!(consumer.is_empty(&ring));
}

/// Wrap correctness: advance the cursors to C/2 on a capacity-10 ring, then
/// push and pop a full capacity of bytes; the recovered sequence equals the
/// input.
#[test]
fn wrap_from_half_capacity() {
    let (mut producer, mut consumer, mut ring) = spsc_stream(10);
    let pad = [0xAAu8; 5];
    assert_eq!(producer.write(&mut ring, &pad), 5);
    let mut sink = vec![0u8; 5];
    assert_eq!(consumer.read(&mut ring, &mut sink), 5);

    let src: Vec<u8> = (0u8..10).collect();
    assert_eq!(producer.write(&mut ring, &src), 10);
    assert!(producer.is_full(&ring));
    let mut dst = vec![0u8; 10];
    assert_eq!(consumer.read(&mut ring, &mut dst), 10);
    assert_eq!(dst, src);
    assert!(consumer.is_empty(&ring));
}

/// Capacity 10: push 6, pop 6 (the read cursor advances to 6), push 8 so the
/// write wraps past the end, pop 8; the recovered bytes equal the second
/// push, in order.
#[test]
fn wraparound_sequence() {
    let (mut producer, mut consumer, mut ring) = spsc_stream(10);
    let first: Vec<u8> = vec![9, 9, 9, 9, 9, 9];
    assert_eq!(producer.write(&mut ring, &first), 6);
    let mut sink = vec![0u8; 6];
    assert_eq!(consumer.read(&mut ring, &mut sink), 6);
    assert_eq!(&sink[..], &first[..]);

    let second: Vec<u8> = vec![10, 20, 30, 40, 50, 60, 70, 80];
    assert_eq!(producer.write(&mut ring, &second), 8);
    let mut dst = vec![0u8; 8];
    assert_eq!(consumer.read(&mut ring, &mut dst), 8);
    assert_eq!(dst, second);
}

/// Short counts are the backpressure signal: a push into a full ring and a
/// pop from an empty ring both return 0, and a push never accepts more than
/// the free room.
#[test]
fn short_counts_when_full_or_empty() {
    let (mut producer, mut consumer, mut ring) = spsc_stream(4);
    let mut empty_dst = vec![0u8; 4];
    assert_eq!(consumer.read(&mut ring, &mut empty_dst), 0);

    assert_eq!(producer.write(&mut ring, &[1, 2, 3]), 3);
    assert_eq!(producer.write(&mut ring, &[4, 5, 6]), 1);
    assert!(producer.is_full(&ring));
    assert!(consumer.is_full(&ring));
    assert_eq!(producer.write(&mut ring, &[7]), 0);

    let mut dst = vec![0u8; 4];
    assert_eq!(consumer.read(&mut ring, &mut dst), 4);
    assert_eq!(dst, vec![1, 2, 3, 4]);
    assert_eq!(producer.write(&mut ring, &[]), 0);
}

/// Conservation: across an interleaved sequence of pushes and pops the
/// accepted counts minus the emitted counts always equal the live length,
/// which never exceeds the capacity.
#[test]
fn conservation_across_interleaving() {
    let (mut producer, mut consumer, mut ring) = spsc_stream(8);
    let mut live: usize = 0;

    let n1 = producer.write(&mut ring, &[1; 5]);
    live += n1;
    assert_eq!(n1, 5);

    let mut d1 = vec![0u8; 2];
    let m1 = consumer.read(&mut ring, &mut d1);
    live -= m1;
    assert_eq!(m1, 2);

    let n2 = producer.write(&mut ring, &[2; 6]);
    live += n2;
    assert_eq!(n2, 5);
    assert_eq!(live, 8);
    assert!(producer.is_full(&ring));

    let mut d2 = vec![0u8; 8];
    let m2 = consumer.read(&mut ring, &mut d2);
    live -= m2;
    assert_eq!(m2, 8);
    assert_eq!(live, 0);
    assert!(consumer.is_empty(&ring));
}

/// Byte-exactness: the concatenation of everything popped equals the
/// concatenation of everything the pushes accepted, in order.
#[test]
fn byte_exact_fifo_across_interleaving() {
    let (mut producer, mut consumer, mut ring) = spsc_stream(5);
    let stream: Vec<u8> = (1u8..=23).collect();
    let mut offered = 0usize;
    let mut accepted: Vec<u8> = Vec::new();
    let mut emitted: Vec<u8> = Vec::new();

    while offered < stream.len() || !consumer.is_empty(&ring) {
        if offered < stream.len() {
            let hi = (offered + 3).min(stream.len());
            let n = producer.write(&mut ring, &stream[offered..hi]);
            accepted.extend_from_slice(&stream[offered..offered + n]);
            offered += n;
        }
        let mut dst = vec![0u8; 2];
        let m = consumer.read(&mut ring, &mut dst);
        emitted.extend_from_slice(&dst[..m]);
    }
    assert_eq!(accepted, stream);
    assert_eq!(emitted, stream);
}

/// A producer flush changes nothing: bytes already pushed stay visible, no
/// more appear.
#[test]
fn producer_flush_is_noop() {
    let (mut producer, mut consumer, mut ring) = spsc_stream(4);
    assert_eq!(producer.write(&mut ring, &[5, 6]), 2);
    producer.flush();
    let mut dst = vec![0u8; 4];
    assert_eq!(consumer.read(&mut ring, &mut dst), 2);
    assert_eq!(&dst[..2], &[5, 6]);
}
