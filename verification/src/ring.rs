//! The sample ring between the capture thread and the render thread.
//!
//! The ring itself is `ringbuf`'s heap ring buffer. One thread holds the
//! producing end, another the consuming end, and either may run at any time, so
//! what an end promises is what no activity of the other end can undo: the
//! items that went through this end so far, in order, and a lower bound on the
//! free or waiting places.
//!
//! Items are samples as the bit patterns of single-precision numbers.

use ringbuf::traits::{Consumer, Observer, Producer, Split};
use ringbuf::{HeapCons, HeapProd, HeapRb};
use vstd::prelude::*;

verus! {

/// A ring that has not been split into its two ends yet.
#[verifier::external_body]
pub struct SampleRing {
    inner: HeapRb<u32>,
}

/// The end that puts samples in.
#[verifier::external_body]
pub struct SampleProducer {
    inner: HeapProd<u32>,
}

/// The end that takes samples out.
#[verifier::external_body]
pub struct SampleConsumer {
    inner: HeapCons<u32>,
}

/// How many samples an unsplit ring can hold.
pub uninterp spec fn ring_capacity(ring: SampleRing) -> nat;

/// How many samples the ring of this consuming end can hold.
pub uninterp spec fn consumer_capacity(consumer: SampleConsumer) -> nat;

/// The samples that the producing end has put in so far, oldest first.
pub uninterp spec fn pushed(producer: SampleProducer) -> Seq<u32>;

/// The samples that the consuming end has taken out so far, oldest first.
pub uninterp spec fn popped(consumer: SampleConsumer) -> Seq<u32>;

/// Places that the producing end knows to be free. The consumer can only add
/// to them.
pub uninterp spec fn room(producer: SampleProducer) -> nat;

/// Samples that the consuming end knows to be waiting. The producer can only
/// add to them.
pub uninterp spec fn waiting(consumer: SampleConsumer) -> nat;

/// The samples that the ring of this producing end carries over its life, by
/// position.
pub uninterp spec fn producer_lane(producer: SampleProducer) -> Map<int, u32>;

/// The samples that the ring of this consuming end carries over its life, by
/// position.
pub uninterp spec fn consumer_lane(consumer: SampleConsumer) -> Map<int, u32>;

/// The samples `items` are those that the lane carries at its first positions.
pub open spec fn in_order(lane: Map<int, u32>, items: Seq<u32>) -> bool {
    forall|k: int| 0 <= k < items.len() ==> items[k] == #[trigger] lane[k]
}

/// The smaller of two counts.
pub open spec fn smaller(a: nat, b: nat) -> nat {
    if a <= b {
        a
    } else {
        b
    }
}

/// Makes an empty ring: `ringbuf::HeapRb::new`.
///
/// The call allocates the places at once, exactly as many as asked for. It panics
/// on a capacity of zero and on one whose places cannot be addressed, and gives up
/// the program where memory runs out.
#[verifier::external_body]
pub(crate) fn new_ring(capacity: usize) -> (ring: SampleRing)
    requires
        0 < capacity <= isize::MAX / 4,
    ensures
        ring_capacity(ring) == capacity,
{
    SampleRing { inner: HeapRb::<u32>::new(capacity) }
}

/// Splits an empty ring into its ends: `ringbuf::traits::Split::split`.
///
/// Nothing went through either end yet, every place is free, and both ends
/// belong to one ring.
#[verifier::external_body]
pub(crate) fn split_ring(ring: SampleRing) -> (ends: (SampleProducer, SampleConsumer))
    ensures
        pushed(ends.0).len() == 0,
        popped(ends.1).len() == 0,
        room(ends.0) == ring_capacity(ring),
        waiting(ends.1) == 0,
        consumer_capacity(ends.1) == ring_capacity(ring),
        producer_lane(ends.0) == consumer_lane(ends.1),
{
    let (producer, consumer) = ring.inner.split();
    (SampleProducer { inner: producer }, SampleConsumer { inner: consumer })
}

/// Appends samples from the front of `samples`: `ringbuf::traits::Producer::push_slice`.
///
/// As many go in as there are free places, in order; the rest is left out. The
/// count that went in is returned. How many places were free beyond those known
/// before depends on the other thread and is not stated.
#[verifier::external_body]
pub(crate) fn push_slice(producer: &mut SampleProducer, samples: &Vec<u32>) -> (count: usize)
    ensures
        count <= samples@.len(),
        count >= smaller(samples@.len(), room(*old(producer))),
        pushed(*final(producer)) == pushed(*old(producer)) + samples@.take(count as int),
        room(*final(producer)) >= room(*old(producer)) - count,
        producer_lane(*final(producer)) == producer_lane(*old(producer)),
        in_order(producer_lane(*final(producer)), pushed(*final(producer))),
{
    producer.inner.push_slice(samples.as_slice())
}

/// Counts the waiting samples: `ringbuf::traits::Observer::occupied_len`.
///
/// The consuming end then knows of exactly these. There are no more than the ring
/// can hold. How many arrived since the end last looked depends on the other thread
/// and is not stated.
#[verifier::external_body]
pub(crate) fn occupied_len(consumer: &mut SampleConsumer) -> (count: usize)
    ensures
        count >= waiting(*old(consumer)),
        count <= consumer_capacity(*old(consumer)),
        waiting(*final(consumer)) == count,
        consumer_capacity(*final(consumer)) == consumer_capacity(*old(consumer)),
        popped(*final(consumer)) == popped(*old(consumer)),
        consumer_lane(*final(consumer)) == consumer_lane(*old(consumer)),
{
    consumer.inner.occupied_len()
}

/// Moves waiting samples to the front of `out`: `ringbuf::traits::Consumer::pop_slice`.
///
/// At least the samples known to be waiting are moved, as far as `out` has
/// places, in the order in which they went into the ring; places of `out`
/// behind them keep their value. What the end knows to be waiting afterwards is no
/// more than the ring can hold.
#[verifier::external_body]
pub(crate) fn pop_slice(consumer: &mut SampleConsumer, out: &mut Vec<u32>) -> (count: usize)
    ensures
        count <= old(out)@.len(),
        count >= smaller(old(out)@.len(), waiting(*old(consumer))),
        final(out)@.len() == old(out)@.len(),
        final(out)@.skip(count as int) == old(out)@.skip(count as int),
        popped(*final(consumer)) == popped(*old(consumer)) + final(out)@.take(count as int),
        waiting(*final(consumer)) >= waiting(*old(consumer)) - count,
        waiting(*final(consumer)) <= consumer_capacity(*final(consumer)),
        consumer_capacity(*final(consumer)) == consumer_capacity(*old(consumer)),
        consumer_lane(*final(consumer)) == consumer_lane(*old(consumer)),
        in_order(consumer_lane(*final(consumer)), popped(*final(consumer))),
{
    consumer.inner.pop_slice(out.as_mut_slice())
}

/// First in, first out: where the two ends of one ring have both seen a
/// position, the sample taken out there is the sample put in there.
pub proof fn samples_come_out_in_order(producer: SampleProducer, consumer: SampleConsumer, k: int)
    requires
        producer_lane(producer) == consumer_lane(consumer),
        in_order(producer_lane(producer), pushed(producer)),
        in_order(consumer_lane(consumer), popped(consumer)),
        0 <= k < pushed(producer).len(),
        k < popped(consumer).len(),
    ensures
        popped(consumer)[k] == pushed(producer)[k],
{
    assert(pushed(producer)[k] == producer_lane(producer)[k]);
    assert(popped(consumer)[k] == consumer_lane(consumer)[k]);
}

} // verus!
