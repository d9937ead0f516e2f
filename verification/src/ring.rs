//! The bounded FIFO of 16-bit PCM samples between the audio callback and the
//! delivery thread, kept in a `ringbuf` heap ring buffer.

use ringbuf::traits::Consumer;
use ringbuf::traits::Observer;
use ringbuf::traits::Producer;
use ringbuf::HeapRb;
use vstd::prelude::*;

verus! {

/// A `ringbuf` heap ring buffer of `i16` samples, held opaquely; what it holds
/// is described by `ring_items` and `ring_capacity`.
#[verifier::external_body]
pub struct PcmRingBuffer {
    ring: HeapRb<i16>,
}

/// The samples that a ring buffer holds, oldest first.
pub uninterp spec fn ring_items(ring: PcmRingBuffer) -> Seq<i16>;

/// The capacity that a ring buffer was made with.
pub uninterp spec fn ring_capacity(ring: PcmRingBuffer) -> nat;

/// `HeapRb::new`: an empty ring buffer of the given capacity (it panics on
/// capacity zero).
#[verifier::external_body]
fn ring_new(capacity: usize) -> (ring: PcmRingBuffer)
    requires
        capacity > 0,
    ensures
        ring_items(ring) == Seq::<i16>::empty(),
        ring_capacity(ring) == capacity,
{
    PcmRingBuffer { ring: HeapRb::<i16>::new(capacity) }
}

/// `Observer::occupied_len`: the number of samples held (exact, since this
/// ring buffer is never split and so has no concurrent producer or consumer).
#[verifier::external_body]
fn ring_occupied_len(ring: &PcmRingBuffer) -> (n: usize)
    ensures
        n == ring_items(*ring).len(),
{
    ring.ring.occupied_len()
}

/// `Producer::push_slice`: appends as many of `elems` as there is room for,
/// in order, and returns how many; the rest of `elems` is not stored.
#[verifier::external_body]
fn ring_push_slice(ring: &mut PcmRingBuffer, elems: &[i16]) -> (n: usize)
    requires
        ring_items(*old(ring)).len() <= ring_capacity(*old(ring)),
    ensures
        n == (if elems@.len() <= ring_capacity(*old(ring)) - ring_items(*old(ring)).len() {
            elems@.len() as int
        } else {
            ring_capacity(*old(ring)) - ring_items(*old(ring)).len()
        }),
        ring_items(*final(ring)) == ring_items(*old(ring)) + elems@.take(n as int),
        ring_capacity(*final(ring)) == ring_capacity(*old(ring)),
{
    ring.ring.push_slice(elems)
}

/// `Consumer::skip`: drops the `min(count, len)` oldest samples and returns
/// that number (exact, with no concurrent producer).
#[verifier::external_body]
fn ring_skip(ring: &mut PcmRingBuffer, count: usize) -> (n: usize)
    ensures
        n == (if count <= ring_items(*old(ring)).len() {
            count as int
        } else {
            ring_items(*old(ring)).len() as int
        }),
        ring_items(*final(ring)) == ring_items(*old(ring)).skip(n as int),
        ring_capacity(*final(ring)) == ring_capacity(*old(ring)),
{
    ring.ring.skip(count)
}

/// `Consumer::try_pop`: removes and returns the oldest sample, or `None` when
/// the ring buffer is empty.
#[verifier::external_body]
fn ring_try_pop(ring: &mut PcmRingBuffer) -> (sample: Option<i16>)
    ensures
        ring_items(*old(ring)).len() == 0 ==> sample is None && ring_items(*final(ring))
            == ring_items(*old(ring)),
        ring_items(*old(ring)).len() > 0 ==> sample == Some(ring_items(*old(ring))[0])
            && ring_items(*final(ring)) == ring_items(*old(ring)).drop_first(),
        ring_capacity(*final(ring)) == ring_capacity(*old(ring)),
{
    ring.ring.try_pop()
}

/// Maximum ring buffer capacity in samples (two seconds at 16 kHz).
pub const RING_BUFFER_CAPACITY: usize = 32000;

/// The samples held after offering `incoming` to a ring that holds `held`:
/// those that fit are appended in order, the newest excess is dropped.
pub open spec fn after_push(held: Seq<i16>, incoming: Seq<i16>) -> Seq<i16> {
    held + incoming.take(stored_count(held.len(), incoming.len()) as int)
}

/// How many of `incoming` samples a ring holding `held` samples stores.
pub open spec fn stored_count(held: nat, incoming: nat) -> nat {
    if incoming + held <= RING_BUFFER_CAPACITY {
        incoming
    } else {
        (RING_BUFFER_CAPACITY - held) as nat
    }
}

/// Offering samples never disturbs the samples already held (they stay
/// first, in order), never makes the ring hold more than its capacity, and
/// stores every offered sample while there is room for all of them.
pub proof fn lemma_push_preserves_fifo(held: Seq<i16>, incoming: Seq<i16>)
    requires
        held.len() <= RING_BUFFER_CAPACITY,
    ensures
        after_push(held, incoming).take(held.len() as int) == held,
        after_push(held, incoming).len() <= RING_BUFFER_CAPACITY,
        held.len() + incoming.len() <= RING_BUFFER_CAPACITY ==> after_push(held, incoming) == held
            + incoming,
        held.len() == RING_BUFFER_CAPACITY ==> after_push(held, incoming) == held,
{
    assert(after_push(held, incoming).take(held.len() as int) =~= held);
    if held.len() + incoming.len() <= RING_BUFFER_CAPACITY {
        assert(incoming.take(incoming.len() as int) =~= incoming);
    }
    if held.len() == RING_BUFFER_CAPACITY {
        assert(after_push(held, incoming) =~= held);
    }
}

/// Samples come out in the order they went in: two batches offered to an
/// empty ring are drained as the first batch followed by the second, as long
/// as both fit.
pub proof fn lemma_batches_drain_in_order(first: Seq<i16>, second: Seq<i16>)
    requires
        first.len() + second.len() <= RING_BUFFER_CAPACITY,
    ensures
        after_push(after_push(Seq::<i16>::empty(), first), second) == first + second,
{
    lemma_push_preserves_fifo(Seq::<i16>::empty(), first);
    assert(Seq::<i16>::empty() + first =~= first);
    lemma_push_preserves_fifo(first, second);
}

/// The FIFO of PCM samples between the producer and the consumer.
pub struct SampleRing {
    ring: PcmRingBuffer,
}

impl View for SampleRing {
    type V = Seq<i16>;

    closed spec fn view(&self) -> Seq<i16> {
        ring_items(self.ring)
    }
}

impl SampleRing {
    pub closed spec fn wf(&self) -> bool {
        &&& ring_capacity(self.ring) == RING_BUFFER_CAPACITY
        &&& ring_items(self.ring).len() <= RING_BUFFER_CAPACITY
    }

    /// A well-formed ring never holds more than its capacity.
    pub proof fn lemma_wf_bounded(&self)
        requires
            self.wf(),
        ensures
            self@.len() <= RING_BUFFER_CAPACITY,
    {
    }

    /// An empty ring of `RING_BUFFER_CAPACITY` samples.
    pub fn new() -> (r: Self)
        ensures
            r.wf(),
            r@ == Seq::<i16>::empty(),
            r@.len() <= RING_BUFFER_CAPACITY,
    {
        SampleRing { ring: ring_new(RING_BUFFER_CAPACITY) }
    }

    /// The number of samples waiting.
    pub fn occupied_len(&self) -> (n: usize)
        requires
            self.wf(),
        ensures
            n == self@.len(),
            n <= RING_BUFFER_CAPACITY,
    {
        ring_occupied_len(&self.ring)
    }

    /// Writes as many samples as fit; the excess newest samples are dropped.
    /// Returns the number stored.
    pub fn push_slice(&mut self, samples: &[i16]) -> (n: usize)
        requires
            old(self).wf(),
        ensures
            final(self).wf(),
            n == stored_count(old(self)@.len(), samples@.len()),
            final(self)@ == after_push(old(self)@, samples@),
            old(self)@.len() <= RING_BUFFER_CAPACITY,
            final(self)@.len() <= RING_BUFFER_CAPACITY,
    {
        ring_push_slice(&mut self.ring, samples)
    }

    /// Drops every waiting sample.
    pub fn clear(&mut self)
        requires
            old(self).wf(),
        ensures
            final(self).wf(),
            final(self)@ == Seq::<i16>::empty(),
            old(self)@.len() <= RING_BUFFER_CAPACITY,
    {
        let stale_count = ring_occupied_len(&self.ring);
        let _ = ring_skip(&mut self.ring, stale_count);
        proof {
            assert(ring_items(self.ring) =~= Seq::<i16>::empty());
        }
    }

    /// Removes and returns every waiting sample, oldest first.
    pub fn pop_available(&mut self) -> (samples: Vec<i16>)
        requires
            old(self).wf(),
        ensures
            final(self).wf(),
            samples@ == old(self)@,
            samples@.len() <= RING_BUFFER_CAPACITY,
            final(self)@ == Seq::<i16>::empty(),
    {
        let available = ring_occupied_len(&self.ring);
        let mut samples: Vec<i16> = Vec::new();
        let ghost start = self@;
        let mut taken: usize = 0;
        while taken < available
            invariant
                self.wf(),
                available == start.len(),
                taken <= available,
                samples@ == start.take(taken as int),
                self@ == start.skip(taken as int),
            decreases available - taken,
        {
            let popped = ring_try_pop(&mut self.ring);
            match popped {
                Some(sample) => {
                    samples.push(sample);
                },
                None => {},
            }
            proof {
                assert(start.take(taken + 1) =~= start.take(taken as int).push(start[taken as int]));
                assert(start.skip(taken as int).drop_first() =~= start.skip(taken + 1));
            }
            taken = taken + 1;
        }
        proof {
            assert(start.take(available as int) =~= start);
            assert(start.skip(available as int) =~= Seq::<i16>::empty());
        }
        samples
    }
}

} // verus!
