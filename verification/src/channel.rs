//! Bounded byte channel: the fixed-capacity FIFO that hands bytes from a
//! receive handler to a transmit handler.

use heapless::spsc::Queue;
use vstd::prelude::*;

verus! {

/// `heapless::spsc::Queue`, the statically allocated ring that backs the channel.
#[verifier::external_type_specification]
#[verifier::external_body]
#[verifier::reject_recursive_types(T)]
pub struct ExQueue<T, const N: usize>(Queue<T, N>);

/// Number of bytes the channel can hold.
pub const CAPACITY: usize = 16;

/// The bytes that a ring holds, oldest first.
pub uninterp spec fn ring_contents(ring: Queue<u8, 17>) -> Seq<u8>;

/// `Queue::new`: a fresh ring holds nothing.
#[verifier::external_body]
fn ring_new() -> (ring: Queue<u8, 17>)
    ensures
        ring_contents(ring) == Seq::<u8>::empty(),
{
    Queue::new()
}

/// `Queue::enqueue`: a ring of 17 slots keeps one slot free, so it takes the
/// byte at the back while it holds fewer than 16 and hands it back, leaving
/// the ring as it was, once it holds 16.
#[verifier::external_body]
fn ring_enqueue(ring: &mut Queue<u8, 17>, byte: u8) -> (accepted: bool)
    ensures
        accepted <==> ring_contents(*old(ring)).len() < 16,
        accepted ==> ring_contents(*final(ring)) == ring_contents(*old(ring)).push(byte),
        !accepted ==> ring_contents(*final(ring)) == ring_contents(*old(ring)),
{
    ring.enqueue(byte).is_ok()
}

/// `Queue::dequeue`: takes the oldest byte off the front, or returns `None`
/// and leaves the ring as it was when it holds nothing.
#[verifier::external_body]
fn ring_dequeue(ring: &mut Queue<u8, 17>) -> (byte: Option<u8>)
    ensures
        ring_contents(*old(ring)).len() == 0 ==> byte.is_none() && ring_contents(*final(ring))
            == ring_contents(*old(ring)),
        ring_contents(*old(ring)).len() > 0 ==> byte == Some(ring_contents(*old(ring))[0])
            && ring_contents(*final(ring)) == ring_contents(*old(ring)).drop_first(),
{
    ring.dequeue()
}

/// `Queue::is_empty`: whether the ring holds nothing.
#[verifier::external_body]
fn ring_is_empty(ring: &Queue<u8, 17>) -> (empty: bool)
    ensures
        empty <==> ring_contents(*ring).len() == 0,
{
    ring.is_empty()
}

/// `Queue::len`: the number of bytes the ring holds.
#[verifier::external_body]
fn ring_len(ring: &Queue<u8, 17>) -> (len: usize)
    ensures
        len == ring_contents(*ring).len(),
{
    ring.len()
}

/// What the channel holds after an attempt to enqueue `byte`: the byte joins
/// the back unless the channel is full, in which case nothing changes.
pub open spec fn enqueued(pending: Seq<u8>, byte: u8) -> Seq<u8> {
    if pending.len() < CAPACITY {
        pending.push(byte)
    } else {
        pending
    }
}

/// The byte that a dequeue hands out: the oldest one, if there is any.
pub open spec fn front(pending: Seq<u8>) -> Option<u8> {
    if pending.len() > 0 {
        Some(pending[0])
    } else {
        None
    }
}

/// What the channel holds after a dequeue.
pub open spec fn dequeued(pending: Seq<u8>) -> Seq<u8> {
    if pending.len() > 0 {
        pending.drop_first()
    } else {
        pending
    }
}

/// What the channel holds after each byte of `bytes` was offered to it in
/// turn: the bytes join the back for as long as there is room.
pub open spec fn offered(pending: Seq<u8>, bytes: Seq<u8>) -> Seq<u8>
    decreases bytes.len(),
{
    if bytes.len() == 0 {
        pending
    } else {
        enqueued(offered(pending, bytes.drop_last()), bytes.last())
    }
}

/// A fixed-capacity FIFO of bytes with one producer and one consumer.
///
/// Its view is the sequence of pending bytes, oldest first.
pub struct ByteChannel {
    ring: Queue<u8, 17>,
}

impl View for ByteChannel {
    type V = Seq<u8>;

    closed spec fn view(&self) -> Seq<u8> {
        ring_contents(self.ring)
    }
}

impl ByteChannel {
    /// The channel never holds more than `CAPACITY` bytes.
    pub open spec fn wf(&self) -> bool {
        self@.len() <= CAPACITY
    }

    /// Creates an empty channel.
    pub fn new() -> (channel: Self)
        ensures
            channel.wf(),
            channel@ == Seq::<u8>::empty(),
    {
        ByteChannel { ring: ring_new() }
    }

    /// Appends `byte` unless the channel is full. Never blocks; a full channel
    /// is left untouched and `false` is returned.
    pub fn try_enqueue(&mut self, byte: u8) -> (accepted: bool)
        requires
            old(self).wf(),
        ensures
            final(self).wf(),
            accepted <==> old(self)@.len() < CAPACITY,
            final(self)@ == enqueued(old(self)@, byte),
    {
        ring_enqueue(&mut self.ring, byte)
    }

    /// Removes and returns the oldest byte, or returns `None` when the channel
    /// is empty. Never blocks.
    pub fn try_dequeue(&mut self) -> (byte: Option<u8>)
        requires
            old(self).wf(),
        ensures
            final(self).wf(),
            byte == front(old(self)@),
            final(self)@ == dequeued(old(self)@),
    {
        ring_dequeue(&mut self.ring)
    }

    /// Whether no byte is pending.
    pub fn is_empty(&self) -> (empty: bool)
        ensures
            empty <==> self@.len() == 0,
    {
        ring_is_empty(&self.ring)
    }

    /// Number of pending bytes.
    pub fn len(&self) -> (occupancy: usize)
        ensures
            occupancy == self@.len(),
    {
        ring_len(&self.ring)
    }
}

/// One call on a channel, as its producer or its consumer makes it.
pub enum ChannelOp {
    /// The producer offers a byte.
    Enqueue(u8),
    /// The consumer asks for the oldest byte.
    Dequeue,
}

/// What a run of calls on a fresh channel amounts to.
pub struct ChannelHistory {
    /// The bytes still in the channel, oldest first.
    pub pending: Seq<u8>,
    /// Every byte that an enqueue accepted, in the order of the calls.
    pub accepted: Seq<u8>,
    /// Every byte that a dequeue handed out, in the order of the calls.
    pub delivered: Seq<u8>,
}

/// The history of a channel that starts empty and sees `ops`, first to last.
pub open spec fn replay(ops: Seq<ChannelOp>) -> ChannelHistory
    decreases ops.len(),
{
    if ops.len() == 0 {
        ChannelHistory { pending: Seq::empty(), accepted: Seq::empty(), delivered: Seq::empty() }
    } else {
        let before = replay(ops.drop_last());
        match ops.last() {
            ChannelOp::Enqueue(byte) => ChannelHistory {
                pending: enqueued(before.pending, byte),
                accepted: if before.pending.len() < CAPACITY {
                    before.accepted.push(byte)
                } else {
                    before.accepted
                },
                delivered: before.delivered,
            },
            ChannelOp::Dequeue => ChannelHistory {
                pending: dequeued(before.pending),
                accepted: before.accepted,
                delivered: match front(before.pending) {
                    Some(byte) => before.delivered.push(byte),
                    None => before.delivered,
                },
            },
        }
    }
}

/// Whatever calls a channel sees, in whatever order, it never holds more than
/// `CAPACITY` bytes, and the bytes it has handed out followed by the bytes it
/// still holds are exactly the bytes it accepted, in the order in which it
/// accepted them: nothing is lost, duplicated or reordered.
pub proof fn lemma_channel_is_bounded_fifo(ops: Seq<ChannelOp>)
    ensures
        replay(ops).pending.len() <= CAPACITY,
        replay(ops).accepted == replay(ops).delivered + replay(ops).pending,
    decreases ops.len(),
{
    if ops.len() > 0 {
        lemma_channel_is_bounded_fifo(ops.drop_last());
    }
    assert(replay(ops).accepted =~= replay(ops).delivered + replay(ops).pending);
}

/// Offering one more byte after a run of bytes is one more enqueue.
pub proof fn lemma_offered_push(pending: Seq<u8>, bytes: Seq<u8>, byte: u8)
    ensures
        offered(pending, bytes.push(byte)) == enqueued(offered(pending, bytes), byte),
{
    assert(bytes.push(byte).drop_last() =~= bytes);
}

/// Offering a run of bytes to a channel appends as many of them as there is
/// room for, in order, and drops the rest.
pub proof fn lemma_offered_keeps_what_fits(pending: Seq<u8>, bytes: Seq<u8>)
    requires
        pending.len() <= CAPACITY,
    ensures
        pending.len() + bytes.len() <= CAPACITY ==> offered(pending, bytes) == pending + bytes,
        pending.len() + bytes.len() > CAPACITY ==> offered(pending, bytes) == pending
            + bytes.take(CAPACITY - pending.len()),
    decreases bytes.len(),
{
    if bytes.len() > 0 {
        let head = bytes.drop_last();
        lemma_offered_keeps_what_fits(pending, head);
        if pending.len() + bytes.len() <= CAPACITY {
            assert(pending + bytes =~= (pending + head).push(bytes.last()));
        } else if pending.len() + head.len() <= CAPACITY {
            assert(bytes.take(CAPACITY - pending.len()) =~= head);
        } else {
            assert(bytes.take(CAPACITY - pending.len()) =~= head.take(CAPACITY - pending.len()));
        }
    } else {
        assert(pending + bytes =~= pending);
    }
}

} // verus!
