//! Transport bridge: the receive and transmit halves that relay bytes from
//! one bus to another through a bounded channel, with the transmit trigger as
//! a back-pressure valve.

use crate::channel::{dequeued, enqueued, front, ByteChannel, CAPACITY};
use vstd::prelude::*;

verus! {

/// The state of a bridge, as plain values.
pub struct BridgeState {
    /// The bytes waiting to be transmitted, oldest first.
    pub pending: Seq<u8>,
    /// Whether the transmit trigger is enabled.
    pub transmit_enabled: bool,
}

impl BridgeState {
    /// The state of a freshly created bridge: nothing pending, trigger off.
    pub open spec fn initial() -> BridgeState {
        BridgeState { pending: Seq::empty(), transmit_enabled: false }
    }

    /// At most `CAPACITY` bytes are pending, and the transmit trigger is
    /// enabled exactly while some byte is pending.
    pub open spec fn wf(self) -> bool {
        &&& self.pending.len() <= CAPACITY
        &&& self.transmit_enabled <==> self.pending.len() > 0
    }

    /// The state after the receive half has handled `byte`.
    pub open spec fn after_receive(self, byte: u8) -> BridgeState {
        BridgeState { pending: enqueued(self.pending, byte), transmit_enabled: true }
    }

    /// The state after the transmit half has run.
    pub open spec fn after_transmit(self) -> BridgeState {
        BridgeState {
            pending: dequeued(self.pending),
            transmit_enabled: dequeued(self.pending).len() > 0,
        }
    }
}

/// What the receive half asks of its caller.
#[derive(Clone, Copy, Debug, PartialEq, Eq, Structural)]
pub struct ReceiveOutcome {
    /// Whether the byte was queued; a byte that found the channel full is dropped.
    pub accepted: bool,
    /// Whether to enable the transmit trigger: the channel went from empty to
    /// non-empty.
    pub enable_transmit: bool,
}

/// What the transmit half asks of its caller.
#[derive(Clone, Copy, Debug, PartialEq, Eq, Structural)]
pub struct TransmitOutcome {
    /// The byte to write to the transmit register, if any was pending.
    pub byte: Option<u8>,
    /// Whether to disable the transmit trigger: nothing is left to send.
    pub disable_transmit: bool,
}

/// One node's relay between a receiving bus and a transmitting bus.
pub struct TransportBridge {
    channel: ByteChannel,
    transmit_enabled: bool,
}

impl View for TransportBridge {
    type V = BridgeState;

    closed spec fn view(&self) -> BridgeState {
        BridgeState { pending: self.channel@, transmit_enabled: self.transmit_enabled }
    }
}

impl TransportBridge {
    /// Well-formedness of the bridge is that of its state.
    pub open spec fn wf(&self) -> bool {
        self@.wf()
    }

    /// Creates a bridge with an empty channel and the transmit trigger off.
    pub fn new() -> (bridge: Self)
        ensures
            bridge.wf(),
            bridge@ == BridgeState::initial(),
    {
        TransportBridge { channel: ByteChannel::new(), transmit_enabled: false }
    }

    /// Receive half: queues a byte read from the receiving bus. A byte that
    /// finds the channel full is dropped. The caller enables the transmit
    /// trigger when the channel was empty before.
    pub fn on_receive(&mut self, byte: u8) -> (outcome: ReceiveOutcome)
        requires
            old(self).wf(),
        ensures
            final(self).wf(),
            final(self)@ == old(self)@.after_receive(byte),
            outcome.accepted <==> old(self)@.pending.len() < CAPACITY,
            outcome.enable_transmit <==> old(self)@.pending.len() == 0,
    {
        let was_empty: bool = self.channel.is_empty();
        let accepted: bool = self.channel.try_enqueue(byte);
        if was_empty {
            self.transmit_enabled = true;
        }
        ReceiveOutcome { accepted, enable_transmit: was_empty }
    }

    /// Transmit half: takes the oldest pending byte for the caller to write to
    /// the transmit register. The caller disables the transmit trigger when
    /// the channel is empty afterwards, whether or not a byte was handed out.
    pub fn on_transmit_ready(&mut self) -> (outcome: TransmitOutcome)
        requires
            old(self).wf(),
        ensures
            final(self).wf(),
            final(self)@ == old(self)@.after_transmit(),
            outcome.byte == front(old(self)@.pending),
            outcome.disable_transmit <==> final(self)@.pending.len() == 0,
    {
        let byte: Option<u8> = self.channel.try_dequeue();
        let now_empty: bool = self.channel.is_empty();
        if now_empty {
            self.transmit_enabled = false;
        }
        TransmitOutcome { byte, disable_transmit: now_empty }
    }

    /// Whether the transmit trigger is enabled.
    pub fn transmit_enabled(&self) -> (enabled: bool)
        ensures
            enabled == self@.transmit_enabled,
    {
        self.transmit_enabled
    }

    /// Number of bytes waiting to be transmitted.
    pub fn pending(&self) -> (count: usize)
        ensures
            count == self@.pending.len(),
    {
        self.channel.len()
    }
}

/// Both halves keep a well-formed bridge well-formed: after either one the
/// transmit trigger is enabled exactly while a byte is pending.
pub proof fn lemma_bridge_steps_preserve_wf(state: BridgeState, byte: u8)
    requires
        state.wf(),
    ensures
        state.after_receive(byte).wf(),
        state.after_transmit().wf(),
{
}

} // verus!
