//! Calculator node: the peripheral's receive and transmit halves. Received
//! bytes drive the calculator engine; echoes and replies leave through a
//! transport bridge.

use crate::bridge::{BridgeState, TransmitOutcome, TransportBridge};
use crate::calculator::{lemma_evaluate_is_exact, CalculatorStateMachine, Expression};
use crate::channel::{front, lemma_offered_keeps_what_fits, lemma_offered_push, offered};
use crate::decimal::{
    decimal_digits, digit_chars, int_to_chars, lemma_significant_is_decimal, significant, ZERO,
};
use vstd::prelude::*;

verus! {

/// The terminator `=`, which ends an expression and opens the reply.
pub const TERMINATOR: u8 = 61;

/// Carriage return, the first byte of the line ending of a reply.
pub const CARRIAGE_RETURN: u8 = 13;

/// Line feed, the second byte of the line ending of a reply.
pub const LINE_FEED: u8 = 10;

/// The reply to an expression of value `result`: the terminator, the result
/// in decimal without leading zeros, and a line ending.
pub open spec fn reply(result: u32) -> Seq<u8> {
    seq![TERMINATOR] + significant(digit_chars(result)) + seq![CARRIAGE_RETURN, LINE_FEED]
}

/// The bytes that a received byte makes the node send: the reply for a
/// terminator, the byte itself as an echo where the engine accepts it, and
/// nothing where the engine rejects it.
pub open spec fn response(expression: Expression, byte: u8) -> Seq<u8> {
    if byte == TERMINATOR {
        reply(expression.evaluate())
    } else if expression.accepts(byte as char) {
        seq![byte]
    } else {
        Seq::empty()
    }
}

/// The expression after the receive half has handled `byte`: a terminator
/// resets it, any other byte is fed to it as a character.
pub open spec fn received(expression: Expression, byte: u8) -> Expression {
    if byte == TERMINATOR {
        Expression::initial()
    } else {
        expression.after(byte as char)
    }
}

/// The state of a node, as plain values.
pub struct NodeState {
    /// The expression entered so far.
    pub expression: Expression,
    /// The outgoing bridge.
    pub bridge: BridgeState,
}

impl NodeState {
    /// The state of a freshly created node.
    pub open spec fn initial() -> NodeState {
        NodeState { expression: Expression::initial(), bridge: BridgeState::initial() }
    }

    /// Both parts are well-formed.
    pub open spec fn wf(self) -> bool {
        self.expression.wf() && self.bridge.wf()
    }

    /// The state after the receive half has handled `byte`: the expression
    /// takes the byte, and the response is offered to the channel byte by
    /// byte.
    pub open spec fn after_receive(self, byte: u8) -> NodeState {
        let pending = offered(self.bridge.pending, response(self.expression, byte));
        NodeState {
            expression: received(self.expression, byte),
            bridge: BridgeState { pending, transmit_enabled: pending.len() > 0 },
        }
    }

    /// The state after the transmit half has run.
    pub open spec fn after_transmit(self) -> NodeState {
        NodeState { bridge: self.bridge.after_transmit(), ..self }
    }
}

/// The peripheral: a calculator engine fed by one bus, answering on another.
pub struct CalculatorNode {
    calculator: CalculatorStateMachine,
    bridge: TransportBridge,
}

impl View for CalculatorNode {
    type V = NodeState;

    closed spec fn view(&self) -> NodeState {
        NodeState { expression: self.calculator@, bridge: self.bridge@ }
    }
}

impl CalculatorNode {
    /// Well-formedness of the node is that of its state.
    pub open spec fn wf(&self) -> bool {
        self@.wf()
    }

    /// Creates a node with a fresh engine and an empty bridge.
    pub fn new() -> (node: Self)
        ensures
            node.wf(),
            node@ == NodeState::initial(),
    {
        CalculatorNode {
            calculator: CalculatorStateMachine::default(),
            bridge: TransportBridge::new(),
        }
    }

    /// Receive half: handles one byte read from the receiving bus and tells
    /// whether the caller is to enable the transmit trigger, which is the case
    /// when the channel went from empty to non-empty.
    pub fn on_receive(&mut self, byte: u8) -> (enable_transmit: bool)
        requires
            old(self).wf(),
        ensures
            final(self).wf(),
            final(self)@ == old(self)@.after_receive(byte),
            enable_transmit <==> old(self)@.bridge.pending.len() == 0
                && final(self)@.bridge.pending.len() > 0,
    {
        let was_enabled: bool = self.bridge.transmit_enabled();
        if byte == TERMINATOR {
            let result: u32 = self.calculator.compute();
            self.send_reply(result);
        } else if self.calculator.transition(byte as char) {
            let _ = self.bridge.on_receive(byte);
            proof {
                lemma_offered_push(old(self)@.bridge.pending, Seq::empty(), byte);
                assert(Seq::<u8>::empty().push(byte) =~= seq![byte]);
            }
        }
        !was_enabled && self.bridge.transmit_enabled()
    }

    /// Transmit half: takes the oldest pending byte for the caller to write to
    /// the transmit register, and tells whether the caller is to disable the
    /// transmit trigger.
    pub fn on_transmit_ready(&mut self) -> (outcome: TransmitOutcome)
        requires
            old(self).wf(),
        ensures
            final(self).wf(),
            final(self)@ == old(self)@.after_transmit(),
            outcome.byte == front(old(self)@.bridge.pending),
            outcome.disable_transmit <==> final(self)@.bridge.pending.len() == 0,
    {
        self.bridge.on_transmit_ready()
    }

    /// The engine of the node.
    pub fn calculator(&self) -> (calculator: &CalculatorStateMachine)
        ensures
            calculator@ == self@.expression,
    {
        &self.calculator
    }

    /// The outgoing bridge of the node.
    pub fn bridge(&self) -> (bridge: &TransportBridge)
        ensures
            bridge@ == self@.bridge,
    {
        &self.bridge
    }

    /// Offers the reply for `result` to the bridge, byte by byte.
    fn send_reply(&mut self, result: u32)
        requires
            old(self).wf(),
        ensures
            final(self).wf(),
            final(self)@.expression == old(self)@.expression,
            final(self)@.bridge.pending == offered(old(self)@.bridge.pending, reply(result)),
    {
        let chars: [u8; 8] = int_to_chars(result);
        let ghost before = self@.bridge.pending;
        let ghost mut sent: Seq<u8> = seq![TERMINATOR];
        let mut non_zero_reached: bool = false;
        let _ = self.bridge.on_receive(TERMINATOR);
        proof {
            lemma_offered_push(before, Seq::empty(), TERMINATOR);
            assert(Seq::<u8>::empty().push(TERMINATOR) =~= sent);
            assert(chars@.skip(0) =~= chars@);
        }
        let mut i: usize = 0;
        while i < 8
            invariant
                i <= 8,
                self.wf(),
                self@.expression == old(self)@.expression,
                chars@ == digit_chars(result),
                self@.bridge.pending == offered(before, sent),
                sent.len() > 0,
                sent + (if non_zero_reached {
                    chars@.skip(i as int)
                } else {
                    significant(chars@.skip(i as int))
                }) == seq![TERMINATOR] + significant(chars@),
            decreases 8 - i,
        {
            let c: u8 = chars[i];
            let ghost rest = chars@.skip(i as int);
            assert(rest.len() == 8 - i && rest[0] == c);
            assert(rest.drop_first() =~= chars@.skip(i + 1));
            if c == ZERO && !non_zero_reached && i < 7 {
                // a leading zero is not sent
            } else {
                if c > ZERO {
                    non_zero_reached = true;
                }
                let _ = self.bridge.on_receive(c);
                proof {
                    lemma_offered_push(before, sent, c);
                    sent = sent.push(c);
                }
            }
            i += 1;
        }
        let _ = self.bridge.on_receive(CARRIAGE_RETURN);
        let _ = self.bridge.on_receive(LINE_FEED);
        proof {
            lemma_offered_push(before, sent, CARRIAGE_RETURN);
            lemma_offered_push(before, sent.push(CARRIAGE_RETURN), LINE_FEED);
            assert(chars@.skip(8) =~= Seq::<u8>::empty());
            assert(sent.push(CARRIAGE_RETURN).push(LINE_FEED) =~= reply(result));
        }
    }
}

/// The reply to a well-formed expression is the terminator, the value of the
/// expression in decimal without leading zeros, and a line ending.
pub proof fn lemma_reply_is_decimal(expression: Expression)
    requires
        expression.wf(),
    ensures
        reply(expression.evaluate()) == seq![TERMINATOR] + decimal_digits(
            expression.evaluate() as nat,
        ) + seq![CARRIAGE_RETURN, LINE_FEED],
{
    lemma_evaluate_is_exact(expression);
    lemma_significant_is_decimal(expression.evaluate());
}

/// Both halves keep a well-formed node well-formed: operands stay within
/// four digits, the channel within its capacity, and the transmit trigger is
/// enabled exactly while a byte is pending.
pub proof fn lemma_node_steps_preserve_wf(state: NodeState, byte: u8)
    requires
        state.wf(),
    ensures
        state.after_receive(byte).wf(),
        state.after_transmit().wf(),
{
    lemma_offered_keeps_what_fits(state.bridge.pending, response(state.expression, byte));
}

} // verus!
