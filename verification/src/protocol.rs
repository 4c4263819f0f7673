//! The user-facing protocol as a whole: what a node answers to a run of
//! received bytes, and that a well-formed expression is echoed and answered
//! with its value.

use crate::calculator::{
    apply_operator, is_operator, lemma_after_preserves_wf, CalculatorState, Expression,
};
use crate::channel::{lemma_offered_keeps_what_fits, CAPACITY};
use crate::decimal::decimal_digits;
use crate::node::{
    lemma_node_steps_preserve_wf, lemma_reply_is_decimal, received, response, NodeState,
    CARRIAGE_RETURN, LINE_FEED, TERMINATOR,
};
use crate::operand::{
    all_digits, decimal_value, is_digit, lemma_operand_parses, OPERAND_CAPACITY,
};
use vstd::prelude::*;

verus! {

/// The characters that a run of bytes stands for.
pub open spec fn as_chars(bytes: Seq<u8>) -> Seq<char> {
    bytes.map_values(|byte: u8| byte as char)
}

/// The expression after each byte of `bytes` was received in turn.
pub open spec fn received_all(expression: Expression, bytes: Seq<u8>) -> Expression
    decreases bytes.len(),
{
    if bytes.len() == 0 {
        expression
    } else {
        received(received_all(expression, bytes.drop_last()), bytes.last())
    }
}

/// Everything the node sends while it receives `bytes` in turn, provided the
/// channel has room: the responses to the single bytes, one after the other.
pub open spec fn responses(expression: Expression, bytes: Seq<u8>) -> Seq<u8>
    decreases bytes.len(),
{
    if bytes.len() == 0 {
        Seq::empty()
    } else {
        responses(expression, bytes.drop_last()) + response(
            received_all(expression, bytes.drop_last()),
            bytes.last(),
        )
    }
}

/// The state of a node after its receive half has handled each byte of
/// `bytes` in turn, with no transmit in between.
pub open spec fn node_received_all(state: NodeState, bytes: Seq<u8>) -> NodeState
    decreases bytes.len(),
{
    if bytes.len() == 0 {
        state
    } else {
        node_received_all(state, bytes.drop_last()).after_receive(bytes.last())
    }
}

/// While the channel has room for them, all responses to a run of received
/// bytes are pending in the order in which they arose, behind what was
/// pending before.
pub proof fn lemma_responses_are_pending(state: NodeState, bytes: Seq<u8>)
    requires
        state.wf(),
        state.bridge.pending.len() + responses(state.expression, bytes).len() <= CAPACITY,
    ensures
        node_received_all(state, bytes).wf(),
        node_received_all(state, bytes).expression == received_all(state.expression, bytes),
        node_received_all(state, bytes).bridge.pending == state.bridge.pending + responses(
            state.expression,
            bytes,
        ),
    decreases bytes.len(),
{
    if bytes.len() == 0 {
        assert(state.bridge.pending + responses(state.expression, bytes)
            =~= state.bridge.pending);
    } else {
        let head = bytes.drop_last();
        lemma_responses_are_pending(state, head);
        let before = node_received_all(state, head);
        let answer = response(before.expression, bytes.last());
        lemma_node_steps_preserve_wf(before, bytes.last());
        lemma_offered_keeps_what_fits(before.bridge.pending, answer);
        assert(before.bridge.pending + answer =~= state.bridge.pending + responses(
            state.expression,
            bytes,
        ));
    }
}

/// A run of one byte is handled as that byte is.
pub proof fn lemma_received_one(expression: Expression, byte: u8)
    ensures
        received_all(expression, seq![byte]) == received(expression, byte),
        responses(expression, seq![byte]) == response(expression, byte),
{
    let run = seq![byte];
    assert(run.drop_last() =~= Seq::<u8>::empty());
    assert(received_all(expression, run.drop_last()) == expression);
    assert(responses(expression, run.drop_last()) =~= Seq::<u8>::empty());
    assert(responses(expression, run) =~= response(expression, byte));
}

/// Receiving one run of bytes after another is receiving both runs on end.
pub proof fn lemma_received_in_parts(expression: Expression, head: Seq<u8>, tail: Seq<u8>)
    ensures
        received_all(expression, head + tail) == received_all(
            received_all(expression, head),
            tail,
        ),
        responses(expression, head + tail) == responses(expression, head) + responses(
            received_all(expression, head),
            tail,
        ),
    decreases tail.len(),
{
    if tail.len() == 0 {
        assert(head + tail =~= head);
        assert(responses(expression, head) + Seq::<u8>::empty() =~= responses(expression, head));
    } else {
        lemma_received_in_parts(expression, head, tail.drop_last());
        assert((head + tail).drop_last() =~= head + tail.drop_last());
        let middle = received_all(expression, head);
        assert(responses(expression, head + tail) =~= responses(expression, head) + responses(
            middle,
            tail,
        ));
    }
}

/// A run of digits that fits into the awaited operand is taken up by that
/// operand and echoed as it stands.
pub proof fn lemma_digits_are_taken(expression: Expression, digits: Seq<u8>)
    requires
        expression.wf(),
        all_digits(as_chars(digits)),
        match expression.phase {
            CalculatorState::AwaitingFirstOperand => expression.first_operand.len() + digits.len()
                <= OPERAND_CAPACITY,
            CalculatorState::AwaitingSecondOperand => expression.second_operand.len()
                + digits.len() <= OPERAND_CAPACITY,
        },
    ensures
        responses(expression, digits) == digits,
        received_all(expression, digits) == match expression.phase {
            CalculatorState::AwaitingFirstOperand => Expression {
                first_operand: expression.first_operand + as_chars(digits),
                ..expression
            },
            CalculatorState::AwaitingSecondOperand => Expression {
                second_operand: expression.second_operand + as_chars(digits),
                ..expression
            },
        },
        received_all(expression, digits).wf(),
    decreases digits.len(),
{
    if digits.len() == 0 {
        assert(expression.first_operand + as_chars(digits) =~= expression.first_operand);
        assert(expression.second_operand + as_chars(digits) =~= expression.second_operand);
    } else {
        let head = digits.drop_last();
        let last = digits.last();
        assert forall|i: int| 0 <= i < head.len() implies is_digit(
            #[trigger] as_chars(head)[i],
        ) by {
            assert(as_chars(head)[i] == as_chars(digits)[i]);
        }
        lemma_digits_are_taken(expression, head);
        let before = received_all(expression, head);
        assert(as_chars(digits)[digits.len() - 1] == last as char);
        assert(is_digit(last as char));
        assert(last != TERMINATOR);
        assert(before.accepts(last as char));
        lemma_after_preserves_wf(before, last as char);
        assert(as_chars(digits) =~= as_chars(head).push(last as char));
        assert(expression.first_operand + as_chars(digits) =~= (expression.first_operand
            + as_chars(head)).push(last as char));
        assert(expression.second_operand + as_chars(digits) =~= (expression.second_operand
            + as_chars(head)).push(last as char));
        assert(responses(expression, digits) =~= digits);
    }
}

/// A fresh node that receives up to four digits, an operator symbol, up to
/// four more digits and the terminator echoes every one of these bytes but
/// the terminator, then sends the terminator, the value of the expression in
/// decimal without leading zeros and a line ending, and is fresh again.
pub proof fn lemma_expression_is_echoed_and_answered(
    first: Seq<u8>,
    operator: u8,
    second: Seq<u8>,
)
    requires
        first.len() <= OPERAND_CAPACITY,
        second.len() <= OPERAND_CAPACITY,
        all_digits(as_chars(first)),
        all_digits(as_chars(second)),
        is_operator(operator as char),
    ensures
        ({
            let input = first + seq![operator] + second + seq![TERMINATOR];
            let value = apply_operator(
                operator as char,
                decimal_value(as_chars(first)) as u32,
                decimal_value(as_chars(second)) as u32,
            );
            &&& responses(Expression::initial(), input) == first + seq![operator] + second
                + seq![TERMINATOR] + decimal_digits(value as nat) + seq![
                CARRIAGE_RETURN,
                LINE_FEED,
            ]
            &&& received_all(Expression::initial(), input) == Expression::initial()
        }),
{
    let fresh = Expression::initial();
    let e1 = received_all(fresh, first);
    lemma_digits_are_taken(fresh, first);
    assert(fresh.first_operand + as_chars(first) =~= as_chars(first));

    let op = seq![operator];
    let e2 = received_all(e1, op);
    lemma_received_one(e1, operator);
    assert(operator != TERMINATOR);
    assert(e1.accepts(operator as char));
    assert(!is_digit(operator as char));
    assert(e2 == Expression {
        operator: operator as char,
        phase: CalculatorState::AwaitingSecondOperand,
        ..e1
    });
    assert(responses(e1, op) =~= op);
    lemma_after_preserves_wf(e1, operator as char);

    let e3 = received_all(e2, second);
    lemma_digits_are_taken(e2, second);
    assert(e2.second_operand + as_chars(second) =~= as_chars(second));

    let end = seq![TERMINATOR];
    lemma_received_one(e3, TERMINATOR);
    lemma_reply_is_decimal(e3);
    lemma_operand_parses(as_chars(first));
    lemma_operand_parses(as_chars(second));

    lemma_received_in_parts(fresh, first, op);
    lemma_received_in_parts(fresh, first + op, second);
    lemma_received_in_parts(fresh, first + op + second, end);
    let value = e3.evaluate();
    assert(responses(fresh, first + op + second + end) =~= first + op + second + end
        + decimal_digits(value as nat) + seq![CARRIAGE_RETURN, LINE_FEED]);
}

/// A fresh node that receives up to four digits and the terminator echoes
/// the digits, then sends the terminator, the number they denote in decimal
/// without leading zeros and a line ending, and is fresh again.
pub proof fn lemma_number_is_echoed_and_answered(digits: Seq<u8>)
    requires
        digits.len() <= OPERAND_CAPACITY,
        all_digits(as_chars(digits)),
    ensures
        ({
            let input = digits + seq![TERMINATOR];
            &&& responses(Expression::initial(), input) == digits + seq![TERMINATOR]
                + decimal_digits(decimal_value(as_chars(digits))) + seq![
                CARRIAGE_RETURN,
                LINE_FEED,
            ]
            &&& received_all(Expression::initial(), input) == Expression::initial()
        }),
{
    let fresh = Expression::initial();
    let e1 = received_all(fresh, digits);
    lemma_digits_are_taken(fresh, digits);
    assert(fresh.first_operand + as_chars(digits) =~= as_chars(digits));
    let end = seq![TERMINATOR];
    lemma_received_one(e1, TERMINATOR);
    lemma_reply_is_decimal(e1);
    lemma_operand_parses(as_chars(digits));
    lemma_received_in_parts(fresh, digits, end);
    assert(responses(fresh, digits + end) =~= digits + end + decimal_digits(
        decimal_value(as_chars(digits)),
    ) + seq![CARRIAGE_RETURN, LINE_FEED]);
}

} // verus!
