//! Calculator protocol engine: collects a two-operand expression one
//! character at a time and computes its unsigned 32-bit value.

use crate::operand::{
    all_digits, decimal_value, is_digit, lemma_operand_parses, operand_capacity, operand_clear,
    operand_len, operand_new, operand_parse, operand_push, operand_text, operand_to_string,
    parse_digits, OPERAND_CAPACITY,
};
use vstd::prelude::*;

verus! {

/// Which operand the engine expects input for.
#[derive(Clone, Copy, Debug, PartialEq, Eq, Structural)]
pub enum CalculatorState {
    /// Digits go to the first operand; an operator ends it.
    AwaitingFirstOperand,
    /// Digits go to the second operand.
    AwaitingSecondOperand,
}

/// Whether `c` is one of the operator symbols `+ - * /`.
pub open spec fn is_operator(c: char) -> bool {
    c == '+' || c == '-' || c == '*' || c == '/'
}

/// The value of an operand: what parsing it as a `u32` yields, and zero where
/// parsing fails.
pub open spec fn operand_value(digits: Seq<char>) -> u32 {
    match parse_digits(digits) {
        Some(value) => value,
        None => 0,
    }
}

/// The result of applying `operator` to two operand values: addition and
/// multiplication wrap modulo 2^32, subtraction stops at zero, and division
/// by zero divides by one instead.
pub open spec fn apply_operator(operator: char, first: u32, second: u32) -> u32 {
    if operator == '+' {
        ((first + second) % 0x1_0000_0000) as u32
    } else if operator == '*' {
        ((first * second) % 0x1_0000_0000) as u32
    } else if operator == '-' {
        if first >= second {
            (first - second) as u32
        } else {
            0
        }
    } else {
        if second == 0 {
            first
        } else {
            first / second
        }
    }
}

/// The expression an engine holds, as plain values.
pub struct Expression {
    /// Digits of the first operand.
    pub first_operand: Seq<char>,
    /// The operator symbol; `+` until one is entered.
    pub operator: char,
    /// Digits of the second operand.
    pub second_operand: Seq<char>,
    /// Which operand input goes to.
    pub phase: CalculatorState,
}

impl Expression {
    /// The expression of a freshly created engine.
    pub open spec fn initial() -> Expression {
        Expression {
            first_operand: Seq::empty(),
            operator: '+',
            second_operand: Seq::empty(),
            phase: CalculatorState::AwaitingFirstOperand,
        }
    }

    /// Operands hold at most four ASCII digits, the operator is one of the
    /// four symbols, and until an operator is entered the operator is `+` and
    /// the second operand is empty.
    pub open spec fn wf(self) -> bool {
        &&& self.first_operand.len() <= OPERAND_CAPACITY
        &&& self.second_operand.len() <= OPERAND_CAPACITY
        &&& all_digits(self.first_operand)
        &&& all_digits(self.second_operand)
        &&& is_operator(self.operator)
        &&& self.phase == CalculatorState::AwaitingFirstOperand ==> self.operator == '+'
            && self.second_operand.len() == 0
    }

    /// Whether `input` is accepted: a digit while the operand it goes to has
    /// room, or an operator symbol while the first operand is awaited.
    pub open spec fn accepts(self, input: char) -> bool {
        match self.phase {
            CalculatorState::AwaitingFirstOperand => (is_digit(input) && self.first_operand.len()
                < OPERAND_CAPACITY) || is_operator(input),
            CalculatorState::AwaitingSecondOperand => is_digit(input) && self.second_operand.len()
                < OPERAND_CAPACITY,
        }
    }

    /// The expression after `input`: unchanged where the input is rejected;
    /// else the digit is appended to the awaited operand, or the operator is
    /// recorded and the second operand awaited.
    pub open spec fn after(self, input: char) -> Expression {
        if !self.accepts(input) {
            self
        } else {
            match self.phase {
                CalculatorState::AwaitingFirstOperand => if is_digit(input) {
                    Expression { first_operand: self.first_operand.push(input), ..self }
                } else {
                    Expression {
                        operator: input,
                        phase: CalculatorState::AwaitingSecondOperand,
                        ..self
                    }
                },
                CalculatorState::AwaitingSecondOperand => Expression {
                    second_operand: self.second_operand.push(input),
                    ..self
                },
            }
        }
    }

    /// The value of the expression: the first operand alone while no operator
    /// was entered, else the operator applied to both operands.
    pub open spec fn evaluate(self) -> u32 {
        match self.phase {
            CalculatorState::AwaitingFirstOperand => operand_value(self.first_operand),
            CalculatorState::AwaitingSecondOperand => apply_operator(
                self.operator,
                operand_value(self.first_operand),
                operand_value(self.second_operand),
            ),
        }
    }
}

/// The expression parser and evaluator of the calculator.
pub struct CalculatorStateMachine {
    num1: heapless::String<4>,
    num2: heapless::String<4>,
    op: char,
    state: CalculatorState,
}

impl View for CalculatorStateMachine {
    type V = Expression;

    closed spec fn view(&self) -> Expression {
        Expression {
            first_operand: operand_text(self.num1),
            operator: self.op,
            second_operand: operand_text(self.num2),
            phase: self.state,
        }
    }
}

impl Default for CalculatorStateMachine {
    /// An engine that awaits the first operand, with both operands empty.
    fn default() -> (engine: Self)
        ensures
            engine@ == Expression::initial(),
    {
        Self {
            num1: operand_new(),
            num2: operand_new(),
            op: '+',
            state: CalculatorState::AwaitingFirstOperand,
        }
    }
}

impl CalculatorStateMachine {
    /// Well-formedness of the engine is that of the expression it holds.
    pub open spec fn wf(&self) -> bool {
        self@.wf()
    }

    /// Feeds one character to the engine and tells whether it was accepted.
    /// A rejected character leaves the engine as it was.
    pub fn transition(&mut self, input: char) -> (accepted: bool)
        requires
            old(self).wf(),
        ensures
            final(self).wf(),
            accepted == old(self)@.accepts(input),
            final(self)@ == old(self)@.after(input),
    {
        let digit: bool = '0' <= input && input <= '9';
        match self.state {
            CalculatorState::AwaitingFirstOperand => {
                if operand_len(&self.num1) < operand_capacity(&self.num1) && digit {
                    let _ = operand_push(&mut self.num1, input);
                    true
                } else if input == '+' || input == '-' || input == '*' || input == '/' {
                    self.op = input;
                    self.state = CalculatorState::AwaitingSecondOperand;
                    true
                } else {
                    false
                }
            },
            CalculatorState::AwaitingSecondOperand => {
                if operand_len(&self.num2) < operand_capacity(&self.num2) && digit {
                    let _ = operand_push(&mut self.num2, input);
                    true
                } else {
                    false
                }
            },
        }
    }

    /// Computes the value of the expression entered so far and resets the
    /// engine to its initial state. The value has at most eight digits.
    pub fn compute(&mut self) -> (result: u32)
        requires
            old(self).wf(),
        ensures
            final(self).wf(),
            result == old(self)@.evaluate(),
            result < 100_000_000,
            final(self)@ == Expression::initial(),
    {
        proof {
            lemma_evaluate_is_exact(self@);
        }
        let first: u32 = operand_parse(&self.num1).unwrap_or(0);
        let result: u32 = match self.state {
            CalculatorState::AwaitingFirstOperand => first,
            CalculatorState::AwaitingSecondOperand => {
                let second: u32 = operand_parse(&self.num2).unwrap_or(0);
                if self.op == '+' {
                    first.wrapping_add(second)
                } else if self.op == '*' {
                    first.wrapping_mul(second)
                } else if self.op == '-' {
                    first.saturating_sub(second)
                } else {
                    let divisor: u32 = if second == 0 {
                        1
                    } else {
                        second
                    };
                    first / divisor
                }
            },
        };
        self.state = CalculatorState::AwaitingFirstOperand;
        self.op = '+';
        operand_clear(&mut self.num1);
        operand_clear(&mut self.num2);
        result
    }

    /// The digits of the first operand entered so far.
    pub fn first_operand(&self) -> (text: String)
        ensures
            text@ == self@.first_operand,
    {
        operand_to_string(&self.num1)
    }

    /// The digits of the second operand entered so far.
    pub fn second_operand(&self) -> (text: String)
        ensures
            text@ == self@.second_operand,
    {
        operand_to_string(&self.num2)
    }

    /// The operator symbol; `+` until one is entered.
    pub fn operator(&self) -> (symbol: char)
        ensures
            symbol == self@.operator,
    {
        self.op
    }

    /// Which operand the engine expects input for.
    pub fn phase(&self) -> (phase: CalculatorState)
        ensures
            phase == self@.phase,
    {
        self.state
    }
}

/// Feeding a character to a well-formed expression leaves it well-formed,
/// and a rejected character leaves it as it was.
pub proof fn lemma_after_preserves_wf(expression: Expression, input: char)
    requires
        expression.wf(),
    ensures
        expression.after(input).wf(),
        !expression.accepts(input) ==> expression.after(input) == expression,
{
}

/// No well-formed expression overflows: with operands of at most four digits
/// the value is the exact sum, product, difference floored at zero, or
/// quotient with a zero divisor replaced by one, and it stays below one
/// hundred million.
pub proof fn lemma_evaluate_is_exact(expression: Expression)
    requires
        expression.wf(),
    ensures
        expression.evaluate() < 100_000_000,
        expression.phase == CalculatorState::AwaitingFirstOperand ==> expression.evaluate()
            == decimal_value(expression.first_operand),
        expression.phase == CalculatorState::AwaitingSecondOperand ==> expression.evaluate() == ({
            let first = decimal_value(expression.first_operand) as int;
            let second = decimal_value(expression.second_operand) as int;
            if expression.operator == '+' {
                first + second
            } else if expression.operator == '*' {
                first * second
            } else if expression.operator == '-' {
                if first >= second {
                    first - second
                } else {
                    0
                }
            } else {
                if second == 0 {
                    first
                } else {
                    first / second
                }
            }
        }),
{
    lemma_operand_parses(expression.first_operand);
    lemma_operand_parses(expression.second_operand);
    let first = decimal_value(expression.first_operand);
    let second = decimal_value(expression.second_operand);
    assert(first * second <= 99_980_001) by (nonlinear_arith)
        requires
            first <= 9999,
            second <= 9999,
    ;
    if second > 0 {
        assert(first / second <= first) by (nonlinear_arith)
            requires
                second > 0,
        ;
    }
}

} // verus!
