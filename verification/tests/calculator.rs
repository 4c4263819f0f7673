use calc_bridge::calculator::{CalculatorState, CalculatorStateMachine};

fn feed(engine: &mut CalculatorStateMachine, input: &str) -> Vec<bool> {
    input.chars().map(|c| engine.transition(c)).collect()
}

fn evaluate(input: &str) -> u32 {
    let mut engine = CalculatorStateMachine::default();
    for c in input.chars() {
        engine.transition(c);
    }
    engine.compute()
}

fn assert_initial(engine: &CalculatorStateMachine) {
    assert_eq!(engine.phase(), CalculatorState::AwaitingFirstOperand);
    assert_eq!(engine.first_operand(), "");
    assert_eq!(engine.second_operand(), "");
    assert_eq!(engine.operator(), '+');
}

#[test]
fn default_awaits_first_operand() {
    let engine = CalculatorStateMachine::default();
    assert_initial(&engine);
}

#[test]
fn addition_of_two_operands() {
    let mut engine = CalculatorStateMachine::default();
    assert_eq!(feed(&mut engine, "12+3"), vec![true, true, true, true]);
    assert_eq!(engine.first_operand(), "12");
    assert_eq!(engine.operator(), '+');
    assert_eq!(engine.second_operand(), "3");
    assert_eq!(engine.phase(), CalculatorState::AwaitingSecondOperand);
    assert_eq!(engine.compute(), 15);
}

#[test]
fn subtraction_of_two_operands() {
    assert_eq!(evaluate("9999-1"), 9998);
}

#[test]
fn subtraction_stops_at_zero() {
    assert_eq!(evaluate("3-5"), 0);
    assert_eq!(evaluate("0-9999"), 0);
    assert_eq!(evaluate("5-5"), 0);
}

#[test]
fn multiplication_of_largest_operands() {
    assert_eq!(evaluate("9999*9999"), 99_980_001);
    assert_eq!(evaluate("12*12"), 144);
    assert_eq!(evaluate("0*77"), 0);
}

#[test]
fn addition_of_largest_operands() {
    assert_eq!(evaluate("9999+9999"), 19_998);
}

#[test]
fn division_rounds_down() {
    assert_eq!(evaluate("7/2"), 3);
    assert_eq!(evaluate("100/7"), 14);
    assert_eq!(evaluate("3/9"), 0);
}

#[test]
fn division_by_zero_divides_by_one() {
    assert_eq!(evaluate("5/0"), 5);
    assert_eq!(evaluate("5/000"), 5);
    assert_eq!(evaluate("0/0"), 0);
}

#[test]
fn division_by_missing_operand_divides_by_one() {
    assert_eq!(evaluate("5/"), 5);
}

#[test]
fn missing_operator_yields_first_operand() {
    assert_eq!(evaluate("7"), 7);
    assert_eq!(evaluate("0042"), 42);
}

#[test]
fn empty_operands_count_as_zero() {
    assert_eq!(evaluate(""), 0);
    assert_eq!(evaluate("+3"), 3);
    assert_eq!(evaluate("3+"), 3);
    assert_eq!(evaluate("*3"), 0);
    assert_eq!(evaluate("-"), 0);
}

#[test]
fn fifth_digit_of_first_operand_is_dropped() {
    let mut engine = CalculatorStateMachine::default();
    assert_eq!(feed(&mut engine, "12345"), vec![true, true, true, true, false]);
    assert_eq!(engine.first_operand(), "1234");
    assert_eq!(engine.second_operand(), "");
    assert_eq!(engine.operator(), '+');
    assert_eq!(engine.phase(), CalculatorState::AwaitingFirstOperand);
    assert_eq!(engine.compute(), 1234);
}

#[test]
fn fifth_digit_of_second_operand_is_dropped() {
    let mut engine = CalculatorStateMachine::default();
    assert_eq!(
        feed(&mut engine, "1*98765"),
        vec![true, true, true, true, true, true, false]
    );
    assert_eq!(engine.first_operand(), "1");
    assert_eq!(engine.second_operand(), "9876");
    assert_eq!(engine.phase(), CalculatorState::AwaitingSecondOperand);
    assert_eq!(engine.compute(), 9876);
}

#[test]
fn operator_after_full_first_operand_is_accepted() {
    let mut engine = CalculatorStateMachine::default();
    assert_eq!(feed(&mut engine, "12345-4"), vec![true, true, true, true, false, true, true]);
    assert_eq!(engine.operator(), '-');
    assert_eq!(engine.compute(), 1230);
}

#[test]
fn second_operator_is_rejected() {
    let mut engine = CalculatorStateMachine::default();
    assert_eq!(feed(&mut engine, "8-*2"), vec![true, true, false, true]);
    assert_eq!(engine.operator(), '-');
    assert_eq!(engine.second_operand(), "2");
    assert_eq!(engine.compute(), 6);
}

#[test]
fn other_characters_are_rejected_without_change() {
    let mut engine = CalculatorStateMachine::default();
    for c in ['a', ' ', '=', '\r', '\n', '.', ':', '\u{0}', '\u{7f}', 'é', '٣'] {
        assert!(!engine.transition(c));
        assert_initial(&engine);
    }
    assert!(engine.transition('4'));
    assert!(engine.transition('/'));
    for c in ['a', ' ', '=', '+', '-', '*', '/', 'é'] {
        assert!(!engine.transition(c));
        assert_eq!(engine.first_operand(), "4");
        assert_eq!(engine.second_operand(), "");
        assert_eq!(engine.operator(), '/');
        assert_eq!(engine.phase(), CalculatorState::AwaitingSecondOperand);
    }
}

#[test]
fn each_operator_symbol_is_recorded() {
    for symbol in ['+', '-', '*', '/'] {
        let mut engine = CalculatorStateMachine::default();
        assert!(engine.transition('6'));
        assert!(engine.transition(symbol));
        assert_eq!(engine.operator(), symbol);
        assert_eq!(engine.phase(), CalculatorState::AwaitingSecondOperand);
    }
}

#[test]
fn compute_resets_from_every_path() {
    for input in ["", "7", "1234", "12+", "12+3", "9999*9999", "5/0", "3-5", "/", "12345"] {
        let mut engine = CalculatorStateMachine::default();
        for c in input.chars() {
            engine.transition(c);
        }
        engine.compute();
        assert_initial(&engine);
    }
}

#[test]
fn compute_twice_yields_zero_the_second_time() {
    let mut engine = CalculatorStateMachine::default();
    feed(&mut engine, "12+3");
    assert_eq!(engine.compute(), 15);
    assert_eq!(engine.compute(), 0);
    assert_initial(&engine);
}

#[test]
fn engine_is_reusable_after_compute() {
    let mut engine = CalculatorStateMachine::default();
    feed(&mut engine, "9*9");
    assert_eq!(engine.compute(), 81);
    assert_eq!(feed(&mut engine, "81/9"), vec![true, true, true, true]);
    assert_eq!(engine.compute(), 9);
}
