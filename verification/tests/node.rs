use calc_bridge::calculator::CalculatorState;
use calc_bridge::node::{CalculatorNode, CARRIAGE_RETURN, LINE_FEED, TERMINATOR};

fn drain(node: &mut CalculatorNode) -> Vec<u8> {
    let mut sent = Vec::new();
    while let Some(byte) = node.on_transmit_ready().byte {
        sent.push(byte);
    }
    sent
}

fn feed(node: &mut CalculatorNode, input: &[u8]) {
    for byte in input {
        node.on_receive(*byte);
    }
}

fn answer(input: &[u8]) -> Vec<u8> {
    let mut node = CalculatorNode::new();
    feed(&mut node, input);
    drain(&mut node);
    node.on_receive(b'=');
    drain(&mut node)
}

#[test]
fn constants_are_the_ascii_codes() {
    assert_eq!(TERMINATOR, b'=');
    assert_eq!(CARRIAGE_RETURN, b'\r');
    assert_eq!(LINE_FEED, b'\n');
}

#[test]
fn new_node_is_idle() {
    let mut node = CalculatorNode::new();
    assert_eq!(node.bridge().pending(), 0);
    assert!(!node.bridge().transmit_enabled());
    assert_eq!(node.calculator().phase(), CalculatorState::AwaitingFirstOperand);
    assert_eq!(node.calculator().first_operand(), "");
    assert_eq!(drain(&mut node), b"");
}

#[test]
fn addition_is_echoed_and_answered() {
    let mut node = CalculatorNode::new();
    feed(&mut node, b"12+3");
    assert_eq!(drain(&mut node), b"12+3");
    feed(&mut node, b"=");
    assert_eq!(drain(&mut node), b"=15\r\n");
}

#[test]
fn addition_is_answered_behind_its_echo() {
    let mut node = CalculatorNode::new();
    feed(&mut node, b"12+3=");
    assert_eq!(drain(&mut node), b"12+3=15\r\n");
}

#[test]
fn subtraction_is_answered() {
    assert_eq!(answer(b"9999-1"), b"=9998\r\n");
}

#[test]
fn division_by_zero_is_answered_with_the_dividend() {
    assert_eq!(answer(b"5/0"), b"=5\r\n");
}

#[test]
fn lone_operand_is_answered_with_itself() {
    assert_eq!(answer(b"7"), b"=7\r\n");
}

#[test]
fn zero_is_answered_with_a_single_digit() {
    assert_eq!(answer(b""), b"=0\r\n");
    assert_eq!(answer(b"3-5"), b"=0\r\n");
    assert_eq!(answer(b"0*9"), b"=0\r\n");
    assert_eq!(answer(b"0000"), b"=0\r\n");
}

#[test]
fn fifth_digit_is_not_echoed() {
    let mut node = CalculatorNode::new();
    feed(&mut node, b"1234");
    assert_eq!(node.calculator().first_operand(), "1234");
    assert!(!node.on_receive(b'5'));
    assert_eq!(node.calculator().first_operand(), "1234");
    assert_eq!(node.calculator().second_operand(), "");
    assert_eq!(node.calculator().phase(), CalculatorState::AwaitingFirstOperand);
    assert_eq!(drain(&mut node), b"1234");
    feed(&mut node, b"=");
    assert_eq!(drain(&mut node), b"=1234\r\n");
}

#[test]
fn inner_and_trailing_zeros_are_sent() {
    assert_eq!(answer(b"1000+20"), b"=1020\r\n");
    assert_eq!(answer(b"100*100"), b"=10000\r\n");
    assert_eq!(answer(b"5*2"), b"=10\r\n");
}

#[test]
fn largest_result_is_sent_in_full() {
    assert_eq!(answer(b"9999*9999"), b"=99980001\r\n");
    assert_eq!(answer(b"9999+9999"), b"=19998\r\n");
}

#[test]
fn malformed_bytes_are_neither_echoed_nor_stored() {
    let mut node = CalculatorNode::new();
    feed(&mut node, b"a1 b2\r\n+x*3\xff\x00");
    assert_eq!(drain(&mut node), b"12+3");
    feed(&mut node, b"=");
    assert_eq!(drain(&mut node), b"=15\r\n");
}

#[test]
fn terminator_resets_the_engine() {
    let mut node = CalculatorNode::new();
    feed(&mut node, b"12+3=");
    assert_eq!(node.calculator().phase(), CalculatorState::AwaitingFirstOperand);
    assert_eq!(node.calculator().first_operand(), "");
    assert_eq!(node.calculator().second_operand(), "");
    assert_eq!(node.calculator().operator(), '+');
    drain(&mut node);
    feed(&mut node, b"=");
    assert_eq!(drain(&mut node), b"=0\r\n");
}

#[test]
fn expressions_follow_each_other() {
    let mut node = CalculatorNode::new();
    feed(&mut node, b"2*3=");
    assert_eq!(drain(&mut node), b"2*3=6\r\n");
    feed(&mut node, b"6/4=");
    assert_eq!(drain(&mut node), b"6/4=1\r\n");
}

#[test]
fn reply_is_cut_where_the_channel_is_full() {
    let mut node = CalculatorNode::new();
    feed(&mut node, b"9999*9999=");
    assert_eq!(node.bridge().pending(), 16);
    assert_eq!(drain(&mut node), b"9999*9999=999800");
    assert_eq!(node.calculator().first_operand(), "");
}

#[test]
fn echo_is_dropped_where_the_channel_is_full() {
    let mut node = CalculatorNode::new();
    feed(&mut node, b"1+1=");
    feed(&mut node, b"2+2=");
    feed(&mut node, b"33");
    assert_eq!(node.bridge().pending(), 16);
    // The engine takes the operator, but its echo finds no room.
    assert!(!node.on_receive(b'+'));
    assert_eq!(node.calculator().operator(), '+');
    assert_eq!(node.calculator().phase(), CalculatorState::AwaitingSecondOperand);
    assert_eq!(node.bridge().pending(), 16);
    // Neither does the digit's echo, nor any byte of the reply.
    feed(&mut node, b"4=");
    assert_eq!(node.bridge().pending(), 16);
    assert_eq!(node.calculator().first_operand(), "");
    assert_eq!(drain(&mut node), b"1+1=2\r\n2+2=4\r\n33");
    feed(&mut node, b"=");
    assert_eq!(drain(&mut node), b"=0\r\n");
}

#[test]
fn receive_enables_transmit_on_first_pending_byte() {
    let mut node = CalculatorNode::new();
    assert!(!node.on_receive(b'x'));
    assert!(!node.bridge().transmit_enabled());
    assert!(node.on_receive(b'1'));
    assert!(node.bridge().transmit_enabled());
    assert!(!node.on_receive(b'2'));
    assert!(!node.on_receive(b'='));
    assert!(node.bridge().transmit_enabled());
    drain(&mut node);
    assert!(!node.bridge().transmit_enabled());
    assert!(node.on_receive(b'='));
    assert!(node.bridge().transmit_enabled());
}

#[test]
fn transmit_disables_after_last_byte() {
    let mut node = CalculatorNode::new();
    feed(&mut node, b"7=");
    let mut outcomes = Vec::new();
    for _ in 0..6 {
        let outcome = node.on_transmit_ready();
        outcomes.push((outcome.byte, outcome.disable_transmit));
    }
    assert_eq!(
        outcomes,
        vec![
            (Some(b'7'), false),
            (Some(b'='), false),
            (Some(b'7'), false),
            (Some(b'\r'), false),
            (Some(b'\n'), true),
            (None, true),
        ]
    );
}

#[test]
fn every_expression_is_echoed_and_answered() {
    let operands: [u32; 8] = [0, 1, 9, 10, 42, 100, 999, 9999];
    let mut node = CalculatorNode::new();
    for first in operands {
        for second in operands {
            for symbol in ['+', '-', '*', '/'] {
                let expected = match symbol {
                    '+' => first + second,
                    '-' => first.saturating_sub(second),
                    '*' => first * second,
                    _ => first / second.max(1),
                };
                let input = format!("{}{}{}=", first, symbol, second);
                let mut sent = Vec::new();
                for byte in input.bytes() {
                    node.on_receive(byte);
                    sent.extend(drain(&mut node));
                }
                let output = format!("{}{}{}={}\r\n", first, symbol, second, expected);
                assert_eq!(sent, output.as_bytes());
            }
        }
    }
}
