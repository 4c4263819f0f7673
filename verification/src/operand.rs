//! Operand text: the fixed-capacity string that collects the digits of one
//! operand, and what is relied on of it.

use crate::decimal::{lemma_pow10_monotonic, pow10};
use vstd::prelude::*;

verus! {

/// `heapless::String`, a string with a fixed capacity of `N` bytes.
#[verifier::external_type_specification]
#[verifier::external_body]
pub struct ExString<const N: usize>(heapless::String<N>);

/// Number of characters an operand can hold.
pub const OPERAND_CAPACITY: usize = 4;

/// The characters that an operand string holds, first to last.
pub uninterp spec fn operand_text(operand: heapless::String<4>) -> Seq<char>;

/// Whether `c` is one of the ASCII digits `0` to `9`.
pub open spec fn is_digit(c: char) -> bool {
    '0' <= c <= '9'
}

/// Whether every character of `text` is an ASCII digit.
pub open spec fn all_digits(text: Seq<char>) -> bool {
    forall|i: int| 0 <= i < text.len() ==> is_digit(#[trigger] text[i])
}

/// Whether every character of `text` is ASCII, so that it takes one byte.
pub open spec fn all_ascii(text: Seq<char>) -> bool {
    forall|i: int| 0 <= i < text.len() ==> (#[trigger] text[i]) as u32 <= 127
}

/// The number that a string of ASCII digits denotes in base ten; the empty
/// string denotes zero.
pub open spec fn decimal_value(digits: Seq<char>) -> nat
    decreases digits.len(),
{
    if digits.len() == 0 {
        0
    } else {
        10 * decimal_value(digits.drop_last()) + (digits.last() as u32 - '0' as u32) as nat
    }
}

/// What parsing a string of ASCII digits as a `u32` yields: its value, unless
/// the string is empty or the value does not fit.
pub open spec fn parse_digits(digits: Seq<char>) -> Option<u32> {
    if digits.len() == 0 || decimal_value(digits) > u32::MAX {
        None
    } else {
        Some(decimal_value(digits) as u32)
    }
}

/// A string of up to four ASCII digits denotes a number of up to four digits,
/// which parsing yields unless the string is empty.
pub proof fn lemma_operand_parses(digits: Seq<char>)
    requires
        all_digits(digits),
        digits.len() <= OPERAND_CAPACITY,
    ensures
        decimal_value(digits) <= 9999,
        digits.len() > 0 ==> parse_digits(digits) == Some(decimal_value(digits) as u32),
        digits.len() == 0 ==> parse_digits(digits).is_none() && decimal_value(digits) == 0,
{
    lemma_decimal_value_bound(digits);
    assert(pow10(4) == 10_000) by {
        reveal_with_fuel(pow10, 5);
    }
    lemma_pow10_monotonic(digits.len(), 4);
}

/// A string of ASCII digits denotes a number below ten to the power of its
/// length.
pub proof fn lemma_decimal_value_bound(digits: Seq<char>)
    requires
        all_digits(digits),
    ensures
        decimal_value(digits) < pow10(digits.len()),
    decreases digits.len(),
{
    if digits.len() > 0 {
        lemma_decimal_value_bound(digits.drop_last());
        assert(is_digit(digits.last()));
    }
}

/// `String::new`: a fresh string holds no character.
#[verifier::external_body]
pub(crate) fn operand_new() -> (operand: heapless::String<4>)
    ensures
        operand_text(operand) == Seq::<char>::empty(),
{
    heapless::String::new()
}

/// `str::len` through the string's `Deref`: the length in bytes, which for
/// ASCII text is the number of characters.
#[verifier::external_body]
pub(crate) fn operand_len(operand: &heapless::String<4>) -> (len: usize)
    requires
        all_ascii(operand_text(*operand)),
    ensures
        len == operand_text(*operand).len(),
{
    operand.len()
}

/// `String::capacity`: the number of bytes the string was declared with.
#[verifier::external_body]
pub(crate) fn operand_capacity(operand: &heapless::String<4>) -> (capacity: usize)
    ensures
        capacity == OPERAND_CAPACITY,
{
    operand.capacity()
}

/// `String::push`: appends an ASCII character while fewer than four bytes are
/// held; a full string refuses the character and stays as it was.
#[verifier::external_body]
pub(crate) fn operand_push(operand: &mut heapless::String<4>, c: char) -> (accepted: bool)
    requires
        all_ascii(operand_text(*old(operand))),
        c as u32 <= 127,
    ensures
        accepted <==> operand_text(*old(operand)).len() < 4,
        accepted ==> operand_text(*final(operand)) == operand_text(*old(operand)).push(c),
        !accepted ==> operand_text(*final(operand)) == operand_text(*old(operand)),
{
    operand.push(c).is_ok()
}

/// `String::clear`: the string holds no character afterwards.
#[verifier::external_body]
pub(crate) fn operand_clear(operand: &mut heapless::String<4>)
    ensures
        operand_text(*final(operand)) == Seq::<char>::empty(),
{
    operand.clear()
}

/// `str::parse::<u32>` through the string's `Deref`: on a string of ASCII
/// digits it yields the number they denote, and fails on the empty string and
/// on a number beyond `u32::MAX`.
#[verifier::external_body]
pub(crate) fn operand_parse(operand: &heapless::String<4>) -> (value: Option<u32>)
    requires
        all_digits(operand_text(*operand)),
    ensures
        value == parse_digits(operand_text(*operand)),
{
    operand.parse::<u32>().ok()
}

/// `String::as_str`, copied into an owned string: the same characters.
#[verifier::external_body]
pub(crate) fn operand_to_string(operand: &heapless::String<4>) -> (text: String)
    ensures
        text@ == operand_text(*operand),
{
    String::from(operand.as_str())
}

} // verus!
