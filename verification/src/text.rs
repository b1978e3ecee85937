//! The text of error messages.

use std::fmt::Debug;
use vstd::prelude::*;

verus! {

/// The decimal digit of `d`.
pub open spec fn digit(d: nat) -> char {
    ((d + 48) as u8) as char
}

/// `n` in decimal notation.
pub open spec fn decimal(n: nat) -> Seq<char>
    decreases n,
{
    if n < 10 {
        seq![digit(n)]
    } else {
        decimal(n / 10).push(digit(n % 10))
    }
}

/// The text `{value:?}`, which the value's own `Debug` implementation writes.
///
/// This calls `std::format!`. What a `Debug` implementation writes is up to the type that has it,
/// so nothing is claimed of the text.
#[verifier::external_body]
pub(crate) fn debug_text<T: Debug + ?Sized>(value: &T) -> (text: String) {
    format!("{value:?}")
}

/// `text` is what formatting `value` with `{:?}` gives.
pub closed spec fn is_debug_text<T: Debug + ?Sized>(value: &T, text: Seq<char>) -> bool {
    exists|written: String|
        #[trigger] call_ensures(debug_text::<T>, (value,), written) && written@ == text
}

/// Format `value` with `{:?}`.
pub fn debug_string<T: Debug + ?Sized>(value: &T) -> (text: String)
    ensures
        is_debug_text(value, text@),
{
    debug_text(value)
}

/// The text of one decimal digit.
fn digit_str(d: usize) -> (text: &'static str)
    requires
        d < 10,
    ensures
        text@ == seq![digit(d as nat)],
{
    proof {
        reveal_strlit("0");
        reveal_strlit("1");
        reveal_strlit("2");
        reveal_strlit("3");
        reveal_strlit("4");
        reveal_strlit("5");
        reveal_strlit("6");
        reveal_strlit("7");
        reveal_strlit("8");
        reveal_strlit("9");
    }
    match d {
        0 => "0",
        1 => "1",
        2 => "2",
        3 => "3",
        4 => "4",
        5 => "5",
        6 => "6",
        7 => "7",
        8 => "8",
        _ => "9",
    }
}

/// Write `n` in decimal notation.
pub fn decimal_string(n: usize) -> (text: String)
    ensures
        text@ == decimal(n as nat),
    decreases n,
{
    let mut text = if n < 10 {
        String::new()
    } else {
        decimal_string(n / 10)
    };
    text.append(digit_str(n % 10));
    text
}

/// The text of a value is what formatting it gives, and no more.
pub(crate) proof fn law_debug_text<T: Debug + ?Sized>(value: &T, text: Seq<char>)
    requires
        is_debug_text(value, text),
    ensures
        exists|written: String| #[trigger]
            call_ensures(debug_text::<T>, (value,), written) && written@ == text,
{
}

/// A value is formatted as it is.
pub proof fn law_debug_string<T: Debug + ?Sized>(value: &T, text: String)
    requires
        call_ensures(debug_string::<T>, (value,), text),
    ensures
        is_debug_text(value, text@),
{
}

} // verus!
