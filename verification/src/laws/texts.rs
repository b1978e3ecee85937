//! The text of error messages.

use std::fmt::Debug;

use vstd::prelude::*;

use crate::error::TableError;
use crate::table::validity::bad_key;
use crate::text::{decimal, decimal_string, digit, is_debug_text};

verus! {

/// The number that the decimal `digits` stand for.
pub open spec fn number(digits: Seq<char>) -> int
    decreases digits.len(),
{
    if digits.len() == 0 {
        0
    } else {
        10 * number(digits.drop_last()) + (digits.last() as int - '0' as int)
    }
}

/// A decimal text has digits, all of them decimal ones, and stands for the number.
pub(super) proof fn lemma_decimal(n: nat)
    ensures
        decimal(n).len() > 0,
        forall|i: int|
            0 <= i < decimal(n).len() ==> '0' as int <= #[trigger] decimal(n)[i] as int <= '9' as int,
        decimal(n).len() > 1 ==> decimal(n)[0] != '0',
        number(decimal(n)) == n,
    decreases n,
{
    reveal_with_fuel(number, 2);
    assert(digit(n % 10) as int == 48 + n % 10);
    if n < 10 {
        assert(decimal(n).drop_last() =~= Seq::<char>::empty());
    } else {
        lemma_decimal(n / 10);
        assert(decimal(n).drop_last() =~= decimal(n / 10));
        assert(decimal(n)[0] == decimal(n / 10)[0]);
        if n / 10 < 10 {
            assert(decimal(n / 10) =~= seq![digit(n / 10)]);
            assert(digit(n / 10) as int == 48 + n / 10);
        } else {
            assert(decimal(n / 10).len() > 1) by {
                lemma_decimal(n / 10 / 10);
            }
        }
    }
}

/// A number is written with decimal digits that stand for it, and without a leading zero.
pub proof fn law_decimal_text(n: usize, text: String)
    requires
        call_ensures(decimal_string, (n,), text),
    ensures
        number(text@) == n,
        text@.len() > 0,
        text@.len() > 1 ==> text@[0] != '0',
        forall|i: int| 0 <= i < text@.len() ==> '0' as int <= #[trigger] text@[i] as int <= '9' as int,
{
    lemma_decimal(n as nat);
}

/// The error for a key tells the key and the number of columns that it should have.
pub proof fn law_bad_key<V: Debug>(key: &[V], key_len: usize, error: TableError)
    requires
        call_ensures(bad_key::<V>, (key, key_len), error),
    ensures
        error matches TableError::InvalidInput(message) && exists|text: Seq<char>, digits: Seq<char>|
            {
                &&& #[trigger] is_debug_text(key, text)
                &&& #[trigger] number(digits) == key_len
                &&& digits.len() > 1 ==> digits[0] != '0'
                &&& message@ == "invalid key: "@ + text + ", expected exactly "@ + digits
                    + " column(s)"@
            },
{
    lemma_decimal(key_len as nat);
    let message = error->InvalidInput_0@;
    let text = choose|text: Seq<char>| #[trigger]
        is_debug_text(key, text) && message == "invalid key: "@ + text + ", expected exactly "@
            + decimal(key_len as nat) + " column(s)"@;
    assert(is_debug_text(key, text));
    assert(number(decimal(key_len as nat)) == key_len);
}

} // verus!
