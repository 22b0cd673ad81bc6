//! What the text of an error says of its numbers.
use vstd::prelude::*;

use crate::unpickle::{decimal, hex_digits, message_text, Error};

verus! {

/// The value of a string of decimal digits.
pub open spec fn digits_value(s: Seq<char>) -> int
    decreases s.len(),
{
    if s.len() == 0 {
        0
    } else {
        10 * digits_value(s.drop_last()) + (s.last() as int - '0' as int)
    }
}

/// The character of a hexadecimal digit below 16, in lowercase.
pub open spec fn hex_char(d: int) -> char {
    if d < 10 {
        (48 + d) as char
    } else {
        (87 + d) as char
    }
}

proof fn lemma_hex_digits()
    ensures
        hex_digits().len() == 16,
        forall|d: int| 0 <= d < 16 ==> #[trigger] hex_digits()[d] == hex_char(d),
{
    reveal_strlit("0123456789abcdef");
    assert forall|d: int| 0 <= d < 16 implies #[trigger] hex_digits()[d] == hex_char(d) by {
        reveal_strlit("0123456789abcdef");
    }
}

/// A number is written in decimal as digits `0` to `9`, the first not `0`
/// unless the number is 0, whose value is the number.
pub proof fn law_decimal(n: nat)
    ensures
        decimal(n).len() > 0,
        forall|i: int| 0 <= i < decimal(n).len() ==> '0' <= #[trigger] decimal(n)[i] <= '9',
        decimal(n).len() > 1 ==> decimal(n)[0] != '0',
        n > 0 ==> decimal(n)[0] != '0',
        digits_value(decimal(n)) == n,
    decreases n,
{
    lemma_hex_digits();
    if n >= 10 {
        law_decimal(n / 10);
        let s = decimal(n);
        let d = (n % 10) as int;
        assert(s.drop_last() =~= decimal(n / 10));
        assert(s.last() == hex_char(d));
        assert(hex_char(d) as int == 48 + d);
        assert(s[0] == decimal(n / 10)[0]);
        assert(digits_value(s) == 10 * digits_value(decimal(n / 10)) + d);
    } else {
        let s = decimal(n);
        assert(s[0] == hex_char(n as int));
        assert(hex_char(n as int) as int == 48 + n);
        assert(s.drop_last() =~= Seq::<char>::empty());
        assert(digits_value(s) == 10 * digits_value(s.drop_last()) + (s.last() as int - 48));
    }
}

/// The text of `UnsupportedOpcode(op)` is `unsupported opcode: 0x`
/// followed by the two lowercase hexadecimal digits of `op`, high first.
pub proof fn law_unsupported_message(op: u8)
    ensures
        message_text(Error::UnsupportedOpcode(op)) == "unsupported opcode: 0x"@ + seq![
            hex_char((op / 16) as int),
            hex_char((op % 16) as int),
        ],
{
    lemma_hex_digits();
    assert(message_text(Error::UnsupportedOpcode(op)) =~= "unsupported opcode: 0x"@ + seq![
        hex_char((op / 16) as int),
        hex_char((op % 16) as int),
    ]);
}

} // verus!
