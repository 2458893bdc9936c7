//! Decimal notation for integers: what the text of a number is, and
//! executable code that produces exactly that text.

use vstd::prelude::*;
use vstd::string::StringExecFns;

verus! {

/// The character that stands for the digit `d`, for `0 <= d < 10`.
pub open spec fn digit_char(d: int) -> char {
    seq!['0', '1', '2', '3', '4', '5', '6', '7', '8', '9'][d]
}

/// The decimal notation of `n`: its digits, most significant first, with no
/// leading zero (the number zero is the single digit `0`).
pub open spec fn decimal(n: nat) -> Seq<char>
    decreases n,
{
    if n < 10 {
        seq![digit_char(n as int)]
    } else {
        decimal(n / 10).push(digit_char((n % 10) as int))
    }
}

/// The decimal notation of `i`, preceded by a minus sign when `i` is negative.
pub open spec fn signed_decimal(i: int) -> Seq<char> {
    if i < 0 {
        seq!['-'] + decimal((-i) as nat)
    } else {
        decimal(i as nat)
    }
}

/// Whether `c` is one of the ten digit characters.
pub open spec fn is_digit(c: char) -> bool {
    '0' <= c <= '9'
}

/// The number that the digit character `c` stands for.
pub open spec fn digit_value(c: char) -> int {
    c as int - '0' as int
}

/// The number that a run of digits denotes, read most significant first.
pub open spec fn decimal_value(digits: Seq<char>) -> int
    decreases digits.len(),
{
    if digits.len() == 0 {
        0
    } else {
        10 * decimal_value(digits.drop_last()) + digit_value(digits.last())
    }
}

/// The number that a run of digits with an optional leading minus sign denotes.
pub open spec fn signed_value(text: Seq<char>) -> int {
    if text.len() > 0 && text[0] == '-' {
        -decimal_value(text.skip(1))
    } else {
        decimal_value(text)
    }
}

/// Decimal notation is never empty, consists of digits only, and starts with
/// the digit `0` for the number zero alone.
pub proof fn decimal_shape(n: nat)
    ensures
        decimal(n).len() >= 1,
        forall|i: int| 0 <= i < decimal(n).len() ==> is_digit(#[trigger] decimal(n)[i]),
        decimal(n)[0] == '0' <==> n == 0,
    decreases n,
{
    if n >= 10 {
        decimal_shape(n / 10);
    }
}

/// Reading the decimal notation of a number gives the number back.
pub proof fn decimal_reads_back(n: nat)
    ensures
        decimal_value(decimal(n)) == n,
    decreases n,
{
    let text = decimal(n);
    if n < 10 {
        assert(text.drop_last() =~= Seq::<char>::empty());
        assert(decimal_value(text.drop_last()) == 0);
        assert(digit_value(text.last()) == n);
    } else {
        decimal_reads_back(n / 10);
        assert(text.drop_last() =~= decimal(n / 10));
        assert(digit_value(text.last()) == n % 10);
    }
}

/// Signed decimal notation is never empty and holds no character other than
/// digits and, for a negative number only, one minus sign in front.
pub proof fn signed_decimal_shape(i: int)
    ensures
        signed_decimal(i).len() >= 1,
        signed_decimal(i)[0] == '-' <==> i < 0,
        forall|k: int|
            0 <= k < signed_decimal(i).len() ==> is_digit(#[trigger] signed_decimal(i)[k]) || (k
                == 0 && i < 0),
{
    if i < 0 {
        decimal_shape((-i) as nat);
    } else {
        decimal_shape(i as nat);
    }
}

/// Reading the signed decimal notation of an integer gives the integer back.
pub proof fn signed_decimal_reads_back(i: int)
    ensures
        signed_value(signed_decimal(i)) == i,
{
    if i < 0 {
        decimal_reads_back((-i) as nat);
        assert(signed_decimal(i).skip(1) =~= decimal((-i) as nat));
    } else {
        decimal_shape(i as nat);
        decimal_reads_back(i as nat);
    }
}

/// Two integers with the same signed decimal notation are the same integer.
pub proof fn signed_decimal_is_one_to_one(a: int, b: int)
    requires
        signed_decimal(a) == signed_decimal(b),
    ensures
        a == b,
{
    signed_decimal_reads_back(a);
    signed_decimal_reads_back(b);
}

/// The one-character text of the digit `d`.
fn digit_text(d: u32) -> (text: &'static str)
    requires
        d < 10,
    ensures
        text@ == seq![digit_char(d as int)],
{
    proof {
        reveal_strlit("0");
        reveal_strlit("1");
        reveal_strlit("2");
        reveal_strlit("3");
        reveal_strlit("4");
        reveal_strlit("5");
        reveal_strlit("6");
        reveal_strlit("7");
        reveal_strlit("8");
        reveal_strlit("9");
    }
    match d {
        0 => "0",
        1 => "1",
        2 => "2",
        3 => "3",
        4 => "4",
        5 => "5",
        6 => "6",
        7 => "7",
        8 => "8",
        _ => "9",
    }
}

/// Appends the decimal notation of `n` to `out`.
pub(crate) fn append_decimal(out: &mut String, n: u32)
    ensures
        final(out)@ == old(out)@ + decimal(n as nat),
    decreases n,
{
    if n >= 10 {
        append_decimal(out, n / 10);
    }
    out.append(digit_text(n % 10));
}

/// Appends the signed decimal notation of `value` to `out`.
pub(crate) fn append_signed(out: &mut String, value: i32)
    ensures
        final(out)@ == old(out)@ + signed_decimal(value as int),
{
    if value < 0 {
        out.append("-");
        proof {
            reveal_strlit("-");
            assert("-"@ == seq!['-']);
        }
        let magnitude: u32 = (-(value as i64)) as u32;
        append_decimal(out, magnitude);
    } else {
        append_decimal(out, value as u32);
    }
}

/// A borrow of the decimal text of `*data`.
///
/// The text of a number is made inside the call and is gone when the call
/// returns, so the only text that could be lent out is one that holds
/// nothing. No number is written with no digits (`decimal_shape`), so no
/// caller can meet the precondition: the function is never entered and hands
/// nothing back.
pub fn as_str(data: &u32) -> &str
    requires
        decimal(*data as nat).len() == 0,
{
    proof {
        decimal_shape(*data as nat);
    }
    vstd::pervasive::unreached()
}

} // verus!
