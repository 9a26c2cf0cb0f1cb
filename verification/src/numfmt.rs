//! Rendering integers as decimal text.

use vstd::prelude::*;
use vstd::string::StringExecFns;

verus! {

/// The decimal digit character for a value below ten.
pub open spec fn digit_char(d: int) -> char {
    if d == 0 {
        '0'
    } else if d == 1 {
        '1'
    } else if d == 2 {
        '2'
    } else if d == 3 {
        '3'
    } else if d == 4 {
        '4'
    } else if d == 5 {
        '5'
    } else if d == 6 {
        '6'
    } else if d == 7 {
        '7'
    } else if d == 8 {
        '8'
    } else {
        '9'
    }
}

/// Decimal rendering of a non-negative value, without leading zeros.
pub open spec fn dec_str(n: nat) -> Seq<char>
    decreases n,
{
    if n < 10 {
        seq![digit_char(n as int)]
    } else {
        dec_str(n / 10).push(digit_char((n % 10) as int))
    }
}

/// Decimal rendering of a signed value: a minus sign before the magnitude.
pub open spec fn int_str(n: int) -> Seq<char> {
    if n < 0 {
        seq!['-'] + dec_str((-n) as nat)
    } else {
        dec_str(n as nat)
    }
}

/// Two-digit zero-padded rendering of a value below one hundred.
pub open spec fn pad2(n: int) -> Seq<char> {
    seq![digit_char(n / 10), digit_char(n % 10)]
}

/// Four-digit zero-padded rendering of a value below ten thousand.
pub open spec fn pad4(n: int) -> Seq<char> {
    seq![
        digit_char(n / 1000),
        digit_char((n / 100) % 10),
        digit_char((n / 10) % 10),
        digit_char(n % 10),
    ]
}

pub open spec fn is_digit(c: char) -> bool {
    c == '0' || c == '1' || c == '2' || c == '3' || c == '4' || c == '5' || c == '6' || c == '7'
        || c == '8' || c == '9'
}

/// The value of a decimal digit character.
pub open spec fn dec_val(c: char) -> int {
    if c == '0' {
        0
    } else if c == '1' {
        1
    } else if c == '2' {
        2
    } else if c == '3' {
        3
    } else if c == '4' {
        4
    } else if c == '5' {
        5
    } else if c == '6' {
        6
    } else if c == '7' {
        7
    } else if c == '8' {
        8
    } else {
        9
    }
}

/// Rendering a digit and reading it back are inverse.
pub proof fn lemma_digit_char_val(d: int)
    requires
        0 <= d <= 9,
    ensures
        is_digit(digit_char(d)),
        dec_val(digit_char(d)) == d,
{
}

/// The two digits of `pad2` read back as the value.
pub proof fn lemma_pad2_val(n: int)
    requires
        0 <= n < 100,
    ensures
        is_digit(pad2(n)[0]),
        is_digit(pad2(n)[1]),
        dec_val(pad2(n)[0]) * 10 + dec_val(pad2(n)[1]) == n,
{
    lemma_digit_char_val(n / 10);
    lemma_digit_char_val(n % 10);
}

/// The four digits of `pad4` read back as the value.
pub proof fn lemma_pad4_val(n: int)
    requires
        0 <= n < 10000,
    ensures
        is_digit(pad4(n)[0]),
        is_digit(pad4(n)[1]),
        is_digit(pad4(n)[2]),
        is_digit(pad4(n)[3]),
        dec_val(pad4(n)[0]) * 1000 + dec_val(pad4(n)[1]) * 100 + dec_val(pad4(n)[2]) * 10 + dec_val(
            pad4(n)[3],
        ) == n,
{
    lemma_digit_char_val(n / 1000);
    lemma_digit_char_val((n / 100) % 10);
    lemma_digit_char_val((n / 10) % 10);
    lemma_digit_char_val(n % 10);
    assert((n / 1000) * 1000 + ((n / 100) % 10) * 100 + ((n / 10) % 10) * 10 + n % 10 == n) by (nonlinear_arith)
        requires
            0 <= n < 10000,
    ;
}

/// The exec form of reading one digit character.
pub fn digit_value(c: char) -> (r: Option<u8>)
    ensures
        match r {
            Some(d) => is_digit(c) && d == dec_val(c) && d <= 9,
            None => !is_digit(c),
        },
{
    if c == '0' {
        Some(0)
    } else if c == '1' {
        Some(1)
    } else if c == '2' {
        Some(2)
    } else if c == '3' {
        Some(3)
    } else if c == '4' {
        Some(4)
    } else if c == '5' {
        Some(5)
    } else if c == '6' {
        Some(6)
    } else if c == '7' {
        Some(7)
    } else if c == '8' {
        Some(8)
    } else if c == '9' {
        Some(9)
    } else {
        None
    }
}

/// Appends the digit character of `d`.
pub fn append_digit(out: &mut String, d: u64)
    requires
        d < 10,
    ensures
        final(out)@ == old(out)@.push(digit_char(d as int)),
{
    proof {
        reveal_strlit("0");
        reveal_strlit("1");
        reveal_strlit("2");
        reveal_strlit("3");
        reveal_strlit("4");
        reveal_strlit("5");
        reveal_strlit("6");
        reveal_strlit("7");
        reveal_strlit("8");
        reveal_strlit("9");
    }
    if d == 0 {
        out.append("0");
    } else if d == 1 {
        out.append("1");
    } else if d == 2 {
        out.append("2");
    } else if d == 3 {
        out.append("3");
    } else if d == 4 {
        out.append("4");
    } else if d == 5 {
        out.append("5");
    } else if d == 6 {
        out.append("6");
    } else if d == 7 {
        out.append("7");
    } else if d == 8 {
        out.append("8");
    } else {
        out.append("9");
    }
    proof {
        assert(final(out)@ =~= old(out)@.push(digit_char(d as int)));
    }
}

/// Appends the decimal rendering of `n`.
pub fn append_u64(out: &mut String, n: u64)
    ensures
        final(out)@ == old(out)@ + dec_str(n as nat),
    decreases n,
{
    if n < 10 {
        append_digit(out, n);
        proof {
            assert(final(out)@ =~= old(out)@ + dec_str(n as nat));
        }
    } else {
        append_u64(out, n / 10);
        append_digit(out, n % 10);
        proof {
            assert(final(out)@ =~= old(out)@ + dec_str(n as nat));
        }
    }
}

/// Appends the decimal rendering of a signed value.
pub fn append_i64(out: &mut String, n: i64)
    ensures
        final(out)@ == old(out)@ + int_str(n as int),
{
    if n < 0 {
        proof {
            reveal_strlit("-");
        }
        out.append("-");
        let mag: u64 = if n == i64::MIN {
            9223372036854775808u64
        } else {
            (-n) as u64
        };
        append_u64(out, mag);
        proof {
            assert(final(out)@ =~= old(out)@ + int_str(n as int));
        }
    } else {
        append_u64(out, n as u64);
    }
}

/// Appends the two-digit zero-padded rendering of `n`.
pub fn append_pad2(out: &mut String, n: u64)
    requires
        n < 100,
    ensures
        final(out)@ == old(out)@ + pad2(n as int),
{
    append_digit(out, n / 10);
    append_digit(out, n % 10);
    proof {
        assert(final(out)@ =~= old(out)@ + pad2(n as int));
    }
}

/// Appends the four-digit zero-padded rendering of `n`.
pub fn append_pad4(out: &mut String, n: u64)
    requires
        n < 10000,
    ensures
        final(out)@ == old(out)@ + pad4(n as int),
{
    append_digit(out, n / 1000);
    append_digit(out, (n / 100) % 10);
    append_digit(out, (n / 10) % 10);
    append_digit(out, n % 10);
    proof {
        assert(final(out)@ =~= old(out)@ + pad4(n as int));
    }
}

} // verus!
