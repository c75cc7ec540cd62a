//! Verified rendering of the small text fragments the library emits:
//! decimal numbers, zero-padded calendar fields.

use vstd::prelude::*;
use vstd::string::StringExecFns;

verus! {

/// The character of one decimal digit.
pub open spec fn digit_char(d: int) -> char {
    if d == 0 {
        '0'
    } else if d == 1 {
        '1'
    } else if d == 2 {
        '2'
    } else if d == 3 {
        '3'
    } else if d == 4 {
        '4'
    } else if d == 5 {
        '5'
    } else if d == 6 {
        '6'
    } else if d == 7 {
        '7'
    } else if d == 8 {
        '8'
    } else {
        '9'
    }
}

/// The decimal rendering of a number, most significant digit first, with no
/// leading zeroes.
pub open spec fn decimal_str(n: nat) -> Seq<char>
    decreases n,
{
    if n < 10 {
        seq![digit_char(n as int)]
    } else {
        decimal_str(n / 10).push(digit_char((n % 10) as int))
    }
}

/// The decimal rendering of a number, left-padded with zeroes to two digits.
pub open spec fn padded2_str(n: nat) -> Seq<char> {
    if n < 10 {
        seq!['0'] + decimal_str(n)
    } else {
        decimal_str(n)
    }
}

/// The decimal rendering of a number, left-padded with zeroes to four digits.
pub open spec fn padded4_str(n: nat) -> Seq<char> {
    if n < 10 {
        seq!['0', '0', '0'] + decimal_str(n)
    } else if n < 100 {
        seq!['0', '0'] + decimal_str(n)
    } else if n < 1000 {
        seq!['0'] + decimal_str(n)
    } else {
        decimal_str(n)
    }
}

/// The one-character string of a decimal digit.
pub(crate) fn digit_literal(d: u64) -> (s: &'static str)
    requires
        d < 10,
    ensures
        s@ == seq![digit_char(d as int)],
{
    if d == 0 {
        proof {
            reveal_strlit("0");
            assert("0"@ =~= seq!['0']);
        }
        "0"
    } else if d == 1 {
        proof {
            reveal_strlit("1");
            assert("1"@ =~= seq!['1']);
        }
        "1"
    } else if d == 2 {
        proof {
            reveal_strlit("2");
            assert("2"@ =~= seq!['2']);
        }
        "2"
    } else if d == 3 {
        proof {
            reveal_strlit("3");
            assert("3"@ =~= seq!['3']);
        }
        "3"
    } else if d == 4 {
        proof {
            reveal_strlit("4");
            assert("4"@ =~= seq!['4']);
        }
        "4"
    } else if d == 5 {
        proof {
            reveal_strlit("5");
            assert("5"@ =~= seq!['5']);
        }
        "5"
    } else if d == 6 {
        proof {
            reveal_strlit("6");
            assert("6"@ =~= seq!['6']);
        }
        "6"
    } else if d == 7 {
        proof {
            reveal_strlit("7");
            assert("7"@ =~= seq!['7']);
        }
        "7"
    } else if d == 8 {
        proof {
            reveal_strlit("8");
            assert("8"@ =~= seq!['8']);
        }
        "8"
    } else {
        proof {
            reveal_strlit("9");
            assert("9"@ =~= seq!['9']);
        }
        "9"
    }
}

/// Appends the decimal rendering of `n`.
pub fn append_decimal(out: &mut String, n: u64)
    ensures
        final(out)@ == old(out)@ + decimal_str(n as nat),
    decreases n,
{
    if n >= 10 {
        append_decimal(out, n / 10);
        out.append(digit_literal(n % 10));
        proof {
            assert(out@ =~= old(out)@ + decimal_str(n as nat));
        }
    } else {
        out.append(digit_literal(n));
        proof {
            assert(out@ =~= old(out)@ + decimal_str(n as nat));
        }
    }
}

/// Appends the decimal rendering of `n`, zero-padded to two digits.
pub fn append_padded2(out: &mut String, n: u64)
    ensures
        final(out)@ == old(out)@ + padded2_str(n as nat),
{
    if n < 10 {
        out.append(digit_literal(0));
    }
    append_decimal(out, n);
    proof {
        assert(out@ =~= old(out)@ + padded2_str(n as nat));
    }
}

/// Appends the decimal rendering of `n`, zero-padded to four digits.
pub fn append_padded4(out: &mut String, n: u64)
    ensures
        final(out)@ == old(out)@ + padded4_str(n as nat),
{
    if n < 10 {
        out.append(digit_literal(0));
        out.append(digit_literal(0));
        out.append(digit_literal(0));
    } else if n < 100 {
        out.append(digit_literal(0));
        out.append(digit_literal(0));
    } else if n < 1000 {
        out.append(digit_literal(0));
    }
    append_decimal(out, n);
    proof {
        assert(out@ =~= old(out)@ + padded4_str(n as nat));
    }
}

/// Relies on `String::push`: appends exactly one character.
#[verifier::external_body]
pub(crate) fn push_char(out: &mut String, c: char)
    ensures
        final(out)@ == old(out)@ + seq![c],
{
    out.push(c);
}

} // verus!
