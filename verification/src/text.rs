//! Small pieces of text that reports are made of: numbers in decimal, and
//! words joined by a separator.

use vstd::prelude::*;
use vstd::string::StringExecFns;

verus! {

/// The character of a decimal digit.
pub open spec fn digit(d: nat) -> char {
    if d == 0 {
        '0'
    } else if d == 1 {
        '1'
    } else if d == 2 {
        '2'
    } else if d == 3 {
        '3'
    } else if d == 4 {
        '4'
    } else if d == 5 {
        '5'
    } else if d == 6 {
        '6'
    } else if d == 7 {
        '7'
    } else if d == 8 {
        '8'
    } else {
        '9'
    }
}

/// The decimal digits of `n`, without leading zeros.
pub open spec fn decimal_text(n: nat) -> Seq<char>
    decreases n,
{
    if n < 10 {
        seq![digit(n)]
    } else {
        decimal_text(n / 10).push(digit(n % 10))
    }
}

/// The decimal form of `n`, with a minus sign where it is negative.
pub open spec fn signed_text(n: int) -> Seq<char> {
    if n < 0 {
        seq!['-'] + decimal_text((-n) as nat)
    } else {
        decimal_text(n as nat)
    }
}

/// The digits of the fraction `frac / (10 * scale)`, first digit first, up to
/// the last digit that is not zero; `scale` is a power of ten.
pub open spec fn fraction_text(frac: nat, scale: nat) -> Seq<char>
    decreases scale,
{
    if frac == 0 || scale == 0 {
        Seq::<char>::empty()
    } else {
        seq![digit(frac / scale)] + fraction_text(frac % scale, scale / 10)
    }
}

/// A number of nanoseconds in milliseconds, as an exact decimal: the whole
/// milliseconds, and behind a point the fraction without trailing zeros,
/// where there is one.
pub open spec fn millis_text(nanos: nat) -> Seq<char> {
    if nanos % 1_000_000 == 0 {
        decimal_text(nanos / 1_000_000)
    } else {
        decimal_text(nanos / 1_000_000) + seq!['.'] + fraction_text(nanos % 1_000_000, 100_000)
    }
}

/// The words with `separator` between them.
pub open spec fn joined(words: Seq<String>, separator: Seq<char>) -> Seq<char>
    decreases words.len(),
{
    if words.len() == 0 {
        Seq::<char>::empty()
    } else if words.len() == 1 {
        words[0]@
    } else {
        joined(words.drop_last(), separator) + separator + words.last()@
    }
}

/// The text of one decimal digit.
fn digit_str(d: u64) -> (r: &'static str)
    requires
        d < 10,
    ensures
        r@ == seq![digit(d as nat)],
{
    proof {
        reveal_strlit("0");
        reveal_strlit("1");
        reveal_strlit("2");
        reveal_strlit("3");
        reveal_strlit("4");
        reveal_strlit("5");
        reveal_strlit("6");
        reveal_strlit("7");
        reveal_strlit("8");
        reveal_strlit("9");
    }
    let r = if d == 0 {
        "0"
    } else if d == 1 {
        "1"
    } else if d == 2 {
        "2"
    } else if d == 3 {
        "3"
    } else if d == 4 {
        "4"
    } else if d == 5 {
        "5"
    } else if d == 6 {
        "6"
    } else if d == 7 {
        "7"
    } else if d == 8 {
        "8"
    } else {
        "9"
    };
    proof {
        assert(r@ =~= seq![digit(d as nat)]);
    }
    r
}

/// Appends the decimal digits of `n`.
pub fn push_decimal(out: &mut String, n: u64)
    ensures
        final(out)@ == old(out)@ + decimal_text(n as nat),
    decreases n,
{
    if n >= 10 {
        push_decimal(out, n / 10);
    }
    out.append(digit_str(n % 10));
    proof {
        assert(final(out)@ =~= old(out)@ + decimal_text(n as nat));
    }
}

/// Appends the decimal form of `n`.
pub fn push_signed(out: &mut String, n: i32)
    ensures
        final(out)@ == old(out)@ + signed_text(n as int),
{
    if n < 0 {
        proof {
            reveal_strlit("-");
            assert("-"@ =~= seq!['-']);
        }
        out.append("-");
        let magnitude: u64 = (-(n as i64)) as u64;
        push_decimal(out, magnitude);
        proof {
            assert(final(out)@ =~= old(out)@ + signed_text(n as int));
        }
    } else {
        push_decimal(out, n as u64);
    }
}

/// Whether `scale` is a power of ten.
pub open spec fn power_of_ten(scale: nat) -> bool
    decreases scale,
{
    scale == 1 || (scale >= 10 && scale % 10 == 0 && power_of_ten(scale / 10))
}

/// Appends the digits of a fraction, up to the last one that is not zero.
fn push_fraction(out: &mut String, frac: u64, scale: u64)
    requires
        scale == 0 ==> frac == 0,
        scale > 0 ==> frac < 10 * scale && power_of_ten(scale as nat),
    ensures
        final(out)@ == old(out)@ + fraction_text(frac as nat, scale as nat),
    decreases scale,
{
    if frac != 0 && scale != 0 {
        proof {
            assert(frac / scale < 10) by (nonlinear_arith)
                requires
                    frac < 10 * scale,
                    scale > 0,
            ;
            assert(frac % scale < scale) by (nonlinear_arith)
                requires
                    scale > 0,
            ;
        }
        out.append(digit_str(frac / scale));
        push_fraction(out, frac % scale, scale / 10);
    }
    proof {
        assert(final(out)@ =~= old(out)@ + fraction_text(frac as nat, scale as nat));
    }
}

/// Appends a number of nanoseconds in milliseconds, as an exact decimal.
pub fn push_millis(out: &mut String, nanos: u64)
    ensures
        final(out)@ == old(out)@ + millis_text(nanos as nat),
{
    push_decimal(out, nanos / 1_000_000);
    let frac = nanos % 1_000_000;
    if frac != 0 {
        proof {
            reveal_strlit(".");
            assert("."@ =~= seq!['.']);
        }
        out.append(".");
        proof {
            reveal_with_fuel(power_of_ten, 7);
        }
        push_fraction(out, frac, 100_000);
        proof {
            assert(final(out)@ =~= old(out)@ + millis_text(nanos as nat));
        }
    }
}

/// Appends the words with `separator` between them.
pub fn push_joined(out: &mut String, words: &Vec<String>, separator: &str)
    ensures
        final(out)@ == old(out)@ + joined(words@, separator@),
{
    let ghost head = out@;
    let mut i: usize = 0;
    proof {
        assert(out@ =~= head + joined(words@.subrange(0, 0), separator@));
    }
    while i < words.len()
        invariant
            i <= words.len(),
            out@ == head + joined(words@.subrange(0, i as int), separator@),
        decreases words.len() - i,
    {
        let ghost before = words@.subrange(0, i as int);
        let ghost now = words@.subrange(0, i + 1);
        proof {
            assert(now.drop_last() =~= before);
            assert(now.last() == words@[i as int]);
        }
        if i > 0 {
            out.append(separator);
        }
        out.append(words[i].as_str());
        proof {
            assert(out@ =~= head + joined(now, separator@));
        }
        i = i + 1;
    }
    proof {
        assert(words@.subrange(0, words@.len() as int) =~= words@);
    }
}

} // verus!
