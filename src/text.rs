//! Rendering of integers, clock times and durations as text.
use vstd::prelude::*;

verus! {

/// The character of a decimal digit.
pub open spec fn digit_char(d: nat) -> char {
    if d == 0 {
        '0'
    } else if d == 1 {
        '1'
    } else if d == 2 {
        '2'
    } else if d == 3 {
        '3'
    } else if d == 4 {
        '4'
    } else if d == 5 {
        '5'
    } else if d == 6 {
        '6'
    } else if d == 7 {
        '7'
    } else if d == 8 {
        '8'
    } else {
        '9'
    }
}

/// The decimal representation of `n`, without leading zeros.
pub open spec fn decimal(n: nat) -> Seq<char>
    decreases n,
{
    if n < 10 {
        seq![digit_char(n)]
    } else {
        decimal(n / 10) + seq![digit_char(n % 10)]
    }
}

/// Exactly two decimal digits, with a leading zero where needed (`n < 100`).
pub open spec fn two_digits(n: nat) -> Seq<char> {
    seq![digit_char(n / 10), digit_char(n % 10)]
}

/// The fractional part `rem / unit` of a quantity, truncated to hundredths and
/// written without trailing zeros; empty when it is below one hundredth.
pub open spec fn fraction_text(rem: nat, unit: nat) -> Seq<char> {
    let c = rem * 100 / unit;
    if c == 0 {
        seq![]
    } else if c % 10 == 0 {
        seq!['.', digit_char(c / 10)]
    } else {
        seq!['.', digit_char(c / 10), digit_char(c % 10)]
    }
}

/// A non-negative number of seconds in its largest non-zero unit:
/// hours if there is at least one whole hour, else minutes if there is at
/// least one whole minute, else seconds.
pub open spec fn magnitude_text(mag: nat) -> Seq<char> {
    if mag / 3600 != 0 {
        decimal(mag / 3600) + fraction_text(mag % 3600, 3600) + seq!['h']
    } else if mag / 60 != 0 {
        decimal(mag / 60) + fraction_text(mag % 60, 60) + seq!['m', 'i', 'n']
    } else {
        decimal(mag) + seq!['s']
    }
}

/// A signed number of seconds as text: a minus sign for a negative span,
/// then its magnitude.
pub open spec fn duration_text(d: int) -> Seq<char> {
    if d < 0 {
        seq!['-'] + magnitude_text((-d) as nat)
    } else {
        magnitude_text(d as nat)
    }
}

/// The 24-hour clock time `HH:MM` of a second within a day (`secs < 86400`).
pub open spec fn clock_text(secs: nat) -> Seq<char> {
    two_digits(secs / 3600) + seq![':'] + two_digits((secs % 3600) / 60)
}

fn append_digit(s: &mut String, d: u128)
    requires
        d < 10,
    ensures
        final(s)@ == old(s)@ + seq![digit_char(d as nat)],
{
    let piece: &str = if d == 0 {
        "0"
    } else if d == 1 {
        "1"
    } else if d == 2 {
        "2"
    } else if d == 3 {
        "3"
    } else if d == 4 {
        "4"
    } else if d == 5 {
        "5"
    } else if d == 6 {
        "6"
    } else if d == 7 {
        "7"
    } else if d == 8 {
        "8"
    } else {
        "9"
    };
    proof {
        reveal_strlit("0");
        reveal_strlit("1");
        reveal_strlit("2");
        reveal_strlit("3");
        reveal_strlit("4");
        reveal_strlit("5");
        reveal_strlit("6");
        reveal_strlit("7");
        reveal_strlit("8");
        reveal_strlit("9");
    }
    s.append(piece);
}

/// Appends the decimal representation of `n` to `s`.
pub fn append_decimal(s: &mut String, n: u128)
    ensures
        final(s)@ == old(s)@ + decimal(n as nat),
    decreases n,
{
    if n >= 10 {
        append_decimal(s, n / 10);
    }
    append_digit(s, n % 10);
    proof {
        assert(final(s)@ =~= old(s)@ + decimal(n as nat));
    }
}

fn append_fraction(s: &mut String, rem: u128, unit: u128)
    requires
        0 < unit <= 3600,
        rem < unit,
    ensures
        final(s)@ == old(s)@ + fraction_text(rem as nat, unit as nat),
{
    assert(rem * 100 < unit * 100) by (nonlinear_arith)
        requires
            rem < unit,
    ;
    let c: u128 = rem * 100 / unit;
    assert(c < 100) by (nonlinear_arith)
        requires
            c as int == (rem as int * 100) / unit as int,
            rem < unit,
            0 < unit,
    ;
    if c != 0 {
        proof {
            reveal_strlit(".");
        }
        s.append(".");
        append_digit(s, c / 10);
        if c % 10 != 0 {
            append_digit(s, c % 10);
        }
    }
    proof {
        assert(final(s)@ =~= old(s)@ + fraction_text(rem as nat, unit as nat));
    }
}

/// Appends `magnitude_text(mag)` to `s`.
pub fn append_magnitude(s: &mut String, mag: u128)
    ensures
        final(s)@ == old(s)@ + magnitude_text(mag as nat),
{
    let hours: u128 = mag / 3600;
    let minutes: u128 = mag / 60;
    if hours != 0 {
        append_decimal(s, hours);
        append_fraction(s, mag % 3600, 3600);
        proof {
            reveal_strlit("h");
        }
        s.append("h");
    } else if minutes != 0 {
        append_decimal(s, minutes);
        append_fraction(s, mag % 60, 60);
        proof {
            reveal_strlit("min");
        }
        s.append("min");
    } else {
        append_decimal(s, mag);
        proof {
            reveal_strlit("s");
        }
        s.append("s");
    }
    proof {
        assert(final(s)@ =~= old(s)@ + magnitude_text(mag as nat));
    }
}

/// Appends `duration_text(d)` to `s`.
pub fn append_duration(s: &mut String, d: i128)
    requires
        d > i128::MIN,
    ensures
        final(s)@ == old(s)@ + duration_text(d as int),
{
    if d < 0 {
        proof {
            reveal_strlit("-");
        }
        s.append("-");
        append_magnitude(s, (-d) as u128);
    } else {
        append_magnitude(s, d as u128);
    }
    proof {
        assert(final(s)@ =~= old(s)@ + duration_text(d as int));
    }
}

/// Appends the clock time `HH:MM` of a second within a day to `s`.
pub fn append_clock(s: &mut String, secs: u64)
    requires
        secs < 86400,
    ensures
        final(s)@ == old(s)@ + clock_text(secs as nat),
{
    let h: u128 = (secs / 3600) as u128;
    let m: u128 = ((secs % 3600) / 60) as u128;
    append_digit(s, h / 10);
    append_digit(s, h % 10);
    proof {
        reveal_strlit(":");
    }
    s.append(":");
    append_digit(s, m / 10);
    append_digit(s, m % 10);
    proof {
        assert(final(s)@ =~= old(s)@ + clock_text(secs as nat));
    }
}

/// Renders a signed number of seconds in its largest non-zero unit, with the
/// remainder as hundredths of that unit where it has any: `2h`, `1.5h`,
/// `30min`, `45s`, `0s`.
pub fn format_duration(d: i64) -> (r: String)
    ensures
        r@ == duration_text(d as int),
{
    let mut s = String::new();
    append_duration(&mut s, d as i128);
    proof {
        assert(s@ =~= duration_text(d as int));
    }
    s
}

proof fn lemma_decimal_leading_digit(n: nat)
    requires
        n >= 1,
    ensures
        decimal(n).len() >= 1,
        decimal(n)[0] != '0',
    decreases n,
{
    if n >= 10 {
        lemma_decimal_leading_digit(n / 10);
    }
}

/// A duration is written in exactly one unit, the largest in which it has a
/// whole part: hours from one hour on, minutes from one minute on, seconds
/// below that; the whole part in that unit is non-zero, so its first digit is
/// not `0`. The zero duration is written `0s`.
pub proof fn duration_uses_one_unit(d: int)
    ensures
        ({
            let m = if d < 0 { -d } else { d };
            &&& m >= 3600 ==> m / 3600 >= 1 && decimal((m / 3600) as nat)[0] != '0'
                && magnitude_text(m as nat) == decimal((m / 3600) as nat) + fraction_text(
                (m % 3600) as nat,
                3600,
            ) + seq!['h']
            &&& 60 <= m < 3600 ==> m / 60 >= 1 && decimal((m / 60) as nat)[0] != '0'
                && magnitude_text(m as nat) == decimal((m / 60) as nat) + fraction_text(
                (m % 60) as nat,
                60,
            ) + seq!['m', 'i', 'n']
            &&& 0 < m < 60 ==> decimal(m as nat)[0] != '0' && magnitude_text(m as nat) == decimal(
                m as nat,
            ) + seq!['s']
            &&& duration_text(d) == if d < 0 {
                seq!['-'] + magnitude_text(m as nat)
            } else {
                magnitude_text(m as nat)
            }
        }),
        duration_text(0) == seq!['0', 's'],
{
    let m = if d < 0 { -d } else { d };
    if m >= 3600 {
        lemma_decimal_leading_digit((m / 3600) as nat);
    } else if m >= 60 {
        lemma_decimal_leading_digit((m / 60) as nat);
    } else if m > 0 {
        lemma_decimal_leading_digit(m as nat);
    }
    assert(decimal(0) == seq![digit_char(0)]);
    assert(duration_text(0) =~= seq!['0', 's']);
}

} // verus!
