//! Durations shown as clock text.
use vstd::prelude::*;

use crate::text::push_char;

verus! {

/// The decimal digit for `d`.
pub open spec fn digit(d: nat) -> char {
    seq!['0', '1', '2', '3', '4', '5', '6', '7', '8', '9'][d as int]
}

/// The decimal digits of `n`, without leading zeros.
pub open spec fn decimal(n: nat) -> Seq<char>
    decreases n,
{
    if n < 10 {
        seq![digit(n)]
    } else {
        decimal(n / 10).push(digit(n % 10))
    }
}

/// `n` in at least two digits, with a leading zero below ten.
pub open spec fn padded2(n: nat) -> Seq<char> {
    if n < 10 {
        seq!['0'] + decimal(n)
    } else {
        decimal(n)
    }
}

/// `total` seconds as hours, minutes and seconds: `h:mm:ss`.
pub open spec fn clock_text(total: nat) -> Seq<char> {
    decimal(total / 3600) + seq![':'] + padded2((total % 3600) / 60) + seq![':'] + padded2(total % 60)
}

/// The digit character for `d`.
fn digit_char(d: u64) -> (c: char)
    requires
        d < 10,
    ensures
        c == digit(d as nat),
{
    match d {
        0 => '0',
        1 => '1',
        2 => '2',
        3 => '3',
        4 => '4',
        5 => '5',
        6 => '6',
        7 => '7',
        8 => '8',
        _ => '9',
    }
}

/// The decimal digits of `n`.
pub fn decimal_string(n: u64) -> (r: String)
    ensures
        r@ == decimal(n as nat),
    decreases n,
{
    if n < 10 {
        let mut s = String::new();
        push_char(&mut s, digit_char(n));
        assert(s@ =~= seq![digit(n as nat)]);
        s
    } else {
        let mut s = decimal_string(n / 10);
        push_char(&mut s, digit_char(n % 10));
        s
    }
}

/// `n` in at least two digits.
fn padded_string(n: u64) -> (r: String)
    ensures
        r@ == padded2(n as nat),
{
    if n < 10 {
        let mut s = String::new();
        push_char(&mut s, '0');
        let d = decimal_string(n);
        s.append(d.as_str());
        assert(s@ =~= seq!['0'] + decimal(n as nat));
        s
    } else {
        decimal_string(n)
    }
}

/// A total duration in seconds as `h:mm:ss`.
pub fn display_time(total: u64) -> (r: String)
    ensures
        r@ == clock_text(total as nat),
{
    let seconds = total % 60;
    let minutes = (total % 3600 - seconds) / 60;
    let hours = (total - minutes) / 3600;
    proof {
        lemma_clock_parts(total as nat);
    }
    let mut s = decimal_string(hours);
    push_char(&mut s, ':');
    let m = padded_string(minutes);
    s.append(m.as_str());
    push_char(&mut s, ':');
    let sec = padded_string(seconds);
    s.append(sec.as_str());
    proof {
        assert(s@ =~= clock_text(total as nat));
    }
    s
}

/// The way `display_time` takes a total apart gives hours, minutes below 60
/// and seconds below 60 that add up to the total again.
pub proof fn lemma_clock_parts(total: nat)
    ensures
        total % 60 < 60,
        ((total % 3600 - total % 60) / 60) as nat == (total % 3600) / 60,
        (((total - (total % 3600 - total % 60) / 60) / 3600) as nat) == total / 3600,
        (total % 3600) / 60 < 60,
        (total / 3600) * 3600 + ((total % 3600) / 60) * 60 + total % 60 == total,
{
    assert(total % 3600 == total - (total / 3600) * 3600) by (nonlinear_arith);
    assert(total % 60 == total - (total / 60) * 60) by (nonlinear_arith);
    assert((total % 3600) % 60 == total % 60) by (nonlinear_arith);
    assert((total % 3600) == ((total % 3600) / 60) * 60 + (total % 3600) % 60) by (nonlinear_arith);
    assert((total % 3600) / 60 < 60) by (nonlinear_arith);
    let m = (total % 3600) / 60;
    assert((total % 3600 - total % 60) / 60 == m) by (nonlinear_arith)
        requires
            total % 3600 == m * 60 + total % 60,
    ;
    assert(total == (total / 3600) * 3600 + m * 60 + total % 60);
    assert((total - m) / 3600 == total / 3600) by (nonlinear_arith)
        requires
            total == (total / 3600) * 3600 + m * 60 + total % 60,
            m < 60,
            total % 60 < 60,
    ;
}

/// Whole minutes in `n` seconds, rounded toward zero.
pub open spec fn whole_minutes(n: int) -> int {
    if n >= 0 {
        n / 60
    } else {
        -((-n) / 60)
    }
}

/// `x` in decimal, with a minus sign when negative.
pub open spec fn signed_decimal(x: int) -> Seq<char> {
    if x < 0 {
        seq!['-'] + decimal((-x) as nat)
    } else {
        decimal(x as nat)
    }
}

/// `x` in at least two characters, zero-padded after any sign.
pub open spec fn signed_padded2(x: int) -> Seq<char> {
    if x < 0 {
        seq!['-'] + decimal((-x) as nat)
    } else {
        padded2(x as nat)
    }
}

/// `n` seconds as `m:ss`: the whole minutes, then the seconds left over,
/// both with the sign of `n`.
pub open spec fn minutes_text(n: int) -> Seq<char> {
    let m = whole_minutes(n);
    signed_decimal(m) + seq![':'] + signed_padded2(n - 60 * m)
}

/// A whole number of seconds as `m:ss`.
pub fn format_whole_seconds(seconds: i64) -> (r: String)
    ensures
        r@ == minutes_text(seconds as int),
{
    let negative = seconds < 0;
    let magnitude: u64 = if negative {
        let wide: i128 = seconds as i128;
        (-wide) as u64
    } else {
        seconds as u64
    };
    let minutes = magnitude / 60;
    let rest = magnitude % 60;
    let mut s = String::new();
    if negative && minutes > 0 {
        push_char(&mut s, '-');
    }
    let m = decimal_string(minutes);
    s.append(m.as_str());
    push_char(&mut s, ':');
    if negative && rest > 0 {
        push_char(&mut s, '-');
        let d = decimal_string(rest);
        s.append(d.as_str());
    } else {
        let d = padded_string(rest);
        s.append(d.as_str());
    }
    proof {
        let n = seconds as int;
        let mm = whole_minutes(n);
        assert(magnitude == minutes * 60 + rest);
        if negative {
            assert(mm == -(minutes as int));
            assert(n - 60 * mm == -(rest as int));
        } else {
            assert(mm == minutes as int);
            assert(n - 60 * mm == rest as int);
        }
        assert(s@ =~= minutes_text(n));
    }
    s
}

} // verus!
