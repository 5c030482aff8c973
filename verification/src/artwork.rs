//! Requests for track artwork: which track an image path names.
use vstd::prelude::*;

use crate::text::{begins_with, chars_of, replace, replace_all};
use crate::timefmt::{decimal, decimal_string, digit};

verus! {

/// The text `/trackimage/`.
pub open spec fn image_prefix() -> Seq<char> {
    seq!['/', 't', 'r', 'a', 'c', 'k', 'i', 'm', 'a', 'g', 'e', '/']
}

/// An ASCII decimal digit.
pub open spec fn is_digit(c: char) -> bool {
    '0' <= c <= '9'
}

/// The value of a string of decimal digits.
pub open spec fn digits_value(s: Seq<char>) -> nat
    decreases s.len(),
{
    if s.len() == 0 {
        0
    } else {
        digits_value(s.drop_last()) * 10 + ((s.last() as u32) - ('0' as u32)) as nat
    }
}

/// `s` without a leading `+`.
pub open spec fn unsigned_part(s: Seq<char>) -> Seq<char> {
    if s.len() > 0 && s[0] == '+' {
        s.drop_first()
    } else {
        s
    }
}

/// What `str::parse::<usize>` gives: an optional `+` followed by at least
/// one decimal digit, whose value fits in a `usize`.
pub open spec fn parsed_usize(s: Seq<char>) -> Option<usize> {
    let body = unsigned_part(s);
    if body.len() > 0 && (forall|i: int| 0 <= i < body.len() ==> is_digit(#[trigger] body[i]))
        && digits_value(body) <= usize::MAX {
        Some(digits_value(body) as usize)
    } else {
        None
    }
}

/// The track that an artwork request path names: the path with every
/// `/trackimage/` taken out, read as a number.
pub open spec fn requested_track(path: Seq<char>) -> Option<usize> {
    parsed_usize(replace_all(path, image_prefix(), Seq::<char>::empty()))
}

proof fn lemma_digits_value_grows(s: Seq<char>, k: int)
    requires
        0 <= k <= s.len(),
        forall|i: int| 0 <= i < s.len() ==> is_digit(#[trigger] s[i]),
    ensures
        digits_value(s.take(k)) <= digits_value(s),
    decreases s.len() - k,
{
    if k < s.len() {
        lemma_digits_value_grows(s, k + 1);
        assert(s.take(k + 1).drop_last() =~= s.take(k));
    } else {
        assert(s.take(k) =~= s);
    }
}

/// Reads `s` as `str::parse::<usize>` does.
pub fn parse_usize(s: &str) -> (r: Option<usize>)
    ensures
        r == parsed_usize(s@),
{
    let v = chars_of(s);
    let start: usize = if v.len() > 0 && v[0] == '+' { 1 } else { 0 };
    let ghost body = unsigned_part(s@);
    proof {
        assert(body =~= v@.skip(start as int));
    }
    if start >= v.len() {
        return None;
    }
    let mut value: usize = 0;
    let mut i: usize = start;
    while i < v.len()
        invariant
            start <= i <= v.len(),
            start < v.len(),
            v@ == s@,
            body == v@.skip(start as int),
            body == unsigned_part(s@),
            forall|k: int| 0 <= k < i - start ==> is_digit(#[trigger] body[k]),
            value == digits_value(body.take(i - start)),
        decreases v.len() - i,
    {
        let c = v[i];
        proof {
            assert(body[i - start] == c);
            assert(body.take(i - start + 1).drop_last() =~= body.take(i - start));
            assert(body.take(i - start + 1).last() == c);
        }
        if !('0' <= c && c <= '9') {
            proof {
                assert(!is_digit(body[i - start]));
            }
            return None;
        }
        let d = digit_value(c);
        match value.checked_mul(10) {
            Some(tens) => match tens.checked_add(d) {
                Some(next) => {
                    value = next;
                },
                None => {
                    proof {
                        assert(digits_value(body.take(i - start + 1)) == value * 10 + d);
                        if forall|k: int| 0 <= k < body.len() ==> is_digit(#[trigger] body[k]) {
                            lemma_digits_value_grows(body, i - start + 1);
                        }
                    }
                    return None;
                },
            },
            None => {
                proof {
                    assert(digits_value(body.take(i - start + 1)) == value * 10 + d);
                    assert(value * 10 + d > usize::MAX) by (nonlinear_arith)
                        requires
                            value * 10 > usize::MAX,
                    ;
                    if forall|k: int| 0 <= k < body.len() ==> is_digit(#[trigger] body[k]) {
                        lemma_digits_value_grows(body, i - start + 1);
                    }
                }
                return None;
            },
        }
        i += 1;
    }
    proof {
        assert(body.take(i - start) =~= body);
    }
    Some(value)
}

/// The numeric value of a decimal digit.
fn digit_value(c: char) -> (d: usize)
    requires
        is_digit(c),
    ensures
        d == (c as u32) - ('0' as u32),
{
    let n: u32 = c as u32;
    (n - 48) as usize
}

/// The track that an artwork request path names, if the rest of the path is
/// a number.
pub fn track_image_id(path: &str) -> (r: Option<usize>)
    ensures
        r == requested_track(path@),
{
    let prefix = "/trackimage/";
    let empty = "";
    proof {
        reveal_strlit("/trackimage/");
        reveal_strlit("");
        assert(prefix@ =~= image_prefix());
        assert(empty@ =~= Seq::<char>::empty());
    }
    let rest = replace(path, prefix, empty);
    parse_usize(rest.as_str())
}

/// The artwork path of track `n`: `/trackimage/` followed by its index.
pub open spec fn image_path(n: nat) -> Seq<char> {
    image_prefix() + decimal(n)
}

/// The artwork path that the track lists ask for, for track `idx`.
pub fn track_image_path(idx: u64) -> (r: String)
    ensures
        r@ == image_path(idx as nat),
{
    let mut s = String::from_str("/trackimage/");
    proof {
        reveal_strlit("/trackimage/");
        assert(s@ =~= image_prefix());
    }
    let d = decimal_string(idx);
    s.append(d.as_str());
    s
}

proof fn lemma_digit_is_digit(d: nat)
    requires
        d < 10,
    ensures
        is_digit(digit(d)),
        (digit(d) as u32) - ('0' as u32) == d,
{
    assert(seq!['0', '1', '2', '3', '4', '5', '6', '7', '8', '9'][d as int] == digit(d));
    if d == 0 {
        assert(digit(d) == '0');
    } else if d == 1 {
        assert(digit(d) == '1');
    } else if d == 2 {
        assert(digit(d) == '2');
    } else if d == 3 {
        assert(digit(d) == '3');
    } else if d == 4 {
        assert(digit(d) == '4');
    } else if d == 5 {
        assert(digit(d) == '5');
    } else if d == 6 {
        assert(digit(d) == '6');
    } else if d == 7 {
        assert(digit(d) == '7');
    } else if d == 8 {
        assert(digit(d) == '8');
    } else {
        assert(digit(d) == '9');
    }
}

/// The decimal digits of `n` are digits, and their value is `n`.
proof fn lemma_decimal_value(n: nat)
    ensures
        decimal(n).len() > 0,
        forall|i: int| 0 <= i < decimal(n).len() ==> is_digit(#[trigger] decimal(n)[i]),
        digits_value(decimal(n)) == n,
    decreases n,
{
    if n < 10 {
        lemma_digit_is_digit(n);
        assert(decimal(n) == seq![digit(n)]);
        assert(decimal(n).drop_last() =~= Seq::<char>::empty());
        assert(digits_value(decimal(n)) == digits_value(Seq::<char>::empty()) * 10 + ((digit(n) as u32) - ('0' as u32)) as nat);
    } else {
        lemma_decimal_value(n / 10);
        lemma_digit_is_digit(n % 10);
        let s = decimal(n);
        assert(s.drop_last() =~= decimal(n / 10));
        assert(s.last() == digit(n % 10));
        assert(((s.last() as u32) - ('0' as u32)) as nat == n % 10);
        assert(digits_value(s) == digits_value(decimal(n / 10)) * 10 + n % 10);
        assert((n / 10) * 10 + n % 10 == n) by (nonlinear_arith);
    }
}

/// Taking `/trackimage/` out of a string of digits leaves it unchanged.
proof fn lemma_replace_digits(s: Seq<char>)
    requires
        forall|i: int| 0 <= i < s.len() ==> is_digit(#[trigger] s[i]),
    ensures
        replace_all(s, image_prefix(), Seq::<char>::empty()) == s,
    decreases s.len(),
{
    if s.len() > 0 {
        assert(!begins_with(s, image_prefix())) by {
            if begins_with(s, image_prefix()) {
                assert(s.subrange(0, 12)[0] == s[0]);
                assert(image_prefix()[0] == '/');
            }
        }
        let t = s.drop_first();
        assert forall|i: int| 0 <= i < t.len() implies is_digit(#[trigger] t[i]) by {
            assert(t[i] == s[i + 1]);
        }
        lemma_replace_digits(t);
        assert(seq![s[0]] + t =~= s);
    }
}

/// The artwork path of a track names that track: building the path and
/// reading it back gives the index again.
pub proof fn lemma_image_path_round_trip(n: nat)
    requires
        n <= usize::MAX,
    ensures
        requested_track(image_path(n)) == Some(n as usize),
{
    let d = decimal(n);
    lemma_decimal_value(n);
    let path = image_path(n);
    assert(begins_with(path, image_prefix())) by {
        assert(path.subrange(0, 12) =~= image_prefix());
    }
    assert(path.skip(12) =~= d);
    lemma_replace_digits(d);
    assert(replace_all(path, image_prefix(), Seq::<char>::empty()) =~= d);
    assert(unsigned_part(d) == d) by {
        assert(is_digit(d[0]));
    }
}

} // verus!
