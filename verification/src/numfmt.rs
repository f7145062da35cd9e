//! Decimal rendering of integers and of fixed-point scores, for building
//! SQL statements whose text the contracts pin down exactly.

use vstd::prelude::*;

verus! {

/// One million: scores are carried as integer millionths.
pub const SCORE_SCALE: i64 = 1000000;

/// The decimal digit character for `d < 10`.
pub open spec fn digit_char(d: nat) -> char {
    if d == 0 {
        '0'
    } else if d == 1 {
        '1'
    } else if d == 2 {
        '2'
    } else if d == 3 {
        '3'
    } else if d == 4 {
        '4'
    } else if d == 5 {
        '5'
    } else if d == 6 {
        '6'
    } else if d == 7 {
        '7'
    } else if d == 8 {
        '8'
    } else {
        '9'
    }
}

/// The usual decimal rendering of `n`, most significant digit first.
pub open spec fn spec_digits(n: nat) -> Seq<char>
    decreases n,
{
    if n < 10 {
        seq![digit_char(n)]
    } else {
        spec_digits(n / 10).push(digit_char(n % 10))
    }
}

/// `n` rendered as exactly `w` decimal digits (leading zeros kept).
pub open spec fn spec_padded(n: nat, w: nat) -> Seq<char>
    decreases w,
{
    if w == 0 {
        Seq::<char>::empty()
    } else {
        spec_padded(n / 10, (w - 1) as nat).push(digit_char(n % 10))
    }
}

/// `s` with its trailing zero digits removed.
pub open spec fn strip_zeros(s: Seq<char>) -> Seq<char>
    decreases s.len(),
{
    if s.len() > 0 && s.last() == '0' {
        strip_zeros(s.drop_last())
    } else {
        s
    }
}

/// A score in millionths rendered as plain decimal text: optional sign,
/// integer part, and a fractional part only when it is non-zero, without
/// trailing zeros.
pub open spec fn spec_score_text(m: int) -> Seq<char> {
    let a = if m < 0 {
        -m
    } else {
        m
    };
    let sign = if m < 0 {
        seq!['-']
    } else {
        Seq::<char>::empty()
    };
    let frac = if a % 1000000 == 0 {
        Seq::<char>::empty()
    } else {
        seq!['.'] + strip_zeros(spec_padded((a % 1000000) as nat, 6))
    };
    sign + spec_digits((a / 1000000) as nat) + frac
}

/// The one-character string of the digit `d`.
fn digit_str(d: u64) -> (r: &'static str)
    requires
        d < 10,
    ensures
        r@.len() == 1,
        r@[0] == digit_char(d as nat),
{
    proof {
        reveal_strlit("0");
        reveal_strlit("1");
        reveal_strlit("2");
        reveal_strlit("3");
        reveal_strlit("4");
        reveal_strlit("5");
        reveal_strlit("6");
        reveal_strlit("7");
        reveal_strlit("8");
        reveal_strlit("9");
    }
    if d == 0 {
        "0"
    } else if d == 1 {
        "1"
    } else if d == 2 {
        "2"
    } else if d == 3 {
        "3"
    } else if d == 4 {
        "4"
    } else if d == 5 {
        "5"
    } else if d == 6 {
        "6"
    } else if d == 7 {
        "7"
    } else if d == 8 {
        "8"
    } else {
        "9"
    }
}

/// Renders `n` in decimal.
pub fn fmt_u64(n: u64) -> (r: String)
    ensures
        r@ == spec_digits(n as nat),
    decreases n,
{
    if n < 10 {
        let r = String::from_str(digit_str(n));
        proof {
            assert(r@ =~= spec_digits(n as nat));
        }
        r
    } else {
        let s = fmt_u64(n / 10);
        let r = s.concat(digit_str(n % 10));
        proof {
            assert(r@ =~= spec_digits(n as nat));
        }
        r
    }
}

/// Renders a `usize` in decimal.
pub fn fmt_usize(n: usize) -> (r: String)
    ensures
        r@ == spec_digits(n as nat),
{
    fmt_u64(n as u64)
}

/// Renders `n` as exactly `w` decimal digits.
fn fmt_padded(n: u64, w: u64) -> (r: String)
    ensures
        r@ == spec_padded(n as nat, w as nat),
    decreases w,
{
    if w == 0 {
        let r = String::new();
        proof {
            assert(r@ =~= spec_padded(n as nat, w as nat));
        }
        r
    } else {
        let s = fmt_padded(n / 10, w - 1);
        let r = s.concat(digit_str(n % 10));
        proof {
            assert(r@ =~= spec_padded(n as nat, w as nat));
        }
        r
    }
}

proof fn lemma_strip_push_zero(s: Seq<char>)
    ensures
        strip_zeros(s.push('0')) == strip_zeros(s),
{
    assert(s.push('0').drop_last() =~= s);
}

proof fn lemma_strip_stable(s: Seq<char>, d: nat)
    requires
        d != 0,
        d < 10,
    ensures
        strip_zeros(s.push(digit_char(d))) == s.push(digit_char(d)),
{
    assert(digit_char(d) != '0');
}

/// Renders a score carried in millionths: sign, integer part, and the
/// non-zero fractional part without trailing zeros.
pub fn fmt_score_micros(m: i64) -> (r: String)
    requires
        m > i64::MIN,
    ensures
        r@ == spec_score_text(m as int),
{
    let a: u64 = if m < 0 {
        (-m) as u64
    } else {
        m as u64
    };
    proof {
        assert(pow10(6) == 1000000) by {
            reveal_with_fuel(pow10, 7);
        }
        assert(pow10(1) == 10) by {
            reveal_with_fuel(pow10, 2);
        }
    }
    let whole = fmt_u64(a / 1000000);
    let rem0: u64 = a % 1000000;
    let body: String = if rem0 == 0 {
        whole
    } else {
        let mut rem: u64 = rem0;
        let mut w: u64 = 6;
        while rem % 10 == 0
            invariant
                0 < rem <= rem0,
                1 <= w <= 6,
                rem < pow10(w as nat),
                strip_zeros(spec_padded(rem0 as nat, 6)) == strip_zeros(
                    spec_padded(rem as nat, w as nat),
                ),
            decreases w,
        {
            proof {
                assert(w >= 2) by {
                    if w == 1 {
                        assert(pow10(1) == 10) by {
                            reveal_with_fuel(pow10, 2);
                        }
                    }
                }
                assert(spec_padded(rem as nat, w as nat) == spec_padded(
                    (rem / 10) as nat,
                    (w - 1) as nat,
                ).push('0'));
                lemma_strip_push_zero(spec_padded((rem / 10) as nat, (w - 1) as nat));
                assert(rem / 10 < pow10((w - 1) as nat)) by {
                    assert(pow10(w as nat) == 10 * pow10((w - 1) as nat));
                };
            }
            rem = rem / 10;
            w = w - 1;
        }
        proof {
            assert(spec_padded(rem as nat, w as nat) == spec_padded(
                (rem / 10) as nat,
                (w - 1) as nat,
            ).push(digit_char((rem % 10) as nat)));
            lemma_strip_stable(
                spec_padded((rem / 10) as nat, (w - 1) as nat),
                (rem % 10) as nat,
            );
        }
        let frac = fmt_padded(rem, w);
        whole.concat(".").concat(frac.as_str())
    };
    proof {
        reveal_strlit(".");
        reveal_strlit("-");
    }
    let res = if m < 0 {
        String::from_str("-").concat(body.as_str())
    } else {
        body
    };
    proof {
        assert(res@ =~= spec_score_text(m as int));
    }
    res
}

/// Ten to the `w`.
pub open spec fn pow10(w: nat) -> nat
    decreases w,
{
    if w == 0 {
        1
    } else {
        10 * pow10((w - 1) as nat)
    }
}

} // verus!
