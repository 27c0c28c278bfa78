//! Fixed-point rendering: a scaled integer `r` printed as the decimal number
//! `r / 10^k` with exactly `k` digits after the point, in plain positional
//! notation and never in scientific form.

use crate::num::{lemma_pow10_values, pow10};
use vstd::prelude::*;
use vstd::string::StringExecFns;

verus! {

/// The character of one digit value.
pub open spec fn digit_char(d: nat) -> char
    recommends
        d < 10,
{
    if d == 0 {
        '0'
    } else if d == 1 {
        '1'
    } else if d == 2 {
        '2'
    } else if d == 3 {
        '3'
    } else if d == 4 {
        '4'
    } else if d == 5 {
        '5'
    } else if d == 6 {
        '6'
    } else if d == 7 {
        '7'
    } else if d == 8 {
        '8'
    } else {
        '9'
    }
}

/// The decimal digits of `n`, most significant first, without leading zeros
/// (a single `'0'` for zero).
pub open spec fn dec_digits(n: nat) -> Seq<char>
    decreases n,
{
    if n < 10 {
        seq![digit_char(n)]
    } else {
        dec_digits(n / 10).push(digit_char(n % 10))
    }
}

/// The low `k` decimal digits of `n`, zero-padded to exactly `k` characters.
pub open spec fn dec_digits_pad(n: nat, k: nat) -> Seq<char>
    decreases k,
{
    if k == 0 {
        Seq::empty()
    } else {
        dec_digits_pad(n / 10, (k - 1) as nat).push(digit_char(n % 10))
    }
}

/// The scaled integer `r` written as a fixed-point decimal with `k` digits
/// after the point.
pub open spec fn fmt_fixed(r: nat, k: nat) -> Seq<char> {
    dec_digits(r / pow10(k)) + seq!['.'] + dec_digits_pad(r % pow10(k), k)
}

/// Append the character of the digit `d` to `s`.
pub fn push_digit(s: &mut String, d: u128)
    requires
        d < 10,
    ensures
        final(s)@ == old(s)@ + seq![digit_char(d as nat)],
{
    if d == 0 {
        proof {
            reveal_strlit("0");
            assert("0"@ =~= seq![digit_char(0)]);
        }
        s.append("0");
    } else if d == 1 {
        proof {
            reveal_strlit("1");
            assert("1"@ =~= seq![digit_char(1)]);
        }
        s.append("1");
    } else if d == 2 {
        proof {
            reveal_strlit("2");
            assert("2"@ =~= seq![digit_char(2)]);
        }
        s.append("2");
    } else if d == 3 {
        proof {
            reveal_strlit("3");
            assert("3"@ =~= seq![digit_char(3)]);
        }
        s.append("3");
    } else if d == 4 {
        proof {
            reveal_strlit("4");
            assert("4"@ =~= seq![digit_char(4)]);
        }
        s.append("4");
    } else if d == 5 {
        proof {
            reveal_strlit("5");
            assert("5"@ =~= seq![digit_char(5)]);
        }
        s.append("5");
    } else if d == 6 {
        proof {
            reveal_strlit("6");
            assert("6"@ =~= seq![digit_char(6)]);
        }
        s.append("6");
    } else if d == 7 {
        proof {
            reveal_strlit("7");
            assert("7"@ =~= seq![digit_char(7)]);
        }
        s.append("7");
    } else if d == 8 {
        proof {
            reveal_strlit("8");
            assert("8"@ =~= seq![digit_char(8)]);
        }
        s.append("8");
    } else {
        proof {
            reveal_strlit("9");
            assert("9"@ =~= seq![digit_char(9)]);
        }
        s.append("9");
    }
}

/// Append the decimal digits of `n` to `s`.
pub fn push_num(s: &mut String, n: u128)
    ensures
        final(s)@ == old(s)@ + dec_digits(n as nat),
    decreases n,
{
    if n < 10 {
        push_digit(s, n);
    } else {
        push_num(s, n / 10);
        push_digit(s, n % 10);
        proof {
            assert(old(s)@ + dec_digits((n / 10) as nat) + seq![digit_char((n % 10) as nat)]
                =~= old(s)@ + dec_digits(n as nat));
        }
    }
}

/// Append the low `k` digits of `n` to `s`, zero-padded to width `k`.
pub fn push_num_pad(s: &mut String, n: u128, k: u32)
    requires
        (n as nat) < pow10(k as nat),
    ensures
        final(s)@ == old(s)@ + dec_digits_pad(n as nat, k as nat),
    decreases k,
{
    if k > 0 {
        proof {
            assert(pow10((k - 1) as nat) > (n / 10) as nat);
        }
        push_num_pad(s, n / 10, k - 1);
        push_digit(s, n % 10);
        proof {
            assert(old(s)@ + dec_digits_pad((n / 10) as nat, (k - 1) as nat) + seq![
                digit_char((n % 10) as nat),
            ] =~= old(s)@ + dec_digits_pad(n as nat, k as nat));
        }
    } else {
        proof {
            assert(old(s)@ + dec_digits_pad(n as nat, 0) =~= old(s)@);
        }
    }
}

/// Append `r` as a fixed-point decimal with `k` digits after the point.
pub fn push_fixed(s: &mut String, r: u128, k: u32)
    requires
        k == 2 || k == 3,
    ensures
        final(s)@ == old(s)@ + fmt_fixed(r as nat, k as nat),
{
    proof {
        lemma_pow10_values();
    }
    let p: u128 = if k == 2 {
        100
    } else {
        1000
    };
    push_num(s, r / p);
    proof {
        reveal_strlit(".");
        assert("."@ =~= seq!['.']);
    }
    s.append(".");
    push_num_pad(s, r % p, k);
    proof {
        assert(old(s)@ + dec_digits((r as nat) / pow10(k as nat)) + seq!['.'] + dec_digits_pad(
            (r as nat) % pow10(k as nat),
            k as nat,
        ) =~= old(s)@ + fmt_fixed(r as nat, k as nat));
    }
}

} // verus!
