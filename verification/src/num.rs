//! Unsigned decimal numerals: the grammar of a numeric token once its unit
//! suffix is stripped, its exact value as an integer mantissa with a
//! power-of-ten scale, and a verified parser.
//!
//! A numeral is one or more decimal digits with at most one `'.'` anywhere in
//! it (so `"1."` and `".5"` are accepted, `""`, `"."` and `"1.2.3"` are not).
//! Two machine limits keep every later computation inside `u128`: at most 19
//! digits in all, and at most 12 digits after the point. A token outside the
//! grammar or the limits contributes no measurement.

use vstd::prelude::*;

verus! {

/// 10 to the power `n`.
pub open spec fn pow10(n: nat) -> nat
    decreases n,
{
    if n == 0 {
        1
    } else {
        10 * pow10((n - 1) as nat)
    }
}

pub proof fn lemma_pow10_pos(n: nat)
    ensures
        pow10(n) >= 1,
    decreases n,
{
    if n > 0 {
        lemma_pow10_pos((n - 1) as nat);
    }
}

pub proof fn lemma_pow10_mono(a: nat, b: nat)
    requires
        a <= b,
    ensures
        pow10(a) <= pow10(b),
    decreases b,
{
    if a < b {
        lemma_pow10_mono(a, (b - 1) as nat);
        lemma_pow10_pos((b - 1) as nat);
    }
}

/// The concrete powers of ten that the overflow arguments need.
pub proof fn lemma_pow10_values()
    ensures
        pow10(2) == 100,
        pow10(3) == 1000,
        pow10(12) == 1_000_000_000_000,
        pow10(18) == 1_000_000_000_000_000_000,
        pow10(19) == 10_000_000_000_000_000_000,
        pow10(21) == 1_000_000_000_000_000_000_000,
        pow10(31) == 10_000_000_000_000_000_000_000_000_000_000,
        pow10(33) == 1_000_000_000_000_000_000_000_000_000_000_000,
        pow10(36) == 1_000_000_000_000_000_000_000_000_000_000_000_000,
{
    reveal_with_fuel(pow10, 37);
}

/// Is `c` a decimal digit? Stated over the code point so that the digit's
/// value can be read off the same cast.
pub open spec fn is_digit(c: char) -> bool {
    48 <= c as u32 && c as u32 <= 57
}

/// The value of a digit character.
pub open spec fn digit_val(c: char) -> nat
    recommends
        is_digit(c),
{
    (c as u32 - 48) as nat
}

/// May `c` stand in a numeral at all?
pub open spec fn is_numchar(c: char) -> bool {
    is_digit(c) || c == '.'
}

pub open spec fn all_numchars(t: Seq<char>) -> bool {
    forall|i: int| 0 <= i < t.len() ==> is_numchar(t[i])
}

/// The mantissa of `t`: its digits read as one integer, the point ignored.
pub open spec fn mant_of(t: Seq<char>) -> nat
    decreases t.len(),
{
    if t.len() == 0 {
        0
    } else if t.last() == '.' {
        mant_of(t.drop_last())
    } else {
        mant_of(t.drop_last()) * 10 + digit_val(t.last())
    }
}

/// How many characters of `t` are not the point.
pub open spec fn ndigits_of(t: Seq<char>) -> nat
    decreases t.len(),
{
    if t.len() == 0 {
        0
    } else if t.last() == '.' {
        ndigits_of(t.drop_last())
    } else {
        1 + ndigits_of(t.drop_last())
    }
}

/// How many points `t` holds.
pub open spec fn dots_of(t: Seq<char>) -> nat
    decreases t.len(),
{
    if t.len() == 0 {
        0
    } else if t.last() == '.' {
        1 + dots_of(t.drop_last())
    } else {
        dots_of(t.drop_last())
    }
}

/// The number of characters after the last point of `t`.
pub open spec fn rfrac_of(t: Seq<char>) -> nat
    decreases t.len(),
{
    if t.len() == 0 {
        0
    } else if t.last() == '.' {
        0
    } else {
        1 + rfrac_of(t.drop_last())
    }
}

/// The scale of `t`: how many digits stand after the point, zero if there is
/// no point.
pub open spec fn scale_of(t: Seq<char>) -> nat {
    if dots_of(t) == 0 {
        0
    } else {
        rfrac_of(t)
    }
}

/// The numeral grammar together with the machine limits.
pub open spec fn numeral_ok(t: Seq<char>) -> bool {
    &&& t.len() > 0
    &&& all_numchars(t)
    &&& dots_of(t) <= 1
    &&& 1 <= ndigits_of(t)
    &&& ndigits_of(t) <= 19
    &&& scale_of(t) <= 12
}

/// What a stripped token means: its exact value `mant / 10^scale`, or nothing.
pub open spec fn parse_num(t: Seq<char>) -> Option<(nat, nat)> {
    if numeral_ok(t) {
        Some((mant_of(t), scale_of(t)))
    } else {
        None
    }
}

/// A mantissa has fewer digits than ten to the number of its digits.
pub proof fn lemma_mant_bound(t: Seq<char>)
    requires
        all_numchars(t),
    ensures
        mant_of(t) < pow10(ndigits_of(t)),
    decreases t.len(),
{
    if t.len() == 0 {
    } else {
        assert(all_numchars(t.drop_last())) by {
            assert(forall|i: int|
                0 <= i < t.len() - 1 ==> t.drop_last()[i] == t[i] && is_numchar(t[i]));
        }
        lemma_mant_bound(t.drop_last());
        if t.last() == '.' {
        } else {
            assert(is_numchar(t.last()));
            assert(digit_val(t.last()) <= 9);
        }
    }
}

pub proof fn lemma_ndigits_take_le(t: Seq<char>, i: int)
    requires
        0 <= i <= t.len(),
    ensures
        ndigits_of(t.take(i)) <= ndigits_of(t),
    decreases t.len() - i,
{
    if i == t.len() {
        assert(t.take(i) =~= t);
    } else {
        lemma_ndigits_take_le(t, i + 1);
        assert(t.take(i + 1).drop_last() =~= t.take(i));
    }
}

pub proof fn lemma_dots_take_le(t: Seq<char>, i: int)
    requires
        0 <= i <= t.len(),
    ensures
        dots_of(t.take(i)) <= dots_of(t),
    decreases t.len() - i,
{
    if i == t.len() {
        assert(t.take(i) =~= t);
    } else {
        lemma_dots_take_le(t, i + 1);
        assert(t.take(i + 1).drop_last() =~= t.take(i));
    }
}

/// Parse the first `end` characters of `t` as a numeral. Returns the mantissa
/// and scale exactly as `parse_num` gives them, or `None` exactly where
/// `parse_num` does.
pub fn parse_prefix(t: &Vec<char>, end: usize) -> (r: Option<(u64, u32)>)
    requires
        end <= t@.len(),
    ensures
        match (r, parse_num(t@.take(end as int))) {
            (Some(v), Some(w)) => {
                &&& v.0 as nat == w.0
                &&& v.1 as nat == w.1
                &&& (v.0 as nat) < pow10(19)
                &&& v.1 <= 12
            },
            (None, None) => true,
            _ => false,
        },
{
    let ghost pre = t@.take(end as int);
    let mut mant: u64 = 0;
    let mut nd: usize = 0;
    let mut frac: usize = 0;
    let mut seen_dot: bool = false;
    let mut i: usize = 0;
    proof {
        lemma_pow10_values();
    }
    while i < end
        invariant
            i <= end,
            all_numchars(pre.take(i as int)),
            nd == ndigits_of(pre.take(i as int)),
            nd <= 19,
            mant == mant_of(pre.take(i as int)),
            seen_dot == (dots_of(pre.take(i as int)) == 1),
            dots_of(pre.take(i as int)) <= 1,
            frac == if seen_dot {
                rfrac_of(pre.take(i as int))
            } else {
                0
            },
            frac <= i,
        decreases end - i,
    {
        let c = t[i];
        proof {
            assert(pre.take(i + 1).drop_last() =~= pre.take(i as int));
            assert(pre.take(i + 1).last() == c);
        }
        if c == '.' {
            if seen_dot {
                proof {
                    lemma_dots_take_le(pre, i + 1);
                }
                return None;
            }
            seen_dot = true;
            frac = 0;
        } else {
            let u = c as u32;
            if 48 <= u && u <= 57 {
                if nd == 19 {
                    proof {
                        lemma_ndigits_take_le(pre, i + 1);
                    }
                    return None;
                }
                proof {
                    lemma_mant_bound(pre.take(i as int));
                    lemma_pow10_mono(ndigits_of(pre.take(i as int)), 18);
                }
                nd = nd + 1;
                mant = mant * 10 + ((u - 48) as u64);
                if seen_dot {
                    frac = frac + 1;
                }
            } else {
                return None;
            }
        }
        i = i + 1;
    }
    proof {
        assert(pre.take(end as int) =~= pre);
    }
    if nd == 0 || frac > 12 {
        return None;
    }
    proof {
        lemma_mant_bound(pre);
        lemma_pow10_mono(ndigits_of(pre), 19);
        lemma_pow10_values();
    }
    Some((mant, frac as u32))
}

} // verus!
