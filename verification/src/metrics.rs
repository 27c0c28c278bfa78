//! The derived metrics and their assembly into one reply.
//!
//! Each measurement is an exact decimal `mant / 10^scale`. A metric is the
//! quotient of two measurements, rounded to `k` decimal places, to the nearest
//! value with ties rounded up, and rendered in fixed-point notation.
//!
//! The fuel metrics (litres per 100 km and km per litre) form one pair: the
//! pair appears only when distance and volume are both present and both
//! nonzero, so a zero denominator never reaches a division and a zero
//! distance never yields a lone `0.000 km/l` entry. The cost metric appears
//! when distance and cost are present and the distance is nonzero.

use crate::fmt::{fmt_fixed, push_fixed};
use crate::num::{lemma_pow10_mono, lemma_pow10_pos, lemma_pow10_values, pow10};
use vstd::prelude::*;
use vstd::string::StringExecFns;

verus! {

/// The quotient `n / d` scaled by `10^k` and rounded to the nearest integer,
/// ties up: `round(n * 10^k / d)`.
pub open spec fn round_div(n: nat, d: nat, k: nat) -> nat
    recommends
        d > 0,
{
    (2 * n * pow10(k) + d) / (2 * d)
}

/// A measurement: an exact decimal value `mant / 10^scale`.
pub open spec fn meas_ok(m: (nat, nat)) -> bool {
    m.0 < pow10(19) && m.1 <= 12
}

pub open spec fn sep() -> Seq<char> {
    seq![',', ' ']
}

/// `"{100 * volume / distance to 3 decimals} l/100km"`.
pub open spec fn entry_l_per_100km(km: (nat, nat), l: (nat, nat)) -> Seq<char> {
    fmt_fixed(round_div(100 * l.0 * pow10(km.1), km.0 * pow10(l.1), 3), 3) + seq![
        ' ',
        'l',
        '/',
        '1',
        '0',
        '0',
        'k',
        'm',
    ]
}

/// `"{distance / volume to 3 decimals} km/l"`.
pub open spec fn entry_km_per_l(km: (nat, nat), l: (nat, nat)) -> Seq<char> {
    fmt_fixed(round_div(km.0 * pow10(l.1), l.0 * pow10(km.1), 3), 3) + seq![
        ' ',
        'k',
        'm',
        '/',
        'l',
    ]
}

/// `"{cost / distance to 2 decimals} rub/km"`.
pub open spec fn entry_rub_per_km(km: (nat, nat), rub: (nat, nat)) -> Seq<char> {
    fmt_fixed(round_div(rub.0 * pow10(km.1), km.0 * pow10(rub.1), 2), 2) + seq![
        ' ',
        'r',
        'u',
        'b',
        '/',
        'k',
        'm',
    ]
}

/// Does the fuel pair appear?
pub open spec fn has_pair(km: Option<(nat, nat)>, l: Option<(nat, nat)>) -> bool {
    km is Some && l is Some && km.unwrap().0 != 0 && l.unwrap().0 != 0
}

/// Does the cost metric appear?
pub open spec fn has_cost(km: Option<(nat, nat)>, rub: Option<(nat, nat)>) -> bool {
    km is Some && rub is Some && km.unwrap().0 != 0
}

/// The whole reply: the entries that the present measurements allow, in fixed
/// order, joined with `", "`; nothing when no metric is computable.
pub open spec fn assemble(
    km: Option<(nat, nat)>,
    l: Option<(nat, nat)>,
    rub: Option<(nat, nat)>,
) -> Option<Seq<char>> {
    if has_pair(km, l) && has_cost(km, rub) {
        Some(
            entry_l_per_100km(km.unwrap(), l.unwrap()) + sep() + entry_km_per_l(
                km.unwrap(),
                l.unwrap(),
            ) + sep() + entry_rub_per_km(km.unwrap(), rub.unwrap()),
        )
    } else if has_pair(km, l) {
        Some(
            entry_l_per_100km(km.unwrap(), l.unwrap()) + sep() + entry_km_per_l(
                km.unwrap(),
                l.unwrap(),
            ),
        )
    } else if has_cost(km, rub) {
        Some(entry_rub_per_km(km.unwrap(), rub.unwrap()))
    } else {
        None
    }
}

/// The view of an extracted measurement.
pub open spec fn meas(o: Option<(u64, u32)>) -> Option<(nat, nat)> {
    match o {
        Some(v) => Some((v.0 as nat, v.1 as nat)),
        None => None,
    }
}

/// Exactly rounded division, `round(n * 10^k / d)` with ties up.
fn rdiv(n: u128, d: u128, k: u32) -> (r: u128)
    requires
        k == 2 || k == 3,
        d >= 1,
        2 * (n as nat) * pow10(k as nat) + d <= u128::MAX,
        2 * (d as nat) <= u128::MAX,
    ensures
        r as nat == round_div(n as nat, d as nat, k as nat),
{
    proof {
        lemma_pow10_values();
    }
    let p: u128 = if k == 2 {
        100
    } else {
        1000
    };
    proof {
        assert(p as nat == pow10(k as nat));
        assert(2 * (n as nat) <= 2 * (n as nat) * (p as nat)) by (nonlinear_arith)
            requires
                (p as nat) >= 1,
        ;
    }
    (2 * n * p + d) / (2 * d)
}

/// One factor of a metric quotient: a mantissa brought to the other
/// measurement's scale.
fn scaled(m: u64, e: u32) -> (r: u128)
    requires
        (m as nat) < pow10(19),
        e <= 12,
    ensures
        r as nat == (m as nat) * pow10(e as nat),
        (r as nat) < pow10(31),
        m != 0 ==> r >= 1,
{
    proof {
        lemma_pow10_values();
        lemma_pow10_mono(e as nat, 12);
        lemma_pow10_pos(e as nat);
        assert((m as nat) * pow10(e as nat) < pow10(19) * pow10(12)) by (nonlinear_arith)
            requires
                (m as nat) < pow10(19),
                pow10(e as nat) <= pow10(12),
                pow10(e as nat) >= 1,
                pow10(19) > 0,
        ;
        assert(pow10(19) * pow10(12) == pow10(31)) by {
            lemma_pow10_values();
        }
        assert(m != 0 ==> (m as nat) * pow10(e as nat) >= 1) by (nonlinear_arith)
            requires
                pow10(e as nat) >= 1,
        ;
    }
    let mut p: u128 = 1;
    let mut j: u32 = 0;
    while j < e
        invariant
            j <= e,
            e <= 12,
            p as nat == pow10(j as nat),
        decreases e - j,
    {
        proof {
            lemma_pow10_mono((j + 1) as nat, 12);
            lemma_pow10_values();
        }
        p = p * 10;
        j = j + 1;
    }
    (m as u128) * p
}

/// Render the reply for the extracted measurements: `assemble`, exactly.
pub fn render_reply(km: Option<(u64, u32)>, l: Option<(u64, u32)>, rub: Option<(u64, u32)>) -> (r:
    Option<String>)
    requires
        (km matches Some(v) ==> (v.0 as nat) < pow10(19) && v.1 <= 12),
        (l matches Some(v) ==> (v.0 as nat) < pow10(19) && v.1 <= 12),
        (rub matches Some(v) ==> (v.0 as nat) < pow10(19) && v.1 <= 12),
    ensures
        match (r, assemble(meas(km), meas(l), meas(rub))) {
            (Some(a), Some(b)) => a@ == b,
            (None, None) => true,
            _ => false,
        },
{
    proof {
        lemma_pow10_values();
    }
    let pair = match (km, l) {
        (Some(a), Some(b)) => a.0 != 0 && b.0 != 0,
        _ => false,
    };
    let cost = match (km, rub) {
        (Some(a), Some(c)) => a.0 != 0,
        _ => false,
    };
    if !pair && !cost {
        return None;
    }
    let mut out = String::new();
    if pair {
        let a = km.unwrap();
        let b = l.unwrap();
        let an = scaled(a.0, b.1);
        let bn = scaled(b.0, a.1);
        proof {
            assert((bn as nat) < pow10(31) && (an as nat) < pow10(31));
            lemma_pow10_values();
        }
        proof {
            assert(100 * (bn as nat) == 100 * (b.0 as nat) * pow10(a.1 as nat))
                by (nonlinear_arith)
                requires
                    (bn as nat) == (b.0 as nat) * pow10(a.1 as nat),
            ;
        }
        let r1 = rdiv(100 * bn, an, 3);
        push_fixed(&mut out, r1, 3);
        proof {
            reveal_strlit(" l/100km");
            assert(" l/100km"@ =~= seq![' ', 'l', '/', '1', '0', '0', 'k', 'm']);
        }
        out.append(" l/100km");
        proof {
            assert(out@ =~= entry_l_per_100km(meas(km).unwrap(), meas(l).unwrap()));
        }
        proof {
            reveal_strlit(", ");
            assert(", "@ =~= sep());
        }
        out.append(", ");
        let r2 = rdiv(an, bn, 3);
        push_fixed(&mut out, r2, 3);
        proof {
            reveal_strlit(" km/l");
            assert(" km/l"@ =~= seq![' ', 'k', 'm', '/', 'l']);
        }
        out.append(" km/l");
        proof {
            assert(out@ =~= entry_l_per_100km(meas(km).unwrap(), meas(l).unwrap()) + sep()
                + entry_km_per_l(meas(km).unwrap(), meas(l).unwrap()));
        }
    }
    if cost {
        if pair {
            proof {
                reveal_strlit(", ");
                assert(", "@ =~= sep());
            }
            out.append(", ");
        }
        let a = km.unwrap();
        let c = rub.unwrap();
        let cn = scaled(c.0, a.1);
        let dn = scaled(a.0, c.1);
        proof {
            assert((cn as nat) < pow10(31) && (dn as nat) < pow10(31));
            lemma_pow10_values();
        }
        let r3 = rdiv(cn, dn, 2);
        push_fixed(&mut out, r3, 2);
        proof {
            reveal_strlit(" rub/km");
            assert(" rub/km"@ =~= seq![' ', 'r', 'u', 'b', '/', 'k', 'm']);
        }
        out.append(" rub/km");
    }
    proof {
        if pair && cost {
            assert(out@ =~= entry_l_per_100km(meas(km).unwrap(), meas(l).unwrap()) + sep()
                + entry_km_per_l(meas(km).unwrap(), meas(l).unwrap()) + sep() + entry_rub_per_km(
                meas(km).unwrap(),
                meas(rub).unwrap(),
            ));
        } else if cost {
            assert(out@ =~= entry_rub_per_km(meas(km).unwrap(), meas(rub).unwrap()));
        }
    }
    Some(out)
}

} // verus!
