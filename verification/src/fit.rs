//! Deciding exactly whether a transaction's flow arithmetic stays within
//! `rust_decimal`'s range (see `budget::tx_in_range`), with products of
//! 128-bit numbers taken to 256 bits.
use vstd::prelude::*;

use crate::amount::{abs_int, lemma_pow10_add, lemma_pow10_mono, lemma_pow10_pos, pow10, view_units, Amount};
use crate::amount::{fits_at, mantissa_bound, max_nat};
use crate::budget::{cap_in_range, legs_magnitude, leg_views};

verus! {

/// `2^64`.
pub open spec fn b64() -> int {
    0x1_0000_0000_0000_0000int
}

/// `2^128`.
pub open spec fn b128() -> int {
    b64() * b64()
}

proof fn lemma_split(x: int)
    requires
        0 <= x,
    ensures
        x == (x / b64()) * b64() + x % b64(),
        0 <= x % b64() < b64(),
        x / b64() >= 0,
{
}

/// The exact product of two 128-bit numbers as `(high, low)` halves.
pub fn mul_wide(a: u128, b: u128) -> (r: (u128, u128))
    ensures
        r.0 * b128() + r.1 == a * b,
{
    let m: u128 = 0x1_0000_0000_0000_0000;
    let a0 = a % m;
    let a1 = a / m;
    let b0 = b % m;
    let b1 = b / m;
    proof {
        lemma_split(a as int);
        lemma_split(b as int);
        assert(a1 < m && b1 < m);
    }
    assert(a0 * b0 < b128()) by (nonlinear_arith)
        requires
            a0 < b64(),
            b0 < b64(),
            b128() == b64() * b64(),
    ;
    assert(a0 * b1 < b128()) by (nonlinear_arith)
        requires
            a0 < b64(),
            b1 < b64(),
            b128() == b64() * b64(),
    ;
    assert(a1 * b0 < b128()) by (nonlinear_arith)
        requires
            a1 < b64(),
            b0 < b64(),
            b128() == b64() * b64(),
    ;
    assert(a1 * b1 <= (b64() - 1) * (b64() - 1)) by (nonlinear_arith)
        requires
            a1 < b64(),
            b1 < b64(),
            a1 >= 0,
            b1 >= 0,
    ;
    let p00 = a0 * b0;
    let p01 = a0 * b1;
    let p10 = a1 * b0;
    let p11 = a1 * b1;
    proof {
        lemma_split(p00 as int);
        lemma_split(p01 as int);
        lemma_split(p10 as int);
    }
    let mid = p00 / m + p01 % m + p10 % m;
    proof {
        lemma_split(mid as int);
    }
    let lo = p00 % m + (mid % m) * m;
    proof {
        assert(p01 <= (b64() - 1) * (b64() - 1)) by (nonlinear_arith)
            requires
                p01 == a0 * b1,
                0 <= a0 < b64(),
                0 <= b1 < b64(),
        ;
        assert(p10 <= (b64() - 1) * (b64() - 1)) by (nonlinear_arith)
            requires
                p10 == a1 * b0,
                0 <= a1 < b64(),
                0 <= b0 < b64(),
        ;
        assert(p01 / m <= b64() - 2) by (nonlinear_arith)
            requires
                p01 <= (b64() - 1) * (b64() - 1),
                m == b64(),
                p01 >= 0,
        ;
        assert(p10 / m <= b64() - 2) by (nonlinear_arith)
            requires
                p10 <= (b64() - 1) * (b64() - 1),
                m == b64(),
                p10 >= 0,
        ;
        assert(mid < 3 * b64());
        assert(mid / m < 3) by (nonlinear_arith)
            requires
                mid < 3 * b64(),
                m == b64(),
        ;
        assert(p11 + p01 / m + p10 / m + mid / m < b128()) by (nonlinear_arith)
            requires
                p11 <= (b64() - 1) * (b64() - 1),
                p01 / m <= b64() - 2,
                p10 / m <= b64() - 2,
                mid / m < 3,
                b128() == b64() * b64(),
        ;
    }
    let hi = p11 + p01 / m + p10 / m + mid / m;
    proof {
        let (x00, x01, x10, x11) = (p00 as int, p01 as int, p10 as int, p11 as int);
        let (q00, q01, q10) = (p00 / m, p01 / m, p10 / m);
        let (r00, r01, r10) = (p00 % m, p01 % m, p10 % m);
        let (mq, mr) = (mid / m, mid % m);
        assert(x00 == q00 * b64() + r00);
        assert(x01 == q01 * b64() + r01);
        assert(x10 == q10 * b64() + r10);
        assert(mid == mq * b64() + mr);
        assert(a == a1 * b64() + a0);
        assert(b == b1 * b64() + b0);
        assert(a * b == x11 * b128() + (x01 + x10) * b64() + x00) by (nonlinear_arith)
            requires
                a == a1 * b64() + a0,
                b == b1 * b64() + b0,
                x00 == a0 * b0,
                x01 == a0 * b1,
                x10 == a1 * b0,
                x11 == a1 * b1,
                b128() == b64() * b64(),
        ;
        assert(hi * b128() + lo == x11 * b128() + (x01 + x10) * b64() + x00) by (nonlinear_arith)
            requires
                x00 == q00 * b64() + r00,
                x01 == q01 * b64() + r01,
                x10 == q10 * b64() + r10,
                mid == q00 + r01 + r10,
                mid == mq * b64() + mr,
                lo == r00 + mr * b64(),
                hi == x11 + q01 + q10 + mq,
                b128() == b64() * b64(),
        ;
    }
    (hi, lo)
}

/// `x < y` for numbers given as `(high, low)` halves.
pub fn wide_lt(x: (u128, u128), y: (u128, u128)) -> (r: bool)
    ensures
        r == (x.0 * b128() + x.1 < y.0 * b128() + y.1),
{
    if x.0 != y.0 {
        assert((x.0 < y.0) == (x.0 * b128() + x.1 < y.0 * b128() + y.1)) by (nonlinear_arith)
            requires
                x.0 != y.0,
                0 <= x.1 < b128(),
                0 <= y.1 < b128(),
        ;
        x.0 < y.0
    } else {
        x.1 < y.1
    }
}

/// The sum of the legs' magnitudes counted at `s` digits after the point
/// (each mantissa times `10^(s - its scale)`).
pub open spec fn scaled_sum(l: Seq<(Seq<char>, (int, nat, bool))>, s: nat) -> int
    decreases l.len(),
{
    if l.len() == 0 {
        0
    } else {
        scaled_sum(l.drop_last(), s) + abs_int(l.last().1.0) * pow10((s - l.last().1.1) as nat)
    }
}

/// Every leg has at most `s` digits after the point.
pub open spec fn scales_at_most(l: Seq<(Seq<char>, (int, nat, bool))>, s: nat) -> bool {
    forall|i: int| 0 <= i < l.len() ==> (#[trigger] l[i]).1.1 <= s
}

pub(crate) proof fn lemma_scaled_sum(l: Seq<(Seq<char>, (int, nat, bool))>, s: nat)
    requires
        s <= 28,
        scales_at_most(l, s),
    ensures
        legs_magnitude(l) == scaled_sum(l, s) * pow10((28 - s) as nat),
        scaled_sum(l, s) >= 0,
    decreases l.len(),
{
    if l.len() > 0 {
        assert forall|i: int| 0 <= i < l.drop_last().len() implies (#[trigger] l.drop_last()[i]).1.1
            <= s by {
            assert(l.drop_last()[i] == l[i]);
        }
        lemma_scaled_sum(l.drop_last(), s);
        let e = l.last().1;
        assert(e == l[l.len() - 1].1);
        let k = (s - e.1) as nat;
        let q = (28 - s) as nat;
        lemma_pow10_add(k, q);
        assert(k + q == (28 - e.1) as nat);
        lemma_pow10_pos(k);
        lemma_pow10_pos(q);
        assert(abs_int(view_units(e)) == abs_int(e.0) * pow10(k) * pow10(q)) by (nonlinear_arith)
            requires
                view_units(e) == e.0 * pow10((28 - e.1) as nat),
                pow10((28 - e.1) as nat) == pow10(k) * pow10(q),
                pow10(k) >= 1,
                pow10(q) >= 1,
        ;
        assert(abs_int(e.0) * pow10(k) >= 0) by (nonlinear_arith)
            requires
                pow10(k) >= 1,
        ;
        assert(scaled_sum(l, s) * pow10(q) == scaled_sum(l.drop_last(), s) * pow10(q) + abs_int(e.0)
            * pow10(k) * pow10(q)) by (nonlinear_arith)
            requires
                scaled_sum(l, s) == scaled_sum(l.drop_last(), s) + abs_int(e.0) * pow10(k),
        ;
    }
}

/// `10^n` as a `u128`.
pub(crate) fn pow10_u128(n: u32) -> (r: u128)
    requires
        n <= 37,
    ensures
        r == pow10(n as nat),
{
    let x = crate::budget::pow10_i128(n);
    proof {
        lemma_pow10_pos(n as nat);
    }
    x as u128
}

/// The magnitude of an amount's mantissa.
pub(crate) fn mantissa_abs(a: Amount) -> (r: u128)
    ensures
        r == abs_int(a@.0),
        r < 0x1_0000_0000_0000_0000_0000_0000,
{
    a.check_valid();
    let m = a.mantissa();
    if m < 0 {
        (-m) as u128
    } else {
        m as u128
    }
}

/// [`scaled_sum`] of the legs, or `None` when it reaches `2^128`.
pub(crate) fn legs_scaled_sum(l: &Vec<(String, Amount)>, s: u32) -> (r: Option<u128>)
    requires
        s <= 28,
        scales_at_most(leg_views(l@), s as nat),
    ensures
        r matches Some(v) ==> v == scaled_sum(leg_views(l@), s as nat),
        r is None ==> scaled_sum(leg_views(l@), s as nat) >= b128(),
{
    let ghost v = leg_views(l@);
    let mut acc: u128 = 0;
    let mut i: usize = 0;
    assert(v.take(0) =~= Seq::<(Seq<char>, (int, nat, bool))>::empty());
    while i < l.len()
        invariant
            v == leg_views(l@),
            s <= 28,
            scales_at_most(v, s as nat),
            i <= l.len(),
            acc == scaled_sum(v.take(i as int), s as nat),
        decreases l.len() - i,
    {
        assert(v.take(i + 1).drop_last() =~= v.take(i as int));
        assert(v.take(i + 1).last() == v[i as int]);
        assert(v[i as int] == (l@[i as int].0@, l@[i as int].1@));
        assert(v[i as int].1.1 <= s);
        let a = l[i].1;
        let m = mantissa_abs(a);
        let p = pow10_u128(s - a.scale());
        let term = m.checked_mul(p);
        let next = match term {
            Some(t) => acc.checked_add(t),
            None => None,
        };
        match next {
            Some(n) => {
                acc = n;
            },
            None => {
                proof {
                    lemma_pow10_pos((s - a@.1) as nat);
                    assert(m * p >= 0) by (nonlinear_arith)
                        requires
                            p >= 1,
                    ;
                    lemma_scaled_sum_rest(v, i + 1, s as nat);
                }
                return None;
            },
        }
        i += 1;
    }
    assert(v.take(l.len() as int) =~= v);
    Some(acc)
}

proof fn lemma_scaled_sum_rest(v: Seq<(Seq<char>, (int, nat, bool))>, i: int, s: nat)
    requires
        0 <= i <= v.len(),
    ensures
        scaled_sum(v, s) >= scaled_sum(v.take(i), s),
    decreases v.len() - i,
{
    if i < v.len() {
        lemma_scaled_sum_rest(v, i + 1, s);
        assert(v.take(i + 1).drop_last() =~= v.take(i));
        lemma_pow10_pos((s - v[i].1.1) as nat);
        assert(abs_int(v[i].1.0) * pow10((s - v[i].1.1) as nat) >= 0) by (nonlinear_arith)
            requires
                pow10((s - v[i].1.1) as nat) >= 1,
        ;
    } else {
        assert(v.take(i) =~= v);
    }
}

/// `2^95`: half the mantissa bound.
pub open spec fn half_bound() -> int {
    mantissa_bound() / 2
}

/// The two conditions of [`cap_in_range`] for a cap of mantissa magnitude
/// `m` and scale `sc`, legs summing to `big_m` at scale `s`, with the scales
/// brought to `t = max(s, sc)`.
pub open spec fn cap_ok_normal(m: int, sc: nat, s: nat, big_m: int) -> bool {
    let t = max_nat(s, sc);
    &&& m * pow10((t - sc) as nat) < half_bound() * pow10((t - s) as nat)
    &&& big_m * (m * pow10((t - sc) as nat) + 2 * pow10((t - s) as nat)) < half_bound() * pow10(t)
}

proof fn lemma_cancel(x: int, y: int, k: int)
    requires
        k > 0,
    ensures
        (x * k < y * k) == (x < y),
{
    if x < y {
        assert(x * k < y * k) by (nonlinear_arith)
            requires
                x < y,
                k > 0,
        ;
    } else {
        assert(x * k >= y * k) by (nonlinear_arith)
            requires
                x >= y,
                k > 0,
        ;
    }
}

proof fn lemma_rearrange(m: int, k: int, q: int, h: int, s: int)
    by (nonlinear_arith)
    ensures
        (m * k * q) * (h * (q * s)) == (m * h) * (q * q * (s * k)),
{
}

/// [`cap_in_range`] in the normalized form of [`cap_ok_normal`].
pub(crate) proof fn lemma_cap_normal(c: (int, nat, bool), s: nat, big_m: int)
    requires
        c.1 <= 28,
        s <= 28,
        big_m >= 0,
    ensures
        cap_in_range(c, s, big_m * pow10((28 - s) as nat)) == cap_ok_normal(abs_int(c.0), c.1, s, big_m),
{
    let m = abs_int(c.0);
    let sc = c.1;
    let h = half_bound();
    let p28 = pow10(28);
    assert(mantissa_bound() / 2 * pow10((28 - s) as nat) == h * pow10((28 - s) as nat));
    assert(abs_int(view_units(c)) == m * pow10((28 - sc) as nat)) by {
        lemma_pow10_pos((28 - sc) as nat);
        assert(abs_int(c.0 * pow10((28 - sc) as nat)) == abs_int(c.0) * pow10((28 - sc) as nat))
            by (nonlinear_arith)
            requires
                pow10((28 - sc) as nat) >= 1,
        ;
    }
    let cu = m * pow10((28 - sc) as nat);
    let b = big_m * pow10((28 - s) as nat);
    lemma_pow10_pos((28 - s) as nat);
    lemma_pow10_pos((28 - sc) as nat);
    lemma_pow10_pos(s);
    lemma_pow10_pos(sc);
    lemma_pow10_pos(28);
    if sc <= s {
        let k = (s - sc) as nat;
        let q = (28 - s) as nat;
        lemma_pow10_add(q, k);
        assert(q + k == (28 - sc) as nat);
        lemma_pow10_add(q, s);
        assert(q + s == 28);
        lemma_pow10_pos(k);
        assert(max_nat(s, sc) == s);
        assert(pow10(0) == 1);
        // conj1
        assert(cu == (m * pow10(k)) * pow10(q)) by (nonlinear_arith)
            requires
                cu == m * pow10((28 - sc) as nat),
                pow10((28 - sc) as nat) == pow10(q) * pow10(k),
        ;
        lemma_cancel(m * pow10(k), h, pow10(q));
        // conj2
        let hh = m * pow10(k) + 2;
        assert(cu * pow10(s) + 2 * p28 == hh * p28) by (nonlinear_arith)
            requires
                cu == (m * pow10(k)) * pow10(q),
                p28 == pow10(q) * pow10(s),
                hh == m * pow10(k) + 2,
        ;
        assert(b * (cu * pow10(s) + 2 * p28) == (big_m * hh) * (pow10(q) * p28)) by (nonlinear_arith)
            requires
                b == big_m * pow10(q),
                cu * pow10(s) + 2 * p28 == hh * p28,
        ;
        assert(h * p28 * p28 == (h * pow10(s)) * (pow10(q) * p28)) by (nonlinear_arith)
            requires
                p28 == pow10(q) * pow10(s),
        ;
        assert(pow10(q) * p28 > 0) by (nonlinear_arith)
            requires
                pow10(q) >= 1,
                p28 >= 1,
        ;
        lemma_cancel(big_m * hh, h * pow10(s), pow10(q) * p28);
        assert(m * pow10((s - sc) as nat) + 2 * pow10((s - s) as nat) == hh);
    } else {
        let k = (sc - s) as nat;
        let q = (28 - sc) as nat;
        lemma_pow10_add(q, k);
        assert(q + k == (28 - s) as nat);
        lemma_pow10_add(q, sc);
        assert(q + sc == 28);
        lemma_pow10_add(s, k);
        assert(s + k == sc);
        lemma_pow10_pos(k);
        lemma_pow10_pos(q);
        assert(max_nat(s, sc) == sc);
        assert(pow10(0) == 1);
        // conj1: m * P(q) < h * P(q) * P(k)
        assert(h * pow10((28 - s) as nat) == (h * pow10(k)) * pow10(q)) by (nonlinear_arith)
            requires
                pow10((28 - s) as nat) == pow10(q) * pow10(k),
        ;
        lemma_cancel(m, h * pow10(k), pow10(q));
        // conj2
        let hh = m + 2 * pow10(k);
        assert(cu * pow10(s) + 2 * p28 == hh * (pow10(q) * pow10(s))) by (nonlinear_arith)
            requires
                cu == m * pow10(q),
                p28 == pow10(q) * pow10(sc),
                pow10(sc) == pow10(s) * pow10(k),
                hh == m + 2 * pow10(k),
        ;
        assert(b == big_m * pow10(k) * pow10(q)) by (nonlinear_arith)
            requires
                b == big_m * pow10((28 - s) as nat),
                pow10((28 - s) as nat) == pow10(q) * pow10(k),
        ;
        let kk = pow10(q) * pow10(q) * pow10(sc);
        let (pq, ps, pk) = (pow10(q), pow10(s), pow10(k));
        assert(b * (cu * pow10(s) + 2 * p28) == (big_m * pk * pq) * (hh * (pq * ps)));
        lemma_rearrange(big_m, pk, pq, hh, ps);
        assert(kk == pq * pq * (ps * pk));
        assert(h * p28 * p28 == (h * pow10(sc)) * kk) by (nonlinear_arith)
            requires
                p28 == pow10(q) * pow10(sc),
                kk == pow10(q) * pow10(q) * pow10(sc),
        ;
        assert(kk > 0) by (nonlinear_arith)
            requires
                pow10(q) >= 1,
                pow10(sc) >= 1,
                kk == pow10(q) * pow10(q) * pow10(sc),
        ;
        lemma_cancel(big_m * hh, h * pow10(sc), kk);
        assert(m * pow10((sc - sc) as nat) + 2 * pow10((sc - s) as nat) == hh);
        assert(m * pow10((sc - sc) as nat) == m);
    }
}

/// Whether a cap meets [`cap_ok_normal`] against legs summing to `big_m` at
/// scale `s`.
pub(crate) fn cap_ok_exact(c: Amount, s: u32, big_m: u128) -> (r: bool)
    requires
        s <= 28,
    ensures
        r == cap_ok_normal(abs_int(c@.0), c@.1, s as nat, big_m as int),
{
    c.check_valid();
    let m = mantissa_abs(c);
    let sc = c.scale();
    let t = if s >= sc {
        s
    } else {
        sc
    };
    assert(t as nat == max_nat(s as nat, sc as nat));
    let px = pow10_u128(t - sc);
    let py = pow10_u128(t - s);
    let pt = pow10_u128(t);
    let h: u128 = 0x8000_0000_0000_0000_0000_0000;
    assert(h == half_bound());
    proof {
        lemma_pow10_pos((t - sc) as nat);
        lemma_pow10_pos((t - s) as nat);
        lemma_pow10_mono((t - s) as nat, 28);
        lemma_pow10_mono(t as nat, 28);
        assert(pow10(28) == 10_000_000_000_000_000_000_000_000_000) by {
            reveal_with_fuel(pow10, 29);
        }
        assert(pow10(0) == 1);
    }
    let x = match m.checked_mul(px) {
        Some(x) => x,
        None => {
            proof {
                assert(t - s == 0);
                assert(py == 1);
            }
            return false;
        },
    };
    let c1 = match h.checked_mul(py) {
        Some(y) => x < y,
        None => true,
    };
    if !c1 {
        return false;
    }
    proof {
        if t == s {
            assert(py == 1);
            assert(x < h);
        } else {
            assert(t - sc == 0);
            assert(px == 1);
            assert(x == m);
        }
    }
    let sum = x + 2 * py;
    let left = mul_wide(big_m, sum);
    let right = mul_wide(h, pt);
    wide_lt(left, right)
}

proof fn lemma_signed(m: int, p: int, x: int)
    requires
        p >= 1,
        x == m * p,
    ensures
        m < 0 ==> x == -(abs_int(m) * p),
        m >= 0 ==> x == abs_int(m) * p,
{
    if m < 0 {
        assert(m * p == -((-m) * p)) by (nonlinear_arith);
    }
}

/// Whether the exact difference of two amounts fits at the larger of their
/// scales (see [`fits_at`]), decided exactly.
pub fn diff_fits(a: Amount, b: Amount) -> (r: bool)
    ensures
        r == fits_at(a.units() - b.units(), max_nat(a@.1, b@.1)),
{
    a.check_valid();
    b.check_valid();
    let sa = a.scale();
    let sb = b.scale();
    let t = if sa >= sb {
        sa
    } else {
        sb
    };
    let ghost tn = t as nat;
    assert(tn == max_nat(a@.1, b@.1));
    let pa = pow10_u128(t - sa);
    let pb = pow10_u128(t - sb);
    let ma = mantissa_abs(a);
    let mb = mantissa_abs(b);
    let bound: u128 = 0x1_0000_0000_0000_0000_0000_0000;
    let ghost q = (28 - tn) as nat;
    let ghost xa = a@.0 * pow10((tn - a@.1) as nat);
    let ghost xb = b@.0 * pow10((tn - b@.1) as nat);
    proof {
        lemma_pow10_pos(q);
        lemma_pow10_pos((tn - a@.1) as nat);
        lemma_pow10_pos((tn - b@.1) as nat);
        lemma_pow10_add(q, (tn - a@.1) as nat);
        lemma_pow10_add(q, (tn - b@.1) as nat);
        assert(q + (tn - a@.1) == (28 - a@.1) as nat);
        assert(q + (tn - b@.1) == (28 - b@.1) as nat);
        assert(a.units() - b.units() == (xa - xb) * pow10(q)) by (nonlinear_arith)
            requires
                a.units() == a@.0 * pow10((28 - a@.1) as nat),
                b.units() == b@.0 * pow10((28 - b@.1) as nat),
                pow10((28 - a@.1) as nat) == pow10(q) * pow10((tn - a@.1) as nat),
                pow10((28 - b@.1) as nat) == pow10(q) * pow10((tn - b@.1) as nat),
                xa == a@.0 * pow10((tn - a@.1) as nat),
                xb == b@.0 * pow10((tn - b@.1) as nat),
        ;
        assert(abs_int((xa - xb) * pow10(q)) == abs_int(xa - xb) * pow10(q)) by (nonlinear_arith)
            requires
                pow10(q) >= 1,
        ;
        lemma_cancel(abs_int(xa - xb), mantissa_bound(), pow10(q));
        assert(abs_int(xa) == ma * pa) by (nonlinear_arith)
            requires
                xa == a@.0 * pa,
                ma == abs_int(a@.0),
                pa >= 1,
        ;
        assert(abs_int(xb) == mb * pb) by (nonlinear_arith)
            requires
                xb == b@.0 * pb,
                mb == abs_int(b@.0),
                pb >= 1,
        ;
        assert(pow10(0) == 1);
    }
    // Here fits_at(a.units() - b.units(), t) == (abs_int(xa - xb) < 2^96).
    let big_a = match ma.checked_mul(pa) {
        Some(x) => x,
        None => {
            proof {
                assert(tn != a@.1);
                assert(tn == b@.1 && pb == 1);
            }
            return false;
        },
    };
    let big_b = match mb.checked_mul(pb) {
        Some(x) => x,
        None => {
            proof {
                assert(tn != b@.1);
                assert(tn == a@.1 && pa == 1);
            }
            return false;
        },
    };
    let neg_a = a.mantissa() < 0;
    let neg_b = b.mantissa() < 0;
    proof {
        lemma_signed(a@.0, pa as int, xa);
        lemma_signed(b@.0, pb as int, xb);
    }
    if neg_a == neg_b {
        let d = if big_a >= big_b {
            big_a - big_b
        } else {
            big_b - big_a
        };
        d < bound
    } else {
        match big_a.checked_add(big_b) {
            Some(d) => d < bound,
            None => false,
        }
    }
}

} // verus!
