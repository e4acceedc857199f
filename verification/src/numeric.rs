//! Numbers as IEEE-754 binary64 values, held as their bit patterns.
//!
//! Metadata values may be 64-bit integers or doubles. Filters compare them as
//! doubles, so an integer is first rounded to the nearest double. A double is
//! carried here by its bit pattern; its value is stated exactly as an integer
//! multiple of 2^-1074, the smallest positive double.
use vstd::prelude::*;
use vstd::arithmetic::power2::*;
use vstd::arithmetic::div_mod::*;
use vstd::arithmetic::mul::*;

verus! {

/// 2^52: the weight of a double's exponent field, one past its largest fraction.
pub const TWO52: u64 = 0x10_0000_0000_0000;
/// 2^53: one past the largest significand.
pub const TWO53: u64 = 0x20_0000_0000_0000;
/// 2^63: the weight of a double's sign bit.
pub const TWO63: u64 = 0x8000_0000_0000_0000;

/// The outcome of comparing two ordered values.
#[derive(Debug, Clone, Copy, PartialEq, Eq)]
pub enum Order3 {
    Less,
    Equal,
    Greater,
}

/// The value of a double: not a number, an infinity, or a finite value
/// scaled by 2^1074 (which makes every finite double an integer).
pub enum Num {
    NaN,
    NegInf,
    Finite(int),
    PosInf,
}

pub open spec fn sign_field(bits: u64) -> int {
    bits as int / TWO63 as int
}

pub open spec fn exp_field(bits: u64) -> int {
    (bits as int / TWO52 as int) % 2048
}

pub open spec fn frac_field(bits: u64) -> int {
    bits as int % TWO52 as int
}

/// The magnitude, scaled by 2^1074, of a finite double with exponent field
/// `e` and fraction field `f`.
pub open spec fn scaled_magnitude(e: int, f: int) -> int {
    if e == 0 {
        f
    } else {
        (f + TWO52) * pow2((e - 1) as nat)
    }
}

/// The value of the double with bit pattern `bits`.
pub open spec fn f64_num(bits: u64) -> Num {
    let e = exp_field(bits);
    let f = frac_field(bits);
    if e == 2047 {
        if f != 0 {
            Num::NaN
        } else if sign_field(bits) == 0 {
            Num::PosInf
        } else {
            Num::NegInf
        }
    } else {
        let m = scaled_magnitude(e, f);
        Num::Finite(if sign_field(bits) == 0 { m } else { -m })
    }
}

/// How two doubles compare; `None` when either is not a number.
pub open spec fn num_order(a: Num, b: Num) -> Option<Order3> {
    match (a, b) {
        (Num::NaN, _) => None,
        (_, Num::NaN) => None,
        (Num::NegInf, Num::NegInf) => Some(Order3::Equal),
        (Num::NegInf, _) => Some(Order3::Less),
        (_, Num::NegInf) => Some(Order3::Greater),
        (Num::PosInf, Num::PosInf) => Some(Order3::Equal),
        (Num::PosInf, _) => Some(Order3::Greater),
        (_, Num::PosInf) => Some(Order3::Less),
        (Num::Finite(x), Num::Finite(y)) => Some(
            if x < y {
                Order3::Less
            } else if x == y {
                Order3::Equal
            } else {
                Order3::Greater
            },
        ),
    }
}

/// The position of the highest set bit of `n` (0 for `n < 2`).
pub open spec fn log2(n: nat) -> nat
    decreases n,
{
    if n < 2 {
        0
    } else {
        1 + log2(n / 2)
    }
}

/// `n` rounded to the nearest integer with at most 53 significant bits, ties
/// going to the one whose last kept bit is 0 (round half to even).
pub open spec fn round_to_double(n: nat) -> nat {
    if n < TWO53 {
        n
    } else {
        let d = pow2((log2(n) - 52) as nat);
        let q = n / d;
        let r = n % d;
        if 2 * r > d || (2 * r == d && q % 2 == 1) {
            (q + 1) * d
        } else {
            q * d
        }
    }
}

/// The value of the 64-bit integer `i` once converted to a double.
pub open spec fn i64_num(i: i64) -> Num {
    let n: nat = if i < 0 { (-i) as nat } else { i as nat };
    let r = (round_to_double(n) * pow2(1074)) as int;
    Num::Finite(if i < 0 { -r } else { r })
}

proof fn lemma_fields_of(bits: u64, s: int, e: int, f: int)
    requires
        0 <= s <= 1,
        0 <= e < 2048,
        0 <= f < TWO52,
        bits == s * TWO63 + e * TWO52 + f,
    ensures
        sign_field(bits) == s,
        exp_field(bits) == e,
        frac_field(bits) == f,
{
    assert(TWO63 == 2048 * TWO52);
    lemma_fundamental_div_mod_converse(bits as int, TWO52 as int, s * 2048 + e, f);
    lemma_fundamental_div_mod_converse(s * 2048 + e, 2048, s, e);
    lemma_fundamental_div_mod_converse(bits as int, TWO63 as int, s, e * TWO52 + f);
}

proof fn lemma_fields_split(bits: u64)
    ensures
        bits as int == sign_field(bits) * TWO63 + exp_field(bits) * TWO52 + frac_field(bits),
        0 <= sign_field(bits) <= 1,
        0 <= exp_field(bits) < 2048,
        0 <= frac_field(bits) < TWO52,
{
    assert(TWO63 == 2048 * TWO52);
    lemma_fundamental_div_mod(bits as int, TWO52 as int);
    lemma_fundamental_div_mod(bits as int / TWO52 as int, 2048);
    lemma_div_denominator(bits as int, TWO52 as int, 2048);
    lemma_div_pos_is_pos(bits as int, TWO52 as int);
    assert(bits as int / TWO63 as int <= 1) by {
        lemma_div_is_ordered(bits as int, 0xffff_ffff_ffff_ffff, TWO63 as int);
    }
    lemma_div_pos_is_pos(bits as int, TWO63 as int);
}

proof fn lemma_pow2_ge1(e: nat)
    ensures
        pow2(e) >= 1,
{
    lemma_pow2_pos(e);
}

/// A finite magnitude with a smaller exponent field is smaller.
proof fn lemma_magnitude_exp_lt(ex: int, fx: int, ey: int, fy: int)
    requires
        0 <= ex < ey < 2047,
        0 <= fx < TWO52,
        0 <= fy < TWO52,
    ensures
        scaled_magnitude(ex, fx) < scaled_magnitude(ey, fy),
{
    let py = pow2((ey - 1) as nat);
    lemma_pow2_ge1((ey - 1) as nat);
    assert(TWO52 * py <= (fy + TWO52) * py) by {
        lemma_mul_inequality(TWO52 as int, fy + TWO52, py as int);
    }
    if ex == 0 {
        assert(TWO52 <= TWO52 * py) by {
            lemma_mul_inequality(1, py as int, TWO52 as int);
        }
    } else {
        let px = pow2((ex - 1) as nat);
        lemma_pow2_ge1((ex - 1) as nat);
        assert((fx + TWO52) * px < TWO53 * px) by {
            lemma_mul_strict_inequality(fx + TWO52, TWO53 as int, px as int);
        }
        assert(pow2(ex as nat) == 2 * px) by {
            lemma_pow2_unfold(ex as nat);
        }
        assert(TWO53 * px == TWO52 * pow2(ex as nat)) by {
            lemma_mul_is_associative(TWO52 as int, 2, px as int);
        }
        if ex < ey - 1 {
            lemma_pow2_strictly_increases(ex as nat, (ey - 1) as nat);
        }
        assert(TWO52 * pow2(ex as nat) <= TWO52 * py) by {
            lemma_mul_inequality(pow2(ex as nat) as int, py as int, TWO52 as int);
            lemma_mul_is_commutative(pow2(ex as nat) as int, TWO52 as int);
            lemma_mul_is_commutative(py as int, TWO52 as int);
        }
    }
}

/// Among bit patterns without the sign bit, pattern order is value order.
proof fn lemma_pattern_order(x: u64, y: u64)
    requires
        x < y < TWO63,
        f64_num(x) !is NaN,
        f64_num(y) !is NaN,
    ensures
        num_order(f64_num(x), f64_num(y)) == Some(Order3::Less),
{
    lemma_fields_split(x);
    lemma_fields_split(y);
    let ex = exp_field(x);
    let ey = exp_field(y);
    let fx = frac_field(x);
    let fy = frac_field(y);
    assert(sign_field(x) == 0 && sign_field(y) == 0);
    assert(ex <= ey);
    if ey == 2047 {
        assert(fy == 0);
        assert(ex < 2047);
    } else if ex == ey {
        assert(fx < fy);
        if ex != 0 {
            lemma_pow2_pos((ex - 1) as nat);
            lemma_mul_strict_inequality(fx + TWO52, fy + TWO52, pow2((ex - 1) as nat) as int);
        }
    } else {
        lemma_magnitude_exp_lt(ex, fx, ey, fy);
    }
}

/// The value with its sign flipped.
pub open spec fn neg_num(n: Num) -> Num {
    match n {
        Num::NaN => Num::NaN,
        Num::NegInf => Num::PosInf,
        Num::PosInf => Num::NegInf,
        Num::Finite(x) => Num::Finite(-x),
    }
}

/// A double's value is that of its pattern without the sign bit, negated
/// when the sign bit is set.
proof fn lemma_sign_split(a: u64)
    ensures
        (a % TWO63) < TWO63,
        sign_field(a) == 0 ==> a % TWO63 == a,
        f64_num(a) == (if sign_field(a) == 0 {
            f64_num(a % TWO63)
        } else {
            neg_num(f64_num(a % TWO63))
        }),
        a % TWO63 == 0 ==> f64_num(a % TWO63) == Num::Finite(0),
{
    lemma_fields_split(a);
    let m = a % TWO63;
    lemma_fundamental_div_mod_converse(a as int, TWO63 as int, sign_field(a), exp_field(a) * TWO52 + frac_field(a));
    lemma_fields_of(m, 0, exp_field(a), frac_field(a));
    if m == 0 {
        lemma_fields_of(m, 0, 0, 0);
    }
}

/// A pattern without the sign bit, other than zero, has a positive value.
proof fn lemma_nonzero_positive(m: u64)
    requires
        m < TWO63,
        m != 0,
        f64_num(m) !is NaN,
    ensures
        num_order(Num::Finite(0), f64_num(m)) == Some(Order3::Less),
{
    lemma_fields_split(m);
    let e = exp_field(m);
    if e != 0 && e != 2047 {
        lemma_pow2_pos((e - 1) as nat);
        lemma_mul_strict_inequality(0, frac_field(m) + TWO52, pow2((e - 1) as nat) as int);
    }
}

/// Compares two doubles given by their bit patterns; `None` when either is
/// not a number. Zeros of either sign compare equal.
pub fn f64_compare(a: u64, b: u64) -> (r: Option<Order3>)
    ensures
        r == num_order(f64_num(a), f64_num(b)),
{
    proof {
        lemma_fields_split(a);
        lemma_fields_split(b);
    }
    let ea = (a / TWO52) % 2048;
    let eb = (b / TWO52) % 2048;
    if (ea == 2047 && a % TWO52 != 0) || (eb == 2047 && b % TWO52 != 0) {
        return None;
    }
    let sa = a / TWO63;
    let sb = b / TWO63;
    let ma = a % TWO63;
    let mb = b % TWO63;
    proof {
        lemma_sign_split(a);
        lemma_sign_split(b);
        if ma != 0 {
            lemma_nonzero_positive(ma);
        }
        if mb != 0 {
            lemma_nonzero_positive(mb);
        }
    }
    if ma == 0 && mb == 0 {
        return Some(Order3::Equal);
    }
    if sa == sb {
        if ma == mb {
            return Some(Order3::Equal);
        }
        let below = ma < mb;
        proof {
            if ma < mb {
                lemma_pattern_order(ma, mb);
            } else {
                lemma_pattern_order(mb, ma);
            }
        }
        if below == (sa == 0) {
            Some(Order3::Less)
        } else {
            Some(Order3::Greater)
        }
    } else if sa == 0 {
        Some(Order3::Greater)
    } else {
        Some(Order3::Less)
    }
}


proof fn lemma_pow2_consts()
    ensures
        pow2(0) == 1,
        pow2(1) == 2,
        pow2(11) == 2048,
        pow2(12) == 4096,
        pow2(52) == TWO52,
        pow2(53) == TWO53,
        pow2(63) == TWO63,
        pow2(64) == 0x1_0000_0000_0000_0000,
{
    lemma2_to64();
    lemma2_to64_rest();
}

/// Builds the pattern of a double with sign `s`, exponent field `e` and
/// significand `m` (implicit leading bit included).
proof fn lemma_compose(bits: u64, s: int, e: int, m: int)
    requires
        0 <= s <= 1,
        1 <= e < 2047,
        TWO52 <= m < TWO53,
        bits == s * TWO63 + e * TWO52 + (m - TWO52),
    ensures
        f64_num(bits) == Num::Finite(
            if s == 0 { m * pow2((e - 1) as nat) } else { -(m * pow2((e - 1) as nat)) },
        ),
{
    lemma_fields_of(bits, s, e, m - TWO52);
}

/// `n / pow2(p) == 1` pins `p` as the position of the highest bit.
proof fn lemma_log2_step(n: nat, p: nat, t: nat)
    requires
        t >= 2,
        p + log2(t) == log2(n),
    ensures
        (p + 1) + log2(t / 2) == log2(n),
{
}

proof fn lemma_div_pow2_step(n: nat, p: nat)
    ensures
        (n / pow2(p)) / 2 == n / pow2(p + 1),
{
    lemma_pow2_pos(p);
    lemma_div_denominator(n as int, pow2(p) as int, 2);
    lemma_pow2_adds(p, 1);
    lemma2_to64();
}

proof fn lemma_quotient_one(n: nat, p: nat)
    requires
        n / pow2(p) == 1,
    ensures
        pow2(p) <= n < 2 * pow2(p),
        pow2(p + 1) == 2 * pow2(p),
{
    lemma_pow2_pos(p);
    lemma_fundamental_div_mod(n as int, pow2(p) as int);
    lemma_pow2_adds(p, 1);
    lemma2_to64();
}

/// With `2^p <= n < 2^(p+1)` and `d = 2^(p-52)`, the quotient `n / d` has
/// exactly 53 bits.
proof fn lemma_quotient_bounds(n: nat, p: nat, sh: nat, d: nat, q: nat)
    requires
        pow2(p) <= n < 2 * pow2(p),
        p == sh + 52,
        d == pow2(sh),
        q == n / d,
    ensures
        TWO52 <= q < TWO53,
{
    lemma_pow2_consts();
    lemma_pow2_pos(sh);
    lemma_pow2_adds(sh, 52);
    lemma_pow2_unfold(sh + 53);
    assert(sh + 53 - 1 == p);
    lemma_pow2_adds(sh, 53);
    assert(pow2(p) == d * TWO52);
    assert(2 * pow2(p) == d * TWO53);
    lemma_fundamental_div_mod(n as int, d as int);
    lemma_mul_is_commutative(d as int, q as int);
    lemma_mod_pos_bound(n as int, d as int);
    if q < TWO52 {
        lemma_mul_inequality(q as int + 1, TWO52 as int, d as int);
        lemma_mul_is_commutative(d as int, TWO52 as int);
        lemma_mul_is_distributive_add_other_way(d as int, q as int, 1);
        assert(false);
    }
    if q >= TWO53 {
        lemma_mul_inequality(TWO53 as int, q as int, d as int);
        lemma_mul_is_commutative(d as int, TWO53 as int);
        assert(false);
    }
}

/// Rounds a 64-bit integer to the nearest double and returns that double's
/// bit pattern, as `i as f64` does: integers of up to 53 significant bits are
/// exact, others round half to even.
pub fn i64_to_f64_bits(i: i64) -> (bits: u64)
    ensures
        f64_num(bits) == i64_num(i),
{
    if i == 0 {
        proof {
            lemma_fields_of(0, 0, 0, 0);
            assert(round_to_double(0) == 0);
            assert(0 * pow2(1074) == 0);
            assert(i64_num(i) == Num::Finite(0));
            assert(f64_num(0) == Num::Finite(0));
        }
        return 0;
    }
    let neg = i < 0;
    let s: u64 = if neg { 1 } else { 0 };
    let n: u64 = if i == i64::MIN {
        TWO63
    } else if neg {
        (-i) as u64
    } else {
        i as u64
    };
    assert(n as nat == (if i < 0 { (-i) as nat } else { i as nat }));
    let mut t: u64 = n;
    let mut p: u64 = 0;
    proof {
        lemma2_to64();
    }
    while t > 1
        invariant
            1 <= t <= n,
            p + log2(t as nat) == log2(n as nat),
            n as nat / pow2(p as nat) == t,
            p < 64,
        decreases t,
    {
        proof {
            lemma_log2_step(n as nat, p as nat, t as nat);
            lemma_div_pow2_step(n as nat, p as nat);
            lemma_pow2_consts();
            if p >= 63 {
                if p > 63 {
                    lemma_pow2_strictly_increases(63, p as nat);
                }
                lemma_div_is_ordered_by_denominator(n as int, pow2(63) as int, pow2(p as nat) as int);
                assert(n as int / pow2(63) as int <= 1) by {
                    lemma_div_is_ordered(n as int, 0xffff_ffff_ffff_ffff, pow2(63) as int);
                }
            }
        }
        t = t / 2;
        p = p + 1;
    }
    proof {
        lemma_quotient_one(n as nat, p as nat);
        assert(log2(1) == 0);
    }
    let ghost lg = p as nat;
    assert(log2(n as nat) == lg);
    proof {
        lemma_pow2_consts();
    }
    if p <= 52 {
        let mut m: u64 = n;
        let mut k: u64 = p;
        assert(m as nat == n as nat * pow2((k - p) as nat)) by {
            assert((k - p) as nat == 0);
            lemma2_to64();
            assert(pow2(0) == 1);
            lemma_mul_basics(n as int);
        }
        while k < 52
            invariant
                p <= k <= 52,
                m as nat == n as nat * pow2((k - p) as nat),
                pow2(k as nat) <= m < 2 * pow2(k as nat),
                pow2(p as nat) <= n < 2 * pow2(p as nat),
            decreases 52 - k,
        {
            proof {
                lemma_pow2_unfold((k + 1) as nat);
                lemma_pow2_adds((k - p) as nat, 1);
                lemma_pow2_consts();
                assert(((k + 1 - p) as nat) == ((k - p) as nat) + 1);
                lemma_mul_is_associative(n as int, pow2((k - p) as nat) as int, 2);
                if k + 1 < 52 {
                    lemma_pow2_strictly_increases((k + 1) as nat, 52);
                }
            }
            m = m * 2;
            k = k + 1;
        }
        let e: u64 = p + 1023;
        assert(m >= TWO52);
        let bits = s * TWO63 + e * TWO52 + (m - TWO52);
        proof {
            lemma_compose(bits, s as int, e as int, m as int);
            lemma_pow2_adds((52 - p) as nat, (p + 1022) as nat);
            assert(((52 - p) as nat) + ((p + 1022) as nat) == 1074);
            lemma_mul_is_associative(n as int, pow2((52 - p) as nat) as int, pow2((p + 1022) as nat) as int);
            assert(n < TWO53) by {
                lemma_pow2_strictly_increases(p as nat, 53);
                lemma_pow2_adds(p as nat, 1);
                if p < 52 {
                    lemma_pow2_strictly_increases((p + 1) as nat, 53);
                }
            }
        }
        bits
    } else {
        let sh: u64 = p - 52;
        let mut d: u64 = 1;
        let mut j: u64 = 0;
        while j < sh
            invariant
                j <= sh <= 11,
                d as nat == pow2(j as nat),
            decreases sh - j,
        {
            proof {
                lemma_pow2_unfold((j + 1) as nat);
                lemma_pow2_strictly_increases((j + 1) as nat, 12);
                lemma_pow2_consts();
            }
            d = d * 2;
            j = j + 1;
        }
        let q = n / d;
        let r = n % d;
        let up = 2 * r > d || (2 * r == d && q % 2 == 1);
        let q2 = if up { q + 1 } else { q };
        proof {
            lemma_quotient_bounds(n as nat, p as nat, sh as nat, d as nat, q as nat);
        }
        let (m, e): (u64, u64) = if q2 == TWO53 { (TWO52, p + 1024) } else { (q2, p + 1023) };
        let bits = s * TWO63 + e * TWO52 + (m - TWO52);
        proof {
            assert(pow2(52) == TWO52);
            assert(pow2(53) == TWO53) by {
                lemma2_to64();
            }
            lemma_compose(bits, s as int, e as int, m as int);
            assert(n >= TWO53) by {
                if p > 53 {
                    lemma_pow2_strictly_increases(53, p as nat);
                }
            }
            lemma_pow2_adds(sh as nat, 1074);
            assert((sh + 1074) as nat == (p + 1022) as nat);
            lemma_mul_is_associative(q2 as int, d as int, pow2(1074) as int);
            if q2 == TWO53 {
                lemma_pow2_unfold((p + 1023) as nat);
                assert(((p + 1023) - 1) as nat == (p + 1022) as nat);
                lemma_mul_is_associative(TWO52 as int, 2, pow2((p + 1022) as nat) as int);
            }
        }
        bits
    }
}


/// Comparing doubles is antisymmetric: `a` is below `b` exactly when `b` is
/// above `a`, equality is symmetric, and the two are unordered exactly when
/// either is not a number.
pub proof fn law_order_antisymmetric(a: u64, b: u64)
    ensures
        num_order(f64_num(a), f64_num(b)) == Some(Order3::Less)
            <==> num_order(f64_num(b), f64_num(a)) == Some(Order3::Greater),
        num_order(f64_num(a), f64_num(b)) == Some(Order3::Equal)
            <==> num_order(f64_num(b), f64_num(a)) == Some(Order3::Equal),
        num_order(f64_num(a), f64_num(b)) is None <==> (f64_num(a) == Num::NaN || f64_num(b) == Num::NaN),
{
}

/// Comparing doubles is transitive.
pub proof fn law_order_transitive(a: u64, b: u64, c: u64)
    ensures
        num_order(f64_num(a), f64_num(b)) == Some(Order3::Less)
            && num_order(f64_num(b), f64_num(c)) == Some(Order3::Less)
            ==> num_order(f64_num(a), f64_num(c)) == Some(Order3::Less),
        num_order(f64_num(a), f64_num(b)) == Some(Order3::Equal)
            && num_order(f64_num(b), f64_num(c)) == Some(Order3::Equal)
            ==> num_order(f64_num(a), f64_num(c)) == Some(Order3::Equal),
{
}

/// Integers of magnitude below 2^53 convert to doubles exactly.
pub proof fn law_small_integers_exact(i: i64)
    requires
        -(TWO53 as int) < i < TWO53 as int,
    ensures
        i64_num(i) == Num::Finite(i * pow2(1074)),
{
    if i < 0 {
        assert(round_to_double((-i) as nat) == (-i) as nat);
        assert(((-i) * pow2(1074)) as int == -(i * pow2(1074))) by (nonlinear_arith);
    } else {
        assert(round_to_double(i as nat) == i as nat);
    }
}

} // verus!
