//! Exact ordering of TOML numeric values as `f64`s.
//!
//! A range constraint's bounds are compared as `f64`: an integer bound is
//! first converted to `f64` (rounding to nearest, ties to even), a float
//! bound is its IEEE-754 value. Every finite `f64` is `m * 2^e` for integers
//! `m`, `e`, so the comparison is done exactly on that form.

use vstd::prelude::*;
use vstd::arithmetic::power2::{pow2, lemma_pow2_pos, lemma_pow2_adds, lemma_pow2_strictly_increases, lemma2_to64};
use crate::schema::toml_value::{TomlV, TomlValue};

verus! {

/// A number as an `f64` sees it.
pub enum NumV {
    /// Not a number: compares false with everything.
    NaN,
    /// Positive infinity.
    PosInf,
    /// Negative infinity.
    NegInf,
    /// The finite value `m * 2^e`.
    Fin(int, int),
}

pub open spec fn two52() -> nat {
    4503599627370496
}

pub open spec fn two53() -> nat {
    9007199254740992
}

/// The number an IEEE-754 binary64 bit pattern denotes.
pub open spec fn f64_num(bits: u64) -> NumV {
    let neg = bits >= 0x8000_0000_0000_0000u64;
    let exp = (bits as nat / two52()) % 2048;
    let frac = bits as nat % two52();
    if exp == 2047 {
        if frac == 0 {
            if neg {
                NumV::NegInf
            } else {
                NumV::PosInf
            }
        } else {
            NumV::NaN
        }
    } else {
        let mag: int = if exp == 0 { frac as int } else { (frac + two52()) as int };
        let e: int = if exp == 0 { -1074 } else { exp - 1075 };
        NumV::Fin(if neg { -mag } else { mag }, e)
    }
}

/// How many low bits a magnitude loses when it is fitted into 53 bits.
pub open spec fn round_shift(a: nat) -> nat
    decreases a,
{
    if a < two53() {
        0
    } else {
        1 + round_shift(a / 2)
    }
}

/// `n as f64`: the nearest value with a 53-bit significand, ties to even.
pub open spec fn int_num(n: int) -> NumV {
    let a: nat = if n < 0 { (-n) as nat } else { n as nat };
    let s = round_shift(a);
    if s == 0 {
        NumV::Fin(n, 0)
    } else {
        let q = a / pow2(s);
        let r = a % pow2(s);
        let half = pow2((s - 1) as nat);
        let q2: int = if r > half || (r == half && q % 2 == 1) { (q + 1) as int } else { q as int };
        NumV::Fin(if n < 0 { -q2 } else { q2 }, s as int)
    }
}

/// `m1 * 2^e1 > m2 * 2^e2`.
pub open spec fn fin_gt(m1: int, e1: int, m2: int, e2: int) -> bool {
    let e = if e1 < e2 { e1 } else { e2 };
    m1 * pow2((e1 - e) as nat) > m2 * pow2((e2 - e) as nat)
}

/// IEEE-754 `>`.
pub open spec fn num_gt(a: NumV, b: NumV) -> bool {
    match (a, b) {
        (NumV::NaN, _) => false,
        (_, NumV::NaN) => false,
        (NumV::PosInf, NumV::PosInf) => false,
        (NumV::PosInf, _) => true,
        (NumV::NegInf, _) => false,
        (NumV::Fin(_, _), NumV::PosInf) => false,
        (NumV::Fin(_, _), NumV::NegInf) => true,
        (NumV::Fin(m1, e1), NumV::Fin(m2, e2)) => fin_gt(m1, e1, m2, e2),
    }
}

/// The `f64` a TOML number converts to; `None` for non-numbers.
pub open spec fn toml_num(v: TomlV) -> Option<NumV> {
    match v {
        TomlV::Integer(n) => Some(int_num(n)),
        TomlV::Float(f) => Some(f64_num(f.bits)),
        _ => None,
    }
}

/// Both values are numbers and the first is greater, as `f64`s.
pub open spec fn toml_gt(a: TomlV, b: TomlV) -> bool {
    match (toml_num(a), toml_num(b)) {
        (Some(x), Some(y)) => num_gt(x, y),
        _ => false,
    }
}

/// A number in sign-magnitude form for the executable comparison.
struct Num {
    /// 0 = NaN, 1 = +inf, 2 = -inf, 3 = finite.
    kind: u8,
    neg: bool,
    mag: u64,
    exp: i64,
}

spec fn num_of(x: Num) -> NumV {
    if x.kind == 0 {
        NumV::NaN
    } else if x.kind == 1 {
        NumV::PosInf
    } else if x.kind == 2 {
        NumV::NegInf
    } else {
        NumV::Fin(if x.neg { -(x.mag as int) } else { x.mag as int }, x.exp as int)
    }
}

spec fn num_ok(x: Num) -> bool {
    &&& x.kind <= 3
    &&& x.mag <= two53()
    &&& -1100 <= x.exp <= 1100
}

fn decode_f64(bits: u64) -> (x: Num)
    ensures
        num_ok(x),
        num_of(x) == f64_num(bits),
{
    let neg = bits >= 0x8000_0000_0000_0000u64;
    let exp = (bits >> 52u64) & 0x7ffu64;
    let frac = bits & 0x000f_ffff_ffff_ffffu64;
    proof {
        assert((bits >> 52u64) & 0x7ffu64 == (bits / 0x10_0000_0000_0000u64) % 2048) by (bit_vector);
        assert(bits & 0x000f_ffff_ffff_ffffu64 == bits % 0x10_0000_0000_0000u64) by (bit_vector);
        assert(exp < 2048) by (bit_vector)
            requires exp == (bits >> 52u64) & 0x7ffu64;
        assert(frac < 0x10_0000_0000_0000u64) by (bit_vector)
            requires frac == bits & 0x000f_ffff_ffff_ffffu64;
    }
    if exp == 2047 {
        if frac == 0 {
            if neg {
                Num { kind: 2, neg, mag: 0, exp: 0 }
            } else {
                Num { kind: 1, neg, mag: 0, exp: 0 }
            }
        } else {
            Num { kind: 0, neg, mag: 0, exp: 0 }
        }
    } else if exp == 0 {
        Num { kind: 3, neg, mag: frac, exp: -1074 }
    } else {
        Num { kind: 3, neg, mag: frac + 0x10_0000_0000_0000u64, exp: exp as i64 - 1075 }
    }
}

proof fn lemma_div_pow2_step(a: nat, s: nat)
    ensures
        a / pow2(s + 1) == (a / pow2(s)) / 2,
        a % pow2(s + 1) == a % pow2(s) + pow2(s) * ((a / pow2(s)) % 2),
{
    lemma_pow2_pos(s);
    lemma_pow2_adds(s, 1);
    lemma2_to64();
    let p = pow2(s);
    vstd::arithmetic::div_mod::lemma_div_denominator(a as int, p as int, 2);
    vstd::arithmetic::div_mod::lemma_breakdown(a as int, p as int, 2);
}

proof fn lemma_round_shift_split(a: nat, s: nat)
    requires
        forall|t: nat| t < s ==> #[trigger] (a / pow2(t)) >= two53(),
    ensures
        round_shift(a) == s + round_shift(a / pow2(s)),
    decreases s,
{
    if s > 0 {
        lemma_round_shift_split(a, (s - 1) as nat);
        lemma_div_pow2_step(a, (s - 1) as nat);
        let b = a / pow2((s - 1) as nat);
        assert(b >= two53());
        lemma_round_shift_tail(a, (s - 1) as nat);
    } else {
        lemma2_to64();
    }
}

proof fn lemma_round_shift_tail(a: nat, t: nat)
    requires
        a / pow2(t) >= two53(),
    ensures
        round_shift(a / pow2(t)) == 1 + round_shift(a / pow2(t + 1)),
{
    lemma_div_pow2_step(a, t);
}

/// `n as f64` in sign-magnitude form.
fn round_i64(n: i64) -> (x: Num)
    ensures
        num_ok(x),
        num_of(x) == int_num(n as int),
{
    let neg = n < 0;
    let a: u64 = if n == i64::MIN {
        0x8000_0000_0000_0000u64
    } else if n < 0 {
        (-n) as u64
    } else {
        n as u64
    };
    let ghost an: nat = if (n as int) < 0 { (-(n as int)) as nat } else { n as nat };
    assert(a as nat == an);
    if a < 0x20_0000_0000_0000u64 {
        return Num { kind: 3, neg, mag: a, exp: 0 };
    }
    let mut s: u64 = 0;
    let mut q: u64 = a;
    proof {
        lemma2_to64();
    }
    while q >= 0x20_0000_0000_0000u64
        invariant
            s <= 11,
            a as nat == an,
            an < pow2(64),
            q as nat == an / pow2(s as nat),
            forall|t: nat| t < s ==> #[trigger] (an / pow2(t)) >= two53(),
        decreases q,
    {
        proof {
            lemma_div_pow2_step(an, s as nat);
            lemma2_to64();
            if s >= 11 {
                lemma_pow2_strictly_increases(0, 11);
                lemma_pow2_pos(11);
                
                assert(an / pow2(11) < two53()) by (nonlinear_arith)
                    requires an < 18446744073709551616, pow2(11) == 2048;
                assert(false);
            }
        }
        q = q / 2;
        s = s + 1;
        proof {
            assert forall|t: nat| t < s implies #[trigger] (an / pow2(t)) >= two53() by {
                if t == s - 1 {
                } 
            }
        }
    }
    proof {
        lemma2_to64();
        lemma_round_shift_split(an, s as nat);
        assert(round_shift(an / pow2(s as nat)) == 0);
        assert(s >= 1) by {
            if s == 0 {
                assert(an / pow2(0) == an);
            }
        }
    }
    let p: u64 = 1u64 << s;
    proof {
        vstd::bits::lemma_u64_shl_is_mul(1, s);
        lemma_pow2_pos(s as nat);
        lemma_pow2_adds((s - 1) as nat, 1);
    }
    let r: u64 = a % p;
    let half: u64 = p / 2;
    let round_up = r > half || (r == half && q % 2 == 1);
    let q2 = if round_up { q + 1 } else { q };
    Num { kind: 3, neg, mag: q2, exp: s as i64 }
}

/// `a * 2^ea > b * 2^eb` for magnitudes below `2^54`.
fn mag_gt(a: u64, ea: i64, b: u64, eb: i64) -> (r: bool)
    requires
        a <= two53(),
        b <= two53(),
        -1100 <= ea <= 1100,
        -1100 <= eb <= 1100,
    ensures
        r == fin_gt(a as int, ea as int, b as int, eb as int),
{
    proof {
        lemma2_to64();
    }
    if ea >= eb {
        let d = (ea - eb) as u64;
        proof {
            lemma2_to64();
            lemma_pow2_pos(d as nat);
        }
        if a == 0 {
            assert(0 * pow2(d as nat) == 0);
            assert(b * pow2(0) == b) by (nonlinear_arith) requires pow2(0) == 1;
            return false;
        }
        if d >= 64 {
            proof {
                if d > 64 {
                    lemma_pow2_strictly_increases(64, d as nat);
                }
                assert(a * pow2(d as nat) >= pow2(d as nat)) by (nonlinear_arith)
                    requires a >= 1, pow2(d as nat) > 0;
                assert(b * pow2(0) == b) by (nonlinear_arith) requires pow2(0) == 1;
            }
            return true;
        }
        proof {
            lemma_pow2_strictly_increases(d as nat, 64);
            assert(a * pow2(d as nat) <= two53() * pow2(64)) by (nonlinear_arith)
                requires a <= two53(), pow2(d as nat) < pow2(64);
            assert(pow2(64) == 0x1_0000_0000_0000_0000nat);
            assert(two53() * pow2(64) < 340282366920938463463374607431768211455nat);
            assert(b * pow2(0) == b) by (nonlinear_arith) requires pow2(0) == 1;
        }
        let p: u64 = 1u64 << d;
        proof {
            vstd::bits::lemma_u64_shl_is_mul(1, d);
            assert(a as u128 * p as u128 == a * pow2(d as nat)) by (nonlinear_arith)
                requires p == 1 * pow2(d as nat);
        }
        (a as u128) * (p as u128) > b as u128
    } else {
        let d = (eb - ea) as u64;
        proof {
            lemma2_to64();
            lemma_pow2_pos(d as nat);
            assert(a * pow2(0) == a) by (nonlinear_arith) requires pow2(0) == 1;
        }
        if b == 0 {
            assert(0 * pow2(d as nat) == 0);
            return a > 0;
        }
        if d >= 64 {
            proof {
                if d > 64 {
                    lemma_pow2_strictly_increases(64, d as nat);
                }
                assert(b * pow2(d as nat) >= pow2(d as nat)) by (nonlinear_arith)
                    requires b >= 1, pow2(d as nat) > 0;
            }
            return false;
        }
        proof {
            lemma_pow2_strictly_increases(d as nat, 64);
            assert(b * pow2(d as nat) <= two53() * pow2(64)) by (nonlinear_arith)
                requires b <= two53(), pow2(d as nat) < pow2(64);
            assert(pow2(64) == 0x1_0000_0000_0000_0000nat);
            assert(two53() * pow2(64) < 340282366920938463463374607431768211455nat);
        }
        let p: u64 = 1u64 << d;
        proof {
            vstd::bits::lemma_u64_shl_is_mul(1, d);
            assert(b as u128 * p as u128 == b * pow2(d as nat)) by (nonlinear_arith)
                requires p == 1 * pow2(d as nat);
        }
        a as u128 > (b as u128) * (p as u128)
    }
}

proof fn lemma_fin_gt_signs(a: nat, ea: int, b: nat, eb: int)
    ensures
        fin_gt(-a, ea, -b, eb) == fin_gt(b as int, eb, a as int, ea),
        fin_gt(-a, ea, b as int, eb) == false,
        fin_gt(a as int, ea, -b, eb) == (a > 0 || b > 0),
{
    let e = if ea < eb { ea } else { eb };
    let pa = pow2((ea - e) as nat);
    let pb = pow2((eb - e) as nat);
    lemma_pow2_pos((ea - e) as nat);
    lemma_pow2_pos((eb - e) as nat);
    assert((-a) * pa == -(a * pa)) by (nonlinear_arith);
    assert((-b) * pb == -(b * pb)) by (nonlinear_arith);
    assert(a * pa >= 0 && b * pb >= 0) by (nonlinear_arith) requires pa > 0, pb > 0;
    assert(a > 0 ==> a * pa > 0) by (nonlinear_arith) requires pa > 0;
    assert(b > 0 ==> b * pb > 0) by (nonlinear_arith) requires pb > 0;
}

fn num_gt_exec(x: &Num, y: &Num) -> (r: bool)
    requires
        num_ok(*x),
        num_ok(*y),
    ensures
        r == num_gt(num_of(*x), num_of(*y)),
{
    if x.kind == 0 || y.kind == 0 {
        return false;
    }
    if x.kind == 1 {
        return y.kind != 1;
    }
    if x.kind == 2 {
        return false;
    }
    if y.kind == 1 {
        return false;
    }
    if y.kind == 2 {
        return true;
    }
    proof {
        lemma_fin_gt_signs(x.mag as nat, x.exp as int, y.mag as nat, y.exp as int);
        lemma_fin_gt_signs(y.mag as nat, y.exp as int, x.mag as nat, x.exp as int);
    }
    if !x.neg && !y.neg {
        mag_gt(x.mag, x.exp, y.mag, y.exp)
    } else if x.neg && y.neg {
        mag_gt(y.mag, y.exp, x.mag, x.exp)
    } else if x.neg {
        false
    } else {
        x.mag > 0 || y.mag > 0
    }
}

fn num_of_toml(v: &TomlValue) -> (r: Option<Num>)
    ensures
        match r {
            Some(x) => num_ok(x) && toml_num(v@) == Some(num_of(x)),
            None => toml_num(v@) is None,
        },
{
    match v {
        TomlValue::Integer(n) => Some(round_i64(*n)),
        TomlValue::Float(f) => Some(decode_f64(f.bits)),
        _ => None,
    }
}

/// Whether `a > b` when both are converted to `f64` (false when either is
/// not a number or is NaN).
pub fn toml_greater(a: &TomlValue, b: &TomlValue) -> (r: bool)
    ensures
        r == toml_gt(a@, b@),
{
    match (num_of_toml(a), num_of_toml(b)) {
        (Some(x), Some(y)) => num_gt_exec(&x, &y),
        _ => false,
    }
}

} // verus!
