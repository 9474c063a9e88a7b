//! Double-precision values held by their IEEE-754 bit patterns.
//!
//! The verifier reasons about integers, so a value is carried as the 64 bits
//! of its binary64 encoding. Everything that only inspects an encoding
//! (equality, sign, wholeness, conversion to and from integers) is computed
//! here on the bits. Everything that rounds (addition, powers, sines) is left
//! to an arithmetic unit that the caller passes in; contracts describe the
//! result as a chain of steps performed by that unit.

use vstd::arithmetic::power2::{lemma_pow2_strictly_increases, lemma_pow2_unfold, pow2};
use vstd::prelude::*;
use vstd::std_specs::cmp::PartialEqSpecImpl;

verus! {

/// The sign bit of an encoding, 2^63.
pub const SIGN_BIT: u64 = 0x8000_0000_0000_0000;

/// The implicit leading bit of a normal significand, 2^52.
pub const HIDDEN_BIT: u64 = 0x0010_0000_0000_0000;

/// The encoding of positive infinity; larger magnitudes encode NaNs.
pub const INFINITY_BITS: u64 = 0x7ff0_0000_0000_0000;

/// The biased exponent of 1.0.
pub const EXPONENT_BIAS: u64 = 1023;

/// The biased exponent from which on every value is a whole number.
pub const EXPONENT_WHOLE: u64 = 1075;

/// A double-precision floating-point value, held by its bit pattern.
#[derive(Clone, Copy, Debug)]
pub struct Float {
    pub bits: u64,
}

/// The encoding of 0.0.
pub const ZERO_BITS: u64 = 0;

/// The encoding of 1.0.
pub const ONE_BITS: u64 = 0x3ff0_0000_0000_0000;

/// The encoding of 2.0.
pub const TWO_BITS: u64 = 0x4000_0000_0000_0000;

/// The encoding of 3.0.
pub const THREE_BITS: u64 = 0x4008_0000_0000_0000;

/// The encoding of Euler's number, 2.718281828459045.
pub const E_BITS: u64 = 0x4005_bf0a_8b14_5769;

/// The encoding of Archimedes' constant, 3.141592653589793.
pub const PI_BITS: u64 = 0x4009_21fb_5444_2d18;

/// The encoding of 0.001, below which magnitudes are shown in scientific notation.
pub const SMALL_BITS: u64 = 0x3f50_624d_d2f1_a9fc;

/// The encoding of 10^10, from which on magnitudes are shown in scientific notation.
pub const LARGE_BITS: u64 = 0x4202_a05f_2000_0000;

/// Floor of the base-2 logarithm of a positive integer.
pub open spec fn log2_floor(m: int) -> nat
    decreases m,
{
    if m <= 1 {
        0
    } else {
        1 + log2_floor(m / 2)
    }
}

impl Float {
    /// The encoding without its sign bit.
    pub open spec fn magnitude(self) -> u64 {
        (self.bits % SIGN_BIT) as u64
    }

    /// Whether the sign bit is set.
    pub open spec fn sign(self) -> bool {
        self.bits >= SIGN_BIT
    }

    /// The biased exponent field, between 0 and 2047.
    pub open spec fn exponent(self) -> int {
        ((self.bits % SIGN_BIT) / HIDDEN_BIT) as int
    }

    /// The 52 stored bits of the significand.
    pub open spec fn fraction(self) -> int {
        (self.bits % HIDDEN_BIT) as int
    }

    /// The significand of a normal value as an integer: the stored bits below
    /// the implicit leading one.
    pub open spec fn significand(self) -> int {
        HIDDEN_BIT + self.fraction()
    }

    /// Whether the encoding is that of a NaN.
    pub open spec fn is_nan(self) -> bool {
        self.magnitude() > INFINITY_BITS
    }

    /// Whether the value is neither infinite nor a NaN.
    pub open spec fn is_finite(self) -> bool {
        self.magnitude() < INFINITY_BITS
    }

    /// Positive or negative zero.
    pub open spec fn is_zero(self) -> bool {
        self.magnitude() == 0
    }

    /// IEEE equality: no NaN equals anything, and the two zeros are equal.
    pub open spec fn ieee_eq(self, other: Float) -> bool {
        &&& !self.is_nan()
        &&& !other.is_nan()
        &&& (self.bits == other.bits || (self.is_zero() && other.is_zero()))
    }

    /// IEEE `self < 0.0`.
    pub open spec fn is_below_zero(self) -> bool {
        self.sign() && !self.is_nan() && !self.is_zero()
    }

    /// Whether the value is finite and has no fractional part.
    pub open spec fn is_whole(self) -> bool {
        &&& self.is_finite()
        &&& (self.is_zero() || self.exponent() >= EXPONENT_WHOLE || (self.exponent()
            >= EXPONENT_BIAS && self.fraction() % (pow2(
            (EXPONENT_WHOLE - self.exponent()) as nat,
        ) as int) == 0))
    }

    /// The value with its fractional part dropped, as a mathematical integer.
    /// A NaN gives 0; an infinity gives a number beyond every machine integer.
    pub open spec fn truncated(self) -> int {
        let e = self.exponent();
        if self.is_nan() || e < EXPONENT_BIAS {
            0
        } else {
            let size = if e >= EXPONENT_WHOLE {
                self.significand() * pow2((e - EXPONENT_WHOLE) as nat)
            } else {
                self.significand() / (pow2((EXPONENT_WHOLE - e) as nat) as int)
            };
            if self.sign() {
                -size
            } else {
                size
            }
        }
    }

    /// The value cast to a signed 64-bit integer: truncated toward zero and
    /// held to the range of the type.
    pub open spec fn as_i64(self) -> i64 {
        let t = self.truncated();
        if t < i64::MIN {
            i64::MIN
        } else if t > i64::MAX {
            i64::MAX
        } else {
            t as i64
        }
    }

    /// The absolute value cast to an unsigned 64-bit integer, held to the
    /// range of the type.
    pub open spec fn abs_as_u64(self) -> u64 {
        let t = self.truncated();
        let size = if t < 0 {
            -t
        } else {
            t
        };
        if size > u64::MAX {
            u64::MAX
        } else {
            size as u64
        }
    }

    /// The double nearest to the integer `n`, ties going to the even
    /// significand.
    pub open spec fn of_int(n: int) -> Float {
        if n == 0 {
            Float { bits: ZERO_BITS }
        } else {
            let m = if n < 0 {
                -n
            } else {
                n
            };
            let sign = if n < 0 {
                SIGN_BIT as int
            } else {
                0
            };
            let p = log2_floor(m);
            if p <= 52 {
                Float {
                    bits: (sign + (EXPONENT_BIAS + p) * HIDDEN_BIT + (m * pow2((52 - p) as nat)
                        - HIDDEN_BIT)) as u64,
                }
            } else {
                let unit = pow2((p - 52) as nat) as int;
                let q = m / unit;
                let rest = m % unit;
                let up = 2 * rest > unit || (2 * rest == unit && q % 2 == 1);
                let rounded = if up {
                    q + 1
                } else {
                    q
                };
                Float {
                    bits: (sign + (EXPONENT_BIAS + p) * HIDDEN_BIT + (rounded - HIDDEN_BIT)) as u64,
                }
            }
        }
    }

    /// Wraps a bit pattern.
    pub fn from_bits(bits: u64) -> (r: Float)
        ensures
            r.bits == bits,
    {
        Float { bits }
    }

    /// Returns the bit pattern.
    pub fn to_bits(&self) -> (r: u64)
        ensures
            r == self.bits,
    {
        self.bits
    }

    /// Tells whether the value is a NaN.
    pub fn nan(&self) -> (r: bool)
        ensures
            r == self.is_nan(),
    {
        self.bits % SIGN_BIT > INFINITY_BITS
    }

    /// Tells whether the value is neither infinite nor a NaN.
    pub fn finite(&self) -> (r: bool)
        ensures
            r == self.is_finite(),
    {
        self.bits % SIGN_BIT < INFINITY_BITS
    }

    /// Tells whether the value is positive or negative zero.
    pub fn zero(&self) -> (r: bool)
        ensures
            r == self.is_zero(),
    {
        self.bits % SIGN_BIT == 0
    }

    /// Tells whether the value is less than zero.
    pub fn below_zero(&self) -> (r: bool)
        ensures
            r == self.is_below_zero(),
    {
        self.bits >= SIGN_BIT && !self.nan() && !self.zero()
    }

    /// Compares two values as IEEE-754 does.
    pub fn equals(&self, other: &Float) -> (r: bool)
        ensures
            r == self.ieee_eq(*other),
    {
        !self.nan() && !other.nan() && (self.bits == other.bits || (self.zero() && other.zero()))
    }

    /// Tells whether the value has no fractional part. Infinities and NaNs
    /// have none that is zero, so they are not whole.
    pub fn whole(&self) -> (r: bool)
        ensures
            r == self.is_whole(),
    {
        if !self.finite() {
            return false;
        }
        if self.zero() {
            return true;
        }
        let e: u64 = (self.bits % SIGN_BIT) / HIDDEN_BIT;
        if e >= EXPONENT_WHOLE {
            return true;
        }
        if e < EXPONENT_BIAS {
            return false;
        }
        let unit: u64 = power_of_two((EXPONENT_WHOLE - e) as u32);
        (self.bits % HIDDEN_BIT) % unit == 0
    }

    /// Casts to a signed integer as `as` does for doubles: toward zero,
    /// saturating at the bounds, with 0 for a NaN.
    pub fn to_i64(&self) -> (r: i64)
        ensures
            r == self.as_i64(),
    {
        let e: u64 = (self.bits % SIGN_BIT) / HIDDEN_BIT;
        if self.nan() || e < EXPONENT_BIAS {
            return 0;
        }
        let negative: bool = self.bits >= SIGN_BIT;
        let significand: u64 = HIDDEN_BIT + self.bits % HIDDEN_BIT;
        if e >= EXPONENT_WHOLE + 11 {
            proof {
                lemma_pow2_at_least((e - EXPONENT_WHOLE) as nat, 11);
                lemma_pow2_values();
                let p = pow2((e - EXPONENT_WHOLE) as nat) as int;
                assert(significand * p >= 0x8000_0000_0000_0000) by (nonlinear_arith)
                    requires
                        significand >= 0x0010_0000_0000_0000,
                        p >= 2048,
                ;
            }
            return if negative {
                i64::MIN
            } else {
                i64::MAX
            };
        }
        let size: u64 = if e >= EXPONENT_WHOLE {
            let unit: u64 = power_of_two((e - EXPONENT_WHOLE) as u32);
            proof {
                lemma_pow2_at_most((e - EXPONENT_WHOLE) as nat, 10);
                lemma_pow2_values();
                assert(significand * unit < 0x8000_0000_0000_0000) by (nonlinear_arith)
                    requires
                        significand < 0x0020_0000_0000_0000,
                        0 < unit <= 1024,
                ;
            }
            significand * unit
        } else {
            let unit: u64 = power_of_two((EXPONENT_WHOLE - e) as u32);
            significand / unit
        };
        if negative {
            -(size as i64)
        } else {
            size as i64
        }
    }

    /// Casts the absolute value to an unsigned integer as `as` does for
    /// doubles: toward zero, saturating at the upper bound, with 0 for a NaN.
    pub fn abs_to_u64(&self) -> (r: u64)
        ensures
            r == self.abs_as_u64(),
    {
        let e: u64 = (self.bits % SIGN_BIT) / HIDDEN_BIT;
        if self.nan() || e < EXPONENT_BIAS {
            return 0;
        }
        let significand: u64 = HIDDEN_BIT + self.bits % HIDDEN_BIT;
        if e >= EXPONENT_WHOLE + 12 {
            proof {
                lemma_pow2_at_least((e - EXPONENT_WHOLE) as nat, 12);
                lemma_pow2_values();
                let p = pow2((e - EXPONENT_WHOLE) as nat) as int;
                assert(significand * p >= 0x1_0000_0000_0000_0000) by (nonlinear_arith)
                    requires
                        significand >= 0x0010_0000_0000_0000,
                        p >= 4096,
                ;
            }
            return u64::MAX;
        }
        if e >= EXPONENT_WHOLE {
            let unit: u64 = power_of_two((e - EXPONENT_WHOLE) as u32);
            proof {
                lemma_pow2_at_most((e - EXPONENT_WHOLE) as nat, 11);
                lemma_pow2_values();
                assert(significand * unit < 0x1_0000_0000_0000_0000) by (nonlinear_arith)
                    requires
                        significand < 0x0020_0000_0000_0000,
                        0 < unit <= 2048,
                ;
            }
            significand * unit
        } else {
            let unit: u64 = power_of_two((EXPONENT_WHOLE - e) as u32);
            significand / unit
        }
    }

    /// Converts an integer to the nearest double, as `as` does.
    pub fn from_i64(n: i64) -> (r: Float)
        ensures
            r == Float::of_int(n as int),
    {
        if n == 0 {
            return Float { bits: ZERO_BITS };
        }
        let m: u64 = if n == i64::MIN {
            SIGN_BIT
        } else if n < 0 {
            (-n) as u64
        } else {
            n as u64
        };
        let sign: u64 = if n < 0 {
            SIGN_BIT
        } else {
            0
        };
        let p: u32 = floor_log2(m);
        proof {
            lemma_log2_floor_bounds(m as int);
            lemma_pow2_values();
            if p < 63 {
                lemma_pow2_at_most((p + 1) as nat, 63);
            }
            lemma_pow2_at_most(p as nat, 63);
        }
        if p <= 52 {
            let unit: u64 = power_of_two(52 - p);
            proof {
                vstd::arithmetic::power2::lemma_pow2_adds(p as nat, (52 - p) as nat);
                vstd::arithmetic::power2::lemma_pow2_adds((p + 1) as nat, (52 - p) as nat);
                let a = pow2(p as nat) as int;
                let b = pow2((p + 1) as nat) as int;
                assert(a * unit <= m * unit < b * unit) by (nonlinear_arith)
                    requires
                        a <= m < b,
                        unit > 0,
                ;
                lemma_pow2_unfold(53);
            }
            Float { bits: sign + (EXPONENT_BIAS + p as u64) * HIDDEN_BIT + (m * unit - HIDDEN_BIT) }
        } else {
            let unit: u64 = power_of_two(p - 52);
            let q: u64 = m / unit;
            let rest: u64 = m % unit;
            proof {
                vstd::arithmetic::power2::lemma_pow2_adds(52, (p - 52) as nat);
                vstd::arithmetic::power2::lemma_pow2_adds(53, (p - 52) as nat);
                lemma_pow2_unfold(53);
                assert(0x0010_0000_0000_0000 <= q < 0x0020_0000_0000_0000) by (nonlinear_arith)
                    requires
                        q == m / unit,
                        unit > 0,
                        0x0010_0000_0000_0000 * unit <= m < 0x0020_0000_0000_0000 * unit,
                ;
                assert(rest < unit) by (nonlinear_arith)
                    requires
                        rest == m % unit,
                        unit > 0,
                ;
            }
            let twice: u128 = 2 * (rest as u128);
            let up: bool = twice > unit as u128 || (twice == unit as u128 && q % 2 == 1);
            let rounded: u64 = if up {
                q + 1
            } else {
                q
            };
            Float { bits: sign + (EXPONENT_BIAS + p as u64) * HIDDEN_BIT + (rounded - HIDDEN_BIT) }
        }
    }
}

impl PartialEq for Float {
    fn eq(&self, other: &Float) -> (r: bool) {
        self.equals(other)
    }
}

impl PartialEqSpecImpl for Float {
    open spec fn obeys_eq_spec() -> bool {
        true
    }

    open spec fn eq_spec(&self, other: &Float) -> bool {
        self.ieee_eq(*other)
    }
}

/// Compares two optional values as IEEE-754 does where both are present.
pub open spec fn option_ieee_eq(a: Option<Float>, b: Option<Float>) -> bool {
    match (a, b) {
        (Some(x), Some(y)) => x.ieee_eq(y),
        (None, None) => true,
        _ => false,
    }
}

/// Compares two optional values as IEEE-754 does where both are present.
pub fn option_equals(a: &Option<Float>, b: &Option<Float>) -> (r: bool)
    ensures
        r == option_ieee_eq(*a, *b),
{
    match (a, b) {
        (Some(x), Some(y)) => x.equals(y),
        (None, None) => true,
        _ => false,
    }
}

proof fn lemma_pow2_values()
    ensures
        pow2(0) == 1,
        pow2(10) == 1024,
        pow2(11) == 2048,
        pow2(12) == 4096,
        pow2(52) == 0x0010_0000_0000_0000,
        pow2(53) == 0x0020_0000_0000_0000,
        pow2(63) == 0x8000_0000_0000_0000,
{
    vstd::arithmetic::power2::lemma2_to64();
    vstd::arithmetic::power2::lemma2_to64_rest();
}

proof fn lemma_pow2_at_least(e: nat, low: nat)
    requires
        low <= e,
    ensures
        pow2(low) <= pow2(e),
{
    if low < e {
        lemma_pow2_strictly_increases(low, e);
    }
}

proof fn lemma_pow2_at_most(e: nat, high: nat)
    requires
        e <= high,
    ensures
        0 < pow2(e) <= pow2(high),
{
    vstd::arithmetic::power2::lemma_pow2_pos(e);
    if e < high {
        lemma_pow2_strictly_increases(e, high);
    }
}

proof fn lemma_log2_floor_bounds(m: int)
    requires
        m >= 1,
    ensures
        pow2(log2_floor(m)) <= m < pow2(log2_floor(m) + 1),
    decreases m,
{
    if m <= 1 {
        lemma_pow2_values();
        lemma_pow2_unfold(1);
    } else {
        lemma_log2_floor_bounds(m / 2);
        lemma_pow2_unfold(log2_floor(m));
        lemma_pow2_unfold(log2_floor(m) + 1);
    }
}

/// Computes 2^k.
fn power_of_two(k: u32) -> (r: u64)
    requires
        k < 64,
    ensures
        r == pow2(k as nat),
        r > 0,
{
    let mut r: u64 = 1;
    let mut i: u32 = 0;
    proof {
        lemma_pow2_values();
    }
    while i < k
        invariant
            i <= k < 64,
            r == pow2(i as nat),
            r > 0,
        decreases k - i,
    {
        proof {
            lemma_pow2_unfold((i + 1) as nat);
            lemma_pow2_at_most((i + 1) as nat, 63);
            lemma_pow2_values();
        }
        r = r * 2;
        i = i + 1;
    }
    r
}

/// Computes the position of the highest set bit.
fn floor_log2(m: u64) -> (r: u32)
    requires
        m >= 1,
    ensures
        r == log2_floor(m as int),
        r < 64,
{
    let mut rest: u64 = m;
    let mut r: u32 = 0;
    proof {
        vstd::arithmetic::power2::lemma2_to64_rest();
    }
    while rest > 1
        invariant
            rest >= 1,
            r < 64,
            rest < pow2((64 - r) as nat),
            log2_floor(m as int) == r + log2_floor(rest as int),
        decreases rest,
    {
        proof {
            lemma_pow2_unfold((64 - r) as nat);
            if r == 63 {
                lemma_pow2_unfold(1);
                lemma_pow2_values();
            }
        }
        rest = rest / 2;
        r = r + 1;
    }
    r
}

/// The operations that are left to the caller's arithmetic unit.
#[derive(Clone, Copy, Debug, PartialEq, Eq, Structural)]
pub enum Op {
    /// `a + b`
    Add,
    /// `a - b`
    Sub,
    /// `a * b`
    Mul,
    /// `a / b`
    Div,
    /// `a` raised to the power `b`
    Pow,
    /// Sine of `a`
    Sin,
    /// Cosine of `a`
    Cos,
    /// Tangent of `a`
    Tan,
    /// Arcsine of `a`
    Asin,
    /// Arccosine of `a`
    Acos,
    /// Arctangent of `a`
    Atan,
}

/// One operation applied to a running value `x`: `x op operand`, or
/// `operand op x` where `reversed` is set.
pub struct Step {
    pub op: Op,
    pub operand: Float,
    pub reversed: bool,
}

impl Step {
    /// `x op operand`
    pub open spec fn new(op: Op, operand: Float) -> Step {
        Step { op, operand, reversed: false }
    }

    /// `operand op x`
    pub open spec fn rev(op: Op, operand: Float) -> Step {
        Step { op, operand, reversed: true }
    }

    /// The arguments that the arithmetic unit receives for this step.
    pub open spec fn args(self, x: Float) -> (Op, Float, Float) {
        if self.reversed {
            (self.op, self.operand, x)
        } else {
            (self.op, x, self.operand)
        }
    }
}

/// Whether the arithmetic unit accepts every input.
pub open spec fn total<F: Fn(Op, Float, Float) -> Float>(fpu: &F) -> bool {
    forall|op: Op, a: Float, b: Float| call_requires(*fpu, (op, a, b))
}

/// Whether `out` is a value that the arithmetic unit `fpu` may produce by
/// performing `steps` in order, starting from `start`.
pub open spec fn evaluates_to<F: Fn(Op, Float, Float) -> Float>(
    fpu: &F,
    start: Float,
    steps: Seq<Step>,
    out: Float,
) -> bool
    decreases steps.len(),
{
    if steps.len() == 0 {
        out == start
    } else {
        exists|mid: Float|
            evaluates_to(fpu, start, steps.drop_last(), mid) && #[trigger] call_ensures(
                *fpu,
                steps.last().args(mid),
                out,
            )
    }
}

/// A chain grows by one step at its end.
pub proof fn lemma_evaluates_push<F: Fn(Op, Float, Float) -> Float>(
    fpu: &F,
    start: Float,
    steps: Seq<Step>,
    mid: Float,
    step: Step,
    out: Float,
)
    requires
        evaluates_to(fpu, start, steps, mid),
        call_ensures(*fpu, step.args(mid), out),
    ensures
        evaluates_to(fpu, start, steps.push(step), out),
{
    let s = steps.push(step);
    assert(s.drop_last() =~= steps);
    assert(s.last() == step);
}

/// Two chains, the second starting where the first ended, make one chain.
pub proof fn lemma_evaluates_concat<F: Fn(Op, Float, Float) -> Float>(
    fpu: &F,
    start: Float,
    first: Seq<Step>,
    mid: Float,
    second: Seq<Step>,
    out: Float,
)
    requires
        evaluates_to(fpu, start, first, mid),
        evaluates_to(fpu, mid, second, out),
    ensures
        evaluates_to(fpu, start, first + second, out),
    decreases second.len(),
{
    if second.len() == 0 {
        assert(first + second =~= first);
    } else {
        let before = choose|before: Float|
            evaluates_to(fpu, mid, second.drop_last(), before) && #[trigger] call_ensures(
                *fpu,
                second.last().args(before),
                out,
            );
        lemma_evaluates_concat(fpu, start, first, mid, second.drop_last(), before);
        lemma_evaluates_push(
            fpu,
            start,
            first + second.drop_last(),
            before,
            second.last(),
            out,
        );
        assert((first + second.drop_last()).push(second.last()) =~= first + second);
    }
}

/// Performs one step on the arithmetic unit.
pub fn apply<F: Fn(Op, Float, Float) -> Float>(
    fpu: &F,
    op: Op,
    x: Float,
    operand: Float,
    reversed: bool,
) -> (out: Float)
    requires
        total(fpu),
    ensures
        call_ensures(*fpu, (Step { op, operand, reversed }).args(x), out),
{
    if reversed {
        fpu(op, operand, x)
    } else {
        fpu(op, x, operand)
    }
}

} // verus!
