//! Conversions in exact arithmetic.
//!
//! The arithmetic unit rounds, and what it makes of a conversion there and
//! back is near the value that was converted, not equal to it. Read in the
//! real numbers, without rounding, the steps of the way back undo the steps
//! of the way there.

use super::base::Base;
use super::laws::lemma_merge_from;
use super::number::{first_alike, fold_across, has_alike, merge_all, merge_from, simplify, swap_steps};
use super::unit::{base_steps, convert_steps, pass_steps, valid, Pass, UnitView};
use crate::float::{Float, Op, Step};
use vstd::prelude::*;

verus! {

/// Two to the power `e`, as a real number.
pub open spec fn pow2_real(e: int) -> real
    decreases
            (if e >= 0 {
                e
            } else {
                -e
            }),
{
    if e == 0 {
        1real
    } else if e > 0 {
        2real * pow2_real(e - 1)
    } else {
        pow2_real(e + 1) / 2real
    }
}

/// The real number that a finite double stands for: its significand times
/// two to the power of its exponent, with its sign.
pub open spec fn exact(x: Float) -> real {
    let size = if x.exponent() == 0 {
        (x.fraction() as real) * pow2_real(-1074)
    } else {
        (x.significand() as real) * pow2_real(x.exponent() - 1075)
    };
    if x.sign() {
        -size
    } else {
        size
    }
}

/// Whether a double is a number other than zero.
pub open spec fn plain(x: Float) -> bool {
    x.is_finite() && !x.is_zero()
}

/// Whether the factors of bases are numbers other than zero, and their zeros
/// numbers.
pub open spec fn plain_bases(s: Seq<Base>) -> bool {
    forall|i: int|
        0 <= i < s.len() ==> plain((#[trigger] s[i]).factor) && (s[i].zero matches Some(z)
            ==> z.is_finite())
}

/// Whether the constant of a unit and the factors of its bases are numbers
/// other than zero, and the zeros of its bases numbers.
pub open spec fn plain_unit(u: UnitView) -> bool {
    plain(u.constant) && plain_bases(u.numer) && plain_bases(u.denom)
}

/// What a step makes of a value in exact arithmetic. Only the four
/// operations of arithmetic are exact; another step leaves the value.
pub open spec fn exact_step(step: Step, x: real) -> real {
    let c = exact(step.operand);
    match step.op {
        Op::Add => x + c,
        Op::Sub => if step.reversed {
            c - x
        } else {
            x - c
        },
        Op::Mul => x * c,
        Op::Div => if step.reversed {
            c / x
        } else {
            x / c
        },
        _ => x,
    }
}

/// What steps make of a value in exact arithmetic.
pub open spec fn exact_run(steps: Seq<Step>, x: real) -> real
    decreases steps.len(),
{
    if steps.len() == 0 {
        x
    } else {
        exact_step(steps.last(), exact_run(steps.drop_last(), x))
    }
}

/// The product of the factors of bases.
pub open spec fn product(s: Seq<Base>) -> real
    decreases s.len(),
{
    if s.len() == 0 {
        1real
    } else {
        product(s.drop_last()) * exact(s.last().factor)
    }
}

/// Powers of two are positive.
pub proof fn lemma_pow2_real_positive(e: int)
    ensures
        pow2_real(e) > 0real,
    decreases
            (if e >= 0 {
                e
            } else {
                -e
            }),
{
    if e > 0 {
        lemma_pow2_real_positive(e - 1);
    } else if e < 0 {
        lemma_pow2_real_positive(e + 1);
    }
}

/// A double that is a number other than zero stands for a real number other
/// than zero, and a zero for zero.
pub proof fn lemma_exact_zero(x: Float)
    ensures
        x.is_zero() ==> exact(x) == 0real,
        plain(x) ==> exact(x) != 0real,
{
    lemma_pow2_real_positive(-1074);
    lemma_pow2_real_positive(x.exponent() - 1075);
    if x.is_zero() {
        assert(x.exponent() == 0);
        assert(x.fraction() == 0);
    }
    if plain(x) {
        if x.exponent() == 0 {
            assert(x.fraction() > 0);
            let m = x.fraction() as real;
            let p = pow2_real(-1074);
            assert(m * p > 0real) by (nonlinear_arith)
                requires
                    m > 0real,
                    p > 0real,
            ;
        } else {
            let m = x.significand() as real;
            let p = pow2_real(x.exponent() - 1075);
            assert(m * p > 0real) by (nonlinear_arith)
                requires
                    m > 0real,
                    p > 0real,
            ;
        }
    }
}

/// Steps in two parts are run one part after the other.
pub proof fn lemma_exact_run_adds(first: Seq<Step>, second: Seq<Step>, x: real)
    ensures
        exact_run(first + second, x) == exact_run(second, exact_run(first, x)),
    decreases second.len(),
{
    if second.len() == 0 {
        assert(first + second =~= first);
    } else {
        lemma_exact_run_adds(first, second.drop_last(), x);
        assert((first + second).drop_last() =~= first + second.drop_last());
        assert((first + second).last() == second.last());
    }
}

/// The product of factors other than zero is not zero.
pub proof fn lemma_product_nonzero(s: Seq<Base>)
    requires
        plain_bases(s),
    ensures
        product(s) != 0real,
    decreases s.len(),
{
    if s.len() > 0 {
        assert(plain_bases(s.drop_last())) by {
            assert forall|i: int| 0 <= i < s.drop_last().len() implies plain(
                (#[trigger] s.drop_last()[i]).factor,
            ) && (s.drop_last()[i].zero matches Some(z) ==> z.is_finite()) by {
                assert(s.drop_last()[i] == s[i]);
            }
        }
        lemma_product_nonzero(s.drop_last());
        assert(s.last() == s[s.len() - 1]);
        lemma_exact_zero(s.last().factor);
        let p = product(s.drop_last());
        let f = exact(s.last().factor);
        assert(p * f != 0real) by (nonlinear_arith)
            requires
                p != 0real,
                f != 0real,
        ;
    }
}

/// A part of plain bases is plain.
proof fn lemma_plain_drop_last(s: Seq<Base>)
    requires
        plain_bases(s),
        s.len() > 0,
    ensures
        plain_bases(s.drop_last()),
        plain(s.last().factor),
        s.last().zero matches Some(z) ==> z.is_finite(),
{
    assert forall|i: int| 0 <= i < s.drop_last().len() implies plain(
        (#[trigger] s.drop_last()[i]).factor,
    ) && (s.drop_last()[i].zero matches Some(z) ==> z.is_finite()) by {
        assert(s.drop_last()[i] == s[i]);
    }
    assert(s.last() == s[s.len() - 1]);
}

/// The steps for one base, run.
proof fn lemma_base_steps(b: Base, pass: Pass, x: real)
    ensures
        exact_run(base_steps(b, pass), x) == (match pass {
            Pass::LowerNumer => (x - offset(b)) * exact(b.factor),
            Pass::LowerDenom => x / exact(b.factor),
            Pass::RaiseNumer => x / exact(b.factor) + offset(b),
            Pass::RaiseDenom => x * exact(b.factor),
        }),
{
    let steps = base_steps(b, pass);
    reveal_with_fuel(exact_run, 3);
    if steps.len() == 1 {
        assert(steps.drop_last() =~= Seq::<Step>::empty());
    } else {
        assert(steps.drop_last().drop_last() =~= Seq::<Step>::empty());
        assert(steps.drop_last().last() == steps[0]);
    }
}

/// The zero of a base as a real number; a scale of differences has none,
/// which is as good as zero.
pub open spec fn offset(b: Base) -> real {
    match b.zero {
        Some(z) => exact(z),
        None => 0real,
    }
}

/// In exact arithmetic, a pass over a denominator divides or multiplies by
/// the product of its factors.
pub proof fn lemma_denominator_pass(s: Seq<Base>, x: real)
    requires
        plain_bases(s),
    ensures
        exact_run(pass_steps(s, Pass::LowerDenom), x) == x / product(s),
        exact_run(pass_steps(s, Pass::RaiseDenom), x) == x * product(s),
    decreases s.len(),
{
    if s.len() > 0 {
        lemma_plain_drop_last(s);
        lemma_denominator_pass(s.drop_last(), x);
        lemma_product_nonzero(s.drop_last());
        lemma_exact_zero(s.last().factor);
        let p = product(s.drop_last());
        let f = exact(s.last().factor);
        lemma_exact_run_adds(
            pass_steps(s.drop_last(), Pass::LowerDenom),
            base_steps(s.last(), Pass::LowerDenom),
            x,
        );
        lemma_exact_run_adds(
            pass_steps(s.drop_last(), Pass::RaiseDenom),
            base_steps(s.last(), Pass::RaiseDenom),
            x,
        );
        lemma_base_steps(s.last(), Pass::LowerDenom, x / p);
        lemma_base_steps(s.last(), Pass::RaiseDenom, x * p);
        assert((x / p) / f == x / (p * f)) by (nonlinear_arith)
            requires
                p != 0real,
                f != 0real,
        ;
        assert((x * p) * f == x * (p * f)) by (nonlinear_arith);
    }
}

/// In exact arithmetic, a pass over a numerator without an absolute scale
/// multiplies or divides by the product of its factors.
pub proof fn lemma_numerator_pass(s: Seq<Base>, x: real)
    requires
        plain_bases(s),
        forall|i: int| 0 <= i < s.len() ==> !(#[trigger] s[i]).has_offset(),
    ensures
        exact_run(pass_steps(s, Pass::LowerNumer), x) == x * product(s),
        exact_run(pass_steps(s, Pass::RaiseNumer), x) == x / product(s),
    decreases s.len(),
{
    if s.len() > 0 {
        lemma_plain_drop_last(s);
        assert forall|i: int| 0 <= i < s.drop_last().len() implies !(#[trigger] s.drop_last()[i]).has_offset() by {
            assert(s.drop_last()[i] == s[i]);
        }
        lemma_numerator_pass(s.drop_last(), x);
        lemma_product_nonzero(s.drop_last());
        let b = s.last();
        assert(b == s[s.len() - 1]);
        lemma_exact_zero(b.factor);
        if b.zero is Some {
            lemma_exact_zero(b.zero->Some_0);
        }
        assert(offset(b) == 0real);
        let p = product(s.drop_last());
        let f = exact(b.factor);
        lemma_exact_run_adds(
            pass_steps(s.drop_last(), Pass::LowerNumer),
            base_steps(b, Pass::LowerNumer),
            x,
        );
        lemma_exact_run_adds(
            pass_steps(s.drop_last(), Pass::RaiseNumer),
            base_steps(b, Pass::RaiseNumer),
            x,
        );
        lemma_base_steps(b, Pass::LowerNumer, x * p);
        lemma_base_steps(b, Pass::RaiseNumer, x / p);
        assert((x * p - 0real) * f == x * (p * f)) by (nonlinear_arith);
        assert((x / p) / f + 0real == x / (p * f)) by (nonlinear_arith)
            requires
                p != 0real,
                f != 0real,
        ;
    }
}

/// The steps that bring a value in a unit down to the SI.
pub open spec fn lower(u: UnitView) -> Seq<Step> {
    pass_steps(u.numer, Pass::LowerNumer) + pass_steps(u.denom, Pass::LowerDenom)
}

/// The steps that bring a value up from the SI to a unit.
pub open spec fn raise(u: UnitView) -> Seq<Step> {
    pass_steps(u.numer, Pass::RaiseNumer) + pass_steps(u.denom, Pass::RaiseDenom)
}

/// In exact arithmetic, the way up to a unit and the way down from it undo
/// each other.
pub proof fn lemma_up_and_down(u: UnitView, x: real)
    requires
        valid(u),
        plain_bases(u.numer),
        plain_bases(u.denom),
    ensures
        exact_run(raise(u), exact_run(lower(u), x)) == x,
        exact_run(lower(u), exact_run(raise(u), x)) == x,
{
    let ln = pass_steps(u.numer, Pass::LowerNumer);
    let ld = pass_steps(u.denom, Pass::LowerDenom);
    let rn = pass_steps(u.numer, Pass::RaiseNumer);
    let rd = pass_steps(u.denom, Pass::RaiseDenom);
    lemma_exact_run_adds(ln, ld, x);
    lemma_exact_run_adds(rn, rd, x);
    let down = exact_run(lower(u), x);
    let up = exact_run(raise(u), x);
    lemma_exact_run_adds(rn, rd, down);
    lemma_exact_run_adds(ln, ld, up);
    lemma_product_nonzero(u.denom);
    let pd = product(u.denom);
    if u.numer.len() == 1 && u.denom.len() == 0 {
        let b = u.numer[0];
        assert(u.numer.drop_last() =~= Seq::<Base>::empty());
        assert(u.numer.last() == b);
        assert(pass_steps(u.numer, Pass::LowerNumer) =~= base_steps(b, Pass::LowerNumer)) by {
            assert(pass_steps(Seq::<Base>::empty(), Pass::LowerNumer) =~= Seq::<Step>::empty());
        }
        assert(pass_steps(u.numer, Pass::RaiseNumer) =~= base_steps(b, Pass::RaiseNumer)) by {
            assert(pass_steps(Seq::<Base>::empty(), Pass::RaiseNumer) =~= Seq::<Step>::empty());
        }
        assert(ld =~= Seq::<Step>::empty());
        assert(rd =~= Seq::<Step>::empty());
        lemma_exact_zero(b.factor);
        let f = exact(b.factor);
        let z = offset(b);
        lemma_base_steps(b, Pass::LowerNumer, x);
        lemma_base_steps(b, Pass::RaiseNumer, x);
        lemma_base_steps(b, Pass::RaiseNumer, (x - z) * f);
        lemma_base_steps(b, Pass::LowerNumer, x / f + z);
        assert(((x - z) * f) / f + z == x) by (nonlinear_arith)
            requires
                f != 0real,
        ;
        assert(((x / f + z) - z) * f == x) by (nonlinear_arith)
            requires
                f != 0real,
        ;
    } else {
        lemma_product_nonzero(u.numer);
        let pn = product(u.numer);
        lemma_numerator_pass(u.numer, x);
        lemma_denominator_pass(u.denom, x * pn);
        lemma_numerator_pass(u.numer, x * pn / pd);
        lemma_denominator_pass(u.denom, (x * pn / pd) / pn);
        lemma_denominator_pass(u.denom, x / pn);
        lemma_numerator_pass(u.numer, x / pn * pd);
        lemma_denominator_pass(u.denom, (x / pn * pd) * pn);
        assert(((x * pn / pd) / pn) * pd == x) by (nonlinear_arith)
            requires
                pn != 0real,
                pd != 0real,
        ;
        assert(((x / pn * pd) * pn) / pd == x) by (nonlinear_arith)
            requires
                pn != 0real,
                pd != 0real,
        ;
    }
}

/// Round-trip conversion, in exact arithmetic: a value that is converted
/// from one unit to another and back is the value that it was. The units are
/// any two valid units whose constants and factors are numbers other than
/// zero.
pub proof fn lemma_round_trip(a: UnitView, b: UnitView, v: real)
    requires
        valid(a),
        valid(b),
        plain_unit(a),
        plain_unit(b),
    ensures
        exact_run(convert_steps(b, a), exact_run(convert_steps(a, b), v)) == v,
{
    let ca = exact(a.constant);
    let cb = exact(b.constant);
    lemma_exact_zero(a.constant);
    lemma_exact_zero(b.constant);
    let there = convert_steps(a, b);
    let back = convert_steps(b, a);
    let enter_a = seq![Step::new(Op::Mul, a.constant)];
    let leave_a = seq![Step::new(Op::Div, a.constant)];
    let enter_b = seq![Step::new(Op::Mul, b.constant)];
    let leave_b = seq![Step::new(Op::Div, b.constant)];
    assert(there =~= enter_a + lower(a) + raise(b) + leave_b);
    assert(back =~= enter_b + lower(b) + raise(a) + leave_a);
    reveal_with_fuel(exact_run, 2);
    assert(enter_a.drop_last() =~= Seq::<Step>::empty());
    assert(leave_a.drop_last() =~= Seq::<Step>::empty());
    assert(enter_b.drop_last() =~= Seq::<Step>::empty());
    assert(leave_b.drop_last() =~= Seq::<Step>::empty());
    // The way there.
    let v1 = v * ca;
    let v2 = exact_run(lower(a), v1);
    let v3 = exact_run(raise(b), v2);
    let v4 = v3 / cb;
    lemma_exact_run_adds(enter_a, lower(a), v);
    lemma_exact_run_adds(enter_a + lower(a), raise(b), v);
    lemma_exact_run_adds(enter_a + lower(a) + raise(b), leave_b, v);
    assert(exact_run(there, v) == v4);
    // The way back.
    let w1 = v4 * cb;
    let w2 = exact_run(lower(b), w1);
    let w3 = exact_run(raise(a), w2);
    let w4 = w3 / ca;
    lemma_exact_run_adds(enter_b, lower(b), v4);
    lemma_exact_run_adds(enter_b + lower(b), raise(a), v4);
    lemma_exact_run_adds(enter_b + lower(b) + raise(a), leave_a, v4);
    assert(exact_run(back, v4) == w4);
    assert(w1 == v3) by (nonlinear_arith)
        requires
            w1 == (v3 / cb) * cb,
            cb != 0real,
    ;
    lemma_up_and_down(b, v2);
    lemma_up_and_down(a, v1);
    assert(w4 == v) by (nonlinear_arith)
        requires
            w4 == (v * ca) / ca,
            ca != 0real,
    ;
}

/// The product over two sequences in a row is the product of the products.
pub proof fn lemma_product_adds(a: Seq<Base>, b: Seq<Base>)
    ensures
        product(a + b) == product(a) * product(b),
    decreases b.len(),
{
    if b.len() == 0 {
        assert(a + b =~= a);
        assert(product(a) * 1real == product(a)) by (nonlinear_arith);
    } else {
        lemma_product_adds(a, b.drop_last());
        assert((a + b).drop_last() =~= a + b.drop_last());
        assert((a + b).last() == b.last());
        let x = product(a);
        let y = product(b.drop_last());
        let f = exact(b.last().factor);
        assert((x * y) * f == x * (y * f)) by (nonlinear_arith);
    }
}

/// The product over one base is its factor.
proof fn lemma_product_single(x: Base)
    ensures
        product(seq![x]) == exact(x.factor),
{
    reveal_with_fuel(product, 2);
    assert(seq![x].drop_last() =~= Seq::<Base>::empty());
    assert(1real * exact(x.factor) == exact(x.factor)) by (nonlinear_arith);
}

/// The product with the base at `j` written anew: `before` and `after` are
/// what is left and right of it.
proof fn lemma_product_parts(s: Seq<Base>, j: int)
    requires
        0 <= j < s.len(),
    ensures
        product(s) == product(s.take(j)) * exact(s[j].factor) * product(s.skip(j + 1)),
        product(s.remove(j)) == product(s.take(j)) * product(s.skip(j + 1)),
        forall|b: Base| #[trigger]
            product(s.update(j, b)) == product(s.take(j)) * exact(b.factor) * product(
                s.skip(j + 1),
            ),
{
    let left = s.take(j);
    let right = s.skip(j + 1);
    assert(s.remove(j) =~= left + right);
    lemma_product_adds(left, right);
    assert forall|b: Base| #[trigger]
        product(s.update(j, b)) == product(left) * exact(b.factor) * product(right) by {
        assert(s.update(j, b) =~= left + seq![b] + right);
        lemma_product_adds(left, seq![b]);
        lemma_product_adds(left + seq![b], right);
        lemma_product_single(b);
    }
    assert(s.update(j, s[j]) =~= s);
}

/// A sequence of plain bases stays one where a base leaves it or one of its
/// own bases takes the place of another.
proof fn lemma_plain_parts(s: Seq<Base>, i: int, j: int)
    requires
        plain_bases(s),
        0 <= i < s.len(),
        0 <= j < s.len(),
    ensures
        plain_bases(s.remove(j)),
        plain_bases(s.update(j, s[i])),
        plain_bases(s.drop_first()),
        plain(s[j].factor),
{
    assert forall|k: int| 0 <= k < s.remove(j).len() implies plain(
        (#[trigger] s.remove(j)[k]).factor,
    ) && (s.remove(j)[k].zero matches Some(z) ==> z.is_finite()) by {
        if k < j {
            assert(s.remove(j)[k] == s[k]);
        } else {
            assert(s.remove(j)[k] == s[k + 1]);
        }
    }
    assert forall|k: int| 0 <= k < s.len() implies plain(
        (#[trigger] s.update(j, s[i])[k]).factor,
    ) && (s.update(j, s[i])[k].zero matches Some(z) ==> z.is_finite()) by {
        if k == j {
            assert(s.update(j, s[i])[k] == s[i]);
        } else {
            assert(s.update(j, s[i])[k] == s[k]);
        }
    }
    assert forall|k: int| 0 <= k < s.drop_first().len() implies plain(
        (#[trigger] s.drop_first()[k]).factor,
    ) && (s.drop_first()[k].zero matches Some(z) ==> z.is_finite()) by {
        assert(s.drop_first()[k] == s[k + 1]);
    }
}

/// What two steps in a row make of a value.
proof fn lemma_two_steps(first: Step, second: Step, x: real)
    ensures
        exact_run(seq![first, second], x) == exact_step(second, exact_step(first, x)),
{
    reveal_with_fuel(exact_run, 3);
    let steps = seq![first, second];
    assert(steps.drop_last().drop_last() =~= Seq::<Step>::empty());
    assert(steps.drop_last().last() == first);
}

/// Dividing and multiplying by the same number other than zero changes
/// nothing.
proof fn lemma_div_mul(x: real, y: real)
    requires
        y != 0real,
    ensures
        (x / y) * y == x,
        (x * y) / y == x,
{
    assert((x / y) * y == x) by (nonlinear_arith)
        requires
            y != 0real,
    ;
    assert((x * y) / y == x) by (nonlinear_arith)
        requires
            y != 0real,
    ;
}

/// A factor other than zero on both sides of an equation can be left out.
proof fn lemma_cancel(a: real, b: real, k: real)
    requires
        k != 0real,
        a * k == b * k,
    ensures
        a == b,
{
    lemma_div_mul(a, k);
    lemma_div_mul(b, k);
}

/// Two fractions are equal where their cross products are.
proof fn lemma_fractions(a: real, b: real, c: real, d: real)
    requires
        b != 0real,
        d != 0real,
        a * d == c * b,
    ensures
        a / b == c / d,
{
    let p = a / b;
    let q = c / d;
    lemma_div_mul(a, b);
    lemma_div_mul(c, d);
    lemma_swap_three(p, b, d);
    assert((p * b) * d == (q * d) * b);
    assert((p * d) * b == (q * d) * b);
    lemma_cancel(p * d, q * d, b);
    lemma_cancel(p, q, d);
}

/// The last two of three factors change places.
proof fn lemma_swap_three(a: real, b: real, c: real)
    ensures
        (a * b) * c == (a * c) * b,
        (a * b) * c == a * (b * c),
        (a * b) * c == a * (c * b),
        a * b == b * a,
{
    assert((a * b) * c == (a * c) * b) by (nonlinear_arith);
    assert((a * b) * c == a * (b * c)) by (nonlinear_arith);
    assert((a * b) * c == a * (c * b)) by (nonlinear_arith);
    assert(a * b == b * a) by (nonlinear_arith);
}

/// Cancelling across the fraction keeps plain bases, and the steps make up
/// for what was cancelled.
proof fn lemma_fold_across_exact(numer: Seq<Base>, denom: Seq<Base>, v: real)
    requires
        plain_bases(numer),
        plain_bases(denom),
    ensures
        plain_bases(fold_across(numer, denom).numer),
        plain_bases(fold_across(numer, denom).denom),
        (exact_run(fold_across(numer, denom).steps, v) * product(fold_across(numer, denom).numer))
            * product(denom) == (v * product(numer)) * product(fold_across(numer, denom).denom),
    decreases numer.len(),
{
    let out = fold_across(numer, denom);
    let pd = product(denom);
    if numer.len() == 0 {
        lemma_swap_three(v, 1real, pd);
    } else {
        let x = numer[0];
        let tail = numer.drop_first();
        lemma_plain_parts(numer, 0, 0);
        let f = exact(x.factor);
        assert(numer =~= seq![x] + tail);
        lemma_product_adds(seq![x], tail);
        lemma_product_single(x);
        let pt = product(tail);
        assert(product(numer) == f * pt);
        if has_alike(denom, x) {
            let at = first_alike(denom, x);
            let left = denom.remove(at);
            lemma_plain_parts(denom, at, at);
            lemma_exact_zero(denom[at].factor);
            let g = exact(denom[at].factor);
            let rest = fold_across(tail, left);
            let w = (v * f) / g;
            lemma_fold_across_exact(tail, left, w);
            lemma_exact_run_adds(
                seq![Step::new(Op::Mul, x.factor), Step::new(Op::Div, denom[at].factor)],
                rest.steps,
                v,
            );
            lemma_two_steps(Step::new(Op::Mul, x.factor), Step::new(Op::Div, denom[at].factor), v);
            lemma_product_parts(denom, at);
            let pl = product(left);
            let a = product(denom.take(at));
            let b = product(denom.skip(at + 1));
            let r = exact_run(out.steps, v);
            let n = product(out.numer);
            let d = product(out.denom);
            assert(r == exact_run(rest.steps, w));
            assert((r * n) * pl == (w * pt) * d);
            // The denominator is what is left of it, times the factor that went.
            lemma_swap_three(a, g, b);
            assert(pd == pl * g);
            lemma_div_mul(v * f, g);
            assert(w * g == v * f);
            lemma_swap_three(r * n, pl, g);
            assert((r * n) * pd == ((r * n) * pl) * g);
            lemma_swap_three(w * pt, d, g);
            lemma_swap_three(w, pt, g);
            assert(((w * pt) * d) * g == ((w * g) * pt) * d);
            lemma_swap_three(v, f, pt);
            assert((v * f) * pt == v * (f * pt));
        } else {
            let rest = fold_across(tail, denom);
            lemma_fold_across_exact(tail, denom, v);
            lemma_product_adds(seq![x], rest.numer);
            let r = exact_run(rest.steps, v);
            let n = product(rest.numer);
            let d = product(rest.denom);
            assert forall|k: int| 0 <= k < out.numer.len() implies plain(
                (#[trigger] out.numer[k]).factor,
            ) && (out.numer[k].zero matches Some(z) ==> z.is_finite()) by {
                if k > 0 {
                    assert(out.numer[k] == rest.numer[k - 1]);
                }
            }
            assert((r * n) * pd == (v * pt) * d);
            assert(product(out.numer) == f * n);
            lemma_with_factor(r, f, n, pd);
            lemma_with_factor(v, f, pt, d);
        }
    }
}

/// A factor of the second of three factors can be written in front.
proof fn lemma_with_factor(a: real, f: real, b: real, c: real)
    ensures
        (a * (f * b)) * c == f * ((a * b) * c),
{
    assert((a * (f * b)) * c == f * ((a * b) * c)) by (nonlinear_arith);
}

/// One factor of a product of three changes, and a factor in front makes
/// up for it.
proof fn lemma_change_factor(t: real, g: real, a: real, k: real, b: real)
    ensures
        (t * g) * ((a * k) * b) == (t * k) * ((a * g) * b),
        (t * ((a * k) * b)) * g == (t * ((a * g) * b)) * k,
{
    assert((t * g) * ((a * k) * b) == (t * k) * ((a * g) * b)) by (nonlinear_arith);
    assert((t * ((a * k) * b)) * g == (t * ((a * g) * b)) * k) by (nonlinear_arith);
}

/// Merging from one place keeps plain bases, and the steps make up for the
/// change of the product: in a numerator the value times the product stays,
/// in a denominator the value divided by it.
proof fn lemma_merge_from_exact(bases: Seq<Base>, i: int, j: int, inverse: bool, v: real)
    requires
        plain_bases(bases),
        0 <= i < j <= bases.len(),
    ensures
        plain_bases(merge_from(bases, i, j, inverse).0),
        !inverse ==> exact_run(merge_from(bases, i, j, inverse).1, v) * product(
            merge_from(bases, i, j, inverse).0,
        ) == v * product(bases),
        inverse ==> exact_run(merge_from(bases, i, j, inverse).1, v) * product(bases) == v
            * product(merge_from(bases, i, j, inverse).0),
    decreases bases.len() - j,
{
    if j < bases.len() {
        if bases[i].physq == bases[j].physq {
            let next = bases.update(j, bases[i]);
            lemma_plain_parts(bases, i, j);
            lemma_plain_parts(bases, j, i);
            lemma_exact_zero(bases[i].factor);
            lemma_exact_zero(bases[j].factor);
            let k = exact(bases[i].factor);
            let g = exact(bases[j].factor);
            let steps = swap_steps(bases[i], bases[j], inverse);
            let rest = merge_from(next, i, j + 1, inverse);
            lemma_exact_run_adds(steps, rest.1, v);
            lemma_two_steps(steps[0], steps[1], v);
            assert(steps =~= seq![steps[0], steps[1]]);
            lemma_product_parts(bases, j);
            let a = product(bases.take(j));
            let b = product(bases.skip(j + 1));
            let p = product(bases);
            let q = product(next);
            let o = product(rest.0);
            assert(p == (a * g) * b);
            assert(q == (a * k) * b);
            if inverse {
                let w = (v * k) / g;
                lemma_merge_from_exact(next, i, j + 1, inverse, w);
                let r = exact_run(rest.1, w);
                assert(r * q == w * o);
                lemma_div_mul(v * k, g);
                assert(w * g == v * k);
                lemma_change_factor(r, g, a, k, b);
                assert((r * q) * g == (r * p) * k);
                lemma_swap_three(w, o, g);
                assert((w * o) * g == (w * g) * o);
                lemma_swap_three(v, k, o);
                assert((v * k) * o == (v * o) * k);
                lemma_cancel(r * p, v * o, k);
            } else {
                let t = v / k;
                let w = t * g;
                lemma_merge_from_exact(next, i, j + 1, inverse, w);
                let r = exact_run(rest.1, w);
                assert(r * o == w * q);
                lemma_div_mul(v, k);
                assert(t * k == v);
                lemma_change_factor(t, g, a, k, b);
                assert(w * q == (t * k) * p);
            }
        } else {
            lemma_merge_from_exact(bases, i, j + 1, inverse, v);
        }
    }
}

/// Merging keeps plain bases, and the steps make up for the change of the
/// product.
proof fn lemma_merge_all_exact(bases: Seq<Base>, i: int, inverse: bool, v: real)
    requires
        plain_bases(bases),
        0 <= i <= bases.len(),
    ensures
        plain_bases(merge_all(bases, i, bases.len() as int, inverse).0),
        !inverse ==> exact_run(merge_all(bases, i, bases.len() as int, inverse).1, v) * product(
            merge_all(bases, i, bases.len() as int, inverse).0,
        ) == v * product(bases),
        inverse ==> exact_run(merge_all(bases, i, bases.len() as int, inverse).1, v) * product(
            bases,
        ) == v * product(merge_all(bases, i, bases.len() as int, inverse).0),
    decreases bases.len() - i,
{
    let n = bases.len() as int;
    if i < n {
        let inner = merge_from(bases, i, i + 1, inverse);
        lemma_merge_from_exact(bases, i, i + 1, inverse, v);
        lemma_merge_from(bases, i, i + 1, inverse);
        let w = exact_run(inner.1, v);
        let rest = merge_all(inner.0, i + 1, n, inverse);
        lemma_merge_all_exact(inner.0, i + 1, inverse, w);
        lemma_exact_run_adds(inner.1, rest.1, v);
        lemma_product_nonzero(inner.0);
        let r = exact_run(rest.1, w);
        let p = product(bases);
        let q = product(inner.0);
        let o = product(rest.0);
        if inverse {
            assert(w * p == v * q);
            assert(r * q == w * o);
            lemma_swap_three(r, p, q);
            lemma_swap_three(w, o, p);
            lemma_swap_three(v, q, o);
            assert((r * p) * q == (v * o) * q);
            lemma_cancel(r * p, v * o, q);
        }
    }
}

/// In exact arithmetic, simplifying by physical quantity does not change
/// what a value measures: the value that the steps give, times the factors
/// of the new numerator and divided by those of the new denominator, is the
/// value times the factors of the old numerator, divided by those of the old
/// denominator.
pub proof fn lemma_simplify_exact(numer: Seq<Base>, denom: Seq<Base>, v: real)
    requires
        plain_bases(numer),
        plain_bases(denom),
    ensures
        plain_bases(simplify(numer, denom).numer),
        plain_bases(simplify(numer, denom).denom),
        (exact_run(simplify(numer, denom).steps, v) * product(simplify(numer, denom).numer))
            / product(simplify(numer, denom).denom) == (v * product(numer)) / product(denom),
{
    let across = fold_across(numer, denom);
    lemma_fold_across_exact(numer, denom, v);
    let v1 = exact_run(across.steps, v);
    let top = merge_all(across.numer, 0, across.numer.len() as int, false);
    lemma_merge_all_exact(across.numer, 0, false, v1);
    let v2 = exact_run(top.1, v1);
    let bottom = merge_all(across.denom, 0, across.denom.len() as int, true);
    lemma_merge_all_exact(across.denom, 0, true, v2);
    let v3 = exact_run(bottom.1, v2);
    lemma_exact_run_adds(across.steps, top.1, v);
    lemma_exact_run_adds(across.steps + top.1, bottom.1, v);
    lemma_product_nonzero(across.denom);
    lemma_product_nonzero(bottom.0);
    lemma_product_nonzero(denom);
    let pn = product(numer);
    let pd = product(denom);
    let an = product(across.numer);
    let ad = product(across.denom);
    let tn = product(top.0);
    let bd = product(bottom.0);
    assert((v1 * an) * pd == (v * pn) * ad);
    assert(v2 * tn == v1 * an);
    assert(v3 * ad == v2 * bd);
    lemma_four_factors(v3, tn, pd, ad);
    lemma_four_factors(v2, bd, pd, tn);
    lemma_swap_three(v1 * an, pd, bd);
    lemma_swap_three(v * pn, ad, bd);
    assert(((v3 * tn) * pd) * ad == ((v * pn) * bd) * ad);
    lemma_cancel((v3 * tn) * pd, (v * pn) * bd, ad);
    lemma_fractions(v3 * tn, bd, v * pn, pd);
}

/// The second and the last of four factors change places.
proof fn lemma_four_factors(a: real, b: real, c: real, d: real)
    ensures
        ((a * b) * c) * d == ((a * d) * b) * c,
        ((a * b) * c) * d == ((a * d) * c) * b,
{
    assert(((a * b) * c) * d == ((a * d) * b) * c) by (nonlinear_arith);
    assert(((a * b) * c) * d == ((a * d) * c) * b) by (nonlinear_arith);
}

} // verus!
