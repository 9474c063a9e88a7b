//! Arithmetic with units.

use super::base::Base;
use super::unit::{
    commensurable, compose, convert_steps, first_same, has_same,
    is_first_same, push_bases, Unit, UnitView,
};
use super::{Error, ErrorView};
use crate::float::{
    apply, evaluates_to, lemma_evaluates_concat, lemma_evaluates_push, total, Float, Op, Step,
    ONE_BITS,
};
use itertools::Itertools;
use vstd::prelude::*;

verus! {

/// A number with an optional unit.
#[derive(Debug)]
pub struct Number {
    pub value: Float,
    pub unit: Option<Unit>,
}

/// What a `Number` is, mathematically.
pub struct NumberView {
    pub value: Float,
    pub unit: Option<UnitView>,
}

/// The view of an optional unit.
pub open spec fn unit_view(u: Option<Unit>) -> Option<UnitView> {
    match u {
        Some(u) => Some(u@),
        None => None,
    }
}

impl View for Number {
    type V = NumberView;

    open spec fn view(&self) -> NumberView {
        NumberView { value: self.value, unit: unit_view(self.unit) }
    }
}

/// How the result of an operation comes about: the arithmetic unit performs
/// `steps` in order, starting from `start`, and the value it ends with is
/// given the unit `unit`.
pub struct Recipe {
    pub start: Float,
    pub steps: Seq<Step>,
    pub unit: Option<UnitView>,
}

/// Whether `n` is a number that the arithmetic unit may produce by following
/// the recipe.
pub open spec fn follows<F: Fn(Op, Float, Float) -> Float>(
    fpu: &F,
    recipe: Recipe,
    n: NumberView,
) -> bool {
    n.unit == recipe.unit && evaluates_to(fpu, recipe.start, recipe.steps, n.value)
}

/// Whether `r` is what is owed: a number that follows the recipe, or the
/// error in its place.
pub open spec fn yields<F: Fn(Op, Float, Float) -> Float>(
    fpu: &F,
    owed: Result<Recipe, ErrorView>,
    r: Result<Number, Error>,
) -> bool {
    match (owed, r) {
        (Ok(recipe), Ok(n)) => follows(fpu, recipe, n@),
        (Err(e), Err(f)) => f@ == e,
        _ => false,
    }
}

/// Whether `r` is the number of the given value with the unit made of the
/// given bases, with a constant that the arithmetic unit may produce for the
/// given arguments, or the refusal to make a unit of these bases.
pub open spec fn given_unit<F: Fn(Op, Float, Float) -> Float>(
    fpu: &F,
    value: Float,
    numer: Seq<Base>,
    denom: Seq<Base>,
    args: (Op, Float, Float),
    r: Result<Number, Error>,
) -> bool {
    match r {
        Ok(n) => n@.unit matches Some(u) && n@.value == value && call_ensures(
            *fpu,
            args,
            u.constant,
        ) && compose(numer, denom, u.constant) == Ok::<UnitView, ErrorView>(u),
        Err(e) => compose(numer, denom, args.1) == Err::<UnitView, ErrorView>(e@),
    }
}

/// Whether `j` is the first place in `s` that measures `x`'s quantity.
pub open spec fn is_first_alike(s: Seq<Base>, x: Base, j: int) -> bool {
    &&& 0 <= j < s.len()
    &&& x.physq == s[j].physq
    &&& forall|k: int| 0 <= k < j ==> x.physq != (#[trigger] s[k]).physq
}

/// Whether `s` holds a base that measures `x`'s quantity.
pub open spec fn has_alike(s: Seq<Base>, x: Base) -> bool {
    exists|j: int| is_first_alike(s, x, j)
}

/// The first place in `s` that measures `x`'s quantity.
pub open spec fn first_alike(s: Seq<Base>, x: Base) -> int {
    choose|j: int| is_first_alike(s, x, j)
}

/// Bases and the steps that make up for what was done to them.
pub struct Folded {
    pub numer: Seq<Base>,
    pub denom: Seq<Base>,
    pub steps: Seq<Step>,
}

/// Cancels like physical quantities across the fraction: each numerator base
/// in turn goes together with the first denominator base of its quantity that
/// is still there, and the value is multiplied by the factor of the one and
/// divided by the factor of the other.
pub open spec fn fold_across(numer: Seq<Base>, denom: Seq<Base>) -> Folded
    decreases numer.len(),
{
    if numer.len() == 0 {
        Folded { numer, denom, steps: Seq::empty() }
    } else if has_alike(denom, numer[0]) {
        let j = first_alike(denom, numer[0]);
        let rest = fold_across(numer.drop_first(), denom.remove(j));
        Folded {
            numer: rest.numer,
            denom: rest.denom,
            steps: seq![Step::new(Op::Mul, numer[0].factor), Step::new(Op::Div, denom[j].factor)]
                + rest.steps,
        }
    } else {
        let rest = fold_across(numer.drop_first(), denom);
        Folded { numer: seq![numer[0]] + rest.numer, denom: rest.denom, steps: rest.steps }
    }
}

/// The steps that make up for writing the base `kept` in place of `gone`.
pub open spec fn swap_steps(kept: Base, gone: Base, inverse: bool) -> Seq<Step> {
    if inverse {
        seq![Step::new(Op::Mul, kept.factor), Step::new(Op::Div, gone.factor)]
    } else {
        seq![Step::new(Op::Div, kept.factor), Step::new(Op::Mul, gone.factor)]
    }
}

/// Makes the bases from `j` on that measure the quantity of the base at `i`
/// the same as it.
pub open spec fn merge_from(bases: Seq<Base>, i: int, j: int, inverse: bool) -> (
    Seq<Base>,
    Seq<Step>,
)
    decreases bases.len() - j,
{
    if i < 0 || j <= i || j >= bases.len() {
        (bases, Seq::empty())
    } else if bases[i].physq == bases[j].physq {
        let rest = merge_from(bases.update(j, bases[i]), i, j + 1, inverse);
        (rest.0, swap_steps(bases[i], bases[j], inverse) + rest.1)
    } else {
        merge_from(bases, i, j + 1, inverse)
    }
}

/// Makes like physical quantities the same base: from the base at `i` on,
/// each base in turn replaces the later bases of its quantity. `n` is the
/// number of bases.
pub open spec fn merge_all(bases: Seq<Base>, i: int, n: int, inverse: bool) -> (
    Seq<Base>,
    Seq<Step>,
)
    decreases n - i,
{
    if i < 0 || i >= n {
        (bases, Seq::empty())
    } else {
        let inner = merge_from(bases, i, i + 1, inverse);
        let rest = merge_all(inner.0, i + 1, n, inverse);
        (rest.0, inner.1 + rest.1)
    }
}

/// Simplifies by physical quantity: like quantities are cancelled across the
/// fraction, then made the same base within the numerator and within the
/// denominator.
pub open spec fn simplify(numer: Seq<Base>, denom: Seq<Base>) -> Folded {
    let across = fold_across(numer, denom);
    let top = merge_all(across.numer, 0, across.numer.len() as int, false);
    let bottom = merge_all(across.denom, 0, across.denom.len() as int, true);
    Folded { numer: top.0, denom: bottom.0, steps: across.steps + top.1 + bottom.1 }
}

/// The recipe for a value that was reached by `steps` from `start` and has
/// the unit `unit`, once the unit is simplified.
pub open spec fn settle(start: Float, steps: Seq<Step>, unit: Option<UnitView>) -> Result<
    Recipe,
    ErrorView,
> {
    match unit {
        None => Ok(Recipe { start, steps, unit: None }),
        Some(u) => {
            let s = simplify(u.numer, u.denom);
            if s.numer.len() == 0 && s.denom.len() == 0 {
                Ok(Recipe { start, steps: steps + s.steps, unit: None })
            } else {
                match compose(s.numer, s.denom, Float { bits: ONE_BITS }) {
                    Ok(v) => Ok(Recipe { start, steps: steps + s.steps, unit: Some(v) }),
                    Err(e) => Err(e),
                }
            }
        },
    }
}

/// The recipe for `a + b`.
pub open spec fn add_recipe(a: NumberView, b: NumberView) -> Result<Recipe, ErrorView> {
    sum_recipe(a, b, Op::Add)
}

/// The recipe for `a - b`.
pub open spec fn sub_recipe(a: NumberView, b: NumberView) -> Result<Recipe, ErrorView> {
    sum_recipe(a, b, Op::Sub)
}

/// The recipe for a sum or a difference: without units the plain one; with
/// units on both sides, `b` is converted to the unit of `a`, which the result
/// keeps; with a unit on one side only there is none.
pub open spec fn sum_recipe(a: NumberView, b: NumberView, op: Op) -> Result<Recipe, ErrorView> {
    match (a.unit, b.unit) {
        (Some(u1), Some(u2)) => if commensurable(u2, u1) {
            Ok(
                Recipe {
                    start: b.value,
                    steps: convert_steps(u2, u1).push(Step::rev(op, a.value)),
                    unit: Some(u1),
                },
            )
        } else {
            Err(ErrorView::IncommensurableUnits(Some(u2), Some(u1)))
        },
        (None, None) => Ok(
            Recipe { start: a.value, steps: seq![Step::new(op, b.value)], unit: None },
        ),
        (Some(u1), None) => Err(ErrorView::IncommensurableUnits(Some(u1), None)),
        (None, Some(u2)) => Err(ErrorView::IncommensurableUnits(None, Some(u2))),
    }
}

/// The recipe for `a * b`: the values and the constants of the units are
/// multiplied, the units are multiplied, and the result is simplified.
pub open spec fn mul_recipe(a: NumberView, b: NumberView) -> Result<Recipe, ErrorView> {
    match (a.unit, b.unit) {
        (Some(u1), Some(u2)) => match compose(
            u1.numer + u2.numer,
            u1.denom + u2.denom,
            Float { bits: ONE_BITS },
        ) {
            Ok(u) => settle(
                a.value,
                seq![
                    Step::new(Op::Mul, b.value),
                    Step::new(Op::Mul, u1.constant),
                    Step::new(Op::Mul, u2.constant),
                ],
                Some(u),
            ),
            Err(e) => Err(e),
        },
        (Some(u), None) => settle(
            a.value,
            seq![Step::new(Op::Mul, b.value), Step::new(Op::Mul, u.constant)],
            Some(u),
        ),
        (None, Some(u)) => settle(
            a.value,
            seq![Step::new(Op::Mul, b.value), Step::new(Op::Mul, u.constant)],
            Some(u),
        ),
        (None, None) => Ok(
            Recipe { start: a.value, steps: seq![Step::new(Op::Mul, b.value)], unit: None },
        ),
    }
}

/// The recipe for `a / b`: the mirror of `mul_recipe`. An absolute scale has
/// no inverse, so nothing can be divided by it.
pub open spec fn div_recipe(a: NumberView, b: NumberView) -> Result<Recipe, ErrorView> {
    match (a.unit, b.unit) {
        (Some(u1), Some(u2)) => match compose(
            u1.numer + u2.denom,
            u1.denom + u2.numer,
            Float { bits: ONE_BITS },
        ) {
            Ok(u) => settle(
                a.value,
                seq![
                    Step::new(Op::Div, b.value),
                    Step::new(Op::Mul, u1.constant),
                    Step::new(Op::Div, u2.constant),
                ],
                Some(u),
            ),
            Err(e) => Err(e),
        },
        (Some(u), None) => settle(
            a.value,
            seq![Step::new(Op::Div, b.value), Step::new(Op::Mul, u.constant)],
            Some(u),
        ),
        (None, Some(u)) => if u.is_absolute() {
            Err(ErrorView::UninvertableUnits(u))
        } else {
            match compose(u.denom, u.numer, Float { bits: ONE_BITS }) {
                Ok(v) => settle(
                    a.value,
                    seq![Step::new(Op::Div, b.value), Step::new(Op::Div, u.constant)],
                    Some(v),
                ),
                Err(e) => Err(e),
            }
        },
        (None, None) => Ok(
            Recipe { start: a.value, steps: seq![Step::new(Op::Div, b.value)], unit: None },
        ),
    }
}

/// `s` written `n` times in a row.
pub open spec fn repeated(s: Seq<Base>, n: nat) -> Seq<Base>
    decreases n,
{
    if n == 0 {
        Seq::empty()
    } else {
        repeated(s, (n - 1) as nat) + s
    }
}

/// The recipe for `a` raised to the power `b`. The exponent has no unit.
/// Where the base has one, the exponent is whole, and the bases of the unit
/// are written as often as its magnitude says, on the other side of the
/// fraction where it is negative; the exponent zero gives a plain 1.
pub open spec fn pow_recipe(a: NumberView, b: NumberView) -> Result<Recipe, ErrorView> {
    if b.unit is Some {
        Err(ErrorView::ExponentHasUnits)
    } else {
        match a.unit {
            None => Ok(
                Recipe { start: a.value, steps: seq![Step::new(Op::Pow, b.value)], unit: None },
            ),
            Some(u) => if !b.value.is_whole() {
                Err(ErrorView::ExponentNotAnInteger)
            } else if b.value.is_zero() {
                Ok(Recipe { start: Float { bits: ONE_BITS }, steps: Seq::empty(), unit: None })
            } else {
                let n = b.value.abs_as_u64() as nat;
                let numer = repeated(u.numer, n);
                let denom = repeated(u.denom, n);
                let made = if b.value.is_below_zero() {
                    compose(denom, numer, Float { bits: ONE_BITS })
                } else {
                    compose(numer, denom, Float { bits: ONE_BITS })
                };
                match made {
                    Ok(v) => Ok(
                        Recipe {
                            start: a.value,
                            steps: seq![Step::new(Op::Pow, b.value)],
                            unit: Some(v),
                        },
                    ),
                    Err(e) => Err(e),
                }
            },
        }
    }
}

/// The distinct bases of `s` in the order in which each first occurs, and
/// how often each occurs. A base counts for the first distinct base that it
/// is like.
pub open spec fn tally(s: Seq<Base>) -> (Seq<Base>, Seq<nat>)
    decreases s.len(),
{
    if s.len() == 0 {
        (Seq::empty(), Seq::empty())
    } else {
        let before = tally(s.drop_last());
        if has_same(before.0, s.last()) {
            let at = first_same(before.0, s.last());
            (before.0, before.1.update(at, before.1[at] + 1))
        } else {
            (before.0.push(s.last()), before.1.push(1))
        }
    }
}

/// Whether a count cannot be divided by a degree without remainder. By the
/// degree zero no count can.
pub open spec fn indivisible(count: nat, degree: int) -> bool {
    degree == 0 || count as int % degree != 0
}

/// Whether one of the counts cannot be divided by the degree.
pub open spec fn any_indivisible(counts: Seq<nat>, degree: int) -> bool {
    exists|i: int| 0 <= i < counts.len() && indivisible(#[trigger] counts[i], degree)
}

/// Machine counts as natural numbers.
pub open spec fn as_nats(counts: Seq<usize>) -> Seq<nat> {
    counts.map_values(|c: usize| c as nat)
}

/// Each base as often as its count divided by the divisor says.
pub open spec fn spread(bases: Seq<Base>, counts: Seq<nat>, divisor: int) -> Seq<Base>
    decreases bases.len(),
{
    if bases.len() == 0 || counts.len() != bases.len() || divisor <= 0 {
        Seq::empty()
    } else {
        spread(bases.drop_last(), counts.drop_last(), divisor) + Seq::new(
            (counts.last() as int / divisor) as nat,
            |i: int| bases.last(),
        )
    }
}

/// The bases of `s`, each with its exponent divided by the divisor.
pub open spec fn rooted(s: Seq<Base>, divisor: int) -> Seq<Base> {
    spread(tally(s).0, tally(s).1, divisor)
}

/// The magnitude of a degree.
pub open spec fn magnitude(degree: i64) -> int {
    if degree < 0 {
        -(degree as int)
    } else {
        degree as int
    }
}

/// The recipe for the root of `a` of degree `b`. The degree has no unit.
/// Where the radicand has one, the degree is whole and divides the exponent
/// of every base of the unit; the bases are written with the quotients as
/// their exponents, on the other side of the fraction where the degree is
/// negative.
pub open spec fn root_recipe(a: NumberView, b: NumberView) -> Result<Recipe, ErrorView> {
    let steps = seq![
        Step::rev(Op::Div, Float { bits: ONE_BITS }),
        Step::rev(Op::Pow, a.value),
    ];
    if b.unit is Some {
        Err(ErrorView::DegreeHasUnits)
    } else {
        match a.unit {
            None => Ok(Recipe { start: b.value, steps, unit: None }),
            Some(u) => if !b.value.is_whole() {
                Err(ErrorView::DegreeNotAnInteger)
            } else {
                let degree = b.value.as_i64();
                let size = magnitude(degree);
                if any_indivisible(tally(u.numer).1, size) || any_indivisible(
                    tally(u.denom).1,
                    size,
                ) {
                    Err(ErrorView::UnitNotDivisible)
                } else {
                    let numer = rooted(u.numer, size);
                    let denom = rooted(u.denom, size);
                    let made = if degree < 0 {
                        compose(denom, numer, Float { bits: ONE_BITS })
                    } else {
                        compose(numer, denom, Float { bits: ONE_BITS })
                    };
                    match made {
                        Ok(v) => Ok(Recipe { start: b.value, steps, unit: Some(v) }),
                        Err(e) => Err(e),
                    }
                }
            },
        }
    }
}

/// Finds the first base that measures the quantity of `x`.
fn find_alike(s: &Vec<Base>, x: &Base) -> (r: Option<usize>)
    ensures
        match r {
            Some(j) => is_first_alike(s@, *x, j as int) && first_alike(s@, *x) == j,
            None => !has_alike(s@, *x),
        },
{
    let mut j: usize = 0;
    while j < s.len()
        invariant
            j <= s.len(),
            forall|k: int| 0 <= k < j ==> x.physq != (#[trigger] s@[k]).physq,
        decreases s.len() - j,
    {
        if x.physq == s[j].physq {
            assert(is_first_alike(s@, *x, j as int));
            return Some(j);
        }
        j = j + 1;
    }
    None
}

/// Tells whether a count cannot be divided by a degree without remainder.
pub fn is_indivisible(count: usize, size: u64) -> (r: bool)
    ensures
        r == indivisible(count as nat, size as int),
{
    size == 0 || (count as u64) % size != 0
}

/// Tells whether one of the counts cannot be divided by the degree.
///
/// Trusted: `itertools::any` hands the iterable to `Iterator::any`, which
/// says whether the predicate holds of at least one item.
#[verifier::external_body]
fn any_count_indivisible(counts: &Vec<usize>, size: u64) -> (r: bool)
    ensures
        r == any_indivisible(as_nats(counts@), size as int),
{
    itertools::any(counts, |n| is_indivisible(*n, size))
}

/// Finds the first base that is like `x`.
///
/// Trusted: `Itertools::find_position` returns the index and the value of the
/// first item of the iterator of which the predicate holds, and `None` where
/// it holds of none.
#[verifier::external_body]
fn position_of(bases: &Vec<Base>, x: &Base) -> (r: Option<usize>)
    ensures
        match r {
            Some(j) => is_first_same(bases@, *x, j as int),
            None => !has_same(bases@, *x),
        },
{
    bases.iter().find_position(|b| x.equals(b)).map(|found| found.0)
}

/// Counts the number of times each unique base appears in `bases`. Returns
/// parallel vectors containing de-duplicated `bases` and the number of times
/// each base appears in `bases`.
pub(crate) fn base_counts(bases: &Vec<Base>) -> (r: (Vec<Base>, Vec<usize>))
    ensures
        r.0@ == tally(bases@).0,
        r.1@.len() == r.0@.len(),
        as_nats(r.1@) == tally(bases@).1,
{
    let mut uniq: Vec<Base> = Vec::new();
    let mut counts: Vec<usize> = Vec::new();
    let mut i: usize = 0;
    assert(bases@.take(0) =~= Seq::<Base>::empty());
    while i < bases.len()
        invariant
            i <= bases.len(),
            uniq@ == tally(bases@.take(i as int)).0,
            counts@.len() == uniq@.len(),
            as_nats(counts@) =~= tally(bases@.take(i as int)).1,
            forall|k: int| 0 <= k < counts@.len() ==> counts@[k] <= i,
        decreases bases.len() - i,
    {
        let x: Base = bases[i];
        proof {
            assert(bases@.take(i + 1).drop_last() =~= bases@.take(i as int));
            assert(bases@.take(i + 1).last() == x);
        }
        match position_of(&uniq, &x) {
            Some(at) => {
                let n: usize = counts[at];
                counts.set(at, n + 1);
            },
            None => {
                uniq.push(x);
                counts.push(1);
            },
        }
        i = i + 1;
    }
    assert(bases@.take(bases.len() as int) =~= bases@);
    (uniq, counts)
}

/// Takes parallel vectors `bases` and `counts` and returns a vector with each
/// base `bases[n]` appearing `counts[n]` / `divisor` times.
fn divide_base_counts(bases: &Vec<Base>, counts: &Vec<usize>, divisor: u64) -> (r: Vec<Base>)
    requires
        bases.len() == counts.len(),
        divisor > 0,
    ensures
        r@ == spread(bases@, as_nats(counts@), divisor as int),
{
    let ghost all = as_nats(counts@);
    let mut result: Vec<Base> = Vec::new();
    let mut ix: usize = 0;
    assert(bases@.take(0) =~= Seq::<Base>::empty());
    assert(all.take(0) =~= Seq::<nat>::empty());
    while ix < bases.len()
        invariant
            ix <= bases.len(),
            bases.len() == counts.len(),
            divisor > 0,
            all == as_nats(counts@),
            result@ == spread(bases@.take(ix as int), all.take(ix as int), divisor as int),
        decreases bases.len() - ix,
    {
        let times: u64 = (counts[ix] as u64) / divisor;
        let b: Base = bases[ix];
        let ghost before = result@;
        let mut k: u64 = 0;
        while k < times
            invariant
                k <= times,
                result@ == before + Seq::new(k as nat, |i: int| b),
            decreases times - k,
        {
            result.push(b);
            assert(result@ =~= before + Seq::new((k + 1) as nat, |i: int| b));
            k = k + 1;
        }
        proof {
            assert(bases@.take(ix + 1).drop_last() =~= bases@.take(ix as int));
            assert(all.take(ix + 1).drop_last() =~= all.take(ix as int));
            assert(bases@.take(ix + 1).last() == b);
            assert(all.take(ix + 1).last() == counts@[ix as int] as nat);
            assert(Seq::new(
                (all.take(ix + 1).last() as int / divisor as int) as nat,
                |i: int| bases@.take(ix + 1).last(),
            ) =~= Seq::new(times as nat, |i: int| b));
        }
        ix = ix + 1;
    }
    assert(bases@.take(bases.len() as int) =~= bases@);
    assert(all.take(bases.len() as int) =~= all);
    result
}

/// Writes the bases of `s` `n` times in a row.
fn repeat_bases(s: &Vec<Base>, n: u64) -> (r: Vec<Base>)
    ensures
        r@ == repeated(s@, n as nat),
{
    let mut r: Vec<Base> = Vec::new();
    let mut k: u64 = 0;
    while k < n
        invariant
            k <= n,
            r@ == repeated(s@, k as nat),
        decreases n - k,
    {
        push_bases(&mut r, s);
        k = k + 1;
    }
    r
}

/// Cancels out like physical quantities from numerator and denominator.
fn fold_bases<F: Fn(Op, Float, Float) -> Float>(
    fpu: &F,
    start: Float,
    numer: &Vec<Base>,
    denom: &Vec<Base>,
) -> (r: (Float, Vec<Base>, Vec<Base>))
    requires
        total(fpu),
    ensures
        r.1@ == fold_across(numer@, denom@).numer,
        r.2@ == fold_across(numer@, denom@).denom,
        evaluates_to(fpu, start, fold_across(numer@, denom@).steps, r.0),
{
    let mut value: Float = start;
    let mut kept: Vec<Base> = Vec::new();
    let mut rest: Vec<Base> = Vec::new();
    push_bases(&mut rest, denom);
    assert(rest@ =~= denom@);
    let ghost mut done: Seq<Step> = Seq::empty();
    let mut i: usize = 0;
    assert(numer@.skip(0) =~= numer@);
    assert(done + fold_across(numer@, denom@).steps =~= fold_across(numer@, denom@).steps);
    assert(kept@ + fold_across(numer@, denom@).numer =~= fold_across(numer@, denom@).numer);
    while i < numer.len()
        invariant
            i <= numer.len(),
            total(fpu),
            fold_across(numer@, denom@).numer == kept@ + fold_across(
                numer@.skip(i as int),
                rest@,
            ).numer,
            fold_across(numer@, denom@).denom == fold_across(numer@.skip(i as int), rest@).denom,
            fold_across(numer@, denom@).steps == done + fold_across(
                numer@.skip(i as int),
                rest@,
            ).steps,
            evaluates_to(fpu, start, done, value),
        decreases numer.len() - i,
    {
        let x: Base = numer[i];
        let ghost tail = numer@.skip(i as int);
        proof {
            assert(tail[0] == x);
            assert(tail.drop_first() =~= numer@.skip(i + 1));
        }
        match find_alike(&rest, &x) {
            Some(j) => {
                let d: Base = rest[j];
                let ghost before = value;
                let ghost old_rest = rest@;
                let scaled = apply(fpu, Op::Mul, value, x.factor, false);
                value = apply(fpu, Op::Div, scaled, d.factor, false);
                rest.remove(j);
                proof {
                    let first = Step::new(Op::Mul, x.factor);
                    let second = Step::new(Op::Div, d.factor);
                    lemma_evaluates_push(fpu, start, done, before, first, scaled);
                    lemma_evaluates_push(fpu, start, done.push(first), scaled, second, value);
                    let after = fold_across(numer@.skip(i + 1), rest@);
                    assert(fold_across(tail, old_rest).steps == seq![first, second] + after.steps);
                    assert(done + (seq![first, second] + after.steps) =~= done.push(first).push(
                        second,
                    ) + after.steps);
                    done = done.push(first).push(second);
                }
            },
            None => {
                let ghost before = kept@;
                kept.push(x);
                proof {
                    let after = fold_across(numer@.skip(i + 1), rest@);
                    assert(fold_across(tail, rest@).numer == seq![x] + after.numer);
                    assert(before + (seq![x] + after.numer) =~= kept@ + after.numer);
                }
            },
        }
        i = i + 1;
    }
    proof {
        assert(numer@.skip(numer.len() as int) =~= Seq::<Base>::empty());
        assert(kept@ + Seq::<Base>::empty() =~= kept@);
        assert(done + Seq::<Step>::empty() =~= done);
    }
    (value, kept, rest)
}

/// Makes like physical quantities the same base.
fn combine_bases<F: Fn(Op, Float, Float) -> Float>(
    fpu: &F,
    bases: &mut Vec<Base>,
    start: Float,
    inverse: bool,
) -> (out: Float)
    requires
        total(fpu),
    ensures
        final(bases)@ == merge_all(old(bases)@, 0, old(bases)@.len() as int, inverse).0,
        evaluates_to(
            fpu,
            start,
            merge_all(old(bases)@, 0, old(bases)@.len() as int, inverse).1,
            out,
        ),
{
    let mut value: Float = start;
    let n: usize = bases.len();
    let ghost whole = merge_all(old(bases)@, 0, n as int, inverse);
    let ghost mut done: Seq<Step> = Seq::empty();
    let mut i: usize = 0;
    assert(done + whole.1 =~= whole.1);
    while i < n
        invariant
            i <= n,
            bases@.len() == n,
            total(fpu),
            whole.0 == merge_all(bases@, i as int, n as int, inverse).0,
            whole.1 == done + merge_all(bases@, i as int, n as int, inverse).1,
            evaluates_to(fpu, start, done, value),
        decreases n - i,
    {
        let ghost outer = bases@;
        let ghost inner = merge_from(outer, i as int, i + 1, inverse);
        let ghost outer_done = done;
        let mut j: usize = i + 1;
        assert(done + inner.1 =~= outer_done + inner.1);
        while j < n
            invariant
                i < j <= n,
                bases@.len() == n,
                total(fpu),
                inner.0 == merge_from(bases@, i as int, j as int, inverse).0,
                outer_done + inner.1 == done + merge_from(bases@, i as int, j as int, inverse).1,
                evaluates_to(fpu, start, done, value),
            decreases n - j,
        {
            let kept: Base = bases[i];
            let gone: Base = bases[j];
            if kept.physq == gone.physq {
                let ghost before = value;
                let ghost cur = bases@;
                let ghost first = swap_steps(kept, gone, inverse)[0];
                let ghost second = swap_steps(kept, gone, inverse)[1];
                if inverse {
                    let scaled = apply(fpu, Op::Mul, value, kept.factor, false);
                    value = apply(fpu, Op::Div, scaled, gone.factor, false);
                    proof {
                        lemma_evaluates_push(fpu, start, done, before, first, scaled);
                        lemma_evaluates_push(fpu, start, done.push(first), scaled, second, value);
                    }
                } else {
                    let scaled = apply(fpu, Op::Div, value, kept.factor, false);
                    value = apply(fpu, Op::Mul, scaled, gone.factor, false);
                    proof {
                        lemma_evaluates_push(fpu, start, done, before, first, scaled);
                        lemma_evaluates_push(fpu, start, done.push(first), scaled, second, value);
                    }
                }
                bases.set(j, kept);
                proof {
                    let after = merge_from(bases@, i as int, j + 1, inverse);
                    assert(bases@ =~= cur.update(j as int, cur[i as int]));
                    assert(swap_steps(kept, gone, inverse) =~= seq![first, second]);
                    assert(done + (seq![first, second] + after.1) =~= done.push(first).push(second)
                        + after.1);
                    done = done.push(first).push(second);
                }
            }
            j = j + 1;
        }
        proof {
            let rest = merge_all(bases@, i + 1, n as int, inverse);
            assert(done + Seq::<Step>::empty() =~= done);
            assert(inner.0 == bases@);
            assert(merge_all(outer, i as int, n as int, inverse).1 == inner.1 + rest.1);
            assert(outer_done + (inner.1 + rest.1) =~= (outer_done + inner.1) + rest.1);
        }
        i = i + 1;
    }
    proof {
        assert(done + Seq::<Step>::empty() =~= done);
    }
    value
}

/// A chain that continues a chain starts where the first started.
proof fn lemma_follows_after<F: Fn(Op, Float, Float) -> Float>(
    fpu: &F,
    start: Float,
    steps: Seq<Step>,
    mid: Float,
    unit: Option<UnitView>,
    r: Result<Number, Error>,
)
    requires
        evaluates_to(fpu, start, steps, mid),
        yields(fpu, settle(mid, Seq::empty(), unit), r),
    ensures
        yields(fpu, settle(start, steps, unit), r),
{
    match (settle(mid, Seq::empty(), unit), r) {
        (Ok(recipe), Ok(n)) => {
            lemma_evaluates_concat(fpu, start, steps, mid, recipe.steps, n@.value);
            match unit {
                None => {
                    assert(steps + recipe.steps =~= steps);
                },
                Some(u) => {
                    let s = simplify(u.numer, u.denom);
                    assert(Seq::<Step>::empty() + s.steps =~= s.steps);
                },
            }
        },
        _ => {},
    }
}

impl Number {
    /// Returns a dimensionless `Number`.
    pub fn new(value: Float) -> (r: Number)
        ensures
            r@ == (NumberView { value, unit: None }),
    {
        Number { value, unit: None }
    }

    /// Returns a `Number` with the same value as this one but different units.
    /// No unit conversion is performed.
    pub fn with_unit(&self, unit: Unit) -> (r: Number)
        ensures
            r@ == (NumberView { value: self.value, unit: Some(unit@) }),
    {
        Number { value: self.value, unit: Some(unit) }
    }

    /// Returns a copy of this number.
    pub fn duplicate(&self) -> (r: Number)
        ensures
            r@ == self@,
    {
        let unit = match &self.unit {
            Some(u) => Some(u.duplicate()),
            None => None,
        };
        Number { value: self.value, unit }
    }

    /// Returns true if this number has no units.
    pub fn is_dimensionless(&self) -> (r: bool)
        ensures
            r == (self@.unit is None),
    {
        self.unit.is_none()
    }

    /// Returns true if this number has no fractional part.
    pub fn is_whole(&self) -> (r: bool)
        ensures
            r == self.value.is_whole(),
    {
        self.value.whole()
    }

    /// Performs more advanced simplification than `Unit` is capable of doing
    /// on its own. Returns a `Number` that is mathematically equal to this one
    /// but with the units simplified by physical quantity. For example, `Unit`
    /// can simplify `m*s/m` into `s`, but can't simplify `m*s/ft` because
    /// doing so requires a conversion and multiplication of a number the
    /// `Unit` doesn't have access to. `Number` is able to simplify `m*s/ft`
    /// into `s` because it can apply the conversion factor to its value.
    pub fn simplified<F: Fn(Op, Float, Float) -> Float>(&self, fpu: &F) -> (r: Result<
        Number,
        Error,
    >)
        requires
            total(fpu),
        ensures
            yields(fpu, settle(self@.value, Seq::empty(), self@.unit), r),
    {
        match &self.unit {
            None => Ok(Number { value: self.value, unit: None }),
            Some(u) => {
                let ghost s = simplify(u@.numer, u@.denom);
                let ghost across = fold_across(u@.numer, u@.denom);
                let folded = fold_bases(fpu, self.value, u.numer(), u.denom());
                let v0 = folded.0;
                let mut numer = folded.1;
                let mut denom = folded.2;
                let ghost top = merge_all(across.numer, 0, across.numer.len() as int, false);
                let ghost bottom = merge_all(across.denom, 0, across.denom.len() as int, true);
                let v1 = combine_bases(fpu, &mut numer, v0, false);
                let v2 = combine_bases(fpu, &mut denom, v1, true);
                proof {
                    lemma_evaluates_concat(fpu, self.value, across.steps, v0, top.1, v1);
                    lemma_evaluates_concat(fpu, self.value, across.steps + top.1, v1, bottom.1, v2);
                    assert(Seq::<Step>::empty() + s.steps =~= s.steps);
                }
                if numer.len() == 0 && denom.len() == 0 {
                    Ok(Number { value: v2, unit: None })
                } else {
                    match Unit::compose(numer, denom, Float { bits: ONE_BITS }) {
                        Ok(unit) => Ok(Number { value: v2, unit: Some(unit) }),
                        Err(e) => Err(e),
                    }
                }
            },
        }
    }

    /// Adds another number to this number.
    ///
    /// # Errors
    ///
    /// Returns an error if `self` and `other` have incommensurable units.
    pub fn add<F: Fn(Op, Float, Float) -> Float>(&self, other: &Number, fpu: &F) -> (r: Result<
        Number,
        Error,
    >)
        requires
            total(fpu),
        ensures
            yields(fpu, add_recipe(self@, other@), r),
    {
        self.sum(other, Op::Add, fpu)
    }

    /// Subtracts a number from this number.
    ///
    /// # Errors
    ///
    /// Returns an error if `self` and `other` have incommensurable units.
    pub fn sub<F: Fn(Op, Float, Float) -> Float>(&self, other: &Number, fpu: &F) -> (r: Result<
        Number,
        Error,
    >)
        requires
            total(fpu),
        ensures
            yields(fpu, sub_recipe(self@, other@), r),
    {
        self.sum(other, Op::Sub, fpu)
    }

    fn sum<F: Fn(Op, Float, Float) -> Float>(&self, other: &Number, op: Op, fpu: &F) -> (r: Result<
        Number,
        Error,
    >)
        requires
            total(fpu),
        ensures
            yields(fpu, sum_recipe(self@, other@, op), r),
    {
        let v1 = self.value;
        let v2 = other.value;
        match (&self.unit, &other.unit) {
            (Some(u1), Some(u2)) => {
                match u2.convert(v2, u1, fpu) {
                    Ok(converted) => {
                        let value = apply(fpu, op, converted, v1, true);
                        proof {
                            lemma_evaluates_push(
                                fpu,
                                v2,
                                convert_steps(u2@, u1@),
                                converted,
                                Step::rev(op, v1),
                                value,
                            );
                        }
                        Ok(Number { value, unit: Some(u1.duplicate()) })
                    },
                    Err(e) => Err(e),
                }
            },
            (None, None) => {
                let value = apply(fpu, op, v1, v2, false);
                proof {
                    lemma_evaluates_push(fpu, v1, Seq::empty(), v1, Step::new(op, v2), value);
                    assert(Seq::<Step>::empty().push(Step::new(op, v2)) =~= seq![
                        Step::new(op, v2),
                    ]);
                }
                Ok(Number { value, unit: None })
            },
            (Some(u1), None) => Err(
                Error::IncommensurableUnits(Some(Box::new(u1.duplicate())), None),
            ),
            (None, Some(u2)) => Err(
                Error::IncommensurableUnits(None, Some(Box::new(u2.duplicate()))),
            ),
        }
    }

    /// Multiplies this number by another.
    pub fn mul<F: Fn(Op, Float, Float) -> Float>(&self, other: &Number, fpu: &F) -> (r: Result<
        Number,
        Error,
    >)
        requires
            total(fpu),
        ensures
            yields(fpu, mul_recipe(self@, other@), r),
    {
        let v1 = self.value;
        let v2 = other.value;
        let product = apply(fpu, Op::Mul, v1, v2, false);
        let ghost s1 = seq![Step::new(Op::Mul, v2)];
        proof {
            lemma_evaluates_push(fpu, v1, Seq::empty(), v1, Step::new(Op::Mul, v2), product);
            assert(Seq::<Step>::empty().push(Step::new(Op::Mul, v2)) =~= s1);
        }
        match (&self.unit, &other.unit) {
            (Some(u1), Some(u2)) => {
                let mut numer: Vec<Base> = Vec::new();
                push_bases(&mut numer, u1.numer());
                push_bases(&mut numer, u2.numer());
                let mut denom: Vec<Base> = Vec::new();
                push_bases(&mut denom, u1.denom());
                push_bases(&mut denom, u2.denom());
                assert(numer@ =~= u1@.numer + u2@.numer);
                assert(denom@ =~= u1@.denom + u2@.denom);
                match Unit::compose(numer, denom, Float { bits: ONE_BITS }) {
                    Ok(u) => {
                        let scaled = apply(fpu, Op::Mul, product, u1.constant(), false);
                        let value = apply(fpu, Op::Mul, scaled, u2.constant(), false);
                        let ghost steps = seq![
                            Step::new(Op::Mul, v2),
                            Step::new(Op::Mul, u1@.constant),
                            Step::new(Op::Mul, u2@.constant),
                        ];
                        proof {
                            lemma_evaluates_push(
                                fpu,
                                v1,
                                s1,
                                product,
                                Step::new(Op::Mul, u1@.constant),
                                scaled,
                            );
                            lemma_evaluates_push(
                                fpu,
                                v1,
                                s1.push(Step::new(Op::Mul, u1@.constant)),
                                scaled,
                                Step::new(Op::Mul, u2@.constant),
                                value,
                            );
                            assert(s1.push(Step::new(Op::Mul, u1@.constant)).push(
                                Step::new(Op::Mul, u2@.constant),
                            ) =~= steps);
                        }
                        let r = (Number { value, unit: Some(u) }).simplified(fpu);
                        proof {
                            lemma_follows_after(fpu, v1, steps, value, Some(u@), r);
                        }
                        r
                    },
                    Err(e) => Err(e),
                }
            },
            (Some(u), None) => {
                assert(s1.push(Step::new(Op::Mul, u@.constant)) =~= seq![
                    Step::new(Op::Mul, v2),
                    Step::new(Op::Mul, u@.constant),
                ]);
                Number::scaled_by(v1, Ghost(s1), product, Op::Mul, u, fpu)
            },
            (None, Some(u)) => {
                assert(s1.push(Step::new(Op::Mul, u@.constant)) =~= seq![
                    Step::new(Op::Mul, v2),
                    Step::new(Op::Mul, u@.constant),
                ]);
                Number::scaled_by(v1, Ghost(s1), product, Op::Mul, u, fpu)
            },
            (None, None) => Ok(Number { value: product, unit: None }),
        }
    }

    /// Applies the constant of `unit` to a value reached by one step, gives it
    /// the unit and simplifies.
    fn scaled_by<F: Fn(Op, Float, Float) -> Float>(
        start: Float,
        Ghost(first): Ghost<Seq<Step>>,
        value: Float,
        op: Op,
        unit: &Unit,
        fpu: &F,
    ) -> (r: Result<Number, Error>)
        requires
            total(fpu),
            evaluates_to(fpu, start, first, value),
        ensures
            yields(fpu, settle(start, first.push(Step::new(op, unit@.constant)), Some(unit@)), r),
    {
        let scaled = apply(fpu, op, value, unit.constant(), false);
        proof {
            lemma_evaluates_push(fpu, start, first, value, Step::new(op, unit@.constant), scaled);
        }
        let r = (Number { value: scaled, unit: Some(unit.duplicate()) }).simplified(fpu);
        proof {
            lemma_follows_after(
                fpu,
                start,
                first.push(Step::new(op, unit@.constant)),
                scaled,
                Some(unit@),
                r,
            );
        }
        r
    }

    /// Divides this number by another.
    pub fn div<F: Fn(Op, Float, Float) -> Float>(&self, other: &Number, fpu: &F) -> (r: Result<
        Number,
        Error,
    >)
        requires
            total(fpu),
        ensures
            yields(fpu, div_recipe(self@, other@), r),
    {
        let v1 = self.value;
        let v2 = other.value;
        let quotient = apply(fpu, Op::Div, v1, v2, false);
        let ghost s1 = seq![Step::new(Op::Div, v2)];
        proof {
            lemma_evaluates_push(fpu, v1, Seq::empty(), v1, Step::new(Op::Div, v2), quotient);
            assert(Seq::<Step>::empty().push(Step::new(Op::Div, v2)) =~= s1);
        }
        match (&self.unit, &other.unit) {
            (Some(u1), Some(u2)) => {
                let mut numer: Vec<Base> = Vec::new();
                push_bases(&mut numer, u1.numer());
                push_bases(&mut numer, u2.denom());
                let mut denom: Vec<Base> = Vec::new();
                push_bases(&mut denom, u1.denom());
                push_bases(&mut denom, u2.numer());
                assert(numer@ =~= u1@.numer + u2@.denom);
                assert(denom@ =~= u1@.denom + u2@.numer);
                match Unit::compose(numer, denom, Float { bits: ONE_BITS }) {
                    Ok(u) => {
                        let scaled = apply(fpu, Op::Mul, quotient, u1.constant(), false);
                        let value = apply(fpu, Op::Div, scaled, u2.constant(), false);
                        let ghost steps = seq![
                            Step::new(Op::Div, v2),
                            Step::new(Op::Mul, u1@.constant),
                            Step::new(Op::Div, u2@.constant),
                        ];
                        proof {
                            lemma_evaluates_push(
                                fpu,
                                v1,
                                s1,
                                quotient,
                                Step::new(Op::Mul, u1@.constant),
                                scaled,
                            );
                            lemma_evaluates_push(
                                fpu,
                                v1,
                                s1.push(Step::new(Op::Mul, u1@.constant)),
                                scaled,
                                Step::new(Op::Div, u2@.constant),
                                value,
                            );
                            assert(s1.push(Step::new(Op::Mul, u1@.constant)).push(
                                Step::new(Op::Div, u2@.constant),
                            ) =~= steps);
                        }
                        let r = (Number { value, unit: Some(u) }).simplified(fpu);
                        proof {
                            lemma_follows_after(fpu, v1, steps, value, Some(u@), r);
                        }
                        r
                    },
                    Err(e) => Err(e),
                }
            },
            (Some(u), None) => {
                assert(s1.push(Step::new(Op::Mul, u@.constant)) =~= seq![
                    Step::new(Op::Div, v2),
                    Step::new(Op::Mul, u@.constant),
                ]);
                Number::scaled_by(v1, Ghost(s1), quotient, Op::Mul, u, fpu)
            },
            (None, Some(u)) => {
                if u.numer().len() > 0 && u.numer()[0].offset() {
                    return Err(Error::UninvertableUnits(Box::new(u.duplicate())));
                }
                let mut numer: Vec<Base> = Vec::new();
                push_bases(&mut numer, u.denom());
                let mut denom: Vec<Base> = Vec::new();
                push_bases(&mut denom, u.numer());
                assert(numer@ =~= u@.denom);
                assert(denom@ =~= u@.numer);
                match Unit::compose(numer, denom, Float { bits: ONE_BITS }) {
                    Ok(v) => {
                        let value = apply(fpu, Op::Div, quotient, u.constant(), false);
                        let ghost steps = seq![
                            Step::new(Op::Div, v2),
                            Step::new(Op::Div, u@.constant),
                        ];
                        proof {
                            lemma_evaluates_push(
                                fpu,
                                v1,
                                s1,
                                quotient,
                                Step::new(Op::Div, u@.constant),
                                value,
                            );
                            assert(s1.push(Step::new(Op::Div, u@.constant)) =~= steps);
                        }
                        let r = (Number { value, unit: Some(v) }).simplified(fpu);
                        proof {
                            lemma_follows_after(fpu, v1, steps, value, Some(v@), r);
                        }
                        r
                    },
                    Err(e) => Err(e),
                }
            },
            (None, None) => Ok(Number { value: quotient, unit: None }),
        }
    }

    /// Raises this number to the power of another number.
    ///
    /// # Errors
    ///
    /// Returns an error if:
    /// - the other number is not dimensionless; or,
    /// - this number has units and the other number is not whole.
    pub fn pow<F: Fn(Op, Float, Float) -> Float>(&self, other: &Number, fpu: &F) -> (r: Result<
        Number,
        Error,
    >)
        requires
            total(fpu),
        ensures
            yields(fpu, pow_recipe(self@, other@), r),
    {
        if !other.is_dimensionless() {
            return Err(Error::ExponentHasUnits);
        }
        let ghost steps = seq![Step::new(Op::Pow, other.value)];
        match &self.unit {
            None => {
                let value = apply(fpu, Op::Pow, self.value, other.value, false);
                proof {
                    lemma_evaluates_push(
                        fpu,
                        self.value,
                        Seq::empty(),
                        self.value,
                        Step::new(Op::Pow, other.value),
                        value,
                    );
                    assert(Seq::<Step>::empty().push(Step::new(Op::Pow, other.value)) =~= steps);
                }
                Ok(Number { value, unit: None })
            },
            Some(u) => {
                if !other.is_whole() {
                    Err(Error::ExponentNotAnInteger)
                } else if other.value.zero() {
                    Ok(Number { value: Float { bits: ONE_BITS }, unit: None })
                } else {
                    let n: u64 = other.value.abs_to_u64();
                    let numer = repeat_bases(u.numer(), n);
                    let denom = repeat_bases(u.denom(), n);
                    let made = if other.value.below_zero() {
                        Unit::compose(denom, numer, Float { bits: ONE_BITS })
                    } else {
                        Unit::compose(numer, denom, Float { bits: ONE_BITS })
                    };
                    match made {
                        Ok(v) => {
                            let value = apply(fpu, Op::Pow, self.value, other.value, false);
                            proof {
                                lemma_evaluates_push(
                                    fpu,
                                    self.value,
                                    Seq::empty(),
                                    self.value,
                                    Step::new(Op::Pow, other.value),
                                    value,
                                );
                                assert(Seq::<Step>::empty().push(Step::new(Op::Pow, other.value))
                                    =~= steps);
                            }
                            Ok(Number { value, unit: Some(v) })
                        },
                        Err(e) => Err(e),
                    }
                }
            },
        }
    }

    /// Finds the Nth root of this number.
    ///
    /// # Errors
    ///
    /// Returns an error if:
    /// - the other number is not dimensionless;
    /// - this number has units and the other number is not whole; or,
    /// - this number has units that are not evenly divisible by N.
    pub fn root<F: Fn(Op, Float, Float) -> Float>(&self, other: &Number, fpu: &F) -> (r: Result<
        Number,
        Error,
    >)
        requires
            total(fpu),
        ensures
            yields(fpu, root_recipe(self@, other@), r),
    {
        if !other.is_dimensionless() {
            return Err(Error::DegreeHasUnits);
        }
        match &self.unit {
            None => Ok(Number { value: Number::root_value(self.value, other.value, fpu), unit: None }),
            Some(u) => {
                if !other.is_whole() {
                    return Err(Error::DegreeNotAnInteger);
                }
                let degree: i64 = other.value.to_i64();
                let size: u64 = if degree == i64::MIN {
                    0x8000_0000_0000_0000
                } else if degree < 0 {
                    (-degree) as u64
                } else {
                    degree as u64
                };
                let top = base_counts(u.numer());
                let bottom = base_counts(u.denom());
                if any_count_indivisible(&top.1, size) || any_count_indivisible(&bottom.1, size) {
                    return Err(Error::UnitNotDivisible);
                }
                let numer: Vec<Base> = if size == 0 {
                    Vec::new()
                } else {
                    divide_base_counts(&top.0, &top.1, size)
                };
                let denom: Vec<Base> = if size == 0 {
                    Vec::new()
                } else {
                    divide_base_counts(&bottom.0, &bottom.1, size)
                };
                proof {
                    assert(numer@ =~= rooted(u@.numer, size as int));
                    assert(denom@ =~= rooted(u@.denom, size as int));
                }
                let made = if degree < 0 {
                    Unit::compose(denom, numer, Float { bits: ONE_BITS })
                } else {
                    Unit::compose(numer, denom, Float { bits: ONE_BITS })
                };
                match made {
                    Ok(v) => Ok(
                        Number {
                            value: Number::root_value(self.value, other.value, fpu),
                            unit: Some(v),
                        },
                    ),
                    Err(e) => Err(e),
                }
            },
        }
    }

    /// Raises `radicand` to the power of one over `degree`.
    fn root_value<F: Fn(Op, Float, Float) -> Float>(radicand: Float, degree: Float, fpu: &F) -> (out:
        Float)
        requires
            total(fpu),
        ensures
            evaluates_to(
                fpu,
                degree,
                seq![Step::rev(Op::Div, Float { bits: ONE_BITS }), Step::rev(Op::Pow, radicand)],
                out,
            ),
    {
        let one = Float { bits: ONE_BITS };
        let exponent = apply(fpu, Op::Div, degree, one, true);
        let out = apply(fpu, Op::Pow, exponent, radicand, true);
        proof {
            lemma_evaluates_push(fpu, degree, Seq::empty(), degree, Step::rev(Op::Div, one), exponent);
            lemma_evaluates_push(
                fpu,
                degree,
                Seq::empty().push(Step::rev(Op::Div, one)),
                exponent,
                Step::rev(Op::Pow, radicand),
                out,
            );
            assert(Seq::<Step>::empty().push(Step::rev(Op::Div, one)).push(
                Step::rev(Op::Pow, radicand),
            ) =~= seq![Step::rev(Op::Div, one), Step::rev(Op::Pow, radicand)]);
        }
        out
    }

    /// Multiplies this number's unit by another unit. If the number has no
    /// unit, assigns the unit to the number. The value stays as it is.
    pub fn mul_unit<F: Fn(Op, Float, Float) -> Float>(&self, other: &Unit, fpu: &F) -> (r: Result<
        Number,
        Error,
    >)
        requires
            total(fpu),
        ensures
            match self@.unit {
                None => r matches Ok(n) && n@ == (NumberView {
                    value: self@.value,
                    unit: Some(other@),
                }),
                Some(u) => given_unit(
                    fpu,
                    self@.value,
                    u.numer + other@.numer,
                    u.denom + other@.denom,
                    (Op::Mul, u.constant, other@.constant),
                    r,
                ),
            },
    {
        match &self.unit {
            None => Ok(Number { value: self.value, unit: Some(other.duplicate()) }),
            Some(u) => match u.multiply(other, fpu) {
                Ok(v) => Ok(Number { value: self.value, unit: Some(v) }),
                Err(e) => Err(e),
            },
        }
    }

    /// Divides this number's unit by another unit. If the number has no unit,
    /// assigns the inverse of the unit to the number. The value stays as it
    /// is.
    pub fn div_unit<F: Fn(Op, Float, Float) -> Float>(&self, other: &Unit, fpu: &F) -> (r: Result<
        Number,
        Error,
    >)
        requires
            total(fpu),
        ensures
            match self@.unit {
                None => if other@.is_absolute() {
                    r matches Err(e) && e@ == ErrorView::UninvertableUnits(other@)
                } else {
                    given_unit(
                        fpu,
                        self@.value,
                        other@.denom,
                        other@.numer,
                        (Op::Div, Float { bits: ONE_BITS }, other@.constant),
                        r,
                    )
                },
                Some(u) => given_unit(
                    fpu,
                    self@.value,
                    u.numer + other@.denom,
                    u.denom + other@.numer,
                    (Op::Div, u.constant, other@.constant),
                    r,
                ),
            },
    {
        let made = match &self.unit {
            None => other.inverse(fpu),
            Some(u) => u.divide(other, fpu),
        };
        match made {
            Ok(v) => Ok(Number { value: self.value, unit: Some(v) }),
            Err(e) => Err(e),
        }
    }
}

impl Clone for Number {
    fn clone(&self) -> (r: Number)
        ensures
            r@ == self@,
    {
        self.duplicate()
    }
}

} // verus!
