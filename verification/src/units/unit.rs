//! Units derived from base units.

use super::base::{Base, PhysicalQuantity, NUM_PHYSICAL_QUANTITIES};
use super::{Error, ErrorView};
use crate::float::{
    apply, evaluates_to, lemma_evaluates_concat, lemma_evaluates_push, total, Float, Op, Step,
    ONE_BITS,
};
use super::laws::lemma_composed_unit_is_valid;
use vstd::prelude::*;

verus! {

/// What a `Unit` is, mathematically: its bases with positive and with
/// negative exponents, each as often as its exponent says, its scale constant
/// and its symbol.
pub struct UnitView {
    pub symbol: Option<Seq<char>>,
    pub numer: Seq<Base>,
    pub denom: Seq<Base>,
    pub constant: Float,
}

impl UnitView {
    /// The unit that consists of one base.
    pub open spec fn of_base(b: Base) -> UnitView {
        UnitView { symbol: None, numer: seq![b], denom: seq![], constant: Float { bits: ONE_BITS } }
    }

    /// Whether the unit has no bases at all, so that it is a pure factor.
    pub open spec fn is_scalar(self) -> bool {
        self.numer.len() == 0 && self.denom.len() == 0
    }

    /// Whether the unit is one absolute temperature scale and nothing else.
    pub open spec fn is_absolute(self) -> bool {
        self.numer.len() > 0 && self.numer[0].has_offset()
    }
}

/// Whether an absolute scale stands only where it may stand: alone in the
/// numerator of a unit without denominator.
pub open spec fn well_placed(u: UnitView) -> bool {
    &&& forall|j: int| 0 <= j < u.denom.len() ==> !(#[trigger] u.denom[j]).has_offset()
    &&& (u.numer.len() > 1 || u.denom.len() > 0) ==> forall|i: int|
        0 <= i < u.numer.len() ==> !(#[trigger] u.numer[i]).has_offset()
}

/// Whether no base of the numerator is like a base of the denominator.
pub open spec fn reduced(numer: Seq<Base>, denom: Seq<Base>) -> bool {
    forall|i: int, j: int|
        0 <= i < numer.len() && 0 <= j < denom.len() ==> !(#[trigger] numer[i]).same(
            #[trigger] denom[j],
        )
}

/// Whether a unit is as every unit is: no base stands on both sides of the
/// fraction, and an absolute scale stands only alone in the numerator.
pub open spec fn valid(u: UnitView) -> bool {
    reduced(u.numer, u.denom) && well_placed(u)
}

/// A unit that may measure a base quantity or a derived quantity.
#[derive(Debug, PartialEq)]
pub struct Unit {
    /// Symbolic representation of the unit
    symbol: Option<String>,
    numer: Vec<Base>,
    denom: Vec<Base>,
    constant: Float,
}

/// The characters of an optional string.
pub open spec fn text_view(s: Option<String>) -> Option<Seq<char>> {
    match s {
        Some(t) => Some(t@),
        None => None,
    }
}

impl View for Unit {
    type V = UnitView;

    closed spec fn view(&self) -> UnitView {
        UnitView {
            symbol: text_view(self.symbol),
            numer: self.numer@,
            denom: self.denom@,
            constant: self.constant,
        }
    }
}

/// Whether `j` is the first place in `s` that holds a base like `x`.
pub open spec fn is_first_same(s: Seq<Base>, x: Base, j: int) -> bool {
    &&& 0 <= j < s.len()
    &&& x.same(s[j])
    &&& forall|k: int| 0 <= k < j ==> !x.same(#[trigger] s[k])
}

/// Whether `s` holds a base like `x`.
pub open spec fn has_same(s: Seq<Base>, x: Base) -> bool {
    exists|j: int| is_first_same(s, x, j)
}

/// The first place in `s` that holds a base like `x`.
pub open spec fn first_same(s: Seq<Base>, x: Base) -> int {
    choose|j: int| is_first_same(s, x, j)
}

/// The bases left after cancelling: each numerator base in turn is struck
/// out together with the first denominator base like it that is still there;
/// the others stay in their order.
pub open spec fn cancel(numer: Seq<Base>, denom: Seq<Base>) -> (Seq<Base>, Seq<Base>)
    decreases numer.len(),
{
    if numer.len() == 0 {
        (numer, denom)
    } else if has_same(denom, numer[0]) {
        cancel(numer.drop_first(), denom.remove(first_same(denom, numer[0])))
    } else {
        let rest = cancel(numer.drop_first(), denom);
        (seq![numer[0]] + rest.0, rest.1)
    }
}

/// Whether `j` is the first place in `s` that holds an absolute scale.
pub open spec fn is_first_offset(s: Seq<Base>, j: int) -> bool {
    &&& 0 <= j < s.len()
    &&& s[j].has_offset()
    &&& forall|k: int| 0 <= k < j ==> !(#[trigger] s[k]).has_offset()
}

/// The first absolute scale in `s`.
pub open spec fn first_offset(s: Seq<Base>) -> Option<Base> {
    if exists|j: int| is_first_offset(s, j) {
        Some(s[choose|j: int| is_first_offset(s, j)])
    } else {
        None
    }
}

/// The absolute scale that stands where none may stand: in a numerator beside
/// anything else, or in a denominator.
pub open spec fn misplaced(numer: Seq<Base>, denom: Seq<Base>) -> Option<Base> {
    if (numer.len() > 1 || denom.len() > 0) && first_offset(numer) is Some {
        first_offset(numer)
    } else {
        first_offset(denom)
    }
}

/// The unit made of the given bases and constant: the bases are cancelled,
/// and the unit is refused where an absolute scale is left misplaced.
pub open spec fn compose(numer: Seq<Base>, denom: Seq<Base>, constant: Float) -> Result<
    UnitView,
    ErrorView,
> {
    let left = cancel(numer, denom);
    match misplaced(left.0, left.1) {
        Some(b) => Err(ErrorView::NonzeroZeroPoint(b)),
        None => Ok(UnitView { symbol: None, numer: left.0, denom: left.1, constant }),
    }
}

/// A result with its unit and its error seen as their views.
pub open spec fn unit_result(r: Result<Unit, Error>) -> Result<UnitView, ErrorView> {
    match r {
        Ok(u) => Ok(u@),
        Err(e) => Err(e@),
    }
}

/// Whether `r` is the unit made of the given bases and constant, or the
/// refusal to make it.
pub open spec fn built(numer: Seq<Base>, denom: Seq<Base>, constant: Float, r: Result<Unit, Error>) -> bool {
    unit_result(r) == compose(numer, denom, constant)
}

/// Whether `r` is the unit made of the given bases, with a constant that the
/// arithmetic unit may produce for the given arguments, or the refusal to
/// make a unit of these bases.
pub open spec fn built_by<F: Fn(Op, Float, Float) -> Float>(
    fpu: &F,
    numer: Seq<Base>,
    denom: Seq<Base>,
    args: (Op, Float, Float),
    r: Result<Unit, Error>,
) -> bool {
    match r {
        Ok(u) => call_ensures(*fpu, args, u@.constant) && compose(numer, denom, u@.constant) == Ok::<
            UnitView,
            ErrorView,
        >(u@),
        Err(e) => compose(numer, denom, args.1) == Err::<UnitView, ErrorView>(e@),
    }
}

/// How often `q` is measured by the bases in `s`.
pub open spec fn count_of(s: Seq<Base>, q: PhysicalQuantity) -> nat
    decreases s.len(),
{
    if s.len() == 0 {
        0
    } else {
        count_of(s.drop_last(), q) + if s.last().physq == q {
            1nat
        } else {
            0nat
        }
    }
}

/// Whether each physical quantity occurs the same number of times in both
/// sequences.
pub open spec fn counts_match(a: Seq<Base>, b: Seq<Base>) -> bool {
    forall|q: PhysicalQuantity| count_of(a, q) == count_of(b, q)
}

/// Whether a value on the scale `a` can be brought to the scale `b`: always
/// where one of them starts where the SI unit starts, else where both are
/// absolute scales or both are scales of differences.
pub open spec fn zeros_agree(a: Base, b: Base) -> bool {
    a.is_zero_based() || b.is_zero_based() || (a.zero is Some) == (b.zero is Some)
}

/// Whether a quantity in the unit `a` can be converted to the unit `b`.
pub open spec fn commensurable(a: UnitView, b: UnitView) -> bool {
    &&& counts_match(a.numer, b.numer)
    &&& counts_match(a.denom, b.denom)
    &&& (a.numer.len() == 1 && a.denom.len() == 0 ==> zeros_agree(a.numer[0], b.numer[0]))
}

/// The four passes over bases that a conversion makes.
#[derive(Clone, Copy, Debug, PartialEq, Eq, Structural)]
pub enum Pass {
    /// Over the numerator of the unit converted from: minus zero, times factor.
    LowerNumer,
    /// Over the denominator of the unit converted from: by factor.
    LowerDenom,
    /// Over the numerator of the unit converted to: by factor, plus zero.
    RaiseNumer,
    /// Over the denominator of the unit converted to: times factor.
    RaiseDenom,
}

/// The steps that a conversion makes for one base.
pub open spec fn base_steps(b: Base, pass: Pass) -> Seq<Step> {
    match pass {
        Pass::LowerNumer => match b.zero {
            Some(z) => seq![Step::new(Op::Sub, z), Step::new(Op::Mul, b.factor)],
            None => seq![Step::new(Op::Mul, b.factor)],
        },
        Pass::LowerDenom => seq![Step::new(Op::Div, b.factor)],
        Pass::RaiseNumer => match b.zero {
            Some(z) => seq![Step::new(Op::Div, b.factor), Step::new(Op::Add, z)],
            None => seq![Step::new(Op::Div, b.factor)],
        },
        Pass::RaiseDenom => seq![Step::new(Op::Mul, b.factor)],
    }
}

/// The steps that a conversion makes for the bases in `s`, in their order.
pub open spec fn pass_steps(s: Seq<Base>, pass: Pass) -> Seq<Step>
    decreases s.len(),
{
    if s.len() == 0 {
        Seq::empty()
    } else {
        pass_steps(s.drop_last(), pass) + base_steps(s.last(), pass)
    }
}

/// The steps that convert a value from one unit to another: by the constant
/// of the first, down to SI through its bases, up through the bases of the
/// second, and by the constant of the second.
pub open spec fn convert_steps(from: UnitView, to: UnitView) -> Seq<Step> {
    seq![Step::new(Op::Mul, from.constant)] + pass_steps(from.numer, Pass::LowerNumer)
        + pass_steps(from.denom, Pass::LowerDenom) + pass_steps(to.numer, Pass::RaiseNumer)
        + pass_steps(to.denom, Pass::RaiseDenom) + seq![Step::new(Op::Div, to.constant)]
}

/// Appends the bases in `tail` to `out`.
pub fn push_bases(out: &mut Vec<Base>, tail: &Vec<Base>)
    ensures
        final(out)@ == old(out)@ + tail@,
{
    let mut i: usize = 0;
    while i < tail.len()
        invariant
            i <= tail.len(),
            out@ == old(out)@ + tail@.take(i as int),
        decreases tail.len() - i,
    {
        out.push(tail[i]);
        assert(tail@.take(i + 1) =~= tail@.take(i as int).push(tail@[i as int]));
        i = i + 1;
    }
    assert(tail@.take(tail.len() as int) =~= tail@);
}

/// Finds the first base in `s` that is like `x`.
fn find_same(s: &Vec<Base>, x: &Base) -> (r: Option<usize>)
    ensures
        match r {
            Some(j) => is_first_same(s@, *x, j as int) && first_same(s@, *x) == j,
            None => !has_same(s@, *x),
        },
{
    let mut j: usize = 0;
    while j < s.len()
        invariant
            j <= s.len(),
            forall|k: int| 0 <= k < j ==> !x.same(#[trigger] s@[k]),
        decreases s.len() - j,
    {
        if x.equals(&s[j]) {
            assert(is_first_same(s@, *x, j as int));
            return Some(j);
        }
        j = j + 1;
    }
    None
}

/// Finds the first absolute scale in `s`.
fn find_offset(s: &Vec<Base>) -> (r: Option<Base>)
    ensures
        r == first_offset(s@),
{
    let mut j: usize = 0;
    while j < s.len()
        invariant
            j <= s.len(),
            forall|k: int| 0 <= k < j ==> !(#[trigger] s@[k]).has_offset(),
        decreases s.len() - j,
    {
        if s[j].offset() {
            assert(is_first_offset(s@, j as int));
            return Some(s[j]);
        }
        j = j + 1;
    }
    None
}

/// Counts how often each physical quantity is measured by the bases in `s`.
fn tally(s: &Vec<Base>) -> (counts: Vec<usize>)
    ensures
        counts.len() == NUM_PHYSICAL_QUANTITIES,
        forall|q: PhysicalQuantity| #[trigger] count_of(s@, q) == counts@[q.ordinal()],
{
    let mut counts: Vec<usize> = Vec::new();
    let mut k: usize = 0;
    while k < NUM_PHYSICAL_QUANTITIES
        invariant
            k <= NUM_PHYSICAL_QUANTITIES,
            counts.len() == k,
            forall|j: int| 0 <= j < k ==> counts@[j] == 0,
        decreases NUM_PHYSICAL_QUANTITIES - k,
    {
        counts.push(0);
        k = k + 1;
    }
    let mut i: usize = 0;
    assert(s@.take(0) =~= Seq::<Base>::empty());
    while i < s.len()
        invariant
            i <= s.len(),
            counts.len() == NUM_PHYSICAL_QUANTITIES,
            forall|q: PhysicalQuantity| #[trigger]
                count_of(s@.take(i as int), q) == counts@[q.ordinal()],
            forall|j: int| 0 <= j < counts.len() ==> counts@[j] <= i,
        decreases s.len() - i,
    {
        let at: usize = s[i].physq.index();
        let ghost before = counts@;
        let n: usize = counts[at];
        counts.set(at, n + 1);
        proof {
            let longer = s@.take(i + 1);
            assert(longer.drop_last() =~= s@.take(i as int));
            assert(longer.last() == s@[i as int]);
            assert forall|q: PhysicalQuantity| #[trigger]
                count_of(longer, q) == counts@[q.ordinal()] by {
                assert(count_of(s@.take(i as int), q) == before[q.ordinal()]);
            }
        }
        i = i + 1;
    }
    assert(s@.take(s.len() as int) =~= s@);
    counts
}

/// Tells whether each physical quantity occurs the same number of times in
/// both sequences.
fn physq_counts_match(a: &Vec<Base>, b: &Vec<Base>) -> (r: bool)
    ensures
        r == counts_match(a@, b@),
{
    let left = tally(a);
    let right = tally(b);
    let mut k: usize = 0;
    while k < NUM_PHYSICAL_QUANTITIES
        invariant
            k <= NUM_PHYSICAL_QUANTITIES,
            left.len() == NUM_PHYSICAL_QUANTITIES,
            right.len() == NUM_PHYSICAL_QUANTITIES,
            forall|q: PhysicalQuantity| #[trigger] count_of(a@, q) == left@[q.ordinal()],
            forall|q: PhysicalQuantity| #[trigger] count_of(b@, q) == right@[q.ordinal()],
            forall|j: int| 0 <= j < k ==> left@[j] == right@[j],
        decreases NUM_PHYSICAL_QUANTITIES - k,
    {
        if left[k] != right[k] {
            proof {
                let q = quantity_at(k as int);
                assert(q.ordinal() == k);
                assert(count_of(a@, q) != count_of(b@, q));
            }
            return false;
        }
        k = k + 1;
    }
    proof {
        assert forall|q: PhysicalQuantity| count_of(a@, q) == count_of(b@, q) by {
            assert(count_of(a@, q) == left@[q.ordinal()]);
            assert(count_of(b@, q) == right@[q.ordinal()]);
        }
    }
    true
}

/// The physical quantity at a position in the list of quantities.
pub open spec fn quantity_at(k: int) -> PhysicalQuantity {
    if k == 0 {
        PhysicalQuantity::Time
    } else if k == 1 {
        PhysicalQuantity::Length
    } else if k == 2 {
        PhysicalQuantity::Mass
    } else if k == 3 {
        PhysicalQuantity::Current
    } else if k == 4 {
        PhysicalQuantity::Temperature
    } else if k == 5 {
        PhysicalQuantity::AmountOfSubstance
    } else if k == 6 {
        PhysicalQuantity::LuminousIntensity
    } else {
        PhysicalQuantity::Angle
    }
}

/// Sequences that measure the same quantities equally often are equally long
/// where one of them has a single base.
pub proof fn lemma_counts_match_single(a: Seq<Base>, b: Seq<Base>)
    requires
        counts_match(a, b),
        a.len() == 1,
    ensures
        b.len() >= 1,
{
    let q = a[0].physq;
    assert(a.drop_last() =~= Seq::<Base>::empty());
    assert(count_of(a.drop_last(), q) == 0);
    assert(count_of(a, q) == 1);
    assert(count_of(b, q) == 1);
}

/// Performs one pass of a conversion on the arithmetic unit.
fn apply_pass<F: Fn(Op, Float, Float) -> Float>(
    fpu: &F,
    x: Float,
    bases: &Vec<Base>,
    pass: Pass,
) -> (out: Float)
    requires
        total(fpu),
    ensures
        evaluates_to(fpu, x, pass_steps(bases@, pass), out),
{
    let mut value: Float = x;
    let mut i: usize = 0;
    assert(bases@.take(0) =~= Seq::<Base>::empty());
    while i < bases.len()
        invariant
            i <= bases.len(),
            total(fpu),
            evaluates_to(fpu, x, pass_steps(bases@.take(i as int), pass), value),
        decreases bases.len() - i,
    {
        let b: Base = bases[i];
        let ghost done = pass_steps(bases@.take(i as int), pass);
        let ghost before = value;
        proof {
            assert(bases@.take(i + 1).drop_last() =~= bases@.take(i as int));
            assert(bases@.take(i + 1).last() == b);
        }
        match pass {
            Pass::LowerNumer => {
                match b.zero {
                    Some(z) => {
                        let shifted = apply(fpu, Op::Sub, value, z, false);
                        value = apply(fpu, Op::Mul, shifted, b.factor, false);
                        proof {
                            lemma_evaluates_push(fpu, x, done, before, Step::new(Op::Sub, z), shifted);
                            lemma_evaluates_push(
                                fpu,
                                x,
                                done.push(Step::new(Op::Sub, z)),
                                shifted,
                                Step::new(Op::Mul, b.factor),
                                value,
                            );
                            assert(done.push(Step::new(Op::Sub, z)).push(
                                Step::new(Op::Mul, b.factor),
                            ) =~= done + base_steps(b, pass));
                        }
                    },
                    None => {
                        value = apply(fpu, Op::Mul, value, b.factor, false);
                        proof {
                            lemma_evaluates_push(
                                fpu,
                                x,
                                done,
                                before,
                                Step::new(Op::Mul, b.factor),
                                value,
                            );
                            assert(done.push(Step::new(Op::Mul, b.factor)) =~= done + base_steps(
                                b,
                                pass,
                            ));
                        }
                    },
                }
            },
            Pass::LowerDenom => {
                value = apply(fpu, Op::Div, value, b.factor, false);
                proof {
                    lemma_evaluates_push(fpu, x, done, before, Step::new(Op::Div, b.factor), value);
                    assert(done.push(Step::new(Op::Div, b.factor)) =~= done + base_steps(b, pass));
                }
            },
            Pass::RaiseNumer => {
                let scaled = apply(fpu, Op::Div, value, b.factor, false);
                proof {
                    lemma_evaluates_push(fpu, x, done, before, Step::new(Op::Div, b.factor), scaled);
                }
                match b.zero {
                    Some(z) => {
                        value = apply(fpu, Op::Add, scaled, z, false);
                        proof {
                            lemma_evaluates_push(
                                fpu,
                                x,
                                done.push(Step::new(Op::Div, b.factor)),
                                scaled,
                                Step::new(Op::Add, z),
                                value,
                            );
                            assert(done.push(Step::new(Op::Div, b.factor)).push(
                                Step::new(Op::Add, z),
                            ) =~= done + base_steps(b, pass));
                        }
                    },
                    None => {
                        value = scaled;
                        proof {
                            assert(done.push(Step::new(Op::Div, b.factor)) =~= done + base_steps(
                                b,
                                pass,
                            ));
                        }
                    },
                }
            },
            Pass::RaiseDenom => {
                value = apply(fpu, Op::Mul, value, b.factor, false);
                proof {
                    lemma_evaluates_push(fpu, x, done, before, Step::new(Op::Mul, b.factor), value);
                    assert(done.push(Step::new(Op::Mul, b.factor)) =~= done + base_steps(b, pass));
                }
            },
        }
        i = i + 1;
    }
    assert(bases@.take(bases.len() as int) =~= bases@);
    value
}

impl Unit {
    #[verifier::type_invariant]
    spec fn sound(self) -> bool {
        valid(self@)
    }

    /// Every unit is valid. There is nothing to compute: a call makes the
    /// fact known where it is called.
    pub fn validity(&self)
        ensures
            valid(self@),
    {
        proof {
            use_type_invariant(self);
        }
    }

    /// Makes a unit of the given bases and constant.
    ///
    /// `numer` holds the bases with positive exponents and `denom` those with
    /// negative exponents; the number of times a base appears determines the
    /// magnitude of its exponent. Bases that cancel out are removed.
    ///
    /// Returns an error if one of the bases left is an absolute scale and
    /// there is more than one base, or the denominator is not empty.
    pub fn compose(numer: Vec<Base>, denom: Vec<Base>, constant: Float) -> (r: Result<Unit, Error>)
        ensures
            built(numer@, denom@, constant, r),
    {
        let mut kept: Vec<Base> = Vec::new();
        let mut rest: Vec<Base> = denom;
        let mut i: usize = 0;
        assert(numer@.skip(0) =~= numer@);
        while i < numer.len()
            invariant
                i <= numer.len(),
                cancel(numer@, denom@).0 == kept@ + cancel(numer@.skip(i as int), rest@).0,
                cancel(numer@, denom@).1 == cancel(numer@.skip(i as int), rest@).1,
            decreases numer.len() - i,
        {
            let x: Base = numer[i];
            let ghost tail = numer@.skip(i as int);
            proof {
                assert(tail[0] == x);
                assert(tail.drop_first() =~= numer@.skip(i + 1));
            }
            match find_same(&rest, &x) {
                Some(j) => {
                    rest.remove(j);
                },
                None => {
                    let ghost before = kept@;
                    kept.push(x);
                    proof {
                        let after = cancel(numer@.skip(i + 1), rest@);
                        assert(cancel(tail, rest@).0 == seq![x] + after.0);
                        assert(before + (seq![x] + after.0) =~= kept@ + after.0);
                    }
                },
            }
            i = i + 1;
        }
        proof {
            assert(numer@.skip(numer.len() as int) =~= Seq::<Base>::empty());
            assert(kept@ + Seq::<Base>::empty() =~= kept@);
        }
        if kept.len() > 1 || rest.len() > 0 {
            match find_offset(&kept) {
                Some(b) => {
                    return Err(Error::NonzeroZeroPoint(b));
                },
                None => {},
            }
        }
        match find_offset(&rest) {
            Some(b) => Err(Error::NonzeroZeroPoint(b)),
            None => {
                proof {
                    lemma_composed_unit_is_valid(numer@, denom@, constant);
                }
                Ok(Unit { symbol: None, numer: kept, denom: rest, constant })
            },
        }
    }

    /// Derives a unit from the given base units.
    ///
    /// # Parameters
    ///
    /// - `numer`: Base units with positive exponents
    /// - `denom`: Base units with negative exponents
    ///
    /// The number of times a base unit appears in `numer` or `denom` determines
    /// the magnitude of its exponent.
    ///
    /// If any of the base units cancel out, they are removed from the result.
    ///
    /// # Errors
    ///
    /// Returns an error if one of the base units has a non-zero zero point and:
    /// - there is more than one base unit; or,
    /// - the denominator is not empty.
    pub fn new(numer: &[Base], denom: &[Base]) -> (r: Result<Unit, Error>)
        ensures
            built(numer@, denom@, Float { bits: ONE_BITS }, r),
    {
        let n = copy_slice(numer);
        let d = copy_slice(denom);
        Unit::compose(n, d, Float { bits: ONE_BITS })
    }

    /// Makes a unit without a symbol of bases that are given as they are to
    /// stand.
    pub(crate) fn plain(numer: Vec<Base>, denom: Vec<Base>, constant: Float) -> (r: Unit)
        requires
            valid(UnitView { symbol: None, numer: numer@, denom: denom@, constant }),
        ensures
            r@ == (UnitView { symbol: None, numer: numer@, denom: denom@, constant }),
    {
        Unit { symbol: None, numer, denom, constant }
    }

    /// Makes a named unit of bases that are given as they are to stand.
    pub(crate) fn named(symbol: &str, numer: Vec<Base>, denom: Vec<Base>, constant: Float) -> (r:
        Unit)
        requires
            valid(UnitView { symbol: None, numer: numer@, denom: denom@, constant }),
        ensures
            r@ == (UnitView { symbol: Some(symbol@), numer: numer@, denom: denom@, constant }),
    {
        Unit { symbol: Some(symbol.to_owned()), numer, denom, constant }
    }

    /// The unit that consists of one base.
    pub fn of_base(b: Base) -> (r: Unit)
        ensures
            r@ == UnitView::of_base(b),
    {
        let mut numer: Vec<Base> = Vec::new();
        numer.push(b);
        assert(numer@ =~= seq![b]);
        let denom: Vec<Base> = Vec::new();
        assert(denom@ =~= Seq::<Base>::empty());
        Unit { symbol: None, numer, denom, constant: Float { bits: ONE_BITS } }
    }

    /// Returns a copy of this unit.
    pub fn duplicate(&self) -> (r: Unit)
        ensures
            r@ == self@,
    {
        proof {
            use_type_invariant(self);
        }
        let mut numer: Vec<Base> = Vec::new();
        push_bases(&mut numer, &self.numer);
        let mut denom: Vec<Base> = Vec::new();
        push_bases(&mut denom, &self.denom);
        assert(numer@ =~= self.numer@);
        assert(denom@ =~= self.denom@);
        let symbol = match &self.symbol {
            Some(s) => Some(s.clone()),
            None => None,
        };
        Unit { symbol, numer, denom, constant: self.constant }
    }

    /// Returns a new `Unit` identical to this one except that it has the given
    /// symbol.
    pub fn with_symbol(&self, symbol: &str) -> (r: Unit)
        ensures
            r@ == (UnitView { symbol: Some(symbol@), ..self@ }),
    {
        let copy = self.duplicate();
        proof {
            use_type_invariant(&copy);
        }
        Unit {
            symbol: Some(symbol.to_owned()),
            numer: copy.numer,
            denom: copy.denom,
            constant: copy.constant,
        }
    }

    /// Returns a new `Unit` identical to this one except that it has the given
    /// scale constant.
    pub fn with_constant(&self, constant: Float) -> (r: Unit)
        ensures
            r@ == (UnitView { constant, ..self@ }),
    {
        let copy = self.duplicate();
        proof {
            use_type_invariant(&copy);
        }
        Unit { symbol: copy.symbol, numer: copy.numer, denom: copy.denom, constant }
    }

    /// Return a vector of this unit's base units that have positive exponents.
    /// The number of times a base unit appears in the vector indicates the
    /// magnitude of its exponent.
    pub fn numer(&self) -> (r: &Vec<Base>)
        ensures
            r@ == self@.numer,
    {
        &self.numer
    }

    /// Return a vector of this unit's base units that have negative exponents.
    /// The number of times a base unit appears in the vector indicates the
    /// magnitude of its exponent.
    pub fn denom(&self) -> (r: &Vec<Base>)
        ensures
            r@ == self@.denom,
    {
        &self.denom
    }

    /// Returns the factor by which a value in this unit is to be multiplied
    /// before its bases count.
    pub fn constant(&self) -> (r: Float)
        ensures
            r == self@.constant,
    {
        self.constant
    }

    /// Returns the symbol of the unit, if it has one.
    pub fn symbol(&self) -> (r: &Option<String>)
        ensures
            text_view(*r) == self@.symbol,
    {
        &self.symbol
    }

    /// Tells whether the unit has no bases at all.
    pub fn is_scalar(&self) -> (r: bool)
        ensures
            r == self@.is_scalar(),
    {
        self.numer.len() == 0 && self.denom.len() == 0
    }

    /// Produces the unit that would result from multiplying a quantity in this
    /// unit with a quantity in another unit. Its constant is the product of
    /// the two constants.
    pub fn multiply<F: Fn(Op, Float, Float) -> Float>(&self, other: &Unit, fpu: &F) -> (r: Result<
        Unit,
        Error,
    >)
        requires
            total(fpu),
        ensures
            built_by(
                fpu,
                self@.numer + other@.numer,
                self@.denom + other@.denom,
                (Op::Mul, self@.constant, other@.constant),
                r,
            ),
    {
        let mut numer: Vec<Base> = Vec::new();
        push_bases(&mut numer, &self.numer);
        push_bases(&mut numer, &other.numer);
        let mut denom: Vec<Base> = Vec::new();
        push_bases(&mut denom, &self.denom);
        push_bases(&mut denom, &other.denom);
        assert(numer@ =~= self.numer@ + other.numer@);
        assert(denom@ =~= self.denom@ + other.denom@);
        let constant = apply(fpu, Op::Mul, self.constant, other.constant, false);
        Unit::compose(numer, denom, constant)
    }

    /// Produces the unit that would result from dividing a quantity in this
    /// unit by a quantity in another unit. Its constant is the quotient of
    /// the two constants.
    pub fn divide<F: Fn(Op, Float, Float) -> Float>(&self, other: &Unit, fpu: &F) -> (r: Result<
        Unit,
        Error,
    >)
        requires
            total(fpu),
        ensures
            built_by(
                fpu,
                self@.numer + other@.denom,
                self@.denom + other@.numer,
                (Op::Div, self@.constant, other@.constant),
                r,
            ),
    {
        let mut numer: Vec<Base> = Vec::new();
        push_bases(&mut numer, &self.numer);
        push_bases(&mut numer, &other.denom);
        let mut denom: Vec<Base> = Vec::new();
        push_bases(&mut denom, &self.denom);
        push_bases(&mut denom, &other.numer);
        assert(numer@ =~= self.numer@ + other.denom@);
        assert(denom@ =~= self.denom@ + other.numer@);
        let constant = apply(fpu, Op::Div, self.constant, other.constant, false);
        Unit::compose(numer, denom, constant)
    }

    /// Produces the unit that would result from multiplying a quantity in this
    /// unit with a quantity in a base unit.
    pub fn mul_base(&self, other: Base) -> (r: Result<Unit, Error>)
        ensures
            built(self@.numer.push(other), self@.denom, self@.constant, r),
    {
        let mut numer: Vec<Base> = Vec::new();
        push_bases(&mut numer, &self.numer);
        numer.push(other);
        let mut denom: Vec<Base> = Vec::new();
        push_bases(&mut denom, &self.denom);
        assert(numer@ =~= self.numer@.push(other));
        assert(denom@ =~= self.denom@);
        Unit::compose(numer, denom, self.constant)
    }

    /// Produces the unit that would result from dividing a quantity in this
    /// unit by a quantity in a base unit.
    pub fn div_base(&self, other: Base) -> (r: Result<Unit, Error>)
        ensures
            built(self@.numer, self@.denom.push(other), self@.constant, r),
    {
        let mut numer: Vec<Base> = Vec::new();
        push_bases(&mut numer, &self.numer);
        let mut denom: Vec<Base> = Vec::new();
        push_bases(&mut denom, &self.denom);
        denom.push(other);
        assert(numer@ =~= self.numer@);
        assert(denom@ =~= self.denom@.push(other));
        Unit::compose(numer, denom, self.constant)
    }

    /// Returns a unit with the same base units as this one, but with all of the
    /// exponents multiplied by -1, and with the inverse of its constant.
    ///
    /// # Errors
    ///
    /// Returns an error if the unit is an absolute scale. Inversion of these
    /// units is nonsensical.
    pub fn inverse<F: Fn(Op, Float, Float) -> Float>(&self, fpu: &F) -> (r: Result<Unit, Error>)
        requires
            total(fpu),
        ensures
            self@.is_absolute() ==> unit_result(r) == Err::<UnitView, ErrorView>(
                ErrorView::UninvertableUnits(self@),
            ),
            !self@.is_absolute() ==> built_by(
                fpu,
                self@.denom,
                self@.numer,
                (Op::Div, Float { bits: ONE_BITS }, self@.constant),
                r,
            ),
    {
        if self.numer.len() > 0 && self.numer[0].offset() {
            return Err(Error::UninvertableUnits(Box::new(self.duplicate())));
        }
        let mut numer: Vec<Base> = Vec::new();
        push_bases(&mut numer, &self.denom);
        let mut denom: Vec<Base> = Vec::new();
        push_bases(&mut denom, &self.numer);
        assert(numer@ =~= self.denom@);
        assert(denom@ =~= self.numer@);
        let constant = apply(fpu, Op::Div, Float { bits: ONE_BITS }, self.constant, false);
        Unit::compose(numer, denom, constant)
    }

    /// Determines whether a quantity in this unit can be converted to another unit.
    pub fn is_commensurable_with(&self, other: &Unit) -> (r: bool)
        ensures
            r == commensurable(self@, other@),
    {
        // If number of occurrences of each physical quantity in the numerators
        // differs, then the units are incommensurable; likewise for the
        // denominators.
        if !(physq_counts_match(&self.numer, &other.numer) && physq_counts_match(
            &self.denom,
            &other.denom,
        )) {
            return false;
        }
        // A unit with an absolute scale consists solely of that scale, in the
        // numerator. If that isn't the case with these units, there's nothing
        // left to check.

        if !(self.numer.len() == 1 && self.denom.len() == 0) {
            return true;
        }
        proof {
            lemma_counts_match_single(self.numer@, other.numer@);
        }
        let a: Base = self.numer[0];
        let b: Base = other.numer[0];
        // Conversion to or from a scale that starts at the SI zero is always
        // allowed. Otherwise both units must have a zero, or both units must
        // not have a zero.
        a.zero_based() || b.zero_based() || (a.zero.is_some() == b.zero.is_some())
    }

    /// Converts a number in this unit to another unit.
    ///
    /// # Errors
    ///
    /// Returns an error if `self` can't be converted to `other`.
    pub fn convert<F: Fn(Op, Float, Float) -> Float>(&self, num: Float, other: &Unit, fpu: &F) -> (r:
        Result<Float, Error>)
        requires
            total(fpu),
        ensures
            match r {
                Ok(out) => commensurable(self@, other@) && evaluates_to(
                    fpu,
                    num,
                    convert_steps(self@, other@),
                    out,
                ),
                Err(e) => !commensurable(self@, other@) && e@ == ErrorView::IncommensurableUnits(
                    Some(self@),
                    Some(other@),
                ),
            },
    {
        if !self.is_commensurable_with(other) {
            return Err(
                Error::IncommensurableUnits(
                    Some(Box::new(self.duplicate())),
                    Some(Box::new(other.duplicate())),
                ),
            );
        }
        let ghost s0 = seq![Step::new(Op::Mul, self.constant)];
        let ghost s1 = pass_steps(self.numer@, Pass::LowerNumer);
        let ghost s2 = pass_steps(self.denom@, Pass::LowerDenom);
        let ghost s3 = pass_steps(other.numer@, Pass::RaiseNumer);
        let ghost s4 = pass_steps(other.denom@, Pass::RaiseDenom);
        let ghost s5 = seq![Step::new(Op::Div, other.constant)];
        let v0 = apply(fpu, Op::Mul, num, self.constant, false);
        // Reduce to SI
        let v1 = apply_pass(fpu, v0, &self.numer, Pass::LowerNumer);
        let v2 = apply_pass(fpu, v1, &self.denom, Pass::LowerDenom);
        // Raise to new unit
        let v3 = apply_pass(fpu, v2, &other.numer, Pass::RaiseNumer);
        let v4 = apply_pass(fpu, v3, &other.denom, Pass::RaiseDenom);
        let v5 = apply(fpu, Op::Div, v4, other.constant, false);
        proof {
            lemma_evaluates_push(fpu, num, Seq::empty(), num, Step::new(Op::Mul, self.constant), v0);
            assert(Seq::<Step>::empty().push(Step::new(Op::Mul, self.constant)) =~= s0);
            lemma_evaluates_concat(fpu, num, s0, v0, s1, v1);
            lemma_evaluates_concat(fpu, num, s0 + s1, v1, s2, v2);
            lemma_evaluates_concat(fpu, num, s0 + s1 + s2, v2, s3, v3);
            lemma_evaluates_concat(fpu, num, s0 + s1 + s2 + s3, v3, s4, v4);
            lemma_evaluates_push(
                fpu,
                num,
                s0 + s1 + s2 + s3 + s4,
                v4,
                Step::new(Op::Div, other.constant),
                v5,
            );
            assert((s0 + s1 + s2 + s3 + s4).push(Step::new(Op::Div, other.constant)) =~= s0 + s1
                + s2 + s3 + s4 + s5);
        }
        Ok(v5)
    }
}

impl Clone for Unit {
    fn clone(&self) -> (r: Unit)
        ensures
            r@ == self@,
    {
        self.duplicate()
    }
}

/// Lists the bases of a slice.
fn copy_slice(s: &[Base]) -> (r: Vec<Base>)
    ensures
        r@ == s@,
{
    let mut r: Vec<Base> = Vec::new();
    let mut i: usize = 0;
    while i < s.len()
        invariant
            i <= s.len(),
            r@ == s@.take(i as int),
        decreases s.len() - i,
    {
        r.push(s[i]);
        assert(s@.take(i + 1) =~= s@.take(i as int).push(s@[i as int]));
        i = i + 1;
    }
    assert(s@.take(s.len() as int) =~= s@);
    r
}

} // verus!
