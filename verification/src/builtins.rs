//! Built-in functions and constants.

use crate::float::{
    apply, lemma_evaluates_push, total, Float, Op, Step, E_BITS, ONE_BITS, PI_BITS,
    THREE_BITS, TWO_BITS, ZERO_BITS,
};
use crate::integer::{from_bits, signed, to_bits, unsigned, Integer, Representation};
use crate::stack::{self, integers, Item, ItemView, Stack};
use crate::units::base::Base;
use crate::text::same_text;
use crate::units::catalog::{
    all_bases, all_units, base_symbols, kilogram, meter, radian, second, texts, unit_symbols, Catalog,
};
use crate::units::number::{
    div_recipe, follows, mul_recipe, pow_recipe, root_recipe, sum_recipe, Number, NumberView,
    Recipe,
};
use crate::units::unit::{commensurable, compose, convert_steps, Unit, UnitView};
use crate::units;
use vstd::prelude::*;
use vstd::std_specs::convert::FromSpecImpl;

verus! {

/// An error that occurred while executing a builtin.
#[derive(Debug, PartialEq)]
pub enum Error {
    /// A stack error that occurred while executing a builtin.
    Stack(stack::Error),
    /// A units error that occurred while executing a builtin.
    Units(units::Error),
    /// A number was expected to have a unit but was dimensionless.
    MissingUnit,
    /// A number was expected to be dimensionless but had a unit.
    NotDimensionless,
    /// A number was expected to be non-negative but was negative.
    NotNonNegative,
    /// A number was expected to be whole but had a fractional part.
    NotWhole,
}

/// An `Error` with its units seen as their views.
pub enum ErrorView {
    Stack(stack::Error),
    Units(units::ErrorView),
    MissingUnit,
    NotDimensionless,
    NotNonNegative,
    NotWhole,
}

impl View for Error {
    type V = ErrorView;

    open spec fn view(&self) -> ErrorView {
        match *self {
            Error::Stack(e) => ErrorView::Stack(e),
            Error::Units(e) => ErrorView::Units(e@),
            Error::MissingUnit => ErrorView::MissingUnit,
            Error::NotDimensionless => ErrorView::NotDimensionless,
            Error::NotNonNegative => ErrorView::NotNonNegative,
            Error::NotWhole => ErrorView::NotWhole,
        }
    }
}

impl From<stack::Error> for Error {
    fn from(e: stack::Error) -> (r: Error) {
        Error::Stack(e)
    }
}

impl FromSpecImpl<stack::Error> for Error {
    open spec fn obeys_from_spec() -> bool {
        true
    }

    open spec fn from_spec(e: stack::Error) -> Error {
        Error::Stack(e)
    }
}

impl From<units::Error> for Error {
    fn from(e: units::Error) -> (r: Error) {
        Error::Units(e)
    }
}

impl FromSpecImpl<units::Error> for Error {
    open spec fn obeys_from_spec() -> bool {
        true
    }

    open spec fn from_spec(e: units::Error) -> Error {
        Error::Units(e)
    }
}

/// What a builtin owes for one item that it leaves on the stack.
pub enum Owed {
    /// This item.
    Exactly(ItemView),
    /// A number that follows the recipe.
    Following(Recipe),
    /// The unit made of the given bases, with a constant that the arithmetic
    /// unit may produce for the given arguments: as the unit of a number of
    /// the given value, or by itself.
    Built { value: Option<Float>, numer: Seq<Base>, denom: Seq<Base>, args: (Op, Float, Float) },
}

/// Whether `item` is the unit `made`, as the unit of a number of the given
/// value or by itself.
pub open spec fn carries(
    item: ItemView,
    value: Option<Float>,
    made: Result<UnitView, units::ErrorView>,
) -> bool {
    match made {
        Ok(u) => item == (match value {
            Some(v) => ItemView::Float(NumberView { value: v, unit: Some(u) }),
            None => ItemView::Unit(u).settled(),
        }),
        Err(_) => false,
    }
}

/// Whether `item` is the unit made of the given bases, with a constant that
/// the arithmetic unit may produce for the given arguments, as the unit of a
/// number of the given value or by itself.
pub open spec fn made_by<F: Fn(Op, Float, Float) -> Float>(
    fpu: &F,
    item: ItemView,
    value: Option<Float>,
    numer: Seq<Base>,
    denom: Seq<Base>,
    args: (Op, Float, Float),
) -> bool {
    exists|c: Float| #[trigger]
        call_ensures(*fpu, args, c) && carries(item, value, compose(numer, denom, c))
}

impl Owed {
    /// Whether `item` is what is owed.
    pub open spec fn met_by<F: Fn(Op, Float, Float) -> Float>(self, fpu: &F, item: ItemView) -> bool {
        match self {
            Owed::Exactly(v) => item == v,
            Owed::Following(recipe) => item matches ItemView::Float(n) && follows(fpu, recipe, n),
            Owed::Built { value, numer, denom, args } => made_by(
                fpu,
                item,
                value,
                numer,
                denom,
                args,
            ),
        }
    }
}

/// The stack that a builtin leaves: the items in `kept`, and on top of them
/// one item for each entry of `put`.
pub struct Change {
    pub kept: Seq<ItemView>,
    pub put: Seq<Owed>,
}

/// Whether a builtin did what was due: on an error the stack is as it was
/// before; else it holds what the change says.
pub open spec fn performs<F: Fn(Op, Float, Float) -> Float>(
    fpu: &F,
    due: Result<Change, ErrorView>,
    before: Seq<ItemView>,
    after: Seq<ItemView>,
    r: Result<(), Error>,
) -> bool {
    match due {
        Err(e) => r matches Err(f) && f@ == e && after == before,
        Ok(change) => {
            &&& r is Ok
            &&& after.len() == change.kept.len() + change.put.len()
            &&& after.take(change.kept.len() as int) == change.kept
            &&& forall|i: int|
                0 <= i < change.put.len() ==> (#[trigger] change.put[i]).met_by(
                    fpu,
                    after[change.kept.len() + i],
                )
        },
    }
}

/// Transactional atomicity: a builtin that did what was due and returned an
/// error left the stack as it was.
pub proof fn lemma_error_leaves_stack<F: Fn(Op, Float, Float) -> Float>(
    fpu: &F,
    due: Result<Change, ErrorView>,
    before: Seq<ItemView>,
    after: Seq<ItemView>,
    r: Result<(), Error>,
)
    requires
        performs(fpu, due, before, after, r),
        r is Err,
    ensures
        after == before,
        due is Err,
{
}

/// The items that are owed exactly.
pub open spec fn exact(put: Seq<Owed>) -> Seq<ItemView> {
    put.map_values(|o: Owed| o->Exactly_0)
}

/// Whether a builtin that owes nothing to the arithmetic unit did what was
/// due: on an error the stack is as it was before; else it holds the items
/// that the change names.
pub open spec fn done(
    due: Result<Change, ErrorView>,
    before: Seq<ItemView>,
    after: Seq<ItemView>,
    r: Result<(), Error>,
) -> bool {
    match due {
        Err(e) => r matches Err(f) && f@ == e && after == before,
        Ok(change) => {
            &&& r is Ok
            &&& forall|i: int| 0 <= i < change.put.len() ==> (#[trigger] change.put[i]) is Exactly
            &&& after == change.kept + exact(change.put)
        },
    }
}

/// A stack that holds what a change names is done.
pub proof fn lemma_done(due: Result<Change, ErrorView>, before: Seq<ItemView>, after: Seq<ItemView>)
    requires
        due is Ok,
        forall|i: int| 0 <= i < due->Ok_0.put.len() ==> (#[trigger] due->Ok_0.put[i]) is Exactly,
        after =~= due->Ok_0.kept + exact(due->Ok_0.put),
    ensures
        done(due, before, after, Ok(())),
{
}

/// What is done is performed, whatever the arithmetic unit.
pub proof fn lemma_done_performs<F: Fn(Op, Float, Float) -> Float>(
    fpu: &F,
    due: Result<Change, ErrorView>,
    before: Seq<ItemView>,
    after: Seq<ItemView>,
    r: Result<(), Error>,
)
    requires
        done(due, before, after, r),
    ensures
        performs(fpu, due, before, after, r),
{
    match due {
        Ok(change) => {
            assert(after.take(change.kept.len() as int) =~= change.kept);
            assert forall|i: int| 0 <= i < change.put.len() implies (#[trigger] change.put[i]).met_by(
                fpu,
                after[change.kept.len() + i],
            ) by {
                assert(change.put[i] is Exactly);
                assert(after[change.kept.len() + i] == exact(change.put)[i]);
            }
        },
        Err(_) => {},
    }
}

/// The stack without its top `k` items.
pub open spec fn below(before: Seq<ItemView>, k: int) -> Seq<ItemView> {
    before.take(before.len() - k)
}

/// The item `k` places below the top of the stack; the top is at 1.
pub open spec fn at(before: Seq<ItemView>, k: int) -> ItemView {
    before[before.len() - k]
}

/// The change that puts one item in place of the top `k` items.
pub open spec fn one(before: Seq<ItemView>, k: int, owed: Owed) -> Result<Change, ErrorView> {
    Ok(Change { kept: below(before, k), put: seq![owed] })
}

/// The change that puts a number that follows a recipe in place of the top
/// `k` items, or the error for which there is no recipe.
pub open spec fn following(
    before: Seq<ItemView>,
    k: int,
    recipe: Result<Recipe, units::ErrorView>,
) -> Result<Change, ErrorView> {
    match recipe {
        Ok(recipe) => one(before, k, Owed::Following(recipe)),
        Err(e) => Err(ErrorView::Units(e)),
    }
}

/// The change that puts a unit made by the arithmetic unit in place of the
/// top two items, or the error for which the unit cannot be made.
pub open spec fn building(
    before: Seq<ItemView>,
    value: Option<Float>,
    numer: Seq<Base>,
    denom: Seq<Base>,
    args: (Op, Float, Float),
) -> Result<Change, ErrorView> {
    match compose(numer, denom, Float { bits: ONE_BITS }) {
        Ok(_) => one(before, 2, Owed::Built { value, numer, denom, args }),
        Err(e) => Err(ErrorView::Units(e)),
    }
}

/// `( a b -- a+b )` and `( a b -- a-b )`: two numbers are needed. Integers
/// give an integer; otherwise the items are added as numbers with units.
pub open spec fn sum_due(before: Seq<ItemView>, op: Op) -> Result<Change, ErrorView> {
    if before.len() < 2 {
        Err(ErrorView::Stack(stack::Error::Underflow))
    } else {
        match (at(before, 2), at(before, 1)) {
            (ItemView::Integer(x), ItemView::Integer(y)) => one(
                before,
                2,
                Owed::Exactly(
                    ItemView::Integer(
                        if op == Op::Add {
                            x.plus(y)
                        } else {
                            x.minus(y)
                        },
                    ),
                ),
            ),
            (a, b) => if a.is_numeric() && b.is_numeric() {
                following(before, 2, sum_recipe(a.as_number(), b.as_number(), op))
            } else {
                Err(ErrorView::Stack(stack::Error::TypeMismatch))
            },
        }
    }
}

/// `( a b -- a*b )`: two numbers, two units, or a number and a unit are
/// needed. Two units give their product; a number and a unit give the number
/// with its unit multiplied by the unit.
pub open spec fn mul_due(before: Seq<ItemView>) -> Result<Change, ErrorView> {
    if before.len() < 2 {
        Err(ErrorView::Stack(stack::Error::Underflow))
    } else {
        match (at(before, 2), at(before, 1)) {
            (ItemView::Integer(x), ItemView::Integer(y)) => one(
                before,
                2,
                Owed::Exactly(ItemView::Integer(x.times(y))),
            ),
            (ItemView::Unit(a), ItemView::Unit(b)) => building(
                before,
                None,
                a.numer + b.numer,
                a.denom + b.denom,
                (Op::Mul, a.constant, b.constant),
            ),
            (ItemView::Unit(_), _) => Err(ErrorView::Stack(stack::Error::TypeMismatch)),
            (a, ItemView::Unit(b)) => match a.as_number().unit {
                None => one(
                    before,
                    2,
                    Owed::Exactly(
                        ItemView::Float(NumberView { value: a.as_number().value, unit: Some(b) }),
                    ),
                ),
                Some(u) => building(
                    before,
                    Some(a.as_number().value),
                    u.numer + b.numer,
                    u.denom + b.denom,
                    (Op::Mul, u.constant, b.constant),
                ),
            },
            (a, b) => following(before, 2, mul_recipe(a.as_number(), b.as_number())),
        }
    }
}

/// `( a b -- a/b )`: the mirror of `mul_due`. Two integers give a number.
pub open spec fn div_due(before: Seq<ItemView>) -> Result<Change, ErrorView> {
    if before.len() < 2 {
        Err(ErrorView::Stack(stack::Error::Underflow))
    } else {
        match (at(before, 2), at(before, 1)) {
            (ItemView::Unit(a), ItemView::Unit(b)) => building(
                before,
                None,
                a.numer + b.denom,
                a.denom + b.numer,
                (Op::Div, a.constant, b.constant),
            ),
            (ItemView::Unit(_), _) => Err(ErrorView::Stack(stack::Error::TypeMismatch)),
            (a, ItemView::Unit(b)) => match a.as_number().unit {
                None => if b.is_absolute() {
                    Err(ErrorView::Units(units::ErrorView::UninvertableUnits(b)))
                } else {
                    building(
                        before,
                        Some(a.as_number().value),
                        b.denom,
                        b.numer,
                        (Op::Div, Float { bits: ONE_BITS }, b.constant),
                    )
                },
                Some(u) => building(
                    before,
                    Some(a.as_number().value),
                    u.numer + b.denom,
                    u.denom + b.numer,
                    (Op::Div, u.constant, b.constant),
                ),
            },
            (a, b) => following(before, 2, div_recipe(a.as_number(), b.as_number())),
        }
    }
}

/// The change that a builtin on two numbers makes, by the recipe for them.
pub open spec fn pair_due(
    before: Seq<ItemView>,
    recipe: spec_fn(NumberView, NumberView) -> Result<Recipe, units::ErrorView>,
) -> Result<Change, ErrorView> {
    if before.len() < 2 {
        Err(ErrorView::Stack(stack::Error::Underflow))
    } else if !(at(before, 2).is_numeric() && at(before, 1).is_numeric()) {
        Err(ErrorView::Stack(stack::Error::TypeMismatch))
    } else {
        following(before, 2, recipe(at(before, 2).as_number(), at(before, 1).as_number()))
    }
}

/// The change that a builtin on one number makes, by the recipe for it.
pub open spec fn single_due(
    before: Seq<ItemView>,
    recipe: spec_fn(NumberView) -> Result<Recipe, units::ErrorView>,
) -> Result<Change, ErrorView> {
    if before.len() < 1 {
        Err(ErrorView::Stack(stack::Error::Underflow))
    } else if !at(before, 1).is_numeric() {
        Err(ErrorView::Stack(stack::Error::TypeMismatch))
    } else {
        following(before, 1, recipe(at(before, 1).as_number()))
    }
}

/// A dimensionless number.
pub open spec fn plain(bits: u64) -> NumberView {
    NumberView { value: Float { bits }, unit: None }
}

/// `( a b -- a**b )`
pub open spec fn pow_due(before: Seq<ItemView>) -> Result<Change, ErrorView> {
    pair_due(before, |a: NumberView, b: NumberView| pow_recipe(a, b))
}

/// `( a -- e**a )`
pub open spec fn exp_due(before: Seq<ItemView>) -> Result<Change, ErrorView> {
    single_due(before, |a: NumberView| pow_recipe(plain(E_BITS), a))
}

/// `( a -- a**1/2 )`
pub open spec fn sqrt_due(before: Seq<ItemView>) -> Result<Change, ErrorView> {
    single_due(before, |a: NumberView| root_recipe(a, plain(TWO_BITS)))
}

/// `( a -- a**1/3 )`
pub open spec fn cbrt_due(before: Seq<ItemView>) -> Result<Change, ErrorView> {
    single_due(before, |a: NumberView| root_recipe(a, plain(THREE_BITS)))
}

/// `( a b -- a**1/b )`
pub open spec fn root_due(before: Seq<ItemView>) -> Result<Change, ErrorView> {
    pair_due(before, |a: NumberView, b: NumberView| root_recipe(a, b))
}

/// The unit of angles.
pub open spec fn radians() -> UnitView {
    UnitView::of_base(radian())
}

/// `( a -- b )` for a trigonometric function: the number has a unit, which
/// measures an angle; its value in radians is given to the function.
pub open spec fn trig_due(before: Seq<ItemView>, op: Op) -> Result<Change, ErrorView> {
    if before.len() < 1 {
        Err(ErrorView::Stack(stack::Error::Underflow))
    } else if !at(before, 1).is_numeric() {
        Err(ErrorView::Stack(stack::Error::TypeMismatch))
    } else {
        let n = at(before, 1).as_number();
        match n.unit {
            None => Err(ErrorView::MissingUnit),
            Some(u) => if commensurable(u, radians()) {
                one(
                    before,
                    1,
                    Owed::Following(
                        Recipe {
                            start: n.value,
                            steps: convert_steps(u, radians()).push(
                                Step::new(op, Float { bits: ZERO_BITS }),
                            ),
                            unit: None,
                        },
                    ),
                )
            } else {
                Err(
                    ErrorView::Units(
                        units::ErrorView::IncommensurableUnits(Some(u), Some(radians())),
                    ),
                )
            },
        }
    }
}

/// `( a -- b )` for an inverse trigonometric function: the number has no
/// unit; the result is in radians.
pub open spec fn inverse_trig_due(before: Seq<ItemView>, op: Op) -> Result<Change, ErrorView> {
    if before.len() < 1 {
        Err(ErrorView::Stack(stack::Error::Underflow))
    } else if !at(before, 1).is_numeric() {
        Err(ErrorView::Stack(stack::Error::TypeMismatch))
    } else {
        let n = at(before, 1).as_number();
        match n.unit {
            Some(_) => Err(ErrorView::NotDimensionless),
            None => one(
                before,
                1,
                Owed::Following(
                    Recipe {
                        start: n.value,
                        steps: seq![Step::new(op, Float { bits: ZERO_BITS })],
                        unit: Some(radians()),
                    },
                ),
            ),
        }
    }
}

/// `( ... -- )`
pub open spec fn clear_due() -> Result<Change, ErrorView> {
    Ok(Change { kept: Seq::empty(), put: Seq::empty() })
}

/// `( a -- a a )`
pub open spec fn dup_due(before: Seq<ItemView>) -> Result<Change, ErrorView> {
    if before.len() < 1 {
        Err(ErrorView::Stack(stack::Error::Underflow))
    } else {
        Ok(
            Change {
                kept: below(before, 1),
                put: seq![
                    Owed::Exactly(at(before, 1).settled()),
                    Owed::Exactly(at(before, 1).settled()),
                ],
            },
        )
    }
}

/// `( [n u] -- n )`: a number loses its unit; an integer stays as it is.
pub open spec fn drop_due(before: Seq<ItemView>) -> Result<Change, ErrorView> {
    if before.len() < 1 {
        Err(ErrorView::Stack(stack::Error::Underflow))
    } else {
        match at(before, 1) {
            ItemView::Float(x) => one(before, 1, Owed::Exactly(ItemView::plain(x.value))),
            ItemView::Integer(_) => Ok(Change { kept: before, put: Seq::empty() }),
            ItemView::Unit(_) => Err(ErrorView::Stack(stack::Error::TypeMismatch)),
        }
    }
}

/// `( [n u1] u2 -- [n u2] )`: a number with a unit is converted; a number
/// without one is given the unit.
pub open spec fn into_due(before: Seq<ItemView>) -> Result<Change, ErrorView> {
    if before.len() < 2 {
        Err(ErrorView::Stack(stack::Error::Underflow))
    } else {
        match (at(before, 2), at(before, 1)) {
            (ItemView::Unit(_), _) => Err(ErrorView::Stack(stack::Error::TypeMismatch)),
            (a, ItemView::Unit(u)) => {
                let x = a.as_number();
                match x.unit {
                    Some(from) => if commensurable(from, u) {
                        one(
                            before,
                            2,
                            Owed::Following(
                                Recipe {
                                    start: x.value,
                                    steps: convert_steps(from, u),
                                    unit: Some(u),
                                },
                            ),
                        )
                    } else {
                        Err(
                            ErrorView::Units(
                                units::ErrorView::IncommensurableUnits(Some(from), Some(u)),
                            ),
                        )
                    },
                    None => one(
                        before,
                        2,
                        Owed::Exactly(ItemView::Float(NumberView { value: x.value, unit: Some(u) })),
                    ),
                }
            },
            _ => Err(ErrorView::Stack(stack::Error::TypeMismatch)),
        }
    }
}

/// The bitwise functions of two integers.
#[derive(Clone, Copy, Debug, PartialEq, Eq, Structural)]
pub enum Bitwise {
    And,
    Or,
    Xor,
    /// `a & (1 << b)`
    Bset,
    /// `a & !(1 << b)`
    Bclr,
}

/// The number with the one bit at the index `b` set. An index counts modulo
/// the 64 bits of an integer.
pub open spec fn bit(b: i64) -> i64 {
    signed(1u64 << ((unsigned(b) % 64) as u64))
}

/// The value of a bitwise function of two integers.
pub open spec fn bitwise_value(op: Bitwise, a: i64, b: i64) -> i64 {
    match op {
        Bitwise::And => a & b,
        Bitwise::Or => a | b,
        Bitwise::Xor => a ^ b,
        Bitwise::Bset => a & bit(b),
        Bitwise::Bclr => a & !bit(b),
    }
}

/// The two integers on top of the stack, as far as they are integers.
pub open spec fn integer_pair(before: Seq<ItemView>) -> Result<(Integer, Integer), ErrorView> {
    if before.len() < 2 {
        Err(ErrorView::Stack(stack::Error::Underflow))
    } else {
        match integers(at(before, 2), at(before, 1)) {
            Ok(pair) => Ok(pair),
            Err(e) => Err(ErrorView::Stack(e)),
        }
    }
}

/// `( a b -- c )` for a bitwise function of two integers. The result has the
/// representation of `a`. A bit index is not negative.
pub open spec fn bitwise_due(before: Seq<ItemView>, op: Bitwise) -> Result<Change, ErrorView> {
    match integer_pair(before) {
        Err(e) => Err(e),
        Ok((a, b)) => if (op == Bitwise::Bset || op == Bitwise::Bclr) && b.value < 0 {
            Err(ErrorView::NotNonNegative)
        } else {
            one(
                before,
                2,
                Owed::Exactly(
                    ItemView::Integer(
                        Integer { value: bitwise_value(op, a.value, b.value), repr: a.repr },
                    ),
                ),
            )
        },
    }
}

/// `( a b -- a [(a >> b) & 1] )`: the integer stays, and the bit of it at
/// the index `b` is pushed in binary.
pub open spec fn bget_due(before: Seq<ItemView>) -> Result<Change, ErrorView> {
    match integer_pair(before) {
        Err(e) => Err(e),
        Ok((a, b)) => if b.value < 0 {
            Err(ErrorView::NotNonNegative)
        } else {
            Ok(
                Change {
                    kept: below(before, 2),
                    put: seq![
                        Owed::Exactly(ItemView::Integer(a)),
                        Owed::Exactly(
                            ItemView::Integer(
                                Integer {
                                    value: ((unsigned(a.value) as u64 >> ((unsigned(b.value)
                                        % 64) as u64)) & 1) as i64,
                                    repr: Representation::Binary,
                                },
                            ),
                        ),
                    ],
                },
            )
        },
    }
}

/// The integer on top of the stack, as far as it is one.
pub open spec fn integer_top(before: Seq<ItemView>) -> Result<Integer, ErrorView> {
    if before.len() < 1 {
        Err(ErrorView::Stack(stack::Error::Underflow))
    } else {
        match at(before, 1).as_integer() {
            Ok(x) => Ok(x),
            Err(e) => Err(ErrorView::Stack(e)),
        }
    }
}

/// `( a -- ~a )`
pub open spec fn complement_due(before: Seq<ItemView>) -> Result<Change, ErrorView> {
    match integer_top(before) {
        Err(e) => Err(e),
        Ok(x) => one(
            before,
            1,
            Owed::Exactly(ItemView::Integer(Integer { value: !x.value, repr: x.repr })),
        ),
    }
}

/// `( a -- a )` with another representation.
pub open spec fn repr_due(before: Seq<ItemView>, repr: Representation) -> Result<
    Change,
    ErrorView,
> {
    match integer_top(before) {
        Err(e) => Err(e),
        Ok(x) => one(before, 1, Owed::Exactly(ItemView::Integer(Integer { value: x.value, repr }))),
    }
}

/// `( ... a1 ... aN N -- a1 ... aN )`
pub open spec fn keep_due(before: Seq<ItemView>) -> Result<Change, ErrorView> {
    match integer_top(before) {
        Err(e) => Err(e),
        Ok(n) => if n.value < 0 {
            Err(ErrorView::NotNonNegative)
        } else if before.len() - 1 < n.value {
            Err(ErrorView::Stack(stack::Error::Underflow))
        } else {
            Ok(
                Change {
                    kept: below(before, 1).skip(before.len() - 1 - n.value),
                    put: Seq::empty(),
                },
            )
        },
    }
}

/// `( a -- )`
pub open spec fn pop_due(before: Seq<ItemView>) -> Result<Change, ErrorView> {
    if before.len() < 1 {
        Err(ErrorView::Stack(stack::Error::Underflow))
    } else {
        Ok(Change { kept: below(before, 1), put: Seq::empty() })
    }
}

/// `( a b -- b a )`
pub open spec fn swap_due(before: Seq<ItemView>) -> Result<Change, ErrorView> {
    if before.len() < 2 {
        Err(ErrorView::Stack(stack::Error::Underflow))
    } else {
        Ok(
            Change {
                kept: below(before, 2),
                put: seq![
                    Owed::Exactly(at(before, 1).settled()),
                    Owed::Exactly(at(before, 2).settled()),
                ],
            },
        )
    }
}

/// What a word that is a unit does: a dimensionless number or an integer on
/// top of the stack is given the unit; otherwise the unit is pushed.
pub open spec fn unit_due(before: Seq<ItemView>, u: UnitView) -> Result<Change, ErrorView> {
    if before.len() >= 1 && at(before, 1).is_numeric() && at(before, 1).as_number().unit is None {
        one(
            before,
            1,
            Owed::Exactly(
                ItemView::Float(NumberView { value: at(before, 1).as_number().value, unit: Some(u) }),
            ),
        )
    } else {
        Ok(Change { kept: before, put: seq![Owed::Exactly(ItemView::Unit(u).settled())] })
    }
}

/// What a word that is a constant does.
pub open spec fn constant_due(before: Seq<ItemView>, n: NumberView) -> Result<Change, ErrorView> {
    Ok(Change { kept: before, put: seq![Owed::Exactly(ItemView::Float(n))] })
}

/// A builtin that left one item in place of the top `k` items did what is
/// due where the item is what is owed.
pub proof fn lemma_put_one<F: Fn(Op, Float, Float) -> Float>(
    fpu: &F,
    due: Result<Change, ErrorView>,
    before: Seq<ItemView>,
    k: int,
    after: Seq<ItemView>,
)
    requires
        0 <= k <= before.len(),
        due matches Ok(change) && change.kept == below(before, k) && change.put.len() == 1
            && change.put[0].met_by(fpu, after.last()),
        after == below(before, k).push(after.last()),
    ensures
        performs(fpu, due, before, after, Ok(())),
{
    let kept = below(before, k);
    assert(after.take(kept.len() as int) =~= kept);
    assert(after[kept.len() as int + 0] == after.last());
}

/// `( a b -- a+b )` Pops two items, adds them, and pushes the result.
///
/// # Errors
///
/// An error occurs if:
/// - there are fewer than two items on the stack;
/// - the items are not numbers; or,
/// - the items have incommensurable units.
pub fn builtin_add<F: Fn(Op, Float, Float) -> Float>(stack: &mut Stack, fpu: &F) -> (r: Result<
    (),
    Error,
>)
    requires
        total(fpu),
    ensures
        performs(fpu, sum_due(old(stack)@, Op::Add), old(stack)@, final(stack)@, r),
{
    sum(stack, Op::Add, fpu)
}

/// `( a b -- a-b )` Pops two items, subtracts the upper item from the lower
/// item, and pushes the result.
///
/// # Errors
///
/// An error occurs if:
/// - there are fewer than two items on the stack;
/// - the items are not numbers; or,
/// - the items have incommensurable units.
pub fn builtin_sub<F: Fn(Op, Float, Float) -> Float>(stack: &mut Stack, fpu: &F) -> (r: Result<
    (),
    Error,
>)
    requires
        total(fpu),
    ensures
        performs(fpu, sum_due(old(stack)@, Op::Sub), old(stack)@, final(stack)@, r),
{
    sum(stack, Op::Sub, fpu)
}

fn sum<F: Fn(Op, Float, Float) -> Float>(stack: &mut Stack, op: Op, fpu: &F) -> (r: Result<
    (),
    Error,
>)
    requires
        total(fpu),
        op == Op::Add || op == Op::Sub,
    ensures
        performs(fpu, sum_due(old(stack)@, op), old(stack)@, final(stack)@, r),
{
    let ghost before = stack@;
    let mut tx = stack.begin();
    let pair = match tx.popnn() {
        Ok(pair) => pair,
        Err(e) => {
            return Err(Error::Stack(e));
        },
    };
    match pair {
        (Item::Integer(a), Item::Integer(b)) => {
            let c = match op {
                Op::Add => a.add(&b),
                _ => a.sub(&b),
            };
            tx.pushi(c);
            proof {
                let after = tx.items();
                assert(after =~= below(before, 2).push(after.last()));
                lemma_put_one(fpu, sum_due(before, op), before, 2, after);
            }
        },
        (a, b) => {
            let x = as_number(a);
            let y = as_number(b);
            let made = match op {
                Op::Add => x.add(&y, fpu),
                _ => x.sub(&y, fpu),
            };
            match made {
                Ok(n) => {
                    tx.pushf(n);
                    proof {
                        let after = tx.items();
                        assert(after =~= below(before, 2).push(after.last()));
                        lemma_put_one(fpu, sum_due(before, op), before, 2, after);
                    }
                },
                Err(e) => {
                    return Err(Error::Units(e));
                },
            }
        },
    }
    tx.commit();
    Ok(())
}

/// The number that a numeric item stands for.
fn as_number(item: Item) -> (r: Number)
    requires
        item@.is_numeric(),
    ensures
        r@ == item@.as_number(),
{
    match item {
        Item::Float(x) => x,
        Item::Integer(x) => Number::new(Float::from_i64(x.value)),
        Item::Unit(_) => Number::new(Float { bits: ZERO_BITS }),
    }
}

/// `( a b -- a*b )` Pops two items, multiplies them, and pushes the result.
///
/// The following combinations of operands are accepted:
/// - two numbers
/// - two units
/// - `a` is a number and `b` is a unit
///
/// Multiplying two units produces a new derived unit. Multiplying a number by
/// a unit is equivalent to multiplying by one of that unit.
///
/// # Errors
///
/// An error occurs if:
/// - there are fewer than two items on the stack;
/// - the items are not two numbers;
/// - the items are not two units; or,
/// - the items are not a number `a` and a unit `b`.
/// - the operation would result in a nonsensical temperature unit.
pub fn builtin_mul<F: Fn(Op, Float, Float) -> Float>(stack: &mut Stack, fpu: &F) -> (r: Result<
    (),
    Error,
>)
    requires
        total(fpu),
    ensures
        performs(fpu, mul_due(old(stack)@), old(stack)@, final(stack)@, r),
{
    let ghost before = stack@;
    let mut tx = stack.begin();
    let pair = match tx.pop2() {
        Ok(pair) => pair,
        Err(e) => {
            return Err(Error::Stack(e));
        },
    };
    match pair {
        (Item::Integer(a), Item::Integer(b)) => {
            tx.pushi(a.mul(&b));
            proof {
                let after = tx.items();
                assert(after =~= below(before, 2).push(after.last()));
                lemma_put_one(fpu, mul_due(before), before, 2, after);
            }
        },
        (Item::Unit(a), Item::Unit(b)) => match a.multiply(&b, fpu) {
            Ok(u) => {
                tx.pushu(u);
                proof {
                    let after = tx.items();
                    assert(after =~= below(before, 2).push(after.last()));
                    assert(compose(a@.numer + b@.numer, a@.denom + b@.denom, Float { bits: ONE_BITS }) is Ok);
                    assert(call_ensures(*fpu, (Op::Mul, a@.constant, b@.constant), u@.constant));
                    lemma_put_one(fpu, mul_due(before), before, 2, after);
                }
            },
            Err(e) => {
                return Err(Error::Units(e));
            },
        },
        (Item::Unit(_), _) => {
            return Err(Error::Stack(stack::Error::TypeMismatch));
        },
        (a, Item::Unit(b)) => match as_number(a).mul_unit(&b, fpu) {
            Ok(n) => {
                tx.pushf(n);
                proof {
                    let after = tx.items();
                    assert(after =~= below(before, 2).push(after.last()));
                    let x = at(before, 2).as_number();
                    if x.unit is Some {
                        let v = x.unit->Some_0;
                        let made = n.unit->Some_0;
                        assert(compose(v.numer + b@.numer, v.denom + b@.denom, Float { bits: ONE_BITS })
                            is Ok);
                        assert(call_ensures(*fpu, (Op::Mul, v.constant, b@.constant), made@.constant));
                    }
                    lemma_put_one(fpu, mul_due(before), before, 2, after);
                }
            },
            Err(e) => {
                return Err(Error::Units(e));
            },
        },
        (a, b) => match as_number(a).mul(&as_number(b), fpu) {
            Ok(n) => {
                tx.pushf(n);
                proof {
                    let after = tx.items();
                    assert(after =~= below(before, 2).push(after.last()));
                    lemma_put_one(fpu, mul_due(before), before, 2, after);
                }
            },
            Err(e) => {
                return Err(Error::Units(e));
            },
        },
    }
    tx.commit();
    Ok(())
}

/// `( a b -- a/b )` Pops two items, divides them, and pushes the result.
///
/// The following combinations of operands are accepted:
/// - two numbers
/// - two units
/// - `a` is a number and `b` is a unit
///
/// Dividing two units produces a new derived unit. Dividing a number by a unit
/// is equivalent to multiplying the number by the unit's inverse.
///
/// # Errors
///
/// An error occurs if:
/// - there are fewer than two items on the stack;
/// - the items are not two numbers;
/// - the items are not two units;
/// - the items are not a number `a` and a unit `b`;
/// - the operation would result in a nonsensical temperature unit.
pub fn builtin_div<F: Fn(Op, Float, Float) -> Float>(stack: &mut Stack, fpu: &F) -> (r: Result<
    (),
    Error,
>)
    requires
        total(fpu),
    ensures
        performs(fpu, div_due(old(stack)@), old(stack)@, final(stack)@, r),
{
    let ghost before = stack@;
    let mut tx = stack.begin();
    let pair = match tx.pop2() {
        Ok(pair) => pair,
        Err(e) => {
            return Err(Error::Stack(e));
        },
    };
    match pair {
        (Item::Unit(a), Item::Unit(b)) => match a.divide(&b, fpu) {
            Ok(u) => {
                tx.pushu(u);
                proof {
                    let after = tx.items();
                    assert(after =~= below(before, 2).push(after.last()));
                    assert(compose(a@.numer + b@.denom, a@.denom + b@.numer, Float { bits: ONE_BITS }) is Ok);
                    assert(call_ensures(*fpu, (Op::Div, a@.constant, b@.constant), u@.constant));
                    lemma_put_one(fpu, div_due(before), before, 2, after);
                }
            },
            Err(e) => {
                return Err(Error::Units(e));
            },
        },
        (Item::Unit(_), _) => {
            return Err(Error::Stack(stack::Error::TypeMismatch));
        },
        (a, Item::Unit(b)) => match as_number(a).div_unit(&b, fpu) {
            Ok(n) => {
                tx.pushf(n);
                proof {
                    let after = tx.items();
                    assert(after =~= below(before, 2).push(after.last()));
                    let x = at(before, 2).as_number();
                    let made = n.unit->Some_0;
                    if x.unit is Some {
                        let v = x.unit->Some_0;
                        assert(compose(v.numer + b@.denom, v.denom + b@.numer, Float { bits: ONE_BITS })
                            is Ok);
                        assert(call_ensures(*fpu, (Op::Div, v.constant, b@.constant), made@.constant));
                    } else {
                        assert(compose(b@.denom, b@.numer, Float { bits: ONE_BITS }) is Ok);
                        assert(call_ensures(
                            *fpu,
                            (Op::Div, Float { bits: ONE_BITS }, b@.constant),
                            made@.constant,
                        ));
                    }
                    lemma_put_one(fpu, div_due(before), before, 2, after);
                }
            },
            Err(e) => {
                return Err(Error::Units(e));
            },
        },
        (a, b) => match as_number(a).div(&as_number(b), fpu) {
            Ok(n) => {
                tx.pushf(n);
                proof {
                    let after = tx.items();
                    assert(after =~= below(before, 2).push(after.last()));
                    lemma_put_one(fpu, div_due(before), before, 2, after);
                }
            },
            Err(e) => {
                return Err(Error::Units(e));
            },
        },
    }
    tx.commit();
    Ok(())
}

/// `( a b -- a**b )` Raises `a` to the power of `b`.
///
/// The following combinations of operands are accepted:
/// - two dimensionless numbers
/// - `a` is a number with units and `b` is a dimensionless integer
///
/// Raising a number with units to a large power is not recommended.
///
/// # Errors
///
/// Returns an error if:
/// - there are fewer than two items on the stack;
/// - the operation would result in a nonsensical temperature unit; or,
/// - the items are not one of the accepted combinations described above.
pub fn builtin_pow<F: Fn(Op, Float, Float) -> Float>(stack: &mut Stack, fpu: &F) -> (r: Result<
    (),
    Error,
>)
    requires
        total(fpu),
    ensures
        performs(fpu, pow_due(old(stack)@), old(stack)@, final(stack)@, r),
{
    let ghost before = stack@;
    let mut tx = stack.begin();
    let pair = match tx.pop_as_ff() {
        Ok(pair) => pair,
        Err(e) => {
            return Err(Error::Stack(e));
        },
    };
    match pair.0.pow(&pair.1, fpu) {
        Ok(n) => {
            tx.pushf(n);
            proof {
                let after = tx.items();
                assert(after =~= below(before, 2).push(after.last()));
                lemma_put_one(fpu, pow_due(before), before, 2, after);
            }
        },
        Err(e) => {
            return Err(Error::Units(e));
        },
    }
    tx.commit();
    Ok(())
}

/// `( a -- e**a )` Raises e to the power of `a`.
///
/// # Errors
///
/// Returns an error if:
/// - the stack is empty; or,
/// - the exponent is not dimensionless.
pub fn builtin_exp<F: Fn(Op, Float, Float) -> Float>(stack: &mut Stack, fpu: &F) -> (r: Result<
    (),
    Error,
>)
    requires
        total(fpu),
    ensures
        performs(fpu, exp_due(old(stack)@), old(stack)@, final(stack)@, r),
{
    let ghost before = stack@;
    let mut tx = stack.begin();
    let x = match tx.pop_as_f() {
        Ok(x) => x,
        Err(e) => {
            return Err(Error::Stack(e));
        },
    };
    match Number::new(Float { bits: E_BITS }).pow(&x, fpu) {
        Ok(n) => {
            tx.pushf(n);
            proof {
                let after = tx.items();
                assert(after =~= below(before, 1).push(after.last()));
                lemma_put_one(fpu, exp_due(before), before, 1, after);
            }
        },
        Err(e) => {
            return Err(Error::Units(e));
        },
    }
    tx.commit();
    Ok(())
}

/// `( a -- a**1/2 )` Finds the square root of `a`.
///
/// # Errors
///
/// Returns an error if:
/// - the stack is empty;
/// - `a` has units that don't have an integral square root.
pub fn builtin_sqrt<F: Fn(Op, Float, Float) -> Float>(stack: &mut Stack, fpu: &F) -> (r: Result<
    (),
    Error,
>)
    requires
        total(fpu),
    ensures
        performs(fpu, sqrt_due(old(stack)@), old(stack)@, final(stack)@, r),
{
    let ghost before = stack@;
    let mut tx = stack.begin();
    let a = match tx.pop_as_f() {
        Ok(a) => a,
        Err(e) => {
            return Err(Error::Stack(e));
        },
    };
    match a.root(&Number::new(Float { bits: TWO_BITS }), fpu) {
        Ok(n) => {
            tx.pushf(n);
            proof {
                let after = tx.items();
                assert(after =~= below(before, 1).push(after.last()));
                lemma_put_one(fpu, sqrt_due(before), before, 1, after);
            }
        },
        Err(e) => {
            return Err(Error::Units(e));
        },
    }
    tx.commit();
    Ok(())
}

/// `( a -- a**1/3 )` Finds the cube root of `a`.
///
/// # Errors
///
/// Returns an error if:
/// - the stack is empty;
/// - `a` has units that don't have an integral cube root.
pub fn builtin_cbrt<F: Fn(Op, Float, Float) -> Float>(stack: &mut Stack, fpu: &F) -> (r: Result<
    (),
    Error,
>)
    requires
        total(fpu),
    ensures
        performs(fpu, cbrt_due(old(stack)@), old(stack)@, final(stack)@, r),
{
    let ghost before = stack@;
    let mut tx = stack.begin();
    let a = match tx.pop_as_f() {
        Ok(a) => a,
        Err(e) => {
            return Err(Error::Stack(e));
        },
    };
    match a.root(&Number::new(Float { bits: THREE_BITS }), fpu) {
        Ok(n) => {
            tx.pushf(n);
            proof {
                let after = tx.items();
                assert(after =~= below(before, 1).push(after.last()));
                lemma_put_one(fpu, cbrt_due(before), before, 1, after);
            }
        },
        Err(e) => {
            return Err(Error::Units(e));
        },
    }
    tx.commit();
    Ok(())
}

/// `( a b -- a**1/b )` Finds the `b`th root of `a`.
///
/// # Errors
///
/// Returns an error if:
/// - there are fewer than two items on the stack;
/// - `b` has units;
/// - `a` has units and `b` is not whole; or,
/// - `a` has units that don't have an integral `b`th root.
pub fn builtin_root<F: Fn(Op, Float, Float) -> Float>(stack: &mut Stack, fpu: &F) -> (r: Result<
    (),
    Error,
>)
    requires
        total(fpu),
    ensures
        performs(fpu, root_due(old(stack)@), old(stack)@, final(stack)@, r),
{
    let ghost before = stack@;
    let mut tx = stack.begin();
    let pair = match tx.pop_as_ff() {
        Ok(pair) => pair,
        Err(e) => {
            return Err(Error::Stack(e));
        },
    };
    match pair.0.root(&pair.1, fpu) {
        Ok(n) => {
            tx.pushf(n);
            proof {
                let after = tx.items();
                assert(after =~= below(before, 2).push(after.last()));
                lemma_put_one(fpu, root_due(before), before, 2, after);
            }
        },
        Err(e) => {
            return Err(Error::Units(e));
        },
    }
    tx.commit();
    Ok(())
}

/// `(a -- b)` Computes a trigonometric function: `op` is the sine, the
/// cosine or the tangent.
///
/// # Errors
///
/// Returns an error if:
/// - the stack is empty;
/// - the item on top of the stack is not a number; or,
/// - the number does not have units measuring an angle.
pub fn builtin_trig<F: Fn(Op, Float, Float) -> Float>(stack: &mut Stack, op: Op, fpu: &F) -> (r:
    Result<(), Error>)
    requires
        total(fpu),
    ensures
        performs(fpu, trig_due(old(stack)@, op), old(stack)@, final(stack)@, r),
{
    let ghost before = stack@;
    let mut tx = stack.begin();
    let n = match tx.pop_as_f() {
        Ok(n) => n,
        Err(e) => {
            return Err(Error::Stack(e));
        },
    };
    match &n.unit {
        Some(u) => {
            let rad = radian().as_unit();
            match u.convert(n.value, &rad, fpu) {
                Ok(angle) => {
                    let zero = Float { bits: ZERO_BITS };
                    let value = apply(fpu, op, angle, zero, false);
                    proof {
                        lemma_evaluates_push(
                            fpu,
                            n.value,
                            convert_steps(u@, rad@),
                            angle,
                            Step::new(op, zero),
                            value,
                        );
                    }
                    tx.pushx(value);
                    proof {
                        let after = tx.items();
                        assert(after =~= below(before, 1).push(after.last()));
                        lemma_put_one(fpu, trig_due(before, op), before, 1, after);
                    }
                },
                Err(e) => {
                    return Err(Error::Units(e));
                },
            }
        },
        None => {
            return Err(Error::MissingUnit);
        },
    }
    tx.commit();
    Ok(())
}

/// `(a -- b)` Computes an inverse trigonometric function: `op` is the
/// arcsine, the arccosine or the arctangent.
///
/// # Errors
///
/// Returns an error if:
/// - the stack is empty;
/// - the item on top of the stack is not a number; or,
/// - the number is not dimensionless.
pub fn builtin_inverse_trig<F: Fn(Op, Float, Float) -> Float>(
    stack: &mut Stack,
    op: Op,
    fpu: &F,
) -> (r: Result<(), Error>)
    requires
        total(fpu),
    ensures
        performs(fpu, inverse_trig_due(old(stack)@, op), old(stack)@, final(stack)@, r),
{
    let ghost before = stack@;
    let mut tx = stack.begin();
    let n = match tx.pop_as_f() {
        Ok(n) => n,
        Err(e) => {
            return Err(Error::Stack(e));
        },
    };
    if n.unit.is_none() {
        let zero = Float { bits: ZERO_BITS };
        let value = apply(fpu, op, n.value, zero, false);
        proof {
            lemma_evaluates_push(fpu, n.value, Seq::empty(), n.value, Step::new(op, zero), value);
            assert(Seq::<Step>::empty().push(Step::new(op, zero)) =~= seq![Step::new(op, zero)]);
        }
        tx.pushf(Number::new(value).with_unit(radian().as_unit()));
        proof {
            let after = tx.items();
            assert(after =~= below(before, 1).push(after.last()));
            lemma_put_one(fpu, inverse_trig_due(before, op), before, 1, after);
        }
        tx.commit();
        Ok(())
    } else {
        Err(Error::NotDimensionless)
    }
}

/// `( ... -- )` Pops everything from the stack.
///
/// # Errors
///
/// Never returns an error.
pub fn builtin_clear(stack: &mut Stack) -> (r: Result<(), Error>)
    ensures
        done(clear_due(), old(stack)@, final(stack)@, r),
{
    let ghost before = stack@;
    stack.clear();
    proof {
        lemma_done(clear_due(), before, stack@);
    }
    Ok(())
}

/// `( a -- a a )` Duplicates the item on top of the stack.
///
/// # Errors
///
/// An error occurs if the stack is empty.
pub fn builtin_dup(stack: &mut Stack) -> (r: Result<(), Error>)
    ensures
        done(dup_due(old(stack)@), old(stack)@, final(stack)@, r),
{
    let ghost before = stack@;
    let mut tx = stack.begin();
    let a = match tx.pop() {
        Ok(a) => a,
        Err(e) => {
            return Err(Error::Stack(e));
        },
    };
    tx.push(a.duplicate());
    tx.push(a);
    tx.commit();
    proof {
        lemma_done(dup_due(before), before, tx.stack@);
    }
    Ok(())
}

/// `( [n u] -- n )` Makes a number dimensionless.
///
/// # Errors
///
/// An error occurs if:
/// - the stack is empty; or,
/// - the item on top of the stack is not a number.
pub fn builtin_drop(stack: &mut Stack) -> (r: Result<(), Error>)
    ensures
        done(drop_due(old(stack)@), old(stack)@, final(stack)@, r),
{
    let ghost before = stack@;
    let mut tx = stack.begin();
    let top = match tx.pop() {
        Ok(top) => top,
        Err(e) => {
            return Err(Error::Stack(e));
        },
    };
    match top {
        Item::Float(x) => {
            tx.pushx(x.value);
            tx.commit();
            proof {
                lemma_done(drop_due(before), before, tx.stack@);
            }
            Ok(())
        },
        Item::Integer(_) => {
            proof {
                lemma_done(drop_due(before), before, before);
            }
            Ok(())
        },
        Item::Unit(_) => Err(Error::Stack(stack::Error::TypeMismatch)),
    }
}

/// `( [n u1] u2 -- [n u2] )` Converts a number into different units.
///
/// # Errors
///
/// An error occurs if:
/// - there are fewer than two items on the stack;
/// - the items are not a number and a unit; or,
/// - the number has units that are incommensurable with `u`.
pub fn builtin_into<F: Fn(Op, Float, Float) -> Float>(stack: &mut Stack, fpu: &F) -> (r: Result<
    (),
    Error,
>)
    requires
        total(fpu),
    ensures
        performs(fpu, into_due(old(stack)@), old(stack)@, final(stack)@, r),
{
    let ghost before = stack@;
    let mut tx = stack.begin();
    let pair = match tx.pop_as_fu() {
        Ok(pair) => pair,
        Err(e) => {
            return Err(Error::Stack(e));
        },
    };
    let a = pair.0;
    let u = pair.1;
    match &a.unit {
        Some(from) => match from.convert(a.value, &u, fpu) {
            Ok(b) => {
                tx.pushf(Number::new(b).with_unit(u));
                proof {
                    let after = tx.items();
                    assert(after =~= below(before, 2).push(after.last()));
                    lemma_put_one(fpu, into_due(before), before, 2, after);
                }
            },
            Err(e) => {
                return Err(Error::Units(e));
            },
        },
        None => {
            tx.pushf(a.with_unit(u));
            proof {
                let after = tx.items();
                assert(after =~= below(before, 2).push(after.last()));
                lemma_put_one(fpu, into_due(before), before, 2, after);
            }
        },
    }
    tx.commit();
    Ok(())
}

/// Computes 1 shifted to the left by `b` places modulo 64.
fn bit_at(b: i64) -> (r: i64)
    ensures
        r == bit(b),
{
    let shift: u64 = to_bits(b) % 64;
    from_bits(1u64 << shift)
}

/// `( a b -- c )` Computes a bitwise function of two integers.
///
/// `bset` gives `a & (1<<b)` and `bclr` gives `a & ~(1<<b)`; the least
/// significant bit is index zero.
///
/// # Errors
///
/// An error occurs if:
/// - there are fewer than two items on the stack;
/// - the items are not integers; or,
/// - `b` is a negative bit index.
pub fn builtin_bitwise(stack: &mut Stack, op: Bitwise) -> (r: Result<(), Error>)
    ensures
        done(bitwise_due(old(stack)@, op), old(stack)@, final(stack)@, r),
{
    let ghost before = stack@;
    let mut tx = stack.begin();
    let pair = match tx.pop_as_ii() {
        Ok(pair) => pair,
        Err(e) => {
            return Err(Error::Stack(e));
        },
    };
    let a = pair.0;
    let b = pair.1;
    let value: i64 = match op {
        Bitwise::And => a.value & b.value,
        Bitwise::Or => a.value | b.value,
        Bitwise::Xor => a.value ^ b.value,
        Bitwise::Bset => {
            if b.value < 0 {
                return Err(Error::NotNonNegative);
            }
            a.value & bit_at(b.value)
        },
        Bitwise::Bclr => {
            if b.value < 0 {
                return Err(Error::NotNonNegative);
            }
            a.value & !bit_at(b.value)
        },
    };
    tx.pushi(Integer::new(value, a.repr));
    tx.commit();
    proof {
        lemma_done(bitwise_due(before, op), before, tx.stack@);
    }
    Ok(())
}

/// `( a -- ~a )` Computes the bitwise complement of an integer.
///
/// # Errors
///
/// An error occurs if:
/// - the stack is empty; or,
/// - the item on top of the stack is not an integer.
pub fn builtin_bitwise_complement(stack: &mut Stack) -> (r: Result<(), Error>)
    ensures
        done(complement_due(old(stack)@), old(stack)@, final(stack)@, r),
{
    let ghost before = stack@;
    let mut tx = stack.begin();
    let x = match tx.pop_as_i() {
        Ok(x) => x,
        Err(e) => {
            return Err(Error::Stack(e));
        },
    };
    tx.pushi(Integer::new(!x.value, x.repr));
    tx.commit();
    proof {
        lemma_done(complement_due(before), before, tx.stack@);
    }
    Ok(())
}

/// `( a -- a )` Changes the representation of an integer.
///
/// # Errors
/// An error occurs if:
/// - the stack is empty; or,
/// - the item on top of the stack is not an integer.
pub fn builtin_repr(stack: &mut Stack, repr: Representation) -> (r: Result<(), Error>)
    ensures
        done(repr_due(old(stack)@, repr), old(stack)@, final(stack)@, r),
{
    let ghost before = stack@;
    let mut tx = stack.begin();
    let x = match tx.pop_as_i() {
        Ok(x) => x,
        Err(e) => {
            return Err(Error::Stack(e));
        },
    };
    tx.pushi(x.with_repr(repr));
    tx.commit();
    proof {
        lemma_done(repr_due(before, repr), before, tx.stack@);
    }
    Ok(())
}

/// `( a b -- [a & (1<<b)] )` Sets the bit in `a` at index `b`. The least
/// significant bit is index zero.
///
/// # Errors
///
/// An error occurs if:
/// - there are fewer than two items on the stack;
/// - `a` is not an integer; or,
/// - `b` is not a non-negative integer.
pub fn builtin_bset(stack: &mut Stack) -> (r: Result<(), Error>)
    ensures
        done(bitwise_due(old(stack)@, Bitwise::Bset), old(stack)@, final(stack)@, r),
{
    builtin_bitwise(stack, Bitwise::Bset)
}

/// `( a b -- [a & ~(1<<b)] )` Clears the bit in `a` at index `b`. The least
/// significant bit is index zero.
///
/// # Errors
///
/// An error occurs if:
/// - there are fewer than two items on the stack;
/// - `a` is not an integer; or,
/// - `b` is not a non-negative integer.
pub fn builtin_bclr(stack: &mut Stack) -> (r: Result<(), Error>)
    ensures
        done(bitwise_due(old(stack)@, Bitwise::Bclr), old(stack)@, final(stack)@, r),
{
    builtin_bitwise(stack, Bitwise::Bclr)
}

/// `( a b -- a [(a >> b) & 1] )` Pushes the bit in `a` at index `b`. The least
/// significant bit is index zero.
///
/// # Errors
///
/// An error occurs if:
/// - there are fewer than two items on the stack;
/// - `a` is not an integer; or,
/// - `b` is not a non-negative integer.
pub fn builtin_bget(stack: &mut Stack) -> (r: Result<(), Error>)
    ensures
        done(bget_due(old(stack)@), old(stack)@, final(stack)@, r),
{
    let ghost before = stack@;
    let mut tx = stack.begin();
    let pair = match tx.pop_as_ii() {
        Ok(pair) => pair,
        Err(e) => {
            return Err(Error::Stack(e));
        },
    };
    let a = pair.0;
    let b = pair.1;
    if b.value >= 0 {
        let shift: u64 = to_bits(b.value) % 64;
        let word: u64 = to_bits(a.value);
        let found: u64 = (word >> shift) & 1;
        assert(found <= 1) by (bit_vector)
            requires
                found == (word >> shift) & 1,
        ;
        tx.pushi(a);
        tx.pushi(Integer::bin(found as i64));
        tx.commit();
        proof {
            lemma_done(bget_due(before), before, tx.stack@);
        }
        Ok(())
    } else {
        Err(Error::NotNonNegative)
    }
}

/// `( ... a1 ... aN N -- a1 ... aN )` Removes everything from the stack except
/// the topmost `N` items.
///
/// # Errors
///
/// Returns an error if:
/// - the stack has fewer than N+1 items; or,
/// - the item on top of the stack is not a dimensionless, whole, non-negative
///   number.
pub fn builtin_keep(stack: &mut Stack) -> (r: Result<(), Error>)
    ensures
        done(keep_due(old(stack)@), old(stack)@, final(stack)@, r),
{
    let ghost before = stack@;
    let mut tx = stack.begin();
    let n = match tx.pop_as_i() {
        Ok(n) => n,
        Err(e) => {
            return Err(Error::Stack(e));
        },
    };
    if n.value < 0 {
        return Err(Error::NotNonNegative);
    }
    if n.value as u64 > usize::MAX as u64 {
        return Err(Error::Stack(stack::Error::Underflow));
    }
    match tx.keep(n.value as usize) {
        Ok(_) => {},
        Err(e) => {
            return Err(Error::Stack(e));
        },
    }
    tx.commit();
    proof {
        lemma_done(keep_due(before), before, tx.stack@);
    }
    Ok(())
}

/// `( a -- )` Pops an item off the stack.
///
/// # Errors
///
/// Returns an error if the stack is empty.
pub fn builtin_pop(stack: &mut Stack) -> (r: Result<(), Error>)
    ensures
        done(pop_due(old(stack)@), old(stack)@, final(stack)@, r),
{
    let ghost before = stack@;
    match stack.pop() {
        Ok(_) => {
            proof {
                lemma_done(pop_due(before), before, stack@);
            }
            Ok(())
        },
        Err(_) => Err(Error::Stack(stack::Error::Underflow)),
    }
}

/// `( a b -- b a )` Swaps the top two items on the stack.
///
/// # Errors
///
/// Returns an error if the stack has fewer than two items.
pub fn builtin_swap(stack: &mut Stack) -> (r: Result<(), Error>)
    ensures
        done(swap_due(old(stack)@), old(stack)@, final(stack)@, r),
{
    let ghost before = stack@;
    let mut tx = stack.begin();
    let pair = match tx.pop2() {
        Ok(pair) => pair,
        Err(e) => {
            return Err(Error::Stack(e));
        },
    };
    tx.push(pair.1);
    tx.push(pair.0);
    tx.commit();
    proof {
        lemma_done(swap_due(before), before, tx.stack@);
    }
    Ok(())
}

/// Builtin for words that are units.
///
/// If the item on top of the stack is a dimensionless number, that number is
/// assigned the unit `u`. Otherwise, `u` is pushed onto the stack.
pub fn builtin_unit(u: &Unit, stack: &mut Stack)
    ensures
        done(unit_due(old(stack)@, u@), old(stack)@, final(stack)@, Ok(())),
{
    let ghost before = stack@;
    let mut tx = stack.begin();
    match tx.popn() {
        Ok(Item::Float(x)) => {
            if x.is_dimensionless() {
                tx.pushf(x.with_unit(u.duplicate()));
                tx.commit();
                proof {
                    lemma_done(unit_due(before, u@), before, tx.stack@);
                }
                return ;
            }
        },
        Ok(Item::Integer(x)) => {
            tx.pushf(Number::new(Float::from_i64(x.value)).with_unit(u.duplicate()));
            tx.commit();
            proof {
                lemma_done(unit_due(before, u@), before, tx.stack@);
            }
            return ;
        },
        _ => {},
    }
    stack.pushu(u.duplicate());
    proof {
        lemma_done(unit_due(before, u@), before, stack@);
    }
}

/// What a word does.
#[derive(Debug)]
pub enum Builtin {
    Add,
    Sub,
    Mul,
    Div,
    Pow,
    Exp,
    Sqrt,
    Cbrt,
    Root,
    /// The sine, the cosine or the tangent.
    Trig(Op),
    /// The arcsine, the arccosine or the arctangent.
    InverseTrig(Op),
    Clear,
    Dup,
    Drop,
    Into,
    Bitwise(Bitwise),
    Complement,
    Repr(Representation),
    Bget,
    Keep,
    Pop,
    Swap,
    /// A unit: it is given to the number on top of the stack, or pushed.
    Unit(Unit),
    /// A constant: it is pushed.
    Constant(Number),
}

impl Builtin {
    /// The change that the builtin owes on a stack.
    pub open spec fn due(self, before: Seq<ItemView>) -> Result<Change, ErrorView> {
        match self {
            Builtin::Add => sum_due(before, Op::Add),
            Builtin::Sub => sum_due(before, Op::Sub),
            Builtin::Mul => mul_due(before),
            Builtin::Div => div_due(before),
            Builtin::Pow => pow_due(before),
            Builtin::Exp => exp_due(before),
            Builtin::Sqrt => sqrt_due(before),
            Builtin::Cbrt => cbrt_due(before),
            Builtin::Root => root_due(before),
            Builtin::Trig(op) => trig_due(before, op),
            Builtin::InverseTrig(op) => inverse_trig_due(before, op),
            Builtin::Clear => clear_due(),
            Builtin::Dup => dup_due(before),
            Builtin::Drop => drop_due(before),
            Builtin::Into => into_due(before),
            Builtin::Bitwise(op) => bitwise_due(before, op),
            Builtin::Complement => complement_due(before),
            Builtin::Repr(repr) => repr_due(before, repr),
            Builtin::Bget => bget_due(before),
            Builtin::Keep => keep_due(before),
            Builtin::Pop => pop_due(before),
            Builtin::Swap => swap_due(before),
            Builtin::Unit(u) => unit_due(before, u@),
            Builtin::Constant(n) => constant_due(before, n@),
        }
    }

    /// Runs the builtin on a stack. If it returns an error, the stack is as
    /// it was before.
    pub fn run<F: Fn(Op, Float, Float) -> Float>(&self, stack: &mut Stack, fpu: &F) -> (r: Result<
        (),
        Error,
    >)
        requires
            total(fpu),
        ensures
            performs(fpu, self.due(old(stack)@), old(stack)@, final(stack)@, r),
            r is Err ==> final(stack)@ == old(stack)@,
    {
        let ghost before = stack@;
        match self {
            Builtin::Add => builtin_add(stack, fpu),
            Builtin::Sub => builtin_sub(stack, fpu),
            Builtin::Mul => builtin_mul(stack, fpu),
            Builtin::Div => builtin_div(stack, fpu),
            Builtin::Pow => builtin_pow(stack, fpu),
            Builtin::Exp => builtin_exp(stack, fpu),
            Builtin::Sqrt => builtin_sqrt(stack, fpu),
            Builtin::Cbrt => builtin_cbrt(stack, fpu),
            Builtin::Root => builtin_root(stack, fpu),
            Builtin::Trig(op) => builtin_trig(stack, *op, fpu),
            Builtin::InverseTrig(op) => builtin_inverse_trig(stack, *op, fpu),
            Builtin::Clear => {
                let r = builtin_clear(stack);
                proof {
                    lemma_done_performs(fpu, self.due(before), before, stack@, r);
                }
                r
            },
            Builtin::Dup => {
                let r = builtin_dup(stack);
                proof {
                    lemma_done_performs(fpu, self.due(before), before, stack@, r);
                }
                r
            },
            Builtin::Drop => {
                let r = builtin_drop(stack);
                proof {
                    lemma_done_performs(fpu, self.due(before), before, stack@, r);
                }
                r
            },
            Builtin::Into => builtin_into(stack, fpu),
            Builtin::Bitwise(op) => {
                let r = builtin_bitwise(stack, *op);
                proof {
                    lemma_done_performs(fpu, self.due(before), before, stack@, r);
                }
                r
            },
            Builtin::Complement => {
                let r = builtin_bitwise_complement(stack);
                proof {
                    lemma_done_performs(fpu, self.due(before), before, stack@, r);
                }
                r
            },
            Builtin::Repr(repr) => {
                let r = builtin_repr(stack, *repr);
                proof {
                    lemma_done_performs(fpu, self.due(before), before, stack@, r);
                }
                r
            },
            Builtin::Bget => {
                let r = builtin_bget(stack);
                proof {
                    lemma_done_performs(fpu, self.due(before), before, stack@, r);
                }
                r
            },
            Builtin::Keep => {
                let r = builtin_keep(stack);
                proof {
                    lemma_done_performs(fpu, self.due(before), before, stack@, r);
                }
                r
            },
            Builtin::Pop => {
                let r = builtin_pop(stack);
                proof {
                    lemma_done_performs(fpu, self.due(before), before, stack@, r);
                }
                r
            },
            Builtin::Swap => {
                let r = builtin_swap(stack);
                proof {
                    lemma_done_performs(fpu, self.due(before), before, stack@, r);
                }
                r
            },
            Builtin::Unit(u) => {
                builtin_unit(u, stack);
                proof {
                    lemma_done_performs(fpu, self.due(before), before, stack@, Ok(()));
                }
                Ok(())
            },
            Builtin::Constant(n) => {
                stack.pushf(n.duplicate());
                proof {
                    lemma_done(self.due(before), before, stack@);
                    lemma_done_performs(fpu, self.due(before), before, stack@, Ok(()));
                }
                Ok(())
            },
        }
    }
}

/// The builtin that a word names, as far as it names an operation.
pub open spec fn operation(word: Seq<char>) -> Option<Builtin> {
    if word == "+"@ {
        Some(Builtin::Add)
    } else if word == "-"@ {
        Some(Builtin::Sub)
    } else if word == "*"@ {
        Some(Builtin::Mul)
    } else if word == "/"@ {
        Some(Builtin::Div)
    } else if word == "**"@ {
        Some(Builtin::Pow)
    } else if word == "exp"@ {
        Some(Builtin::Exp)
    } else if word == "sqrt"@ {
        Some(Builtin::Sqrt)
    } else if word == "cbrt"@ {
        Some(Builtin::Cbrt)
    } else if word == "/**"@ {
        Some(Builtin::Root)
    } else if word == "sin"@ {
        Some(Builtin::Trig(Op::Sin))
    } else if word == "cos"@ {
        Some(Builtin::Trig(Op::Cos))
    } else if word == "tan"@ {
        Some(Builtin::Trig(Op::Tan))
    } else if word == "asin"@ {
        Some(Builtin::InverseTrig(Op::Asin))
    } else if word == "acos"@ {
        Some(Builtin::InverseTrig(Op::Acos))
    } else if word == "atan"@ {
        Some(Builtin::InverseTrig(Op::Atan))
    } else if word == "drop"@ {
        Some(Builtin::Drop)
    } else if word == "into"@ {
        Some(Builtin::Into)
    } else if word == "&"@ {
        Some(Builtin::Bitwise(Bitwise::And))
    } else if word == "|"@ {
        Some(Builtin::Bitwise(Bitwise::Or))
    } else if word == "^"@ {
        Some(Builtin::Bitwise(Bitwise::Xor))
    } else if word == "~"@ {
        Some(Builtin::Complement)
    } else if word == "bin"@ {
        Some(Builtin::Repr(Representation::Binary))
    } else if word == "oct"@ {
        Some(Builtin::Repr(Representation::Octal))
    } else if word == "dec"@ {
        Some(Builtin::Repr(Representation::Decimal))
    } else if word == "hex"@ {
        Some(Builtin::Repr(Representation::Hexadecimal))
    } else if word == "bset"@ {
        Some(Builtin::Bitwise(Bitwise::Bset))
    } else if word == "bclr"@ {
        Some(Builtin::Bitwise(Bitwise::Bclr))
    } else if word == "bget"@ {
        Some(Builtin::Bget)
    } else if word == "clear"@ {
        Some(Builtin::Clear)
    } else if word == "dup"@ {
        Some(Builtin::Dup)
    } else if word == "keep"@ {
        Some(Builtin::Keep)
    } else if word == "pop"@ {
        Some(Builtin::Pop)
    } else if word == "swap"@ {
        Some(Builtin::Swap)
    } else {
        None
    }
}

/// The speed of light in vacuum, in meters per second: 299792458.
pub const C_BITS: u64 = 0x41b1_de78_4a00_0000;

/// The Planck constant, in joule seconds: 6.62607015e-34.
pub const H_BITS: u64 = 0x390b_860b_de02_3111;

/// The reduced Planck constant, in joule seconds: 1.054571817e-34.
pub const HBAR_BITS: u64 = 0x38e1_85a7_054e_4c91;

/// The meter per second.
pub open spec fn speed() -> UnitView {
    UnitView {
        symbol: None,
        numer: seq![meter()],
        denom: seq![second()],
        constant: Float { bits: ONE_BITS },
    }
}

/// The joule second.
pub open spec fn action() -> UnitView {
    UnitView {
        symbol: None,
        numer: seq![kilogram(), meter(), meter()],
        denom: seq![second()],
        constant: Float { bits: ONE_BITS },
    }
}

/// The number that a word names, as far as it names a constant.
pub open spec fn constant(word: Seq<char>) -> Option<NumberView> {
    if word == "c"@ {
        Some(NumberView { value: Float { bits: C_BITS }, unit: Some(speed()) })
    } else if word == "e"@ {
        Some(plain(E_BITS))
    } else if word == "h"@ {
        Some(NumberView { value: Float { bits: H_BITS }, unit: Some(action()) })
    } else if word == "hbar"@ {
        Some(NumberView { value: Float { bits: HBAR_BITS }, unit: Some(action()) })
    } else if word == "pi"@ {
        Some(plain(PI_BITS))
    } else {
        None
    }
}

/// Finds the operation that a word names.
fn find_operation(word: &str) -> (r: Option<Builtin>)
    ensures
        r == operation(word@),
{
    if same_text(word, "+") {
        Some(Builtin::Add)
    } else if same_text(word, "-") {
        Some(Builtin::Sub)
    } else if same_text(word, "*") {
        Some(Builtin::Mul)
    } else if same_text(word, "/") {
        Some(Builtin::Div)
    } else if same_text(word, "**") {
        Some(Builtin::Pow)
    } else if same_text(word, "exp") {
        Some(Builtin::Exp)
    } else if same_text(word, "sqrt") {
        Some(Builtin::Sqrt)
    } else if same_text(word, "cbrt") {
        Some(Builtin::Cbrt)
    } else if same_text(word, "/**") {
        Some(Builtin::Root)
    } else if same_text(word, "sin") {
        Some(Builtin::Trig(Op::Sin))
    } else if same_text(word, "cos") {
        Some(Builtin::Trig(Op::Cos))
    } else if same_text(word, "tan") {
        Some(Builtin::Trig(Op::Tan))
    } else if same_text(word, "asin") {
        Some(Builtin::InverseTrig(Op::Asin))
    } else if same_text(word, "acos") {
        Some(Builtin::InverseTrig(Op::Acos))
    } else if same_text(word, "atan") {
        Some(Builtin::InverseTrig(Op::Atan))
    } else if same_text(word, "drop") {
        Some(Builtin::Drop)
    } else if same_text(word, "into") {
        Some(Builtin::Into)
    } else if same_text(word, "&") {
        Some(Builtin::Bitwise(Bitwise::And))
    } else if same_text(word, "|") {
        Some(Builtin::Bitwise(Bitwise::Or))
    } else if same_text(word, "^") {
        Some(Builtin::Bitwise(Bitwise::Xor))
    } else if same_text(word, "~") {
        Some(Builtin::Complement)
    } else if same_text(word, "bin") {
        Some(Builtin::Repr(Representation::Binary))
    } else if same_text(word, "oct") {
        Some(Builtin::Repr(Representation::Octal))
    } else if same_text(word, "dec") {
        Some(Builtin::Repr(Representation::Decimal))
    } else if same_text(word, "hex") {
        Some(Builtin::Repr(Representation::Hexadecimal))
    } else if same_text(word, "bset") {
        Some(Builtin::Bitwise(Bitwise::Bset))
    } else if same_text(word, "bclr") {
        Some(Builtin::Bitwise(Bitwise::Bclr))
    } else if same_text(word, "bget") {
        Some(Builtin::Bget)
    } else if same_text(word, "clear") {
        Some(Builtin::Clear)
    } else if same_text(word, "dup") {
        Some(Builtin::Dup)
    } else if same_text(word, "keep") {
        Some(Builtin::Keep)
    } else if same_text(word, "pop") {
        Some(Builtin::Pop)
    } else if same_text(word, "swap") {
        Some(Builtin::Swap)
    } else {
        None
    }
}

/// Makes the joule second.
fn joule_second() -> (r: Unit)
    ensures
        r@ == action(),
{
    let mut numer: Vec<Base> = Vec::new();
    numer.push(kilogram());
    numer.push(meter());
    numer.push(meter());
    let mut denom: Vec<Base> = Vec::new();
    denom.push(second());
    assert(numer@ =~= seq![kilogram(), meter(), meter()]);
    assert(denom@ =~= seq![second()]);
    Unit::plain(numer, denom, Float { bits: ONE_BITS })
}

/// Finds the constant that a word names.
fn find_constant(word: &str) -> (r: Option<Number>)
    ensures
        match r {
            Some(n) => constant(word@) == Some(n@),
            None => constant(word@) is None,
        },
{
    if same_text(word, "c") {
        let mut numer: Vec<Base> = Vec::new();
        numer.push(meter());
        let mut denom: Vec<Base> = Vec::new();
        denom.push(second());
        assert(numer@ =~= seq![meter()]);
        assert(denom@ =~= seq![second()]);
        let unit = Unit::plain(numer, denom, Float { bits: ONE_BITS });
        Some(Number::new(Float { bits: C_BITS }).with_unit(unit))
    } else if same_text(word, "e") {
        Some(Number::new(Float { bits: E_BITS }))
    } else if same_text(word, "h") {
        Some(Number::new(Float { bits: H_BITS }).with_unit(joule_second()))
    } else if same_text(word, "hbar") {
        Some(Number::new(Float { bits: HBAR_BITS }).with_unit(joule_second()))
    } else if same_text(word, "pi") {
        Some(Number::new(Float { bits: PI_BITS }))
    } else {
        None
    }
}

/// The names of the operations and of the constants.
pub open spec fn words() -> Seq<Seq<char>> {
    seq![
        "+"@,
        "-"@,
        "*"@,
        "/"@,
        "**"@,
        "exp"@,
        "sqrt"@,
        "cbrt"@,
        "/**"@,
        "sin"@,
        "cos"@,
        "tan"@,
        "asin"@,
        "acos"@,
        "atan"@,
        "drop"@,
        "into"@,
        "&"@,
        "|"@,
        "^"@,
        "~"@,
        "bin"@,
        "oct"@,
        "dec"@,
        "hex"@,
        "bset"@,
        "bclr"@,
        "bget"@,
        "clear"@,
        "dup"@,
        "keep"@,
        "pop"@,
        "swap"@,
        "c"@,
        "e"@,
        "h"@,
        "hbar"@,
        "pi"@,
    ]
}

/// A table of builtin function names and their implementations.
pub struct Table {
    catalog: Catalog,
}

/// Returns a table of builtin names and the functions that implement them.
pub fn table() -> (r: Table)
    ensures
        r.catalog().bases() == all_bases(),
        r.catalog().units() == all_units(),
{
    Table { catalog: Catalog::new() }
}

impl Table {
    /// The units that the table knows by name.
    pub closed spec fn catalog(&self) -> Catalog {
        self.catalog
    }

    /// Whether `r` is what the word names: an operation, else a constant,
    /// else a unit of the catalog.
    pub open spec fn names_it(&self, word: Seq<char>, r: Option<Builtin>) -> bool {
        match operation(word) {
            Some(b) => r == Some(b),
            None => match constant(word) {
                Some(n) => r matches Some(Builtin::Constant(x)) && x@ == n,
                None => match r {
                    Some(Builtin::Unit(u)) => self.catalog().finds(word, Some(u)),
                    Some(_) => false,
                    None => self.catalog().finds(word, None),
                },
            },
        }
    }

    /// Finds the builtin that a word names.
    pub fn get(&self, word: &str) -> (r: Option<Builtin>)
        ensures
            self.names_it(word@, r),
    {
        match find_operation(word) {
            Some(b) => Some(b),
            None => match find_constant(word) {
                Some(n) => Some(Builtin::Constant(n)),
                None => match self.catalog.unit(word) {
                    Some(u) => Some(Builtin::Unit(u)),
                    None => None,
                },
            },
        }
    }

    /// Lists the names of all the builtins: the operations, the constants,
    /// then the units.
    pub fn names(&self) -> (r: Vec<String>)
        ensures
            texts(r@) == words() + unit_symbols(self.catalog().units()) + base_symbols(
                self.catalog().bases(),
            ),
    {
        let mut r: Vec<String> = Vec::new();
        r.push("+".to_owned());
        r.push("-".to_owned());
        r.push("*".to_owned());
        r.push("/".to_owned());
        r.push("**".to_owned());
        r.push("exp".to_owned());
        r.push("sqrt".to_owned());
        r.push("cbrt".to_owned());
        r.push("/**".to_owned());
        r.push("sin".to_owned());
        r.push("cos".to_owned());
        r.push("tan".to_owned());
        r.push("asin".to_owned());
        r.push("acos".to_owned());
        r.push("atan".to_owned());
        r.push("drop".to_owned());
        r.push("into".to_owned());
        r.push("&".to_owned());
        r.push("|".to_owned());
        r.push("^".to_owned());
        r.push("~".to_owned());
        r.push("bin".to_owned());
        r.push("oct".to_owned());
        r.push("dec".to_owned());
        r.push("hex".to_owned());
        r.push("bset".to_owned());
        r.push("bclr".to_owned());
        r.push("bget".to_owned());
        r.push("clear".to_owned());
        r.push("dup".to_owned());
        r.push("keep".to_owned());
        r.push("pop".to_owned());
        r.push("swap".to_owned());
        r.push("c".to_owned());
        r.push("e".to_owned());
        r.push("h".to_owned());
        r.push("hbar".to_owned());
        r.push("pi".to_owned());
        assert(texts(r@) =~= words());
        let ghost first = r@;
        let mut symbols = self.catalog.symbols();
        let ghost rest = symbols@;
        r.append(&mut symbols);
        assert(texts(r@) =~= texts(first) + texts(rest));
        r
    }
}

} // verus!
