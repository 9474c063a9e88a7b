//! Unit conversion.

pub mod base;
pub mod catalog;
pub mod display;
pub mod exact;
pub mod laws;
pub mod number;
pub mod unit;

use vstd::prelude::*;

pub use base::{Base, PhysicalQuantity};
pub use number::{Number, NumberView};
pub use unit::{Unit, UnitView};

verus! {

/// Why an operation on units or on numbers with units was refused.
#[derive(Debug, PartialEq)]
pub enum Error {
    /// The two operands measure different things. An operand without a unit
    /// is `None`.
    IncommensurableUnits(Option<Box<Unit>>, Option<Box<Unit>>),
    /// The unit is an absolute temperature scale, which has no inverse.
    UninvertableUnits(Box<Unit>),
    /// The operation would place an absolute temperature scale in a product,
    /// a quotient or a denominator.
    NonzeroZeroPoint(Base),
    ExponentHasUnits,
    ExponentNotAnInteger,
    DegreeHasUnits,
    DegreeNotAnInteger,
    UnitNotDivisible,
}

/// An `Error` with its units seen as their views.
pub enum ErrorView {
    IncommensurableUnits(Option<UnitView>, Option<UnitView>),
    UninvertableUnits(UnitView),
    NonzeroZeroPoint(Base),
    ExponentHasUnits,
    ExponentNotAnInteger,
    DegreeHasUnits,
    DegreeNotAnInteger,
    UnitNotDivisible,
}

/// The view of an optional boxed unit.
pub open spec fn boxed_view(u: Option<Box<Unit>>) -> Option<UnitView> {
    match u {
        Some(b) => Some((*b)@),
        None => None,
    }
}

impl View for Error {
    type V = ErrorView;

    open spec fn view(&self) -> ErrorView {
        match *self {
            Error::IncommensurableUnits(a, b) => ErrorView::IncommensurableUnits(
                boxed_view(a),
                boxed_view(b),
            ),
            Error::UninvertableUnits(u) => ErrorView::UninvertableUnits((*u)@),
            Error::NonzeroZeroPoint(b) => ErrorView::NonzeroZeroPoint(b),
            Error::ExponentHasUnits => ErrorView::ExponentHasUnits,
            Error::ExponentNotAnInteger => ErrorView::ExponentNotAnInteger,
            Error::DegreeHasUnits => ErrorView::DegreeHasUnits,
            Error::DegreeNotAnInteger => ErrorView::DegreeNotAnInteger,
            Error::UnitNotDivisible => ErrorView::UnitNotDivisible,
        }
    }
}

} // verus!
