//! Units of a single physical quantity.

use super::{Error, Unit};
use crate::float::{apply, option_equals, option_ieee_eq, total, Float, Op, ZERO_BITS};
use vstd::prelude::*;
use vstd::std_specs::cmp::PartialEqSpecImpl;

verus! {

/// A physical property measured by a unit.
#[derive(Clone, Copy, Debug, PartialEq, Eq, Structural)]
pub enum PhysicalQuantity {
    Time,
    Length,
    Mass,
    Current,
    Temperature,
    AmountOfSubstance,
    LuminousIntensity,
    Angle,
}

/// The number of different physical quantities.
pub const NUM_PHYSICAL_QUANTITIES: usize = 8;

impl PhysicalQuantity {
    /// The position of the quantity in the list of quantities.
    pub open spec fn ordinal(self) -> int {
        match self {
            PhysicalQuantity::Time => 0,
            PhysicalQuantity::Length => 1,
            PhysicalQuantity::Mass => 2,
            PhysicalQuantity::Current => 3,
            PhysicalQuantity::Temperature => 4,
            PhysicalQuantity::AmountOfSubstance => 5,
            PhysicalQuantity::LuminousIntensity => 6,
            PhysicalQuantity::Angle => 7,
        }
    }

    /// The position of the quantity in the list of quantities.
    pub fn index(&self) -> (r: usize)
        ensures
            r == self.ordinal(),
            r < NUM_PHYSICAL_QUANTITIES,
    {
        match self {
            PhysicalQuantity::Time => 0,
            PhysicalQuantity::Length => 1,
            PhysicalQuantity::Mass => 2,
            PhysicalQuantity::Current => 3,
            PhysicalQuantity::Temperature => 4,
            PhysicalQuantity::AmountOfSubstance => 5,
            PhysicalQuantity::LuminousIntensity => 6,
            PhysicalQuantity::Angle => 7,
        }
    }
}

/// A unit expressed in terms of one and only one physical quantity.
///
/// `Base` is not used by itself to perform unit conversions. Instead, it is
/// used to build `Unit`s, which do perform conversions.
#[derive(Clone, Copy, Debug)]
pub struct Base {
    /// Symbolic representation of the unit, e.g. "m" for meters.
    pub symbol: &'static str,
    /// Physical quantity measured by the unit.
    pub physq: PhysicalQuantity,
    /// Conversion factor to get SI units from this unit. In other words, how
    /// many of the corresponding SI base unit are equal to one of this unit.
    pub factor: Float,
    /// The value in this unit that equals zero in the corresponding SI base
    /// unit: `Some` of zero for a scale that starts where the SI unit starts
    /// (meters, kelvins), `Some` of another value for an absolute scale that
    /// starts elsewhere (-273.15 for temperature Celsius), and `None` for a
    /// scale of differences (degrees Celsius).
    pub zero: Option<Float>,
}

impl Base {
    /// Whether two bases measure the same physical quantity, have the same
    /// factor, and have the same zero point. Symbols do not count.
    pub open spec fn same(self, other: Base) -> bool {
        &&& self.physq == other.physq
        &&& self.factor.ieee_eq(other.factor)
        &&& option_ieee_eq(self.zero, other.zero)
    }

    /// Whether the scale is an absolute one whose zero is not the zero of the
    /// SI unit.
    pub open spec fn has_offset(self) -> bool {
        self.zero matches Some(z) && !z.is_zero()
    }

    /// Whether the scale starts where the SI unit starts.
    pub open spec fn is_zero_based(self) -> bool {
        self.zero matches Some(z) && z.is_zero()
    }

    /// Convenience function for creating a `Base` unit in which zero is equal
    /// to zero in the corresponding SI base unit.
    pub fn new(symbol: &'static str, physq: PhysicalQuantity, factor: Float) -> (r: Base)
        ensures
            r == (Base { symbol, physq, factor, zero: Some(Float { bits: ZERO_BITS }) }),
    {
        Base { symbol, physq, factor, zero: Some(Float { bits: ZERO_BITS }) }
    }

    /// Returns a new `Base` unit identical to this unit except that zero in
    /// the corresponding SI base unit equals `z` in this unit.
    pub fn with_zero(&self, z: Float) -> (r: Base)
        ensures
            r == (Base { zero: Some(z), ..*self }),
    {
        Base { symbol: self.symbol, physq: self.physq, factor: self.factor, zero: Some(z) }
    }

    /// Returns a new `Base` unit identical to this unit except that it
    /// measures differences and so has no zero.
    pub fn without_zero(&self) -> (r: Base)
        ensures
            r == (Base { zero: None, ..*self }),
    {
        Base { symbol: self.symbol, physq: self.physq, factor: self.factor, zero: None }
    }

    /// Tells whether two bases are the same but for their symbols.
    pub fn equals(&self, other: &Base) -> (r: bool)
        ensures
            r == self.same(*other),
    {
        self.physq == other.physq && self.factor.equals(&other.factor) && option_equals(
            &self.zero,
            &other.zero,
        )
    }

    /// Tells whether the scale is an absolute one whose zero is not the zero
    /// of the SI unit.
    pub fn offset(&self) -> (r: bool)
        ensures
            r == self.has_offset(),
    {
        match self.zero {
            Some(z) => !z.zero(),
            None => false,
        }
    }

    /// Tells whether the scale starts where the SI unit starts.
    pub fn zero_based(&self) -> (r: bool)
        ensures
            r == self.is_zero_based(),
    {
        match self.zero {
            Some(z) => z.zero(),
            None => false,
        }
    }

    /// The unit that consists of this base alone.
    pub fn as_unit(&self) -> (r: Unit)
        ensures
            r@ == super::unit::UnitView::of_base(*self),
    {
        Unit::of_base(*self)
    }

    /// Produces a derived unit `self`⋅`other`.
    pub fn mul(&self, other: &Base) -> (r: Result<Unit, Error>)
        ensures
            super::unit::built(seq![*self, *other], seq![], Float { bits: crate::float::ONE_BITS }, r),
    {
        let mut numer: Vec<Base> = Vec::new();
        numer.push(*self);
        numer.push(*other);
        let denom: Vec<Base> = Vec::new();
        assert(numer@ =~= seq![*self, *other]);
        Unit::compose(numer, denom, Float { bits: crate::float::ONE_BITS })
    }

    /// Produces a derived unit `self`⋅`other`⁻¹.
    pub fn div(&self, other: &Base) -> (r: Result<Unit, Error>)
        ensures
            super::unit::built(seq![*self], seq![*other], Float { bits: crate::float::ONE_BITS }, r),
    {
        let mut numer: Vec<Base> = Vec::new();
        numer.push(*self);
        let mut denom: Vec<Base> = Vec::new();
        denom.push(*other);
        assert(numer@ =~= seq![*self]);
        assert(denom@ =~= seq![*other]);
        Unit::compose(numer, denom, Float { bits: crate::float::ONE_BITS })
    }

    /// Produces a derived unit `self`⋅`other`, with the constant of `other`.
    pub fn mul_unit(&self, other: &Unit) -> (r: Result<Unit, Error>)
        ensures
            super::unit::built(seq![*self] + other@.numer, other@.denom, other@.constant, r),
    {
        let mut numer: Vec<Base> = Vec::new();
        numer.push(*self);
        super::unit::push_bases(&mut numer, other.numer());
        let mut denom: Vec<Base> = Vec::new();
        super::unit::push_bases(&mut denom, other.denom());
        assert(numer@ =~= seq![*self] + other@.numer);
        assert(denom@ =~= other@.denom);
        Unit::compose(numer, denom, other.constant())
    }
}

impl Base {
    /// Produces a derived unit `self`⋅`other`⁻¹, with the inverse of the
    /// constant of `other`.
    pub fn div_unit<F: Fn(Op, Float, Float) -> Float>(&self, other: &Unit, fpu: &F) -> (r: Result<
        Unit,
        Error,
    >)
        requires
            total(fpu),
        ensures
            super::unit::built_by(
                fpu,
                seq![*self] + other@.denom,
                other@.numer,
                (Op::Div, Float { bits: crate::float::ONE_BITS }, other@.constant),
                r,
            ),
    {
        let mut numer: Vec<Base> = Vec::new();
        numer.push(*self);
        super::unit::push_bases(&mut numer, other.denom());
        let mut denom: Vec<Base> = Vec::new();
        super::unit::push_bases(&mut denom, other.numer());
        assert(numer@ =~= seq![*self] + other@.denom);
        assert(denom@ =~= other@.numer);
        let constant = apply(
            fpu,
            Op::Div,
            Float { bits: crate::float::ONE_BITS },
            other.constant(),
            false,
        );
        Unit::compose(numer, denom, constant)
    }
}

impl PartialEq for Base {
    fn eq(&self, other: &Base) -> (r: bool) {
        self.equals(other)
    }
}

impl PartialEqSpecImpl for Base {
    open spec fn obeys_eq_spec() -> bool {
        true
    }

    open spec fn eq_spec(&self, other: &Base) -> bool {
        self.same(*other)
    }
}

} // verus!
