//! The catalog of units.
//!
//! Values are written as the bit patterns of doubles; the decimal value
//! stands beside each.

use super::base::{Base, PhysicalQuantity};
use super::unit::{valid, Unit, UnitView};
use crate::float::{Float, ONE_BITS};
use crate::text::same_text;
use vstd::prelude::*;

verus! {

/// SI base unit for time. Factor 1.0.
pub open spec fn second_spec() -> Base {
    Base { symbol: "s", physq: PhysicalQuantity::Time, factor: Float { bits: 0x3ff0_0000_0000_0000 }, zero: Some(Float { bits: 0 }) }
}

/// SI base unit for time. Factor 1.0.
#[verifier::when_used_as_spec(second_spec)]
pub fn second() -> (r: Base)
    ensures
        r == second_spec(),
{
    Base::new("s", PhysicalQuantity::Time, Float { bits: 0x3ff0_0000_0000_0000 })
}

/// SI base unit for length. Factor 1.0.
pub open spec fn meter_spec() -> Base {
    Base { symbol: "m", physq: PhysicalQuantity::Length, factor: Float { bits: 0x3ff0_0000_0000_0000 }, zero: Some(Float { bits: 0 }) }
}

/// SI base unit for length. Factor 1.0.
#[verifier::when_used_as_spec(meter_spec)]
pub fn meter() -> (r: Base)
    ensures
        r == meter_spec(),
{
    Base::new("m", PhysicalQuantity::Length, Float { bits: 0x3ff0_0000_0000_0000 })
}

/// SI base unit for mass. Factor 1.0.
pub open spec fn kilogram_spec() -> Base {
    Base { symbol: "kg", physq: PhysicalQuantity::Mass, factor: Float { bits: 0x3ff0_0000_0000_0000 }, zero: Some(Float { bits: 0 }) }
}

/// SI base unit for mass. Factor 1.0.
#[verifier::when_used_as_spec(kilogram_spec)]
pub fn kilogram() -> (r: Base)
    ensures
        r == kilogram_spec(),
{
    Base::new("kg", PhysicalQuantity::Mass, Float { bits: 0x3ff0_0000_0000_0000 })
}

/// SI base unit for electric current. Factor 1.0.
pub open spec fn ampere_spec() -> Base {
    Base { symbol: "A", physq: PhysicalQuantity::Current, factor: Float { bits: 0x3ff0_0000_0000_0000 }, zero: Some(Float { bits: 0 }) }
}

/// SI base unit for electric current. Factor 1.0.
#[verifier::when_used_as_spec(ampere_spec)]
pub fn ampere() -> (r: Base)
    ensures
        r == ampere_spec(),
{
    Base::new("A", PhysicalQuantity::Current, Float { bits: 0x3ff0_0000_0000_0000 })
}

/// SI base unit for thermodynamic temperature. Factor 1.0.
pub open spec fn kelvin_spec() -> Base {
    Base { symbol: "K", physq: PhysicalQuantity::Temperature, factor: Float { bits: 0x3ff0_0000_0000_0000 }, zero: Some(Float { bits: 0 }) }
}

/// SI base unit for thermodynamic temperature. Factor 1.0.
#[verifier::when_used_as_spec(kelvin_spec)]
pub fn kelvin() -> (r: Base)
    ensures
        r == kelvin_spec(),
{
    Base::new("K", PhysicalQuantity::Temperature, Float { bits: 0x3ff0_0000_0000_0000 })
}

/// SI base unit for amount of substance. Factor 1.0.
pub open spec fn mole_spec() -> Base {
    Base { symbol: "mol", physq: PhysicalQuantity::AmountOfSubstance, factor: Float { bits: 0x3ff0_0000_0000_0000 }, zero: Some(Float { bits: 0 }) }
}

/// SI base unit for amount of substance. Factor 1.0.
#[verifier::when_used_as_spec(mole_spec)]
pub fn mole() -> (r: Base)
    ensures
        r == mole_spec(),
{
    Base::new("mol", PhysicalQuantity::AmountOfSubstance, Float { bits: 0x3ff0_0000_0000_0000 })
}

/// SI base unit for luminous intensity. Factor 1.0.
pub open spec fn candela_spec() -> Base {
    Base { symbol: "cd", physq: PhysicalQuantity::LuminousIntensity, factor: Float { bits: 0x3ff0_0000_0000_0000 }, zero: Some(Float { bits: 0 }) }
}

/// SI base unit for luminous intensity. Factor 1.0.
#[verifier::when_used_as_spec(candela_spec)]
pub fn candela() -> (r: Base)
    ensures
        r == candela_spec(),
{
    Base::new("cd", PhysicalQuantity::LuminousIntensity, Float { bits: 0x3ff0_0000_0000_0000 })
}

/// SI unit of angle. Factor 1.0.
pub open spec fn radian_spec() -> Base {
    Base { symbol: "rad", physq: PhysicalQuantity::Angle, factor: Float { bits: 0x3ff0_0000_0000_0000 }, zero: Some(Float { bits: 0 }) }
}

/// SI unit of angle. Factor 1.0.
#[verifier::when_used_as_spec(radian_spec)]
pub fn radian() -> (r: Base)
    ensures
        r == radian_spec(),
{
    Base::new("rad", PhysicalQuantity::Angle, Float { bits: 0x3ff0_0000_0000_0000 })
}

/// Day, 86400 seconds. Factor 86400.0.
pub open spec fn day_spec() -> Base {
    Base { symbol: "day", physq: PhysicalQuantity::Time, factor: Float { bits: 0x40f5_1800_0000_0000 }, zero: Some(Float { bits: 0 }) }
}

/// Day, 86400 seconds. Factor 86400.0.
#[verifier::when_used_as_spec(day_spec)]
pub fn day() -> (r: Base)
    ensures
        r == day_spec(),
{
    Base::new("day", PhysicalQuantity::Time, Float { bits: 0x40f5_1800_0000_0000 })
}

/// Hour, 3600 seconds. Factor 3600.0.
pub open spec fn hour_spec() -> Base {
    Base { symbol: "hr", physq: PhysicalQuantity::Time, factor: Float { bits: 0x40ac_2000_0000_0000 }, zero: Some(Float { bits: 0 }) }
}

/// Hour, 3600 seconds. Factor 3600.0.
#[verifier::when_used_as_spec(hour_spec)]
pub fn hour() -> (r: Base)
    ensures
        r == hour_spec(),
{
    Base::new("hr", PhysicalQuantity::Time, Float { bits: 0x40ac_2000_0000_0000 })
}

/// Minute, 60 seconds. Factor 60.0.
pub open spec fn minute_spec() -> Base {
    Base { symbol: "min", physq: PhysicalQuantity::Time, factor: Float { bits: 0x404e_0000_0000_0000 }, zero: Some(Float { bits: 0 }) }
}

/// Minute, 60 seconds. Factor 60.0.
#[verifier::when_used_as_spec(minute_spec)]
pub fn minute() -> (r: Base)
    ensures
        r == minute_spec(),
{
    Base::new("min", PhysicalQuantity::Time, Float { bits: 0x404e_0000_0000_0000 })
}

/// Inch, a twelfth of a foot. Factor 0.025400000000000002.
pub open spec fn inch_spec() -> Base {
    Base { symbol: "in", physq: PhysicalQuantity::Length, factor: Float { bits: 0x3f9a_0275_2546_0aa7 }, zero: Some(Float { bits: 0 }) }
}

/// Inch, a twelfth of a foot. Factor 0.025400000000000002.
#[verifier::when_used_as_spec(inch_spec)]
pub fn inch() -> (r: Base)
    ensures
        r == inch_spec(),
{
    Base::new("in", PhysicalQuantity::Length, Float { bits: 0x3f9a_0275_2546_0aa7 })
}

/// Foot, 0.3048 meters. Factor 0.3048.
pub open spec fn foot_spec() -> Base {
    Base { symbol: "ft", physq: PhysicalQuantity::Length, factor: Float { bits: 0x3fd3_81d7_dbf4_87fd }, zero: Some(Float { bits: 0 }) }
}

/// Foot, 0.3048 meters. Factor 0.3048.
#[verifier::when_used_as_spec(foot_spec)]
pub fn foot() -> (r: Base)
    ensures
        r == foot_spec(),
{
    Base::new("ft", PhysicalQuantity::Length, Float { bits: 0x3fd3_81d7_dbf4_87fd })
}

/// Mile, 1609.344 meters. Factor 1609.344.
pub open spec fn mile_spec() -> Base {
    Base { symbol: "mi", physq: PhysicalQuantity::Length, factor: Float { bits: 0x4099_2560_4189_374c }, zero: Some(Float { bits: 0 }) }
}

/// Mile, 1609.344 meters. Factor 1609.344.
#[verifier::when_used_as_spec(mile_spec)]
pub fn mile() -> (r: Base)
    ensures
        r == mile_spec(),
{
    Base::new("mi", PhysicalQuantity::Length, Float { bits: 0x4099_2560_4189_374c })
}

/// Nautical mile, 1852 meters. Factor 1852.0.
pub open spec fn nautical_mile_spec() -> Base {
    Base { symbol: "NM", physq: PhysicalQuantity::Length, factor: Float { bits: 0x409c_f000_0000_0000 }, zero: Some(Float { bits: 0 }) }
}

/// Nautical mile, 1852 meters. Factor 1852.0.
#[verifier::when_used_as_spec(nautical_mile_spec)]
pub fn nautical_mile() -> (r: Base)
    ensures
        r == nautical_mile_spec(),
{
    Base::new("NM", PhysicalQuantity::Length, Float { bits: 0x409c_f000_0000_0000 })
}

/// Mil, a thousandth of an inch. Factor 2.5399999999999997e-05.
pub open spec fn mil_spec() -> Base {
    Base { symbol: "mil", physq: PhysicalQuantity::Length, factor: Float { bits: 0x3efa_a242_b587_35e9 }, zero: Some(Float { bits: 0 }) }
}

/// Mil, a thousandth of an inch. Factor 2.5399999999999997e-05.
#[verifier::when_used_as_spec(mil_spec)]
pub fn mil() -> (r: Base)
    ensures
        r == mil_spec(),
{
    Base::new("mil", PhysicalQuantity::Length, Float { bits: 0x3efa_a242_b587_35e9 })
}

/// Yard, three feet. Factor 0.9144000000000001.
pub open spec fn yard_spec() -> Base {
    Base { symbol: "yd", physq: PhysicalQuantity::Length, factor: Float { bits: 0x3fed_42c3_c9ee_cbfc }, zero: Some(Float { bits: 0 }) }
}

/// Yard, three feet. Factor 0.9144000000000001.
#[verifier::when_used_as_spec(yard_spec)]
pub fn yard() -> (r: Base)
    ensures
        r == yard_spec(),
{
    Base::new("yd", PhysicalQuantity::Length, Float { bits: 0x3fed_42c3_c9ee_cbfc })
}

/// Pound, 0.45359237 kilograms. Factor 0.45359237.
pub open spec fn pound_mass_spec() -> Base {
    Base { symbol: "lb", physq: PhysicalQuantity::Mass, factor: Float { bits: 0x3fdd_07a8_4ab7_5e51 }, zero: Some(Float { bits: 0 }) }
}

/// Pound, 0.45359237 kilograms. Factor 0.45359237.
#[verifier::when_used_as_spec(pound_mass_spec)]
pub fn pound_mass() -> (r: Base)
    ensures
        r == pound_mass_spec(),
{
    Base::new("lb", PhysicalQuantity::Mass, Float { bits: 0x3fdd_07a8_4ab7_5e51 })
}

/// Ounce, a sixteenth of a pound. Factor 0.028349523125.
pub open spec fn ounce_spec() -> Base {
    Base { symbol: "oz", physq: PhysicalQuantity::Mass, factor: Float { bits: 0x3f9d_07a8_4ab7_5e51 }, zero: Some(Float { bits: 0 }) }
}

/// Ounce, a sixteenth of a pound. Factor 0.028349523125.
#[verifier::when_used_as_spec(ounce_spec)]
pub fn ounce() -> (r: Base)
    ensures
        r == ounce_spec(),
{
    Base::new("oz", PhysicalQuantity::Mass, Float { bits: 0x3f9d_07a8_4ab7_5e51 })
}

/// Rankine, five ninths of a kelvin, from absolute zero. Factor 0.5555555555555556.
pub open spec fn rankine_spec() -> Base {
    Base { symbol: "R", physq: PhysicalQuantity::Temperature, factor: Float { bits: 0x3fe1_c71c_71c7_1c72 }, zero: Some(Float { bits: 0 }) }
}

/// Rankine, five ninths of a kelvin, from absolute zero. Factor 0.5555555555555556.
#[verifier::when_used_as_spec(rankine_spec)]
pub fn rankine() -> (r: Base)
    ensures
        r == rankine_spec(),
{
    Base::new("R", PhysicalQuantity::Temperature, Float { bits: 0x3fe1_c71c_71c7_1c72 })
}

/// Degree Celsius, a difference of one kelvin. Factor 1.0.
pub open spec fn deg_celsius_spec() -> Base {
    Base { symbol: "degC", physq: PhysicalQuantity::Temperature, factor: Float { bits: 0x3ff0_0000_0000_0000 }, zero: None }
}

/// Degree Celsius, a difference of one kelvin. Factor 1.0.
#[verifier::when_used_as_spec(deg_celsius_spec)]
pub fn deg_celsius() -> (r: Base)
    ensures
        r == deg_celsius_spec(),
{
    Base::new("degC", PhysicalQuantity::Temperature, Float { bits: 0x3ff0_0000_0000_0000 }).without_zero()
}

/// Degree Fahrenheit, a difference of five ninths of a kelvin. Factor 0.5555555555555556.
pub open spec fn deg_fahrenheit_spec() -> Base {
    Base { symbol: "degF", physq: PhysicalQuantity::Temperature, factor: Float { bits: 0x3fe1_c71c_71c7_1c72 }, zero: None }
}

/// Degree Fahrenheit, a difference of five ninths of a kelvin. Factor 0.5555555555555556.
#[verifier::when_used_as_spec(deg_fahrenheit_spec)]
pub fn deg_fahrenheit() -> (r: Base)
    ensures
        r == deg_fahrenheit_spec(),
{
    Base::new("degF", PhysicalQuantity::Temperature, Float { bits: 0x3fe1_c71c_71c7_1c72 }).without_zero()
}

/// Temperature Celsius, whose zero is 273.15 kelvins. Factor 1.0, zero -273.15.
pub open spec fn temp_celsius_spec() -> Base {
    Base { symbol: "tempC", physq: PhysicalQuantity::Temperature, factor: Float { bits: 0x3ff0_0000_0000_0000 }, zero: Some(Float { bits: 0xc071_1266_6666_6666 }) }
}

/// Temperature Celsius, whose zero is 273.15 kelvins. Factor 1.0, zero -273.15.
#[verifier::when_used_as_spec(temp_celsius_spec)]
pub fn temp_celsius() -> (r: Base)
    ensures
        r == temp_celsius_spec(),
{
    Base::new("tempC", PhysicalQuantity::Temperature, Float { bits: 0x3ff0_0000_0000_0000 }).with_zero(Float { bits: 0xc071_1266_6666_6666 })
}

/// Temperature Fahrenheit, whose zero is 459.67 degrees Rankine. Factor 0.5555555555555556, zero -459.67.
pub open spec fn temp_fahrenheit_spec() -> Base {
    Base { symbol: "tempF", physq: PhysicalQuantity::Temperature, factor: Float { bits: 0x3fe1_c71c_71c7_1c72 }, zero: Some(Float { bits: 0xc07c_bab8_51eb_851f }) }
}

/// Temperature Fahrenheit, whose zero is 459.67 degrees Rankine. Factor 0.5555555555555556, zero -459.67.
#[verifier::when_used_as_spec(temp_fahrenheit_spec)]
pub fn temp_fahrenheit() -> (r: Base)
    ensures
        r == temp_fahrenheit_spec(),
{
    Base::new("tempF", PhysicalQuantity::Temperature, Float { bits: 0x3fe1_c71c_71c7_1c72 }).with_zero(Float { bits: 0xc07c_bab8_51eb_851f })
}

/// Degree of arc, a 180th of pi radians. Factor 0.017453292519943295.
pub open spec fn degree_spec() -> Base {
    Base { symbol: "deg", physq: PhysicalQuantity::Angle, factor: Float { bits: 0x3f91_df46_a252_9d39 }, zero: Some(Float { bits: 0 }) }
}

/// Degree of arc, a 180th of pi radians. Factor 0.017453292519943295.
#[verifier::when_used_as_spec(degree_spec)]
pub fn degree() -> (r: Base)
    ensures
        r == degree_spec(),
{
    Base::new("deg", PhysicalQuantity::Angle, Float { bits: 0x3f91_df46_a252_9d39 })
}

/// Centimeter, a hundredth of a meter. Factor 0.01.
pub open spec fn centimeter_spec() -> Base {
    Base { symbol: "cm", physq: PhysicalQuantity::Length, factor: Float { bits: 0x3f84_7ae1_47ae_147b }, zero: Some(Float { bits: 0 }) }
}

/// Centimeter, a hundredth of a meter. Factor 0.01.
#[verifier::when_used_as_spec(centimeter_spec)]
pub fn centimeter() -> (r: Base)
    ensures
        r == centimeter_spec(),
{
    Base::new("cm", PhysicalQuantity::Length, Float { bits: 0x3f84_7ae1_47ae_147b })
}

/// The factors of the prefixes from peta to femto, kilo among them.
pub open spec fn prefix_factor_spec(i: int) -> Float {
    if i == 0 {
        Float { bits: 0x430c_6bf5_2634_0000 }  // peta, 1000000000000000.0
    } else if i == 1 {
        Float { bits: 0x426d_1a94_a200_0000 }  // tera, 1000000000000.0
    } else if i == 2 {
        Float { bits: 0x41cd_cd65_0000_0000 }  // giga, 1000000000.0
    } else if i == 3 {
        Float { bits: 0x412e_8480_0000_0000 }  // mega, 1000000.0
    } else if i == 4 {
        Float { bits: 0x408f_4000_0000_0000 }  // kilo, 1000.0
    } else if i == 5 {
        Float { bits: 0x3f50_624d_d2f1_a9fc }  // milli, 0.001
    } else if i == 6 {
        Float { bits: 0x3eb0_c6f7_a0b5_ed8d }  // micro, 1e-06
    } else if i == 7 {
        Float { bits: 0x3e11_2e0b_e826_d695 }  // nano, 1e-09
    } else if i == 8 {
        Float { bits: 0x3d71_9799_812d_ea11 }  // pico, 1e-12
    } else {
        Float { bits: 0x3cd2_03af_9ee7_5616 }  // femto, 1e-15
    }
}

/// The factors of the prefixes from peta to femto, kilo among them.
pub fn prefix_factor(i: usize) -> (r: Float)
    ensures
        r == prefix_factor_spec(i as int),
{
    if i == 0 {
        Float { bits: 0x430c_6bf5_2634_0000 }
    } else if i == 1 {
        Float { bits: 0x426d_1a94_a200_0000 }
    } else if i == 2 {
        Float { bits: 0x41cd_cd65_0000_0000 }
    } else if i == 3 {
        Float { bits: 0x412e_8480_0000_0000 }
    } else if i == 4 {
        Float { bits: 0x408f_4000_0000_0000 }
    } else if i == 5 {
        Float { bits: 0x3f50_624d_d2f1_a9fc }
    } else if i == 6 {
        Float { bits: 0x3eb0_c6f7_a0b5_ed8d }
    } else if i == 7 {
        Float { bits: 0x3e11_2e0b_e826_d695 }
    } else if i == 8 {
        Float { bits: 0x3d71_9799_812d_ea11 }
    } else {
        Float { bits: 0x3cd2_03af_9ee7_5616 }
    }
}

/// The base units of one quantity with the prefixes from peta to femto:
/// their symbols are given, in the order of the prefixes.
pub open spec fn prefixed(names: Seq<&'static str>, physq: PhysicalQuantity) -> Seq<Base> {
    Seq::new(
        names.len(),
        |i: int|
            Base {
                symbol: names[i],
                physq,
                factor: prefix_factor_spec(i),
                zero: Some(Float { bits: 0 }),
            },
    )
}

/// The multiples of a unit with the prefixes from peta to femto: their
/// symbols are given, in the order of the prefixes.
pub open spec fn multiples(u: UnitView, names: Seq<&'static str>) -> Seq<UnitView> {
    Seq::new(
        names.len(),
        |i: int| UnitView { symbol: Some(names[i]@), constant: prefix_factor_spec(i), ..u },
    )
}

/// The views of units.
pub open spec fn unit_views(units: Seq<Unit>) -> Seq<UnitView> {
    units.map_values(|u: Unit| u@)
}

/// Appends the base units of one quantity with the given symbols.
fn push_prefixed(bases: &mut Vec<Base>, names: &[&'static str], physq: PhysicalQuantity)
    ensures
        final(bases)@ == old(bases)@ + prefixed(names@, physq),
{
    let mut i: usize = 0;
    assert(bases@ =~= old(bases)@ + prefixed(names@, physq).take(0));
    while i < names.len()
        invariant
            i <= names.len(),
            bases@ == old(bases)@ + prefixed(names@, physq).take(i as int),
        decreases names.len() - i,
    {
        bases.push(Base::new(names[i], physq, prefix_factor(i)));
        assert(bases@ =~= old(bases)@ + prefixed(names@, physq).take(i + 1));
        i = i + 1;
    }
    assert(prefixed(names@, physq).take(names.len() as int) =~= prefixed(names@, physq));
}

/// Appends the multiples of a unit with the given symbols.
fn push_multiples(units: &mut Vec<Unit>, u: &Unit, names: &[&'static str])
    ensures
        unit_views(final(units)@) == unit_views(old(units)@) + multiples(u@, names@),
{
    let mut i: usize = 0;
    assert(unit_views(units@) =~= unit_views(old(units)@) + multiples(u@, names@).take(0));
    while i < names.len()
        invariant
            i <= names.len(),
            unit_views(units@) == unit_views(old(units)@) + multiples(u@, names@).take(i as int),
        decreases names.len() - i,
    {
        let ghost before = units@;
        let multiple = u.with_constant(prefix_factor(i)).with_symbol(names[i]);
        assert(multiple@ == multiples(u@, names@)[i as int]);
        units.push(multiple);
        assert(unit_views(units@) =~= unit_views(before).push(multiple@));
        assert(unit_views(units@) =~= unit_views(old(units)@) + multiples(u@, names@).take(i + 1));
        i = i + 1;
    }
    assert(multiples(u@, names@).take(names.len() as int) =~= multiples(u@, names@));
}

/// Makes a named unit of the given bases.
fn derived(symbol: &str, numer: &[Base], denom: &[Base], constant: Float) -> (r: Unit)
    requires
        valid(UnitView { symbol: None, numer: numer@, denom: denom@, constant }),
    ensures
        r@ == (UnitView { symbol: Some(symbol@), numer: numer@, denom: denom@, constant }),
{
    let mut n: Vec<Base> = Vec::new();
    let mut i: usize = 0;
    while i < numer.len()
        invariant
            i <= numer.len(),
            n@ == numer@.take(i as int),
        decreases numer.len() - i,
    {
        n.push(numer[i]);
        assert(numer@.take(i + 1) =~= numer@.take(i as int).push(numer@[i as int]));
        i = i + 1;
    }
    assert(numer@.take(numer.len() as int) =~= numer@);
    let mut d: Vec<Base> = Vec::new();
    let mut j: usize = 0;
    while j < denom.len()
        invariant
            j <= denom.len(),
            d@ == denom@.take(j as int),
        decreases denom.len() - j,
    {
        d.push(denom[j]);
        assert(denom@.take(j + 1) =~= denom@.take(j as int).push(denom@[j as int]));
        j = j + 1;
    }
    assert(denom@.take(denom.len() as int) =~= denom@);
    Unit::named(symbol, n, d, constant)
}

/// Joule, the unit of energy.
pub open spec fn joule_spec() -> UnitView {
    UnitView {
        symbol: Some("J"@),
        numer: seq![kilogram(), meter(), meter()],
        denom: seq![second(), second()],
        constant: Float { bits: ONE_BITS },
    }
}

/// Joule, the unit of energy.
pub fn joule() -> (r: Unit)
    ensures
        r@ == joule_spec(),
{
    let numer = [kilogram(), meter(), meter()];
    let denom = [second(), second()];
    assert(numer@ =~= seq![kilogram(), meter(), meter()]);
    assert(denom@ =~= seq![second(), second()]);
    derived("J", &numer, &denom, Float { bits: ONE_BITS })
}

/// Newton, the unit of force.
pub open spec fn newton_spec() -> UnitView {
    UnitView {
        symbol: Some("N"@),
        numer: seq![kilogram(), meter()],
        denom: seq![second(), second()],
        constant: Float { bits: ONE_BITS },
    }
}

/// Newton, the unit of force.
pub fn newton() -> (r: Unit)
    ensures
        r@ == newton_spec(),
{
    let numer = [kilogram(), meter()];
    let denom = [second(), second()];
    assert(numer@ =~= seq![kilogram(), meter()]);
    assert(denom@ =~= seq![second(), second()]);
    derived("N", &numer, &denom, Float { bits: ONE_BITS })
}

/// Watt, the unit of power.
pub open spec fn watt_spec() -> UnitView {
    UnitView {
        symbol: Some("W"@),
        numer: seq![kilogram(), meter(), meter()],
        denom: seq![second(), second(), second()],
        constant: Float { bits: ONE_BITS },
    }
}

/// Watt, the unit of power.
pub fn watt() -> (r: Unit)
    ensures
        r@ == watt_spec(),
{
    let numer = [kilogram(), meter(), meter()];
    let denom = [second(), second(), second()];
    assert(numer@ =~= seq![kilogram(), meter(), meter()]);
    assert(denom@ =~= seq![second(), second(), second()]);
    derived("W", &numer, &denom, Float { bits: ONE_BITS })
}

/// Pascal, the unit of pressure.
pub open spec fn pascal_spec() -> UnitView {
    UnitView {
        symbol: Some("Pa"@),
        numer: seq![kilogram()],
        denom: seq![second(), second(), meter()],
        constant: Float { bits: ONE_BITS },
    }
}

/// Pascal, the unit of pressure.
pub fn pascal() -> (r: Unit)
    ensures
        r@ == pascal_spec(),
{
    let numer = [kilogram()];
    let denom = [second(), second(), meter()];
    assert(numer@ =~= seq![kilogram()]);
    assert(denom@ =~= seq![second(), second(), meter()]);
    derived("Pa", &numer, &denom, Float { bits: ONE_BITS })
}

/// Volt, the unit of electric potential.
pub open spec fn volt_spec() -> UnitView {
    UnitView {
        symbol: Some("V"@),
        numer: seq![kilogram(), meter(), meter()],
        denom: seq![second(), second(), second(), ampere()],
        constant: Float { bits: ONE_BITS },
    }
}

/// Volt, the unit of electric potential.
pub fn volt() -> (r: Unit)
    ensures
        r@ == volt_spec(),
{
    let numer = [kilogram(), meter(), meter()];
    let denom = [second(), second(), second(), ampere()];
    assert(numer@ =~= seq![kilogram(), meter(), meter()]);
    assert(denom@ =~= seq![second(), second(), second(), ampere()]);
    derived("V", &numer, &denom, Float { bits: ONE_BITS })
}

/// Ohm, the unit of electric resistance.
pub open spec fn ohm_spec() -> UnitView {
    UnitView {
        symbol: Some("ohm"@),
        numer: seq![kilogram(), meter(), meter()],
        denom: seq![second(), second(), second(), ampere(), ampere()],
        constant: Float { bits: ONE_BITS },
    }
}

/// Ohm, the unit of electric resistance.
pub fn ohm() -> (r: Unit)
    ensures
        r@ == ohm_spec(),
{
    let numer = [kilogram(), meter(), meter()];
    let denom = [second(), second(), second(), ampere(), ampere()];
    assert(numer@ =~= seq![kilogram(), meter(), meter()]);
    assert(denom@ =~= seq![second(), second(), second(), ampere(), ampere()]);
    derived("ohm", &numer, &denom, Float { bits: ONE_BITS })
}

/// Farad, the unit of capacitance.
pub open spec fn farad_spec() -> UnitView {
    UnitView {
        symbol: Some("F"@),
        numer: seq![second(), second(), second(), second(), ampere(), ampere()],
        denom: seq![kilogram(), meter(), meter()],
        constant: Float { bits: ONE_BITS },
    }
}

/// Farad, the unit of capacitance.
pub fn farad() -> (r: Unit)
    ensures
        r@ == farad_spec(),
{
    let numer = [second(), second(), second(), second(), ampere(), ampere()];
    let denom = [kilogram(), meter(), meter()];
    assert(numer@ =~= seq![second(), second(), second(), second(), ampere(), ampere()]);
    assert(denom@ =~= seq![kilogram(), meter(), meter()]);
    derived("F", &numer, &denom, Float { bits: ONE_BITS })
}

/// Tesla, the unit of magnetic flux density.
pub open spec fn tesla_spec() -> UnitView {
    UnitView {
        symbol: Some("T"@),
        numer: seq![kilogram()],
        denom: seq![second(), second(), ampere()],
        constant: Float { bits: ONE_BITS },
    }
}

/// Tesla, the unit of magnetic flux density.
pub fn tesla() -> (r: Unit)
    ensures
        r@ == tesla_spec(),
{
    let numer = [kilogram()];
    let denom = [second(), second(), ampere()];
    assert(numer@ =~= seq![kilogram()]);
    assert(denom@ =~= seq![second(), second(), ampere()]);
    derived("T", &numer, &denom, Float { bits: ONE_BITS })
}

/// Pound-force: a pound under the standard acceleration due to Earth's
/// gravity, 9.80665 meters per second squared.
pub open spec fn pound_force_spec() -> UnitView {
    UnitView {
        symbol: Some("lbf"@),
        numer: seq![pound_mass(), meter()],
        denom: seq![second(), second()],
        constant: Float { bits: 0x4023_9d01_3a92_a305 },
    }
}

/// Pound-force: a pound under the standard acceleration due to Earth's
/// gravity, 9.80665 meters per second squared.
pub fn pound_force() -> (r: Unit)
    ensures
        r@ == pound_force_spec(),
{
    let numer = [pound_mass(), meter()];
    let denom = [second(), second()];
    assert(numer@ =~= seq![pound_mass(), meter()]);
    assert(denom@ =~= seq![second(), second()]);
    derived("lbf", &numer, &denom, Float { bits: 0x4023_9d01_3a92_a305 })
}

/// Pound-force per square inch. One inch cancels against the meter of the
/// pound-force, which leaves the standard acceleration in inches per second
/// squared, 9.80665 / 0.0254 = 386.0885826771653.
pub open spec fn psi_spec() -> UnitView {
    UnitView {
        symbol: Some("psi"@),
        numer: seq![pound_mass()],
        denom: seq![second(), second(), inch()],
        constant: Float { bits: 0x4078_216a_d5ab_56ac },
    }
}

/// Pound-force per square inch. One inch cancels against the meter of the
/// pound-force, which leaves the standard acceleration in inches per second
/// squared, 9.80665 / 0.0254 = 386.0885826771653.
pub fn psi() -> (r: Unit)
    ensures
        r@ == psi_spec(),
{
    let numer = [pound_mass()];
    let denom = [second(), second(), inch()];
    assert(numer@ =~= seq![pound_mass()]);
    assert(denom@ =~= seq![second(), second(), inch()]);
    derived("psi", &numer, &denom, Float { bits: 0x4078_216a_d5ab_56ac })
}

/// The base units of the SI.
pub open spec fn si_bases() -> Seq<Base> {
    seq![second(), meter(), kilogram(), ampere(), kelvin(), mole(), candela(), radian()]
}

/// Further times, lengths, masses, temperatures and angles.
pub open spec fn other_bases() -> Seq<Base> {
    seq![
        day(),
        hour(),
        minute(),
        inch(),
        foot(),
        mile(),
        nautical_mile(),
        mil(),
        yard(),
        pound_mass(),
        ounce(),
        rankine(),
        deg_celsius(),
        deg_fahrenheit(),
        temp_celsius(),
        temp_fahrenheit(),
        degree(),
        centimeter(),
    ]
}

/// The multiples of the gram but the kilogram, which is the base unit of
/// the SI.
pub open spec fn grams() -> Seq<Base> {
    seq![
        Base { symbol: "Pg", physq: PhysicalQuantity::Mass, factor: Float { bits: 0x430c_6bf5_2634_0000 }, zero: Some(Float { bits: 0 }) },  // 1000000000000000.0
        Base { symbol: "Tg", physq: PhysicalQuantity::Mass, factor: Float { bits: 0x426d_1a94_a200_0000 }, zero: Some(Float { bits: 0 }) },  // 1000000000000.0
        Base { symbol: "Gg", physq: PhysicalQuantity::Mass, factor: Float { bits: 0x41cd_cd65_0000_0000 }, zero: Some(Float { bits: 0 }) },  // 1000000000.0
        Base { symbol: "Mg", physq: PhysicalQuantity::Mass, factor: Float { bits: 0x412e_8480_0000_0000 }, zero: Some(Float { bits: 0 }) },  // 1000000.0
        Base { symbol: "mg", physq: PhysicalQuantity::Mass, factor: Float { bits: 0x3f50_624d_d2f1_a9fc }, zero: Some(Float { bits: 0 }) },  // 0.001
        Base { symbol: "ug", physq: PhysicalQuantity::Mass, factor: Float { bits: 0x3eb0_c6f7_a0b5_ed8d }, zero: Some(Float { bits: 0 }) },  // 1e-06
        Base { symbol: "ng", physq: PhysicalQuantity::Mass, factor: Float { bits: 0x3e11_2e0b_e826_d695 }, zero: Some(Float { bits: 0 }) },  // 1e-09
        Base { symbol: "pg", physq: PhysicalQuantity::Mass, factor: Float { bits: 0x3d71_9799_812d_ea11 }, zero: Some(Float { bits: 0 }) },  // 1e-12
        Base { symbol: "fg", physq: PhysicalQuantity::Mass, factor: Float { bits: 0x3cd2_03af_9ee7_5616 }, zero: Some(Float { bits: 0 }) },  // 1e-15
    ]
}

/// The base units of the catalog, in their order.
pub open spec fn all_bases() -> Seq<Base> {
    si_bases() + other_bases()
        + prefixed(seq!["Ps", "Ts", "Gs", "Ms", "ks", "ms", "us", "ns", "ps", "fs"], PhysicalQuantity::Time)
        + prefixed(seq!["Pm", "Tm", "Gm", "Mm", "km", "mm", "um", "nm", "pm", "fm"], PhysicalQuantity::Length)
        + grams()
        + prefixed(seq!["PA", "TA", "GA", "MA", "kA", "mA", "uA", "nA", "pA", "fA"], PhysicalQuantity::Current)
        + prefixed(seq!["PK", "TK", "GK", "MK", "kK", "mK", "uK", "nK", "pK", "fK"], PhysicalQuantity::Temperature)
        + prefixed(seq!["Pmol", "Tmol", "Gmol", "Mmol", "kmol", "mmol", "umol", "nmol", "pmol", "fmol"], PhysicalQuantity::AmountOfSubstance)
        + prefixed(seq!["Pcd", "Tcd", "Gcd", "Mcd", "kcd", "mcd", "ucd", "ncd", "pcd", "fcd"], PhysicalQuantity::LuminousIntensity)
        + prefixed(seq!["Prad", "Trad", "Grad", "Mrad", "krad", "mrad", "urad", "nrad", "prad", "frad"], PhysicalQuantity::Angle)
}

/// The derived units of the catalog, in their order.
pub open spec fn all_units() -> Seq<UnitView> {
    seq![pound_force_spec(), psi_spec()]
        + multiples(joule_spec(), seq!["PJ", "TJ", "GJ", "MJ", "kJ", "mJ", "uJ", "nJ", "pJ", "fJ"])
        + multiples(newton_spec(), seq!["PN", "TN", "GN", "MN", "kN", "mN", "uN", "nN", "pN", "fN"])
        + multiples(watt_spec(), seq!["PW", "TW", "GW", "MW", "kW", "mW", "uW", "nW", "pW", "fW"])
        + multiples(pascal_spec(), seq!["PPa", "TPa", "GPa", "MPa", "kPa", "mPa", "uPa", "nPa", "pPa", "fPa"])
        + multiples(volt_spec(), seq!["PV", "TV", "GV", "MV", "kV", "mV", "uV", "nV", "pV", "fV"])
        + multiples(ohm_spec(), seq!["Pohm", "Tohm", "Gohm", "Mohm", "kohm", "mohm", "uohm", "nohm", "pohm", "fohm"])
        + multiples(farad_spec(), seq!["PF", "TF", "GF", "MF", "kF", "mF", "uF", "nF", "pF", "fF"])
        + multiples(tesla_spec(), seq!["PT", "TT", "GT", "MT", "kT", "mT", "uT", "nT", "pT", "fT"])
        + seq![
        joule_spec(),
        newton_spec(),
        watt_spec(),
        pascal_spec(),
        volt_spec(),
        ohm_spec(),
        farad_spec(),
        tesla_spec(),
    ]
}

/// Appends the further base units.
fn push_other_bases(bases: &mut Vec<Base>)
    ensures
        final(bases)@ == old(bases)@ + other_bases(),
{
    bases.push(day());
    bases.push(hour());
    bases.push(minute());
    bases.push(inch());
    bases.push(foot());
    bases.push(mile());
    bases.push(nautical_mile());
    bases.push(mil());
    bases.push(yard());
    bases.push(pound_mass());
    bases.push(ounce());
    bases.push(rankine());
    bases.push(deg_celsius());
    bases.push(deg_fahrenheit());
    bases.push(temp_celsius());
    bases.push(temp_fahrenheit());
    bases.push(degree());
    bases.push(centimeter());
    assert(bases@ =~= old(bases)@ + other_bases());
}

/// Appends the multiples of the gram.
fn push_grams(bases: &mut Vec<Base>)
    ensures
        final(bases)@ == old(bases)@ + grams(),
{
    bases.push(Base::new("Pg", PhysicalQuantity::Mass, Float { bits: 0x430c_6bf5_2634_0000 }));
    bases.push(Base::new("Tg", PhysicalQuantity::Mass, Float { bits: 0x426d_1a94_a200_0000 }));
    bases.push(Base::new("Gg", PhysicalQuantity::Mass, Float { bits: 0x41cd_cd65_0000_0000 }));
    bases.push(Base::new("Mg", PhysicalQuantity::Mass, Float { bits: 0x412e_8480_0000_0000 }));
    bases.push(Base::new("mg", PhysicalQuantity::Mass, Float { bits: 0x3f50_624d_d2f1_a9fc }));
    bases.push(Base::new("ug", PhysicalQuantity::Mass, Float { bits: 0x3eb0_c6f7_a0b5_ed8d }));
    bases.push(Base::new("ng", PhysicalQuantity::Mass, Float { bits: 0x3e11_2e0b_e826_d695 }));
    bases.push(Base::new("pg", PhysicalQuantity::Mass, Float { bits: 0x3d71_9799_812d_ea11 }));
    bases.push(Base::new("fg", PhysicalQuantity::Mass, Float { bits: 0x3cd2_03af_9ee7_5616 }));
    assert(bases@ =~= old(bases)@ + grams());
}

/// The units that are known by name.
pub struct Catalog {
    bases: Vec<Base>,
    units: Vec<Unit>,
}

/// Whether every unit has a symbol.
pub open spec fn all_named(units: Seq<UnitView>) -> bool {
    forall|i: int| 0 <= i < units.len() ==> (#[trigger] units[i]).symbol is Some
}

/// Every derived unit of the catalog has a symbol.
pub proof fn lemma_all_units_named()
    ensures
        all_named(all_units()),
{
}

impl Catalog {
    /// The base units of the catalog.
    pub closed spec fn bases(&self) -> Seq<Base> {
        self.bases@
    }

    /// The derived units of the catalog.
    pub closed spec fn units(&self) -> Seq<UnitView> {
        unit_views(self.units@)
    }

    /// Makes the catalog.
    pub fn new() -> (r: Catalog)
        ensures
            r.bases() == all_bases(),
            r.units() == all_units(),
    {
        let mut bases: Vec<Base> = Vec::new();
        bases.push(second());
        bases.push(meter());
        bases.push(kilogram());
        bases.push(ampere());
        bases.push(kelvin());
        bases.push(mole());
        bases.push(candela());
        bases.push(radian());
        assert(bases@ =~= si_bases());
        push_other_bases(&mut bases);
        let names = ["Ps", "Ts", "Gs", "Ms", "ks", "ms", "us", "ns", "ps", "fs"];
        assert(names@ =~= seq!["Ps", "Ts", "Gs", "Ms", "ks", "ms", "us", "ns", "ps", "fs"]);
        push_prefixed(&mut bases, &names, PhysicalQuantity::Time);
        let names = ["Pm", "Tm", "Gm", "Mm", "km", "mm", "um", "nm", "pm", "fm"];
        assert(names@ =~= seq!["Pm", "Tm", "Gm", "Mm", "km", "mm", "um", "nm", "pm", "fm"]);
        push_prefixed(&mut bases, &names, PhysicalQuantity::Length);
        push_grams(&mut bases);
        let names = ["PA", "TA", "GA", "MA", "kA", "mA", "uA", "nA", "pA", "fA"];
        assert(names@ =~= seq!["PA", "TA", "GA", "MA", "kA", "mA", "uA", "nA", "pA", "fA"]);
        push_prefixed(&mut bases, &names, PhysicalQuantity::Current);
        let names = ["PK", "TK", "GK", "MK", "kK", "mK", "uK", "nK", "pK", "fK"];
        assert(names@ =~= seq!["PK", "TK", "GK", "MK", "kK", "mK", "uK", "nK", "pK", "fK"]);
        push_prefixed(&mut bases, &names, PhysicalQuantity::Temperature);
        let names = ["Pmol", "Tmol", "Gmol", "Mmol", "kmol", "mmol", "umol", "nmol", "pmol", "fmol"];
        assert(names@ =~= seq!["Pmol", "Tmol", "Gmol", "Mmol", "kmol", "mmol", "umol", "nmol", "pmol", "fmol"]);
        push_prefixed(&mut bases, &names, PhysicalQuantity::AmountOfSubstance);
        let names = ["Pcd", "Tcd", "Gcd", "Mcd", "kcd", "mcd", "ucd", "ncd", "pcd", "fcd"];
        assert(names@ =~= seq!["Pcd", "Tcd", "Gcd", "Mcd", "kcd", "mcd", "ucd", "ncd", "pcd", "fcd"]);
        push_prefixed(&mut bases, &names, PhysicalQuantity::LuminousIntensity);
        let names = ["Prad", "Trad", "Grad", "Mrad", "krad", "mrad", "urad", "nrad", "prad", "frad"];
        assert(names@ =~= seq!["Prad", "Trad", "Grad", "Mrad", "krad", "mrad", "urad", "nrad", "prad", "frad"]);
        push_prefixed(&mut bases, &names, PhysicalQuantity::Angle);
        let mut units: Vec<Unit> = Vec::new();
        units.push(pound_force());
        units.push(psi());
        assert(unit_views(units@) =~= seq![pound_force_spec(), psi_spec()]);
        let names = ["PJ", "TJ", "GJ", "MJ", "kJ", "mJ", "uJ", "nJ", "pJ", "fJ"];
        assert(names@ =~= seq!["PJ", "TJ", "GJ", "MJ", "kJ", "mJ", "uJ", "nJ", "pJ", "fJ"]);
        push_multiples(&mut units, &joule(), &names);
        let names = ["PN", "TN", "GN", "MN", "kN", "mN", "uN", "nN", "pN", "fN"];
        assert(names@ =~= seq!["PN", "TN", "GN", "MN", "kN", "mN", "uN", "nN", "pN", "fN"]);
        push_multiples(&mut units, &newton(), &names);
        let names = ["PW", "TW", "GW", "MW", "kW", "mW", "uW", "nW", "pW", "fW"];
        assert(names@ =~= seq!["PW", "TW", "GW", "MW", "kW", "mW", "uW", "nW", "pW", "fW"]);
        push_multiples(&mut units, &watt(), &names);
        let names = ["PPa", "TPa", "GPa", "MPa", "kPa", "mPa", "uPa", "nPa", "pPa", "fPa"];
        assert(names@ =~= seq!["PPa", "TPa", "GPa", "MPa", "kPa", "mPa", "uPa", "nPa", "pPa", "fPa"]);
        push_multiples(&mut units, &pascal(), &names);
        let names = ["PV", "TV", "GV", "MV", "kV", "mV", "uV", "nV", "pV", "fV"];
        assert(names@ =~= seq!["PV", "TV", "GV", "MV", "kV", "mV", "uV", "nV", "pV", "fV"]);
        push_multiples(&mut units, &volt(), &names);
        let names = ["Pohm", "Tohm", "Gohm", "Mohm", "kohm", "mohm", "uohm", "nohm", "pohm", "fohm"];
        assert(names@ =~= seq!["Pohm", "Tohm", "Gohm", "Mohm", "kohm", "mohm", "uohm", "nohm", "pohm", "fohm"]);
        push_multiples(&mut units, &ohm(), &names);
        let names = ["PF", "TF", "GF", "MF", "kF", "mF", "uF", "nF", "pF", "fF"];
        assert(names@ =~= seq!["PF", "TF", "GF", "MF", "kF", "mF", "uF", "nF", "pF", "fF"]);
        push_multiples(&mut units, &farad(), &names);
        let names = ["PT", "TT", "GT", "MT", "kT", "mT", "uT", "nT", "pT", "fT"];
        assert(names@ =~= seq!["PT", "TT", "GT", "MT", "kT", "mT", "uT", "nT", "pT", "fT"]);
        push_multiples(&mut units, &tesla(), &names);
        let ghost before = unit_views(units@);
        units.push(joule());
        units.push(newton());
        units.push(watt());
        units.push(pascal());
        units.push(volt());
        units.push(ohm());
        units.push(farad());
        units.push(tesla());
        assert(unit_views(units@) =~= before + seq![
            joule_spec(),
            newton_spec(),
            watt_spec(),
            pascal_spec(),
            volt_spec(),
            ohm_spec(),
            farad_spec(),
            tesla_spec(),
        ]);
        Catalog { bases, units }
    }

    /// Whether `r` is the unit with the given symbol: the first derived unit
    /// of that symbol, else the first base unit of that symbol, alone, else
    /// none.
    pub open spec fn finds(&self, symbol: Seq<char>, r: Option<Unit>) -> bool {
        match r {
            Some(u) => (exists|i: int| is_first_unit(self.units(), symbol, i) && u@ == self.units()[i])
                || (no_unit(self.units(), symbol) && exists|i: int|
                is_first_base(self.bases(), symbol, i) && u@ == UnitView::of_base(self.bases()[i])),
            None => no_unit(self.units(), symbol) && forall|i: int|
                0 <= i < self.bases().len() ==> (#[trigger] self.bases()[i]).symbol@ != symbol,
        }
    }

    /// Finds the base unit with the given symbol: the first in the catalog.
    pub fn base(&self, symbol: &str) -> (r: Option<Base>)
        ensures
            match r {
                Some(b) => exists|i: int| is_first_base(self.bases(), symbol@, i) && b == self.bases()[i],
                None => forall|i: int| 0 <= i < self.bases().len() ==> (#[trigger] self.bases()[i]).symbol@ != symbol@,
            },
    {
        let mut i: usize = 0;
        while i < self.bases.len()
            invariant
                i <= self.bases.len(),
                forall|k: int| 0 <= k < i ==> (#[trigger] self.bases@[k]).symbol@ != symbol@,
            decreases self.bases.len() - i,
        {
            if same_text(self.bases[i].symbol, symbol) {
                assert(is_first_base(self.bases(), symbol@, i as int));
                return Some(self.bases[i]);
            }
            i = i + 1;
        }
        None
    }

    /// Finds the unit with the given symbol: the first derived unit of that
    /// symbol, else the first base unit of that symbol, alone.
    pub fn unit(&self, symbol: &str) -> (r: Option<Unit>)
        ensures
            self.finds(symbol@, r),
    {
        let mut i: usize = 0;
        while i < self.units.len()
            invariant
                i <= self.units.len(),
                forall|k: int| 0 <= k < i ==> (#[trigger] self.units()[k]).symbol != Some(symbol@),
            decreases self.units.len() - i,
        {
            let found = match self.units[i].symbol() {
                Some(s) => same_text(s.as_str(), symbol),
                None => false,
            };
            assert(self.units()[i as int] == self.units@[i as int]@);
            if found {
                assert(is_first_unit(self.units(), symbol@, i as int));
                return Some(self.units[i].duplicate());
            }
            i = i + 1;
        }
        match self.base(symbol) {
            Some(b) => Some(b.as_unit()),
            None => None,
        }
    }

    /// Lists the symbols of all units, derived units first, then base units.
    pub fn symbols(&self) -> (r: Vec<String>)
        ensures
            texts(r@) == unit_symbols(self.units()) + base_symbols(self.bases()),
    {
        let mut r: Vec<String> = Vec::new();
        let mut i: usize = 0;
        assert(self.units().take(0) =~= Seq::<UnitView>::empty());
        assert(texts(r@) =~= unit_symbols(self.units().take(0)));
        while i < self.units.len()
            invariant
                i <= self.units.len(),
                texts(r@) == unit_symbols(self.units().take(i as int)),
            decreases self.units.len() - i,
        {
            let ghost before = r@;
            proof {
                assert(self.units().take(i + 1).drop_last() =~= self.units().take(i as int));
                assert(self.units().take(i + 1).last() == self.units@[i as int]@);
            }
            match self.units[i].symbol() {
                Some(s) => {
                    r.push(s.clone());
                    assert(texts(r@) =~= texts(before).push(s@));
                },
                None => {},
            }
            i = i + 1;
        }
        assert(self.units().take(self.units.len() as int) =~= self.units());
        let ghost first = texts(r@);
        let mut j: usize = 0;
        assert(self.bases@.take(0) =~= Seq::<Base>::empty());
        assert(texts(r@) =~= first + base_symbols(self.bases@.take(0)));
        while j < self.bases.len()
            invariant
                j <= self.bases.len(),
                texts(r@) == first + base_symbols(self.bases@.take(j as int)),
            decreases self.bases.len() - j,
        {
            let ghost before = r@;
            let s = self.bases[j].symbol.to_owned();
            r.push(s);
            proof {
                assert(self.bases@.take(j + 1).drop_last() =~= self.bases@.take(j as int));
                assert(self.bases@.take(j + 1).last() == self.bases@[j as int]);
                assert(texts(r@) =~= texts(before).push(s@));
            }
            j = j + 1;
        }
        assert(self.bases@.take(self.bases.len() as int) =~= self.bases@);
        r
    }
}

/// The characters of strings.
pub open spec fn texts(v: Seq<String>) -> Seq<Seq<char>> {
    v.map_values(|s: String| s@)
}

/// The symbols of the units that have one, in their order.
pub open spec fn unit_symbols(units: Seq<UnitView>) -> Seq<Seq<char>>
    decreases units.len(),
{
    if units.len() == 0 {
        Seq::empty()
    } else {
        match units.last().symbol {
            Some(s) => unit_symbols(units.drop_last()).push(s),
            None => unit_symbols(units.drop_last()),
        }
    }
}

/// The symbols of base units, in their order.
pub open spec fn base_symbols(bases: Seq<Base>) -> Seq<Seq<char>>
    decreases bases.len(),
{
    if bases.len() == 0 {
        Seq::empty()
    } else {
        base_symbols(bases.drop_last()).push(bases.last().symbol@)
    }
}

/// Whether `i` is the first place in `bases` with the given symbol.
pub open spec fn is_first_base(bases: Seq<Base>, symbol: Seq<char>, i: int) -> bool {
    &&& 0 <= i < bases.len()
    &&& bases[i].symbol@ == symbol
    &&& forall|k: int| 0 <= k < i ==> (#[trigger] bases[k]).symbol@ != symbol
}

/// Whether `i` is the first place in `units` with the given symbol.
pub open spec fn is_first_unit(units: Seq<UnitView>, symbol: Seq<char>, i: int) -> bool {
    &&& 0 <= i < units.len()
    &&& units[i].symbol == Some(symbol)
    &&& forall|k: int| 0 <= k < i ==> (#[trigger] units[k]).symbol != Some(symbol)
}

/// Whether no unit has the given symbol.
pub open spec fn no_unit(units: Seq<UnitView>, symbol: Seq<char>) -> bool {
    forall|k: int| 0 <= k < units.len() ==> (#[trigger] units[k]).symbol != Some(symbol)
}

} // verus!
