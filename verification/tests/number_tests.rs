use calc::float::{Float, Op};
use calc::units::catalog::{foot, hour, kilogram, meter, mile, second, temp_celsius};
use calc::units::display::Notation;
use calc::units::{Error, Number, Unit};

fn fl(x: f64) -> Float {
    Float::from_bits(x.to_bits())
}

fn val(x: Float) -> f64 {
    f64::from_bits(x.to_bits())
}

fn fpu(op: Op, a: Float, b: Float) -> Float {
    let x = val(a);
    let y = val(b);
    fl(match op {
        Op::Add => x + y,
        Op::Sub => x - y,
        Op::Mul => x * y,
        Op::Div => x / y,
        Op::Pow => x.powf(y),
        Op::Sin => x.sin(),
        Op::Cos => x.cos(),
        Op::Tan => x.tan(),
        Op::Asin => x.asin(),
        Op::Acos => x.acos(),
        Op::Atan => x.atan(),
    })
}

fn show(n: &Number) -> String {
    let v = val(n.value);
    let raw = match n.notation() {
        Notation::Scientific => format!("{:.6e}", v),
        _ => format!("{:.6}", v),
    };
    n.render(&raw)
}

fn num(x: f64) -> Number {
    Number::new(fl(x))
}

fn m_per_s() -> Unit {
    meter().div(&second()).unwrap()
}

fn mi_per_hr() -> Unit {
    mile().div(&hour()).unwrap()
}

fn mi_hr_per_kg() -> Unit {
    mile().mul(&hour()).unwrap().div_base(kilogram()).unwrap()
}

#[test]
fn dimensionless_added_to_dimensionless() {
    let x = num(5.0).add(&num(10.0), &fpu).unwrap();
    assert_eq!(val(x.value), 15.0);
    assert!(x.is_dimensionless());
}

#[test]
fn dimensionless_added_to_number_with_unit() {
    let result = num(5.0).add(&num(10.0).with_unit(m_per_s()), &fpu);
    assert!(result.is_err());
}

#[test]
fn number_with_unit_added_to_dimensionless() {
    let result = num(10.0).with_unit(m_per_s()).add(&num(5.0), &fpu);
    assert!(result.is_err());
}

#[test]
fn number_with_unit_added_to_compatible_number_with_unit() {
    let x = num(10.0).with_unit(m_per_s()).add(&num(5.0).with_unit(mi_per_hr()), &fpu).unwrap();
    assert_eq!(val(x.value), 12.235199999999999);
    assert_eq!(*x.unit.as_ref().unwrap().numer(), vec![meter()]);
    assert_eq!(*x.unit.unwrap().denom(), vec![second()]);
}

#[test]
fn number_with_unit_added_to_incompatible_number_with_unit() {
    let result = num(10.0)
        .with_unit(m_per_s())
        .add(&num(5.0).with_unit(mile().div(&kilogram()).unwrap()), &fpu);
    assert!(result.is_err());
}

#[test]
fn dimensionless_subtracted_from_dimensionless() {
    let x = num(5.0).sub(&num(10.0), &fpu).unwrap();
    assert_eq!(val(x.value), -5.0);
    assert!(x.is_dimensionless());
}

#[test]
fn number_with_unit_subtracted_from_dimensionless() {
    let result = num(5.0).sub(&num(10.0).with_unit(m_per_s()), &fpu);
    assert!(result.is_err());
}

#[test]
fn dimensionless_subtracted_from_number_with_unit() {
    let result = num(10.0).with_unit(m_per_s()).sub(&num(5.0), &fpu);
    assert!(result.is_err());
}

#[test]
fn number_with_unit_subtracted_from_compatible_number_with_unit() {
    let x = num(10.0).with_unit(m_per_s()).sub(&num(5.0).with_unit(mi_per_hr()), &fpu).unwrap();
    assert_eq!(val(x.value), 7.7648);
    assert_eq!(*x.unit.as_ref().unwrap().numer(), vec![meter()]);
    assert_eq!(*x.unit.unwrap().denom(), vec![second()]);
}

#[test]
fn number_with_unit_subtracted_from_incompatible_number_with_unit() {
    let result = num(10.0)
        .with_unit(m_per_s())
        .sub(&num(5.0).with_unit(mile().div(&kilogram()).unwrap()), &fpu);
    assert!(result.is_err());
}

#[test]
fn dimensionless_multiplied_by_dimensionless() {
    let x = num(5.0).mul(&num(10.0), &fpu).unwrap();
    assert_eq!(val(x.value), 50.0);
    assert!(x.is_dimensionless());
}

#[test]
fn dimensionless_multiplied_by_number_with_unit() {
    let x = num(5.0).mul(&num(10.0).with_unit(m_per_s()), &fpu).unwrap();
    assert_eq!(val(x.value), 50.0);
    assert_eq!(*x.unit.as_ref().unwrap().numer(), vec![meter()]);
    assert_eq!(*x.unit.unwrap().denom(), vec![second()]);
}

#[test]
fn number_with_unit_multiplied_by_dimensionless() {
    let x = num(5.0).with_unit(m_per_s()).mul(&num(10.0), &fpu).unwrap();
    assert_eq!(val(x.value), 50.0);
    assert_eq!(*x.unit.as_ref().unwrap().numer(), vec![meter()]);
    assert_eq!(*x.unit.unwrap().denom(), vec![second()]);
}

#[test]
fn number_with_unit_multiplied_by_number_with_unit() {
    let x = num(5.0).with_unit(m_per_s()).mul(&num(10.0).with_unit(mi_per_hr()), &fpu).unwrap();
    assert_eq!(val(x.value), 22.352);
    assert_eq!(*x.unit.as_ref().unwrap().numer(), vec![meter(), meter()]);
    assert_eq!(*x.unit.unwrap().denom(), vec![second(), second()]);
}

#[test]
fn dimensionless_multiplied_by_unit() {
    let x = num(5.0).mul_unit(&mi_per_hr(), &fpu).unwrap();
    assert_eq!(val(x.value), 5.0);
    assert_eq!(*x.unit.as_ref().unwrap().numer(), vec![mile()]);
    assert_eq!(*x.unit.unwrap().denom(), vec![hour()]);
}

#[test]
fn number_with_unit_multiplied_by_unit() {
    let x = num(5.0).with_unit(mi_hr_per_kg()).mul_unit(&mi_per_hr(), &fpu).unwrap();
    assert_eq!(val(x.value), 5.0);
    assert_eq!(*x.unit.as_ref().unwrap().numer(), vec![mile(), mile()]);
    assert_eq!(*x.unit.unwrap().denom(), vec![kilogram()]);
}

#[test]
fn number_with_unit_multiplied_by_temperature() {
    let x = num(5.0).with_unit(mi_hr_per_kg()).mul_unit(&temp_celsius().as_unit(), &fpu);
    assert!(x.is_err());
}

#[test]
fn dimensionless_divided_by_dimensionless() {
    let x = num(5.0).div(&num(10.0), &fpu).unwrap();
    assert_eq!(val(x.value), 0.5);
    assert!(x.is_dimensionless());
}

#[test]
fn dimensionless_divided_by_number_with_unit() {
    let x = num(5.0).div(&num(10.0).with_unit(m_per_s()), &fpu).unwrap();
    assert_eq!(val(x.value), 0.5);
    assert_eq!(*x.unit.as_ref().unwrap().numer(), vec![second()]);
    assert_eq!(*x.unit.unwrap().denom(), vec![meter()]);
}

#[test]
fn number_with_unit_divided_by_dimensionless() {
    let x = num(5.0).with_unit(m_per_s()).div(&num(10.0), &fpu).unwrap();
    assert_eq!(val(x.value), 0.5);
    assert_eq!(*x.unit.as_ref().unwrap().numer(), vec![meter()]);
    assert_eq!(*x.unit.unwrap().denom(), vec![second()]);
}

#[test]
fn number_with_unit_divided_by_number_with_unit() {
    let x = num(5.0).with_unit(m_per_s()).div(&num(10.0).with_unit(mi_per_hr()), &fpu).unwrap();
    assert_eq!(val(x.value), 1.118468146027201);
    assert!(x.unit.is_none());
}

#[test]
fn dimensionless_divided_by_unit() {
    let x = num(5.0).div_unit(&mi_per_hr(), &fpu).unwrap();
    assert_eq!(val(x.value), 5.0);
    assert_eq!(*x.unit.as_ref().unwrap().numer(), vec![hour()]);
    assert_eq!(*x.unit.unwrap().denom(), vec![mile()]);
}

#[test]
fn number_with_unit_divided_by_unit() {
    let x = num(5.0).with_unit(mi_hr_per_kg()).div_unit(&mi_per_hr(), &fpu).unwrap();
    assert_eq!(val(x.value), 5.0);
    assert_eq!(*x.unit.as_ref().unwrap().numer(), vec![hour(), hour()]);
    assert_eq!(*x.unit.unwrap().denom(), vec![kilogram()]);
}

#[test]
fn number_with_unit_divided_by_temperature() {
    let x = num(5.0).with_unit(mi_hr_per_kg()).div_unit(&temp_celsius().as_unit(), &fpu);
    assert!(x.is_err());
}

#[test]
fn display_dimensionless_with_exponent_format() {
    // six decimal places max
    assert_eq!(show(&num(0.000898359204909915)), "8.983592e-4");
    assert_eq!(show(&num(4180506471207144.8470604546950069)), "4.180506e15");
    // trim trailing zeroes
    assert_eq!(show(&num(0.0000442)), "4.42e-5");
    assert_eq!(show(&num(5821600000000000.3253253941312786)), "5.8216e15");
    // trim trailing zeroes and decimal point
    assert_eq!(show(&num(0.0004)), "4e-4");
    assert_eq!(show(&num(2000000000000.8142598874151412)), "2e12");
    // again, but negative
    assert_eq!(show(&num(-0.000898359204909915)), "-8.983592e-4");
    assert_eq!(show(&num(-4180506471207144.8470604546950069)), "-4.180506e15");
    assert_eq!(show(&num(-0.0000442)), "-4.42e-5");
    assert_eq!(show(&num(-5821600000000000.3253253941312786)), "-5.8216e15");
    assert_eq!(show(&num(-0.0004)), "-4e-4");
    assert_eq!(show(&num(-2000000000000.8142598874151412)), "-2e12");
}

#[test]
fn display_dimensionless_with_decimal_format() {
    // make sure the basics work
    assert_eq!(show(&num(0.0)), "0");
    assert_eq!(show(&num(1.0)), "1");
    // six decimal places max
    assert_eq!(show(&num(0.0027442391822086665)), "0.002744");
    assert_eq!(show(&num(932.9624592477858)), "932.962459");
    // trim trailing zeroes
    assert_eq!(show(&num(0.0084)), "0.0084");
    assert_eq!(show(&num(804.2737)), "804.2737");
    // trim trailing zeroes and decimal point
    assert_eq!(show(&num(600.0)), "600");
    // again, but negative
    assert_eq!(show(&num(-0.0)), "0");
    assert_eq!(show(&num(-1.0)), "-1");
    // six decimal places max
    assert_eq!(show(&num(-0.0027442391822086665)), "-0.002744");
    assert_eq!(show(&num(-932.9624592477858)), "-932.962459");
    // trim trailing zeroes
    assert_eq!(show(&num(-0.0084)), "-0.0084");
    assert_eq!(show(&num(-804.2737)), "-804.2737");
    // trim trailing zeroes and decimal point
    assert_eq!(show(&num(-600.0)), "-600");
}

#[test]
fn display_with_units_with_exponent_format() {
    let u = m_per_s();
    // six decimal places max
    assert_eq!(show(&num(0.000898359204909915).with_unit(u.clone())), "[8.983592e-4 m⋅s⁻¹]");
    assert_eq!(show(&num(4180506471207144.8470604546950069).with_unit(u.clone())), "[4.180506e15 m⋅s⁻¹]");
    // trim trailing zeroes
    assert_eq!(show(&num(0.0000442).with_unit(u.clone())), "[4.42e-5 m⋅s⁻¹]");
    assert_eq!(show(&num(5821600000000000.3253253941312786).with_unit(u.clone())), "[5.8216e15 m⋅s⁻¹]");
    // trim trailing zeroes and decimal point
    assert_eq!(show(&num(0.0004).with_unit(u.clone())), "[4e-4 m⋅s⁻¹]");
    assert_eq!(show(&num(2000000000000.8142598874151412).with_unit(u.clone())), "[2e12 m⋅s⁻¹]");
    // again, but negative
    assert_eq!(show(&num(-0.000898359204909915).with_unit(u.clone())), "[-8.983592e-4 m⋅s⁻¹]");
    assert_eq!(show(&num(-4180506471207144.8470604546950069).with_unit(u.clone())), "[-4.180506e15 m⋅s⁻¹]");
    assert_eq!(show(&num(-0.0000442).with_unit(u.clone())), "[-4.42e-5 m⋅s⁻¹]");
    assert_eq!(show(&num(-5821600000000000.3253253941312786).with_unit(u.clone())), "[-5.8216e15 m⋅s⁻¹]");
    assert_eq!(show(&num(-0.0004).with_unit(u.clone())), "[-4e-4 m⋅s⁻¹]");
    assert_eq!(show(&num(-2000000000000.8142598874151412).with_unit(u.clone())), "[-2e12 m⋅s⁻¹]");
}

#[test]
fn display_with_units_with_decimal_format() {
    let u = m_per_s();
    // make sure the basics work
    assert_eq!(show(&num(0.0).with_unit(u.clone())), "[0 m⋅s⁻¹]");
    assert_eq!(show(&num(1.0).with_unit(u.clone())), "[1 m⋅s⁻¹]");
    // six decimal places max
    assert_eq!(show(&num(0.0027442391822086665).with_unit(u.clone())), "[0.002744 m⋅s⁻¹]");
    assert_eq!(show(&num(932.9624592477858).with_unit(u.clone())), "[932.962459 m⋅s⁻¹]");
    // trim trailing zeroes
    assert_eq!(show(&num(0.0084).with_unit(u.clone())), "[0.0084 m⋅s⁻¹]");
    assert_eq!(show(&num(804.2737).with_unit(u.clone())), "[804.2737 m⋅s⁻¹]");
    // trim trailing zeroes and decimal point
    assert_eq!(show(&num(600.0).with_unit(u.clone())), "[600 m⋅s⁻¹]");
    // again, but negative
    assert_eq!(show(&num(-0.0).with_unit(u.clone())), "[0 m⋅s⁻¹]");
    assert_eq!(show(&num(-1.0).with_unit(u.clone())), "[-1 m⋅s⁻¹]");
    assert_eq!(show(&num(-0.0027442391822086665).with_unit(u.clone())), "[-0.002744 m⋅s⁻¹]");
    assert_eq!(show(&num(-932.9624592477858).with_unit(u.clone())), "[-932.962459 m⋅s⁻¹]");
    assert_eq!(show(&num(-0.0084).with_unit(u.clone())), "[-0.0084 m⋅s⁻¹]");
    assert_eq!(show(&num(-804.2737).with_unit(u.clone())), "[-804.2737 m⋅s⁻¹]");
    assert_eq!(show(&num(-600.0).with_unit(u.clone())), "[-600 m⋅s⁻¹]");
}

#[test]
fn display_special_values() {
    assert_eq!(show(&num(f64::NAN)), "NaN");
    assert_eq!(show(&num(f64::INFINITY)), "inf");
    assert_eq!(show(&num(f64::NEG_INFINITY)), "-inf");
    // again, but with units
    let u = m_per_s();
    assert_eq!(show(&num(f64::NAN).with_unit(u.clone())), "[NaN m⋅s⁻¹]");
    assert_eq!(show(&num(f64::INFINITY).with_unit(u.clone())), "[inf m⋅s⁻¹]");
    assert_eq!(show(&num(f64::NEG_INFINITY).with_unit(u.clone())), "[-inf m⋅s⁻¹]");
}

#[test]
fn pow_with_two_dimensionless_numbers() {
    let a = num(30.149042744979106);
    let b = num(19.85259661704478);
    assert_eq!(val(a.pow(&b, &fpu).unwrap().value), 2.3303471804569343e+29);
    let a = num(8.21496240576195);
    let b = num(-61.0329870106197);
    assert_eq!(val(a.pow(&b, &fpu).unwrap().value), 1.509695975106961e-56);
    let a = num(23.283172195086944);
    let b = num(0.0);
    assert_eq!(val(a.pow(&b, &fpu).unwrap().value), 1.0);
}

#[test]
fn pow_with_base_with_units_and_dimensionless_exponent() {
    let a = num(30.149042744979106).with_unit(m_per_s());
    let b = num(2.0);
    let c = a.pow(&b, &fpu).unwrap();
    assert_eq!(val(c.value), 908.9647784385772);
    assert_eq!(c.unit.clone().unwrap().numer(), &[meter(), meter()]);
    assert_eq!(c.unit.unwrap().denom(), &[second(), second()]);

    let a = num(8.21496240576195).with_unit(m_per_s());
    let b = num(-3.0);
    let c = a.pow(&b, &fpu).unwrap();
    assert_eq!(val(c.value), 0.001803778720105492);
    assert_eq!(c.unit.clone().unwrap().numer(), &[second(), second(), second()]);
    assert_eq!(c.unit.unwrap().denom(), &[meter(), meter(), meter()]);

    let a = num(23.283172195086944).with_unit(m_per_s());
    let b = num(0.0);
    let c = a.pow(&b, &fpu).unwrap();
    assert_eq!(val(c.value), 1.0);
    assert!(c.unit.is_none());
}

#[test]
fn pow_errors() {
    let a = num(30.149042744979106);
    let b = num(19.0).with_unit(meter().as_unit());
    assert!(a.pow(&b, &fpu).is_err());
    let a = num(30.149042744979106).with_unit(meter().as_unit());
    let b = num(19.85259661704478);
    assert!(a.pow(&b, &fpu).is_err());
}

#[test]
fn pow_and_root_errors_are_told_apart() {
    let plain = num(2.0);
    let length = num(2.0).with_unit(meter().as_unit());
    assert_eq!(plain.pow(&length, &fpu).err(), Some(Error::ExponentHasUnits));
    assert_eq!(length.pow(&num(1.5), &fpu).err(), Some(Error::ExponentNotAnInteger));
    assert_eq!(plain.root(&length, &fpu).err(), Some(Error::DegreeHasUnits));
    assert_eq!(length.root(&num(1.5), &fpu).err(), Some(Error::DegreeNotAnInteger));
    assert_eq!(length.root(&num(2.0), &fpu).err(), Some(Error::UnitNotDivisible));
    assert_eq!(length.root(&num(0.0), &fpu).err(), Some(Error::UnitNotDivisible));
    assert_eq!(length.root(&num(1e300), &fpu).err(), Some(Error::UnitNotDivisible));
    // An exponent need not be whole where there is no unit.
    assert_eq!(val(num(4.0).pow(&num(0.5), &fpu).unwrap().value), 2.0);
    assert_eq!(val(num(8.0).root(&num(3.0), &fpu).unwrap().value), 2.0);
    assert_eq!(val(num(2.0).root(&num(0.5), &fpu).unwrap().value), 4.0);
}

#[test]
fn root_divides_the_exponents() {
    let area = num(16.0).with_unit(Unit::new(&[meter(), second(), meter()], &[kilogram(), kilogram()]).unwrap());
    let side = area.root(&num(2.0), &fpu);
    assert_eq!(side.err(), Some(Error::UnitNotDivisible));
    let u = Unit::new(
        &[meter(), kilogram(), meter(), meter(), kilogram(), meter()],
        &[second(), second()],
    )
    .unwrap();
    let r = num(16.0).with_unit(u.clone()).root(&num(2.0), &fpu).unwrap();
    assert_eq!(val(r.value), 4.0);
    assert_eq!(*r.unit.as_ref().unwrap().numer(), vec![meter(), meter(), kilogram()]);
    assert_eq!(*r.unit.as_ref().unwrap().denom(), vec![second()]);
    let r = num(16.0).with_unit(u).root(&num(-2.0), &fpu).unwrap();
    assert_eq!(val(r.value), 0.25);
    assert_eq!(*r.unit.as_ref().unwrap().numer(), vec![second()]);
    assert_eq!(*r.unit.as_ref().unwrap().denom(), vec![meter(), meter(), kilogram()]);
    let cube = Unit::new(&[meter(), meter(), meter()], &[]).unwrap();
    let r = num(27.0).with_unit(cube).root(&num(3.0), &fpu).unwrap();
    assert_eq!(show(&r), "[3 m]");
}

#[test]
fn simplification_folds_like_quantities() {
    // m*s/ft gives s, with the value rescaled by the factor of the foot
    let u = Unit::new(&[meter(), second()], &[foot()]).unwrap();
    let n = num(3.048).with_unit(u).simplified(&fpu).unwrap();
    assert_eq!(val(n.value), 3.048 * 1.0 / 0.3048);
    assert_eq!(*n.unit.as_ref().unwrap().numer(), vec![second()]);
    assert!(n.unit.as_ref().unwrap().denom().is_empty());
    // m*ft gives m*m
    let u = Unit::new(&[meter(), foot()], &[]).unwrap();
    let n = num(2.0).with_unit(u).simplified(&fpu).unwrap();
    assert_eq!(val(n.value), 2.0 / 1.0 * 0.3048);
    assert_eq!(*n.unit.as_ref().unwrap().numer(), vec![meter(), meter()]);
    // 1/(mi*ft) gives 1/(mi*mi)
    let u = Unit::new(&[], &[mile(), foot()]).unwrap();
    let n = num(2.0).with_unit(u).simplified(&fpu).unwrap();
    assert_eq!(val(n.value), 2.0 * 1609.344 / 0.3048);
    assert_eq!(*n.unit.as_ref().unwrap().denom(), vec![mile(), mile()]);
    // everything cancels
    let u = Unit::new(&[meter()], &[foot()]).unwrap();
    let n = num(1.0).with_unit(u).simplified(&fpu).unwrap();
    assert!(n.is_dimensionless());
    assert_eq!(val(n.value), 1.0 / 0.3048);
    assert_eq!(val(num(7.0).simplified(&fpu).unwrap().value), 7.0);
}

#[test]
fn products_count_the_constants_of_the_units() {
    let kn = Unit::new(&[kilogram(), meter()], &[second(), second()]).unwrap().with_constant(fl(1e3));
    let n = num(2.0).with_unit(kn.clone()).mul(&num(3.0), &fpu).unwrap();
    assert_eq!(val(n.value), 6000.0);
    assert_eq!(val(n.unit.as_ref().unwrap().constant()), 1.0);
    let n = num(3.0).mul(&num(2.0).with_unit(kn.clone()), &fpu).unwrap();
    assert_eq!(val(n.value), 6000.0);
    let n = num(2.0).with_unit(kn.clone()).div(&num(4.0).with_unit(kn.clone()), &fpu).unwrap();
    assert_eq!(val(n.value), 0.5);
    assert!(n.is_dimensionless());
    let n = num(2.0).div(&num(4.0).with_unit(kn), &fpu).unwrap();
    assert_eq!(val(n.value), 0.0005);
    assert_eq!(*n.unit.as_ref().unwrap().numer(), vec![second(), second()]);
}

#[test]
fn nothing_is_divided_by_an_absolute_temperature() {
    let c = temp_celsius().as_unit();
    assert_eq!(
        num(1.0).div(&num(2.0).with_unit(c.clone()), &fpu).err(),
        Some(Error::UninvertableUnits(Box::new(c.clone())))
    );
    assert_eq!(
        num(1.0).with_unit(meter().as_unit()).div(&num(2.0).with_unit(c.clone()), &fpu).err(),
        Some(Error::NonzeroZeroPoint(temp_celsius()))
    );
    assert_eq!(
        num(1.0).with_unit(meter().as_unit()).mul(&num(2.0).with_unit(c.clone()), &fpu).err(),
        Some(Error::NonzeroZeroPoint(temp_celsius()))
    );
    assert_eq!(num(1.0).div_unit(&c, &fpu).err(), Some(Error::UninvertableUnits(Box::new(c))));
}

#[test]
fn sums_name_the_units_that_do_not_fit() {
    let m = meter().as_unit();
    let s = second().as_unit();
    assert_eq!(
        num(1.0).with_unit(m.clone()).add(&num(1.0), &fpu).err(),
        Some(Error::IncommensurableUnits(Some(Box::new(m.clone())), None))
    );
    assert_eq!(
        num(1.0).sub(&num(1.0).with_unit(m.clone()), &fpu).err(),
        Some(Error::IncommensurableUnits(None, Some(Box::new(m.clone()))))
    );
    assert_eq!(
        num(1.0).with_unit(m.clone()).add(&num(1.0).with_unit(s.clone()), &fpu).err(),
        Some(Error::IncommensurableUnits(Some(Box::new(s)), Some(Box::new(m))))
    );
}

#[test]
fn notation_goes_by_magnitude() {
    assert_eq!(num(0.0).notation(), Notation::Zero);
    assert_eq!(num(-0.0).notation(), Notation::Zero);
    assert_eq!(num(0.001).notation(), Notation::Decimal);
    assert_eq!(num(0.0009999999).notation(), Notation::Scientific);
    assert_eq!(num(-0.0009999999).notation(), Notation::Scientific);
    assert_eq!(num(9999999999.999998).notation(), Notation::Decimal);
    assert_eq!(num(1e10).notation(), Notation::Scientific);
    assert_eq!(num(-1e10).notation(), Notation::Scientific);
    assert_eq!(num(5e-324).notation(), Notation::Scientific);
    assert_eq!(num(f64::MAX).notation(), Notation::Scientific);
    assert_eq!(num(f64::INFINITY).notation(), Notation::Decimal);
    assert_eq!(num(f64::NAN).notation(), Notation::Decimal);
}

#[test]
fn displayed_values_read_back_within_the_printed_precision() {
    for v in [0.0, 1.0, -1.0, 0.5, 123.456789, 1e-7, -3.25e12, 0.001, 9999999999.0, 1e10, 12345.678901234] {
        let back: f64 = show(&num(v)).parse().unwrap();
        assert!((back - v).abs() <= v.abs() * 1e-6 + 1e-6, "{v} {back}");
    }
}

#[test]
fn whole_numbers_are_told() {
    assert!(num(3.0).is_whole());
    assert!(!num(3.5).is_whole());
    assert!(num(2.0).with_unit(foot().as_unit()).is_whole());
    assert!(!num(2.0).with_unit(foot().as_unit()).is_dimensionless());
}
