use approx::Relative;
use calc::float::{Float, Op};
use calc::units::catalog::{
    ampere, deg_celsius, deg_fahrenheit, foot, hour, kelvin, kilogram, meter, mile, nautical_mile, rankine, second,
    temp_celsius, temp_fahrenheit,
};
use calc::units::display::i_to_str_superscripts;
use calc::units::{Base, Error, PhysicalQuantity, Unit};

fn fl(x: f64) -> Float {
    Float::from_bits(x.to_bits())
}

fn val(x: Float) -> f64 {
    f64::from_bits(x.to_bits())
}

fn fpu(op: Op, a: Float, b: Float) -> Float {
    let x = val(a);
    let y = val(b);
    fl(match op {
        Op::Add => x + y,
        Op::Sub => x - y,
        Op::Mul => x * y,
        Op::Div => x / y,
        Op::Pow => x.powf(y),
        Op::Sin => x.sin(),
        Op::Cos => x.cos(),
        Op::Tan => x.tan(),
        Op::Asin => x.asin(),
        Op::Acos => x.acos(),
        Op::Atan => x.atan(),
    })
}

fn close(a: f64, b: f64, epsilon: f64) -> bool {
    Relative::default().epsilon(epsilon).eq(&a, &b)
}

fn convert(a: &Unit, x: f64, b: &Unit) -> Result<f64, Error> {
    a.convert(fl(x), b, &fpu).map(val)
}

#[test]
fn base_multiplied_by_base() {
    let m_kg = meter().mul(&kilogram()).unwrap();
    assert_eq!(*m_kg.numer(), vec![meter(), kilogram()]);
    assert_eq!(m_kg.denom().len(), 0);
}

#[test]
fn base_multiplied_by_unit() {
    let m_per_s = meter().div(&second()).unwrap();
    let kg_m_per_s = kilogram().mul_unit(&m_per_s).unwrap();
    assert_eq!(*kg_m_per_s.numer(), vec![kilogram(), meter()]);
    assert_eq!(*kg_m_per_s.denom(), vec![second()]);
}

#[test]
fn base_divided_by_base() {
    let m_per_s = meter().div(&second()).unwrap();
    assert_eq!(*m_per_s.numer(), vec![meter()]);
    assert_eq!(*m_per_s.denom(), vec![second()]);
}

#[test]
fn base_divided_by_unit() {
    let m_per_s = meter().div(&second()).unwrap();
    let kg_s_per_m = kilogram().div_unit(&m_per_s, &fpu).unwrap();
    assert_eq!(*kg_s_per_m.numer(), vec![kilogram(), second()]);
    assert_eq!(*kg_s_per_m.denom(), vec![meter()]);
}

#[test]
fn unit_display() {
    let m_kg_per_ampere_s = meter()
        .mul(&kilogram())
        .unwrap()
        .div_base(ampere())
        .unwrap()
        .div_base(second())
        .unwrap();
    assert_eq!(m_kg_per_ampere_s.to_string(), "m\u{22c5}kg\u{22c5}A\u{207b}\u{b9}\u{22c5}s\u{207b}\u{b9}");

    let joule = Unit::new(&[kilogram(), meter(), meter()], &[second(), second()])
        .unwrap()
        .with_symbol("J");
    assert_eq!(joule.to_string(), "J");

    let joule = Unit::new(&[kilogram(), meter(), meter()], &[second(), second()]).unwrap();
    assert_ne!(joule.to_string(), "J");
    assert_eq!(joule.with_symbol("J").to_string(), "J");
}

#[test]
fn unit_display_exponents() {
    let u = meter().mul(&meter()).unwrap().div_base(ampere()).unwrap().div_base(second()).unwrap();
    assert_eq!(u.to_string(), "m\u{b2}\u{22c5}A\u{207b}\u{b9}\u{22c5}s\u{207b}\u{b9}");
    let u = u.div_base(second()).unwrap();
    assert_eq!(u.to_string(), "m\u{b2}\u{22c5}A\u{207b}\u{b9}\u{22c5}s\u{207b}\u{b2}");
    let u = Unit::new(&[second(), second(), ampere()], &[]).unwrap();
    assert_eq!(u.to_string(), "s\u{b2}\u{22c5}A");
    let u = Unit::new(&[], &[second(), second(), ampere()]).unwrap();
    assert_eq!(u.to_string(), "s\u{207b}\u{b2}\u{22c5}A\u{207b}\u{b9}");
}

#[test]
fn unit_display_agrees_with_the_glyphs() {
    let u = meter().mul(&meter()).unwrap().div_base(second()).unwrap();
    assert_eq!(u.to_string(), "m²⋅s⁻¹");
    assert_eq!(i_to_str_superscripts(0), "⁰");
    assert_eq!(i_to_str_superscripts(1234567890), "¹²³⁴⁵⁶⁷⁸⁹⁰");
    let twelve = Unit::new(&[meter(); 12], &[]).unwrap();
    assert_eq!(twelve.to_string(), "m¹²");
}

#[test]
fn unit_multiplied_by_unit() {
    let m_per_s = meter().div(&second()).unwrap();
    let kg_per_amp = kilogram().div(&ampere()).unwrap();
    let result = m_per_s.multiply(&kg_per_amp, &fpu).unwrap();
    assert_eq!(*result.numer(), vec![meter(), kilogram()]);
    assert_eq!(*result.denom(), vec![second(), ampere()]);
}

#[test]
fn unit_multiplied_by_base() {
    let m_per_s = meter().div(&second()).unwrap();
    let result = m_per_s.mul_base(kilogram()).unwrap();
    assert_eq!(*result.numer(), vec![meter(), kilogram()]);
    assert_eq!(*result.denom(), vec![second()]);
}

#[test]
fn unit_divided_by_unit() {
    let m_per_s = meter().div(&second()).unwrap();
    let kg_per_amp = kilogram().div(&ampere()).unwrap();
    let result = m_per_s.divide(&kg_per_amp, &fpu).unwrap();
    assert_eq!(*result.numer(), vec![meter(), ampere()]);
    assert_eq!(*result.denom(), vec![second(), kilogram()]);
}

#[test]
fn unit_divided_by_base() {
    let m_per_s = meter().div(&second()).unwrap();
    let result = m_per_s.div_base(kilogram()).unwrap();
    assert_eq!(*result.numer(), vec![meter()]);
    assert_eq!(*result.denom(), vec![second(), kilogram()]);
}

#[test]
fn unit_simplification() {
    let kg_per_s = second()
        .mul(&meter())
        .unwrap()
        .mul_base(kilogram())
        .unwrap()
        .div_base(meter())
        .unwrap()
        .div_base(second())
        .unwrap()
        .div_base(second())
        .unwrap();
    assert_eq!(*kg_per_s.numer(), vec![kilogram()]);
    assert_eq!(*kg_per_s.denom(), vec![second()]);
}

#[test]
fn unit_conversion() {
    let m = Unit::new(&[meter()], &[]).unwrap();
    let ft = Unit::new(&[foot()], &[]).unwrap();
    assert_eq!(convert(&m, 7.0, &ft).unwrap(), 7.0 / 0.3048);

    let mph = Unit::new(&[mile()], &[hour()]).unwrap();
    let kts = Unit::new(&[nautical_mile()], &[hour()]).unwrap();
    assert_eq!(convert(&mph, 110.0, &kts).unwrap(), 110.0 * 1609.344 / 1852.0);

    let m_per_s = Unit::new(&[meter()], &[second()]).unwrap();
    let hz = Unit::new(&[], &[second()]).unwrap();
    assert!(convert(&m_per_s, 1.0, &hz).is_err());
}

//     Acceptable temperature conversions
// ------------------------------------------
//                     TO
//          tempC tempF  degC  degF   K     R
//    tempC   o     o     x     x     o     o
// F  tempF   o     o     x     x     o     o
// R   degC   x     x     o     o     o     o
// O   degF   x     x     o     o     o     o
// M      K   o     o     o     o     o     o
//        R   o     o     o     o     o     o

#[test]
fn temp_celsius_conversions() {
    let a = Unit::new(&[temp_celsius()], &[]).unwrap();
    let b = Unit::new(&[temp_celsius()], &[]).unwrap();
    assert_eq!(convert(&a, 1.0, &b).unwrap(), 1.0);
    let a = Unit::new(&[temp_celsius()], &[]).unwrap();
    let b = Unit::new(&[temp_fahrenheit()], &[]).unwrap();
    assert!(close(convert(&a, 1.0, &b).unwrap(), 33.8, f64::EPSILON * 448.0));
    let a = Unit::new(&[temp_celsius()], &[]).unwrap();
    let b = Unit::new(&[deg_celsius()], &[]).unwrap();
    assert!(convert(&a, 1.0, &b).is_err());
    let a = Unit::new(&[temp_celsius()], &[]).unwrap();
    let b = Unit::new(&[deg_fahrenheit()], &[]).unwrap();
    assert!(convert(&a, 1.0, &b).is_err());
    let a = Unit::new(&[temp_celsius()], &[]).unwrap();
    let b = Unit::new(&[kelvin()], &[]).unwrap();
    assert_eq!(convert(&a, 1.0, &b).unwrap(), 274.15);
    let a = Unit::new(&[temp_celsius()], &[]).unwrap();
    let b = Unit::new(&[rankine()], &[]).unwrap();
    assert!(close(convert(&a, 1.0, &b).unwrap(), 493.47, f64::EPSILON * 512.0));
}

#[test]
fn temp_fahrenheit_conversions() {
    let a = Unit::new(&[temp_fahrenheit()], &[]).unwrap();
    let b = Unit::new(&[temp_celsius()], &[]).unwrap();
    assert!(close(convert(&a, 1.0, &b).unwrap(), (1.0 - 32.0) * 5.0 / 9.0, f64::EPSILON * 224.0));
    let a = Unit::new(&[temp_fahrenheit()], &[]).unwrap();
    let b = Unit::new(&[temp_fahrenheit()], &[]).unwrap();
    assert_eq!(convert(&a, 1.0, &b).unwrap(), 1.0);
    let a = Unit::new(&[temp_fahrenheit()], &[]).unwrap();
    let b = Unit::new(&[deg_celsius()], &[]).unwrap();
    assert!(convert(&a, 1.0, &b).is_err());
    let a = Unit::new(&[temp_fahrenheit()], &[]).unwrap();
    let b = Unit::new(&[deg_fahrenheit()], &[]).unwrap();
    assert!(convert(&a, 1.0, &b).is_err());
    let a = Unit::new(&[temp_fahrenheit()], &[]).unwrap();
    let b = Unit::new(&[kelvin()], &[]).unwrap();
    assert!(close(
        convert(&a, 1.0, &b).unwrap(),
        273.15 + (1.0 - 32.0) * 5.0 / 9.0,
        f64::EPSILON * 256.0
    ));
    let a = Unit::new(&[temp_fahrenheit()], &[]).unwrap();
    let b = Unit::new(&[rankine()], &[]).unwrap();
    assert_eq!(convert(&a, 1.0, &b).unwrap(), 460.67);
}

#[test]
fn deg_celsius_conversions() {
    let a = Unit::new(&[deg_celsius()], &[]).unwrap();
    let b = Unit::new(&[temp_celsius()], &[]).unwrap();
    assert!(convert(&a, 1.0, &b).is_err());
    let a = Unit::new(&[deg_celsius()], &[]).unwrap();
    let b = Unit::new(&[temp_fahrenheit()], &[]).unwrap();
    assert!(convert(&a, 1.0, &b).is_err());
    let a = Unit::new(&[deg_celsius()], &[]).unwrap();
    let b = Unit::new(&[deg_celsius()], &[]).unwrap();
    assert_eq!(convert(&a, 1.0, &b).unwrap(), 1.0);
    let a = Unit::new(&[deg_celsius()], &[]).unwrap();
    let b = Unit::new(&[deg_fahrenheit()], &[]).unwrap();
    assert!(close(convert(&a, 1.0, &b).unwrap(), 1.8, f64::EPSILON));
    let a = Unit::new(&[deg_celsius()], &[]).unwrap();
    let b = Unit::new(&[kelvin()], &[]).unwrap();
    assert_eq!(convert(&a, 1.0, &b).unwrap(), 1.0);
    let a = Unit::new(&[deg_celsius()], &[]).unwrap();
    let b = Unit::new(&[rankine()], &[]).unwrap();
    assert!(close(convert(&a, 1.0, &b).unwrap(), 1.8, f64::EPSILON));
}

#[test]
fn deg_fahrenheit_conversions() {
    let a = Unit::new(&[deg_fahrenheit()], &[]).unwrap();
    let b = Unit::new(&[temp_celsius()], &[]).unwrap();
    assert!(convert(&a, 1.0, &b).is_err());
    let a = Unit::new(&[deg_fahrenheit()], &[]).unwrap();
    let b = Unit::new(&[temp_fahrenheit()], &[]).unwrap();
    assert!(convert(&a, 1.0, &b).is_err());
    let a = Unit::new(&[deg_fahrenheit()], &[]).unwrap();
    let b = Unit::new(&[deg_celsius()], &[]).unwrap();
    assert_eq!(convert(&a, 1.0, &b).unwrap(), 5.0 / 9.0);
    let a = Unit::new(&[deg_fahrenheit()], &[]).unwrap();
    let b = Unit::new(&[deg_fahrenheit()], &[]).unwrap();
    assert_eq!(convert(&a, 1.0, &b).unwrap(), 1.0);
    let a = Unit::new(&[deg_fahrenheit()], &[]).unwrap();
    let b = Unit::new(&[kelvin()], &[]).unwrap();
    assert_eq!(convert(&a, 1.0, &b).unwrap(), 5.0 / 9.0);
    let a = Unit::new(&[deg_fahrenheit()], &[]).unwrap();
    let b = Unit::new(&[rankine()], &[]).unwrap();
    assert_eq!(convert(&a, 1.0, &b).unwrap(), 1.0);
}

#[test]
fn kelvin_conversions() {
    let a = Unit::new(&[kelvin()], &[]).unwrap();
    let b = Unit::new(&[temp_celsius()], &[]).unwrap();
    assert_eq!(convert(&a, 1.0, &b).unwrap(), -272.15);
    let a = Unit::new(&[kelvin()], &[]).unwrap();
    let b = Unit::new(&[temp_fahrenheit()], &[]).unwrap();
    assert_eq!(convert(&a, 1.0, &b).unwrap(), -457.87);
    let a = Unit::new(&[kelvin()], &[]).unwrap();
    let b = Unit::new(&[deg_celsius()], &[]).unwrap();
    assert_eq!(convert(&a, 1.0, &b).unwrap(), 1.0);
    let a = Unit::new(&[kelvin()], &[]).unwrap();
    let b = Unit::new(&[deg_fahrenheit()], &[]).unwrap();
    assert!(close(convert(&a, 1.0, &b).unwrap(), 1.8, f64::EPSILON));
    let a = Unit::new(&[kelvin()], &[]).unwrap();
    let b = Unit::new(&[kelvin()], &[]).unwrap();
    assert_eq!(convert(&a, 1.0, &b).unwrap(), 1.0);
    let a = Unit::new(&[kelvin()], &[]).unwrap();
    let b = Unit::new(&[rankine()], &[]).unwrap();
    assert!(close(convert(&a, 1.0, &b).unwrap(), 1.8, f64::EPSILON));
}

#[test]
fn deg_rankine_conversions() {
    let a = Unit::new(&[rankine()], &[]).unwrap();
    let b = Unit::new(&[temp_celsius()], &[]).unwrap();
    assert_eq!(convert(&a, 1.0, &b).unwrap(), -273.15 + 5.0 / 9.0);
    let a = Unit::new(&[rankine()], &[]).unwrap();
    let b = Unit::new(&[temp_fahrenheit()], &[]).unwrap();
    assert_eq!(convert(&a, 1.0, &b).unwrap(), -458.67);
    let a = Unit::new(&[rankine()], &[]).unwrap();
    let b = Unit::new(&[deg_celsius()], &[]).unwrap();
    assert_eq!(convert(&a, 1.0, &b).unwrap(), 5.0 / 9.0);
    let a = Unit::new(&[rankine()], &[]).unwrap();
    let b = Unit::new(&[deg_fahrenheit()], &[]).unwrap();
    assert_eq!(convert(&a, 1.0, &b).unwrap(), 1.0);
    let a = Unit::new(&[rankine()], &[]).unwrap();
    let b = Unit::new(&[kelvin()], &[]).unwrap();
    assert_eq!(convert(&a, 1.0, &b).unwrap(), 5.0 / 9.0);
    let a = Unit::new(&[rankine()], &[]).unwrap();
    let b = Unit::new(&[rankine()], &[]).unwrap();
    assert_eq!(convert(&a, 1.0, &b).unwrap(), 1.0);
}

#[test]
fn temp_in_derived_unit() {
    let r = Unit::new(&[temp_celsius(), second()], &[]);
    assert!(r.is_err());
    let r = Unit::new(&[temp_celsius()], &[second()]);
    assert!(r.is_err());
    let r = Unit::new(&[], &[temp_celsius()]);
    assert!(r.is_err());
    let r = Unit::new(&[kelvin(), second()], &[]);
    assert!(r.is_ok());
    let r = Unit::new(&[kelvin()], &[second()]);
    assert!(r.is_ok());
    let r = Unit::new(&[], &[kelvin()]);
    assert!(r.is_ok());
}

#[test]
fn inverse() {
    let u = Unit::new(&[kilogram()], &[second(), second(), ampere()])
        .unwrap()
        .inverse(&fpu)
        .unwrap();
    assert_eq!(u, Unit::new(&[second(), second(), ampere()], &[kilogram()]).unwrap());

    let u = Unit::new(&[temp_fahrenheit()], &[]).unwrap();
    assert!(u.inverse(&fpu).is_err());
    let u = Unit::new(&[kelvin()], &[]).unwrap();
    assert!(u.inverse(&fpu).is_ok());
}

#[test]
fn errors_name_what_was_refused() {
    assert_eq!(
        Unit::new(&[temp_celsius(), second()], &[]).err(),
        Some(Error::NonzeroZeroPoint(temp_celsius()))
    );
    assert_eq!(Unit::new(&[second()], &[temp_fahrenheit()]).err(), Some(Error::NonzeroZeroPoint(temp_fahrenheit())));
    let f = temp_fahrenheit().as_unit();
    assert_eq!(f.inverse(&fpu).err(), Some(Error::UninvertableUnits(Box::new(f.clone()))));
    let m = meter().as_unit();
    let s = second().as_unit();
    assert_eq!(
        m.convert(fl(1.0), &s, &fpu).err(),
        Some(Error::IncommensurableUnits(Some(Box::new(m.clone())), Some(Box::new(s.clone()))))
    );
}

#[test]
fn a_lone_absolute_scale_is_a_unit() {
    let c = Unit::new(&[temp_celsius()], &[]).unwrap();
    assert_eq!(*c.numer(), vec![temp_celsius()]);
    // Cancelling comes before the check: what cancels out does not count.
    let c = Unit::new(&[temp_celsius(), second()], &[second()]).unwrap();
    assert_eq!(*c.numer(), vec![temp_celsius()]);
    assert!(c.denom().is_empty());
}

#[test]
fn cancelling_strikes_the_first_like_base_and_keeps_the_order() {
    let u = Unit::new(
        &[meter(), second(), meter(), kilogram()],
        &[second(), ampere(), meter(), second()],
    )
    .unwrap();
    assert_eq!(*u.numer(), vec![meter(), kilogram()]);
    assert_eq!(*u.denom(), vec![ampere(), second()]);
    // Bases are alike by quantity, factor and zero; symbols do not count.
    let metre = Base::new("metre", PhysicalQuantity::Length, fl(1.0));
    let u = Unit::new(&[meter()], &[metre]).unwrap();
    assert!(u.is_scalar());
    // A foot is no meter.
    let u = Unit::new(&[meter()], &[foot()]).unwrap();
    assert_eq!((u.numer().len(), u.denom().len()), (1, 1));
}

#[test]
fn products_in_either_order_are_commensurable() {
    let a = Unit::new(&[meter(), kilogram()], &[second(), second()]).unwrap();
    let b = Unit::new(&[second(), foot()], &[kilogram(), ampere()]).unwrap();
    let ab = a.multiply(&b, &fpu).unwrap();
    let ba = b.multiply(&a, &fpu).unwrap();
    assert_ne!(ab.numer(), ba.numer());
    assert!(ab.is_commensurable_with(&ba));
    assert!(ba.is_commensurable_with(&ab));
}

#[test]
fn conversion_there_and_back_gives_the_value() {
    let mph = Unit::new(&[mile()], &[hour()]).unwrap();
    let fps = Unit::new(&[foot()], &[second()]).unwrap();
    let c = temp_celsius().as_unit();
    let f = temp_fahrenheit().as_unit();
    for v in [0.0, 1.0, -40.0, 98.6, 1e6, -273.15] {
        let there = convert(&mph, v, &fps).unwrap();
        assert!(close(convert(&fps, there, &mph).unwrap(), v, 1e-9));
        let there = convert(&c, v, &f).unwrap();
        assert!(close(convert(&f, there, &c).unwrap(), v, 1e-9));
    }
}

#[test]
fn conversion_counts_the_constants_of_the_units() {
    let n = Unit::new(&[kilogram(), meter()], &[second(), second()]).unwrap();
    let kn = n.with_constant(fl(1e3)).with_symbol("kN");
    assert_eq!(convert(&kn, 2.0, &n).unwrap(), 2000.0);
    assert_eq!(convert(&n, 2000.0, &kn).unwrap(), 2.0);
    assert_eq!(val(kn.constant()), 1e3);
    assert_eq!(*kn.symbol(), Some(String::from("kN")));
    let product = kn.multiply(&kn, &fpu).unwrap();
    assert_eq!(val(product.constant()), 1e6);
    assert_eq!(*product.symbol(), None);
    let quotient = kn.divide(&n, &fpu).unwrap();
    assert_eq!(val(quotient.constant()), 1e3);
    assert!(quotient.is_scalar());
    assert_eq!(val(kn.inverse(&fpu).unwrap().constant()), 1e-3);
}

#[test]
fn commensurability_counts_quantities_on_each_side() {
    let m_per_s = Unit::new(&[meter()], &[second()]).unwrap();
    let ft_per_hr = Unit::new(&[foot()], &[hour()]).unwrap();
    let s_per_m = Unit::new(&[second()], &[meter()]).unwrap();
    assert!(m_per_s.is_commensurable_with(&ft_per_hr));
    assert!(!m_per_s.is_commensurable_with(&s_per_m));
    assert!(!m_per_s.is_commensurable_with(&meter().as_unit()));
    assert!(meter().as_unit().is_commensurable_with(&foot().as_unit()));
}

#[test]
fn bases_are_made_with_and_without_zero() {
    let b = Base::new("x", PhysicalQuantity::Mass, fl(2.0));
    assert_eq!(b.zero.map(val), Some(0.0));
    assert!(b.zero_based() && !b.offset());
    let c = b.with_zero(fl(-3.0));
    assert_eq!(c.zero.map(val), Some(-3.0));
    assert!(c.offset() && !c.zero_based());
    let d = b.without_zero();
    assert_eq!(d.zero.map(val), None);
    assert!(!d.offset() && !d.zero_based());
    assert_eq!((c.symbol, c.physq, val(c.factor)), ("x", PhysicalQuantity::Mass, 2.0));
    assert!(b != c && b != d && c != d && b == b);
    assert_eq!(PhysicalQuantity::Time.index(), 0);
    assert_eq!(PhysicalQuantity::Angle.index(), 7);
}
