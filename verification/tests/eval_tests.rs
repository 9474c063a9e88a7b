use approx::Relative;
use calc::builtins;
use calc::eval::{split_words, Context, Error, Status, Token};
use calc::float::{Float, Op};
use calc::integer::Integer;
use calc::stack::{self, Item};
use calc::units::catalog::{
    ampere, day, deg_fahrenheit, degree, foot, inch, kilogram, meter, mole, second, Catalog,
};
use calc::units::display::Notation;
use calc::units::{self, Base, Number};

fn fl(x: f64) -> Float {
    Float::from_bits(x.to_bits())
}

fn val(x: Float) -> f64 {
    f64::from_bits(x.to_bits())
}

fn fpu(op: Op, a: Float, b: Float) -> Float {
    let x = val(a);
    let y = val(b);
    fl(match op {
        Op::Add => x + y,
        Op::Sub => x - y,
        Op::Mul => x * y,
        Op::Div => x / y,
        Op::Pow => x.powf(y),
        Op::Sin => x.sin(),
        Op::Cos => x.cos(),
        Op::Tan => x.tan(),
        Op::Asin => x.asin(),
        Op::Acos => x.acos(),
        Op::Atan => x.atan(),
    })
}

fn show(n: &Number) -> String {
    let v = val(n.value);
    let raw = match n.notation() {
        Notation::Scientific => format!("{:.6e}", v),
        _ => format!("{:.6}", v),
    };
    n.render(&raw)
}

fn tokens(line: &str) -> Vec<Token> {
    let mut out = Vec::new();
    for word in split_words(line) {
        let read = word.replace(',', "").parse::<f64>().ok().map(fl);
        out.push(Token::classify(&word, read));
    }
    out
}

fn run(ctx: &mut Context, line: &str) -> Status {
    ctx.eval(&tokens(line), &fpu)
}

fn base(symbol: &str) -> Base {
    Catalog::new().base(symbol).unwrap()
}

fn dotest(code: &str, res: f64) {
    let mut ctx = Context::new();
    let status = run(&mut ctx, code);
    assert_eq!(status, Status::Done);
    let mut tx = ctx.stack.begin();
    let got = val(tx.popf().unwrap().value);
    assert!(Relative::default().epsilon(f64::EPSILON * 100.0).eq(&got, &res), "{got} {res}");
}

fn shown(ctx: &Context) -> Vec<String> {
    let mut out = Vec::new();
    let mut it = ctx.stack.iter();
    while let Some(item) = it.next() {
        out.push(match item {
            Item::Float(n) => show(n),
            Item::Integer(i) => i.to_string(),
            Item::Unit(u) => u.to_string(),
        });
    }
    out
}

fn after(line: &str) -> (Status, Vec<String>) {
    let mut ctx = Context::new();
    let status = run(&mut ctx, line);
    (status, shown(&ctx))
}

fn failed(error: builtins::Error, word: &str) -> Status {
    Status::Failed { error: Error::Builtins(error), word: String::from(word) }
}

fn stack_error(e: stack::Error, word: &str) -> Status {
    failed(builtins::Error::Stack(e), word)
}

/// Convert a quantity in meters into feet. This is a simple multiplication.
#[test]
fn simple_unit_conversion() {
    let mut ctx = Context::new();
    assert_eq!(run(&mut ctx, "374.4 m ft into"), Status::Done);

    let f = ctx.stack.popf().unwrap_or_else(|e| panic!("popf: {e:?}"));
    assert_eq!(val(f.value), 1228.3464566929133);

    let u = f.unit.unwrap();
    assert_eq!(u.numer(), &[foot()]);
    assert_eq!(u.denom(), &[]);
}

/// Convert a quantity in microkelvin per nanoradian to degrees Fahrenheit per
/// degree. This is two multiplications.
#[test]
fn derived_unit_conversion() {
    let mut ctx = Context::new();
    assert_eq!(run(&mut ctx, "-4.71042 uK nrad / degF deg / into"), Status::Done);

    let f = ctx.stack.popf().unwrap_or_else(|e| panic!("popf: {e:?}"));
    assert_eq!(val(f.value), -147.9822086732243);

    let u = f.unit.unwrap();
    assert_eq!(u.numer(), &[deg_fahrenheit()]);
    assert_eq!(u.denom(), &[degree()]);
}

/// Multiply a quantity in nanocandela degrees per megameter by a quantity in
/// megameter amperes per day mole. The result should be in nanocandela degree
/// amperes per day mole. This involves canceling identical units but no
/// scaling; the magnitude of the result is simply the multiplied magnitudes of
/// the operands.
#[test]
fn simple_unit_simplification_with_multiplication() {
    let mut ctx = Context::new();
    assert_eq!(
        run(&mut ctx, "468.485 ncd deg * Mm / -55.4856 Mm A * day / mol / *"),
        Status::Done
    );

    let f = ctx.stack.popf().unwrap_or_else(|e| panic!("popf: {e:?}"));
    assert_eq!(val(f.value), -25994.171316);

    let u = f.unit.unwrap();
    assert_eq!(u.numer(), &[base("ncd"), degree(), ampere()]);
    assert_eq!(u.denom(), &[day(), mole()]);
}

/// As above but with division. The result should be in nanocandela degree day
/// moles per megameters squared amperes.
#[test]
fn simple_unit_simplification_with_division() {
    let mut ctx = Context::new();
    assert_eq!(
        run(&mut ctx, "468.485 ncd deg * Mm / -55.4856 Mm A * day / mol / /"),
        Status::Done
    );

    let f = ctx.stack.popf().unwrap_or_else(|e| panic!("popf: {e:?}"));
    assert_eq!(val(f.value), -8.443361881280909);

    let u = f.unit.unwrap();
    assert_eq!(u.numer(), &[base("ncd"), degree(), day(), mole()]);
    assert_eq!(u.denom(), &[base("Mm"), base("Mm"), ampere()]);
}

/// Multiply a quantity in kiloampere nanoseconds per inch mol by a quantity in
/// teraampere kilometers per hour millimole. The result should be in
/// kiloamperes squared per mole squared. This involves canceling like physical
/// quantities and scaling; the magnitude of the result is not simply the
/// multiplied magnitudes of the operands.
#[test]
fn complex_unit_simplification_with_multiplication() {
    let mut ctx = Context::new();
    assert_eq!(
        run(&mut ctx, "-414.485 kA ns * in / mol / -267.36 TA km * hr / mmol / *"),
        Status::Done
    );

    let f = ctx.stack.popf().unwrap_or_else(|e| panic!("popf: {e:?}"));
    println!("{}", show(&f));
    assert_eq!(val(f.value), 1211906272.9658796);

    let u = f.unit.unwrap();
    assert_eq!(u.numer(), &[base("kA"), base("kA")]);
    assert_eq!(u.denom(), &[mole(), mole()]);
}

/// As above but with division. Result should be in nanoseconds squared per
/// inches squared.
#[test]
fn complex_unit_simplification_with_division() {
    let mut ctx = Context::new();
    assert_eq!(
        run(&mut ctx, "-414.485 kA ns * in / mol / -267.36 TA km * hr / mmol / /"),
        Status::Done
    );

    let f = ctx.stack.popf().unwrap_or_else(|e| panic!("popf: {e:?}"));
    println!("{}", show(&f));
    assert_eq!(val(f.value), 0.00014175833482944343);

    let u = f.unit.unwrap();
    assert_eq!(u.numer(), &[base("ns"), base("ns")]);
    assert_eq!(u.denom(), &[inch(), inch()]);
}

/// Tests that derived units of different magnitudes cancel correctly. This
/// exercises factors on `Unit`.
#[test]
fn unit_factors_multiplication() {
    let mut ctx = Context::new();
    assert_eq!(run(&mut ctx, "-53.3719 MA 99.5531 fohm *"), Status::Done);

    let f = ctx.stack.popf().unwrap_or_else(|e| panic!("popf: {e:?}"));
    println!("{}", show(&f));
    assert_eq!(val(f.value), -5.31333809789e-6);

    let u = f.unit.unwrap();
    assert_eq!(u.numer(), &[kilogram(), meter(), meter()]);
    assert_eq!(u.denom(), &[second(), second(), second(), ampere()]);
}

/// As above but with division.
#[test]
fn unit_factors_division() {
    let mut ctx = Context::new();
    assert_eq!(run(&mut ctx, "-53.3719 MV 99.5531 fohm /"), Status::Done);

    let f = ctx.stack.popf().unwrap_or_else(|e| panic!("popf: {e:?}"));
    println!("{}", show(&f));
    assert_eq!(val(f.value), -5.361148974768238e20);

    let u = f.unit.unwrap();
    assert_eq!(u.numer(), &[ampere()]);
    assert_eq!(u.denom(), &[]);
}

#[test]
fn psi_to_pascals() {
    let mut ctx = Context::new();
    assert_eq!(run(&mut ctx, "344.6790593239441 psi Pa into"), Status::Done);

    let f = ctx.stack.popf().unwrap_or_else(|e| panic!("popf: {e:?}"));
    println!("{}", show(&f));
    assert_eq!(val(f.value), 2376478.4580761734);

    let u = f.unit.unwrap();
    assert_eq!(u.numer(), &[kilogram()]);
    assert_eq!(u.denom(), &[second(), second(), meter()]);
}

#[test]
#[allow(non_snake_case)]
fn test_GJ_pPa_MN_mm_Pa() {
    dotest("288.7384336113130985 GJ pPa / MN / mm Pa / into", 288738433611313098500.0);
}

#[test]
#[allow(non_snake_case)]
fn test_day_Gohm_ft_yd_uF() {
    dotest("466.7865650752054307 day Gohm / ft * yd uF * into", 13443.453074165916405);
}

#[test]
#[allow(non_snake_case)]
fn test_uA_J_PJ_TV_kohm() {
    dotest("472.5191758644920128 uA J * PJ / TV kohm / into", 0.0);
}

#[test]
#[allow(non_snake_case)]
fn test_mN_MJ_PN_cm_nN() {
    dotest("317.0780678280855227 mN MJ * PN / cm nN * into", 31.7078067828085466);
}

#[test]
#[allow(non_snake_case)]
fn test_V_TJ_s_kV_W() {
    dotest("105.9802161443672048 V TJ / s * kV W / into", 0.0000000000001060);
}

// This has an intermediate product, 307.568688 MA/A, that is technically
// correct but not properly simplified.
#[test]
#[allow(non_snake_case)]
fn test_nohm_fV_MA_kPa_MPa() {
    dotest("307.5686876719602196 nohm fV / MA * kPa MPa / *", 307568687671.960256);
}

#[test]
#[allow(non_snake_case)]
fn test_fW_kA_kPa_Pa_PV() {
    dotest("39.2703942533396457 fW kA / kPa * Pa PV * into", 3.92703942533396457e-29);
}

#[test]
#[allow(non_snake_case)]
fn test_ns_Trad_mohm_uF_urad() {
    dotest("279.8736860245013531 ns Trad / mohm / uF urad / into", 0.0000000000000003);
}

#[test]
fn integers_add_to_an_integer() {
    assert_eq!(after("5 3 +"), (Status::Done, vec![String::from("8")]));
    assert_eq!(after("0x10 3 +"), (Status::Done, vec![String::from("0x13")]));
    assert_eq!(after("5 3 -"), (Status::Done, vec![String::from("2")]));
    assert_eq!(after("5 3 *"), (Status::Done, vec![String::from("15")]));
    assert_eq!(after("5 2.5 +"), (Status::Done, vec![String::from("7.5")]));
    assert_eq!(after("2.5 5 -"), (Status::Done, vec![String::from("-2.5")]));
}

#[test]
fn powers_of_plain_numbers() {
    assert_eq!(after("2 3 **"), (Status::Done, vec![String::from("8")]));
    assert_eq!(after("2 m 3 **"), (Status::Done, vec![String::from("[8 m³]")]));
    assert_eq!(after("0 exp"), (Status::Done, vec![String::from("1")]));
    assert_eq!(after("16 sqrt"), (Status::Done, vec![String::from("4")]));
    assert_eq!(after("27 cbrt"), (Status::Done, vec![String::from("3")]));
    assert_eq!(after("81 4 /**"), (Status::Done, vec![String::from("3")]));
    assert_eq!(after("16 m m * sqrt"), (Status::Done, vec![String::from("[4 m]")]));
}

#[test]
fn division_by_zero_gives_infinity() {
    let mut ctx = Context::new();
    assert_eq!(run(&mut ctx, "1 0 /"), Status::Done);
    let f = ctx.stack.popf().unwrap();
    assert_eq!(val(f.value), f64::INFINITY);
    assert!(f.is_dimensionless());
    assert_eq!(after("1 2 /"), (Status::Done, vec![String::from("0.5")]));
}

#[test]
fn hex_literal_is_shown_in_hex() {
    assert_eq!(after("0xFF"), (Status::Done, vec![String::from("0xff")]));
    assert_eq!(after("0xFF hex"), (Status::Done, vec![String::from("0xff")]));
    assert_eq!(after("255 hex"), (Status::Done, vec![String::from("0xff")]));
    assert_eq!(after("255 bin"), (Status::Done, vec![String::from("0b11111111")]));
    assert_eq!(after("255 oct"), (Status::Done, vec![String::from("0377")]));
    assert_eq!(after("0xff dec"), (Status::Done, vec![String::from("255")]));
    assert_eq!(after("255.0 hex"), (Status::Done, vec![String::from("0xff")]));
}

#[test]
fn a_failed_word_leaves_the_stack_as_it_was() {
    let lines = [
        ("+", stack_error(stack::Error::Underflow, "+")),
        ("1 +", stack_error(stack::Error::Underflow, "+")),
        ("1 m +", stack_error(stack::Error::Underflow, "+")),
        ("1 m s +", stack_error(stack::Error::TypeMismatch, "+")),
        ("m 1 *", stack_error(stack::Error::TypeMismatch, "*")),
        ("m 1 /", stack_error(stack::Error::TypeMismatch, "/")),
        ("1.5 2 &", stack_error(stack::Error::NotAnInteger, "&")),
        ("1 m ~", stack_error(stack::Error::NotDimensionless, "~")),
        ("1 2 keep", stack_error(stack::Error::Underflow, "keep")),
        ("1 -1 keep", failed(builtins::Error::NotNonNegative, "keep")),
        ("1 -1 bset", failed(builtins::Error::NotNonNegative, "bset")),
        ("1 -1 bclr", failed(builtins::Error::NotNonNegative, "bclr")),
        ("1 -1 bget", failed(builtins::Error::NotNonNegative, "bget")),
        ("1 sin", failed(builtins::Error::MissingUnit, "sin")),
        ("1 rad asin", failed(builtins::Error::NotDimensionless, "asin")),
        ("m drop", stack_error(stack::Error::TypeMismatch, "drop")),
        ("m dup dup pop pop pop pop", stack_error(stack::Error::Underflow, "pop")),
        ("1 swap", stack_error(stack::Error::Underflow, "swap")),
        ("dup", stack_error(stack::Error::Underflow, "dup")),
        ("1 2 into", stack_error(stack::Error::TypeMismatch, "into")),
        ("1 2 m **", failed(builtins::Error::Units(units::Error::ExponentHasUnits), "**")),
        ("1 m 1.5 **", failed(builtins::Error::Units(units::Error::ExponentNotAnInteger), "**")),
        ("1 2 m /**", failed(builtins::Error::Units(units::Error::DegreeHasUnits), "/**")),
        ("1 m 1.5 /**", failed(builtins::Error::Units(units::Error::DegreeNotAnInteger), "/**")),
        ("1 m sqrt", failed(builtins::Error::Units(units::Error::UnitNotDivisible), "sqrt")),
        ("1 m exp", failed(builtins::Error::Units(units::Error::ExponentHasUnits), "exp")),
        (
            "1 m tempC *",
            failed(
                builtins::Error::Units(units::Error::NonzeroZeroPoint(base("tempC"))),
                "*",
            ),
        ),
        ("1 frobnicate", Status::Failed { error: Error::UnknownWord, word: String::from("frobnicate") }),
    ];
    for (line, status) in lines {
        let words = split_words(line);
        let (last, before) = words.split_last().unwrap();
        let mut ctx = Context::new();
        assert_eq!(run(&mut ctx, &before.join(" ")), Status::Done, "{line}");
        let was = shown(&ctx);
        assert_eq!(run(&mut ctx, last), status, "{line}");
        assert_eq!(shown(&ctx), was, "{line}");
    }
}

#[test]
fn errors_of_units_name_the_units() {
    let mut ctx = Context::new();
    assert_eq!(run(&mut ctx, "1 m 1 s"), Status::Done);
    let m = meter().as_unit();
    let s = second().as_unit();
    assert_eq!(
        run(&mut ctx, "+"),
        failed(
            builtins::Error::Units(units::Error::IncommensurableUnits(
                Some(Box::new(s.clone())),
                Some(Box::new(m.clone()))
            )),
            "+"
        )
    );
    assert_eq!(
        run(&mut ctx, "pop s into"),
        failed(
            builtins::Error::Units(units::Error::IncommensurableUnits(Some(Box::new(m)), Some(Box::new(s)))),
            "into"
        )
    );
    let mut ctx = Context::new();
    let c = base("tempC").as_unit();
    assert_eq!(run(&mut ctx, "tempC 1 swap"), Status::Done);
    assert_eq!(
        run(&mut ctx, "/"),
        failed(builtins::Error::Units(units::Error::UninvertableUnits(Box::new(c))), "/")
    );
    assert_eq!(shown(&ctx), vec!["1", "tempC"]);
}

#[test]
fn the_session_ends_at_exit() {
    assert_eq!(after("1 exit 2"), (Status::Halt, vec![String::from("1")]));
    assert_eq!(after("q"), (Status::Halt, vec![]));
    assert_eq!(after(""), (Status::Done, vec![]));
    assert_eq!(after("  1\t2\n3 \r\x0c "), (Status::Done, vec![String::from("1"), String::from("2"), String::from("3")]));
}

#[test]
fn evaluation_stops_at_the_first_word_that_fails() {
    let (status, stack) = after("1 2 + + 5");
    assert_eq!(status, stack_error(stack::Error::Underflow, "+"));
    assert_eq!(stack, vec![String::from("3")]);
}

#[test]
fn stack_words_move_items() {
    let s = |v: &[&str]| v.iter().map(|x| String::from(*x)).collect::<Vec<String>>();
    assert_eq!(after("1 2 swap"), (Status::Done, s(&["2", "1"])));
    assert_eq!(after("1 m dup"), (Status::Done, s(&["[1 m]", "[1 m]"])));
    assert_eq!(after("1 2 3 pop"), (Status::Done, s(&["1", "2"])));
    assert_eq!(after("1 2 3 clear"), (Status::Done, s(&[])));
    assert_eq!(after("1 2 3 4 2 keep"), (Status::Done, s(&["3", "4"])));
    assert_eq!(after("1 2 3 0 keep"), (Status::Done, s(&[])));
    assert_eq!(after("1 2 3 3.0 keep"), (Status::Done, s(&["1", "2", "3"])));
    assert_eq!(after("1.5 m drop"), (Status::Done, s(&["1.5"])));
    assert_eq!(after("7 drop"), (Status::Done, s(&["7"])));
    assert_eq!(after("m s"), (Status::Done, s(&["m", "s"])));
    assert_eq!(after("m s *"), (Status::Done, s(&["m⋅s"])));
    assert_eq!(after("m s /"), (Status::Done, s(&["m⋅s⁻¹"])));
    assert_eq!(after("2 m s /"), (Status::Done, s(&["[2 m⋅s⁻¹]"])));
    assert_eq!(after("2 m s *"), (Status::Done, s(&["[2 m⋅s]"])));
    assert_eq!(after("2 m 3"), (Status::Done, s(&["[2 m]", "3"])));
    assert_eq!(after("2 m 3 s"), (Status::Done, s(&["[2 m]", "[3 s]"])));
    assert_eq!(after("2 m s"), (Status::Done, s(&["[2 m]", "s"])));
    assert_eq!(after("2 N"), (Status::Done, s(&["[2 N]"])));
    assert_eq!(after("s 2 swap /"), (Status::Done, s(&["[2 s⁻¹]"])));
    assert_eq!(after("s 2 swap *"), (Status::Done, s(&["[2 s]"])));
    assert_eq!(after("kPa MPa /"), (Status::Done, s(&["0.001"])));
    assert_eq!(after("3 m ft into"), (Status::Done, s(&["[9.84252 ft]"])));
    assert_eq!(after("ft 3 swap into"), (Status::Done, s(&["[3 ft]"])));
}

#[test]
fn bit_words_work_on_integers() {
    let s = |v: &[&str]| v.iter().map(|x| String::from(*x)).collect::<Vec<String>>();
    assert_eq!(after("0xf0 0x3c &"), (Status::Done, s(&["0x30"])));
    assert_eq!(after("0xf0 0x3c |"), (Status::Done, s(&["0xfc"])));
    assert_eq!(after("0xf0 0x3c ^"), (Status::Done, s(&["0xcc"])));
    assert_eq!(after("0 ~"), (Status::Done, s(&["-1"])));
    assert_eq!(after("0x0 ~"), (Status::Done, s(&["0xffffffff_ffffffff"])));
    assert_eq!(after("0xff 4 bset"), (Status::Done, s(&["0x10"])));
    assert_eq!(after("0xff 8 bset"), (Status::Done, s(&["0x0"])));
    assert_eq!(after("0xff 4 bclr"), (Status::Done, s(&["0xef"])));
    assert_eq!(after("0xff 64 bclr"), (Status::Done, s(&["0xfe"])));
    assert_eq!(after("0xff 63 bclr"), (Status::Done, s(&["0xff"])));
    assert_eq!(after("-1 63 bset hex"), (Status::Done, s(&["0x80000000_00000000"])));
    assert_eq!(after("0x10 4 bget"), (Status::Done, s(&["0x10", "0b1"])));
    assert_eq!(after("0x10 3 bget"), (Status::Done, s(&["0x10", "0b0"])));
    assert_eq!(after("-1 63 bget"), (Status::Done, s(&["-1", "0b1"])));
    assert_eq!(after("12.0 10 &"), (Status::Done, s(&["8"])));
}

#[test]
fn trigonometry_wants_angles() {
    let mut ctx = Context::new();
    assert_eq!(run(&mut ctx, "90 deg sin"), Status::Done);
    assert_eq!(val(ctx.stack.popf().unwrap().value), (90.0f64 * (std::f64::consts::PI / 180.0)).sin());
    assert_eq!(run(&mut ctx, "0 rad cos 0.5 rad tan"), Status::Done);
    assert_eq!(val(ctx.stack.popf().unwrap().value), 0.5f64.tan());
    assert_eq!(val(ctx.stack.popf().unwrap().value), 1.0);
    assert_eq!(run(&mut ctx, "1 asin 1 acos 1 atan"), Status::Done);
    let n = ctx.stack.popf().unwrap();
    assert_eq!(val(n.value), 1.0f64.atan());
    assert_eq!(n.unit.unwrap().numer(), &[base("rad")]);
    assert_eq!(val(ctx.stack.popf().unwrap().value), 0.0);
    assert_eq!(val(ctx.stack.popf().unwrap().value), 1.0f64.asin());
    assert_eq!(
        run(&mut ctx, "1 m sin"),
        failed(
            builtins::Error::Units(units::Error::IncommensurableUnits(
                Some(Box::new(meter().as_unit())),
                Some(Box::new(base("rad").as_unit()))
            )),
            "sin"
        )
    );
}

#[test]
fn constants_are_pushed() {
    let mut ctx = Context::new();
    assert_eq!(run(&mut ctx, "pi e c h hbar"), Status::Done);
    let hbar = ctx.stack.popf().unwrap();
    assert_eq!(val(hbar.value), 1.054_571_817e-34);
    let h = ctx.stack.popf().unwrap();
    assert_eq!(val(h.value), 6.626_070_15e-34);
    assert_eq!(h.unit.as_ref().unwrap().numer(), &[kilogram(), meter(), meter()]);
    assert_eq!(h.unit.as_ref().unwrap().denom(), &[second()]);
    let c = ctx.stack.popf().unwrap();
    assert_eq!(val(c.value), 299_792_458.0);
    assert_eq!(show(&c), "[299792458 m⋅s⁻¹]");
    assert_eq!(val(ctx.stack.popf().unwrap().value), std::f64::consts::E);
    assert_eq!(val(ctx.stack.popf().unwrap().value), std::f64::consts::PI);
}

#[test]
fn words_are_classified_integer_first() {
    assert!(matches!(Token::classify("12", Some(fl(12.0))), Token::Integer(i) if i == Integer::dec(12)));
    assert!(matches!(Token::classify("0x1f", None), Token::Integer(i) if i == Integer::hex(31)));
    assert!(matches!(Token::classify("1.5", Some(fl(1.5))), Token::Float(x) if val(x) == 1.5));
    assert!(matches!(Token::classify("0", Some(fl(0.0))), Token::Float(x) if val(x) == 0.0));
    assert!(matches!(Token::classify("m", None), Token::Word(w) if w == "m"));
    assert!(matches!(&tokens("1,000.5")[..], [Token::Float(x)] if val(*x) == 1000.5));
    assert!(matches!(&tokens("1,000")[..], [Token::Integer(i)] if i.value == 1000));
}

#[test]
fn lines_split_at_ascii_whitespace() {
    assert_eq!(split_words(""), Vec::<String>::new());
    assert_eq!(split_words(" \t\n"), Vec::<String>::new());
    assert_eq!(split_words("a"), vec!["a"]);
    assert_eq!(split_words(" a  bc\td\n"), vec!["a", "bc", "d"]);
    assert_eq!(split_words("a\u{a0}b \u{2003}c"), vec!["a\u{a0}b", "\u{2003}c"]);
    for line in ["x y", "  lead", "trail  ", "\x0cform\x0bfeed\r\n", "é ü"] {
        let expected: Vec<String> = line.split_ascii_whitespace().map(String::from).collect();
        assert_eq!(split_words(line), expected);
    }
}

#[test]
fn every_builtin_has_a_name() {
    let ctx = Context::default();
    let names = ctx.builtin_names();
    for name in ["+", "/**", "into", "swap", "pi", "hbar", "m", "kPa", "psi", "tempC", "fF", "Prad"] {
        assert!(names.iter().any(|n| n == name), "{name}");
        assert!(ctx.builtins.get(name).is_some(), "{name}");
    }
    for name in &names {
        assert!(ctx.builtins.get(name).is_some(), "{name}");
    }
    assert!(ctx.builtins.get("exit").is_none());
    let mut sorted = names.clone();
    sorted.sort();
    sorted.dedup();
    assert_eq!(sorted.len(), names.len());
    assert_eq!(Notation::Zero, Number::new(fl(0.0)).notation());
}

#[test]
fn the_catalog_knows_its_units() {
    let catalog = Catalog::new();
    assert_eq!(val(catalog.base("ft").unwrap().factor), 0.3048);
    assert_eq!(val(catalog.base("in").unwrap().factor), 0.3048 / 12.0);
    assert_eq!(val(catalog.base("mil").unwrap().factor), 0.000_304_8 / 12.0);
    assert_eq!(val(catalog.base("yd").unwrap().factor), 0.3048 * 3.0);
    assert_eq!(val(catalog.base("deg").unwrap().factor), std::f64::consts::PI / 180.0);
    assert_eq!(val(catalog.base("R").unwrap().factor), 5.0 / 9.0);
    assert_eq!(catalog.base("tempC").unwrap().zero.map(val), Some(-273.15));
    assert_eq!(catalog.base("tempF").unwrap().zero.map(val), Some(-459.67));
    assert_eq!(catalog.base("degC").unwrap().zero.map(val), None);
    assert_eq!(catalog.base("K").unwrap().zero.map(val), Some(0.0));
    assert_eq!(val(catalog.base("Pg").unwrap().factor), 1e15);
    assert_eq!(val(catalog.base("fs").unwrap().factor), 1e-15);
    assert!(catalog.base("J").is_none());
    assert!(catalog.base("kg").is_some());
    assert!(catalog.base("cm").is_some());
    let kj = catalog.unit("kJ").unwrap();
    assert_eq!(val(kj.constant()), 1e3);
    assert_eq!(kj.numer(), &[kilogram(), meter(), meter()]);
    assert_eq!(kj.to_string(), "kJ");
    let lbf = catalog.unit("lbf").unwrap();
    assert_eq!(val(lbf.constant()), 9.80665);
    assert_eq!(val(catalog.unit("psi").unwrap().constant()), 9.80665 / (0.3048 / 12.0));
    assert_eq!(catalog.unit("m").unwrap(), meter().as_unit());
    assert!(catalog.unit("nope").is_none());
    for symbol in catalog.symbols() {
        assert!(catalog.unit(&symbol).is_some(), "{symbol}");
    }
    assert_eq!(catalog.symbols().len(), 8 + 18 + 79 + 2 + 8 * 11);
}

#[test]
fn builtins_run_by_themselves() {
    let mut ctx = Context::new();
    ctx.eval_integer(Integer::dec(2));
    ctx.eval_float(fl(0.5));
    assert_eq!(builtins::builtin_add(&mut ctx.stack, &fpu), Ok(()));
    assert_eq!(shown(&ctx), vec!["2.5"]);
    ctx.eval_integer(Integer::dec(2));
    assert_eq!(builtins::builtin_pow(&mut ctx.stack, &fpu), Ok(()));
    assert_eq!(builtins::builtin_sqrt(&mut ctx.stack, &fpu), Ok(()));
    assert_eq!(shown(&ctx), vec!["2.5"]);
    assert_eq!(ctx.eval_word("dup", &fpu), Ok(()));
    assert_eq!(builtins::builtin_sub(&mut ctx.stack, &fpu), Ok(()));
    assert_eq!(shown(&ctx), vec!["0"]);
    builtins::builtin_unit(&meter().as_unit(), &mut ctx.stack);
    assert_eq!(shown(&ctx), vec!["[0 m]"]);
    builtins::builtin_unit(&meter().as_unit(), &mut ctx.stack);
    assert_eq!(shown(&ctx), vec!["[0 m]", "m"]);
    assert_eq!(builtins::builtin_clear(&mut ctx.stack), Ok(()));
    assert!(ctx.stack.is_empty());
    assert_eq!(ctx.eval_word("nothing", &fpu), Err(Error::UnknownWord));
    assert_eq!(
        builtins::builtin_swap(&mut ctx.stack),
        Err(builtins::Error::Stack(stack::Error::Underflow))
    );
    assert_eq!(builtins::Error::from(stack::Error::Underflow), builtins::Error::Stack(stack::Error::Underflow));
    assert_eq!(
        builtins::Error::from(units::Error::UnitNotDivisible),
        builtins::Error::Units(units::Error::UnitNotDivisible)
    );
}
