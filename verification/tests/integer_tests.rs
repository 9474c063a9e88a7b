use calc::integer::{separators, Integer, Representation};

#[test]
fn binary_bin_display() {
    let b = Integer::bin(0b101011001100010101101);
    assert_eq!(b.to_string(), "0b10101_10011000_10101101");
}

#[test]
fn binary_oct_display() {
    let b = Integer::oct(0o72625173);
    assert_eq!(b.to_string(), "072_625_173");
}

#[test]
fn binary_dec_display() {
    let b = Integer::dec(12345678);
    assert_eq!(b.to_string(), "12,345,678");
}

#[test]
fn binary_hex_display() {
    let b = Integer::hex(0xbeefcafeface);
    assert_eq!(b.to_string(), "0xbeef_cafeface");
}

#[test]
fn integer_bin_display() {
    let b = Integer::bin(0b101011001100010101101);
    assert_eq!(b.to_string(), "0b10101_10011000_10101101");
}

#[test]
fn integer_oct_display() {
    let b = Integer::oct(0o72625173);
    assert_eq!(b.to_string(), "072_625_173");
}

#[test]
fn integer_dec_display() {
    let b = Integer::dec(12345678);
    assert_eq!(b.to_string(), "12,345,678");
}

#[test]
fn integer_hex_display() {
    let b = Integer::hex(0xbeefcafeface);
    assert_eq!(b.to_string(), "0xbeef_cafeface");
}

#[test]
fn parse_recognizes_each_prefix() {
    assert_eq!(Integer::parse("0xcafe"), Some(Integer { value: 0xcafe, repr: Representation::Hexadecimal }));
    assert_eq!(Integer::parse("0XCAFE"), Some(Integer::hex(0xcafe)));
    assert_eq!(Integer::parse("$ff"), Some(Integer::hex(255)));
    assert_eq!(Integer::parse("123,456,789"), Some(Integer { value: 123456789, repr: Representation::Decimal }));
    assert_eq!(Integer::parse("0774"), Some(Integer { value: 0o774, repr: Representation::Octal }));
    assert_eq!(Integer::parse("0o774"), Some(Integer::oct(0o774)));
    assert_eq!(Integer::parse("0O7"), Some(Integer::oct(7)));
    assert_eq!(
        Integer::parse("0b110100_11101101"),
        Some(Integer { value: 0b11010011101101, repr: Representation::Binary })
    );
    assert_eq!(Integer::parse("0B1"), Some(Integer::bin(1)));
}

#[test]
fn parse_agrees_with_the_standard_library() {
    let cases = [
        "", "0", "00", "5", "-5", "+5", "-", "+", "--5", "5-", "1,000", ",", "1_000", "0x", "0x_", "0x-ff",
        "0x+1", "0xg", "0b2", "0b", "09", "0_7", "$", "$-1", "12a", " 5", "5 ", "9223372036854775807",
        "9223372036854775808", "-9223372036854775808", "-9223372036854775809",
        "0x7fffffffffffffff", "0x8000000000000000", "0x-8000000000000000", "0xffffffffffffffff",
        "0b111111111111111111111111111111111111111111111111111111111111111",
        "0777777777777777777777", "01000000000000000000000", "1e5", "1.5", "inf", "m", "0xFf_Ff",
    ];
    for s in cases {
        let radix = |body: String, r: u32, make: fn(i64) -> Integer| i64::from_str_radix(&body, r).ok().map(make);
        let expected = if s.starts_with("0x") || s.starts_with("0X") {
            radix(s.replace('_', "")[2..].to_string(), 16, Integer::hex)
        } else if s.starts_with('$') {
            radix(s.replace('_', "")[1..].to_string(), 16, Integer::hex)
        } else if s.starts_with("0b") || s.starts_with("0B") {
            radix(s.replace('_', "")[2..].to_string(), 2, Integer::bin)
        } else if s.starts_with("0o") || s.starts_with("0O") {
            radix(s.replace('_', "")[2..].to_string(), 8, Integer::oct)
        } else if s.starts_with('0') {
            radix(s.replace('_', "")[1..].to_string(), 8, Integer::oct)
        } else {
            s.replace(',', "").parse::<i64>().ok().map(Integer::dec)
        };
        assert_eq!(Integer::parse(s), expected, "{s:?}");
    }
}

#[test]
fn parse_reads_a_plain_zero_as_no_integer() {
    assert_eq!(Integer::parse("0"), None);
}

#[test]
fn display_agrees_with_the_standard_library() {
    for v in [0i64, 1, -1, 7, 8, 255, 256, 999, 1000, -1000, 123456789, i64::MAX, i64::MIN, -255] {
        assert_eq!(Integer::bin(v).to_string(), separators(format!("0b{:b}", v), '_', 8, 2));
        assert_eq!(Integer::oct(v).to_string(), separators(format!("0{:o}", v), '_', 3, 1));
        assert_eq!(Integer::hex(v).to_string(), separators(format!("0x{:x}", v), '_', 8, 2));
        assert_eq!(Integer::dec(v).to_string(), separators(format!("{:?}", v), ',', 3, 0));
    }
}

#[test]
fn separators_count_from_the_end() {
    assert_eq!(separators(String::from("1234567"), ',', 3, 0), "1,234,567");
    assert_eq!(separators(String::from("123"), ',', 3, 0), "123");
    assert_eq!(separators(String::from("0x123456789"), '_', 8, 2), "0x1_23456789");
    assert_eq!(separators(String::from("0x12345678"), '_', 8, 2), "0x12345678");
    assert_eq!(separators(String::from(""), '_', 8, 2), "");
    assert_eq!(separators(String::from("-123456"), ',', 3, 0), "-,123,456");
}

#[test]
fn hex_literal_round_trips_to_its_display() {
    let x = Integer::parse("0xFF").unwrap();
    assert_eq!(x.with_repr(Representation::Hexadecimal).to_string(), "0xff");
    assert_eq!(x.with_repr(Representation::Decimal).to_string(), "255");
}

#[test]
fn constructors_keep_value_and_representation() {
    assert_eq!(Integer::new(5, Representation::Octal), Integer::oct(5));
    assert_eq!(Integer::bin(5).repr, Representation::Binary);
    assert_eq!(Integer::dec(5).repr, Representation::Decimal);
    assert_eq!(Integer::hex(5).repr, Representation::Hexadecimal);
    assert_eq!(Integer::hex(5).with_repr(Representation::Binary), Integer::bin(5));
}

#[test]
fn integer_arithmetic_keeps_the_left_representation_and_wraps() {
    let a = Integer::hex(7);
    let b = Integer::dec(5);
    assert_eq!(a.add(&b), Integer::hex(12));
    assert_eq!(a.sub(&b), Integer::hex(2));
    assert_eq!(a.mul(&b), Integer::hex(35));
    assert_eq!(Integer::dec(i64::MAX).add(&Integer::dec(1)), Integer::dec(i64::MIN));
    assert_eq!(Integer::dec(i64::MIN).sub(&Integer::dec(1)), Integer::dec(i64::MAX));
    assert_eq!(Integer::dec(i64::MAX).mul(&Integer::dec(2)), Integer::dec(-2));
}
