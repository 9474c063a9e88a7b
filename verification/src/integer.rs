//! Integers with specified representations.

use crate::float::{apply, total, Float, Op};
use crate::text::{chars_of, string_of};
use crate::units::number::{Number, NumberView};
use vstd::prelude::*;

verus! {

/// The radix in which an integer is written.
#[derive(Copy, Clone, Debug, PartialEq, Eq, Structural)]
pub enum Representation {
    Binary,
    Decimal,
    Octal,
    Hexadecimal,
}

/// An integer represented in hexadecimal, decimal, octal, or binary.
#[derive(Copy, Clone, Debug, PartialEq, Eq, Structural)]
pub struct Integer {
    pub value: i64,
    pub repr: Representation,
}

/// The value of a character as a digit, for radixes up to 36: `0` to `9`,
/// then the letters in either case.
pub open spec fn digit_value(c: char) -> Option<int> {
    if '0' <= c <= '9' {
        Some(c as int - '0' as int)
    } else if 'a' <= c <= 'z' {
        Some(c as int - 'a' as int + 10)
    } else if 'A' <= c <= 'Z' {
        Some(c as int - 'A' as int + 10)
    } else {
        None
    }
}

/// Whether `c` is a digit of the given radix.
pub open spec fn is_digit(c: char, radix: int) -> bool {
    digit_value(c) matches Some(d) && d < radix
}

/// Whether every character of `s` is a digit of the given radix.
pub open spec fn all_digits(s: Seq<char>, radix: int) -> bool {
    forall|i: int| 0 <= i < s.len() ==> is_digit(#[trigger] s[i], radix)
}

/// The number that a sequence of digits denotes, most significant first.
pub open spec fn digits_value(s: Seq<char>, radix: int) -> int
    decreases s.len(),
{
    if s.len() == 0 {
        0
    } else {
        digits_value(s.drop_last(), radix) * radix + digit_value(s.last()).unwrap()
    }
}

/// The signed 64-bit integer that `s` denotes in the given radix: an optional
/// `+` or `-`, then at least one digit and nothing else. `None` where `s` has
/// another shape or the number does not fit.
pub open spec fn parse_radix(s: Seq<char>, radix: int) -> Option<i64> {
    let negative = s.len() > 0 && s[0] == '-';
    let signed = s.len() > 0 && (s[0] == '-' || s[0] == '+');
    let body = if signed {
        s.skip(1)
    } else {
        s
    };
    let size = digits_value(body, radix);
    let value = if negative {
        -size
    } else {
        size
    };
    if body.len() == 0 || !all_digits(body, radix) || value < i64::MIN || value > i64::MAX {
        None
    } else {
        Some(value as i64)
    }
}

/// `s` without the occurrences of `c`.
pub open spec fn without(s: Seq<char>, c: char) -> Seq<char>
    decreases s.len(),
{
    if s.len() == 0 {
        s
    } else if s.last() == c {
        without(s.drop_last(), c)
    } else {
        without(s.drop_last(), c).push(s.last())
    }
}

/// Whether `s` starts with the two characters `a` and `b`.
pub open spec fn starts_with2(s: Seq<char>, a: char, b: char) -> bool {
    s.len() >= 2 && s[0] == a && s[1] == b
}

/// The integer that `parsed` stands for, in the given representation.
pub open spec fn with_radix(parsed: Option<i64>, repr: Representation) -> Option<Integer> {
    match parsed {
        Some(value) => Some(Integer { value, repr }),
        None => None,
    }
}

/// The integer that a literal denotes.
///
/// A literal is hexadecimal after `0x`, `0X` or `$`, binary after `0b` or
/// `0B`, octal after `0o`, `0O` or a plain `0`, and decimal otherwise.
/// Underscores are dropped from what follows a prefix, and commas from a
/// decimal literal. The prefix decides alone: what follows it is read in its
/// radix or not at all.
pub open spec fn parse_literal(s: Seq<char>) -> Option<Integer> {
    if starts_with2(s, '0', 'x') || starts_with2(s, '0', 'X') {
        with_radix(parse_radix(without(s.skip(2), '_'), 16), Representation::Hexadecimal)
    } else if s.len() >= 1 && s[0] == '$' {
        with_radix(parse_radix(without(s.skip(1), '_'), 16), Representation::Hexadecimal)
    } else if starts_with2(s, '0', 'b') || starts_with2(s, '0', 'B') {
        with_radix(parse_radix(without(s.skip(2), '_'), 2), Representation::Binary)
    } else if starts_with2(s, '0', 'o') || starts_with2(s, '0', 'O') {
        with_radix(parse_radix(without(s.skip(2), '_'), 8), Representation::Octal)
    } else if s.len() >= 1 && s[0] == '0' {
        with_radix(parse_radix(without(s.skip(1), '_'), 8), Representation::Octal)
    } else {
        with_radix(parse_radix(without(s, ','), 10), Representation::Decimal)
    }
}

/// The character for a digit below 36, letters in lower case.
pub open spec fn digit_char(d: int) -> char {
    if d < 10 {
        ('0' as int + d) as char
    } else {
        ('a' as int + d - 10) as char
    }
}

/// The digits of `n` in the given radix, most significant first, without
/// leading zeros.
pub open spec fn digits_of(n: int, radix: int) -> Seq<char>
    decreases n,
{
    if n < radix || radix < 2 {
        seq![digit_char(n)]
    } else {
        proof {
            lemma_quotient_smaller(n, radix);
        }
        digits_of(n / radix, radix).push(digit_char(n % radix))
    }
}

/// Dividing by a radix makes a number smaller.
pub proof fn lemma_quotient_smaller(n: int, radix: int)
    requires
        2 <= radix <= n,
    ensures
        0 <= n / radix < n,
{
    assert(0 <= n / radix < n) by (nonlinear_arith)
        requires
            2 <= radix <= n,
    ;
}

/// `s` with `sep` between groups of `part` characters counted from the end,
/// the first `prefix` characters never being parted from the first group.
pub open spec fn grouped(s: Seq<char>, sep: char, part: int, prefix: int) -> Seq<char>
    decreases s.len(),
{
    if part > 0 && prefix >= 0 && s.len() > part + prefix {
        grouped(s.take(s.len() - part), sep, part, prefix).push(sep) + s.skip(s.len() - part)
    } else {
        s
    }
}

/// The bits of `v` read as an unsigned number (two's complement).
pub open spec fn unsigned(v: i64) -> int {
    if v >= 0 {
        v as int
    } else {
        v + 0x1_0000_0000_0000_0000
    }
}

/// The number whose two's complement bits are those of `u`.
pub open spec fn signed(u: u64) -> i64 {
    if u < 0x8000_0000_0000_0000 {
        u as i64
    } else {
        (u - 0x1_0000_0000_0000_0000) as i64
    }
}

/// Returns the bits of `v` as an unsigned number.
pub fn to_bits(v: i64) -> (r: u64)
    ensures
        r == unsigned(v),
{
    if v >= 0 {
        v as u64
    } else {
        (v + i64::MAX + 1) as u64 + 0x8000_0000_0000_0000
    }
}

/// Returns the number whose two's complement bits are those of `u`.
pub fn from_bits(u: u64) -> (r: i64)
    ensures
        r == signed(u),
{
    if u < 0x8000_0000_0000_0000 {
        u as i64
    } else {
        (u - 0x8000_0000_0000_0000) as i64 + i64::MIN
    }
}

/// `v` in decimal, with a leading `-` where it is negative.
pub open spec fn decimal(v: i64) -> Seq<char> {
    if v < 0 {
        seq!['-'] + digits_of(-(v as int), 10)
    } else {
        digits_of(v as int, 10)
    }
}

impl Integer {
    /// What `to_string` returns.
    pub open spec fn text(self) -> Seq<char> {
        match self.repr {
            Representation::Binary => grouped(
                seq!['0', 'b'] + digits_of(unsigned(self.value), 2),
                '_',
                8,
                2,
            ),
            Representation::Decimal => grouped(decimal(self.value), ',', 3, 0),
            Representation::Octal => grouped(
                seq!['0'] + digits_of(unsigned(self.value), 8),
                '_',
                3,
                1,
            ),
            Representation::Hexadecimal => grouped(
                seq!['0', 'x'] + digits_of(unsigned(self.value), 16),
                '_',
                8,
                2,
            ),
        }
    }

    /// Converts a string slice in hexadecimal, decimal, octal, or binary.
    ///
    /// Recognized prefixes for non-decimal numbers are:
    /// - `0x`, `0X`, `$` (hexadecimal)
    /// - `0o`, `0O`, `0` (octal)
    /// - `0b`, `0B` (binary)
    ///
    /// Underscores may be added to non-decimal numbers, and commas to decimal
    /// numbers, to make them more readable.
    pub fn parse(s: &str) -> (r: Option<Integer>)
        ensures
            r == parse_literal(s@),
    {
        let chars = chars_of(s);
        let n: usize = chars.len();
        let second: char = if n >= 2 {
            chars[1]
        } else {
            ' '
        };
        if n >= 2 && chars[0] == '0' && (second == 'x' || second == 'X') {
            let body = strip(&chars, 2, '_');
            Integer::from_parsed(parse_digits(&body, 16), Representation::Hexadecimal)
        } else if n >= 1 && chars[0] == '$' {
            let body = strip(&chars, 1, '_');
            Integer::from_parsed(parse_digits(&body, 16), Representation::Hexadecimal)
        } else if n >= 2 && chars[0] == '0' && (second == 'b' || second == 'B') {
            let body = strip(&chars, 2, '_');
            Integer::from_parsed(parse_digits(&body, 2), Representation::Binary)
        } else if n >= 2 && chars[0] == '0' && (second == 'o' || second == 'O') {
            let body = strip(&chars, 2, '_');
            Integer::from_parsed(parse_digits(&body, 8), Representation::Octal)
        } else if n >= 1 && chars[0] == '0' {
            let body = strip(&chars, 1, '_');
            Integer::from_parsed(parse_digits(&body, 8), Representation::Octal)
        } else {
            let body = strip(&chars, 0, ',');
            assert(chars@.skip(0) =~= chars@);
            Integer::from_parsed(parse_digits(&body, 10), Representation::Decimal)
        }
    }

    fn from_parsed(parsed: Option<i64>, repr: Representation) -> (r: Option<Integer>)
        ensures
            r == with_radix(parsed, repr),
    {
        match parsed {
            Some(value) => Some(Integer { value, repr }),
            None => None,
        }
    }

    /// Make a new integer.
    pub fn new(value: i64, repr: Representation) -> (r: Integer)
        ensures
            r == (Integer { value, repr }),
    {
        Integer { value, repr }
    }

    /// Make a new integer with binary representation.
    pub fn bin(value: i64) -> (r: Integer)
        ensures
            r == (Integer { value, repr: Representation::Binary }),
    {
        Integer { value, repr: Representation::Binary }
    }

    /// Make a new integer with decimal representation.
    pub fn dec(value: i64) -> (r: Integer)
        ensures
            r == (Integer { value, repr: Representation::Decimal }),
    {
        Integer { value, repr: Representation::Decimal }
    }

    /// Make a new integer with octal representation.
    pub fn oct(value: i64) -> (r: Integer)
        ensures
            r == (Integer { value, repr: Representation::Octal }),
    {
        Integer { value, repr: Representation::Octal }
    }

    /// Make a new integer with hexadecimal representation.
    pub fn hex(value: i64) -> (r: Integer)
        ensures
            r == (Integer { value, repr: Representation::Hexadecimal }),
    {
        Integer { value, repr: Representation::Hexadecimal }
    }

    /// Make a new integer with the same value but a different representation.
    pub fn with_repr(&self, repr: Representation) -> (r: Integer)
        ensures
            r == (Integer { value: self.value, repr }),
    {
        Integer { value: self.value, repr }
    }

    /// The sum, wrapping around at the bounds of the type, in the
    /// representation of `self`.
    pub open spec fn plus(self, other: Integer) -> Integer {
        Integer {
            value: vstd::wrapping::i64_specs::wrapping_add(self.value, other.value),
            repr: self.repr,
        }
    }

    /// The difference, wrapping around at the bounds of the type, in the
    /// representation of `self`.
    pub open spec fn minus(self, other: Integer) -> Integer {
        Integer {
            value: vstd::wrapping::i64_specs::wrapping_sub(self.value, other.value),
            repr: self.repr,
        }
    }

    /// The product, wrapping around at the bounds of the type, in the
    /// representation of `self`.
    pub open spec fn times(self, other: Integer) -> Integer {
        Integer {
            value: vstd::wrapping::i64_specs::wrapping_mul(self.value, other.value),
            repr: self.repr,
        }
    }

    /// The sum, wrapping around at the bounds of the type, in the
    /// representation of `self`.
    pub fn add(&self, other: &Integer) -> (r: Integer)
        ensures
            r == self.plus(*other),
    {
        Integer { value: self.value.wrapping_add(other.value), repr: self.repr }
    }

    /// The difference, wrapping around at the bounds of the type, in the
    /// representation of `self`.
    pub fn sub(&self, other: &Integer) -> (r: Integer)
        ensures
            r == self.minus(*other),
    {
        Integer { value: self.value.wrapping_sub(other.value), repr: self.repr }
    }

    /// The product, wrapping around at the bounds of the type, in the
    /// representation of `self`.
    pub fn mul(&self, other: &Integer) -> (r: Integer)
        ensures
            r == self.times(*other),
    {
        Integer { value: self.value.wrapping_mul(other.value), repr: self.repr }
    }

    /// Converts this integer into a dimensionless floating-point number, the
    /// nearest that there is.
    pub fn as_units_number(&self) -> (r: Number)
        ensures
            r@ == (NumberView { value: Float::of_int(self.value as int), unit: None }),
    {
        Number::new(Float::from_i64(self.value))
    }

    /// The quotient as a dimensionless floating-point number: both integers
    /// are converted, then divided.
    pub fn div<F: Fn(Op, Float, Float) -> Float>(&self, other: &Integer, fpu: &F) -> (r: Number)
        requires
            total(fpu),
        ensures
            r@.unit is None,
            call_ensures(
                *fpu,
                (Op::Div, Float::of_int(self.value as int), Float::of_int(other.value as int)),
                r@.value,
            ),
    {
        Number::new(
            apply(fpu, Op::Div, Float::from_i64(self.value), Float::from_i64(other.value), false),
        )
    }

    /// Writes the integer in its representation: binary after `0b` and
    /// hexadecimal after `0x` in groups of eight digits, octal after `0` in
    /// groups of three, decimal in groups of three. Negative numbers are
    /// written in two's complement but in decimal.
    pub fn to_string(&self) -> (s: String)
        ensures
            s@ == self.text(),
    {
        let mut raw: Vec<char> = Vec::new();
        let bits: u64 = to_bits(self.value);
        let mut out: Vec<char> = Vec::new();
        match self.repr {
            Representation::Binary => {
                raw.push('0');
                raw.push('b');
                push_digits(&mut raw, bits, 2);
                assert(raw@ =~= seq!['0', 'b'] + digits_of(unsigned(self.value), 2));
                push_grouped(&mut out, &raw, raw.len(), '_', 8, 2);
            },
            Representation::Decimal => {
                if self.value < 0 {
                    raw.push('-');
                    let size: u64 = if self.value == i64::MIN {
                        0x8000_0000_0000_0000
                    } else {
                        (-self.value) as u64
                    };
                    push_digits(&mut raw, size, 10);
                    assert(raw@ =~= seq!['-'] + digits_of(-(self.value as int), 10));
                } else {
                    push_digits(&mut raw, bits, 10);
                    assert(raw@ =~= digits_of(self.value as int, 10));
                }
                push_grouped(&mut out, &raw, raw.len(), ',', 3, 0);
            },
            Representation::Octal => {
                raw.push('0');
                push_digits(&mut raw, bits, 8);
                assert(raw@ =~= seq!['0'] + digits_of(unsigned(self.value), 8));
                push_grouped(&mut out, &raw, raw.len(), '_', 3, 1);
            },
            Representation::Hexadecimal => {
                raw.push('0');
                raw.push('x');
                push_digits(&mut raw, bits, 16);
                assert(raw@ =~= seq!['0', 'x'] + digits_of(unsigned(self.value), 16));
                push_grouped(&mut out, &raw, raw.len(), '_', 8, 2);
            },
        }
        assert(raw@.take(raw@.len() as int) =~= raw@);
        string_of(&out)
    }
}

/// Adds separators to a string.
///
/// Starting from the end, `sep` is inserted every `part_len` characters,
/// ignoring `prefix_len` characters at the beginning of the string.
pub fn separators(s: String, sep: char, part_len: usize, prefix_len: usize) -> (r: String)
    requires
        part_len > 0,
    ensures
        r@ == grouped(s@, sep, part_len as int, prefix_len as int),
{
    let chars = chars_of(s.as_str());
    let mut out: Vec<char> = Vec::new();
    push_grouped(&mut out, &chars, chars.len(), sep, part_len, prefix_len);
    assert(chars@.take(chars@.len() as int) =~= chars@);
    string_of(&out)
}

/// Appends to `out` the first `end` characters of `s`, grouped.
fn push_grouped(
    out: &mut Vec<char>,
    s: &Vec<char>,
    end: usize,
    sep: char,
    part_len: usize,
    prefix_len: usize,
)
    requires
        part_len > 0,
        end <= s.len(),
    ensures
        final(out)@ == old(out)@ + grouped(
            s@.take(end as int),
            sep,
            part_len as int,
            prefix_len as int,
        ),
    decreases end,
{
    let ghost head = s@.take(end as int);
    if end > part_len && end - part_len > prefix_len {
        let cut: usize = end - part_len;
        push_grouped(out, s, cut, sep, part_len, prefix_len);
        out.push(sep);
        let mut i: usize = cut;
        while i < end
            invariant
                cut <= i <= end <= s.len(),
                out@ == old(out)@ + grouped(
                    s@.take(cut as int),
                    sep,
                    part_len as int,
                    prefix_len as int,
                ).push(sep) + s@.subrange(cut as int, i as int),
            decreases end - i,
        {
            out.push(s[i]);
            assert(s@.subrange(cut as int, i + 1) =~= s@.subrange(cut as int, i as int).push(
                s@[i as int],
            ));
            i = i + 1;
        }
        assert(head.take(head.len() - part_len) =~= s@.take(cut as int));
        assert(head.skip(head.len() - part_len) =~= s@.subrange(cut as int, end as int));
    } else {
        let mut i: usize = 0;
        while i < end
            invariant
                i <= end <= s.len(),
                out@ == old(out)@ + s@.take(i as int),
            decreases end - i,
        {
            out.push(s[i]);
            assert(s@.take(i + 1) =~= s@.take(i as int).push(s@[i as int]));
            i = i + 1;
        }
    }
}

/// Appends the digits of `n` in the given radix.
fn push_digits(out: &mut Vec<char>, n: u64, radix: u64)
    requires
        2 <= radix <= 36,
    ensures
        final(out)@ == old(out)@ + digits_of(n as int, radix as int),
    decreases n,
{
    if n >= radix {
        proof {
            lemma_quotient_smaller(n as int, radix as int);
        }
        push_digits(out, n / radix, radix);
    }
    let d: u64 = n % radix;
    let c: char = if d < 10 {
        (('0' as u8) + (d as u8)) as char
    } else {
        (('a' as u8) + (d as u8) - 10) as char
    };
    assert(c == digit_char(d as int));
    let ghost before = out@;
    out.push(c);
    proof {
        if n >= radix {
            assert(before == old(out)@ + digits_of(n as int / radix as int, radix as int));
            assert(digits_of(n as int, radix as int) == digits_of(
                n as int / radix as int,
                radix as int,
            ).push(c));
        } else {
            assert(n % radix == n) by (nonlinear_arith)
                requires
                    n < radix,
            ;
            assert(digits_of(n as int, radix as int) == seq![c]);
        }
        assert(out@ =~= old(out)@ + digits_of(n as int, radix as int));
    }
}

/// Lists the characters of `s` from index `from` on that are not `c`.
fn strip(s: &Vec<char>, from: usize, c: char) -> (r: Vec<char>)
    requires
        from <= s.len(),
    ensures
        r@ == without(s@.skip(from as int), c),
{
    let mut r: Vec<char> = Vec::new();
    let mut i: usize = from;
    let ghost tail = s@.skip(from as int);
    assert(tail.take(0) =~= Seq::<char>::empty());
    while i < s.len()
        invariant
            from <= i <= s.len(),
            tail == s@.skip(from as int),
            r@ == without(tail.take(i - from), c),
        decreases s.len() - i,
    {
        let x: char = s[i];
        proof {
            let before = tail.take(i - from);
            assert(tail.take(i - from + 1).drop_last() =~= before);
            assert(tail.take(i - from + 1).last() == x);
        }
        if x != c {
            r.push(x);
        }
        i = i + 1;
    }
    assert(tail.take(s.len() - from) =~= tail);
    r
}

/// The value of `c` as a digit below 36.
fn digit_of(c: char) -> (r: Option<u64>)
    ensures
        match r {
            Some(d) => digit_value(c) == Some(d as int) && d < 36,
            None => digit_value(c) is None,
        },
{
    if '0' <= c && c <= '9' {
        Some((c as u64) - ('0' as u64))
    } else if 'a' <= c && c <= 'z' {
        Some((c as u64) - ('a' as u64) + 10)
    } else if 'A' <= c && c <= 'Z' {
        Some((c as u64) - ('A' as u64) + 10)
    } else {
        None
    }
}

proof fn lemma_digits_value_bounds(s: Seq<char>, radix: int, k: int)
    requires
        2 <= radix <= 36,
        all_digits(s, radix),
        0 <= k <= s.len(),
    ensures
        0 <= digits_value(s.take(k), radix) <= digits_value(s, radix),
    decreases s.len() - k,
{
    lemma_digits_value_nonnegative(s.take(k), radix);
    if k == s.len() {
        assert(s.take(k) =~= s);
    } else {
        lemma_digits_value_bounds(s, radix, k + 1);
        let longer = s.take(k + 1);
        assert(longer.drop_last() =~= s.take(k));
        assert(is_digit(s[k], radix));
        let low = digits_value(s.take(k), radix);
        assert(low * radix >= low) by (nonlinear_arith)
            requires
                low >= 0,
                radix >= 2,
        ;
    }
}

proof fn lemma_digits_value_nonnegative(s: Seq<char>, radix: int)
    requires
        2 <= radix <= 36,
        all_digits(s, radix),
    ensures
        0 <= digits_value(s, radix),
    decreases s.len(),
{
    if s.len() > 0 {
        lemma_digits_value_nonnegative(s.drop_last(), radix);
        assert(is_digit(s[s.len() - 1], radix));
        let low = digits_value(s.drop_last(), radix);
        assert(low * radix >= 0) by (nonlinear_arith)
            requires
                low >= 0,
                radix >= 2,
        ;
    }
}

/// Reads a signed number in the given radix.
fn parse_digits(s: &Vec<char>, radix: u64) -> (r: Option<i64>)
    requires
        2 <= radix <= 36,
    ensures
        r == parse_radix(s@, radix as int),
{
    let n: usize = s.len();
    let negative: bool = n > 0 && s[0] == '-';
    let start: usize = if n > 0 && (s[0] == '-' || s[0] == '+') {
        1
    } else {
        0
    };
    let ghost body = if start == 1 {
        s@.skip(1)
    } else {
        s@
    };
    if start == n {
        return None;
    }
    let limit: u64 = 0x8000_0000_0000_0000;
    let mut size: u64 = 0;
    let mut i: usize = start;
    assert(body.take(0) =~= Seq::<char>::empty());
    while i < n
        invariant
            start <= i <= n,
            n == s.len(),
            2 <= radix <= 36,
            start <= 1,
            (start == 1) == (s@.len() > 0 && (s@[0] == '-' || s@[0] == '+')),
            negative == (s@.len() > 0 && s@[0] == '-'),
            body == (if start == 1 {
                s@.skip(1)
            } else {
                s@
            }),
            all_digits(body.take(i - start), radix as int),
            size == digits_value(body.take(i - start), radix as int),
            size <= limit,
            limit == 0x8000_0000_0000_0000,
        decreases n - i,
    {
        let ghost before = body.take(i - start);
        let ghost longer = body.take(i - start + 1);
        proof {
            assert(longer.drop_last() =~= before);
            assert(longer.last() == s@[i as int]);
        }
        match digit_of(s[i]) {
            Some(d) => {
                if d >= radix {
                    assert(!is_digit(body[i - start], radix as int));
                    return None;
                }
                assert(size * radix <= 0x8000_0000_0000_0000 * 36) by (nonlinear_arith)
                    requires
                        size <= 0x8000_0000_0000_0000,
                        radix <= 36,
                ;
                let next: u128 = (size as u128) * (radix as u128) + (d as u128);
                if next > limit as u128 {
                    proof {
                        if all_digits(body, radix as int) {
                            lemma_digits_value_bounds(body, radix as int, i - start + 1);
                        }
                    }
                    return None;
                }
                proof {
                    assert forall|j: int| 0 <= j < longer.len() implies is_digit(
                        #[trigger] longer[j],
                        radix as int,
                    ) by {
                        if j < before.len() {
                            assert(longer[j] == before[j]);
                        }
                    }
                }
                size = next as u64;
            },
            None => {
                assert(!is_digit(body[i - start], radix as int));
                return None;
            },
        }
        i = i + 1;
    }
    assert(body.take(n - start) =~= body);
    if negative {
        if size == limit {
            Some(i64::MIN)
        } else {
            Some(-(size as i64))
        }
    } else if size == limit {
        None
    } else {
        Some(size as i64)
    }
}

} // verus!
