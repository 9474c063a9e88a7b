//! Units and numbers as text.

use super::base::Base;
use super::number::{as_nats, base_counts, tally, Number, NumberView};
use super::unit::{Unit, UnitView};
use crate::float::{Float, INFINITY_BITS, LARGE_BITS, SIGN_BIT, SMALL_BITS};
use crate::integer::lemma_quotient_smaller;
use crate::text::{chars_of, push_all, push_str, string_of};
use vstd::prelude::*;

verus! {

/// The sign that stands between the parts of a unit: the dot operator.
pub const DOT: char = '\u{22c5}';

/// The sign before a negative exponent: the superscript minus.
pub const MINUS: char = '\u{207b}';

/// The superscript form of a decimal digit.
pub open spec fn superscript(d: int) -> char {
    if d == 0 {
        '\u{2070}'
    } else if d == 1 {
        '\u{b9}'
    } else if d == 2 {
        '\u{b2}'
    } else if d == 3 {
        '\u{b3}'
    } else if d == 4 {
        '\u{2074}'
    } else if d == 5 {
        '\u{2075}'
    } else if d == 6 {
        '\u{2076}'
    } else if d == 7 {
        '\u{2077}'
    } else if d == 8 {
        '\u{2078}'
    } else {
        '\u{2079}'
    }
}

/// A number in superscript decimal digits.
pub open spec fn superscripts(n: int) -> Seq<char>
    decreases n,
{
    if n < 10 {
        seq![superscript(n)]
    } else {
        proof {
            lemma_quotient_smaller(n, 10);
        }
        superscripts(n / 10).push(superscript(n % 10))
    }
}

/// A base with its exponent: the symbol, the sign of the exponent where one
/// is given, and the exponent, which is left out where it is a positive one.
pub open spec fn part(b: Base, count: nat, sign: Option<char>) -> Seq<char> {
    b.symbol@ + (match sign {
        Some(c) => seq![c],
        None => Seq::empty(),
    }) + (if count > 1 || sign is Some {
        superscripts(count as int)
    } else {
        Seq::empty()
    })
}

/// Bases with their exponents, joined by dots.
pub open spec fn joined(bases: Seq<Base>, counts: Seq<nat>, sign: Option<char>) -> Seq<char>
    decreases bases.len(),
{
    if bases.len() == 0 || counts.len() != bases.len() {
        Seq::empty()
    } else if bases.len() == 1 {
        part(bases[0], counts[0], sign)
    } else {
        joined(bases.drop_last(), counts.drop_last(), sign).push(DOT) + part(
            bases.last(),
            counts.last(),
            sign,
        )
    }
}

/// The distinct bases of a sequence with their exponents, like "m²⋅A¹⋅s¹"
/// with each exponent prefixed by the sign, or `None` for no bases.
pub open spec fn bases_text(bases: Seq<Base>, sign: Option<char>) -> Option<Seq<char>> {
    if bases.len() == 0 {
        None
    } else {
        Some(joined(tally(bases).0, tally(bases).1, sign))
    }
}

/// A unit as text: its symbol where it has one, else its bases with their
/// exponents, those with positive exponents first.
pub open spec fn unit_text(u: UnitView) -> Seq<char> {
    match u.symbol {
        Some(s) => s,
        None => match (bases_text(u.numer, None), bases_text(u.denom, Some(MINUS))) {
            (Some(pos), Some(neg)) => pos.push(DOT) + neg,
            (Some(pos), None) => pos,
            (None, Some(neg)) => neg,
            (None, None) => Seq::empty(),
        },
    }
}

/// How the value of a number is written.
#[derive(Clone, Copy, Debug, PartialEq, Eq, Structural)]
pub enum Notation {
    /// As a plain `0`: the value is zero, positive or negative.
    Zero,
    /// With an exponent and at most six digits behind the point: the value
    /// is finite, and smaller than 0.001 or at least 10^10.
    Scientific,
    /// With at most six digits behind the point.
    Decimal,
}

/// How a value is written.
pub open spec fn notation_of(value: Float) -> Notation {
    if value.is_zero() {
        Notation::Zero
    } else if value.is_finite() && (value.magnitude() < SMALL_BITS || value.magnitude()
        >= LARGE_BITS) {
        Notation::Scientific
    } else {
        Notation::Decimal
    }
}

/// `s` without the characters `c` at its end.
pub open spec fn strip_end(s: Seq<char>, c: char) -> Seq<char>
    decreases s.len(),
{
    if s.len() > 0 && s.last() == c {
        strip_end(s.drop_last(), c)
    } else {
        s
    }
}

/// Digits without the zeros at their end, and without the point that would
/// be left at the end.
pub open spec fn trimmed(s: Seq<char>) -> Seq<char> {
    strip_end(strip_end(s, '0'), '.')
}

/// Whether `k` is the place of the first `e` in `s`.
pub open spec fn is_first_e(s: Seq<char>, k: int) -> bool {
    &&& 0 <= k < s.len()
    &&& s[k] == 'e'
    &&& forall|i: int| 0 <= i < k ==> #[trigger] s[i] != 'e'
}

/// A value in scientific notation, with its significand trimmed.
pub open spec fn scientific(raw: Seq<char>) -> Seq<char> {
    let k = choose|k: int| is_first_e(raw, k);
    trimmed(raw.take(k)).push('e') + raw.skip(k + 1)
}

/// The text of a value. `raw` is the value written with six digits behind
/// the point, with an exponent where the notation is scientific.
pub open spec fn value_text(notation: Notation, raw: Seq<char>) -> Seq<char> {
    match notation {
        Notation::Zero => seq!['0'],
        Notation::Scientific => scientific(raw),
        Notation::Decimal => trimmed(raw),
    }
}

/// The text of a number: its value, in brackets with its unit where it has
/// one.
pub open spec fn number_text(n: NumberView, raw: Seq<char>) -> Seq<char> {
    let value = value_text(notation_of(n.value), raw);
    match n.unit {
        Some(u) => seq!['['] + value + seq![' '] + unit_text(u) + seq![']'],
        None => value,
    }
}

/// The superscript form of a decimal digit.
fn superscript_of(d: u64) -> (c: char)
    requires
        d < 10,
    ensures
        c == superscript(d as int),
{
    if d == 0 {
        '\u{2070}'
    } else if d == 1 {
        '\u{b9}'
    } else if d == 2 {
        '\u{b2}'
    } else if d == 3 {
        '\u{b3}'
    } else if d == 4 {
        '\u{2074}'
    } else if d == 5 {
        '\u{2075}'
    } else if d == 6 {
        '\u{2076}'
    } else if d == 7 {
        '\u{2077}'
    } else if d == 8 {
        '\u{2078}'
    } else {
        '\u{2079}'
    }
}

/// Turns an integer `i` into a string using superscript digits.
pub fn i_to_str_superscripts(i: usize) -> (s: String)
    ensures
        s@ == superscripts(i as int),
{
    let mut out: Vec<char> = Vec::new();
    push_superscripts(&mut out, i as u64);
    string_of(&out)
}

/// Appends `n` in superscript digits.
fn push_superscripts(out: &mut Vec<char>, n: u64)
    ensures
        final(out)@ == old(out)@ + superscripts(n as int),
    decreases n,
{
    if n >= 10 {
        proof {
            lemma_quotient_smaller(n as int, 10);
        }
        push_superscripts(out, n / 10);
    }
    let c = superscript_of(n % 10);
    out.push(c);
    assert(out@ =~= old(out)@ + superscripts(n as int));
}

/// Appends a base with its exponent.
fn push_part(out: &mut Vec<char>, b: &Base, count: usize, sign: Option<char>)
    ensures
        final(out)@ == old(out)@ + part(*b, count as nat, sign),
{
    push_str(out, b.symbol);
    match sign {
        Some(c) => {
            out.push(c);
        },
        None => {},
    }
    if count > 1 || sign.is_some() {
        push_superscripts(out, count as u64);
    }
    assert(out@ =~= old(out)@ + part(*b, count as nat, sign));
}

/// Given a sequence of bases, appends a string like "m²⋅A¹⋅s¹". Each exponent
/// is prefixed with `sign`. Tells whether there was a base.
fn push_bases_text(out: &mut Vec<char>, bases: &Vec<Base>, sign: Option<char>) -> (some: bool)
    ensures
        some == (bases_text(bases@, sign) is Some),
        final(out)@ == old(out)@ + (match bases_text(bases@, sign) {
            Some(t) => t,
            None => Seq::empty(),
        }),
{
    if bases.len() == 0 {
        assert(out@ =~= old(out)@ + Seq::<char>::empty());
        return false;
    }
    // Count the number of times each base occurs, preserving the order in
    // in which each base is first encountered.

    let counted = base_counts(bases);
    let uniq = counted.0;
    let counts = counted.1;
    let ghost all = as_nats(counts@);
    // Generate a string containing each base and its exponent.
    let mut ix: usize = 0;
    assert(uniq@.take(0) =~= Seq::<Base>::empty());
    assert(all.take(0) =~= Seq::<nat>::empty());
    assert(out@ =~= old(out)@ + Seq::<char>::empty());
    while ix < uniq.len()
        invariant
            ix <= uniq.len(),
            uniq.len() == counts.len(),
            all == as_nats(counts@),
            out@ == old(out)@ + joined(uniq@.take(ix as int), all.take(ix as int), sign),
        decreases uniq.len() - ix,
    {
        if ix > 0 {
            out.push(DOT);
        }
        push_part(out, &uniq[ix], counts[ix], sign);
        proof {
            let b = uniq@.take(ix + 1);
            let c = all.take(ix + 1);
            assert(b.drop_last() =~= uniq@.take(ix as int));
            assert(c.drop_last() =~= all.take(ix as int));
            assert(b.last() == uniq@[ix as int]);
            assert(c.last() == counts@[ix as int] as nat);
            assert(out@ =~= old(out)@ + joined(b, c, sign));
        }
        ix = ix + 1;
    }
    assert(uniq@.take(uniq.len() as int) =~= uniq@);
    assert(all.take(uniq.len() as int) =~= all);
    true
}

impl Unit {
    /// Writes the unit: its symbol, or its bases with their exponents.
    ///
    /// A unit without a symbol and without bases has no text: it stands for a
    /// plain number.
    pub fn to_string(&self) -> (s: String)
        requires
            self@.symbol is Some || !self@.is_scalar(),
        ensures
            s@ == unit_text(self@),
    {
        // If the unit has an assigned symbol, just use that.
        match self.symbol() {
            Some(symbol) => symbol.clone(),
            None => {
                // Otherwise, generate a string with the symbol's bases and
                // exponents.
                let mut out: Vec<char> = Vec::new();
                let pos = push_bases_text(&mut out, self.numer(), None);
                if pos && self.denom().len() > 0 {
                    out.push(DOT);
                }
                push_bases_text(&mut out, self.denom(), Some(MINUS));
                assert(out@ =~= unit_text(self@));
                string_of(&out)
            },
        }
    }
}

/// Drops the characters `c` at the end of `s`.
fn trim_end(s: &mut Vec<char>, c: char)
    ensures
        final(s)@ == strip_end(old(s)@, c),
{
    while s.len() > 0 && s[s.len() - 1] == c
        invariant
            strip_end(s@, c) == strip_end(old(s)@, c),
        decreases s.len(),
    {
        s.pop();
    }
}

/// Finds the first `e`.
fn find_e(s: &Vec<char>) -> (r: Option<usize>)
    ensures
        match r {
            Some(k) => is_first_e(s@, k as int) && k == (choose|k: int| is_first_e(s@, k)),
            None => forall|i: int| 0 <= i < s@.len() ==> #[trigger] s@[i] != 'e',
        },
{
    let mut k: usize = 0;
    while k < s.len()
        invariant
            k <= s.len(),
            forall|i: int| 0 <= i < k ==> #[trigger] s@[i] != 'e',
        decreases s.len() - k,
    {
        if s[k] == 'e' {
            assert(is_first_e(s@, k as int));
            return Some(k);
        }
        k = k + 1;
    }
    None
}

impl Number {
    /// Tells how the value is to be written: exponent format for very small
    /// and very large numbers, decimal format for everything else (including
    /// NaNs and infinites), and a plain zero for both zeros.
    pub fn notation(&self) -> (r: Notation)
        ensures
            r == notation_of(self.value),
    {
        let size: u64 = self.value.bits % SIGN_BIT;
        if size == 0 {
            Notation::Zero
        } else if size < INFINITY_BITS && (size < SMALL_BITS || size >= LARGE_BITS) {
            Notation::Scientific
        } else {
            Notation::Decimal
        }
    }

    /// Writes the number. `raw` is its value written with six digits behind
    /// the point, with an exponent where the notation is scientific. Zeros at
    /// the end of the digits are dropped, and so is a point that would be
    /// left at their end. A number with a unit is written in brackets.
    pub fn render(&self, raw: &str) -> (s: String)
        requires
            notation_of(self.value) == Notation::Scientific ==> raw@.contains('e'),
            match self@.unit {
                Some(u) => u.symbol is Some || !u.is_scalar(),
                None => true,
            },
        ensures
            s@ == number_text(self@, raw@),
    {
        let mut value: Vec<char> = Vec::new();
        match self.notation() {
            Notation::Zero => {
                value.push('0');
                assert(value@ =~= seq!['0']);
            },
            Notation::Decimal => {
                value = chars_of(raw);
                trim_end(&mut value, '0');
                trim_end(&mut value, '.');
            },
            Notation::Scientific => {
                let chars = chars_of(raw);
                proof {
                    let i = choose|i: int| 0 <= i < raw@.len() && raw@[i] == 'e';
                    assert(chars@[i] == 'e');
                }
                match find_e(&chars) {
                    Some(k) => {
                        let mut i: usize = 0;
                        while i < k
                            invariant
                                i <= k < chars.len(),
                                value@ == chars@.take(i as int),
                            decreases k - i,
                        {
                            value.push(chars[i]);
                            assert(value@ =~= chars@.take(i + 1));
                            i = i + 1;
                        }
                        trim_end(&mut value, '0');
                        trim_end(&mut value, '.');
                        value.push('e');
                        let mut j: usize = k + 1;
                        let ghost head = value@;
                        assert(chars@.subrange(k + 1, k + 1) =~= Seq::<char>::empty());
                        while j < chars.len()
                            invariant
                                k < j <= chars.len(),
                                value@ == head + chars@.subrange(k + 1, j as int),
                            decreases chars.len() - j,
                        {
                            value.push(chars[j]);
                            assert(value@ =~= head + chars@.subrange(k + 1, j + 1));
                            j = j + 1;
                        }
                        assert(chars@.subrange(k + 1, chars.len() as int) =~= chars@.skip(k + 1));
                    },
                    None => {},
                }
            },
        }
        match &self.unit {
            Some(u) => {
                let mut out: Vec<char> = Vec::new();
                out.push('[');
                push_all(&mut out, &value);
                out.push(' ');
                let unit = chars_of(u.to_string().as_str());
                push_all(&mut out, &unit);
                out.push(']');
                assert(out@ =~= number_text(self@, raw@));
                string_of(&out)
            },
            None => string_of(&value),
        }
    }
}

} // verus!
