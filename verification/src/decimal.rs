//! Decimal-valued measurements, held as decimal literals.
//!
//! The table never computes with a measurement: it stores it, hands it out
//! and writes it down. A measurement is therefore kept in its written form,
//! a decimal literal such as `-3.25`, which is at once a single word of the
//! text format and a JSON number. Turning such a literal into a binary
//! floating-point value and back is left to the caller.

use crate::text::{
    is_plain, lemma_split_all, lemma_split_nonempty, plain,
    all_digits, chars_of, copy_range, numeral, digits_value, is_digit, lemma_numeral,
    lemma_split_whole, parse_unsigned, push_all, push_numeral, split, split_chars, string_of,
    unsigned_body,
};
use vstd::prelude::*;

verus! {

/// A literal without its minus sign, if it has one.
pub open spec fn magnitude(s: Seq<char>) -> Seq<char> {
    if s.len() > 0 && s[0] == '-' {
        s.skip(1)
    } else {
        s
    }
}

/// The digits before the decimal point.
pub open spec fn whole_part(s: Seq<char>) -> Seq<char> {
    split(magnitude(s), '.')[0]
}

/// The digits after the decimal point; none where there is no point.
pub open spec fn fraction_part(s: Seq<char>) -> Seq<char> {
    let parts = split(magnitude(s), '.');
    if parts.len() >= 2 {
        parts[1]
    } else {
        Seq::<char>::empty()
    }
}

/// Whether `s` is a decimal literal: an optional minus sign, then digits
/// that begin with `0` only if `0` is all of them, then optionally a point
/// and one or more digits.
pub open spec fn is_decimal(s: Seq<char>) -> bool {
    let parts = split(magnitude(s), '.');
    &&& parts.len() <= 2
    &&& whole_part(s).len() > 0
    &&& all_digits(whole_part(s))
    &&& (whole_part(s).len() == 1 || whole_part(s)[0] != '0')
    &&& (parts.len() == 2 ==> fraction_part(s).len() > 0 && all_digits(fraction_part(s)))
}

/// Whether some character of `s` is not the digit zero.
pub open spec fn has_nonzero(s: Seq<char>) -> bool {
    exists|i: int| 0 <= i < s.len() && #[trigger] s[i] != '0'
}

/// The weather code that a decimal literal denotes: the literal must lie
/// between 0 and 255, both included, and its fraction is dropped.
pub open spec fn code_of(s: Seq<char>) -> Option<u8> {
    let whole = whole_part(s);
    let fraction = fraction_part(s);
    if s.len() > 0 && s[0] == '-' {
        if has_nonzero(whole) || has_nonzero(fraction) {
            None
        } else {
            Some(0u8)
        }
    } else if digits_value(whole) > 255 || (digits_value(whole) == 255 && has_nonzero(fraction)) {
        None
    } else {
        Some(digits_value(whole) as u8)
    }
}

/// A measurement in its written form.
#[derive(Debug)]
pub struct Decimal {
    chars: Vec<char>,
}

impl View for Decimal {
    type V = Seq<char>;

    closed spec fn view(&self) -> Seq<char> {
        self.chars@
    }
}

impl Clone for Decimal {
    /// A second measurement with the same written form.
    fn clone(&self) -> (r: Decimal)
        ensures
            r@ == self@,
    {
        proof {
            use_type_invariant(self);
        }
        let chars = copy_range(&self.chars, 0, self.chars.len());
        assert(chars@ =~= self.chars@);
        Decimal { chars }
    }
}

/// Whether every character of `s` is a digit.
fn digits_only(s: &Vec<char>) -> (r: bool)
    ensures
        r == all_digits(s@),
{
    let mut i: usize = 0;
    while i < s.len()
        invariant
            i <= s.len(),
            all_digits(s@.take(i as int)),
        decreases s.len() - i,
    {
        let u: u32 = s[i] as u32;
        if u < 48 || u > 57 {
            assert(!is_digit(s@[i as int]));
            return false;
        }
        assert forall|k: int| 0 <= k < i + 1 implies is_digit(#[trigger] s@.take(i + 1)[k]) by {
            if k < i {
                assert(s@.take(i as int)[k] == s@[k]);
            }
        }
        i += 1;
    }
    assert(s@.take(s.len() as int) =~= s@);
    true
}

/// Whether some character of `s` is not the digit zero.
fn any_nonzero(s: &Vec<char>) -> (r: bool)
    ensures
        r == has_nonzero(s@),
{
    let mut i: usize = 0;
    while i < s.len()
        invariant
            i <= s.len(),
            forall|k: int| 0 <= k < i ==> s@[k] == '0',
        decreases s.len() - i,
    {
        if s[i] != '0' {
            assert(s@[i as int] != '0');
            return true;
        }
        i += 1;
    }
    false
}

/// Whether `s` is a decimal literal.
pub fn is_decimal_text(s: &Vec<char>) -> (r: bool)
    ensures
        r == is_decimal(s@),
{
    let start: usize = if s.len() > 0 && s[0] == '-' {
        1
    } else {
        0
    };
    let body = copy_range(s, start, s.len());
    assert(body@ =~= magnitude(s@));
    let parts = split_chars(&body, '.');
    if parts.len() > 2 {
        return false;
    }
    let whole = &parts[0];
    assert(whole@ == whole_part(s@));
    if whole.len() == 0 || !digits_only(whole) {
        return false;
    }
    if whole.len() > 1 && whole[0] == '0' {
        return false;
    }
    if parts.len() == 2 {
        let fraction = &parts[1];
        assert(fraction@ == fraction_part(s@));
        if fraction.len() == 0 || !digits_only(fraction) {
            return false;
        }
    }
    true
}

impl Decimal {
    #[verifier::type_invariant]
    spec fn well_formed(self) -> bool {
        is_decimal(self.chars@)
    }

    /// The measurement that `text` writes down, if `text` is a decimal
    /// literal.
    pub fn new(text: &str) -> (r: Option<Decimal>)
        ensures
            r is Some <==> is_decimal(text@),
            r matches Some(value) ==> value@ == text@,
    {
        let chars = chars_of(text);
        Decimal::from_chars(chars)
    }

    /// The measurement that the given characters write down, if they are a
    /// decimal literal.
    pub fn from_chars(chars: Vec<char>) -> (r: Option<Decimal>)
        ensures
            r is Some <==> is_decimal(chars@),
            r matches Some(value) ==> value@ == chars@,
    {
        if is_decimal_text(&chars) {
            Some(Decimal { chars })
        } else {
            None
        }
    }

    /// The whole number `n` as a measurement.
    pub fn from_code(n: u8) -> (r: Decimal)
        ensures
            r@ == numeral(n as nat),
    {
        let mut chars: Vec<char> = Vec::new();
        push_numeral(&mut chars, n as u32);
        proof {
            assert(chars@ =~= numeral(n as nat));
            lemma_numeral_is_decimal(n as nat);
        }
        Decimal { chars }
    }

    /// A measurement is always a decimal literal.
    pub fn check(&self)
        ensures
            is_decimal(self@),
    {
        proof {
            use_type_invariant(self);
        }
    }

    /// The written form of the measurement.
    pub fn to_string(&self) -> (s: String)
        ensures
            s@ == self@,
            is_decimal(self@),
    {
        proof {
            use_type_invariant(self);
        }
        string_of(&self.chars)
    }

    /// Appends the written form of the measurement to `out`.
    pub fn write(&self, out: &mut Vec<char>)
        ensures
            final(out)@ == old(out)@ + self@,
            is_decimal(self@),
    {
        proof {
            use_type_invariant(self);
        }
        push_all(out, &self.chars);
    }

    /// Whether two measurements have the same written form.
    pub fn same(&self, other: &Decimal) -> (r: bool)
        ensures
            r == (self@ == other@),
    {
        if self.chars.len() != other.chars.len() {
            return false;
        }
        let mut i: usize = 0;
        while i < self.chars.len()
            invariant
                i <= self.chars.len(),
                self.chars.len() == other.chars.len(),
                self.chars@.take(i as int) == other.chars@.take(i as int),
            decreases self.chars.len() - i,
        {
            if self.chars[i] != other.chars[i] {
                assert(self.chars@[i as int] != other.chars@[i as int]);
                return false;
            }
            assert(self.chars@.take(i + 1)
                =~= self.chars@.take(i as int).push(self.chars@[i as int]));
            assert(other.chars@.take(i + 1) =~= other.chars@.take(i as int).push(
                other.chars@[i as int],
            ));
            i += 1;
        }
        assert(self.chars@ =~= self.chars@.take(self.chars.len() as int));
        assert(other.chars@ =~= other.chars@.take(other.chars.len() as int));
        true
    }

    /// The weather code that the measurement denotes, if it lies between 0
    /// and 255; its fraction is dropped.
    pub fn weather_code(&self) -> (r: Option<u8>)
        ensures
            r == code_of(self@),
    {
        proof {
            use_type_invariant(self);
        }
        let s = &self.chars;
        let negative: bool = s.len() > 0 && s[0] == '-';
        let start: usize = if negative {
            1
        } else {
            0
        };
        let body = copy_range(s, start, s.len());
        assert(body@ =~= magnitude(s@));
        let parts = split_chars(&body, '.');
        let whole = &parts[0];
        assert(whole@ == whole_part(s@));
        let fraction_nonzero: bool = if parts.len() >= 2 {
            assert(parts@[1]@ == fraction_part(s@));
            any_nonzero(&parts[1])
        } else {
            false
        };
        if negative {
            if any_nonzero(whole) || fraction_nonzero {
                None
            } else {
                Some(0)
            }
        } else {
            assert(unsigned_body(whole@) == whole@) by {
                assert(is_digit(whole@[0]));
            }
            match parse_unsigned(whole, 255) {
                None => None,
                Some(n) => if n == 255 && fraction_nonzero {
                    None
                } else {
                    Some(n as u8)
                },
            }
        }
    }
}

/// The digits of a whole number are a decimal literal, and denote that number
/// as a weather code if it is at most 255.
pub proof fn lemma_numeral_is_decimal(n: nat)
    ensures
        is_decimal(numeral(n)),
        n <= 255 ==> code_of(numeral(n)) == Some(n as u8),
{
    lemma_numeral(n);
    let s = numeral(n);
    assert(is_digit(s[0]));
    assert(magnitude(s) == s);
    assert forall|i: int| 0 <= i < s.len() implies s[i] != '.' by {
        assert(is_digit(s[i]));
    }
    lemma_split_whole(s, '.');
    assert(split(s, '.')[0] == s);
    assert(!has_nonzero(Seq::<char>::empty()));
}

/// A decimal literal is a plain word.
pub proof fn lemma_decimal_plain(s: Seq<char>)
    requires
        is_decimal(s),
    ensures
        plain(s),
{
    let body = magnitude(s);
    let parts = split(body, '.');
    lemma_split_nonempty(body, '.');
    let pred = |c: char| is_plain(c);
    assert forall|k: int, j: int| 0 <= k < parts.len() && 0 <= j < parts[k].len() implies pred(
        #[trigger] parts[k][j],
    ) by {
        if k == 0 {
            assert(is_digit(whole_part(s)[j]));
        } else {
            assert(is_digit(fraction_part(s)[j]));
        }
    }
    lemma_split_all(body, '.', pred);
    assert(body.len() > 0) by {
        if body.len() == 0 {
            assert(split(body, '.') =~= seq![Seq::<char>::empty()]);
        }
    }
    assert forall|i: int| 0 <= i < s.len() implies is_plain(#[trigger] s[i]) by {
        if s.len() > 0 && s[0] == '-' {
            if i > 0 {
                assert(body[i - 1] == s[i]);
                assert(pred(body[i - 1]));
            }
        } else {
            assert(pred(body[i]));
        }
    }
}

} // verus!
