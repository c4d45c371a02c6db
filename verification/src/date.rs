//! Calendar dates: a year, a month and a day, ordered in that order.

use crate::error::{ParseError, ParseFault, ParseResult};
use crate::text::{
    chars_of, is_plain, lemma_numeral_reads_back, lemma_split_append, lemma_split_whole, numeral,
    parse_unsigned, plain, push_all, push_numeral, push_str, split, split_chars, string_of,
    unsigned_of,
};
use vstd::prelude::*;

verus! {

/// A calendar date. Neither the month nor the day is held to a range: any
/// three numbers that fit their fields make a date.
#[derive(Clone, Copy, Debug, PartialEq, Eq, Hash, PartialOrd, Ord, Structural)]
pub struct Date {
    pub year: u32,
    pub month: u8,
    pub day: u8,
}

impl Date {
    /// One number per date that orders as the dates do: by year, then by
    /// month, then by day.
    pub open spec fn key(self) -> int {
        self.year * 65536 + self.month * 256 + self.day
    }

    /// Whether `self` is an earlier date than `other`.
    pub open spec fn precedes(self, other: Date) -> bool {
        self.year < other.year || (self.year == other.year && (self.month < other.month || (
        self.month == other.month && self.day < other.day)))
    }

    /// The written form of a date: year, month and day in base ten without
    /// padding, joined by hyphens.
    pub open spec fn text(self) -> Seq<char> {
        numeral(self.year as nat) + seq!['-'] + numeral(self.month as nat) + seq!['-'] + numeral(
            self.day as nat,
        )
    }

    /// The date that a text denotes, or why it denotes none. The text must
    /// have exactly three hyphen-separated parts; the first must be a number
    /// that fits 32 bits, the other two numbers that fit 8 bits.
    pub open spec fn parse(s: Seq<char>) -> Result<Date, ParseFault> {
        let parts = split(s, '-');
        if parts.len() != 3 {
            Err(ParseFault::InvalidDate("Invalid date: "@ + s))
        } else {
            match unsigned_of(parts[0], 0xffff_ffff) {
                None => Err(ParseFault::InvalidDate("Invalid year: "@ + parts[0])),
                Some(year) => match unsigned_of(parts[1], 255) {
                    None => Err(ParseFault::InvalidDate("Invalid month: "@ + parts[1])),
                    Some(month) => match unsigned_of(parts[2], 255) {
                        None => Err(ParseFault::InvalidDate("Invalid day: "@ + parts[2])),
                        Some(day) => Ok(
                            Date { year: year as u32, month: month as u8, day: day as u8 },
                        ),
                    },
                },
            }
        }
    }

    /// Reads a date written as `year-month-day`.
    pub fn from_string(date: &str) -> (r: ParseResult<Date>)
        ensures
            match r {
                Ok(d) => Date::parse(date@) == Ok::<Date, ParseFault>(d),
                Err(e) => Date::parse(date@) == Err::<Date, ParseFault>(e@),
            },
    {
        let chars = chars_of(date);
        Date::from_chars(&chars)
    }

    /// Reads a date from its characters.
    pub fn from_chars(chars: &Vec<char>) -> (r: ParseResult<Date>)
        ensures
            match r {
                Ok(d) => Date::parse(chars@) == Ok::<Date, ParseFault>(d),
                Err(e) => Date::parse(chars@) == Err::<Date, ParseFault>(e@),
            },
    {
        let parts = split_chars(chars, '-');
        if parts.len() != 3 {
            return Err(ParseError::InvalidDate(complaint("Invalid date: ", chars)));
        }
        let year: u32 = match parse_unsigned(&parts[0], 0xffff_ffff) {
            Some(year) => year,
            None => return Err(ParseError::InvalidDate(complaint("Invalid year: ", &parts[0]))),
        };
        let month: u8 = match parse_unsigned(&parts[1], 255) {
            Some(month) => month as u8,
            None => return Err(ParseError::InvalidDate(complaint("Invalid month: ", &parts[1]))),
        };
        let day: u8 = match parse_unsigned(&parts[2], 255) {
            Some(day) => day as u8,
            None => return Err(ParseError::InvalidDate(complaint("Invalid day: ", &parts[2]))),
        };
        Ok(Date { year, month, day })
    }

    /// Appends the written form of the date to `out`.
    pub fn write(&self, out: &mut Vec<char>)
        ensures
            final(out)@ == old(out)@ + self.text(),
    {
        push_numeral(out, self.year);
        out.push('-');
        push_numeral(out, self.month as u32);
        out.push('-');
        push_numeral(out, self.day as u32);
        assert(out@ =~= old(out)@ + self.text());
    }

    /// Writes the date as `year-month-day`, without padding.
    pub fn to_string(&self) -> (s: String)
        ensures
            s@ == self.text(),
    {
        let mut out: Vec<char> = Vec::new();
        self.write(&mut out);
        assert(out@ =~= self.text());
        string_of(&out)
    }

    /// A rough day count of a date: 365 days a year, 30 days a month.
    pub open spec fn day_count(self) -> int {
        self.year * 365 + self.month * 30 + self.day
    }

    /// The rough number of days between two dates, whichever comes first.
    pub fn distance(begin: &Date, end: &Date) -> (r: u32)
        requires
            begin.day_count() <= u32::MAX,
            end.day_count() <= u32::MAX,
        ensures
            r == if begin.day_count() <= end.day_count() {
                end.day_count() - begin.day_count()
            } else {
                begin.day_count() - end.day_count()
            },
    {
        let first: u32 = begin.year * 365 + begin.month as u32 * 30 + begin.day as u32;
        let second: u32 = end.year * 365 + end.month as u32 * 30 + end.day as u32;
        if first <= second {
            second - first
        } else {
            first - second
        }
    }

    /// The ordering key of the date.
    pub fn ordinal(&self) -> (k: u64)
        ensures
            k == self.key(),
    {
        self.year as u64 * 65536 + self.month as u64 * 256 + self.day as u64
    }

    /// Whether `self` is an earlier date than `other`.
    pub fn before(&self, other: &Date) -> (r: bool)
        ensures
            r == self.precedes(*other),
    {
        self.year < other.year || (self.year == other.year && (self.month < other.month || (
        self.month == other.month && self.day < other.day)))
    }
}

/// A message: a fixed opening followed by the text it is about.
fn complaint(opening: &str, about: &Vec<char>) -> (s: String)
    ensures
        s@ == opening@ + about@,
{
    let mut out: Vec<char> = Vec::new();
    push_str(&mut out, opening);
    push_all(&mut out, about);
    assert(out@ =~= opening@ + about@);
    string_of(&out)
}

/// Dates are ordered as their keys are, and a key belongs to one date only.
pub proof fn lemma_key_orders(a: Date, b: Date)
    ensures
        a.precedes(b) <==> a.key() < b.key(),
        a == b <==> a.key() == b.key(),
        0 <= a.key() <= u64::MAX,
{
}

/// The written form of a date is a plain word, and reads back as the date.
pub proof fn lemma_date_reads_back(d: Date)
    ensures
        plain(d.text()),
        Date::parse(d.text()) == Ok::<Date, ParseFault>(d),
{
    let y = numeral(d.year as nat);
    let m = numeral(d.month as nat);
    let n = numeral(d.day as nat);
    lemma_numeral_reads_back(d.year as nat, 0xffff_ffff);
    lemma_numeral_reads_back(d.month as nat, 255);
    lemma_numeral_reads_back(d.day as nat, 255);
    lemma_split_whole(y, '-');
    lemma_split_append(y, m, '-');
    lemma_split_append(y + seq!['-'] + m, n, '-');
    let parts = split(d.text(), '-');
    assert(parts =~= seq![y, m, n]);
    assert(parts[0] == y && parts[1] == m && parts[2] == n);
    let text = d.text();
    assert forall|i: int| 0 <= i < text.len() implies is_plain(#[trigger] text[i]) by {
        if i < y.len() {
            assert(text[i] == y[i]);
        } else if i == y.len() {
        } else if i < y.len() + 1 + m.len() {
            assert(text[i] == m[i - y.len() - 1]);
        } else if i == y.len() + 1 + m.len() {
        } else {
            assert(text[i] == n[i - y.len() - m.len() - 2]);
        }
    }
}

} // verus!
