//! The ways in which reading the text format can fail.

use crate::date::Date;
use vstd::prelude::*;

verus! {

/// Why a text was not accepted. Every failure ends the whole reading: no
/// partial table is ever produced.
#[derive(Debug)]
pub enum ParseError {
    /// A date that is not three numbers joined by hyphens.
    InvalidDate(String),
    /// A weather code that is not a number from 0 to 255.
    InvalidWeatherCode(String),
    /// A daily maximum or minimum temperature that is not a number.
    InvalidTemperature(String),
    /// A precipitation sum that is not a number.
    InvalidPrecipitation(String),
    /// A maximum wind speed that is not a number.
    InvalidWind(String),
    /// A precipitation probability that is not a number.
    InvalidPrecipitationProbability(String),
    /// A line that is not `tag: values` with a known tag, or a text that
    /// does not hold each of the seven tags exactly once.
    InvalidLine(String),
    /// A column with fewer values than there are dates.
    TooManyValues,
    /// A date that occurs twice in the date column.
    DuplicateDate(Date),
}

/// The mathematical content of a [`ParseError`].
pub enum ParseFault {
    InvalidDate(Seq<char>),
    InvalidWeatherCode(Seq<char>),
    InvalidTemperature(Seq<char>),
    InvalidPrecipitation(Seq<char>),
    InvalidWind(Seq<char>),
    InvalidPrecipitationProbability(Seq<char>),
    InvalidLine(Seq<char>),
    TooManyValues,
    DuplicateDate(Date),
}

impl View for ParseError {
    type V = ParseFault;

    open spec fn view(&self) -> ParseFault {
        match *self {
            ParseError::InvalidDate(s) => ParseFault::InvalidDate(s@),
            ParseError::InvalidWeatherCode(s) => ParseFault::InvalidWeatherCode(s@),
            ParseError::InvalidTemperature(s) => ParseFault::InvalidTemperature(s@),
            ParseError::InvalidPrecipitation(s) => ParseFault::InvalidPrecipitation(s@),
            ParseError::InvalidWind(s) => ParseFault::InvalidWind(s@),
            ParseError::InvalidPrecipitationProbability(s) =>
                ParseFault::InvalidPrecipitationProbability(s@),
            ParseError::InvalidLine(s) => ParseFault::InvalidLine(s@),
            ParseError::TooManyValues => ParseFault::TooManyValues,
            ParseError::DuplicateDate(d) => ParseFault::DuplicateDate(d),
        }
    }
}

pub type ParseResult<T> = Result<T, ParseError>;

} // verus!
