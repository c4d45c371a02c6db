//! What the service is asked and what it answers.

use crate::decimal::Decimal;
use crate::record::DataPoint;
use crate::text::{push_str, string_of};
use vstd::prelude::*;

verus! {

/// The content of a request body, as far as the service reads it: a JSON
/// array of objects whose members are strings and numbers.
#[derive(Debug)]
pub enum Body {
    /// The body is not UTF-8 text.
    NotText,
    /// The body is text, but not JSON.
    NotJson,
    /// The body is JSON, but not an array.
    NotArray,
    /// The elements of the array.
    Items(Vec<Item>),
}

/// One element of the array of a body.
#[derive(Debug)]
pub enum Item {
    /// The element is not an object.
    NotObject,
    /// The members of the object.
    Object(Vec<Member>),
}

/// One member of an object: a name and a value.
#[derive(Debug)]
pub struct Member {
    pub name: String,
    pub value: Value,
}

/// The value of a member.
#[derive(Debug)]
pub enum Value {
    /// A string.
    Text(String),
    /// A number.
    Number(Number),
    /// Anything else: null, a truth value, an array or an object.
    Other,
}

/// A JSON number, read in the two ways the service needs.
#[derive(Debug)]
pub struct Number {
    /// The number, if it is written as a whole number from 0 up to the
    /// largest that 64 bits hold.
    pub unsigned: Option<u64>,
    /// The number as a measurement, if it is finite in single precision.
    pub decimal: Option<Decimal>,
}

/// An answer of the service.
#[derive(Debug)]
pub enum Reply {
    /// The observations of the range that was asked for, as JSON.
    Range(String),
    /// The batch was added.
    Added,
    /// The changes were made.
    Updated,
    /// The observations were removed.
    Deleted,
    /// There is nothing under the path.
    PathNotFound,
    /// Reading needs a query.
    QueryRequired,
    /// The query names something other than `dates` and `values`, or lacks
    /// `dates`.
    InvalidQuery,
    /// The query does not give exactly two dates.
    DatesFormat,
    /// A date of the query is not a date.
    InvalidDate,
    /// The table lacks one of the two dates of the range.
    RangeNotSatisfiable,
    /// The query asks for a field that does not exist.
    InvalidValueField,
    /// Adding takes the empty path and no query.
    PathNotEmpty,
    /// The content type is not `application/json`.
    ContentType,
    /// The body is not UTF-8 text.
    BodyNotText,
    /// The body is not JSON.
    BodyNotJson,
    /// The body is not a JSON array.
    BodyNotArray,
    /// An element of the body is not an object.
    ItemNotObject,
    /// An object lacks a field.
    FieldRequired(DataPoint),
    /// The date of an object is not a string.
    DateNotText,
    /// The date of an object is not a date.
    DateFormat,
    /// The table already holds the date of an object.
    DateExists,
    /// A field of an object is not a number.
    FieldNotNumber(DataPoint),
    /// The weather code of an object is above 255.
    CodeOutOfRange,
    /// Two objects of one batch have the same date.
    DuplicateDate,
    /// Changing and removing need a query that begins with `dates=`.
    DateQueryRequired,
    /// There are not as many changes as dates.
    CountMismatch,
    /// The table lacks a date that is to be changed or removed, or a date
    /// is to be removed twice.
    DateMissing,
    /// The method is none of those the service knows.
    MethodNotAllowed,
}

/// The mathematical content of a [`Reply`].
pub enum Answer {
    Range(Seq<char>),
    Added,
    Updated,
    Deleted,
    PathNotFound,
    QueryRequired,
    InvalidQuery,
    DatesFormat,
    InvalidDate,
    RangeNotSatisfiable,
    InvalidValueField,
    PathNotEmpty,
    ContentType,
    BodyNotText,
    BodyNotJson,
    BodyNotArray,
    ItemNotObject,
    FieldRequired(DataPoint),
    DateNotText,
    DateFormat,
    DateExists,
    FieldNotNumber(DataPoint),
    CodeOutOfRange,
    DuplicateDate,
    DateQueryRequired,
    CountMismatch,
    DateMissing,
    MethodNotAllowed,
}

impl View for Reply {
    type V = Answer;

    open spec fn view(&self) -> Answer {
        match *self {
            Reply::Range(json) => Answer::Range(json@),
            Reply::Added => Answer::Added,
            Reply::Updated => Answer::Updated,
            Reply::Deleted => Answer::Deleted,
            Reply::PathNotFound => Answer::PathNotFound,
            Reply::QueryRequired => Answer::QueryRequired,
            Reply::InvalidQuery => Answer::InvalidQuery,
            Reply::DatesFormat => Answer::DatesFormat,
            Reply::InvalidDate => Answer::InvalidDate,
            Reply::RangeNotSatisfiable => Answer::RangeNotSatisfiable,
            Reply::InvalidValueField => Answer::InvalidValueField,
            Reply::PathNotEmpty => Answer::PathNotEmpty,
            Reply::ContentType => Answer::ContentType,
            Reply::BodyNotText => Answer::BodyNotText,
            Reply::BodyNotJson => Answer::BodyNotJson,
            Reply::BodyNotArray => Answer::BodyNotArray,
            Reply::ItemNotObject => Answer::ItemNotObject,
            Reply::FieldRequired(p) => Answer::FieldRequired(p),
            Reply::DateNotText => Answer::DateNotText,
            Reply::DateFormat => Answer::DateFormat,
            Reply::DateExists => Answer::DateExists,
            Reply::FieldNotNumber(p) => Answer::FieldNotNumber(p),
            Reply::CodeOutOfRange => Answer::CodeOutOfRange,
            Reply::DuplicateDate => Answer::DuplicateDate,
            Reply::DateQueryRequired => Answer::DateQueryRequired,
            Reply::CountMismatch => Answer::CountMismatch,
            Reply::DateMissing => Answer::DateMissing,
            Reply::MethodNotAllowed => Answer::MethodNotAllowed,
        }
    }
}

impl Answer {
    /// Whether the answer reports that the request was carried out.
    pub open spec fn is_success(self) -> bool {
        self is Range || self is Added || self is Updated || self is Deleted
    }

    /// The status code of an answer.
    pub open spec fn status(self) -> int {
        match self {
            Answer::Range(_) => 200,
            Answer::Added => 200,
            Answer::Updated => 200,
            Answer::Deleted => 200,
            Answer::PathNotFound => 404,
            Answer::PathNotEmpty => 404,
            Answer::RangeNotSatisfiable => 416,
            Answer::ContentType => 415,
            Answer::BodyNotText => 415,
            Answer::MethodNotAllowed => 405,
            _ => 400,
        }
    }

    /// What a failure says, in words.
    pub open spec fn words(self) -> Seq<char> {
        match self {
            Answer::Range(_) => Seq::<char>::empty(),
            Answer::Added => "data successfully added"@,
            Answer::Updated => "Data successfully updated"@,
            Answer::Deleted => "Data successfully deleted"@,
            Answer::PathNotFound => "path does not exist"@,
            Answer::QueryRequired => "query required"@,
            Answer::InvalidQuery => "invalid query (only dates and values allowed)"@,
            Answer::DatesFormat => "Dates field must be in format YYYY-MM-DD%20YYYY-MM-DD"@,
            Answer::InvalidDate => "invalid date format"@,
            Answer::RangeNotSatisfiable => "range not satisfiable"@,
            Answer::InvalidValueField => "invalid value field"@,
            Answer::PathNotEmpty => "path should be empty, no queries accepted"@,
            Answer::ContentType =>
                "content-type must be application/json, content-type header REQUIRED"@,
            Answer::BodyNotText => "body must be valid utf-8 text"@,
            Answer::BodyNotJson => "body must be valid json"@,
            Answer::BodyNotArray => "body must be a json array"@,
            Answer::ItemNotObject => "body must be a JSON array of objects"@,
            Answer::FieldRequired(p) => p.tag() + " field required"@,
            Answer::DateNotText => "date field must be a string"@,
            Answer::DateFormat => "date field must be in format YYYY-MM-DD"@,
            Answer::DateExists => "date already exists"@,
            Answer::FieldNotNumber(p) => p.tag() + " field must be a number"@,
            Answer::CodeOutOfRange => "weather_code field must be a number between 0 and 255"@,
            Answer::DuplicateDate => "duplicate date found"@,
            Answer::DateQueryRequired => "date query required"@,
            Answer::CountMismatch => "number of dates and values must be equal"@,
            Answer::DateMissing => "date does not exist"@,
            Answer::MethodNotAllowed => "method not allowed"@,
        }
    }

    /// The body of an answer: the JSON of a range, or a JSON object with
    /// the one member `success` or `error`.
    pub open spec fn body(self) -> Seq<char> {
        match self {
            Answer::Range(json) => json,
            _ => if self.is_success() {
                "{\"success\": \""@ + self.words() + "\"}"@
            } else {
                "{\"error\": \""@ + self.words() + "\"}"@
            },
        }
    }
}

impl Reply {
    /// The status code of the answer.
    pub fn status(&self) -> (code: u16)
        ensures
            code == self@.status(),
    {
        match self {
            Reply::Range(_) => 200,
            Reply::Added => 200,
            Reply::Updated => 200,
            Reply::Deleted => 200,
            Reply::PathNotFound => 404,
            Reply::PathNotEmpty => 404,
            Reply::RangeNotSatisfiable => 416,
            Reply::ContentType => 415,
            Reply::BodyNotText => 415,
            Reply::MethodNotAllowed => 405,
            _ => 400,
        }
    }

    /// Appends what the answer says, in words, to `out`.
    fn write_words(&self, out: &mut Vec<char>)
        ensures
            final(out)@ == old(out)@ + self@.words(),
    {
        match self {
            Reply::Range(_) => {
                assert(out@ =~= old(out)@ + Seq::<char>::empty());
            },
            Reply::Added => push_str(out, "data successfully added"),
            Reply::Updated => push_str(out, "Data successfully updated"),
            Reply::Deleted => push_str(out, "Data successfully deleted"),
            Reply::PathNotFound => push_str(out, "path does not exist"),
            Reply::QueryRequired => push_str(out, "query required"),
            Reply::InvalidQuery => push_str(out, "invalid query (only dates and values allowed)"),
            Reply::DatesFormat => push_str(
                out,
                "Dates field must be in format YYYY-MM-DD%20YYYY-MM-DD",
            ),
            Reply::InvalidDate => push_str(out, "invalid date format"),
            Reply::RangeNotSatisfiable => push_str(out, "range not satisfiable"),
            Reply::InvalidValueField => push_str(out, "invalid value field"),
            Reply::PathNotEmpty => push_str(out, "path should be empty, no queries accepted"),
            Reply::ContentType => push_str(
                out,
                "content-type must be application/json, content-type header REQUIRED",
            ),
            Reply::BodyNotText => push_str(out, "body must be valid utf-8 text"),
            Reply::BodyNotJson => push_str(out, "body must be valid json"),
            Reply::BodyNotArray => push_str(out, "body must be a json array"),
            Reply::ItemNotObject => push_str(out, "body must be a JSON array of objects"),
            Reply::FieldRequired(p) => {
                push_str(out, p.tag_str());
                push_str(out, " field required");
                assert(out@ =~= old(out)@ + (p.tag() + " field required"@));
            },
            Reply::DateNotText => push_str(out, "date field must be a string"),
            Reply::DateFormat => push_str(out, "date field must be in format YYYY-MM-DD"),
            Reply::DateExists => push_str(out, "date already exists"),
            Reply::FieldNotNumber(p) => {
                push_str(out, p.tag_str());
                push_str(out, " field must be a number");
                assert(out@ =~= old(out)@ + (p.tag() + " field must be a number"@));
            },
            Reply::CodeOutOfRange => push_str(
                out,
                "weather_code field must be a number between 0 and 255",
            ),
            Reply::DuplicateDate => push_str(out, "duplicate date found"),
            Reply::DateQueryRequired => push_str(out, "date query required"),
            Reply::CountMismatch => push_str(out, "number of dates and values must be equal"),
            Reply::DateMissing => push_str(out, "date does not exist"),
            Reply::MethodNotAllowed => push_str(out, "method not allowed"),
        }
    }

    /// The body of the answer.
    pub fn body(&self) -> (text: String)
        ensures
            text@ == self@.body(),
    {
        let mut out: Vec<char> = Vec::new();
        match self {
            Reply::Range(json) => {
                push_str(&mut out, json.as_str());
                assert(out@ =~= json@);
            },
            Reply::Added | Reply::Updated | Reply::Deleted => {
                push_str(&mut out, "{\"success\": \"");
                self.write_words(&mut out);
                push_str(&mut out, "\"}");
                assert(out@ =~= "{\"success\": \""@ + self@.words() + "\"}"@);
            },
            _ => {
                push_str(&mut out, "{\"error\": \"");
                self.write_words(&mut out);
                push_str(&mut out, "\"}");
                assert(out@ =~= "{\"error\": \""@ + self@.words() + "\"}"@);
            },
        }
        string_of(&out)
    }
}

} // verus!
