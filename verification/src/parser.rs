//! Reading the seven-line text format.
//!
//! A text has one line for each of the seven fields, `tag: values`, in any
//! order; the values of a line are separated by whitespace, and the values
//! at one position of the seven lines make one observation.
//!
//! Whether a word is a number, and which, is not decided here: the caller
//! reads each numeric word and passes what it read. [`numeric_tokens`] lists
//! the words to read, in the order in which the readings are expected.

use crate::date::Date;
use crate::decimal::{code_of, Decimal};
use crate::error::{ParseError, ParseFault, ParseResult};
use crate::record::{text_of, views, DataPoint, WeatherData, WeatherView};
use crate::table::{
    ascending, distinct_dates, is_ascending, lemma_ascending, lemma_ascending_distinct,
    sort_records, valid_table, WeatherDataMap,
};
use crate::text::{
    chars_of, lines, lines_of, split, split_chars, string_of, texts, trim, trim_chars, words,
    words_of,
};
use vstd::prelude::*;

verus! {

// ---------------------------------------------------------------------------
// What a text means
// ---------------------------------------------------------------------------

/// The texts of the readings, position by position.
pub open spec fn reading_texts(v: Seq<Option<Decimal>>) -> Seq<Option<Seq<char>>> {
    Seq::new(v.len(), |i: int| text_of(v[i]))
}

/// The texts of a column of measurements.
pub open spec fn measure_texts(v: Seq<Decimal>) -> Seq<Seq<char>> {
    Seq::new(v.len(), |i: int| v[i]@)
}

/// The reading at a position; none beyond the last reading.
pub open spec fn reading_at(readings: Seq<Option<Seq<char>>>, i: int) -> Option<Seq<char>> {
    if 0 <= i < readings.len() {
        readings[i]
    } else {
        None
    }
}

/// The dates that the words of a date line denote. The first word that is
/// no date, or that repeats an earlier date, fails the column.
pub open spec fn date_column(ws: Seq<Seq<char>>) -> Result<Seq<Date>, ParseFault>
    decreases ws.len(),
{
    if ws.len() == 0 {
        Ok(Seq::<Date>::empty())
    } else {
        match date_column(ws.drop_last()) {
            Err(e) => Err(e),
            Ok(dates) => match Date::parse(ws.last()) {
                Err(e) => Err(e),
                Ok(d) => if dates.contains(d) {
                    Err(ParseFault::DuplicateDate(d))
                } else {
                    Ok(dates.push(d))
                },
            },
        }
    }
}

/// The weather codes that the words of a line denote, where the reading of
/// the word at position `j` is the reading at `start + j`. The first word
/// without a reading, or whose reading is no weather code, fails the column.
pub open spec fn code_column(
    ws: Seq<Seq<char>>,
    readings: Seq<Option<Seq<char>>>,
    start: int,
) -> Result<Seq<u8>, ParseFault>
    decreases ws.len(),
{
    if ws.len() == 0 {
        Ok(Seq::<u8>::empty())
    } else {
        match code_column(ws.drop_last(), readings, start) {
            Err(e) => Err(e),
            Ok(codes) => match reading_at(readings, start + ws.len() - 1) {
                None => Err(ParseFault::InvalidWeatherCode(ws.last())),
                Some(x) => match code_of(x) {
                    None => Err(ParseFault::InvalidWeatherCode(ws.last())),
                    Some(code) => Ok(codes.push(code)),
                },
            },
        }
    }
}

/// The failure that a word without a reading causes in a column.
pub open spec fn fault_of(column: DataPoint, word: Seq<char>) -> ParseFault {
    match column {
        DataPoint::Date => ParseFault::InvalidDate(word),
        DataPoint::WeatherCode => ParseFault::InvalidWeatherCode(word),
        DataPoint::TemperatureMax => ParseFault::InvalidTemperature(word),
        DataPoint::TemperatureMin => ParseFault::InvalidTemperature(word),
        DataPoint::PrecipitationSum => ParseFault::InvalidPrecipitation(word),
        DataPoint::WindSpeedMax => ParseFault::InvalidWind(word),
        DataPoint::PrecipitationProbabilityMax => ParseFault::InvalidPrecipitationProbability(word),
    }
}

/// The measurements that the words of a line denote, where the reading of
/// the word at position `j` is the reading at `start + j`. The first word
/// without a reading fails the column.
pub open spec fn measure_column(
    ws: Seq<Seq<char>>,
    readings: Seq<Option<Seq<char>>>,
    start: int,
    column: DataPoint,
) -> Result<Seq<Seq<char>>, ParseFault>
    decreases ws.len(),
{
    if ws.len() == 0 {
        Ok(Seq::<Seq<char>>::empty())
    } else {
        match measure_column(ws.drop_last(), readings, start, column) {
            Err(e) => Err(e),
            Ok(values) => match reading_at(readings, start + ws.len() - 1) {
                None => Err(fault_of(column, ws.last())),
                Some(x) => Ok(values.push(x)),
            },
        }
    }
}

/// The columns read so far; a column is absent until its line was read.
pub struct Sheet {
    pub dates: Option<Seq<Date>>,
    pub codes: Option<Seq<u8>>,
    pub temp_max: Option<Seq<Seq<char>>>,
    pub temp_min: Option<Seq<Seq<char>>>,
    pub precip_sum: Option<Seq<Seq<char>>>,
    pub wind_max: Option<Seq<Seq<char>>>,
    pub prob_max: Option<Seq<Seq<char>>>,
}

impl Sheet {
    /// No column read yet.
    pub open spec fn blank() -> Sheet {
        Sheet {
            dates: None,
            codes: None,
            temp_max: None,
            temp_min: None,
            precip_sum: None,
            wind_max: None,
            prob_max: None,
        }
    }

    /// The sheet with one column of measurements set.
    pub open spec fn with(self, column: DataPoint, values: Seq<Seq<char>>) -> Sheet {
        match column {
            DataPoint::TemperatureMax => Sheet { temp_max: Some(values), ..self },
            DataPoint::TemperatureMin => Sheet { temp_min: Some(values), ..self },
            DataPoint::PrecipitationSum => Sheet { precip_sum: Some(values), ..self },
            DataPoint::WindSpeedMax => Sheet { wind_max: Some(values), ..self },
            DataPoint::PrecipitationProbabilityMax => Sheet { prob_max: Some(values), ..self },
            _ => self,
        }
    }

    /// Every column was read.
    pub open spec fn complete(self) -> bool {
        &&& self.dates is Some
        &&& self.codes is Some
        &&& self.temp_max is Some
        &&& self.temp_min is Some
        &&& self.precip_sum is Some
        &&& self.wind_max is Some
        &&& self.prob_max is Some
    }

    /// The observations of a complete sheet, one for each date, in the order
    /// of the date line. A column with fewer values than there are dates
    /// fails; values beyond the number of dates are passed over.
    pub open spec fn records(self) -> Result<Seq<WeatherView>, ParseFault> {
        let n = self.dates->0.len();
        if self.codes->0.len() < n || self.temp_max->0.len() < n || self.temp_min->0.len() < n
            || self.precip_sum->0.len() < n || self.wind_max->0.len() < n || self.prob_max->0.len()
            < n {
            Err(ParseFault::TooManyValues)
        } else {
            Ok(
                Seq::new(
                    n,
                    |i: int|
                        WeatherView {
                            date: self.dates->0[i],
                            weather_code: self.codes->0[i],
                            temp_max: self.temp_max->0[i],
                            temp_min: self.temp_min->0[i],
                            precip_sum: self.precip_sum->0[i],
                            max_wind: self.wind_max->0[i],
                            precip_prob_max: self.prob_max->0[i],
                        },
                ),
            )
        }
    }
}

/// The numeric words of one line, each with its column: the words of a
/// well-formed line of any field but the date.
pub open spec fn line_tokens(line: Seq<char>) -> Seq<(DataPoint, Seq<char>)> {
    let parts = split(line, ':');
    if parts.len() != 2 {
        Seq::<(DataPoint, Seq<char>)>::empty()
    } else {
        match DataPoint::of_tag(trim(parts[0])) {
            None => Seq::<(DataPoint, Seq<char>)>::empty(),
            Some(DataPoint::Date) => Seq::<(DataPoint, Seq<char>)>::empty(),
            Some(column) => Seq::new(
                words(parts[1]).len(),
                |j: int| (column, words(parts[1])[j]),
            ),
        }
    }
}

/// The numeric words of some lines, line after line.
pub open spec fn tokens_of(ls: Seq<Seq<char>>) -> Seq<(DataPoint, Seq<char>)>
    decreases ls.len(),
{
    if ls.len() == 0 {
        Seq::<(DataPoint, Seq<char>)>::empty()
    } else {
        tokens_of(ls.drop_last()) + line_tokens(ls.last())
    }
}

/// The sheet after one more line, whose first numeric word has the reading
/// at `start`. The line must split at exactly one colon into a known tag,
/// which may have whitespace around it, and the values.
pub open spec fn read_line(
    sheet: Sheet,
    line: Seq<char>,
    readings: Seq<Option<Seq<char>>>,
    start: int,
) -> Result<Sheet, ParseFault> {
    let parts = split(line, ':');
    if parts.len() != 2 {
        Err(ParseFault::InvalidLine(line))
    } else {
        let ws = words(parts[1]);
        match DataPoint::of_tag(trim(parts[0])) {
            None => Err(ParseFault::InvalidLine(line)),
            Some(DataPoint::Date) => match date_column(ws) {
                Err(e) => Err(e),
                Ok(dates) => Ok(Sheet { dates: Some(dates), ..sheet }),
            },
            Some(DataPoint::WeatherCode) => match code_column(ws, readings, start) {
                Err(e) => Err(e),
                Ok(codes) => Ok(Sheet { codes: Some(codes), ..sheet }),
            },
            Some(column) => match measure_column(ws, readings, start, column) {
                Err(e) => Err(e),
                Ok(values) => Ok(sheet.with(column, values)),
            },
        }
    }
}

/// The sheet after some lines, read in order; the first failure ends the
/// reading. The readings are taken in the order of [`tokens_of`].
pub open spec fn read_lines(ls: Seq<Seq<char>>, readings: Seq<Option<Seq<char>>>) -> Result<
    Sheet,
    ParseFault,
>
    decreases ls.len(),
{
    if ls.len() == 0 {
        Ok(Sheet::blank())
    } else {
        match read_lines(ls.drop_last(), readings) {
            Err(e) => Err(e),
            Ok(sheet) => read_line(
                sheet,
                ls.last(),
                readings,
                tokens_of(ls.drop_last()).len() as int,
            ),
        }
    }
}

/// The table that a text denotes under the given readings of its numeric
/// words, or the first reason why it denotes none.
///
/// The lines are read in order. Then the text must have had seven lines and
/// each of the seven tags; then each column must have a value for every
/// date. The observations are put in ascending order of their dates.
pub open spec fn parse_table(text: Seq<char>, readings: Seq<Option<Seq<char>>>) -> Result<
    Seq<WeatherView>,
    ParseFault,
> {
    let ls = lines(text);
    match read_lines(ls, readings) {
        Err(e) => Err(e),
        Ok(sheet) => if ls.len() != 7 || !sheet.complete() {
            Err(ParseFault::InvalidLine("Invalid number of lines"@))
        } else {
            match sheet.records() {
                Err(e) => Err(e),
                Ok(records) => Ok(ascending(records)),
            }
        },
    }
}

// ---------------------------------------------------------------------------
// Facts about columns
// ---------------------------------------------------------------------------

/// A column has one value for each word, and the dates of a date column
/// are distinct.
pub proof fn lemma_column_lengths(
    ws: Seq<Seq<char>>,
    readings: Seq<Option<Seq<char>>>,
    start: int,
    column: DataPoint,
)
    ensures
        date_column(ws) matches Ok(dates) ==> dates.len() == ws.len() && dates.no_duplicates(),
        code_column(ws, readings, start) matches Ok(codes) ==> codes.len() == ws.len(),
        measure_column(ws, readings, start, column) matches Ok(values) ==> values.len() == ws.len(),
    decreases ws.len(),
{
    if ws.len() > 0 {
        lemma_column_lengths(ws.drop_last(), readings, start, column);
    }
}

/// Where no word of a line can have a reading, it does not matter how far
/// beyond the readings the line starts.
pub proof fn lemma_column_beyond(
    ws: Seq<Seq<char>>,
    readings: Seq<Option<Seq<char>>>,
    a: int,
    b: int,
    column: DataPoint,
)
    requires
        a >= readings.len(),
        b >= readings.len(),
    ensures
        code_column(ws, readings, a) == code_column(ws, readings, b),
        measure_column(ws, readings, a, column) == measure_column(ws, readings, b, column),
    decreases ws.len(),
{
    if ws.len() > 0 {
        lemma_column_beyond(ws.drop_last(), readings, a, b, column);
    }
}

// ---------------------------------------------------------------------------
// Reading columns
// ---------------------------------------------------------------------------

/// The reading of the word at position `j` of a line that starts at
/// `start`.
fn reading<'a>(readings: &'a Vec<Option<Decimal>>, start: usize, j: usize) -> (r: Option<
    &'a Decimal,
>)
    ensures
        match r {
            Some(x) => reading_at(reading_texts(readings@), start + j) == Some(x@),
            None => reading_at(reading_texts(readings@), start + j) is None,
        },
{
    if start < readings.len() && j < readings.len() - start {
        match &readings[start + j] {
            Some(x) => Some(x),
            None => None,
        }
    } else {
        None
    }
}

/// Reads the dates of a date line.
pub fn parse_date(data: &Vec<char>) -> (r: ParseResult<Vec<Date>>)
    ensures
        match r {
            Ok(dates) => date_column(words(data@)) == Ok::<Seq<Date>, ParseFault>(dates@),
            Err(e) => date_column(words(data@)) == Err::<Seq<Date>, ParseFault>(e@),
        },
{
    let ws = words_of(data);
    let ghost all = words(data@);
    let mut dates: Vec<Date> = Vec::new();
    let mut j: usize = 0;
    assert(all.take(0) =~= Seq::<Seq<char>>::empty());
    while j < ws.len()
        invariant
            j <= ws.len(),
            texts(ws@) == all,
            all == words(data@),
            date_column(all.take(j as int)) == Ok::<Seq<Date>, ParseFault>(dates@),
        decreases ws.len() - j,
    {
        let ghost next = all.take(j + 1);
        proof {
            assert(next.drop_last() =~= all.take(j as int));
            assert(next.last() == ws@[j as int]@);
        }
        match Date::from_chars(&ws[j]) {
            Err(e) => {
                proof {
                    lemma_date_column_fails(all, j + 1);
                }
                return Err(e);
            },
            Ok(date) => {
                if holds_date(&dates, &date) {
                    proof {
                        lemma_date_column_fails(all, j + 1);
                    }
                    return Err(ParseError::DuplicateDate(date));
                }
                dates.push(date);
            },
        }
        j += 1;
    }
    assert(all.take(ws.len() as int) =~= all);
    Ok(dates)
}

/// Once a prefix of a column has failed, the column fails in the same way.
proof fn lemma_date_column_fails(ws: Seq<Seq<char>>, k: int)
    requires
        0 <= k <= ws.len(),
        date_column(ws.take(k)) is Err,
    ensures
        date_column(ws) == date_column(ws.take(k)),
    decreases ws.len() - k,
{
    if k < ws.len() {
        assert(ws.take(k + 1).drop_last() =~= ws.take(k));
        lemma_date_column_fails(ws, k + 1);
    } else {
        assert(ws.take(k) =~= ws);
    }
}

proof fn lemma_code_column_fails(
    ws: Seq<Seq<char>>,
    readings: Seq<Option<Seq<char>>>,
    start: int,
    k: int,
)
    requires
        0 <= k <= ws.len(),
        code_column(ws.take(k), readings, start) is Err,
    ensures
        code_column(ws, readings, start) == code_column(ws.take(k), readings, start),
    decreases ws.len() - k,
{
    if k < ws.len() {
        assert(ws.take(k + 1).drop_last() =~= ws.take(k));
        lemma_code_column_fails(ws, readings, start, k + 1);
    } else {
        assert(ws.take(k) =~= ws);
    }
}

proof fn lemma_measure_column_fails(
    ws: Seq<Seq<char>>,
    readings: Seq<Option<Seq<char>>>,
    start: int,
    column: DataPoint,
    k: int,
)
    requires
        0 <= k <= ws.len(),
        measure_column(ws.take(k), readings, start, column) is Err,
    ensures
        measure_column(ws, readings, start, column) == measure_column(
            ws.take(k),
            readings,
            start,
            column,
        ),
    decreases ws.len() - k,
{
    if k < ws.len() {
        assert(ws.take(k + 1).drop_last() =~= ws.take(k));
        lemma_measure_column_fails(ws, readings, start, column, k + 1);
    } else {
        assert(ws.take(k) =~= ws);
    }
}

/// Whether `dates` holds `date`.
fn holds_date(dates: &Vec<Date>, date: &Date) -> (r: bool)
    ensures
        r == dates@.contains(*date),
{
    let mut i: usize = 0;
    while i < dates.len()
        invariant
            i <= dates.len(),
            forall|k: int| 0 <= k < i ==> dates@[k] != *date,
        decreases dates.len() - i,
    {
        if dates[i] == *date {
            assert(dates@[i as int] == *date);
            return true;
        }
        i += 1;
    }
    false
}

/// Reads the weather codes of a line whose first word has the reading at
/// `start`.
pub fn parse_weather_code(data: &Vec<char>, readings: &Vec<Option<Decimal>>, start: usize) -> (r:
    ParseResult<Vec<u8>>)
    ensures
        match r {
            Ok(codes) => code_column(words(data@), reading_texts(readings@), start as int) == Ok::<
                Seq<u8>,
                ParseFault,
            >(codes@),
            Err(e) => code_column(words(data@), reading_texts(readings@), start as int) == Err::<
                Seq<u8>,
                ParseFault,
            >(e@),
        },
{
    let ws = words_of(data);
    let ghost all = words(data@);
    let ghost given = reading_texts(readings@);
    let mut codes: Vec<u8> = Vec::new();
    let mut j: usize = 0;
    assert(all.take(0) =~= Seq::<Seq<char>>::empty());
    while j < ws.len()
        invariant
            j <= ws.len(),
            texts(ws@) == all,
            all == words(data@),
            given == reading_texts(readings@),
            code_column(all.take(j as int), given, start as int) == Ok::<Seq<u8>, ParseFault>(
                codes@,
            ),
        decreases ws.len() - j,
    {
        let ghost next = all.take(j + 1);
        proof {
            assert(next.drop_last() =~= all.take(j as int));
            assert(next.last() == ws@[j as int]@);
        }
        let code: Option<u8> = match reading(readings, start, j) {
            Some(x) => x.weather_code(),
            None => None,
        };
        match code {
            Some(c) => {
                codes.push(c);
            },
            None => {
                proof {
                    lemma_code_column_fails(all, given, start as int, j + 1);
                }
                return Err(ParseError::InvalidWeatherCode(string_of(&ws[j])));
            },
        }
        j += 1;
    }
    assert(all.take(ws.len() as int) =~= all);
    Ok(codes)
}

/// The failure that a word without a reading causes in a column.
fn fault(column: DataPoint, word: &Vec<char>) -> (e: ParseError)
    ensures
        e@ == fault_of(column, word@),
{
    let text = string_of(word);
    match column {
        DataPoint::Date => ParseError::InvalidDate(text),
        DataPoint::WeatherCode => ParseError::InvalidWeatherCode(text),
        DataPoint::TemperatureMax => ParseError::InvalidTemperature(text),
        DataPoint::TemperatureMin => ParseError::InvalidTemperature(text),
        DataPoint::PrecipitationSum => ParseError::InvalidPrecipitation(text),
        DataPoint::WindSpeedMax => ParseError::InvalidWind(text),
        DataPoint::PrecipitationProbabilityMax => ParseError::InvalidPrecipitationProbability(text),
    }
}

/// Reads the measurements of a line of the given column, whose first word
/// has the reading at `start`.
pub fn parse_measurements(
    data: &Vec<char>,
    readings: &Vec<Option<Decimal>>,
    start: usize,
    column: DataPoint,
) -> (r: ParseResult<Vec<Decimal>>)
    ensures
        match r {
            Ok(values) => measure_column(
                words(data@),
                reading_texts(readings@),
                start as int,
                column,
            ) == Ok::<Seq<Seq<char>>, ParseFault>(measure_texts(values@)),
            Err(e) => measure_column(words(data@), reading_texts(readings@), start as int, column)
                == Err::<Seq<Seq<char>>, ParseFault>(e@),
        },
{
    let ws = words_of(data);
    let ghost all = words(data@);
    let ghost given = reading_texts(readings@);
    let mut values: Vec<Decimal> = Vec::new();
    let mut j: usize = 0;
    assert(all.take(0) =~= Seq::<Seq<char>>::empty());
    assert(measure_texts(values@) =~= Seq::<Seq<char>>::empty());
    while j < ws.len()
        invariant
            j <= ws.len(),
            texts(ws@) == all,
            all == words(data@),
            given == reading_texts(readings@),
            measure_column(all.take(j as int), given, start as int, column) == Ok::<
                Seq<Seq<char>>,
                ParseFault,
            >(measure_texts(values@)),
        decreases ws.len() - j,
    {
        let ghost next = all.take(j + 1);
        let ghost before = measure_texts(values@);
        proof {
            assert(next.drop_last() =~= all.take(j as int));
            assert(next.last() == ws@[j as int]@);
        }
        match reading(readings, start, j) {
            Some(x) => {
                values.push(x.clone());
                assert(measure_texts(values@) =~= before.push(x@));
            },
            None => {
                proof {
                    lemma_measure_column_fails(all, given, start as int, column, j + 1);
                }
                return Err(fault(column, &ws[j]));
            },
        }
        j += 1;
    }
    assert(all.take(ws.len() as int) =~= all);
    Ok(values)
}

// ---------------------------------------------------------------------------
// Reading a text
// ---------------------------------------------------------------------------

/// A numeric word of a text and the column it stands in.
#[derive(Debug)]
pub struct NumericToken {
    pub column: DataPoint,
    pub text: String,
}

/// The columns and texts of some numeric words.
pub open spec fn token_views(v: Seq<NumericToken>) -> Seq<(DataPoint, Seq<char>)> {
    Seq::new(v.len(), |i: int| (v[i].column, v[i].text@))
}

/// The numeric words of a text in the order in which [`WeatherData::from_data`]
/// expects their readings: line after line, and word after word within a
/// line. A weather code is to be read in double precision, any other word
/// in single precision.
pub fn numeric_tokens(data: &str) -> (out: Vec<NumericToken>)
    ensures
        token_views(out@) == tokens_of(lines(data@)),
{
    let chars = chars_of(data);
    let ls = lines_of(&chars);
    let ghost all = lines(data@);
    let mut out: Vec<NumericToken> = Vec::new();
    let mut i: usize = 0;
    assert(all.take(0) =~= Seq::<Seq<char>>::empty());
    assert(token_views(out@) =~= tokens_of(all.take(0)));
    while i < ls.len()
        invariant
            i <= ls.len(),
            texts(ls@) == all,
            token_views(out@) == tokens_of(all.take(i as int)),
        decreases ls.len() - i,
    {
        let ghost done = token_views(out@);
        proof {
            assert(all.take(i + 1).drop_last() =~= all.take(i as int));
            assert(all.take(i + 1).last() == ls@[i as int]@);
        }
        let parts = split_chars(&ls[i], ':');
        if parts.len() == 2 {
            let tag = trim_chars(&parts[0]);
            match DataPoint::from_tag(&tag) {
                None => {},
                Some(DataPoint::Date) => {},
                Some(column) => {
                    let ws = words_of(&parts[1]);
                    let ghost line = line_tokens(ls@[i as int]@);
                    let mut j: usize = 0;
                    assert(token_views(out@) =~= done + line.take(0));
                    while j < ws.len()
                        invariant
                            j <= ws.len(),
                            line.len() == ws.len(),
                            forall|k: int| 0 <= k < line.len() ==> line[k] == (column, ws@[k]@),
                            token_views(out@) == done + line.take(j as int),
                        decreases ws.len() - j,
                    {
                        let ghost before = token_views(out@);
                        out.push(NumericToken { column, text: string_of(&ws[j]) });
                        assert(token_views(out@) =~= before.push((column, ws@[j as int]@)));
                        assert(done + line.take(j + 1) =~= (done + line.take(j as int)).push(
                            line[j as int],
                        ));
                        j += 1;
                    }
                    assert(line.take(ws.len() as int) =~= line);
                },
            }
        }
        assert(token_views(out@) =~= tokens_of(all.take(i + 1))) by {
            let line = line_tokens(ls@[i as int]@);
            if line.len() == 0 {
                assert(done + line =~= done);
            }
        }
        i += 1;
    }
    assert(all.take(ls.len() as int) =~= all);
    out
}

/// The columns read so far.
struct Columns {
    dates: Option<Vec<Date>>,
    codes: Option<Vec<u8>>,
    temp_max: Option<Vec<Decimal>>,
    temp_min: Option<Vec<Decimal>>,
    precip_sum: Option<Vec<Decimal>>,
    wind_max: Option<Vec<Decimal>>,
    prob_max: Option<Vec<Decimal>>,
}

spec fn measures_view(column: Option<Vec<Decimal>>) -> Option<Seq<Seq<char>>> {
    match column {
        Some(v) => Some(measure_texts(v@)),
        None => None,
    }
}

impl View for Columns {
    type V = Sheet;

    closed spec fn view(&self) -> Sheet {
        Sheet {
            dates: match self.dates {
                Some(v) => Some(v@),
                None => None,
            },
            codes: match self.codes {
                Some(v) => Some(v@),
                None => None,
            },
            temp_max: measures_view(self.temp_max),
            temp_min: measures_view(self.temp_min),
            precip_sum: measures_view(self.precip_sum),
            wind_max: measures_view(self.wind_max),
            prob_max: measures_view(self.prob_max),
        }
    }
}

/// An offset into the readings, held to what a machine word can count.
spec fn clipped(start: int) -> int {
    if start > usize::MAX {
        usize::MAX as int
    } else {
        start
    }
}

/// Reads one line into the columns; gives the number of numeric words it
/// had.
fn parse_line(
    columns: Columns,
    line: &Vec<char>,
    readings: &Vec<Option<Decimal>>,
    used: usize,
    Ghost(start): Ghost<int>,
) -> (r: Result<(Columns, usize), ParseError>)
    requires
        start >= 0,
        used == clipped(start),
    ensures
        match r {
            Ok((next, count)) => read_line(columns@, line@, reading_texts(readings@), start)
                == Ok::<
                Sheet,
                ParseFault,
            >(next@) && count == line_tokens(line@).len(),
            Err(e) => read_line(columns@, line@, reading_texts(readings@), start) == Err::<
                Sheet,
                ParseFault,
            >(e@),
        },
{
    let parts = split_chars(line, ':');
    if parts.len() != 2 {
        return Err(ParseError::InvalidLine(string_of(line)));
    }
    let tag = trim_chars(&parts[0]);
    let data = &parts[1];
    let ghost ws = words(data@);
    let ghost given = reading_texts(readings@);
    let mut columns = columns;
    let total: usize = readings.len();
    proof {
        assert(given.len() == total);
        lemma_column_lengths(ws, given, start, DataPoint::Date);
        lemma_column_lengths(ws, given, used as int, DataPoint::Date);
        if start > usize::MAX {
            lemma_column_beyond(ws, given, start, used as int, DataPoint::Date);
        }
    }
    match DataPoint::from_tag(&tag) {
        None => Err(ParseError::InvalidLine(string_of(line))),
        Some(DataPoint::Date) => {
            let dates = parse_date(data)?;
            columns.dates = Some(dates);
            Ok((columns, 0))
        },
        Some(DataPoint::WeatherCode) => {
            let codes = parse_weather_code(data, readings, used)?;
            let count = codes.len();
            columns.codes = Some(codes);
            Ok((columns, count))
        },
        Some(column) => {
            proof {
                lemma_column_lengths(ws, given, start, column);
                lemma_column_lengths(ws, given, used as int, column);
                if start > usize::MAX {
                    lemma_column_beyond(ws, given, start, used as int, column);
                }
            }
            let values = parse_measurements(data, readings, used, column)?;
            let count = values.len();
            assert(count == ws.len()) by {
                assert(measure_texts(values@).len() == values@.len());
            }
            match column {
                DataPoint::TemperatureMax => {
                    columns.temp_max = Some(values);
                },
                DataPoint::TemperatureMin => {
                    columns.temp_min = Some(values);
                },
                DataPoint::PrecipitationSum => {
                    columns.precip_sum = Some(values);
                },
                DataPoint::WindSpeedMax => {
                    columns.wind_max = Some(values);
                },
                _ => {
                    columns.prob_max = Some(values);
                },
            }
            Ok((columns, count))
        },
    }
}

/// The message of a text that lacks a line or has one too many.
fn line_count_error() -> (e: ParseError)
    ensures
        e@ == ParseFault::InvalidLine("Invalid number of lines"@),
{
    let chars = chars_of("Invalid number of lines");
    ParseError::InvalidLine(string_of(&chars))
}

/// Makes one observation for each date from the values at its position.
fn assemble(
    dates: &Vec<Date>,
    codes: &Vec<u8>,
    temp_max: &Vec<Decimal>,
    temp_min: &Vec<Decimal>,
    precip_sum: &Vec<Decimal>,
    wind_max: &Vec<Decimal>,
    prob_max: &Vec<Decimal>,
) -> (r: ParseResult<Vec<WeatherData>>)
    ensures
        ({
            let sheet = Sheet {
                dates: Some(dates@),
                codes: Some(codes@),
                temp_max: Some(measure_texts(temp_max@)),
                temp_min: Some(measure_texts(temp_min@)),
                precip_sum: Some(measure_texts(precip_sum@)),
                wind_max: Some(measure_texts(wind_max@)),
                prob_max: Some(measure_texts(prob_max@)),
            };
            match r {
                Ok(records) => sheet.records() == Ok::<Seq<WeatherView>, ParseFault>(
                    views(records@),
                ),
                Err(e) => sheet.records() == Err::<Seq<WeatherView>, ParseFault>(e@),
            }
        }),
{
    let n = dates.len();
    if codes.len() < n || temp_max.len() < n || temp_min.len() < n || precip_sum.len() < n
        || wind_max.len() < n || prob_max.len() < n {
        return Err(ParseError::TooManyValues);
    }
    let ghost sheet = Sheet {
        dates: Some(dates@),
        codes: Some(codes@),
        temp_max: Some(measure_texts(temp_max@)),
        temp_min: Some(measure_texts(temp_min@)),
        precip_sum: Some(measure_texts(precip_sum@)),
        wind_max: Some(measure_texts(wind_max@)),
        prob_max: Some(measure_texts(prob_max@)),
    };
    let ghost wanted = sheet.records()->Ok_0;
    let mut records: Vec<WeatherData> = Vec::new();
    let mut i: usize = 0;
    while i < n
        invariant
            i <= n,
            n == dates.len(),
            codes.len() >= n,
            temp_max.len() >= n,
            temp_min.len() >= n,
            precip_sum.len() >= n,
            wind_max.len() >= n,
            prob_max.len() >= n,
            sheet.records() == Ok::<Seq<WeatherView>, ParseFault>(wanted),
            wanted.len() == n,
            forall|k: int|
                0 <= k < n ==> #[trigger] wanted[k] == (WeatherView {
                    date: dates@[k],
                    weather_code: codes@[k],
                    temp_max: temp_max@[k]@,
                    temp_min: temp_min@[k]@,
                    precip_sum: precip_sum@[k]@,
                    max_wind: wind_max@[k]@,
                    precip_prob_max: prob_max@[k]@,
                }),
            views(records@) == wanted.take(i as int),
        decreases n - i,
    {
        let ghost before = views(records@);
        let record = WeatherData::new(
            dates[i],
            codes[i],
            temp_max[i].clone(),
            temp_min[i].clone(),
            precip_sum[i].clone(),
            wind_max[i].clone(),
            prob_max[i].clone(),
        );
        assert(record@ == wanted[i as int]);
        records.push(record);
        assert(views(records@) =~= before.push(wanted[i as int]));
        assert(wanted.take(i + 1) =~= wanted.take(i as int).push(wanted[i as int]));
        i += 1;
    }
    assert(wanted.take(n as int) =~= wanted);
    Ok(records)
}

/// The number of readings used after `count` more, held to what a machine
/// word can count.
fn advance(used: usize, count: usize, Ghost(start): Ghost<int>) -> (r: usize)
    requires
        start >= 0,
        used == clipped(start),
    ensures
        r == clipped(start + count),
{
    if count <= usize::MAX - used {
        used + count
    } else {
        usize::MAX
    }
}

impl WeatherData {
    /// Reads a table from its text.
    ///
    /// `readings` holds, for each numeric word of the text in the order of
    /// [`numeric_tokens`], the number that the word denotes, or nothing
    /// where the word denotes no number; a word beyond the last reading
    /// counts as denoting none. The result is the table of [`parse_table`]:
    /// the observations in ascending order of their dates, or the first
    /// failure met.
    pub fn from_data(data: String, readings: &Vec<Option<Decimal>>) -> (r: ParseResult<
        WeatherDataMap,
    >)
        ensures
            match r {
                Ok(table) => parse_table(data@, reading_texts(readings@)) == Ok::<
                    Seq<WeatherView>,
                    ParseFault,
                >(table@) && valid_table(table@) && is_ascending(table@),
                Err(e) => parse_table(data@, reading_texts(readings@)) == Err::<
                    Seq<WeatherView>,
                    ParseFault,
                >(e@),
            },
    {
        let chars = chars_of(data.as_str());
        let ls = lines_of(&chars);
        let ghost all = lines(data@);
        let ghost given = reading_texts(readings@);
        let mut columns = Columns {
            dates: None,
            codes: None,
            temp_max: None,
            temp_min: None,
            precip_sum: None,
            wind_max: None,
            prob_max: None,
        };
        let mut used: usize = 0;
        let mut i: usize = 0;
        assert(all.take(0) =~= Seq::<Seq<char>>::empty());
        while i < ls.len()
            invariant
                i <= ls.len(),
                texts(ls@) == all,
                all == lines(data@),
                given == reading_texts(readings@),
                read_lines(all.take(i as int), given) == Ok::<Sheet, ParseFault>(columns@),
                used == clipped(tokens_of(all.take(i as int)).len() as int),
            decreases ls.len() - i,
        {
            let ghost start = tokens_of(all.take(i as int)).len() as int;
            proof {
                assert(all.take(i + 1).drop_last() =~= all.take(i as int));
                assert(all.take(i + 1).last() == ls@[i as int]@);
            }
            match parse_line(columns, &ls[i], readings, used, Ghost(start)) {
                Err(e) => {
                    proof {
                        lemma_read_lines_fails(all, given, i + 1);
                    }
                    return Err(e);
                },
                Ok((next, count)) => {
                    columns = next;
                    used = advance(used, count, Ghost(start));
                },
            }
            i += 1;
        }
        assert(all.take(ls.len() as int) =~= all);
        if ls.len() != 7 {
            return Err(line_count_error());
        }
        let dates = match &columns.dates {
            Some(v) => v,
            None => return Err(line_count_error()),
        };
        let codes = match &columns.codes {
            Some(v) => v,
            None => return Err(line_count_error()),
        };
        let temp_max = match &columns.temp_max {
            Some(v) => v,
            None => return Err(line_count_error()),
        };
        let temp_min = match &columns.temp_min {
            Some(v) => v,
            None => return Err(line_count_error()),
        };
        let precip_sum = match &columns.precip_sum {
            Some(v) => v,
            None => return Err(line_count_error()),
        };
        let wind_max = match &columns.wind_max {
            Some(v) => v,
            None => return Err(line_count_error()),
        };
        let prob_max = match &columns.prob_max {
            Some(v) => v,
            None => return Err(line_count_error()),
        };
        let records = assemble(dates, codes, temp_max, temp_min, precip_sum, wind_max, prob_max)?;
        let ghost unsorted = views(records@);
        proof {
            lemma_sheet_dates(all, given);
            assert(distinct_dates(unsorted)) by {
                assert forall|a: int, b: int| 0 <= a < b < unsorted.len() implies unsorted[a].date
                    != unsorted[b].date by {
                    assert(unsorted[a].date == dates@[a]);
                    assert(unsorted[b].date == dates@[b]);
                }
            }
            lemma_ascending(unsorted);
            lemma_ascending_distinct(ascending(unsorted));
        }
        let sorted = sort_records(records);
        match WeatherDataMap::from_records(sorted) {
            Some(table) => {
                table.check();
                Ok(table)
            },
            None => Err(ParseError::TooManyValues),
        }
    }
}

/// Once a prefix of the lines has failed, the lines fail in the same way.
proof fn lemma_read_lines_fails(ls: Seq<Seq<char>>, readings: Seq<Option<Seq<char>>>, k: int)
    requires
        0 <= k <= ls.len(),
        read_lines(ls.take(k), readings) is Err,
    ensures
        read_lines(ls, readings) == read_lines(ls.take(k), readings),
    decreases ls.len() - k,
{
    if k < ls.len() {
        assert(ls.take(k + 1).drop_last() =~= ls.take(k));
        lemma_read_lines_fails(ls, readings, k + 1);
    } else {
        assert(ls.take(k) =~= ls);
    }
}

/// The dates of a sheet are distinct.
pub proof fn lemma_sheet_dates(ls: Seq<Seq<char>>, readings: Seq<Option<Seq<char>>>)
    ensures
        read_lines(ls, readings) matches Ok(sheet) ==> (sheet.dates matches Some(dates)
            ==> dates.no_duplicates()),
    decreases ls.len(),
{
    if ls.len() > 0 {
        lemma_sheet_dates(ls.drop_last(), readings);
        match read_lines(ls.drop_last(), readings) {
            Ok(sheet) => {
                let parts = split(ls.last(), ':');
                if parts.len() == 2 {
                    lemma_column_lengths(
                        words(parts[1]),
                        readings,
                        tokens_of(ls.drop_last()).len() as int,
                        DataPoint::Date,
                    );
                }
            },
            Err(_) => {},
        }
    }
}

} // verus!
