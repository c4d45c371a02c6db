//! What holds between the operations of the library.

use crate::date::{lemma_date_reads_back, Date};
use crate::decimal::{is_decimal, lemma_decimal_plain, lemma_numeral_is_decimal};
use crate::error::ParseFault;
use crate::query::value_text;
use crate::parser::{
    code_column, date_column, lemma_column_lengths, line_tokens, measure_column, parse_table,
    read_line, read_lines, reading_at, tokens_of, Sheet,
};
use crate::record::{DataPoint, WeatherView};
use crate::reply::{Answer, Body};
use crate::request::Method;
use crate::batch::insertable;
use crate::service::{
    add_outcome, batch_records, body_items, lemma_batch_failures, lemma_batch_records, outcome,
};
use crate::table::{
    all_sound, ascending, distinct_dates, earlier, holds, is_ascending, later, lemma_ascending,
    lemma_ascending_distinct, lemma_ascending_fixed, lemma_ascending_sound, lemma_select, place_of,
    range_of, select, valid_table, within,
};
use crate::text::{
    joined_lines, lacks, lemma_lines_joined, lemma_numeral_reads_back, lemma_plain_char,
    lemma_split_pair, lemma_trim_nothing, lemma_words_push, lines, plain, split, trim, words,
};
use crate::textfile::{column_readings, line_text, table_readings, table_text, values_text};
use vstd::prelude::*;

verus! {

// ---------------------------------------------------------------------------
// Ranges
// ---------------------------------------------------------------------------

/// A range holds exactly the observations of the table whose date lies
/// between the two bounds, both included, and holds them earliest first.
pub proof fn law_range_is_exact(t: Seq<WeatherView>, a: Date, b: Date)
    requires
        valid_table(t),
    ensures
        forall|x: WeatherView|
            #![trigger range_of(t, a, b).contains(x)]
            #![trigger t.contains(x)]
            range_of(t, a, b).contains(x) <==> (t.contains(x) && within(
                x.date,
                earlier(a, b),
                later(a, b),
            )),
        is_ascending(range_of(t, a, b)),
        valid_table(range_of(t, a, b)),
{
    let lo = earlier(a, b);
    let hi = later(a, b);
    lemma_select(t, lo, hi);
    lemma_ascending(select(t, lo, hi));
    lemma_ascending_sound(select(t, lo, hi));
    lemma_ascending_distinct(range_of(t, a, b));
}

/// The range from a date of the table to that same date is the one
/// observation of that date.
pub proof fn law_range_of_one_date(t: Seq<WeatherView>, d: Date)
    requires
        valid_table(t),
        holds(t, d),
    ensures
        range_of(t, d, d) == seq![t[place_of(t, d)]],
{
    law_range_is_exact(t, d, d);
    let r = range_of(t, d, d);
    let k = place_of(t, d);
    let x = t[k];
    assert(t.contains(x));
    assert(r.contains(x));
    assert forall|i: int| 0 <= i < r.len() implies r[i] == x by {
        assert(r.contains(r[i]));
        assert(t.contains(r[i]));
        let m = choose|m: int| 0 <= m < t.len() && t[m] == r[i];
        assert(t[m].date == d);
        if m < k {
            assert(t[m].date != t[k].date);
        } else if k < m {
            assert(t[k].date != t[m].date);
        }
    }
    assert(r.len() == 1) by {
        if r.len() >= 2 {
            assert(r[0].date.precedes(r[1].date));
        }
    }
    assert(r =~= seq![x]);
}

// ---------------------------------------------------------------------------
// Requests
// ---------------------------------------------------------------------------

/// A request that is not carried out leaves the table as it was: nothing
/// of a batch is ever applied without the rest.
pub proof fn law_failure_changes_nothing(
    t: Seq<WeatherView>,
    method: Method,
    path: Seq<char>,
    query: Option<Seq<char>>,
    content_type: Option<Seq<char>>,
    body: Body,
)
    ensures
        !outcome(t, method, path, query, content_type, body).0.is_success() ==> outcome(
            t,
            method,
            path,
            query,
            content_type,
            body,
        ).1 == t,
        method == Method::GET ==> outcome(t, method, path, query, content_type, body).1 == t,
{
}

/// A batch is added whole or not at all: when the request is carried out,
/// the table has one new observation for each element of the batch, behind
/// those it had; otherwise the table is as it was.
pub proof fn law_batch_is_added_whole(
    t: Seq<WeatherView>,
    path: Seq<char>,
    query: Option<Seq<char>>,
    content_type: Option<Seq<char>>,
    body: Body,
)
    ensures
        ({
            let (answer, after) = add_outcome(t, path, query, content_type, body);
            if answer == Answer::Added {
                &&& body_items(body) matches Ok(items)
                &&& batch_records(t, items) matches Ok(records)
                &&& records.len() == items.len()
                &&& insertable(t, records)
                &&& after == t + records
            } else {
                after == t
            }
        }),
{
    match body_items(body) {
        Ok(items) => {
            lemma_batch_records(t, items);
            lemma_batch_failures(t, Seq::<Date>::empty(), items);
        },
        Err(_) => {},
    }
}

// ---------------------------------------------------------------------------
// Reading back what was written
// ---------------------------------------------------------------------------

/// The values of one field, in the order of the table.
spec fn column(t: Seq<WeatherView>, p: DataPoint) -> Seq<Seq<char>> {
    Seq::new(t.len(), |k: int| value_text(t[k], p))
}

/// The line of one field without its line feed.
spec fn line_body(t: Seq<WeatherView>, p: DataPoint) -> Seq<char> {
    p.tag() + seq![':'] + values_text(t, p)
}

/// Every written value of a sound observation is a plain word.
proof fn lemma_value_plain(r: WeatherView, p: DataPoint)
    requires
        r.sound(),
    ensures
        plain(value_text(r, p)),
{
    match p {
        DataPoint::Date => {
            lemma_date_reads_back(r.date);
        },
        DataPoint::WeatherCode => {
            lemma_numeral_reads_back(r.weather_code as nat, 255);
        },
        DataPoint::TemperatureMax => {
            lemma_decimal_plain(r.temp_max);
        },
        DataPoint::TemperatureMin => {
            lemma_decimal_plain(r.temp_min);
        },
        DataPoint::PrecipitationSum => {
            lemma_decimal_plain(r.precip_sum);
        },
        DataPoint::WindSpeedMax => {
            lemma_decimal_plain(r.max_wind);
        },
        DataPoint::PrecipitationProbabilityMax => {
            lemma_decimal_plain(r.precip_prob_max);
        },
    }
}

/// The values of a line are its words, and hold neither a colon nor a
/// line ending.
proof fn lemma_values(t: Seq<WeatherView>, p: DataPoint)
    requires
        all_sound(t),
    ensures
        words(values_text(t, p)) == column(t, p),
        lacks(values_text(t, p), ':'),
        lacks(values_text(t, p), '\n'),
        lacks(values_text(t, p), '\r'),
    decreases t.len(),
{
    if t.len() == 0 {
        assert(words(values_text(t, p)) =~= column(t, p));
    } else {
        let front = t.drop_last();
        assert(all_sound(front)) by {
            assert forall|i: int| 0 <= i < front.len() implies (#[trigger] front[i]).sound() by {
                assert(front[i] == t[i]);
            }
        }
        lemma_values(front, p);
        let v = value_text(t.last(), p);
        assert(t[t.len() - 1].sound());
        lemma_value_plain(t.last(), p);
        reveal_strlit(" ");
        assert(" "@ =~= seq![' ']);
        let head = values_text(front, p);
        lemma_words_push(head, v);
        assert(column(t, p) =~= column(front, p).push(v));
        let all = values_text(t, p);
        assert(all =~= head + seq![' '] + v);
        assert forall|i: int| 0 <= i < all.len() implies all[i] != ':' && all[i] != '\n' && all[i]
            != '\r' by {
            if i < head.len() {
                assert(all[i] == head[i]);
            } else if i == head.len() {
            } else {
                assert(all[i] == v[i - head.len() - 1]);
                lemma_plain_char(v[i - head.len() - 1]);
            }
        }
    }
}

/// A tag names its field, has no whitespace around it, and holds neither a
/// colon nor a line ending.
proof fn lemma_tag(p: DataPoint)
    ensures
        DataPoint::of_tag(trim(p.tag())) == Some(p),
        lacks(p.tag(), ':'),
        lacks(p.tag(), '\n'),
        lacks(p.tag(), '\r'),
{
    reveal_strlit("date");
    reveal_strlit("weather_code");
    reveal_strlit("temperature_max");
    reveal_strlit("temperature_min");
    reveal_strlit("precipitation_sum");
    reveal_strlit("wind_speed_max");
    reveal_strlit("precipitation_probability_max");
    let s = p.tag();
    lemma_trim_nothing(s);
    assert("temperature_max"@[14] != "temperature_min"@[14]);
    assert("precipitation_sum"@[0] != "temperature_max"@[0]);
    assert("wind_speed_max"@[0] != "date"@[0]);
}

/// The date line reads as the dates of the table.
proof fn lemma_date_column(t: Seq<WeatherView>)
    requires
        distinct_dates(t),
    ensures
        date_column(column(t, DataPoint::Date)) == Ok::<Seq<Date>, ParseFault>(
            Seq::new(t.len(), |k: int| t[k].date),
        ),
    decreases t.len(),
{
    let ws = column(t, DataPoint::Date);
    let dates = Seq::new(t.len(), |k: int| t[k].date);
    if t.len() == 0 {
        assert(dates =~= Seq::<Date>::empty());
    } else {
        let front = t.drop_last();
        assert(distinct_dates(front)) by {
            assert forall|i: int, j: int| 0 <= i < j < front.len() implies front[i].date
                != front[j].date by {
                assert(front[i] == t[i] && front[j] == t[j]);
            }
        }
        lemma_date_column(front);
        assert(ws.drop_last() =~= column(front, DataPoint::Date));
        let before = Seq::new(front.len(), |k: int| front[k].date);
        let d = t.last().date;
        lemma_date_reads_back(d);
        assert(!before.contains(d)) by {
            if before.contains(d) {
                let k = choose|k: int| 0 <= k < before.len() && before[k] == d;
                assert(t[k].date != t[t.len() - 1].date);
            }
        }
        assert(before.push(d) =~= dates);
    }
}

/// The line of the weather codes reads as the codes of the table, where
/// the readings are the written codes.
proof fn lemma_code_column(t: Seq<WeatherView>, readings: Seq<Option<Seq<char>>>, start: int)
    requires
        forall|j: int|
            0 <= j < t.len() ==> reading_at(readings, start + j) == Some(
                value_text(#[trigger] t[j], DataPoint::WeatherCode),
            ),
    ensures
        code_column(column(t, DataPoint::WeatherCode), readings, start) == Ok::<
            Seq<u8>,
            ParseFault,
        >(Seq::new(t.len(), |k: int| t[k].weather_code)),
    decreases t.len(),
{
    let ws = column(t, DataPoint::WeatherCode);
    let codes = Seq::new(t.len(), |k: int| t[k].weather_code);
    if t.len() == 0 {
        assert(codes =~= Seq::<u8>::empty());
    } else {
        let front = t.drop_last();
        assert forall|j: int| 0 <= j < front.len() implies reading_at(readings, start + j) == Some(
            value_text(#[trigger] front[j], DataPoint::WeatherCode),
        ) by {
            assert(front[j] == t[j]);
        }
        lemma_code_column(front, readings, start);
        assert(ws.drop_last() =~= column(front, DataPoint::WeatherCode));
        let before = Seq::new(front.len(), |k: int| front[k].weather_code);
        let last = t[t.len() - 1];
        assert(reading_at(readings, start + t.len() - 1) == Some(
            value_text(last, DataPoint::WeatherCode),
        ));
        lemma_numeral_is_decimal(last.weather_code as nat);
        assert(before.push(last.weather_code) =~= codes);
    }
}

/// The line of a measurement reads as the measurements of the table, where
/// the readings are the written measurements.
proof fn lemma_measure_column(
    t: Seq<WeatherView>,
    readings: Seq<Option<Seq<char>>>,
    start: int,
    p: DataPoint,
)
    requires
        forall|j: int|
            0 <= j < t.len() ==> reading_at(readings, start + j) == Some(
                value_text(#[trigger] t[j], p),
            ),
    ensures
        measure_column(column(t, p), readings, start, p) == Ok::<Seq<Seq<char>>, ParseFault>(
            column(t, p),
        ),
    decreases t.len(),
{
    let ws = column(t, p);
    if t.len() == 0 {
        assert(ws =~= Seq::<Seq<char>>::empty());
    } else {
        let front = t.drop_last();
        assert forall|j: int| 0 <= j < front.len() implies reading_at(readings, start + j) == Some(
            value_text(#[trigger] front[j], p),
        ) by {
            assert(front[j] == t[j]);
        }
        lemma_measure_column(front, readings, start, p);
        assert(ws.drop_last() =~= column(front, p));
        let last = t[t.len() - 1];
        assert(reading_at(readings, start + t.len() - 1) == Some(value_text(last, p)));
        assert(column(front, p).push(value_text(last, p)) =~= ws);
    }
}

/// The sheet with the column of one field taken from a table.
spec fn sheet_with(sheet: Sheet, t: Seq<WeatherView>, p: DataPoint) -> Sheet {
    match p {
        DataPoint::Date => Sheet { dates: Some(Seq::new(t.len(), |k: int| t[k].date)), ..sheet },
        DataPoint::WeatherCode => Sheet {
            codes: Some(Seq::new(t.len(), |k: int| t[k].weather_code)),
            ..sheet
        },
        _ => sheet.with(p, column(t, p)),
    }
}

/// The line of one field reads as the column of that field.
proof fn lemma_line(
    t: Seq<WeatherView>,
    p: DataPoint,
    sheet: Sheet,
    readings: Seq<Option<Seq<char>>>,
    start: int,
)
    requires
        valid_table(t),
        p != DataPoint::Date ==> forall|j: int|
            0 <= j < t.len() ==> reading_at(readings, start + j) == Some(
                value_text(#[trigger] t[j], p),
            ),
    ensures
        read_line(sheet, line_body(t, p), readings, start) == Ok::<Sheet, ParseFault>(
            sheet_with(sheet, t, p),
        ),
        line_tokens(line_body(t, p)).len() == if p == DataPoint::Date {
            0
        } else {
            t.len() as int
        },
        lacks(line_body(t, p), '\n'),
        lacks(line_body(t, p), '\r'),
{
    lemma_tag(p);
    lemma_values(t, p);
    let tag = p.tag();
    let values = values_text(t, p);
    let body = line_body(t, p);
    lemma_split_pair(tag, values, ':');
    let parts = split(body, ':');
    assert(parts[0] == tag && parts[1] == values);
    assert forall|i: int| 0 <= i < body.len() implies body[i] != '\n' && body[i] != '\r' by {
        if i < tag.len() {
            assert(body[i] == tag[i]);
        } else if i == tag.len() {
        } else {
            assert(body[i] == values[i - tag.len() - 1]);
        }
    }
    match p {
        DataPoint::Date => {
            lemma_date_column(t);
        },
        DataPoint::WeatherCode => {
            lemma_code_column(t, readings, start);
        },
        _ => {
            lemma_measure_column(t, readings, start, p);
        },
    }
}

/// The seven lines of a table without their line feeds.
spec fn bodies(t: Seq<WeatherView>) -> Seq<Seq<char>> {
    seq![
        line_body(t, DataPoint::Date),
        line_body(t, DataPoint::WeatherCode),
        line_body(t, DataPoint::TemperatureMax),
        line_body(t, DataPoint::TemperatureMin),
        line_body(t, DataPoint::PrecipitationSum),
        line_body(t, DataPoint::WindSpeedMax),
        line_body(t, DataPoint::PrecipitationProbabilityMax),
    ]
}

/// The reading of each numeric word of the text of a table is the written
/// value at its place.
proof fn lemma_readings(t: Seq<WeatherView>)
    ensures
        forall|j: int|
            0 <= j < t.len() ==> reading_at(table_readings(t), j) == Some(
                value_text(#[trigger] t[j], DataPoint::WeatherCode),
            ),
        forall|j: int|
            0 <= j < t.len() ==> reading_at(table_readings(t), t.len() + j) == Some(
                value_text(#[trigger] t[j], DataPoint::TemperatureMax),
            ),
        forall|j: int|
            0 <= j < t.len() ==> reading_at(table_readings(t), 2 * t.len() + j) == Some(
                value_text(#[trigger] t[j], DataPoint::TemperatureMin),
            ),
        forall|j: int|
            0 <= j < t.len() ==> reading_at(table_readings(t), 3 * t.len() + j) == Some(
                value_text(#[trigger] t[j], DataPoint::PrecipitationSum),
            ),
        forall|j: int|
            0 <= j < t.len() ==> reading_at(table_readings(t), 4 * t.len() + j) == Some(
                value_text(#[trigger] t[j], DataPoint::WindSpeedMax),
            ),
        forall|j: int|
            0 <= j < t.len() ==> reading_at(table_readings(t), 5 * t.len() + j) == Some(
                value_text(#[trigger] t[j], DataPoint::PrecipitationProbabilityMax),
            ),
{
    let all = table_readings(t);
    let n = t.len() as int;
    assert(all.len() == 6 * n);
    assert forall|j: int| 0 <= j < n implies all[j] == Some(
        value_text(#[trigger] t[j], DataPoint::WeatherCode),
    ) by {
        assert(column_readings(t, DataPoint::WeatherCode)[j] == Some(
            value_text(t[j], DataPoint::WeatherCode),
        ));
    }
    assert forall|j: int| 0 <= j < n implies all[n + j] == Some(
        value_text(#[trigger] t[j], DataPoint::TemperatureMax),
    ) by {
        assert(column_readings(t, DataPoint::TemperatureMax)[j] == Some(
            value_text(t[j], DataPoint::TemperatureMax),
        ));
    }
    assert forall|j: int| 0 <= j < n implies all[2 * n + j] == Some(
        value_text(#[trigger] t[j], DataPoint::TemperatureMin),
    ) by {
        assert(column_readings(t, DataPoint::TemperatureMin)[j] == Some(
            value_text(t[j], DataPoint::TemperatureMin),
        ));
    }
    assert forall|j: int| 0 <= j < n implies all[3 * n + j] == Some(
        value_text(#[trigger] t[j], DataPoint::PrecipitationSum),
    ) by {
        assert(column_readings(t, DataPoint::PrecipitationSum)[j] == Some(
            value_text(t[j], DataPoint::PrecipitationSum),
        ));
    }
    assert forall|j: int| 0 <= j < n implies all[4 * n + j] == Some(
        value_text(#[trigger] t[j], DataPoint::WindSpeedMax),
    ) by {
        assert(column_readings(t, DataPoint::WindSpeedMax)[j] == Some(
            value_text(t[j], DataPoint::WindSpeedMax),
        ));
    }
    assert forall|j: int| 0 <= j < n implies all[5 * n + j] == Some(
        value_text(#[trigger] t[j], DataPoint::PrecipitationProbabilityMax),
    ) by {
        assert(column_readings(t, DataPoint::PrecipitationProbabilityMax)[j] == Some(
            value_text(t[j], DataPoint::PrecipitationProbabilityMax),
        ));
    }
}

/// The text of a table is its seven lines, each followed by a line feed.
proof fn lemma_text_is_joined(t: Seq<WeatherView>)
    ensures
        table_text(t) == joined_lines(bodies(t)),
{
    reveal_strlit(":");
    reveal_strlit("\n");
    assert(":"@ =~= seq![':']);
    assert("\n"@ =~= seq!['\n']);
    let b = bodies(t);
    let b1 = b.take(1);
    let b2 = b.take(2);
    let b3 = b.take(3);
    let b4 = b.take(4);
    let b5 = b.take(5);
    let b6 = b.take(6);
    assert(b1.drop_last() =~= Seq::<Seq<char>>::empty());
    assert(b2.drop_last() =~= b1);
    assert(b3.drop_last() =~= b2);
    assert(b4.drop_last() =~= b3);
    assert(b5.drop_last() =~= b4);
    assert(b6.drop_last() =~= b5);
    assert(b.drop_last() =~= b6);
    assert(joined_lines(b1.drop_last()) =~= Seq::<char>::empty());
    assert(joined_lines(b1) =~= line_text(t, DataPoint::Date));
    assert(joined_lines(b2) =~= joined_lines(b1) + line_text(t, DataPoint::WeatherCode));
    assert(joined_lines(b3) =~= joined_lines(b2) + line_text(t, DataPoint::TemperatureMax));
    assert(joined_lines(b4) =~= joined_lines(b3) + line_text(t, DataPoint::TemperatureMin));
    assert(joined_lines(b5) =~= joined_lines(b4) + line_text(t, DataPoint::PrecipitationSum));
    assert(joined_lines(b6) =~= joined_lines(b5) + line_text(t, DataPoint::WindSpeedMax));
    assert(joined_lines(b) =~= joined_lines(b6) + line_text(
        t,
        DataPoint::PrecipitationProbabilityMax,
    ));
}

/// One more line of the text of a table, read after the lines before it.
proof fn lemma_read_step(
    b: Seq<Seq<char>>,
    k: int,
    t: Seq<WeatherView>,
    p: DataPoint,
    sheet: Sheet,
    readings: Seq<Option<Seq<char>>>,
    start: int,
)
    requires
        0 < k <= b.len(),
        b[k - 1] == line_body(t, p),
        read_lines(b.take(k - 1), readings) == Ok::<Sheet, ParseFault>(sheet),
        tokens_of(b.take(k - 1)).len() == start,
        valid_table(t),
        p != DataPoint::Date ==> forall|j: int|
            0 <= j < t.len() ==> reading_at(readings, start + j) == Some(
                value_text(#[trigger] t[j], p),
            ),
    ensures
        read_lines(b.take(k), readings) == Ok::<Sheet, ParseFault>(sheet_with(sheet, t, p)),
        tokens_of(b.take(k)).len() == start + if p == DataPoint::Date {
            0
        } else {
            t.len() as int
        },
{
    lemma_line(t, p, sheet, readings, start);
    assert(b.take(k).drop_last() =~= b.take(k - 1));
    assert(b.take(k).last() == b[k - 1]);
}

/// The sheet of the seven columns of a table has the observations of the
/// table.
proof fn lemma_sheet_records(t: Seq<WeatherView>)
    ensures
        ({
            let s1 = sheet_with(Sheet::blank(), t, DataPoint::Date);
            let s2 = sheet_with(s1, t, DataPoint::WeatherCode);
            let s3 = sheet_with(s2, t, DataPoint::TemperatureMax);
            let s4 = sheet_with(s3, t, DataPoint::TemperatureMin);
            let s5 = sheet_with(s4, t, DataPoint::PrecipitationSum);
            let s6 = sheet_with(s5, t, DataPoint::WindSpeedMax);
            let s7 = sheet_with(s6, t, DataPoint::PrecipitationProbabilityMax);
            s7.complete() && s7.records() == Ok::<Seq<WeatherView>, ParseFault>(t)
        }),
{
    let s1 = sheet_with(Sheet::blank(), t, DataPoint::Date);
    let s2 = sheet_with(s1, t, DataPoint::WeatherCode);
    let s3 = sheet_with(s2, t, DataPoint::TemperatureMax);
    let s4 = sheet_with(s3, t, DataPoint::TemperatureMin);
    let s5 = sheet_with(s4, t, DataPoint::PrecipitationSum);
    let s6 = sheet_with(s5, t, DataPoint::WindSpeedMax);
    let s7 = sheet_with(s6, t, DataPoint::PrecipitationProbabilityMax);
    assert(s7.records()->Ok_0 =~= t);
}

/// The text of a table reads back as the table. This holds of a table
/// whose observations ascend by date, as those of every table that was
/// read from a text do; the readings are the written values of the table.
pub proof fn law_text_reads_back(t: Seq<WeatherView>)
    requires
        valid_table(t),
        is_ascending(t),
    ensures
        parse_table(table_text(t), table_readings(t)) == Ok::<Seq<WeatherView>, ParseFault>(t),
{
    let readings = table_readings(t);
    let n = t.len() as int;
    let b = bodies(t);
    let s0 = Sheet::blank();
    let s1 = sheet_with(s0, t, DataPoint::Date);
    let s2 = sheet_with(s1, t, DataPoint::WeatherCode);
    let s3 = sheet_with(s2, t, DataPoint::TemperatureMax);
    let s4 = sheet_with(s3, t, DataPoint::TemperatureMin);
    let s5 = sheet_with(s4, t, DataPoint::PrecipitationSum);
    let s6 = sheet_with(s5, t, DataPoint::WindSpeedMax);
    let s7 = sheet_with(s6, t, DataPoint::PrecipitationProbabilityMax);
    assert(lines(table_text(t)) == b) by {
        lemma_text_is_joined(t);
        lemma_bodies_lack_endings(t);
        lemma_lines_joined(b);
    }
    lemma_readings(t);
    assert(b.take(0) =~= Seq::<Seq<char>>::empty());
    assert(tokens_of(b.take(0)).len() == 0);
    assert(read_lines(b.take(0), readings) == Ok::<Sheet, ParseFault>(s0));
    lemma_read_step(b, 1, t, DataPoint::Date, s0, readings, 0);
    lemma_read_step(b, 2, t, DataPoint::WeatherCode, s1, readings, 0);
    lemma_read_step(b, 3, t, DataPoint::TemperatureMax, s2, readings, n);
    lemma_read_step(b, 4, t, DataPoint::TemperatureMin, s3, readings, 2 * n);
    lemma_read_step(b, 5, t, DataPoint::PrecipitationSum, s4, readings, 3 * n);
    lemma_read_step(b, 6, t, DataPoint::WindSpeedMax, s5, readings, 4 * n);
    lemma_read_step(b, 7, t, DataPoint::PrecipitationProbabilityMax, s6, readings, 5 * n);
    assert(b.take(7) =~= b);
    lemma_sheet_records(t);
    lemma_ascending_fixed(t);
}

/// No line of the text of a table holds a line ending.
proof fn lemma_bodies_lack_endings(t: Seq<WeatherView>)
    requires
        valid_table(t),
    ensures
        forall|k: int|
            0 <= k < bodies(t).len() ==> lacks(#[trigger] bodies(t)[k], '\n') && lacks(
                bodies(t)[k],
                '\r',
            ),
{
    let none = Seq::<Option<Seq<char>>>::empty();
    lemma_body_lacks_endings(t, DataPoint::Date);
    lemma_body_lacks_endings(t, DataPoint::WeatherCode);
    lemma_body_lacks_endings(t, DataPoint::TemperatureMax);
    lemma_body_lacks_endings(t, DataPoint::TemperatureMin);
    lemma_body_lacks_endings(t, DataPoint::PrecipitationSum);
    lemma_body_lacks_endings(t, DataPoint::WindSpeedMax);
    lemma_body_lacks_endings(t, DataPoint::PrecipitationProbabilityMax);
}

/// The line of one field holds no line ending.
proof fn lemma_body_lacks_endings(t: Seq<WeatherView>, p: DataPoint)
    requires
        valid_table(t),
    ensures
        lacks(line_body(t, p), '\n'),
        lacks(line_body(t, p), '\r'),
{
    lemma_tag(p);
    lemma_values(t, p);
    let tag = p.tag();
    let values = values_text(t, p);
    let body = line_body(t, p);
    assert forall|i: int| 0 <= i < body.len() implies body[i] != '\n' && body[i] != '\r' by {
        if i < tag.len() {
            assert(body[i] == tag[i]);
        } else if i == tag.len() {
        } else {
            assert(body[i] == values[i - tag.len() - 1]);
        }
    }
}

/// Every reading that denotes a number denotes it by a decimal literal.
pub open spec fn decimal_readings(readings: Seq<Option<Seq<char>>>) -> bool {
    forall|i: int|
        0 <= i < readings.len() ==> ((#[trigger] readings[i]) matches Some(x) ==> is_decimal(x))
}

/// Every value of a column, where the column was read, is a decimal literal.
spec fn sound_column(c: Option<Seq<Seq<char>>>) -> bool {
    c matches Some(v) ==> all_decimal(v)
}

/// Every text is a decimal literal.
spec fn all_decimal(v: Seq<Seq<char>>) -> bool {
    forall|k: int| 0 <= k < v.len() ==> is_decimal(#[trigger] v[k])
}

/// Every measurement of a sheet is a decimal literal.
spec fn sound_sheet(s: Sheet) -> bool {
    &&& sound_column(s.temp_max)
    &&& sound_column(s.temp_min)
    &&& sound_column(s.precip_sum)
    &&& sound_column(s.wind_max)
    &&& sound_column(s.prob_max)
}

/// The measurements of a line are among the readings.
proof fn lemma_measure_column_sound(
    ws: Seq<Seq<char>>,
    readings: Seq<Option<Seq<char>>>,
    start: int,
    column: DataPoint,
)
    requires
        decimal_readings(readings),
    ensures
        measure_column(ws, readings, start, column) matches Ok(v) ==> all_decimal(v),
    decreases ws.len(),
{
    if ws.len() > 0 {
        lemma_measure_column_sound(ws.drop_last(), readings, start, column);
        match measure_column(ws.drop_last(), readings, start, column) {
            Ok(head) => {
                match reading_at(readings, start + ws.len() - 1) {
                    Some(x) => {
                        assert(all_decimal(head));
                        let i = start + ws.len() - 1;
                        assert(0 <= i < readings.len());
                        assert(readings[i] == Some(x));
                        assert(is_decimal(x));
                        let v = head.push(x);
                        assert forall|k: int| 0 <= k < v.len() implies
                            is_decimal(#[trigger] v[k]) by {
                            if k < head.len() {
                                assert(v[k] == head[k]);
                                assert(is_decimal(head[k]));
                            } else {
                                assert(v[k] == x);
                            }
                        }
                    },
                    None => {},
                }
            },
            Err(_) => {},
        }
    }
}

/// The measurements of the lines of a text are among the readings.
proof fn lemma_read_lines_sound(ls: Seq<Seq<char>>, readings: Seq<Option<Seq<char>>>)
    requires
        decimal_readings(readings),
    ensures
        read_lines(ls, readings) matches Ok(sheet)
            ==> sound_sheet(sheet) && (sheet.dates matches Some(
            dates,
        ) ==> dates.no_duplicates()),
    decreases ls.len(),
{
    if ls.len() > 0 {
        lemma_read_lines_sound(ls.drop_last(), readings);
        match read_lines(ls.drop_last(), readings) {
            Ok(sheet) => {
                let start = tokens_of(ls.drop_last()).len() as int;
                let parts = split(ls.last(), ':');
                if parts.len() == 2 {
                    let ws = words(parts[1]);
                    lemma_column_lengths(ws, readings, start, DataPoint::Date);
                    match DataPoint::of_tag(trim(parts[0])) {
                        Some(DataPoint::Date) => {},
                        Some(DataPoint::WeatherCode) => {},
                        Some(column) => {
                            lemma_measure_column_sound(ws, readings, start, column);
                        },
                        None => {},
                    }
                }
            },
            Err(_) => {},
        }
    }
}

/// A table that was read from a text has distinct dates in ascending
/// order, and decimal literals for measurements where the readings are
/// decimal literals.
pub proof fn law_parsed_table(text: Seq<char>, readings: Seq<Option<Seq<char>>>)
    requires
        decimal_readings(readings),
    ensures
        parse_table(text, readings) matches Ok(t) ==> valid_table(t) && is_ascending(t),
{
    let ls = lines(text);
    lemma_read_lines_sound(ls, readings);
    match read_lines(ls, readings) {
        Ok(sheet) => {
            if ls.len() == 7 && sheet.complete() {
                match sheet.records() {
                    Ok(records) => {
                        let dates = sheet.dates->0;
                        assert(distinct_dates(records)) by {
                            assert forall|a: int, b: int| 0 <= a < b < records.len() implies records[a].date
                                != records[b].date by {
                                assert(records[a].date == dates[a]);
                                assert(records[b].date == dates[b]);
                            }
                        }
                        assert(all_sound(records)) by {
                            assert forall|k: int| 0 <= k < records.len() implies (
                            #[trigger] records[k]).sound() by {
                                assert(is_decimal(sheet.temp_max->0[k]));
                                assert(is_decimal(sheet.temp_min->0[k]));
                                assert(is_decimal(sheet.precip_sum->0[k]));
                                assert(is_decimal(sheet.wind_max->0[k]));
                                assert(is_decimal(sheet.prob_max->0[k]));
                            }
                        }
                        lemma_ascending(records);
                        lemma_ascending_sound(records);
                        lemma_ascending_distinct(ascending(records));
                    },
                    Err(_) => {},
                }
            }
        },
        Err(_) => {},
    }
}

/// Reading a text, writing the table down and reading that again gives the
/// same table; the second reading has the written values of the table for
/// readings.
pub proof fn law_round_trip(text: Seq<char>, readings: Seq<Option<Seq<char>>>)
    requires
        decimal_readings(readings),
    ensures
        parse_table(text, readings) matches Ok(t) ==> parse_table(table_text(t), table_readings(t))
            == Ok::<Seq<WeatherView>, ParseFault>(t),
{
    law_parsed_table(text, readings);
    match parse_table(text, readings) {
        Ok(t) => {
            law_text_reads_back(t);
        },
        Err(_) => {},
    }
}

} // verus!
