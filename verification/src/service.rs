//! The service: what each request does to the table and how it is answered.
//!
//! A request is its method, its path, its query, its content type and its
//! body. Reading never changes the table. Adding, changing and removing
//! take a batch, which is checked as a whole before anything is changed:
//! the table after a request is the table before it, or the table with
//! the whole batch applied.

use crate::batch::{
    change_views, changeable, deleted_all, holds_all, insertable, updated_all,
};
use crate::date::Date;
use crate::decimal::Decimal;
use crate::query::{table_json, DataOps};
use crate::record::{text_of, views, DataPoint, Patch, PatchView, WeatherData, WeatherView};
use crate::reply::{Answer, Body, Item, Member, Number, Reply, Value};
use crate::request::Method;
use crate::table::{holds, range_of, WeatherDataMap};
use crate::text::{
    begins_with, chars_of, copy_range, has_prefix, spells, split, split_chars, split_on,
    split_on_mark, texts,
};
use vstd::prelude::*;

verus! {

// ---------------------------------------------------------------------------
// Queries
// ---------------------------------------------------------------------------

/// The values of `dates` and of `values` in the parts of a query, where
/// each part is `name=value`; of two parts with one name the later counts.
/// Nothing where a part has no equals sign or another name.
pub open spec fn query_fields(parts: Seq<Seq<char>>) -> Option<
    (Option<Seq<char>>, Option<Seq<char>>),
>
    decreases parts.len(),
{
    if parts.len() == 0 {
        Some((None, None))
    } else {
        match query_fields(parts.drop_last()) {
            None => None,
            Some((dates, values)) => {
                let pair = split(parts.last(), '=');
                if pair.len() < 2 {
                    None
                } else if pair[0] == "dates"@ {
                    Some((Some(pair[1]), values))
                } else if pair[0] == "values"@ {
                    Some((dates, Some(pair[1])))
                } else {
                    None
                }
            },
        }
    }
}

/// The dates that some pieces denote; nothing where a piece is no date.
pub open spec fn dates_of(pieces: Seq<Seq<char>>) -> Option<Seq<Date>>
    decreases pieces.len(),
{
    if pieces.len() == 0 {
        Some(Seq::<Date>::empty())
    } else {
        match dates_of(pieces.drop_last()) {
            None => None,
            Some(dates) => match Date::parse(pieces.last()) {
                Err(_) => None,
                Ok(d) => Some(dates.push(d)),
            },
        }
    }
}

/// The fields that some names select; nothing where a name selects none.
pub open spec fn points_of(names: Seq<Seq<char>>) -> Option<Seq<DataPoint>>
    decreases names.len(),
{
    if names.len() == 0 {
        Some(Seq::<DataPoint>::empty())
    } else {
        match points_of(names.drop_last()) {
            None => None,
            Some(points) => match DataPoint::of_query_name(names.last()) {
                None => None,
                Some(p) => Some(points.push(p)),
            },
        }
    }
}

/// The fields that a query asks for: those of its comma-separated list, or
/// none in particular where it has no list.
pub open spec fn selection(values: Option<Seq<char>>) -> Option<Seq<DataPoint>> {
    match values {
        None => Some(Seq::<DataPoint>::empty()),
        Some(list) => points_of(split(list, ',')),
    }
}

/// The dates that a query names after `dates=`, separated by `%20`.
pub open spec fn named_dates(query: Option<Seq<char>>) -> Result<Seq<Date>, Answer> {
    match query {
        None => Err(Answer::DateQueryRequired),
        Some(q) => if !has_prefix(q, "dates="@) {
            Err(Answer::DateQueryRequired)
        } else {
            match dates_of(split_on(q.subrange(6, q.len() as int), "%20"@)) {
                None => Err(Answer::InvalidDate),
                Some(dates) => Ok(dates),
            }
        },
    }
}

// ---------------------------------------------------------------------------
// Bodies
// ---------------------------------------------------------------------------

/// The value of the first member with the given name.
pub open spec fn lookup(members: Seq<Member>, name: Seq<char>) -> Option<Value>
    decreases members.len(),
{
    if members.len() == 0 {
        None
    } else if members[0].name@ == name {
        Some(members[0].value)
    } else {
        lookup(members.skip(1), name)
    }
}

/// The date of a new observation: a string that is a date which the table
/// does not hold yet.
pub open spec fn new_date(t: Seq<WeatherView>, members: Seq<Member>) -> Result<Date, Answer> {
    match lookup(members, "date"@) {
        None => Err(Answer::FieldRequired(DataPoint::Date)),
        Some(Value::Text(s)) => match Date::parse(s@) {
            Err(_) => Err(Answer::DateFormat),
            Ok(d) => if holds(t, d) {
                Err(Answer::DateExists)
            } else {
                Ok(d)
            },
        },
        Some(_) => Err(Answer::DateNotText),
    }
}

/// The weather code that a value denotes: a whole number from 0 to 255.
pub open spec fn code_value(v: Value) -> Result<u8, Answer> {
    match v {
        Value::Number(n) => match n.unsigned {
            None => Err(Answer::FieldNotNumber(DataPoint::WeatherCode)),
            Some(u) => if u > 255 {
                Err(Answer::CodeOutOfRange)
            } else {
                Ok(u as u8)
            },
        },
        _ => Err(Answer::FieldNotNumber(DataPoint::WeatherCode)),
    }
}

/// The measurement that a value denotes: a number that is finite in single
/// precision.
pub open spec fn measure_value(v: Value, p: DataPoint) -> Result<Seq<char>, Answer> {
    match v {
        Value::Number(n) => match n.decimal {
            None => Err(Answer::FieldNotNumber(p)),
            Some(x) => Ok(x@),
        },
        _ => Err(Answer::FieldNotNumber(p)),
    }
}

/// The weather code of a new observation.
pub open spec fn new_code(members: Seq<Member>) -> Result<u8, Answer> {
    match lookup(members, DataPoint::WeatherCode.tag()) {
        None => Err(Answer::FieldRequired(DataPoint::WeatherCode)),
        Some(v) => code_value(v),
    }
}

/// One measurement of a new observation.
pub open spec fn new_measure(members: Seq<Member>, p: DataPoint) -> Result<Seq<char>, Answer> {
    match lookup(members, p.tag()) {
        None => Err(Answer::FieldRequired(p)),
        Some(v) => measure_value(v, p),
    }
}

/// The observation that an element of a batch denotes. Its fields are read
/// in the order date, weather code, highest and lowest temperature,
/// precipitation, wind, precipitation probability; the first that is
/// missing or wrong decides the answer.
pub open spec fn item_record(t: Seq<WeatherView>, item: Item) -> Result<WeatherView, Answer> {
    match item {
        Item::NotObject => Err(Answer::ItemNotObject),
        Item::Object(m) => match new_date(t, m@) {
            Err(a) => Err(a),
            Ok(date) => match new_code(m@) {
                Err(a) => Err(a),
                Ok(weather_code) => match new_measure(m@, DataPoint::TemperatureMax) {
                    Err(a) => Err(a),
                    Ok(temp_max) => match new_measure(m@, DataPoint::TemperatureMin) {
                        Err(a) => Err(a),
                        Ok(temp_min) => match new_measure(m@, DataPoint::PrecipitationSum) {
                            Err(a) => Err(a),
                            Ok(precip_sum) => match new_measure(m@, DataPoint::WindSpeedMax) {
                                Err(a) => Err(a),
                                Ok(max_wind) => match new_measure(
                                    m@,
                                    DataPoint::PrecipitationProbabilityMax,
                                ) {
                                    Err(a) => Err(a),
                                    Ok(precip_prob_max) => Ok(
                                        WeatherView {
                                            date,
                                            weather_code,
                                            temp_max,
                                            temp_min,
                                            precip_sum,
                                            max_wind,
                                            precip_prob_max,
                                        },
                                    ),
                                },
                            },
                        },
                    },
                },
            },
        },
    }
}

/// The observations that the elements of a batch denote. The elements are
/// read in order; the first that is wrong, or that has the date of an
/// earlier one, decides the answer.
pub open spec fn batch_records(t: Seq<WeatherView>, items: Seq<Item>) -> Result<
    Seq<WeatherView>,
    Answer,
>
    decreases items.len(),
{
    if items.len() == 0 {
        Ok(Seq::<WeatherView>::empty())
    } else {
        match batch_records(t, items.drop_last()) {
            Err(a) => Err(a),
            Ok(records) => match item_record(t, items.last()) {
                Err(a) => Err(a),
                Ok(r) => if holds(records, r.date) {
                    Err(Answer::DuplicateDate)
                } else {
                    Ok(records.push(r))
                },
            },
        }
    }
}

/// The weather code that a change names, if it names one.
pub open spec fn changed_code(members: Seq<Member>) -> Result<Option<u8>, Answer> {
    match lookup(members, DataPoint::WeatherCode.tag()) {
        None => Ok(None),
        Some(v) => match code_value(v) {
            Err(a) => Err(a),
            Ok(code) => Ok(Some(code)),
        },
    }
}

/// The measurement that a change names for a field, if it names one.
pub open spec fn changed_measure(members: Seq<Member>, p: DataPoint) -> Result<
    Option<Seq<char>>,
    Answer,
> {
    match lookup(members, p.tag()) {
        None => Ok(None),
        Some(v) => match measure_value(v, p) {
            Err(a) => Err(a),
            Ok(x) => Ok(Some(x)),
        },
    }
}

/// The change that an element denotes for the observation of `date`. The
/// element must be an object and the table must hold the date; then the
/// fields are read in their order, and the first that is wrong decides the
/// answer.
pub open spec fn item_patch(t: Seq<WeatherView>, date: Date, item: Item) -> Result<
    PatchView,
    Answer,
> {
    match item {
        Item::NotObject => Err(Answer::ItemNotObject),
        Item::Object(m) => if !holds(t, date) {
            Err(Answer::DateMissing)
        } else {
            match changed_code(m@) {
                Err(a) => Err(a),
                Ok(weather_code) => match changed_measure(m@, DataPoint::TemperatureMax) {
                    Err(a) => Err(a),
                    Ok(temp_max) => match changed_measure(m@, DataPoint::TemperatureMin) {
                        Err(a) => Err(a),
                        Ok(temp_min) => match changed_measure(m@, DataPoint::PrecipitationSum) {
                            Err(a) => Err(a),
                            Ok(precip_sum) => match changed_measure(m@, DataPoint::WindSpeedMax) {
                                Err(a) => Err(a),
                                Ok(max_wind) => match changed_measure(
                                    m@,
                                    DataPoint::PrecipitationProbabilityMax,
                                ) {
                                    Err(a) => Err(a),
                                    Ok(precip_prob_max) => Ok(
                                        PatchView {
                                            weather_code,
                                            temp_max,
                                            temp_min,
                                            precip_sum,
                                            max_wind,
                                            precip_prob_max,
                                        },
                                    ),
                                },
                            },
                        },
                    },
                },
            }
        },
    }
}

/// The changes that the elements denote, the element at each position for
/// the date at that position; `dates` and `items` are equally many.
pub open spec fn batch_patches(t: Seq<WeatherView>, dates: Seq<Date>, items: Seq<Item>) -> Result<
    Seq<(Date, PatchView)>,
    Answer,
>
    decreases items.len(),
{
    if items.len() == 0 || dates.len() == 0 {
        Ok(Seq::<(Date, PatchView)>::empty())
    } else {
        match batch_patches(t, dates.drop_last(), items.drop_last()) {
            Err(a) => Err(a),
            Ok(changes) => match item_patch(t, dates.last(), items.last()) {
                Err(a) => Err(a),
                Ok(p) => Ok(changes.push((dates.last(), p))),
            },
        }
    }
}

/// The elements of a body, or why it has none.
pub open spec fn body_items(body: Body) -> Result<Seq<Item>, Answer> {
    match body {
        Body::NotText => Err(Answer::BodyNotText),
        Body::NotJson => Err(Answer::BodyNotJson),
        Body::NotArray => Err(Answer::BodyNotArray),
        Body::Items(items) => Ok(items@),
    }
}

/// Whether every date is in the table and none is named twice.
pub open spec fn removable(t: Seq<WeatherView>, dates: Seq<Date>) -> bool {
    holds_all(t, dates) && dates.no_duplicates()
}

// ---------------------------------------------------------------------------
// What each request does
// ---------------------------------------------------------------------------

/// The answer to a request to read. The path must begin with `/q`; the
/// query must name `dates`, two dates separated by `%20`, and may name
/// `values`, a comma-separated list of fields. The table must hold both
/// dates. The answer is the JSON of the range between them.
pub open spec fn read_answer(
    t: Seq<WeatherView>,
    path: Seq<char>,
    query: Option<Seq<char>>,
) -> Answer {
    if !has_prefix(path, "/q"@) {
        Answer::PathNotFound
    } else {
        match query {
            None => Answer::QueryRequired,
            Some(q) => match query_fields(split(q, '&')) {
                Some((Some(dates), values)) => {
                    let pieces = split_on(dates, "%20"@);
                    if pieces.len() != 2 {
                        Answer::DatesFormat
                    } else {
                        match dates_of(pieces) {
                            None => Answer::InvalidDate,
                            Some(bounds) => if !(holds(t, bounds[0]) && holds(t, bounds[1])) {
                                Answer::RangeNotSatisfiable
                            } else {
                                match selection(values) {
                                    None => Answer::InvalidValueField,
                                    Some(points) => Answer::Range(
                                        table_json(range_of(t, bounds[0], bounds[1]), points),
                                    ),
                                }
                            },
                        }
                    }
                },
                _ => Answer::InvalidQuery,
            },
        }
    }
}

/// The answer to a request to add, and the table after it. The path must
/// be `/` without a query and the content type `application/json`; the
/// body must be an array of objects with all seven fields, whose dates are
/// new to the table and distinct. The whole batch is added, or nothing.
pub open spec fn add_outcome(
    t: Seq<WeatherView>,
    path: Seq<char>,
    query: Option<Seq<char>>,
    content_type: Option<Seq<char>>,
    body: Body,
) -> (Answer, Seq<WeatherView>) {
    if path != "/"@ || query is Some {
        (Answer::PathNotEmpty, t)
    } else if content_type != Some("application/json"@) {
        (Answer::ContentType, t)
    } else {
        match body_items(body) {
            Err(a) => (a, t),
            Ok(items) => match batch_records(t, items) {
                Err(a) => (a, t),
                Ok(records) => (Answer::Added, t + records),
            },
        }
    }
}

/// The answer to a request to change, and the table after it. The path
/// must begin with `/q` and the query with `dates=`; the body must be an
/// array of as many objects as there are dates, and the table must hold
/// every date. All changes are made, in order, or none.
pub open spec fn change_outcome(
    t: Seq<WeatherView>,
    path: Seq<char>,
    query: Option<Seq<char>>,
    body: Body,
) -> (Answer, Seq<WeatherView>) {
    if !has_prefix(path, "/q"@) {
        (Answer::PathNotFound, t)
    } else {
        match named_dates(query) {
            Err(a) => (a, t),
            Ok(dates) => match body_items(body) {
                Err(a) => (a, t),
                Ok(items) => if items.len() != dates.len() {
                    (Answer::CountMismatch, t)
                } else {
                    match batch_patches(t, dates, items) {
                        Err(a) => (a, t),
                        Ok(changes) => (Answer::Updated, updated_all(t, changes)),
                    }
                },
            },
        }
    }
}

/// The answer to a request to remove, and the table after it. The path
/// must be `/q` and the query begin with `dates=`; the table must hold
/// every date, and no date may be named twice. All are removed, or none.
pub open spec fn remove_outcome(t: Seq<WeatherView>, path: Seq<char>, query: Option<Seq<char>>) -> (
    Answer,
    Seq<WeatherView>,
) {
    if path != "/q"@ {
        (Answer::PathNotFound, t)
    } else {
        match named_dates(query) {
            Err(a) => (a, t),
            Ok(dates) => if removable(t, dates) {
                (Answer::Deleted, deleted_all(t, dates))
            } else {
                (Answer::DateMissing, t)
            },
        }
    }
}

/// The answer to a request and the table after it.
pub open spec fn outcome(
    t: Seq<WeatherView>,
    method: Method,
    path: Seq<char>,
    query: Option<Seq<char>>,
    content_type: Option<Seq<char>>,
    body: Body,
) -> (Answer, Seq<WeatherView>) {
    match method {
        Method::GET => (read_answer(t, path, query), t),
        Method::POST => add_outcome(t, path, query, content_type, body),
        Method::PUT => change_outcome(t, path, query, body),
        Method::DELETE => remove_outcome(t, path, query),
        Method::OPTIONS => (Answer::PathNotFound, t),
        _ => (Answer::MethodNotAllowed, t),
    }
}

/// The characters of a text that may be absent.
pub open spec fn chars_view(s: Option<&str>) -> Option<Seq<char>> {
    match s {
        Some(x) => Some(x@),
        None => None,
    }
}

// ---------------------------------------------------------------------------
// Facts about batches
// ---------------------------------------------------------------------------

proof fn lemma_query_fields_fails(parts: Seq<Seq<char>>, k: int)
    requires
        0 <= k <= parts.len(),
        query_fields(parts.take(k)) is None,
    ensures
        query_fields(parts) is None,
    decreases parts.len() - k,
{
    if k < parts.len() {
        assert(parts.take(k + 1).drop_last() =~= parts.take(k));
        lemma_query_fields_fails(parts, k + 1);
    } else {
        assert(parts.take(k) =~= parts);
    }
}

proof fn lemma_dates_of_fails(pieces: Seq<Seq<char>>, k: int)
    requires
        0 <= k <= pieces.len(),
        dates_of(pieces.take(k)) is None,
    ensures
        dates_of(pieces) is None,
    decreases pieces.len() - k,
{
    if k < pieces.len() {
        assert(pieces.take(k + 1).drop_last() =~= pieces.take(k));
        lemma_dates_of_fails(pieces, k + 1);
    } else {
        assert(pieces.take(k) =~= pieces);
    }
}

proof fn lemma_points_of_fails(names: Seq<Seq<char>>, k: int)
    requires
        0 <= k <= names.len(),
        points_of(names.take(k)) is None,
    ensures
        points_of(names) is None,
    decreases names.len() - k,
{
    if k < names.len() {
        assert(names.take(k + 1).drop_last() =~= names.take(k));
        lemma_points_of_fails(names, k + 1);
    } else {
        assert(names.take(k) =~= names);
    }
}

proof fn lemma_batch_records_fails(t: Seq<WeatherView>, items: Seq<Item>, k: int)
    requires
        0 <= k <= items.len(),
        batch_records(t, items.take(k)) is Err,
    ensures
        batch_records(t, items) == batch_records(t, items.take(k)),
    decreases items.len() - k,
{
    if k < items.len() {
        assert(items.take(k + 1).drop_last() =~= items.take(k));
        lemma_batch_records_fails(t, items, k + 1);
    } else {
        assert(items.take(k) =~= items);
    }
}

proof fn lemma_batch_patches_fails(t: Seq<WeatherView>, dates: Seq<Date>, items: Seq<Item>, k: int)
    requires
        dates.len() == items.len(),
        0 <= k <= items.len(),
        batch_patches(t, dates.take(k), items.take(k)) is Err,
    ensures
        batch_patches(t, dates, items) == batch_patches(t, dates.take(k), items.take(k)),
    decreases items.len() - k,
{
    if k < items.len() {
        assert(items.take(k + 1).drop_last() =~= items.take(k));
        assert(dates.take(k + 1).drop_last() =~= dates.take(k));
        lemma_batch_patches_fails(t, dates, items, k + 1);
    } else {
        assert(items.take(k) =~= items);
        assert(dates.take(k) =~= dates);
    }
}

/// A batch that was read can be added: its dates are new and distinct.
pub proof fn lemma_batch_records(t: Seq<WeatherView>, items: Seq<Item>)
    ensures
        batch_records(t, items) matches Ok(records) ==> insertable(t, records) && records.len()
            == items.len(),
    decreases items.len(),
{
    if items.len() > 0 {
        lemma_batch_records(t, items.drop_last());
        match batch_records(t, items.drop_last()) {
            Ok(head) => {
                match item_record(t, items.last()) {
                    Ok(r) => {
                        if !holds(head, r.date) {
                            let out = head.push(r);
                            assert(!holds(t, r.date));
                            assert forall|a: int, b: int| 0 <= a < b < out.len() implies out[a].date
                                != out[b].date by {
                                if b < head.len() {
                                    assert(head[a].date != head[b].date);
                                } else {
                                    assert(head[a].date != r.date);
                                }
                            }
                            assert forall|a: int| 0 <= a < out.len() implies !holds(
                                t,
                                (#[trigger] out[a]).date,
                            ) by {
                                if a < head.len() {
                                    assert(!holds(t, head[a].date));
                                }
                            }
                        }
                    },
                    Err(_) => {},
                }
            },
            Err(_) => {},
        }
    }
}

/// A batch that was not read fails with an answer that reports a failure.
pub proof fn lemma_batch_failures(t: Seq<WeatherView>, dates: Seq<Date>, items: Seq<Item>)
    ensures
        batch_records(t, items) matches Err(a) ==> !a.is_success(),
        batch_patches(t, dates, items) matches Err(a) ==> !a.is_success(),
    decreases items.len(),
{
    if items.len() > 0 {
        lemma_batch_failures(t, dates.drop_last(), items.drop_last());
    }
}

/// Changes that were read can be made: the table holds each of their dates.
pub proof fn lemma_batch_patches(t: Seq<WeatherView>, dates: Seq<Date>, items: Seq<Item>)
    requires
        dates.len() == items.len(),
    ensures
        batch_patches(t, dates, items) matches Ok(changes) ==> changeable(t, changes)
            && changes.len() == dates.len(),
    decreases items.len(),
{
    if items.len() > 0 {
        lemma_batch_patches(t, dates.drop_last(), items.drop_last());
        match batch_patches(t, dates.drop_last(), items.drop_last()) {
            Ok(head) => {
                match item_patch(t, dates.last(), items.last()) {
                    Ok(p) => {
                        let all = head.push((dates.last(), p));
                        assert forall|i: int| 0 <= i < all.len() implies holds(
                            t,
                            (#[trigger] all[i]).0,
                        ) by {
                            if i < head.len() {
                                assert(all[i] == head[i]);
                            }
                        }
                    },
                    Err(_) => {},
                }
            },
            Err(_) => {},
        }
    }
}

// ---------------------------------------------------------------------------
// Reading queries
// ---------------------------------------------------------------------------

/// The characters of a piece that may be absent.
pub open spec fn piece_view(p: Option<Vec<char>>) -> Option<Seq<char>> {
    match p {
        Some(x) => Some(x@),
        None => None,
    }
}

/// Reads the parts of a query.
fn read_query(parts: &Vec<Vec<char>>) -> (r: Option<(Option<Vec<char>>, Option<Vec<char>>)>)
    ensures
        match r {
            Some((dates, values)) => query_fields(texts(parts@)) == Some(
                (piece_view(dates), piece_view(values)),
            ),
            None => query_fields(texts(parts@)) is None,
        },
{
    let ghost all = texts(parts@);
    let mut dates: Option<Vec<char>> = None;
    let mut values: Option<Vec<char>> = None;
    let mut i: usize = 0;
    assert(all.take(0) =~= Seq::<Seq<char>>::empty());
    while i < parts.len()
        invariant
            i <= parts.len(),
            all == texts(parts@),
            query_fields(all.take(i as int)) == Some((piece_view(dates), piece_view(values))),
        decreases parts.len() - i,
    {
        proof {
            assert(all.take(i + 1).drop_last() =~= all.take(i as int));
            assert(all.take(i + 1).last() == parts@[i as int]@);
        }
        let pair = split_chars(&parts[i], '=');
        if pair.len() < 2 {
            proof {
                lemma_query_fields_fails(all, i + 1);
            }
            return None;
        }
        let value = copy_range(&pair[1], 0, pair[1].len());
        assert(value@ =~= pair@[1]@);
        if spells(&pair[0], "dates") {
            dates = Some(value);
        } else if spells(&pair[0], "values") {
            values = Some(value);
        } else {
            proof {
                lemma_query_fields_fails(all, i + 1);
            }
            return None;
        }
        i += 1;
    }
    assert(all.take(parts.len() as int) =~= all);
    Some((dates, values))
}

/// Reads each piece as a date.
fn read_dates(pieces: &Vec<Vec<char>>) -> (r: Option<Vec<Date>>)
    ensures
        match r {
            Some(dates) => dates_of(texts(pieces@)) == Some(dates@),
            None => dates_of(texts(pieces@)) is None,
        },
{
    let ghost all = texts(pieces@);
    let mut dates: Vec<Date> = Vec::new();
    let mut i: usize = 0;
    assert(all.take(0) =~= Seq::<Seq<char>>::empty());
    while i < pieces.len()
        invariant
            i <= pieces.len(),
            all == texts(pieces@),
            dates_of(all.take(i as int)) == Some(dates@),
        decreases pieces.len() - i,
    {
        proof {
            assert(all.take(i + 1).drop_last() =~= all.take(i as int));
            assert(all.take(i + 1).last() == pieces@[i as int]@);
        }
        match Date::from_chars(&pieces[i]) {
            Ok(d) => {
                dates.push(d);
            },
            Err(_) => {
                proof {
                    lemma_dates_of_fails(all, i + 1);
                }
                return None;
            },
        }
        i += 1;
    }
    assert(all.take(pieces.len() as int) =~= all);
    Some(dates)
}

/// Reads each name as a field.
fn read_points(names: &Vec<Vec<char>>) -> (r: Option<Vec<DataPoint>>)
    ensures
        match r {
            Some(points) => points_of(texts(names@)) == Some(points@),
            None => points_of(texts(names@)) is None,
        },
{
    let ghost all = texts(names@);
    let mut points: Vec<DataPoint> = Vec::new();
    let mut i: usize = 0;
    assert(all.take(0) =~= Seq::<Seq<char>>::empty());
    while i < names.len()
        invariant
            i <= names.len(),
            all == texts(names@),
            points_of(all.take(i as int)) == Some(points@),
        decreases names.len() - i,
    {
        proof {
            assert(all.take(i + 1).drop_last() =~= all.take(i as int));
            assert(all.take(i + 1).last() == names@[i as int]@);
        }
        match DataPoint::from_query_name(&names[i]) {
            Some(p) => {
                points.push(p);
            },
            None => {
                proof {
                    lemma_points_of_fails(all, i + 1);
                }
                return None;
            },
        }
        i += 1;
    }
    assert(all.take(names.len() as int) =~= all);
    Some(points)
}

/// Reads the fields that a query asks for.
fn read_selection(values: &Option<Vec<char>>) -> (r: Option<Vec<DataPoint>>)
    ensures
        match r {
            Some(points) => selection(piece_view(*values)) == Some(points@),
            None => selection(piece_view(*values)) is None,
        },
{
    match values {
        None => Some(Vec::new()),
        Some(list) => {
            let names = split_chars(list, ',');
            read_points(&names)
        },
    }
}

/// Reads the dates that a query names after `dates=`.
fn read_named_dates(query: Option<&str>) -> (r: Result<Vec<Date>, Reply>)
    ensures
        match r {
            Ok(dates) => named_dates(chars_view(query)) == Ok::<Seq<Date>, Answer>(dates@),
            Err(a) => named_dates(chars_view(query)) == Err::<Seq<Date>, Answer>(a@),
        },
{
    let q: Vec<char> = match query {
        None => return Err(Reply::DateQueryRequired),
        Some(text) => chars_of(text),
    };
    if !begins_with(&q, "dates=") {
        return Err(Reply::DateQueryRequired);
    }
    proof {
        reveal_strlit("dates=");
    }
    let list = copy_range(&q, 6, q.len());
    let pieces = split_on_mark(&list, "%20");
    match read_dates(&pieces) {
        Some(dates) => Ok(dates),
        None => Err(Reply::InvalidDate),
    }
}

// ---------------------------------------------------------------------------
// Reading bodies
// ---------------------------------------------------------------------------

/// The value of the first member with the given name.
fn find<'a>(members: &'a Vec<Member>, name: &str) -> (r: Option<&'a Value>)
    ensures
        match r {
            Some(v) => lookup(members@, name@) == Some(*v),
            None => lookup(members@, name@) is None,
        },
{
    let mut i: usize = 0;
    assert(members@.skip(0) =~= members@);
    while i < members.len()
        invariant
            i <= members.len(),
            lookup(members@, name@) == lookup(members@.skip(i as int), name@),
        decreases members.len() - i,
    {
        let ghost rest = members@.skip(i as int);
        assert(rest[0] == members@[i as int]);
        assert(rest.skip(1) =~= members@.skip(i + 1));
        let key = chars_of(members[i].name.as_str());
        if spells(&key, name) {
            return Some(&members[i].value);
        }
        i += 1;
    }
    None
}

/// Reads the date of a new observation.
fn read_new_date(table: &WeatherDataMap, members: &Vec<Member>) -> (r: Result<Date, Reply>)
    ensures
        match r {
            Ok(d) => new_date(table@, members@) == Ok::<Date, Answer>(d),
            Err(a) => new_date(table@, members@) == Err::<Date, Answer>(a@),
        },
{
    match find(members, "date") {
        None => Err(Reply::FieldRequired(DataPoint::Date)),
        Some(Value::Text(s)) => match Date::from_string(s.as_str()) {
            Err(_) => Err(Reply::DateFormat),
            Ok(d) => if table.contains_key(&d) {
                Err(Reply::DateExists)
            } else {
                Ok(d)
            },
        },
        Some(_) => Err(Reply::DateNotText),
    }
}

/// Reads a value as a weather code.
fn read_code_value(v: &Value) -> (r: Result<u8, Reply>)
    ensures
        match r {
            Ok(code) => code_value(*v) == Ok::<u8, Answer>(code),
            Err(a) => code_value(*v) == Err::<u8, Answer>(a@),
        },
{
    match v {
        Value::Number(n) => match n.unsigned {
            None => Err(Reply::FieldNotNumber(DataPoint::WeatherCode)),
            Some(u) => if u > 255 {
                Err(Reply::CodeOutOfRange)
            } else {
                Ok(u as u8)
            },
        },
        _ => Err(Reply::FieldNotNumber(DataPoint::WeatherCode)),
    }
}

/// Reads a value as a measurement.
fn read_measure_value(v: &Value, p: DataPoint) -> (r: Result<Decimal, Reply>)
    ensures
        match r {
            Ok(x) => measure_value(*v, p) == Ok::<Seq<char>, Answer>(x@),
            Err(a) => measure_value(*v, p) == Err::<Seq<char>, Answer>(a@),
        },
{
    match v {
        Value::Number(n) => match &n.decimal {
            None => Err(Reply::FieldNotNumber(p)),
            Some(x) => Ok(x.clone()),
        },
        _ => Err(Reply::FieldNotNumber(p)),
    }
}

/// Reads the weather code of a new observation.
fn read_new_code(members: &Vec<Member>) -> (r: Result<u8, Reply>)
    ensures
        match r {
            Ok(code) => new_code(members@) == Ok::<u8, Answer>(code),
            Err(a) => new_code(members@) == Err::<u8, Answer>(a@),
        },
{
    match find(members, DataPoint::WeatherCode.tag_str()) {
        None => Err(Reply::FieldRequired(DataPoint::WeatherCode)),
        Some(v) => read_code_value(v),
    }
}

/// Reads one measurement of a new observation.
fn read_new_measure(members: &Vec<Member>, p: DataPoint) -> (r: Result<Decimal, Reply>)
    ensures
        match r {
            Ok(x) => new_measure(members@, p) == Ok::<Seq<char>, Answer>(x@),
            Err(a) => new_measure(members@, p) == Err::<Seq<char>, Answer>(a@),
        },
{
    match find(members, p.tag_str()) {
        None => Err(Reply::FieldRequired(p)),
        Some(v) => read_measure_value(v, p),
    }
}

/// Reads one element of a batch as a new observation.
fn read_item(table: &WeatherDataMap, item: &Item) -> (r: Result<WeatherData, Reply>)
    ensures
        match r {
            Ok(record) => item_record(table@, *item) == Ok::<WeatherView, Answer>(record@),
            Err(a) => item_record(table@, *item) == Err::<WeatherView, Answer>(a@),
        },
{
    match item {
        Item::NotObject => Err(Reply::ItemNotObject),
        Item::Object(m) => {
            let date = read_new_date(table, m)?;
            let weather_code = read_new_code(m)?;
            let temp_max = read_new_measure(m, DataPoint::TemperatureMax)?;
            let temp_min = read_new_measure(m, DataPoint::TemperatureMin)?;
            let precip_sum = read_new_measure(m, DataPoint::PrecipitationSum)?;
            let max_wind = read_new_measure(m, DataPoint::WindSpeedMax)?;
            let precip_prob_max = read_new_measure(m, DataPoint::PrecipitationProbabilityMax)?;
            Ok(
                WeatherData::new(
                    date,
                    weather_code,
                    temp_max,
                    temp_min,
                    precip_sum,
                    max_wind,
                    precip_prob_max,
                ),
            )
        },
    }
}

/// Whether one of the observations has the date.
fn names_date(records: &Vec<WeatherData>, date: &Date) -> (r: bool)
    ensures
        r == holds(views(records@), *date),
{
    let mut k: usize = 0;
    while k < records.len()
        invariant
            k <= records.len(),
            forall|m: int| 0 <= m < k ==> (#[trigger] views(records@)[m]).date != *date,
        decreases records.len() - k,
    {
        assert(views(records@)[k as int] == records@[k as int]@);
        if records[k].date == *date {
            return true;
        }
        k += 1;
    }
    false
}

/// Reads the elements of a batch as new observations.
fn read_batch(table: &WeatherDataMap, items: &Vec<Item>) -> (r: Result<Vec<WeatherData>, Reply>)
    ensures
        match r {
            Ok(records) => batch_records(table@, items@) == Ok::<Seq<WeatherView>, Answer>(
                views(records@),
            ),
            Err(a) => batch_records(table@, items@) == Err::<Seq<WeatherView>, Answer>(a@),
        },
{
    let ghost t = table@;
    let mut records: Vec<WeatherData> = Vec::new();
    let mut i: usize = 0;
    assert(items@.take(0) =~= Seq::<Item>::empty());
    assert(views(records@) =~= Seq::<WeatherView>::empty());
    while i < items.len()
        invariant
            i <= items.len(),
            t == table@,
            batch_records(t, items@.take(i as int)) == Ok::<Seq<WeatherView>, Answer>(
                views(records@),
            ),
        decreases items.len() - i,
    {
        let ghost before = views(records@);
        proof {
            assert(items@.take(i + 1).drop_last() =~= items@.take(i as int));
            assert(items@.take(i + 1).last() == items@[i as int]);
        }
        match read_item(table, &items[i]) {
            Err(a) => {
                proof {
                    lemma_batch_records_fails(t, items@, i + 1);
                }
                return Err(a);
            },
            Ok(record) => {
                if names_date(&records, &record.date) {
                    proof {
                        lemma_batch_records_fails(t, items@, i + 1);
                    }
                    return Err(Reply::DuplicateDate);
                }
                let ghost added = record@;
                records.push(record);
                assert(views(records@) =~= before.push(added));
            },
        }
        i += 1;
    }
    assert(items@.take(items.len() as int) =~= items@);
    Ok(records)
}

/// Reads the weather code that a change names.
fn read_changed_code(members: &Vec<Member>) -> (r: Result<Option<u8>, Reply>)
    ensures
        match r {
            Ok(code) => changed_code(members@) == Ok::<Option<u8>, Answer>(code),
            Err(a) => changed_code(members@) == Err::<Option<u8>, Answer>(a@),
        },
{
    match find(members, DataPoint::WeatherCode.tag_str()) {
        None => Ok(None),
        Some(v) => match read_code_value(v) {
            Err(a) => Err(a),
            Ok(code) => Ok(Some(code)),
        },
    }
}

/// Reads the measurement that a change names for a field.
fn read_changed_measure(members: &Vec<Member>, p: DataPoint) -> (r: Result<Option<Decimal>, Reply>)
    ensures
        match r {
            Ok(x) => changed_measure(members@, p) == Ok::<Option<Seq<char>>, Answer>(text_of(x)),
            Err(a) => changed_measure(members@, p) == Err::<Option<Seq<char>>, Answer>(a@),
        },
{
    match find(members, p.tag_str()) {
        None => Ok(None),
        Some(v) => match read_measure_value(v, p) {
            Err(a) => Err(a),
            Ok(x) => Ok(Some(x)),
        },
    }
}

/// Reads one element as the change of the observation of `date`.
fn read_patch(table: &WeatherDataMap, date: &Date, item: &Item) -> (r: Result<Patch, Reply>)
    ensures
        match r {
            Ok(patch) => item_patch(table@, *date, *item) == Ok::<PatchView, Answer>(patch@),
            Err(a) => item_patch(table@, *date, *item) == Err::<PatchView, Answer>(a@),
        },
{
    match item {
        Item::NotObject => Err(Reply::ItemNotObject),
        Item::Object(m) => {
            if !table.contains_key(date) {
                return Err(Reply::DateMissing);
            }
            let weather_code = read_changed_code(m)?;
            let temp_max = read_changed_measure(m, DataPoint::TemperatureMax)?;
            let temp_min = read_changed_measure(m, DataPoint::TemperatureMin)?;
            let precip_sum = read_changed_measure(m, DataPoint::PrecipitationSum)?;
            let max_wind = read_changed_measure(m, DataPoint::WindSpeedMax)?;
            let precip_prob_max = read_changed_measure(m, DataPoint::PrecipitationProbabilityMax)?;
            Ok(Patch { weather_code, temp_max, temp_min, precip_sum, max_wind, precip_prob_max })
        },
    }
}

/// Reads the elements as changes, each for the date at its position.
fn read_patches(table: &WeatherDataMap, dates: &Vec<Date>, items: &Vec<Item>) -> (r: Result<
    Vec<(Date, Patch)>,
    Reply,
>)
    requires
        dates.len() == items.len(),
    ensures
        match r {
            Ok(changes) => batch_patches(table@, dates@, items@) == Ok::<
                Seq<(Date, PatchView)>,
                Answer,
            >(change_views(changes@)),
            Err(a) => batch_patches(table@, dates@, items@) == Err::<
                Seq<(Date, PatchView)>,
                Answer,
            >(a@),
        },
{
    let ghost t = table@;
    let mut changes: Vec<(Date, Patch)> = Vec::new();
    let mut i: usize = 0;
    assert(items@.take(0) =~= Seq::<Item>::empty());
    assert(dates@.take(0) =~= Seq::<Date>::empty());
    assert(change_views(changes@) =~= Seq::<(Date, PatchView)>::empty());
    while i < items.len()
        invariant
            i <= items.len(),
            dates.len() == items.len(),
            t == table@,
            batch_patches(t, dates@.take(i as int), items@.take(i as int)) == Ok::<
                Seq<(Date, PatchView)>,
                Answer,
            >(change_views(changes@)),
        decreases items.len() - i,
    {
        let ghost before = change_views(changes@);
        proof {
            assert(items@.take(i + 1).drop_last() =~= items@.take(i as int));
            assert(items@.take(i + 1).last() == items@[i as int]);
            assert(dates@.take(i + 1).drop_last() =~= dates@.take(i as int));
            assert(dates@.take(i + 1).last() == dates@[i as int]);
        }
        match read_patch(table, &dates[i], &items[i]) {
            Err(a) => {
                proof {
                    lemma_batch_patches_fails(t, dates@, items@, i + 1);
                }
                return Err(a);
            },
            Ok(patch) => {
                let ghost added = patch@;
                changes.push((dates[i], patch));
                assert(change_views(changes@) =~= before.push((dates@[i as int], added)));
            },
        }
        i += 1;
    }
    assert(items@.take(items.len() as int) =~= items@);
    assert(dates@.take(items.len() as int) =~= dates@);
    Ok(changes)
}

/// The elements of a body.
fn read_body(body: &Body) -> (r: Result<&Vec<Item>, Reply>)
    ensures
        match r {
            Ok(items) => body_items(*body) == Ok::<Seq<Item>, Answer>(items@),
            Err(a) => body_items(*body) == Err::<Seq<Item>, Answer>(a@),
        },
{
    match body {
        Body::NotText => Err(Reply::BodyNotText),
        Body::NotJson => Err(Reply::BodyNotJson),
        Body::NotArray => Err(Reply::BodyNotArray),
        Body::Items(items) => Ok(items),
    }
}

// ---------------------------------------------------------------------------
// Answering requests
// ---------------------------------------------------------------------------

/// Answers a request to read.
pub fn serve_read(table: &WeatherDataMap, path: &str, query: Option<&str>) -> (r: Reply)
    ensures
        r@ == read_answer(table@, path@, chars_view(query)),
{
    let p = chars_of(path);
    if !begins_with(&p, "/q") {
        return Reply::PathNotFound;
    }
    let q: Vec<char> = match query {
        None => return Reply::QueryRequired,
        Some(text) => chars_of(text),
    };
    let parts = split_chars(&q, '&');
    let (dates, values) = match read_query(&parts) {
        Some((Some(dates), values)) => (dates, values),
        _ => return Reply::InvalidQuery,
    };
    let pieces = split_on_mark(&dates, "%20");
    if pieces.len() != 2 {
        return Reply::DatesFormat;
    }
    let bounds = match read_dates(&pieces) {
        Some(bounds) => bounds,
        None => return Reply::InvalidDate,
    };
    assert(bounds@.len() == 2) by {
        lemma_dates_of_len(texts(pieces@));
    }
    let range = match table.take_range(&bounds[0], &bounds[1]) {
        Some(range) => range,
        None => return Reply::RangeNotSatisfiable,
    };
    let points = match read_selection(&values) {
        Some(points) => points,
        None => return Reply::InvalidValueField,
    };
    Reply::Range(range.json(&points))
}

/// As many dates come out as pieces went in.
proof fn lemma_dates_of_len(pieces: Seq<Seq<char>>)
    ensures
        dates_of(pieces) matches Some(dates) ==> dates.len() == pieces.len(),
    decreases pieces.len(),
{
    if pieces.len() > 0 {
        lemma_dates_of_len(pieces.drop_last());
    }
}

/// Answers a request to add, and adds the batch if it is accepted.
pub fn serve_add(
    table: &mut WeatherDataMap,
    path: &str,
    query: Option<&str>,
    content_type: Option<&str>,
    body: &Body,
) -> (r: Reply)
    ensures
        (r@, final(table)@) == add_outcome(
            old(table)@,
            path@,
            chars_view(query),
            chars_view(content_type),
            *body,
        ),
{
    let p = chars_of(path);
    if !spells(&p, "/") || query.is_some() {
        return Reply::PathNotEmpty;
    }
    let json: bool = match content_type {
        Some(kind) => {
            let k = chars_of(kind);
            spells(&k, "application/json")
        },
        None => false,
    };
    if !json {
        return Reply::ContentType;
    }
    let items = match read_body(body) {
        Ok(items) => items,
        Err(a) => return a,
    };
    let records = match read_batch(table, items) {
        Ok(records) => records,
        Err(a) => return a,
    };
    proof {
        lemma_batch_records(table@, items@);
    }
    match table.insert_all(records) {
        Ok(()) => Reply::Added,
        Err(_) => Reply::DuplicateDate,
    }
}

/// Answers a request to change, and makes the changes if they are accepted.
pub fn serve_change(
    table: &mut WeatherDataMap,
    path: &str,
    query: Option<&str>,
    body: &Body,
) -> (r: Reply)
    ensures
        (r@, final(table)@) == change_outcome(old(table)@, path@, chars_view(query), *body),
{
    let p = chars_of(path);
    if !begins_with(&p, "/q") {
        return Reply::PathNotFound;
    }
    let dates = match read_named_dates(query) {
        Ok(dates) => dates,
        Err(a) => return a,
    };
    let items = match read_body(body) {
        Ok(items) => items,
        Err(a) => return a,
    };
    if items.len() != dates.len() {
        return Reply::CountMismatch;
    }
    let changes = match read_patches(table, &dates, items) {
        Ok(changes) => changes,
        Err(a) => return a,
    };
    proof {
        lemma_batch_patches(table@, dates@, items@);
    }
    match table.update_all(&changes) {
        Ok(()) => Reply::Updated,
        Err(_) => Reply::DateMissing,
    }
}

/// Answers a request to remove, and removes the observations if all can
/// be removed.
pub fn serve_remove(table: &mut WeatherDataMap, path: &str, query: Option<&str>) -> (r: Reply)
    ensures
        (r@, final(table)@) == remove_outcome(old(table)@, path@, chars_view(query)),
{
    let p = chars_of(path);
    if !spells(&p, "/q") {
        return Reply::PathNotFound;
    }
    let dates = match read_named_dates(query) {
        Ok(dates) => dates,
        Err(a) => return a,
    };
    match table.delete_all(&dates) {
        Ok(()) => Reply::Deleted,
        Err(_) => Reply::DateMissing,
    }
}

/// Answers a request and applies it to the table.
pub fn handle(
    table: &mut WeatherDataMap,
    method: Method,
    path: &str,
    query: Option<&str>,
    content_type: Option<&str>,
    body: &Body,
) -> (r: Reply)
    ensures
        (r@, final(table)@) == outcome(
            old(table)@,
            method,
            path@,
            chars_view(query),
            chars_view(content_type),
            *body,
        ),
{
    match method {
        Method::GET => serve_read(table, path, query),
        Method::POST => serve_add(table, path, query, content_type, body),
        Method::PUT => serve_change(table, path, query, body),
        Method::DELETE => serve_remove(table, path, query),
        Method::OPTIONS => Reply::PathNotFound,
        _ => Reply::MethodNotAllowed,
    }
}

} // verus!
