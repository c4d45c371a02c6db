//! Queries on a table: a range of dates, and the observations as JSON.

use crate::date::Date;
use crate::record::{views, DataPoint, WeatherData, WeatherView};
use crate::table::{
    ascending, holds, lemma_ascending, lemma_ascending_distinct, lemma_select, range_of, select,
    sort_records, WeatherDataMap,
};
use crate::text::{numeral, push_numeral, push_str, string_of};
use vstd::prelude::*;

verus! {

// ---------------------------------------------------------------------------
// What the JSON of a table is
// ---------------------------------------------------------------------------

/// Whether a selection asks for a field: an empty selection asks for all.
pub open spec fn selected(points: Seq<DataPoint>, p: DataPoint) -> bool {
    points.len() == 0 || points.contains(p)
}

/// The written form of one field of an observation.
pub open spec fn value_text(r: WeatherView, p: DataPoint) -> Seq<char> {
    match p {
        DataPoint::Date => r.date.text(),
        DataPoint::WeatherCode => numeral(r.weather_code as nat),
        DataPoint::TemperatureMax => r.temp_max,
        DataPoint::TemperatureMin => r.temp_min,
        DataPoint::PrecipitationSum => r.precip_sum,
        DataPoint::WindSpeedMax => r.max_wind,
        DataPoint::PrecipitationProbabilityMax => r.precip_prob_max,
    }
}

/// One member of a JSON object after the first: a comma, the tag in quotes,
/// a colon and the value. Nothing where the field is not asked for.
pub open spec fn member_json(r: WeatherView, points: Seq<DataPoint>, p: DataPoint) -> Seq<char> {
    if selected(points, p) {
        ",\""@ + p.tag() + "\":"@ + value_text(r, p)
    } else {
        Seq::<char>::empty()
    }
}

/// The JSON object of one observation: the date first, as a string, then
/// the fields asked for, always in the same order.
pub open spec fn record_json(r: WeatherView, points: Seq<DataPoint>) -> Seq<char> {
    "{\"date\":\""@ + r.date.text() + "\""@ + member_json(r, points, DataPoint::WeatherCode)
        + member_json(r, points, DataPoint::TemperatureMax) + member_json(
        r,
        points,
        DataPoint::TemperatureMin,
    ) + member_json(r, points, DataPoint::PrecipitationSum) + member_json(
        r,
        points,
        DataPoint::WindSpeedMax,
    ) + member_json(r, points, DataPoint::PrecipitationProbabilityMax) + "}"@
}

/// The JSON objects of some observations, in their order, with a comma
/// between each two.
pub open spec fn records_json(t: Seq<WeatherView>, points: Seq<DataPoint>) -> Seq<char>
    decreases t.len(),
{
    if t.len() == 0 {
        Seq::<char>::empty()
    } else if t.len() == 1 {
        record_json(t[0], points)
    } else {
        records_json(t.drop_last(), points) + ","@ + record_json(t.last(), points)
    }
}

/// The JSON array of a table; `[]` for a table without observations.
pub open spec fn table_json(t: Seq<WeatherView>, points: Seq<DataPoint>) -> Seq<char> {
    "["@ + records_json(t, points) + "]"@
}

// ---------------------------------------------------------------------------
// Writing JSON
// ---------------------------------------------------------------------------

/// Whether a selection asks for a field.
fn is_selected(points: &Vec<DataPoint>, p: DataPoint) -> (r: bool)
    ensures
        r == selected(points@, p),
{
    if points.len() == 0 {
        return true;
    }
    let mut i: usize = 0;
    while i < points.len()
        invariant
            i <= points.len(),
            forall|k: int| 0 <= k < i ==> points@[k] != p,
        decreases points.len() - i,
    {
        if points[i] == p {
            assert(points@[i as int] == p);
            return true;
        }
        i += 1;
    }
    false
}

impl WeatherData {
    /// Appends the written form of one field to `out`.
    pub fn write_value(&self, out: &mut Vec<char>, p: DataPoint)
        ensures
            final(out)@ == old(out)@ + value_text(self@, p),
    {
        match p {
            DataPoint::Date => self.date.write(out),
            DataPoint::WeatherCode => push_numeral(out, self.weather_code as u32),
            DataPoint::TemperatureMax => self.temp_max.write(out),
            DataPoint::TemperatureMin => self.temp_min.write(out),
            DataPoint::PrecipitationSum => self.precip_sum.write(out),
            DataPoint::WindSpeedMax => self.max_wind.write(out),
            DataPoint::PrecipitationProbabilityMax => self.precip_prob_max.write(out),
        }
    }

    /// Appends one member of the JSON object to `out`, if it is asked for.
    fn write_member(&self, out: &mut Vec<char>, points: &Vec<DataPoint>, p: DataPoint)
        ensures
            final(out)@ == old(out)@ + member_json(self@, points@, p),
    {
        if is_selected(points, p) {
            push_str(out, ",\"");
            push_str(out, p.tag_str());
            push_str(out, "\":");
            self.write_value(out, p);
            assert(out@ =~= old(out)@ + member_json(self@, points@, p));
        } else {
            assert(out@ =~= old(out)@ + member_json(self@, points@, p));
        }
    }

    /// Appends the JSON object of the observation to `out`.
    pub fn write_json(&self, out: &mut Vec<char>, points: &Vec<DataPoint>)
        ensures
            final(out)@ == old(out)@ + record_json(self@, points@),
    {
        let ghost r = self@;
        let ghost ps = points@;
        push_str(out, "{\"date\":\"");
        self.date.write(out);
        push_str(out, "\"");
        let ghost head = "{\"date\":\""@ + r.date.text() + "\""@;
        assert(out@ =~= old(out)@ + head);
        self.write_member(out, points, DataPoint::WeatherCode);
        self.write_member(out, points, DataPoint::TemperatureMax);
        self.write_member(out, points, DataPoint::TemperatureMin);
        let ghost three = head + member_json(r, ps, DataPoint::WeatherCode) + member_json(
            r,
            ps,
            DataPoint::TemperatureMax,
        ) + member_json(r, ps, DataPoint::TemperatureMin);
        assert(out@ =~= old(out)@ + three);
        self.write_member(out, points, DataPoint::PrecipitationSum);
        self.write_member(out, points, DataPoint::WindSpeedMax);
        self.write_member(out, points, DataPoint::PrecipitationProbabilityMax);
        push_str(out, "}");
        assert(out@ =~= old(out)@ + record_json(r, ps));
    }

    /// The JSON object of the observation: the date, then the fields that
    /// `points` asks for, or every field where `points` is empty.
    pub fn json(&self, points: &Vec<DataPoint>) -> (s: String)
        ensures
            s@ == record_json(self@, points@),
    {
        let mut out: Vec<char> = Vec::new();
        self.write_json(&mut out, points);
        assert(out@ =~= record_json(self@, points@));
        string_of(&out)
    }
}

/// The two queries on a table.
pub trait DataOps: Sized {
    /// The observations of the table, in its order.
    spec fn content(&self) -> Seq<WeatherView>;

    /// The observations between two dates, both included and given in
    /// either order, earliest first; nothing unless the table holds an
    /// observation of each of the two dates.
    fn take_range(&self, begin: &Date, end: &Date) -> (r: Option<Self>)
        ensures
            r is Some <==> holds(self.content(), *begin) && holds(self.content(), *end),
            r matches Some(t) ==> t.content() == range_of(self.content(), *begin, *end),
    ;

    /// The table as a JSON array of one object for each observation, in
    /// the order of the table. Each object has the date and the fields that
    /// `points` asks for, or every field where `points` is empty.
    fn json(self, points: &Vec<DataPoint>) -> (s: String)
        ensures
            s@ == table_json(self.content(), points@),
    ;
}

impl DataOps for WeatherDataMap {
    open spec fn content(&self) -> Seq<WeatherView> {
        self@
    }

    fn take_range(&self, begin: &Date, end: &Date) -> (r: Option<WeatherDataMap>)
    {
        if !self.contains_key(begin) || !self.contains_key(end) {
            return None;
        }
        let (lo, hi) = if end.before(begin) {
            (*end, *begin)
        } else {
            (*begin, *end)
        };
        let n = self.len();
        let mut picked: Vec<WeatherData> = Vec::new();
        let mut i: usize = 0;
        assert(views(picked@) =~= select(self@.take(0), lo, hi));
        while i < n
            invariant
                i <= n,
                n == self@.len(),
                views(picked@) == select(self@.take(i as int), lo, hi),
            decreases n - i,
        {
            let ghost before = views(picked@);
            proof {
                assert(self@.take(i + 1).drop_last() =~= self@.take(i as int));
                assert(self@.take(i + 1).last() == self@[i as int]);
            }
            match self.get_index(i) {
                Some(record) => {
                    if !record.date.before(&lo) && !hi.before(&record.date) {
                        picked.push(record.clone());
                        assert(views(picked@) =~= before.push(self@[i as int]));
                    }
                },
                None => {},
            }
            i += 1;
        }
        proof {
            assert(self@.take(n as int) =~= self@);
            lemma_select(self@, lo, hi);
            lemma_ascending(select(self@, lo, hi));
            lemma_ascending_distinct(ascending(select(self@, lo, hi)));
        }
        let sorted = sort_records(picked);
        WeatherDataMap::from_records(sorted)
    }

    fn json(self, points: &Vec<DataPoint>) -> (s: String) {
        let mut out: Vec<char> = Vec::new();
        push_str(&mut out, "[");
        let n: usize = self.len();
        let mut i: usize = 0;
        assert(out@ =~= "["@ + records_json(self@.take(0), points@));
        while i < n
            invariant
                i <= n,
                n == self@.len(),
                out@ == "["@ + records_json(self@.take(i as int), points@),
            decreases n - i,
        {
            let ghost before = records_json(self@.take(i as int), points@);
            let ghost next = self@.take(i + 1);
            proof {
                assert(next.drop_last() =~= self@.take(i as int));
                assert(next.last() == self@[i as int]);
                if i == 0 {
                    assert(next[0] == self@[0]);
                }
            }
            match self.get_index(i) {
                Some(record) => {
                    if i > 0 {
                        push_str(&mut out, ",");
                    }
                    record.write_json(&mut out, points);
                    assert(out@ =~= "["@ + records_json(next, points@));
                },
                None => {},
            }
            i += 1;
        }
        assert(self@.take(n as int) =~= self@);
        push_str(&mut out, "]");
        assert(out@ =~= table_json(self@, points@));
        string_of(&out)
    }
}

} // verus!
