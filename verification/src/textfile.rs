//! Writing a table back in the seven-line text format.

use crate::decimal::Decimal;
use crate::query::value_text;
use crate::parser::reading_texts;
use crate::record::{DataPoint, WeatherData, WeatherView};
use crate::table::WeatherDataMap;
use crate::text::{push_str, string_of};
use vstd::prelude::*;

verus! {

/// The values of one field, each with a space before it, in the order of
/// the table.
pub open spec fn values_text(t: Seq<WeatherView>, p: DataPoint) -> Seq<char>
    decreases t.len(),
{
    if t.len() == 0 {
        Seq::<char>::empty()
    } else {
        values_text(t.drop_last(), p) + " "@ + value_text(t.last(), p)
    }
}

/// The line of one field: the tag, a colon, the values and a line feed.
pub open spec fn line_text(t: Seq<WeatherView>, p: DataPoint) -> Seq<char> {
    p.tag() + ":"@ + values_text(t, p) + "\n"@
}

/// The text of a table: the line of the dates, then the lines of the other
/// six fields.
pub open spec fn table_text(t: Seq<WeatherView>) -> Seq<char> {
    line_text(t, DataPoint::Date) + line_text(t, DataPoint::WeatherCode) + line_text(
        t,
        DataPoint::TemperatureMax,
    ) + line_text(t, DataPoint::TemperatureMin) + line_text(t, DataPoint::PrecipitationSum)
        + line_text(t, DataPoint::WindSpeedMax) + line_text(
        t,
        DataPoint::PrecipitationProbabilityMax,
    )
}

/// The values of one field as readings, in the order of the table.
pub open spec fn column_readings(t: Seq<WeatherView>, p: DataPoint) -> Seq<Option<Seq<char>>> {
    Seq::new(t.len(), |i: int| Some(value_text(t[i], p)))
}

/// The readings under which the text of a table reads back: the values of
/// the six numeric fields, field after field in the order of their lines.
pub open spec fn table_readings(t: Seq<WeatherView>) -> Seq<Option<Seq<char>>> {
    column_readings(t, DataPoint::WeatherCode) + column_readings(t, DataPoint::TemperatureMax)
        + column_readings(t, DataPoint::TemperatureMin) + column_readings(
        t,
        DataPoint::PrecipitationSum,
    ) + column_readings(t, DataPoint::WindSpeedMax) + column_readings(
        t,
        DataPoint::PrecipitationProbabilityMax,
    )
}

impl WeatherData {
    /// One field of the observation as a measurement; the date has none.
    pub fn reading(&self, p: DataPoint) -> (r: Option<Decimal>)
        ensures
            match r {
                Some(x) => p != DataPoint::Date && x@ == value_text(self@, p),
                None => p == DataPoint::Date,
            },
    {
        match p {
            DataPoint::Date => None,
            DataPoint::WeatherCode => Some(Decimal::from_code(self.weather_code)),
            DataPoint::TemperatureMax => Some(self.temp_max.clone()),
            DataPoint::TemperatureMin => Some(self.temp_min.clone()),
            DataPoint::PrecipitationSum => Some(self.precip_sum.clone()),
            DataPoint::WindSpeedMax => Some(self.max_wind.clone()),
            DataPoint::PrecipitationProbabilityMax => Some(self.precip_prob_max.clone()),
        }
    }
}

impl WeatherDataMap {
    /// Appends the line of one field to `out`.
    fn write_line(&self, out: &mut Vec<char>, p: DataPoint)
        ensures
            final(out)@ == old(out)@ + line_text(self@, p),
    {
        push_str(out, p.tag_str());
        push_str(out, ":");
        let ghost head = old(out)@ + p.tag() + ":"@;
        let n: usize = self.len();
        let mut i: usize = 0;
        assert(out@ =~= head + values_text(self@.take(0), p));
        while i < n
            invariant
                i <= n,
                n == self@.len(),
                out@ == head + values_text(self@.take(i as int), p),
            decreases n - i,
        {
            let ghost next = self@.take(i + 1);
            proof {
                assert(next.drop_last() =~= self@.take(i as int));
                assert(next.last() == self@[i as int]);
            }
            match self.get_index(i) {
                Some(record) => {
                    push_str(out, " ");
                    record.write_value(out, p);
                    assert(out@ =~= head + values_text(next, p));
                },
                None => {},
            }
            i += 1;
        }
        assert(self@.take(n as int) =~= self@);
        push_str(out, "\n");
        assert(out@ =~= old(out)@ + line_text(self@, p));
    }

    /// The table in the seven-line text format.
    pub fn to_text(&self) -> (s: String)
        ensures
            s@ == table_text(self@),
    {
        let mut out: Vec<char> = Vec::new();
        let ghost t = self@;
        self.write_line(&mut out, DataPoint::Date);
        self.write_line(&mut out, DataPoint::WeatherCode);
        self.write_line(&mut out, DataPoint::TemperatureMax);
        let ghost three = line_text(t, DataPoint::Date) + line_text(t, DataPoint::WeatherCode)
            + line_text(t, DataPoint::TemperatureMax);
        assert(out@ =~= three);
        self.write_line(&mut out, DataPoint::TemperatureMin);
        self.write_line(&mut out, DataPoint::PrecipitationSum);
        self.write_line(&mut out, DataPoint::WindSpeedMax);
        self.write_line(&mut out, DataPoint::PrecipitationProbabilityMax);
        assert(out@ =~= table_text(t));
        string_of(&out)
    }

    /// Appends the values of one numeric field to `out`, as readings.
    fn push_readings(&self, out: &mut Vec<Option<Decimal>>, p: DataPoint)
        requires
            p != DataPoint::Date,
        ensures
            reading_texts(final(out)@) == reading_texts(old(out)@) + column_readings(self@, p),
    {
        let n: usize = self.len();
        let mut i: usize = 0;
        let ghost head = reading_texts(old(out)@);
        assert(reading_texts(out@) =~= head + column_readings(self@, p).take(0));
        while i < n
            invariant
                i <= n,
                n == self@.len(),
                p != DataPoint::Date,
                reading_texts(out@) == head + column_readings(self@, p).take(i as int),
            decreases n - i,
        {
            let ghost before = reading_texts(out@);
            match self.get_index(i) {
                Some(record) => {
                    let value = record.reading(p);
                    out.push(value);
                    assert(reading_texts(out@)
                        =~= before.push(Some(value_text(self@[i as int], p))));
                    assert(column_readings(self@, p).take(i + 1) =~= column_readings(self@, p).take(
                        i as int,
                    ).push(Some(value_text(self@[i as int], p))));
                },
                None => {},
            }
            i += 1;
        }
        assert(column_readings(self@, p).take(n as int) =~= column_readings(self@, p));
    }

    /// The readings under which the text of the table reads back.
    pub fn readings(&self) -> (out: Vec<Option<Decimal>>)
        ensures
            reading_texts(out@) == table_readings(self@),
    {
        let mut out: Vec<Option<Decimal>> = Vec::new();
        let ghost t = self@;
        assert(reading_texts(out@) =~= Seq::<Option<Seq<char>>>::empty());
        self.push_readings(&mut out, DataPoint::WeatherCode);
        self.push_readings(&mut out, DataPoint::TemperatureMax);
        self.push_readings(&mut out, DataPoint::TemperatureMin);
        let ghost three = column_readings(t, DataPoint::WeatherCode) + column_readings(
            t,
            DataPoint::TemperatureMax,
        ) + column_readings(t, DataPoint::TemperatureMin);
        assert(reading_texts(out@) =~= three);
        self.push_readings(&mut out, DataPoint::PrecipitationSum);
        self.push_readings(&mut out, DataPoint::WindSpeedMax);
        self.push_readings(&mut out, DataPoint::PrecipitationProbabilityMax);
        assert(reading_texts(out@) =~= table_readings(t));
        out
    }
}

} // verus!
