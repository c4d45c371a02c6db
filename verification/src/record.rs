//! One day's observation, and the names of its fields.

use crate::date::Date;
use crate::decimal::{is_decimal, Decimal};
use crate::text::{spells, string_of, chars_of};
use vstd::prelude::*;

verus! {

/// The fields of an observation.
#[derive(Clone, Copy, Debug, PartialEq, Eq, Hash, Structural)]
pub enum DataPoint {
    WeatherCode,
    TemperatureMax,
    TemperatureMin,
    PrecipitationSum,
    WindSpeedMax,
    PrecipitationProbabilityMax,
    Date,
}

impl DataPoint {
    /// The tag under which a field stands in the text format and in JSON.
    pub open spec fn tag(self) -> Seq<char> {
        match self {
            DataPoint::Date => "date"@,
            DataPoint::WeatherCode => "weather_code"@,
            DataPoint::TemperatureMax => "temperature_max"@,
            DataPoint::TemperatureMin => "temperature_min"@,
            DataPoint::PrecipitationSum => "precipitation_sum"@,
            DataPoint::WindSpeedMax => "wind_speed_max"@,
            DataPoint::PrecipitationProbabilityMax => "precipitation_probability_max"@,
        }
    }

    /// The field that a tag names, if any. The tags are tried in a fixed
    /// order, the date first.
    pub open spec fn of_tag(s: Seq<char>) -> Option<DataPoint> {
        if s == "date"@ {
            Some(DataPoint::Date)
        } else if s == "weather_code"@ {
            Some(DataPoint::WeatherCode)
        } else if s == "temperature_max"@ {
            Some(DataPoint::TemperatureMax)
        } else if s == "temperature_min"@ {
            Some(DataPoint::TemperatureMin)
        } else if s == "precipitation_sum"@ {
            Some(DataPoint::PrecipitationSum)
        } else if s == "wind_speed_max"@ {
            Some(DataPoint::WindSpeedMax)
        } else if s == "precipitation_probability_max"@ {
            Some(DataPoint::PrecipitationProbabilityMax)
        } else {
            None
        }
    }

    /// The short name by which a query selects a field.
    pub open spec fn of_query_name(s: Seq<char>) -> Option<DataPoint> {
        if s == "weather_code"@ {
            Some(DataPoint::WeatherCode)
        } else if s == "temp_max"@ {
            Some(DataPoint::TemperatureMax)
        } else if s == "temp_min"@ {
            Some(DataPoint::TemperatureMin)
        } else if s == "precip_sum"@ {
            Some(DataPoint::PrecipitationSum)
        } else if s == "max_wind"@ {
            Some(DataPoint::WindSpeedMax)
        } else if s == "prob_precip_max"@ {
            Some(DataPoint::PrecipitationProbabilityMax)
        } else {
            None
        }
    }

    /// The name of a field as shown to a person.
    pub open spec fn label(self) -> Seq<char> {
        match self {
            DataPoint::Date => "Date"@,
            DataPoint::WeatherCode => "Weather Code"@,
            DataPoint::TemperatureMax => "High Temperature"@,
            DataPoint::TemperatureMin => "Low Temperature"@,
            DataPoint::PrecipitationSum => "Total Precipitation"@,
            DataPoint::WindSpeedMax => "Maximum Wind Speed"@,
            DataPoint::PrecipitationProbabilityMax => "Highest Precipitation Chance"@,
        }
    }

    /// The tag of the field.
    pub fn tag_str(&self) -> (s: &'static str)
        ensures
            s@ == self.tag(),
    {
        match self {
            DataPoint::Date => "date",
            DataPoint::WeatherCode => "weather_code",
            DataPoint::TemperatureMax => "temperature_max",
            DataPoint::TemperatureMin => "temperature_min",
            DataPoint::PrecipitationSum => "precipitation_sum",
            DataPoint::WindSpeedMax => "wind_speed_max",
            DataPoint::PrecipitationProbabilityMax => "precipitation_probability_max",
        }
    }

    /// The field that `tag` names.
    pub fn from_tag(tag: &Vec<char>) -> (r: Option<DataPoint>)
        ensures
            r == DataPoint::of_tag(tag@),
    {
        if spells(tag, "date") {
            Some(DataPoint::Date)
        } else if spells(tag, "weather_code") {
            Some(DataPoint::WeatherCode)
        } else if spells(tag, "temperature_max") {
            Some(DataPoint::TemperatureMax)
        } else if spells(tag, "temperature_min") {
            Some(DataPoint::TemperatureMin)
        } else if spells(tag, "precipitation_sum") {
            Some(DataPoint::PrecipitationSum)
        } else if spells(tag, "wind_speed_max") {
            Some(DataPoint::WindSpeedMax)
        } else if spells(tag, "precipitation_probability_max") {
            Some(DataPoint::PrecipitationProbabilityMax)
        } else {
            None
        }
    }

    /// The field that a query selects by `name`.
    pub fn from_query_name(name: &Vec<char>) -> (r: Option<DataPoint>)
        ensures
            r == DataPoint::of_query_name(name@),
    {
        if spells(name, "weather_code") {
            Some(DataPoint::WeatherCode)
        } else if spells(name, "temp_max") {
            Some(DataPoint::TemperatureMax)
        } else if spells(name, "temp_min") {
            Some(DataPoint::TemperatureMin)
        } else if spells(name, "precip_sum") {
            Some(DataPoint::PrecipitationSum)
        } else if spells(name, "max_wind") {
            Some(DataPoint::WindSpeedMax)
        } else if spells(name, "prob_precip_max") {
            Some(DataPoint::PrecipitationProbabilityMax)
        } else {
            None
        }
    }

    /// The name of the field as shown to a person.
    pub fn to_string(&self) -> (s: String)
        ensures
            s@ == self.label(),
    {
        let label: &str = match self {
            DataPoint::Date => "Date",
            DataPoint::WeatherCode => "Weather Code",
            DataPoint::TemperatureMax => "High Temperature",
            DataPoint::TemperatureMin => "Low Temperature",
            DataPoint::PrecipitationSum => "Total Precipitation",
            DataPoint::WindSpeedMax => "Maximum Wind Speed",
            DataPoint::PrecipitationProbabilityMax => "Highest Precipitation Chance",
        };
        let chars = chars_of(label);
        string_of(&chars)
    }
}

/// The observation of one day.
#[derive(Debug)]
pub struct WeatherData {
    pub date: Date,
    pub weather_code: u8,
    pub temp_max: Decimal,
    pub temp_min: Decimal,
    pub precip_sum: Decimal,
    pub max_wind: Decimal,
    pub precip_prob_max: Decimal,
}

/// The mathematical content of a [`WeatherData`]: each measurement is the
/// text of its decimal literal.
pub struct WeatherView {
    pub date: Date,
    pub weather_code: u8,
    pub temp_max: Seq<char>,
    pub temp_min: Seq<char>,
    pub precip_sum: Seq<char>,
    pub max_wind: Seq<char>,
    pub precip_prob_max: Seq<char>,
}

impl WeatherView {
    /// Whether each of the five measurements is a decimal literal.
    pub open spec fn sound(self) -> bool {
        &&& is_decimal(self.temp_max)
        &&& is_decimal(self.temp_min)
        &&& is_decimal(self.precip_sum)
        &&& is_decimal(self.max_wind)
        &&& is_decimal(self.precip_prob_max)
    }
}

impl View for WeatherData {
    type V = WeatherView;

    open spec fn view(&self) -> WeatherView {
        WeatherView {
            date: self.date,
            weather_code: self.weather_code,
            temp_max: self.temp_max@,
            temp_min: self.temp_min@,
            precip_sum: self.precip_sum@,
            max_wind: self.max_wind@,
            precip_prob_max: self.precip_prob_max@,
        }
    }
}

impl Clone for WeatherData {
    /// A second observation with the same content.
    fn clone(&self) -> (r: WeatherData)
        ensures
            r@ == self@,
    {
        WeatherData {
            date: self.date,
            weather_code: self.weather_code,
            temp_max: self.temp_max.clone(),
            temp_min: self.temp_min.clone(),
            precip_sum: self.precip_sum.clone(),
            max_wind: self.max_wind.clone(),
            precip_prob_max: self.precip_prob_max.clone(),
        }
    }
}

/// The views of a sequence of observations.
pub open spec fn views(v: Seq<WeatherData>) -> Seq<WeatherView> {
    Seq::new(v.len(), |i: int| v[i]@)
}

impl WeatherData {
    /// An observation with the given fields.
    pub fn new(
        date: Date,
        weather_code: u8,
        temp_max: Decimal,
        temp_min: Decimal,
        precip_sum: Decimal,
        max_wind: Decimal,
        precip_prob_max: Decimal,
    ) -> (r: WeatherData)
        ensures
            r.date == date,
            r.weather_code == weather_code,
            r.temp_max == temp_max,
            r.temp_min == temp_min,
            r.precip_sum == precip_sum,
            r.max_wind == max_wind,
            r.precip_prob_max == precip_prob_max,
            r@.sound(),
    {
        temp_max.check();
        temp_min.check();
        precip_sum.check();
        max_wind.check();
        precip_prob_max.check();
        WeatherData {
            date,
            weather_code,
            temp_max,
            temp_min,
            precip_sum,
            max_wind,
            precip_prob_max,
        }
    }

    /// Every measurement of an observation is a decimal literal.
    pub fn check(&self)
        ensures
            self@.sound(),
    {
        self.temp_max.check();
        self.temp_min.check();
        self.precip_sum.check();
        self.max_wind.check();
        self.precip_prob_max.check();
    }

}

/// The fields of an observation that a change names; the others stay.
#[derive(Debug)]
pub struct Patch {
    pub weather_code: Option<u8>,
    pub temp_max: Option<Decimal>,
    pub temp_min: Option<Decimal>,
    pub precip_sum: Option<Decimal>,
    pub max_wind: Option<Decimal>,
    pub precip_prob_max: Option<Decimal>,
}

/// The mathematical content of a [`Patch`].
pub struct PatchView {
    pub weather_code: Option<u8>,
    pub temp_max: Option<Seq<char>>,
    pub temp_min: Option<Seq<char>>,
    pub precip_sum: Option<Seq<char>>,
    pub max_wind: Option<Seq<char>>,
    pub precip_prob_max: Option<Seq<char>>,
}

/// The text of a measurement that may be absent.
pub open spec fn text_of(d: Option<Decimal>) -> Option<Seq<char>> {
    match d {
        Some(x) => Some(x@),
        None => None,
    }
}

impl View for Patch {
    type V = PatchView;

    open spec fn view(&self) -> PatchView {
        PatchView {
            weather_code: self.weather_code,
            temp_max: text_of(self.temp_max),
            temp_min: text_of(self.temp_min),
            precip_sum: text_of(self.precip_sum),
            max_wind: text_of(self.max_wind),
            precip_prob_max: text_of(self.precip_prob_max),
        }
    }
}

/// The new value of a field: the named one if the change names one.
pub open spec fn replaced<T>(old_value: T, new_value: Option<T>) -> T {
    match new_value {
        Some(x) => x,
        None => old_value,
    }
}

impl WeatherView {
    /// The observation after a change: the date stays, and so does every
    /// field that the change does not name.
    pub open spec fn patched(self, p: PatchView) -> WeatherView {
        WeatherView {
            date: self.date,
            weather_code: replaced(self.weather_code, p.weather_code),
            temp_max: replaced(self.temp_max, p.temp_max),
            temp_min: replaced(self.temp_min, p.temp_min),
            precip_sum: replaced(self.precip_sum, p.precip_sum),
            max_wind: replaced(self.max_wind, p.max_wind),
            precip_prob_max: replaced(self.precip_prob_max, p.precip_prob_max),
        }
    }
}

/// The named measurement, or a copy of the old one.
fn chosen(old_value: &Decimal, new_value: &Option<Decimal>) -> (r: Decimal)
    ensures
        r@ == replaced(old_value@, text_of(*new_value)),
{
    match new_value {
        Some(x) => x.clone(),
        None => old_value.clone(),
    }
}

impl WeatherData {
    /// The observation after a change.
    pub fn patched(&self, patch: &Patch) -> (r: WeatherData)
        ensures
            r@ == self@.patched(patch@),
    {
        let weather_code: u8 = match patch.weather_code {
            Some(code) => code,
            None => self.weather_code,
        };
        WeatherData {
            date: self.date,
            weather_code,
            temp_max: chosen(&self.temp_max, &patch.temp_max),
            temp_min: chosen(&self.temp_min, &patch.temp_min),
            precip_sum: chosen(&self.precip_sum, &patch.precip_sum),
            max_wind: chosen(&self.max_wind, &patch.max_wind),
            precip_prob_max: chosen(&self.precip_prob_max, &patch.precip_prob_max),
        }
    }
}

} // verus!
