use weather_ku::date::Date;
use weather_ku::decimal::Decimal;
use weather_ku::query::DataOps;
use weather_ku::record::{DataPoint, WeatherData};
use weather_ku::table::WeatherDataMap;

fn num(text: &str) -> Decimal {
    Decimal::new(text).unwrap()
}

fn sample() -> WeatherDataMap {
    let mut table = WeatherDataMap::new();
    table
        .insert(WeatherData::new(
            Date { year: 2024, month: 1, day: 2 },
            2,
            num("20"),
            num("5"),
            num("1"),
            num("6"),
            num("20"),
        ))
        .unwrap();
    table
        .insert(WeatherData::new(
            Date { year: 2024, month: 1, day: 1 },
            1,
            num("10.5"),
            num("-0.5"),
            num("0"),
            num("5"),
            num("10"),
        ))
        .unwrap();
    table
}

#[test]
fn empty_table_is_an_empty_array() {
    assert_eq!(WeatherDataMap::new().json(&Vec::new()), "[]");
    assert_eq!(WeatherDataMap::new().json(&vec![DataPoint::WeatherCode]), "[]");
}

#[test]
fn empty_selection_emits_every_field_in_fixed_order() {
    assert_eq!(
        sample().json(&Vec::new()),
        "[{\"date\":\"2024-1-2\",\"weather_code\":2,\"temperature_max\":20,\"temperature_min\":5,\"precipitation_sum\":1,\"wind_speed_max\":6,\"precipitation_probability_max\":20},{\"date\":\"2024-1-1\",\"weather_code\":1,\"temperature_max\":10.5,\"temperature_min\":-0.5,\"precipitation_sum\":0,\"wind_speed_max\":5,\"precipitation_probability_max\":10}]"
    );
}

#[test]
fn selection_restricts_the_fields_and_keeps_their_order() {
    let points = vec![DataPoint::WindSpeedMax, DataPoint::WeatherCode, DataPoint::WindSpeedMax];
    assert_eq!(
        sample().json(&points),
        "[{\"date\":\"2024-1-2\",\"weather_code\":2,\"wind_speed_max\":6},{\"date\":\"2024-1-1\",\"weather_code\":1,\"wind_speed_max\":5}]"
    );
    assert_eq!(
        sample().json(&vec![DataPoint::Date]),
        "[{\"date\":\"2024-1-2\"},{\"date\":\"2024-1-1\"}]"
    );
    assert_eq!(
        sample().json(&vec![DataPoint::PrecipitationProbabilityMax]),
        "[{\"date\":\"2024-1-2\",\"precipitation_probability_max\":20},{\"date\":\"2024-1-1\",\"precipitation_probability_max\":10}]"
    );
}

#[test]
fn one_record_has_no_comma_around_it() {
    let table = sample().take_range(
        &Date { year: 2024, month: 1, day: 1 },
        &Date { year: 2024, month: 1, day: 1 },
    );
    assert_eq!(
        table.unwrap().json(&vec![DataPoint::TemperatureMin]),
        "[{\"date\":\"2024-1-1\",\"temperature_min\":-0.5}]"
    );
}

#[test]
fn json_parses_to_an_array_of_the_table_in_its_order() {
    for points in [Vec::new(), vec![DataPoint::TemperatureMax], vec![DataPoint::Date]] {
        let table = sample();
        let size = table.len();
        let text = table.json(&points);
        let value: serde_json::Value = serde_json::from_str(&text).unwrap();
        let items = value.as_array().unwrap();
        assert_eq!(items.len(), size);
        assert_eq!(items[0].get("date").unwrap().as_str(), Some("2024-1-2"));
        assert_eq!(items[1].get("date").unwrap().as_str(), Some("2024-1-1"));
        if points.is_empty() {
            assert_eq!(items[0].as_object().unwrap().len(), 7);
            assert_eq!(items[1].get("weather_code").unwrap().as_u64(), Some(1));
            assert_eq!(items[1].get("temperature_max").unwrap().as_f64(), Some(10.5));
            assert_eq!(items[1].get("temperature_min").unwrap().as_f64(), Some(-0.5));
        }
    }
    let empty: serde_json::Value = serde_json::from_str(&WeatherDataMap::new().json(&Vec::new())).unwrap();
    assert_eq!(empty.as_array().unwrap().len(), 0);
}

#[test]
fn a_record_is_one_json_object() {
    let record = WeatherData::new(
        Date { year: 1999, month: 12, day: 31 },
        255,
        num("-0"),
        num("340282350000000000000000000000000000000"),
        num("0.000001"),
        num("7"),
        num("100"),
    );
    let text = record.json(&vec![DataPoint::TemperatureMax, DataPoint::TemperatureMin, DataPoint::PrecipitationSum]);
    assert_eq!(
        text,
        "{\"date\":\"1999-12-31\",\"temperature_max\":-0,\"temperature_min\":340282350000000000000000000000000000000,\"precipitation_sum\":0.000001}"
    );
    let value: serde_json::Value = serde_json::from_str(&text).unwrap();
    assert_eq!(value.as_object().unwrap().len(), 4);
}
