use weather_ku::date::Date;
use weather_ku::decimal::Decimal;
use weather_ku::query::DataOps;
use weather_ku::record::{DataPoint, Patch, WeatherData};
use weather_ku::table::{sort_records, StoreError, WeatherDataMap};

fn day(year: u32, month: u8, day: u8) -> Date {
    Date { year, month, day }
}

fn num(text: &str) -> Decimal {
    Decimal::new(text).unwrap()
}

fn record(date: Date, code: u8, temp: &str) -> WeatherData {
    WeatherData::new(date, code, num(temp), num("-1.5"), num("0"), num("12"), num("50"))
}

fn table_of(dates: &[Date]) -> WeatherDataMap {
    let mut table = WeatherDataMap::new();
    for (i, d) in dates.iter().enumerate() {
        table.insert(record(*d, i as u8, &format!("{}", i * 10))).unwrap();
    }
    table
}

fn dates_of(table: &WeatherDataMap) -> Vec<Date> {
    (0..table.len()).map(|i| table.get_index(i).unwrap().date).collect()
}

fn patch() -> Patch {
    Patch {
        weather_code: None,
        temp_max: None,
        temp_min: None,
        precip_sum: None,
        max_wind: None,
        precip_prob_max: None,
    }
}

#[test]
fn a_new_table_is_empty() {
    let table = WeatherDataMap::new();
    assert_eq!(table.len(), 0);
    assert!(table.get_index(0).is_none());
    assert!(table.get(&day(2024, 1, 1)).is_none());
    assert!(!table.contains_key(&day(2024, 1, 1)));
    assert_eq!(table.get_index_of(&day(2024, 1, 1)), None);
}

#[test]
fn insert_appends_in_order_of_arrival() {
    let table = table_of(&[day(2024, 1, 2), day(2023, 5, 5), day(2024, 1, 1)]);
    assert_eq!(table.len(), 3);
    assert_eq!(dates_of(&table), vec![day(2024, 1, 2), day(2023, 5, 5), day(2024, 1, 1)]);
    assert_eq!(table.get_index_of(&day(2023, 5, 5)), Some(1));
    assert!(table.contains_key(&day(2024, 1, 1)));
    assert_eq!(table.get(&day(2024, 1, 1)).unwrap().weather_code, 2);
    assert_eq!(table.get(&day(2024, 1, 1)).unwrap().temp_max.to_string(), "20");
    assert!(table.get_index(3).is_none());
}

#[test]
fn inserting_a_present_date_fails_and_changes_nothing() {
    let mut table = table_of(&[day(2024, 1, 1), day(2024, 1, 2)]);
    let before = table.to_text();
    assert_eq!(table.insert(record(day(2024, 1, 2), 99, "99")), Err(StoreError::DuplicateKey));
    assert_eq!(table.to_text(), before);
    assert_eq!(table.len(), 2);
}

#[test]
fn update_changes_only_the_named_fields() {
    let mut table = table_of(&[day(2024, 1, 1), day(2024, 1, 2), day(2024, 1, 3)]);
    let change = Patch { weather_code: Some(77), max_wind: Some(num("3.25")), ..patch() };
    assert_eq!(table.update(&day(2024, 1, 2), &change), Ok(()));
    assert_eq!(dates_of(&table), vec![day(2024, 1, 1), day(2024, 1, 2), day(2024, 1, 3)]);
    let changed = table.get(&day(2024, 1, 2)).unwrap();
    assert_eq!(changed.date, day(2024, 1, 2));
    assert_eq!(changed.weather_code, 77);
    assert_eq!(changed.temp_max.to_string(), "10");
    assert_eq!(changed.temp_min.to_string(), "-1.5");
    assert_eq!(changed.precip_sum.to_string(), "0");
    assert_eq!(changed.max_wind.to_string(), "3.25");
    assert_eq!(changed.precip_prob_max.to_string(), "50");
    assert_eq!(table.get(&day(2024, 1, 1)).unwrap().weather_code, 0);
    assert_eq!(table.get(&day(2024, 1, 3)).unwrap().max_wind.to_string(), "12");
    let all = Patch {
        weather_code: Some(1),
        temp_max: Some(num("1")),
        temp_min: Some(num("2")),
        precip_sum: Some(num("3")),
        max_wind: Some(num("4")),
        precip_prob_max: Some(num("5")),
    };
    assert_eq!(table.update(&day(2024, 1, 3), &all), Ok(()));
    assert_eq!(
        table.get(&day(2024, 1, 3)).unwrap().json(&Vec::new()),
        "{\"date\":\"2024-1-3\",\"weather_code\":1,\"temperature_max\":1,\"temperature_min\":2,\"precipitation_sum\":3,\"wind_speed_max\":4,\"precipitation_probability_max\":5}"
    );
}

#[test]
fn updating_an_absent_date_fails_and_changes_nothing() {
    let mut table = table_of(&[day(2024, 1, 1)]);
    let before = table.to_text();
    let change = Patch { weather_code: Some(77), ..patch() };
    assert_eq!(table.update(&day(2024, 1, 2), &change), Err(StoreError::NotFound));
    assert_eq!(table.to_text(), before);
}

#[test]
fn delete_keeps_the_order_of_the_rest() {
    let mut table = table_of(&[day(2024, 1, 3), day(2024, 1, 1), day(2024, 1, 4), day(2024, 1, 2)]);
    assert_eq!(table.delete(&day(2024, 1, 1)), Ok(()));
    assert_eq!(dates_of(&table), vec![day(2024, 1, 3), day(2024, 1, 4), day(2024, 1, 2)]);
    assert_eq!(table.get_index_of(&day(2024, 1, 4)), Some(1));
    assert_eq!(table.delete(&day(2024, 1, 2)), Ok(()));
    assert_eq!(table.delete(&day(2024, 1, 3)), Ok(()));
    assert_eq!(dates_of(&table), vec![day(2024, 1, 4)]);
    assert_eq!(table.get(&day(2024, 1, 4)).unwrap().weather_code, 2);
}

#[test]
fn deleting_an_absent_date_fails_and_changes_nothing() {
    let mut table = table_of(&[day(2024, 1, 1), day(2024, 1, 2)]);
    let before = table.to_text();
    assert_eq!(table.delete(&day(2024, 2, 1)), Err(StoreError::NotFound));
    assert_eq!(table.to_text(), before);
    assert_eq!(table.delete(&day(2024, 1, 1)), Ok(()));
    assert_eq!(table.delete(&day(2024, 1, 1)), Err(StoreError::NotFound));
    assert_eq!(table.len(), 1);
}

#[test]
fn range_holds_exactly_the_dates_between_the_bounds() {
    let days: Vec<Date> = (1..=9).map(|d| day(2024, 1, d)).collect();
    let table = table_of(&days);
    let range = table.take_range(&day(2024, 1, 3), &day(2024, 1, 6)).unwrap();
    assert_eq!(dates_of(&range), vec![day(2024, 1, 3), day(2024, 1, 4), day(2024, 1, 5), day(2024, 1, 6)]);
    assert_eq!(range.get_index(0).unwrap().weather_code, 2);
    assert_eq!(range.get_index(0).unwrap().temp_max.to_string(), "20");
    let whole = table.take_range(&day(2024, 1, 1), &day(2024, 1, 9)).unwrap();
    assert_eq!(dates_of(&whole), days);
    assert_eq!(table.len(), 9);
}

#[test]
fn range_of_one_date_is_that_one_record() {
    let table = table_of(&[day(2024, 1, 1), day(2024, 1, 2), day(2024, 1, 3)]);
    let range = table.take_range(&day(2024, 1, 2), &day(2024, 1, 2)).unwrap();
    assert_eq!(range.len(), 1);
    assert_eq!(range.get_index(0).unwrap().date, day(2024, 1, 2));
    assert_eq!(range.get_index(0).unwrap().weather_code, 1);
}

#[test]
fn range_needs_both_bounds_in_the_table() {
    let table = table_of(&[day(2024, 1, 1), day(2024, 1, 3)]);
    assert!(table.take_range(&day(2024, 1, 1), &day(2024, 1, 2)).is_none());
    assert!(table.take_range(&day(2024, 1, 2), &day(2024, 1, 3)).is_none());
    assert!(table.take_range(&day(2023, 1, 1), &day(2025, 1, 1)).is_none());
    assert!(WeatherDataMap::new().take_range(&day(2024, 1, 1), &day(2024, 1, 1)).is_none());
    assert!(table.take_range(&day(2024, 1, 1), &day(2024, 1, 3)).is_some());
}

#[test]
fn range_goes_by_dates_not_by_positions() {
    let table = table_of(&[day(2024, 1, 5), day(2024, 1, 1), day(2024, 1, 9), day(2024, 1, 3)]);
    let range = table.take_range(&day(2024, 1, 1), &day(2024, 1, 5)).unwrap();
    assert_eq!(dates_of(&range), vec![day(2024, 1, 1), day(2024, 1, 3), day(2024, 1, 5)]);
    let reversed = table.take_range(&day(2024, 1, 5), &day(2024, 1, 1)).unwrap();
    assert_eq!(dates_of(&reversed), vec![day(2024, 1, 1), day(2024, 1, 3), day(2024, 1, 5)]);
    let upper = table.take_range(&day(2024, 1, 9), &day(2024, 1, 3)).unwrap();
    assert_eq!(dates_of(&upper), vec![day(2024, 1, 3), day(2024, 1, 5), day(2024, 1, 9)]);
}

#[test]
fn records_sort_by_date() {
    let sorted = sort_records(vec![
        record(day(2024, 2, 1), 1, "1"),
        record(day(2023, 12, 31), 2, "2"),
        record(day(2024, 1, 31), 3, "3"),
        record(day(2024, 1, 2), 4, "4"),
    ]);
    let codes: Vec<u8> = sorted.iter().map(|r| r.weather_code).collect();
    assert_eq!(codes, vec![2, 4, 3, 1]);
    assert!(sort_records(Vec::new()).is_empty());
}

#[test]
fn tables_are_made_of_records_with_distinct_dates() {
    let table = WeatherDataMap::from_records(vec![
        record(day(2024, 1, 2), 1, "1"),
        record(day(2024, 1, 1), 2, "2"),
    ])
    .unwrap();
    assert_eq!(dates_of(&table), vec![day(2024, 1, 2), day(2024, 1, 1)]);
    assert!(WeatherDataMap::from_records(vec![
        record(day(2024, 1, 2), 1, "1"),
        record(day(2024, 1, 1), 2, "2"),
        record(day(2024, 1, 2), 3, "3"),
    ])
    .is_none());
    assert_eq!(WeatherDataMap::from_records(Vec::new()).unwrap().len(), 0);
}

#[test]
fn a_batch_is_added_whole_or_not_at_all() {
    let mut table = table_of(&[day(2024, 1, 1)]);
    let before = table.to_text();
    let clash = vec![record(day(2024, 1, 2), 1, "1"), record(day(2024, 1, 1), 2, "2")];
    assert_eq!(table.insert_all(clash), Err(StoreError::DuplicateKey));
    assert_eq!(table.to_text(), before);
    let twice = vec![record(day(2024, 1, 2), 1, "1"), record(day(2024, 1, 2), 2, "2")];
    assert_eq!(table.insert_all(twice), Err(StoreError::DuplicateKey));
    assert_eq!(table.to_text(), before);
    let fine = vec![record(day(2024, 1, 3), 1, "1"), record(day(2024, 1, 2), 2, "2")];
    assert_eq!(table.insert_all(fine), Ok(()));
    assert_eq!(dates_of(&table), vec![day(2024, 1, 1), day(2024, 1, 3), day(2024, 1, 2)]);
    assert_eq!(table.insert_all(Vec::new()), Ok(()));
    assert_eq!(table.len(), 3);
}

#[test]
fn changes_are_made_whole_or_not_at_all() {
    let mut table = table_of(&[day(2024, 1, 1), day(2024, 1, 2)]);
    let before = table.to_text();
    let changes = vec![
        (day(2024, 1, 1), Patch { weather_code: Some(9), ..patch() }),
        (day(2024, 1, 3), Patch { weather_code: Some(8), ..patch() }),
    ];
    assert_eq!(table.update_all(&changes), Err(StoreError::NotFound));
    assert_eq!(table.to_text(), before);
    let changes = vec![
        (day(2024, 1, 2), Patch { weather_code: Some(9), ..patch() }),
        (day(2024, 1, 1), Patch { temp_max: Some(num("8.5")), ..patch() }),
        (day(2024, 1, 2), Patch { weather_code: Some(7), ..patch() }),
    ];
    assert_eq!(table.update_all(&changes), Ok(()));
    assert_eq!(table.update_all(&Vec::new()), Ok(()));
    assert_eq!(table.get(&day(2024, 1, 2)).unwrap().weather_code, 7);
    assert_eq!(table.get(&day(2024, 1, 1)).unwrap().temp_max.to_string(), "8.5");
    assert_eq!(table.get(&day(2024, 1, 1)).unwrap().weather_code, 0);
}

#[test]
fn removals_are_made_whole_or_not_at_all() {
    let mut table = table_of(&[day(2024, 1, 1), day(2024, 1, 2), day(2024, 1, 3)]);
    let before = table.to_text();
    assert_eq!(table.delete_all(&vec![day(2024, 1, 1), day(2024, 1, 4)]), Err(StoreError::NotFound));
    assert_eq!(table.to_text(), before);
    assert_eq!(table.delete_all(&vec![day(2024, 1, 1), day(2024, 1, 1)]), Err(StoreError::NotFound));
    assert_eq!(table.to_text(), before);
    assert_eq!(table.delete_all(&vec![day(2024, 1, 3), day(2024, 1, 1)]), Ok(()));
    assert_eq!(dates_of(&table), vec![day(2024, 1, 2)]);
    assert_eq!(table.delete_all(&Vec::new()), Ok(()));
    assert_eq!(table.len(), 1);
}

#[test]
fn records_copy_and_patch() {
    let r = record(day(2024, 1, 1), 5, "21.5");
    let c = r.clone();
    assert_eq!(c.date, r.date);
    assert_eq!(c.weather_code, 5);
    assert!(c.temp_max.same(&r.temp_max));
    let p = r.patched(&Patch { temp_min: Some(num("-9")), ..patch() });
    assert_eq!(p.temp_min.to_string(), "-9");
    assert_eq!(p.temp_max.to_string(), "21.5");
    assert_eq!(p.weather_code, 5);
    assert_eq!(r.temp_min.to_string(), "-1.5");
    assert_eq!(r.reading(DataPoint::WeatherCode).unwrap().to_string(), "5");
    assert_eq!(r.reading(DataPoint::TemperatureMax).unwrap().to_string(), "21.5");
    assert!(r.reading(DataPoint::Date).is_none());
}

#[test]
fn fields_have_tags_names_and_labels() {
    let all = [
        (DataPoint::Date, "date", None, "Date"),
        (DataPoint::WeatherCode, "weather_code", Some("weather_code"), "Weather Code"),
        (DataPoint::TemperatureMax, "temperature_max", Some("temp_max"), "High Temperature"),
        (DataPoint::TemperatureMin, "temperature_min", Some("temp_min"), "Low Temperature"),
        (DataPoint::PrecipitationSum, "precipitation_sum", Some("precip_sum"), "Total Precipitation"),
        (DataPoint::WindSpeedMax, "wind_speed_max", Some("max_wind"), "Maximum Wind Speed"),
        (
            DataPoint::PrecipitationProbabilityMax,
            "precipitation_probability_max",
            Some("prob_precip_max"),
            "Highest Precipitation Chance",
        ),
    ];
    for (point, tag, name, label) in all {
        assert_eq!(point.tag_str(), tag);
        assert_eq!(DataPoint::from_tag(&tag.chars().collect()), Some(point));
        assert_eq!(point.to_string(), label);
        if let Some(name) = name {
            assert_eq!(DataPoint::from_query_name(&name.chars().collect()), Some(point));
        }
    }
    assert_eq!(DataPoint::from_tag(&"temp_max".chars().collect()), None);
    assert_eq!(DataPoint::from_tag(&"Date".chars().collect()), None);
    assert_eq!(DataPoint::from_query_name(&"date".chars().collect()), None);
    assert_eq!(DataPoint::from_query_name(&"temperature_max".chars().collect()), None);
}
