use weather_ku::date::Date;
use weather_ku::error::ParseError;

fn message(text: &str) -> String {
    match Date::from_string(text) {
        Err(ParseError::InvalidDate(m)) => m,
        other => panic!("unexpected: {:?}", other),
    }
}

#[test]
fn dates_are_read_from_three_numbers() {
    let d = Date::from_string("2024-1-2").unwrap();
    assert_eq!(d, Date { year: 2024, month: 1, day: 2 });
    assert_eq!(Date::from_string("2024-01-02").unwrap(), d);
    assert_eq!(Date::from_string("+2024-+1-+2").unwrap(), d);
    assert_eq!(
        Date::from_string("0-0-0").unwrap(),
        Date { year: 0, month: 0, day: 0 }
    );
    assert_eq!(
        Date::from_string("4294967295-255-255").unwrap(),
        Date { year: u32::MAX, month: 255, day: 255 }
    );
    assert_eq!(
        Date::from_string("2024-13-40").unwrap(),
        Date { year: 2024, month: 13, day: 40 }
    );
}

#[test]
fn malformed_dates_are_rejected_with_their_reason() {
    assert_eq!(message("2024-1"), "Invalid date: 2024-1");
    assert_eq!(message(""), "Invalid date: ");
    assert_eq!(message("2024-1-2-3"), "Invalid date: 2024-1-2-3");
    assert_eq!(message("2024/1/2"), "Invalid date: 2024/1/2");
    assert_eq!(message("x-1-2"), "Invalid year: x");
    assert_eq!(message("-1-2"), "Invalid year: ");
    assert_eq!(message("4294967296-1-2"), "Invalid year: 4294967296");
    assert_eq!(message("2024-256-2"), "Invalid month: 256");
    assert_eq!(message("2024-Jan-2"), "Invalid month: Jan");
    assert_eq!(message("2024-1-"), "Invalid day: ");
    assert_eq!(message("2024-1-2 "), "Invalid day: 2 ");
    assert_eq!(message("2024-1-300"), "Invalid day: 300");
    assert_eq!(message("x-y-z"), "Invalid year: x");
}

#[test]
fn dates_are_written_without_padding() {
    assert_eq!(Date { year: 2024, month: 1, day: 2 }.to_string(), "2024-1-2");
    assert_eq!(Date { year: 0, month: 0, day: 0 }.to_string(), "0-0-0");
    assert_eq!(Date { year: 1999, month: 12, day: 31 }.to_string(), "1999-12-31");
    assert_eq!(
        Date { year: u32::MAX, month: 255, day: 255 }.to_string(),
        "4294967295-255-255"
    );
}

#[test]
fn written_dates_read_back() {
    for d in [
        Date { year: 2024, month: 2, day: 29 },
        Date { year: 0, month: 0, day: 0 },
        Date { year: 7, month: 10, day: 100 },
        Date { year: u32::MAX, month: 255, day: 255 },
    ] {
        assert_eq!(Date::from_string(&d.to_string()).unwrap(), d);
    }
}

#[test]
fn distance_counts_rough_days_either_way() {
    let a = Date { year: 2024, month: 1, day: 1 };
    let b = Date { year: 2024, month: 1, day: 2 };
    let c = Date { year: 2025, month: 3, day: 11 };
    assert_eq!(Date::distance(&a, &b), 1);
    assert_eq!(Date::distance(&b, &a), 1);
    assert_eq!(Date::distance(&a, &a), 0);
    assert_eq!(Date::distance(&a, &c), 365 + 60 + 10);
    assert_eq!(Date::distance(&c, &a), 365 + 60 + 10);
}

#[test]
fn dates_order_by_year_then_month_then_day() {
    let days = [
        Date { year: 2023, month: 12, day: 31 },
        Date { year: 2024, month: 1, day: 1 },
        Date { year: 2024, month: 1, day: 2 },
        Date { year: 2024, month: 2, day: 1 },
        Date { year: 2025, month: 1, day: 1 },
    ];
    for i in 0..days.len() {
        for j in 0..days.len() {
            assert_eq!(days[i].before(&days[j]), i < j);
            assert_eq!(days[i] < days[j], i < j);
            assert_eq!(days[i].ordinal() < days[j].ordinal(), i < j);
            assert_eq!(days[i] == days[j], i == j);
        }
    }
    assert_eq!(Date { year: 1, month: 2, day: 3 }.ordinal(), 65536 + 512 + 3);
}
