use weather_ku::date::Date;
use weather_ku::decimal::Decimal;
use weather_ku::record::{DataPoint, WeatherData};
use weather_ku::reply::{Body, Item, Member, Number, Reply, Value};
use weather_ku::request::Method;
use weather_ku::service::{handle, serve_add, serve_change, serve_read, serve_remove};
use weather_ku::table::WeatherDataMap;

fn num(text: &str) -> Decimal {
    Decimal::new(text).unwrap()
}

fn day(year: u32, month: u8, day: u8) -> Date {
    Date { year, month, day }
}

fn table() -> WeatherDataMap {
    let mut table = WeatherDataMap::new();
    for d in 1..=3u8 {
        let tens = format!("{}", 10 * d as u32);
        table
            .insert(WeatherData::new(
                day(2024, 1, d),
                d,
                num(&tens),
                num("0"),
                num("0.5"),
                num("5"),
                num("10"),
            ))
            .unwrap();
    }
    table
}

fn value(v: &serde_json::Value) -> Value {
    match v {
        serde_json::Value::String(s) => Value::Text(s.clone()),
        serde_json::Value::Number(n) => Value::Number(Number {
            unsigned: n.as_u64(),
            decimal: n.as_f64().and_then(|x| Decimal::new(&format!("{}", x as f32))),
        }),
        _ => Value::Other,
    }
}

fn item(v: &serde_json::Value) -> Item {
    match v.as_object() {
        Some(map) => Item::Object(
            map.iter().map(|(k, v)| Member { name: k.clone(), value: value(v) }).collect(),
        ),
        None => Item::NotObject,
    }
}

fn decode(body: &[u8]) -> Body {
    let text = match std::str::from_utf8(body) {
        Ok(text) => text,
        Err(_) => return Body::NotText,
    };
    match serde_json::from_str::<serde_json::Value>(text) {
        Ok(serde_json::Value::Array(items)) => Body::Items(items.iter().map(item).collect()),
        Ok(_) => Body::NotArray,
        Err(_) => Body::NotJson,
    }
}

const JSON: Option<&str> = Some("application/json");

fn full(date: &str, code: u32) -> String {
    format!(
        "{{\"date\":\"{}\",\"weather_code\":{},\"temperature_max\":21.5,\"temperature_min\":-3,\"precipitation_sum\":0,\"wind_speed_max\":7.25,\"precipitation_probability_max\":35}}",
        date, code
    )
}

fn post(table: &mut WeatherDataMap, body: &str) -> Reply {
    serve_add(table, "/", None, JSON, &decode(body.as_bytes()))
}

fn put(table: &mut WeatherDataMap, query: &str, body: &str) -> Reply {
    serve_change(table, "/q", Some(query), &decode(body.as_bytes()))
}

fn check(reply: &Reply, status: u16, body: &str) {
    assert_eq!(reply.status(), status, "{:?}", reply);
    assert_eq!(reply.body(), body, "{:?}", reply);
}

fn error(reply: &Reply, status: u16, words: &str) {
    check(reply, status, &format!("{{\"error\": \"{}\"}}", words));
}

// ----- reading -----

#[test]
fn get_returns_the_range_as_json() {
    let t = table();
    let reply = serve_read(&t, "/q", Some("dates=2024-1-1%202024-1-2"));
    check(
        &reply,
        200,
        "[{\"date\":\"2024-1-1\",\"weather_code\":1,\"temperature_max\":10,\"temperature_min\":0,\"precipitation_sum\":0.5,\"wind_speed_max\":5,\"precipitation_probability_max\":10},{\"date\":\"2024-1-2\",\"weather_code\":2,\"temperature_max\":20,\"temperature_min\":0,\"precipitation_sum\":0.5,\"wind_speed_max\":5,\"precipitation_probability_max\":10}]",
    );
    assert!(matches!(reply, Reply::Range(_)));
}

#[test]
fn get_projects_the_fields_asked_for() {
    let t = table();
    let reply = serve_read(&t, "/query", Some("values=temp_max,weather_code&dates=2024-1-3%202024-1-2"));
    check(
        &reply,
        200,
        "[{\"date\":\"2024-1-2\",\"weather_code\":2,\"temperature_max\":20},{\"date\":\"2024-1-3\",\"weather_code\":3,\"temperature_max\":30}]",
    );
    let reply = serve_read(&t, "/q", Some("dates=2024-1-2%202024-1-2&values=prob_precip_max"));
    check(&reply, 200, "[{\"date\":\"2024-1-2\",\"precipitation_probability_max\":10}]");
    let reply = serve_read(&t, "/q", Some("values=max_wind&dates=2024-1-2%202024-1-2&values=precip_sum,temp_min"));
    check(&reply, 200, "[{\"date\":\"2024-1-2\",\"temperature_min\":0,\"precipitation_sum\":0.5}]");
}

#[test]
fn get_failures_name_the_violated_condition() {
    let t = table();
    error(&serve_read(&t, "/", Some("dates=2024-1-1%202024-1-2")), 404, "path does not exist");
    error(&serve_read(&t, "/q", None), 400, "query required");
    for query in ["", "dates", "values=temp_max", "dates=2024-1-1%202024-1-2&limit=1", "date=2024-1-1%202024-1-2", "dates=2024-1-1%202024-1-2&values"] {
        error(
            &serve_read(&t, "/q", Some(query)),
            400,
            "invalid query (only dates and values allowed)",
        );
    }
    for query in ["dates=2024-1-1", "dates=", "dates=2024-1-1%202024-1-2%202024-1-3", "dates=2024-1-1 2024-1-2"] {
        error(
            &serve_read(&t, "/q", Some(query)),
            400,
            "Dates field must be in format YYYY-MM-DD%20YYYY-MM-DD",
        );
    }
    error(&serve_read(&t, "/q", Some("dates=2024-1-1%20yesterday")), 400, "invalid date format");
    error(&serve_read(&t, "/q", Some("dates=%20")), 400, "invalid date format");
    error(&serve_read(&t, "/q", Some("dates=2024-1-1%202024-1-4")), 416, "range not satisfiable");
    error(&serve_read(&t, "/q", Some("dates=2023-1-1%202024-1-1")), 416, "range not satisfiable");
    error(
        &serve_read(&t, "/q", Some("dates=2024-1-1%202024-1-2&values=temp_max,humidity")),
        400,
        "invalid value field",
    );
    error(&serve_read(&t, "/q", Some("dates=2024-1-1%202024-1-2&values=")), 400, "invalid value field");
    error(&serve_read(&t, "/q", Some("dates=2024-1-1%202024-1-2&values=date")), 400, "invalid value field");
    error(
        &serve_read(&t, "/q", Some("dates=2024-1-1%202024-1-9&values=humidity")),
        416,
        "range not satisfiable",
    );
}

// ----- adding -----

#[test]
fn post_adds_the_whole_batch_behind_the_others() {
    let mut t = table();
    let body = format!("[{},{}]", full("2024-01-05", 5), full("2023-12-31", 255));
    let reply = post(&mut t, &body);
    check(&reply, 200, "{\"success\": \"data successfully added\"}");
    assert_eq!(t.len(), 5);
    assert_eq!(t.get_index(3).unwrap().date, day(2024, 1, 5));
    assert_eq!(t.get_index(4).unwrap().date, day(2023, 12, 31));
    let added = t.get(&day(2023, 12, 31)).unwrap();
    assert_eq!(added.weather_code, 255);
    assert_eq!(added.temp_max.to_string(), "21.5");
    assert_eq!(added.temp_min.to_string(), "-3");
    assert_eq!(added.precip_sum.to_string(), "0");
    assert_eq!(added.max_wind.to_string(), "7.25");
    assert_eq!(added.precip_prob_max.to_string(), "35");
    check(&post(&mut t, "[]"), 200, "{\"success\": \"data successfully added\"}");
    assert_eq!(t.len(), 5);
}

#[test]
fn post_narrows_numbers_to_single_precision() {
    let mut t = WeatherDataMap::new();
    let body = "[{\"date\":\"2024-1-1\",\"weather_code\":0,\"temperature_max\":0.1,\"temperature_min\":3.14159265358979,\"precipitation_sum\":16777217,\"wind_speed_max\":1e2,\"precipitation_probability_max\":5}]";
    assert!(matches!(post(&mut t, body), Reply::Added));
    let r = t.get_index(0).unwrap();
    assert_eq!(r.temp_max.to_string(), "0.1");
    assert_eq!(r.temp_min.to_string(), "3.1415927");
    assert_eq!(r.precip_sum.to_string(), "16777216");
    assert_eq!(r.max_wind.to_string(), "100");
}

#[test]
fn post_rejects_the_whole_batch_on_any_fault() {
    let cases: Vec<(String, u16, &str)> = vec![
        ("{".to_string(), 400, "body must be valid json"),
        ("{}".to_string(), 400, "body must be a json array"),
        ("7".to_string(), 400, "body must be a json array"),
        ("[7]".to_string(), 400, "body must be a JSON array of objects"),
        (format!("[{},[]]", full("2024-2-1", 1)), 400, "body must be a JSON array of objects"),
        ("[{}]".to_string(), 400, "date field required"),
        ("[{\"date\":20240101}]".to_string(), 400, "date field must be a string"),
        ("[{\"date\":\"today\"}]".to_string(), 400, "date field must be in format YYYY-MM-DD"),
        (format!("[{}]", full("2024-1-2", 1)), 400, "date already exists"),
        (format!("[{},{}]", full("2024-2-1", 1), full("2024-01-02", 1)), 400, "date already exists"),
        ("[{\"date\":\"2024-2-1\"}]".to_string(), 400, "weather_code field required"),
        (
            "[{\"date\":\"2024-2-1\",\"weather_code\":\"1\"}]".to_string(),
            400,
            "weather_code field must be a number",
        ),
        (
            "[{\"date\":\"2024-2-1\",\"weather_code\":1.5}]".to_string(),
            400,
            "weather_code field must be a number",
        ),
        (
            "[{\"date\":\"2024-2-1\",\"weather_code\":-1}]".to_string(),
            400,
            "weather_code field must be a number",
        ),
        (format!("[{}]", full("2024-2-1", 256)), 400, "weather_code field must be a number between 0 and 255"),
        (
            "[{\"date\":\"2024-2-1\",\"weather_code\":1}]".to_string(),
            400,
            "temperature_max field required",
        ),
        (
            "[{\"date\":\"2024-2-1\",\"weather_code\":1,\"temperature_max\":null}]".to_string(),
            400,
            "temperature_max field must be a number",
        ),
        (
            "[{\"date\":\"2024-2-1\",\"weather_code\":1,\"temperature_max\":1e39}]".to_string(),
            400,
            "temperature_max field must be a number",
        ),
        (
            "[{\"date\":\"2024-2-1\",\"weather_code\":1,\"temperature_max\":1}]".to_string(),
            400,
            "temperature_min field required",
        ),
        (
            "[{\"date\":\"2024-2-1\",\"weather_code\":1,\"temperature_max\":1,\"temperature_min\":\"x\"}]".to_string(),
            400,
            "temperature_min field must be a number",
        ),
        (
            "[{\"date\":\"2024-2-1\",\"weather_code\":1,\"temperature_max\":1,\"temperature_min\":1}]".to_string(),
            400,
            "precipitation_sum field required",
        ),
        (
            "[{\"date\":\"2024-2-1\",\"weather_code\":1,\"temperature_max\":1,\"temperature_min\":1,\"precipitation_sum\":[]}]".to_string(),
            400,
            "precipitation_sum field must be a number",
        ),
        (
            "[{\"date\":\"2024-2-1\",\"weather_code\":1,\"temperature_max\":1,\"temperature_min\":1,\"precipitation_sum\":1}]".to_string(),
            400,
            "wind_speed_max field required",
        ),
        (
            "[{\"date\":\"2024-2-1\",\"weather_code\":1,\"temperature_max\":1,\"temperature_min\":1,\"precipitation_sum\":1,\"wind_speed_max\":true}]".to_string(),
            400,
            "wind_speed_max field must be a number",
        ),
        (
            "[{\"date\":\"2024-2-1\",\"weather_code\":1,\"temperature_max\":1,\"temperature_min\":1,\"precipitation_sum\":1,\"wind_speed_max\":1}]".to_string(),
            400,
            "precipitation_probability_max field required",
        ),
        (
            "[{\"date\":\"2024-2-1\",\"weather_code\":1,\"temperature_max\":1,\"temperature_min\":1,\"precipitation_sum\":1,\"wind_speed_max\":1,\"precipitation_probability_max\":{}}]".to_string(),
            400,
            "precipitation_probability_max field must be a number",
        ),
        (format!("[{},{}]", full("2024-2-1", 1), full("2024-02-01", 2)), 400, "duplicate date found"),
    ];
    for (body, status, words) in cases {
        let mut t = table();
        let before = t.to_text();
        let reply = post(&mut t, &body);
        error(&reply, status, words);
        assert_eq!(t.to_text(), before, "{}", body);
    }
}

#[test]
fn post_checks_path_content_type_and_text_first() {
    let body = decode(format!("[{}]", full("2024-2-1", 1)).as_bytes());
    let mut t = table();
    let before = t.to_text();
    error(&serve_add(&mut t, "/q", None, JSON, &body), 404, "path should be empty, no queries accepted");
    error(&serve_add(&mut t, "/", Some("a=b"), JSON, &body), 404, "path should be empty, no queries accepted");
    error(&serve_add(&mut t, "/", Some(""), JSON, &body), 404, "path should be empty, no queries accepted");
    for kind in [None, Some("text/plain"), Some("application/json; charset=utf-8"), Some("")] {
        error(
            &serve_add(&mut t, "/", None, kind, &body),
            415,
            "content-type must be application/json, content-type header REQUIRED",
        );
    }
    error(&serve_add(&mut t, "/", None, JSON, &decode(&[0xff, 0xfe])), 415, "body must be valid utf-8 text");
    assert_eq!(t.to_text(), before);
    assert!(matches!(serve_add(&mut t, "/", None, JSON, &body), Reply::Added));
    assert_eq!(t.len(), 4);
}

// ----- changing -----

#[test]
fn put_changes_the_named_fields_of_each_date() {
    let mut t = table();
    let reply = put(
        &mut t,
        "dates=2024-1-3%202024-1-1",
        "[{\"weather_code\":33,\"wind_speed_max\":9.5},{\"temperature_min\":-7,\"date\":\"ignored\"}]",
    );
    check(&reply, 200, "{\"success\": \"Data successfully updated\"}");
    assert_eq!(t.len(), 3);
    let third = t.get(&day(2024, 1, 3)).unwrap();
    assert_eq!(third.weather_code, 33);
    assert_eq!(third.max_wind.to_string(), "9.5");
    assert_eq!(third.temp_max.to_string(), "30");
    let first = t.get(&day(2024, 1, 1)).unwrap();
    assert_eq!(first.weather_code, 1);
    assert_eq!(first.temp_min.to_string(), "-7");
    assert_eq!(t.get(&day(2024, 1, 2)).unwrap().weather_code, 2);
    assert_eq!(t.get_index(0).unwrap().date, day(2024, 1, 1));
    assert!(matches!(put(&mut t, "dates=2024-1-2", "[{}]"), Reply::Updated));
    assert_eq!(t.get(&day(2024, 1, 2)).unwrap().weather_code, 2);
}

#[test]
fn put_makes_all_changes_or_none() {
    let cases: Vec<(&str, &str, u16, &str)> = vec![
        ("dates=2024-1-1%20soon", "[{},{}]", 400, "invalid date format"),
        ("dates=", "[{}]", 400, "invalid date format"),
        ("dates=2024-1-1", "nonsense", 400, "body must be valid json"),
        ("dates=2024-1-1", "{\"weather_code\":1}", 400, "body must be a json array"),
        ("dates=2024-1-1", "[]", 400, "number of dates and values must be equal"),
        ("dates=2024-1-1%202024-1-2", "[{\"weather_code\":9}]", 400, "number of dates and values must be equal"),
        ("dates=2024-1-1%202024-1-2", "[{\"weather_code\":9},3]", 400, "body must be a JSON array of objects"),
        ("dates=2024-1-1%202024-1-9", "[{\"weather_code\":9},{\"weather_code\":8}]", 400, "date does not exist"),
        ("dates=2024-1-9%202024-1-1", "[{\"weather_code\":900},{\"weather_code\":8}]", 400, "date does not exist"),
        ("dates=2024-1-1%202024-1-2", "[{\"weather_code\":9},{\"weather_code\":\"8\"}]", 400, "weather_code field must be a number"),
        (
            "dates=2024-1-1%202024-1-2",
            "[{\"weather_code\":9},{\"weather_code\":256}]",
            400,
            "weather_code field must be a number between 0 and 255",
        ),
        ("dates=2024-1-1%202024-1-2", "[{\"temperature_max\":9},{\"temperature_max\":\"hot\"}]", 400, "temperature_max field must be a number"),
        ("dates=2024-1-1%202024-1-2", "[{\"temperature_min\":9},{\"temperature_min\":null}]", 400, "temperature_min field must be a number"),
        ("dates=2024-1-1%202024-1-2", "[{\"precipitation_sum\":9},{\"precipitation_sum\":[]}]", 400, "precipitation_sum field must be a number"),
        ("dates=2024-1-1%202024-1-2", "[{\"wind_speed_max\":9},{\"wind_speed_max\":{}}]", 400, "wind_speed_max field must be a number"),
        (
            "dates=2024-1-1%202024-1-2",
            "[{\"precipitation_probability_max\":9},{\"precipitation_probability_max\":false}]",
            400,
            "precipitation_probability_max field must be a number",
        ),
    ];
    for (query, body, status, words) in cases {
        let mut t = table();
        let before = t.to_text();
        error(&put(&mut t, query, body), status, words);
        assert_eq!(t.to_text(), before, "{} {}", query, body);
    }
    let mut t = table();
    let before = t.to_text();
    let body = decode(b"[{}]");
    error(&serve_change(&mut t, "/", Some("dates=2024-1-1"), &body), 404, "path does not exist");
    error(&serve_change(&mut t, "/q", None, &body), 400, "date query required");
    error(&serve_change(&mut t, "/q", Some("date=2024-1-1"), &body), 400, "date query required");
    error(&serve_change(&mut t, "/q", Some("dates=2024-1-1"), &decode(&[0xc0])), 415, "body must be valid utf-8 text");
    assert_eq!(t.to_text(), before);
}

// ----- removing -----

#[test]
fn delete_removes_every_named_date() {
    let mut t = table();
    let reply = serve_remove(&mut t, "/q", Some("dates=2024-1-3%202024-1-1"));
    check(&reply, 200, "{\"success\": \"Data successfully deleted\"}");
    assert_eq!(t.len(), 1);
    assert_eq!(t.get_index(0).unwrap().date, day(2024, 1, 2));
}

#[test]
fn delete_removes_all_or_none() {
    let cases: Vec<(&str, Option<&str>, u16, &str)> = vec![
        ("/", Some("dates=2024-1-1"), 404, "path does not exist"),
        ("/query", Some("dates=2024-1-1"), 404, "path does not exist"),
        ("/q", None, 400, "date query required"),
        ("/q", Some("when=2024-1-1"), 400, "date query required"),
        ("/q", Some("dates=2024-1-1%20x"), 400, "invalid date format"),
        ("/q", Some("dates=2024-1-1%202024-1-4"), 400, "date does not exist"),
        ("/q", Some("dates=2024-1-4%202024-1-1"), 400, "date does not exist"),
        ("/q", Some("dates=2024-1-1%202024-01-01"), 400, "date does not exist"),
    ];
    for (path, query, status, words) in cases {
        let mut t = table();
        let before = t.to_text();
        error(&serve_remove(&mut t, path, query), status, words);
        assert_eq!(t.to_text(), before);
    }
}

// ----- any method -----

#[test]
fn handle_dispatches_by_method() {
    let none = Body::Items(Vec::new());
    let mut t = table();
    let reply = handle(&mut t, Method::GET, "/q", Some("dates=2024-1-1%202024-1-1&values=weather_code"), None, &none);
    check(&reply, 200, "[{\"date\":\"2024-1-1\",\"weather_code\":1}]");
    let body = decode(format!("[{}]", full("2024-1-9", 9)).as_bytes());
    assert!(matches!(handle(&mut t, Method::POST, "/", None, JSON, &body), Reply::Added));
    assert_eq!(t.len(), 4);
    let body = decode(b"[{\"weather_code\":90}]");
    assert!(matches!(
        handle(&mut t, Method::PUT, "/q", Some("dates=2024-1-9"), None, &body),
        Reply::Updated
    ));
    assert_eq!(t.get(&day(2024, 1, 9)).unwrap().weather_code, 90);
    assert!(matches!(
        handle(&mut t, Method::DELETE, "/q", Some("dates=2024-1-9"), None, &none),
        Reply::Deleted
    ));
    assert_eq!(t.len(), 3);
    error(&handle(&mut t, Method::OPTIONS, "/q", None, None, &none), 404, "path does not exist");
    for method in [Method::PATCH, Method::HEAD, Method::CONNECT, Method::TRACE] {
        error(&handle(&mut t, method, "/q", None, None, &none), 405, "method not allowed");
    }
    assert_eq!(t.len(), 3);
}

#[test]
fn methods_are_known_by_their_names() {
    let all = [
        ("GET", Method::GET),
        ("POST", Method::POST),
        ("PUT", Method::PUT),
        ("DELETE", Method::DELETE),
        ("PATCH", Method::PATCH),
        ("HEAD", Method::HEAD),
        ("OPTIONS", Method::OPTIONS),
        ("CONNECT", Method::CONNECT),
        ("TRACE", Method::TRACE),
    ];
    for (name, method) in all {
        assert_eq!(Method::from_name(name), Some(method));
        assert_eq!(Method::from_name(&name.to_lowercase()), None);
    }
    assert_eq!(Method::from_name(""), None);
    assert_eq!(Method::from_name("GETS"), None);
    assert_eq!(Method::from_name("PROPFIND"), None);
}

#[test]
fn the_first_member_of_a_name_counts() {
    let members = vec![
        Member { name: "date".to_string(), value: Value::Text("2024-5-5".to_string()) },
        Member { name: "date".to_string(), value: Value::Other },
        Member {
            name: "weather_code".to_string(),
            value: Value::Number(Number { unsigned: Some(4), decimal: Some(num("4")) }),
        },
        Member {
            name: "temperature_max".to_string(),
            value: Value::Number(Number { unsigned: None, decimal: Some(num("1.5")) }),
        },
        Member {
            name: "temperature_min".to_string(),
            value: Value::Number(Number { unsigned: None, decimal: Some(num("-1.5")) }),
        },
        Member {
            name: "precipitation_sum".to_string(),
            value: Value::Number(Number { unsigned: Some(0), decimal: Some(num("0")) }),
        },
        Member {
            name: "wind_speed_max".to_string(),
            value: Value::Number(Number { unsigned: Some(3), decimal: Some(num("3")) }),
        },
        Member {
            name: "precipitation_probability_max".to_string(),
            value: Value::Number(Number { unsigned: Some(80), decimal: Some(num("80")) }),
        },
    ];
    let mut t = table();
    let body = Body::Items(vec![Item::Object(members)]);
    assert!(matches!(serve_add(&mut t, "/", None, JSON, &body), Reply::Added));
    let added = t.get(&day(2024, 5, 5)).unwrap();
    assert_eq!(added.weather_code, 4);
    assert_eq!(added.temp_min.to_string(), "-1.5");
    assert_eq!(added.precip_prob_max.to_string(), "80");
}

#[test]
fn every_reply_has_its_status_and_body() {
    let all: Vec<(Reply, u16, &str)> = vec![
        (Reply::Added, 200, "{\"success\": \"data successfully added\"}"),
        (Reply::Updated, 200, "{\"success\": \"Data successfully updated\"}"),
        (Reply::Deleted, 200, "{\"success\": \"Data successfully deleted\"}"),
        (Reply::Range("[]".to_string()), 200, "[]"),
        (Reply::PathNotFound, 404, "{\"error\": \"path does not exist\"}"),
        (Reply::QueryRequired, 400, "{\"error\": \"query required\"}"),
        (Reply::InvalidQuery, 400, "{\"error\": \"invalid query (only dates and values allowed)\"}"),
        (Reply::DatesFormat, 400, "{\"error\": \"Dates field must be in format YYYY-MM-DD%20YYYY-MM-DD\"}"),
        (Reply::InvalidDate, 400, "{\"error\": \"invalid date format\"}"),
        (Reply::RangeNotSatisfiable, 416, "{\"error\": \"range not satisfiable\"}"),
        (Reply::InvalidValueField, 400, "{\"error\": \"invalid value field\"}"),
        (Reply::PathNotEmpty, 404, "{\"error\": \"path should be empty, no queries accepted\"}"),
        (
            Reply::ContentType,
            415,
            "{\"error\": \"content-type must be application/json, content-type header REQUIRED\"}",
        ),
        (Reply::BodyNotText, 415, "{\"error\": \"body must be valid utf-8 text\"}"),
        (Reply::BodyNotJson, 400, "{\"error\": \"body must be valid json\"}"),
        (Reply::BodyNotArray, 400, "{\"error\": \"body must be a json array\"}"),
        (Reply::ItemNotObject, 400, "{\"error\": \"body must be a JSON array of objects\"}"),
        (Reply::FieldRequired(DataPoint::Date), 400, "{\"error\": \"date field required\"}"),
        (Reply::FieldRequired(DataPoint::WindSpeedMax), 400, "{\"error\": \"wind_speed_max field required\"}"),
        (Reply::DateNotText, 400, "{\"error\": \"date field must be a string\"}"),
        (Reply::DateFormat, 400, "{\"error\": \"date field must be in format YYYY-MM-DD\"}"),
        (Reply::DateExists, 400, "{\"error\": \"date already exists\"}"),
        (
            Reply::FieldNotNumber(DataPoint::PrecipitationSum),
            400,
            "{\"error\": \"precipitation_sum field must be a number\"}",
        ),
        (Reply::CodeOutOfRange, 400, "{\"error\": \"weather_code field must be a number between 0 and 255\"}"),
        (Reply::DuplicateDate, 400, "{\"error\": \"duplicate date found\"}"),
        (Reply::DateQueryRequired, 400, "{\"error\": \"date query required\"}"),
        (Reply::CountMismatch, 400, "{\"error\": \"number of dates and values must be equal\"}"),
        (Reply::DateMissing, 400, "{\"error\": \"date does not exist\"}"),
        (Reply::MethodNotAllowed, 405, "{\"error\": \"method not allowed\"}"),
    ];
    for (reply, status, body) in all {
        check(&reply, status, body);
        if !matches!(reply, Reply::Range(_)) {
            let parsed: serde_json::Value = serde_json::from_str(&reply.body()).unwrap();
            assert_eq!(parsed.as_object().unwrap().len(), 1);
        }
    }
}
