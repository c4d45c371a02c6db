use weather_ku::text::{
    begins_with, chars_of, is_space_char, lines_of, parse_unsigned, push_numeral, split_chars,
    split_on_mark, spells, string_of, trim_chars, words_of,
};

fn chars(s: &str) -> Vec<char> {
    s.chars().collect()
}

fn strings(parts: Vec<Vec<char>>) -> Vec<String> {
    parts.iter().map(|p| p.iter().collect::<String>()).collect()
}

const SAMPLES: [&str; 24] = [
    "",
    " ",
    "a",
    "a b",
    "  a  b  ",
    "\ta\nb\r\nc",
    "a\n",
    "a\n\n",
    "\n",
    "\r\n",
    "a\r",
    "a\r\nb\r",
    "x:y",
    "x::y",
    ":",
    "date: 2024-1-1 2024-1-2",
    "2024-1-1%202024-1-2",
    "%20",
    "%20%20a%2",
    "a%%20b",
    "a=b&c=d",
    "1,2,,3",
    "\u{a0}a\u{2003}b\u{3000}",
    "a\u{85}b\u{1680}c\u{200b}d",
];

#[test]
fn chars_and_strings_convert_both_ways() {
    for s in SAMPLES {
        assert_eq!(chars_of(s), chars(s));
        assert_eq!(string_of(&chars(s)), s);
    }
}

#[test]
fn split_agrees_with_std() {
    for s in SAMPLES {
        for sep in [':', '-', '\n', '=', '&', ',', ' '] {
            let expected: Vec<String> = s.split(sep).map(|p| p.to_string()).collect();
            assert_eq!(strings(split_chars(&chars(s), sep)), expected, "{:?} at {:?}", s, sep);
        }
    }
}

#[test]
fn split_on_mark_agrees_with_std() {
    for s in SAMPLES {
        for mark in ["%20", "%", "a", "\r\n", "::"] {
            let expected: Vec<String> = s.split(mark).map(|p| p.to_string()).collect();
            assert_eq!(strings(split_on_mark(&chars(s), mark)), expected, "{:?} at {:?}", s, mark);
        }
    }
    assert_eq!(strings(split_on_mark(&chars("aaa"), "aa")), vec!["", "a"]);
    assert_eq!(strings(split_on_mark(&chars("abc"), "")), vec!["abc"]);
}

#[test]
fn lines_agree_with_std() {
    for s in SAMPLES {
        let expected: Vec<String> = s.lines().map(|p| p.to_string()).collect();
        assert_eq!(strings(lines_of(&chars(s))), expected, "{:?}", s);
    }
    assert_eq!(strings(lines_of(&chars("a\r\nb\n"))), vec!["a", "b"]);
    assert_eq!(strings(lines_of(&chars("a\n\nb"))), vec!["a", "", "b"]);
    assert!(lines_of(&chars("")).is_empty());
}

#[test]
fn words_agree_with_std() {
    for s in SAMPLES {
        let expected: Vec<String> = s.split_whitespace().map(|p| p.to_string()).collect();
        assert_eq!(strings(words_of(&chars(s))), expected, "{:?}", s);
    }
    assert_eq!(strings(words_of(&chars("  10   20\t30 "))), vec!["10", "20", "30"]);
}

#[test]
fn trim_agrees_with_std() {
    for s in SAMPLES {
        assert_eq!(string_of(&trim_chars(&chars(s))), s.trim(), "{:?}", s);
    }
    assert_eq!(string_of(&trim_chars(&chars("  date \t"))), "date");
}

#[test]
fn whitespace_agrees_with_std() {
    let mut code: u32 = 0;
    while code < 0x3100 {
        if let Some(c) = char::from_u32(code) {
            assert_eq!(is_space_char(c), c.is_whitespace(), "{:x}", code);
        }
        code += 1;
    }
}

#[test]
fn unsigned_numbers_agree_with_std() {
    let words = [
        "", "0", "7", "007", "+7", "++7", "-7", "+", "-", "255", "256", "4294967295", "4294967296",
        "99999999999999999999", "12a", "a12", " 12", "12 ", "1_000", "１２", "0000000000000000000001",
    ];
    for w in words {
        assert_eq!(parse_unsigned(&chars(w), u32::MAX), w.parse::<u32>().ok(), "{:?}", w);
        let small = w.parse::<u8>().ok().map(|x| x as u32);
        assert_eq!(parse_unsigned(&chars(w), 255), small, "{:?}", w);
    }
    assert_eq!(parse_unsigned(&chars("2024"), u32::MAX), Some(2024));
    assert_eq!(parse_unsigned(&chars("300"), 255), None);
}

#[test]
fn numerals_have_no_padding() {
    for n in [0u32, 1, 9, 10, 99, 100, 255, 2024, 65535, 1000000, u32::MAX] {
        let mut out = chars("x");
        push_numeral(&mut out, n);
        assert_eq!(string_of(&out), format!("x{}", n));
    }
}

#[test]
fn spelling_and_prefixes() {
    assert!(spells(&chars("date"), "date"));
    assert!(!spells(&chars("date"), "dates"));
    assert!(!spells(&chars("dat"), "date"));
    assert!(!spells(&chars("dote"), "date"));
    assert!(spells(&chars(""), ""));
    assert!(begins_with(&chars("/q"), "/q"));
    assert!(begins_with(&chars("/query"), "/q"));
    assert!(!begins_with(&chars("/"), "/q"));
    assert!(!begins_with(&chars("q/"), "/q"));
    assert!(begins_with(&chars("anything"), ""));
}
