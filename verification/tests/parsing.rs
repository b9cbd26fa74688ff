use pmc::id::{AutoIncrement, Id};
use pmc::num::{i64_to_string, parse_i32, parse_i64, parse_u64, parse_usize, u64_to_string, IntErrorKind};
use pmc::text::{first_token, join, lines, replace, split_char, split_whitespace, starts_with, str_eq, trim, trim_end_char};

#[test]
fn integers_parse_as_std_does() {
    assert_eq!(parse_usize("42"), Ok(42));
    assert_eq!(parse_usize("+7"), Ok(7));
    assert_eq!(parse_usize(""), Err(IntErrorKind::Empty));
    assert_eq!(parse_usize("-1"), Err(IntErrorKind::InvalidDigit));
    assert_eq!(parse_usize("+"), Err(IntErrorKind::InvalidDigit));
    assert_eq!(parse_usize("12a"), Err(IntErrorKind::InvalidDigit));
    assert_eq!(parse_u64("18446744073709551615"), Ok(u64::MAX));
    assert_eq!(parse_u64("18446744073709551616"), Err(IntErrorKind::PosOverflow));
    assert_eq!(parse_i64("-9223372036854775808"), Ok(i64::MIN));
    assert_eq!(parse_i64("-9223372036854775809"), Err(IntErrorKind::NegOverflow));
    assert_eq!(parse_i32("2147483648"), Err(IntErrorKind::PosOverflow));
    assert_eq!(parse_i32("-17"), Ok(-17));
    for s in ["0", "123", "+5", "-", "99x", "4294967296", "-2147483649", " 1"] {
        assert_eq!(parse_i32(s).ok(), s.parse::<i32>().ok());
        assert_eq!(parse_usize(s).ok(), s.parse::<usize>().ok());
    }
}

#[test]
fn integers_print_as_display_does() {
    for n in [0u64, 9, 10, 1234567890, u64::MAX] {
        assert_eq!(u64_to_string(n), n.to_string());
    }
    for i in [0i64, -1, 42, i64::MIN, i64::MAX] {
        assert_eq!(i64_to_string(i), i.to_string());
    }
}

#[test]
fn id_counter_round_trip() {
    let mut id = Id::new(5);
    assert_eq!(id.next(), 5);
    assert_eq!(id.next(), 6);
    assert_eq!(id.counter, 7);
    let text = id.to_string();
    assert_eq!(text, "7");
    assert_eq!(Id::from_text(&text).counter, 7);
    assert_eq!(Id::from_text("garbage").counter, 0);
    assert!(Id::parse("x").is_err());
    assert_eq!(Id::parse("12").unwrap().counter, 12);
    let mut top = Id::new(usize::MAX);
    assert_eq!(top.next(), usize::MAX);
    assert_eq!(top.counter, 0);
    let mut auto = AutoIncrement::new(3);
    assert_eq!(auto.next(), 3);
    assert_eq!(auto.counter, 4);
}

#[test]
fn text_helpers_match_std() {
    for s in ["  a b  ", "\t\nx\u{3000}", "", "   ", "no-space"] {
        assert_eq!(trim(s), s.trim());
        assert_eq!(split_whitespace(s), s.split_whitespace().map(String::from).collect::<Vec<_>>());
        assert_eq!(first_token(s), s.split_whitespace().next().map(String::from));
        assert_eq!(lines(s), s.lines().map(String::from).collect::<Vec<_>>());
    }
    for s in ["a\r\nb\n", "a\rb", "\n\n", "x\n\r\n"] {
        assert_eq!(lines(s), s.lines().map(String::from).collect::<Vec<_>>());
    }
    assert_eq!(trim_end_char("http://h:1///", '/'), "http://h:1");
    assert_eq!(replace("a b  c", " ", "_"), "a_b__c");
    assert_eq!(replace("$s_path/x$s_path", "$s_path", "/api"), "/api/x/api");
    assert_eq!(split_char("1..2", '.'), vec!["1", "", "2"]);
    assert_eq!(join(&vec!["-c".to_string(), "x".to_string()], " "), "-c x");
    assert!(starts_with("VmRSS: 1", "VmRSS:"));
    assert!(!starts_with("Vm", "VmRSS:"));
    assert!(str_eq("abc", "abc"));
    assert!(!str_eq("abc", "abd"));
}
