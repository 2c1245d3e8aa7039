use semindex::parser::{is_whatsapp_export, parse_whatsapp};

#[test]
fn two_records_multiline_first() {
    let input = "[1/2/24, 10:00:00] Alice: Hello\nworld\n[1/2/24, 10:00:05] Bob: Hi";
    let recs = parse_whatsapp(input);
    assert_eq!(recs.len(), 2);
    assert_eq!(recs[0].content, "Hello\nworld");
    assert_eq!(recs[0].sender.as_deref(), Some("Alice"));
    assert_eq!(recs[0].date.as_deref(), Some("1/2/24, 10:00:00"));
    assert_eq!(recs[1].content, "Hi");
    assert_eq!(recs[1].sender.as_deref(), Some("Bob"));
    assert_eq!(recs[1].date.as_deref(), Some("1/2/24, 10:00:05"));
}

#[test]
fn android_format_record() {
    let input = "1/2/24, 10:00 - Alice: Hey there";
    let recs = parse_whatsapp(input);
    assert_eq!(recs.len(), 1);
    assert_eq!(recs[0].content, "Hey there");
    assert_eq!(recs[0].sender.as_deref(), Some("Alice"));
    assert_eq!(recs[0].date.as_deref(), Some("1/2/24, 10:00"));
}

#[test]
fn datelike_line_is_dropped() {
    let input = "[1/2/24, 10:00:00] Alice: Hello\n1/2/24 broken stamp\nmore text";
    let recs = parse_whatsapp(input);
    assert_eq!(recs.len(), 1);
    assert_eq!(recs[0].content, "Hello\nmore text");
}

#[test]
fn bracketed_datelike_line_is_dropped() {
    let input = "[1/2/24, 10:00:00] Alice: Hello\n[3/4/24 stray\nworld";
    let recs = parse_whatsapp(input);
    assert_eq!(recs.len(), 1);
    assert_eq!(recs[0].content, "Hello\nworld");
}

#[test]
fn leading_junk_is_dropped_without_pending() {
    let input = "junk line\n[1/2/24, 10:00:00] A: x";
    let recs = parse_whatsapp(input);
    assert_eq!(recs.len(), 1);
    assert_eq!(recs[0].content, "x");
    assert_eq!(recs[0].sender.as_deref(), Some("A"));
}

#[test]
fn empty_input_no_records() {
    assert_eq!(parse_whatsapp("").len(), 0);
}

#[test]
fn sender_is_shortest_match() {
    let input = "[1/2/24, 10:00:00] Alice: note: hi";
    let recs = parse_whatsapp(input);
    assert_eq!(recs.len(), 1);
    assert_eq!(recs[0].sender.as_deref(), Some("Alice"));
    assert_eq!(recs[0].content, "note: hi");
}

#[test]
fn four_digit_year_and_crlf_lines() {
    let input = "[1/2/2024, 9:00:00] Ann: one\r\n[2/2/2024, 9:05:00] Ben: two";
    let recs = parse_whatsapp(input);
    assert_eq!(recs.len(), 2);
    assert_eq!(recs[0].content, "one");
    assert_eq!(recs[0].date.as_deref(), Some("1/2/2024, 9:00:00"));
}

#[test]
fn three_digit_day_does_not_match() {
    let input = "[123/2/24, 10:00:00] Alice: Hello";
    let recs = parse_whatsapp(input);
    assert_eq!(recs.len(), 0);
}

#[test]
fn five_digit_year_line_is_datelike_and_dropped() {
    let input = "[1/2/24, 10:00:00] A: start\n[1/2/20245, 10:00:00] B: lost\ntail";
    let recs = parse_whatsapp(input);
    assert_eq!(recs.len(), 1);
    assert_eq!(recs[0].content, "start\ntail");
}

#[test]
fn three_digit_minutes_line_is_datelike_and_dropped() {
    let input = "[1/2/24, 10:00:00] A: start\n[1/2/24, 10:000:00] B: lost";
    let recs = parse_whatsapp(input);
    assert_eq!(recs.len(), 1);
    assert_eq!(recs[0].content, "start");
}

#[test]
fn four_digit_day_line_is_plain_continuation() {
    let input = "[1/2/24, 10:00:00] A: start\n1234/5/24, 10:00 - B: not a stamp";
    let recs = parse_whatsapp(input);
    assert_eq!(recs.len(), 1);
    assert_eq!(recs[0].content, "start\n1234/5/24, 10:00 - B: not a stamp");
}

#[test]
fn detection_finds_stamp_after_extra_leading_digit() {
    let mut s = String::from("123/4/23, 9:15 - x ");
    while s.chars().count() <= 500 {
        s.push('d');
    }
    assert!(is_whatsapp_export(&s));
}

#[test]
fn detection_long_string_with_ios_stamp() {
    let mut s = String::from("[3/4/23, 9:15:02] ");
    while s.chars().count() <= 500 {
        s.push('a');
    }
    assert!(s.chars().count() > 500);
    assert!(is_whatsapp_export(&s));
}

#[test]
fn detection_exactly_500_chars_is_accepted() {
    let mut s = String::from("[3/4/23, 9:15:02] ");
    while s.chars().count() < 500 {
        s.push('a');
    }
    assert_eq!(s.chars().count(), 500);
    assert!(is_whatsapp_export(&s));
}

#[test]
fn detection_499_chars_is_rejected() {
    let mut s = String::from("[3/4/23, 9:15:02] ");
    while s.chars().count() < 499 {
        s.push('a');
    }
    assert_eq!(s.chars().count(), 499);
    assert!(!is_whatsapp_export(&s));
}

#[test]
fn detection_short_string_is_rejected() {
    let mut s = String::from("[3/4/23, 9:15:02] ");
    while s.chars().count() < 400 {
        s.push('a');
    }
    assert!(!is_whatsapp_export(&s));
}

#[test]
fn detection_stamp_after_prefix_is_ignored() {
    let mut s = String::new();
    while s.chars().count() < 500 {
        s.push('a');
    }
    s.push_str("[3/4/23, 9:15:02]");
    assert!(s.chars().count() > 500);
    assert!(!is_whatsapp_export(&s));
}

#[test]
fn detection_android_stamp() {
    let mut s = String::from("3/4/23, 9:15 - Bob: hi ");
    while s.chars().count() <= 500 {
        s.push('b');
    }
    assert!(is_whatsapp_export(&s));
}

#[test]
fn detection_long_string_without_stamp() {
    let mut s = String::new();
    while s.chars().count() < 600 {
        s.push('c');
    }
    assert!(!is_whatsapp_export(&s));
}
