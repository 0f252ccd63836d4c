use usnip::clip_formats::Format;
use usnip::shortcuts::{load_records, parse_bool, parse_shortcut, parse_u16, split_fields, UNSET_KEYCODE};
use usnip::utils::str_eq;

#[test]
fn seven_fields_yield_one_record() {
    let rec = parse_shortcut(3, "1;notepad.exe;true;2;65;Text;hello world").unwrap();
    assert_eq!(rec.id, 3);
    assert_eq!(rec.version, "1");
    assert_eq!(rec.process, "notepad.exe");
    assert!(rec.enabled);
    assert_eq!(rec.modifiers, 2);
    assert_eq!(rec.keycode, 65);
    assert!(matches!(rec.format, Format::Text));
    assert_eq!(rec.data, "hello world");
}

#[test]
fn fewer_fields_yield_no_record() {
    assert!(parse_shortcut(0, "1;notepad.exe;true").is_none());
    assert!(parse_shortcut(0, "").is_none());
    assert!(parse_shortcut(0, "1;2;3;4;5;6").is_none());
}

#[test]
fn bad_file_does_not_abort_the_scan() {
    let contents = vec![
        "too;few;fields".to_string(),
        "1;calc.exe;true;4;66;Raw;snippet".to_string(),
        "also;too;few".to_string(),
    ];
    let records = load_records(&contents);
    assert_eq!(records.len(), 1);
    assert_eq!(records[0].id, 1);
    assert_eq!(records[0].process, "calc.exe");
}

#[test]
fn ids_follow_enumeration_order() {
    let contents = vec![
        "1;a.exe;true;0;10;Raw;x".to_string(),
        "1;b.exe;true;0;11;Raw;y".to_string(),
    ];
    let records = load_records(&contents);
    assert_eq!(records.len(), 2);
    assert_eq!(records[0].id, 0);
    assert_eq!(records[1].id, 1);
}

#[test]
fn unparsable_fields_fall_back_to_defaults() {
    let rec = parse_shortcut(0, "1;NOTEPAD.EXE;maybe;lots;0x41;Fancy;data").unwrap();
    assert_eq!(rec.process, "notepad.exe");
    assert!(rec.enabled);
    assert_eq!(rec.modifiers, 0);
    assert_eq!(rec.keycode, UNSET_KEYCODE);
    assert!(matches!(rec.format, Format::Raw));
    assert_eq!(rec.data, "data");
}

#[test]
fn data_field_keeps_semicolons() {
    let rec = parse_shortcut(0, "1;p;true;0;0;Raw;a;b;c").unwrap();
    assert_eq!(rec.data, "a;b;c");
}

#[test]
fn split_keeps_at_most_seven_fields() {
    let fields = split_fields("a;b;c;d;e;f;g;h");
    assert_eq!(fields.len(), 7);
    assert_eq!(fields[0], "a");
    assert_eq!(fields[6], "g;h");

    let fields = split_fields("");
    assert_eq!(fields.len(), 1);
    assert_eq!(fields[0], "");

    let fields = split_fields("x;y");
    assert_eq!(fields, vec!["x".to_string(), "y".to_string()]);
}

#[test]
fn u16_fields_parse_as_decimal() {
    assert_eq!(parse_u16("0"), Some(0));
    assert_eq!(parse_u16("65"), Some(65));
    assert_eq!(parse_u16("007"), Some(7));
    assert_eq!(parse_u16("+65"), Some(65));
    assert_eq!(parse_u16("65535"), Some(65535));
    assert_eq!(parse_u16("65536"), None);
    assert_eq!(parse_u16("99999999999999999999"), None);
    assert_eq!(parse_u16(""), None);
    assert_eq!(parse_u16("+"), None);
    assert_eq!(parse_u16("0x41"), None);
    assert_eq!(parse_u16(" 65"), None);
    assert_eq!(parse_u16("-1"), None);
}

#[test]
fn bool_fields_parse_exactly() {
    assert_eq!(parse_bool("true"), Some(true));
    assert_eq!(parse_bool("false"), Some(false));
    assert_eq!(parse_bool("True"), None);
    assert_eq!(parse_bool(""), None);
}

#[test]
fn format_names_are_case_sensitive() {
    assert!(matches!(Format::from_str("Text"), Format::Text));
    assert!(matches!(Format::from_str("Html"), Format::Html));
    assert!(matches!(Format::from_str("Raw"), Format::Raw));
    assert!(matches!(Format::from_str("html"), Format::Raw));
    assert!(matches!(Format::from_str(""), Format::Raw));
    assert!(matches!(Format::default(), Format::Raw));
}

#[test]
fn str_eq_compares_by_characters() {
    assert!(str_eq("", ""));
    assert!(str_eq("abc", "abc"));
    assert!(!str_eq("abc", "abd"));
    assert!(!str_eq("abc", "ab"));
}
