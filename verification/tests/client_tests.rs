use lyceumnstubot::client::{NikaClient, NikaClientError};
use lyceumnstubot::date::{format_day_month_year, CalendarDate};
use lyceumnstubot::response::{find_value, Pair};
use lyceumnstubot::text::{decimal_string, join_strings, parse_unsigned_i32};

#[test]
fn finds_the_script_file_name() {
    let html = "<html><script type=\"text/javascript\" src=\"other.js\"></script>\n\
<script type=\"text/javascript\" src=\"nika_data_20240901_123456.js\"></script></html>";
    match NikaClient::find_script_filename(html) {
        Ok(name) => assert_eq!(name, "nika_data_20240901_123456.js"),
        Err(_) => panic!("no file name"),
    }
}

#[test]
fn missing_script_is_a_file_name_error() {
    let html = "<script type=\"text/javascript\" src=\"nika_data_2024091_123456.js\"></script>";
    assert!(matches!(NikaClient::find_script_filename(html), Err(NikaClientError::FilenameParsing)));
    assert_eq!(NikaClientError::FilenameParsing.message(), "couldn't parse filename");
}

#[test]
fn script_url_joins_the_site() {
    assert_eq!(
        NikaClient::script_url("nika_data_20240901_123456.js"),
        "https://lyceum.nstu.ru/rasp/nika_data_20240901_123456.js"
    );
    assert_eq!(NikaClient::schedule_page_url(), "https://lyceum.nstu.ru/rasp/schedule.html");
}

#[test]
fn data_object_is_greedy_on_its_line() {
    let script = "var NIKA={\"a\":{\"b\":1}};\nvar x = {};";
    match NikaClient::find_data_object(script) {
        Ok(object) => assert_eq!(object, "{\"a\":{\"b\":1}}"),
        Err(_) => panic!("no object"),
    }
    assert_eq!(NikaClient::find_data_object("{}\n{x}").ok(), Some("{x}".to_string()));
    assert!(NikaClient::find_data_object("{\n}").is_err());
    assert!(matches!(NikaClient::find_data_object("none"), Err(NikaClientError::FilenameParsing)));
}

#[test]
fn date_is_written_day_month_year() {
    assert_eq!(format_day_month_year(CalendarDate { year: 2024, month: 9, day: 3 }), "03.09.2024");
    assert_eq!(format_day_month_year(CalendarDate { year: 987, month: 12, day: 31 }), "31.12.0987");
    assert_eq!(format_day_month_year(CalendarDate { year: 10000, month: 1, day: 1 }), "01.01.+10000");
    assert_eq!(format_day_month_year(CalendarDate { year: -44, month: 3, day: 15 }), "15.03.-0044");
}

#[test]
fn numbers_are_read_and_written() {
    assert_eq!(decimal_string(0), "0");
    assert_eq!(decimal_string(1207), "1207");
    assert_eq!(parse_unsigned_i32(&"00042".to_string()), Some(42));
    assert_eq!(parse_unsigned_i32(&"2147483647".to_string()), Some(2147483647));
    assert_eq!(parse_unsigned_i32(&"2147483648".to_string()), None);
    assert_eq!(parse_unsigned_i32(&"".to_string()), None);
    assert_eq!(parse_unsigned_i32(&"12a".to_string()), None);
}

#[test]
fn strings_are_joined() {
    let parts = vec!["a".to_string(), "".to_string(), "c".to_string()];
    assert_eq!(join_strings(&parts, ", "), "a, , c");
    assert_eq!(join_strings(&vec![], ", "), "");
}

#[test]
fn written_numbers_read_back() {
    for n in [0u64, 7, 10, 99, 100, 123456, 2147483647] {
        assert_eq!(parse_unsigned_i32(&decimal_string(n)), Some(n as u32));
    }
}

#[test]
fn lookup_finds_each_key() {
    let pairs = vec![
        Pair { key: "a".to_string(), value: "1".to_string() },
        Pair { key: "b".to_string(), value: "2".to_string() },
        Pair { key: "c".to_string(), value: "3".to_string() },
    ];
    for p in &pairs {
        assert_eq!(find_value(&pairs, &p.key), Some(&p.value));
    }
    assert_eq!(find_value(&pairs, &"d".to_string()), None);
}

#[test]
fn script_file_name_takes_unicode_digits() {
    let html = "<script type=\"text/javascript\" src=\"nika_data_٢٠٢٤٠٩٠١_١٢٣٤٥٦.js\"></script>";
    assert_eq!(NikaClient::find_script_filename(html).ok(), Some("nika_data_٢٠٢٤٠٩٠١_١٢٣٤٥٦.js".to_string()));
}

#[test]
fn capture_is_required() {
    assert_eq!(NikaClient::require_capture(Some("x".to_string())).ok(), Some("x".to_string()));
    assert!(matches!(NikaClient::require_capture(None), Err(NikaClientError::FilenameParsing)));
}

#[test]
fn client_error_messages_are_the_wrapped_texts() {
    let err = regex::Regex::new("(").unwrap_err();
    let text = err.to_string();
    assert_eq!(NikaClientError::from(err).message(), text);
    let err = serde_json::from_str::<u8>("x").unwrap_err();
    let text = err.to_string();
    assert_eq!(NikaClientError::from(err).message(), text);
}
