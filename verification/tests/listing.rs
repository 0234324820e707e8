//! Key ranges, texts and the clock.
use celld_store::clock::{clock_ms, wall_ms};
use celld_store::listing::{directory_prefix, metadata_page, prefix_end};
use celld_store::page::{PageOptions, PageScan, PageStep};
use celld_store::text::{
    decimal_text, find, parse_u64, split_on, split_words, text_before, text_ends_with,
    text_starts_with, to_chars, trim,
};

#[test]
fn prefixes_end_where_the_next_scalar_begins() {
    assert_eq!(prefix_end("many/").as_deref(), Some("many0"));
    assert_eq!(prefix_end("a\u{d7ff}").as_deref(), Some("a\u{e000}"));
    assert_eq!(prefix_end("a\u{10ffff}").as_deref(), Some("b"));
    assert_eq!(prefix_end("\u{10ffff}\u{10ffff}"), None);
    assert_eq!(prefix_end(""), None);
    // Every text with the prefix lies below the end, and the end lies outside.
    let end = prefix_end("a\u{d7ff}").unwrap();
    assert!("a\u{d7ff}\u{10ffff}" < end.as_str());
    assert!(text_before("a\u{d7ff}\u{10ffff}", &end));
    assert!(!text_before(&end, "a\u{d7ff}"));
}

#[test]
fn directories_have_a_slash() {
    assert_eq!(directory_prefix(None), "");
    assert_eq!(directory_prefix(Some("")), "");
    assert_eq!(directory_prefix(Some("a/b")), "a/b/");
}

#[test]
fn queries_begin_at_the_prefix_or_the_cursor() {
    let query = metadata_page("a/", None, 128);
    assert_eq!((query.lower.as_str(), query.limit), ("a/", 128));
    assert_eq!(query.upper.as_deref(), Some("a0"));
    assert_eq!(query.after, None);
    assert_eq!(metadata_page("a/", Some("a/b"), 1).lower, "a/b");
    assert_eq!(metadata_page("a/", Some("Z"), 1).lower, "a/");
    assert_eq!(metadata_page("", None, 1).upper, None);
}

#[test]
fn a_token_counts_before_an_offset_and_an_empty_delimiter_groups_nothing() {
    let page = PageScan::new(
        "",
        PageOptions {
            offset: Some("o".into()),
            delimiter: Some(String::new()),
            max_keys: None,
            page_token: Some("t".into()),
        },
    );
    assert_eq!(page.after.as_deref(), Some("t"));
    assert!(page.delimiter.is_none());
    assert_eq!(page.limit, 1000);
    let mut page = page;
    assert!(matches!(
        page.accept(None).unwrap(),
        PageStep::Done { page_token: None }
    ));
}

#[test]
fn texts_are_cut_and_read() {
    assert_eq!(split_on("a,,b", ','), ["a", "", "b"]);
    assert_eq!(split_words(" a\u{2003}b\tc\n"), ["a", "b", "c"]);
    assert_eq!(trim(" \u{a0}x y\r\n"), "x y");
    assert_eq!(parse_u64("+7"), Some(7));
    assert_eq!(parse_u64("18446744073709551615"), Some(u64::MAX));
    assert_eq!(parse_u64("18446744073709551616"), None);
    assert_eq!(parse_u64(""), None);
    assert_eq!(parse_u64("+"), None);
    assert_eq!(parse_u64("-1"), None);
    assert_eq!(decimal_text(i64::MIN), i64::MIN.to_string());
    assert_eq!(decimal_text(0), "0");
    assert_eq!(decimal_text(1234567890), "1234567890");
    assert_eq!(find(&to_chars("abcabc"), &to_chars("ca"), 0), Some(2));
    assert_eq!(find(&to_chars("abcabc"), &to_chars("ca"), 3), None);
    assert!(text_starts_with("prefix", "pre") && !text_starts_with("p", "pre"));
    assert!(text_ends_with("a.json", ".json") && !text_ends_with("json", ".json"));
}

#[test]
fn clock_readings_become_milliseconds() {
    assert_eq!(clock_ms(None), 0);
    assert_eq!(clock_ms(Some(1_788_600_000_000)), 1_788_600_000_000);
    assert_eq!(clock_ms(Some(1 << 64)), 0);
    // Any clock that this runs on stands behind the year 2020.
    assert!(wall_ms() > 1_577_836_800_000);
}
