//! Result prettifying: relative dates, thousand separators and HTML
//! escaping.

use stract::prettifier::{html_escape, prettify_date, prettify_url, thousand_sep_number};
use stract::timeutil::{now_seconds, parse_rfc3339};

fn now_u64() -> u64 {
    let now = now_seconds();
    if now < 0 {
        0
    } else {
        now as u64
    }
}

#[test]
fn prettify_date_in_hours() {
    let now = now_u64();
    assert_eq!(prettify_date(now, now), "1 hour ago".to_string());

    assert_eq!(prettify_date(now - 4000, now), "2 hours ago".to_string());
}

#[test]
fn prettify_date_days() {
    let now = now_u64();
    assert_eq!(prettify_date(now - 86400, now), "1 day ago".to_string());

    assert_eq!(prettify_date(now - 2 * 86400, now), "2 days ago".to_string());
}

#[test]
fn prettify_date_rest() {
    let date = parse_rfc3339("1996-12-19T16:39:57-08:00").unwrap();
    assert_eq!(
        prettify_date(date as u64, now_u64()),
        "19. Dec. 1996".to_string()
    );
}

#[test]
fn sep_number() {
    assert_eq!(thousand_sep_number(0), "0".to_string());
    assert_eq!(thousand_sep_number(10), "10".to_string());
    assert_eq!(thousand_sep_number(100), "100".to_string());
    assert_eq!(thousand_sep_number(1000), "1.000".to_string());
    assert_eq!(thousand_sep_number(10_000), "10.000".to_string());
    assert_eq!(thousand_sep_number(100_000), "100.000".to_string());
    assert_eq!(thousand_sep_number(512_854), "512.854".to_string());
    assert_eq!(thousand_sep_number(9_512_854), "9.512.854".to_string());
}

#[test]
fn escape_html_text() {
    assert_eq!(html_escape("plain text"), "plain text".to_string());
    assert_eq!(html_escape("a &amp; b"), "a  b".to_string());
    assert_eq!(html_escape("<b>bold</b>"), "bbold/b".to_string());
    assert_eq!(html_escape("&lt;tag&gt;"), "tag".to_string());
    assert_eq!(html_escape("&#39;quoted&#39;"), "'quoted'".to_string());
}

#[test]
fn pretty_urls() {
    assert_eq!(
        prettify_url("https://www.example.com/path/page?x=1"),
        "https://www.example.com \u{203a} path \u{203a} page".to_string()
    );
    assert_eq!(
        prettify_url("https://www.example.com/"),
        "https://www.example.com".to_string()
    );
}
