use package_registry::html::index;
use package_registry::json::packages_get;
use package_registry::package::Package;
use package_registry::parse::{packages_post, parse_package, DecodeError};
use package_registry::registry::Registry;

#[test]
fn json_listing_of_empty_registry_is_empty_array() {
    let reg = Registry::new();
    assert_eq!(packages_get(&reg), "[]");
}

#[test]
fn html_page_of_empty_registry_has_heading_and_empty_list() {
    let reg = Registry::new();
    assert_eq!(index(&reg), "<h1>Available Packages</h1><ul></ul>");
}

#[test]
fn post_then_get_round_trip() {
    let mut reg = Registry::new();
    let r = packages_post(&mut reg, "{\"name\":\"foo\",\"url\":\"http://example.com\"}");
    assert_eq!(r, Ok(()));
    assert_eq!(
        packages_get(&reg),
        "[{\"name\":\"foo\",\"url\":\"http://example.com\"}]"
    );
}

#[test]
fn post_missing_url_is_rejected_and_not_listed() {
    let mut reg = Registry::new();
    let r = packages_post(&mut reg, "{\"name\":\"foo\"}");
    assert_eq!(r, Err(DecodeError::Malformed));
    assert_eq!(packages_get(&reg), "[]");
}

#[test]
fn post_accepts_swapped_member_order() {
    let mut reg = Registry::new();
    let r = packages_post(&mut reg, "{\"url\":\"http://example.com\",\"name\":\"foo\"}");
    assert_eq!(r, Ok(()));
    let all = reg.get_all();
    assert_eq!(all.len(), 1);
    assert_eq!(all[0].name, "foo");
    assert_eq!(all[0].url, "http://example.com");
}

#[test]
fn post_accepts_whitespace_between_tokens() {
    let mut reg = Registry::new();
    let body = " { \"name\" : \"a\" ,\n\t\"url\" : \"b\" } \r\n";
    assert_eq!(packages_post(&mut reg, body), Ok(()));
    assert_eq!(packages_get(&reg), "[{\"name\":\"a\",\"url\":\"b\"}]");
}

#[test]
fn post_decodes_escapes_in_strings() {
    let mut reg = Registry::new();
    let body = "{\"name\":\"a\\\"b\\\\c\",\"url\":\"x\\ny\\/z\"}";
    assert_eq!(packages_post(&mut reg, body), Ok(()));
    let all = reg.get_all();
    assert_eq!(all[0].name, "a\"b\\c");
    assert_eq!(all[0].url, "x\ny/z");
}

#[test]
fn json_listing_reescapes_stored_strings() {
    let mut reg = Registry::new();
    reg.upsert(Package::new(
        String::from("a\"b\\c"),
        String::from("x\ny\u{1}z"),
    ));
    assert_eq!(
        packages_get(&reg),
        "[{\"name\":\"a\\\"b\\\\c\",\"url\":\"x\\ny\\u0001z\"}]"
    );
}

#[test]
fn parse_rejects_malformed_bodies() {
    assert!(parse_package("").is_none());
    assert!(parse_package("not json").is_none());
    assert!(parse_package("{}").is_none());
    assert!(parse_package("{\"name\":\"a\"}").is_none());
    assert!(parse_package("{\"url\":\"b\"}").is_none());
    assert!(parse_package("{\"name\":\"a\",\"url\":5}").is_none());
    assert!(parse_package("{\"name\":\"a\",\"name\":\"b\"}").is_none());
    assert!(parse_package("{\"name\":\"a\",\"url\":\"b\",\"extra\":\"c\"}").is_none());
    assert!(parse_package("{\"name\":\"a\",\"url\":\"b\"} trailing").is_none());
    assert!(parse_package("{\"name\":\"a\",\"url\":\"b\"").is_none());
    assert!(parse_package("{\"name\":\"a\" \"url\":\"b\"}").is_none());
    assert!(parse_package("{\"name\":\"\\u0041\",\"url\":\"b\"}").is_none());
    assert!(parse_package("{\"name\":\"a\\q\",\"url\":\"b\"}").is_none());
    assert!(parse_package("{\"name\":\"a\u{1}\",\"url\":\"b\"}").is_none());
    assert!(parse_package("[\"name\",\"url\"]").is_none());
}

#[test]
fn parse_accepts_empty_strings() {
    let p = parse_package("{\"name\":\"\",\"url\":\"\"}").unwrap();
    assert_eq!(p.name, "");
    assert_eq!(p.url, "");
}

#[test]
fn html_page_lists_packages_verbatim() {
    let mut reg = Registry::new();
    reg.upsert(Package::new(
        String::from("serde"),
        String::from("https://serde.rs"),
    ));
    reg.upsert(Package::new(String::from("b"), String::from("u")));
    assert_eq!(
        index(&reg),
        "<h1>Available Packages</h1><ul>\
         <li><p>serde</p><p>URL: https://serde.rs</p></li>\
         <li><p>b</p><p>URL: u</p></li></ul>"
    );
}

#[test]
fn many_distinct_posts_leave_one_record_each() {
    let mut reg = Registry::new();
    let n = 20;
    for i in 0..n {
        let body = format!("{{\"name\":\"pkg{}\",\"url\":\"http://host/{}\"}}", i, i);
        assert_eq!(packages_post(&mut reg, &body), Ok(()));
    }
    assert_eq!(reg.count(), n);
    // Posting the same names again must not add records.
    for i in 0..n {
        let body = format!("{{\"name\":\"pkg{}\",\"url\":\"http://again/{}\"}}", i, i);
        assert_eq!(packages_post(&mut reg, &body), Ok(()));
    }
    assert_eq!(reg.count(), n);
}
