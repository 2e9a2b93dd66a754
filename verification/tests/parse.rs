//! Tests for requests with a full category chain.

use wikidot_path::parse::{Request, Value};

#[test]
fn test_category_chain_split() {
    let req = Request::parse("aaa:bbb:page");
    assert_eq!(req.slug, "page");
    assert_eq!(req.categories, vec!["aaa", "bbb"]);
    assert_eq!(req.arguments.len(), 0);
}

#[test]
fn test_empty_path() {
    let req = Request::parse("");
    assert_eq!(req.slug, "");
    assert!(req.categories.is_empty());
    assert_eq!(req.arguments.len(), 0);
}

#[test]
fn test_duplicate_key_precedence() {
    // The most recent occurrence of a key takes precedence.
    let req = Request::parse("page/a/1/a/2");
    assert_eq!(req.slug, "page");
    assert_eq!(req.arguments.len(), 1);
    assert_eq!(req.arguments.get("a"), Some(&Value::Integer(2)));
}

#[test]
fn test_leading_slash_and_arguments() {
    let req = Request::parse("/scp-1000/edit/true/offset/4");
    assert_eq!(req.slug, "scp-1000");
    assert!(req.categories.is_empty());
    assert_eq!(req.arguments.len(), 2);
    assert_eq!(req.arguments.get("edit"), Some(&Value::Boolean(true)));
    assert_eq!(req.arguments.get("offset"), Some(&Value::Integer(4)));
}

#[test]
fn test_caseless_boolean_values() {
    // The boolean names coerce ignoring ASCII case, single letters included.
    let req = Request::parse("page/edit/t");
    assert_eq!(req.arguments.get("edit"), Some(&Value::Boolean(true)));

    let req = Request::parse("page/edit/TRUE/norender/F");
    assert_eq!(req.arguments.get("edit"), Some(&Value::Boolean(true)));
    assert_eq!(req.arguments.get("norender"), Some(&Value::Boolean(false)));
}

#[test]
fn test_orphaned_boolean_skip_is_exact() {
    // Bare `true`/`false` cannot begin a pair and are skipped as keys; the
    // skip matches the exact lower-case words only.
    let req = Request::parse("page/true/edit/false");
    assert_eq!(req.arguments.len(), 1);
    assert_eq!(req.arguments.get("edit"), Some(&Value::Boolean(false)));

    let req = Request::parse("page/TRUE/2");
    assert_eq!(req.arguments.len(), 1);
    assert_eq!(req.arguments.get("TRUE"), Some(&Value::Integer(2)));
}

#[test]
fn test_key_without_value() {
    let req = Request::parse("page/edit");
    assert_eq!(req.arguments.len(), 1);
    assert_eq!(req.arguments.get("edit"), Some(&Value::Null));
}

#[test]
fn test_parse_deterministic() {
    // Parsing the same path twice yields identical requests.
    let path = "fragment:scp-4447-1/discuss/true/offset/9";
    let r1 = Request::parse(path);
    let r2 = Request::parse(path);
    assert_eq!(r1.slug, r2.slug);
    assert_eq!(r1.categories, r2.categories);
    assert_eq!(r1.arguments.entries(), r2.arguments.entries());
}

#[test]
fn test_consecutive_delimiters() {
    let req = Request::parse("aaa::page//x/1");
    assert_eq!(req.slug, "page");
    assert_eq!(req.categories, vec!["aaa", ""]);
    assert_eq!(req.arguments.len(), 1);
    assert_eq!(req.arguments.get("x"), Some(&Value::Integer(1)));
}
