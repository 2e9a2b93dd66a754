//! Tests for requests with a single category.

use wikidot_path::request::{ArgumentValue, Request};

#[test]
fn test_single_category_split() {
    // Only the first colon splits; the rest stays in the slug.
    let req = Request::parse("aaa:bbb:page");
    assert_eq!(req.category, "aaa");
    assert_eq!(req.slug, "bbb:page");
    assert_eq!(req.arguments.len(), 0);
}

#[test]
fn test_default_category() {
    let req = Request::parse("scp-1000");
    assert_eq!(req.category, "_default");
    assert_eq!(req.slug, "scp-1000");
    assert_eq!(req.arguments.len(), 0);
}

#[test]
fn test_empty_path_request() {
    let req = Request::parse("");
    assert_eq!(req.category, "_default");
    assert_eq!(req.slug, "");
    assert_eq!(req.arguments.len(), 0);
}

#[test]
fn test_category_and_arguments() {
    let req = Request::parse("/component:image-block/edit/t/offset/4");
    assert_eq!(req.category, "component");
    assert_eq!(req.slug, "image-block");
    assert_eq!(req.arguments.len(), 2);
    assert_eq!(req.arguments.get("edit"), Some(&ArgumentValue::Boolean(true)));
    assert_eq!(req.arguments.get("offset"), Some(&ArgumentValue::Integer(4)));
}

#[test]
fn test_caseless_boolean_coercion() {
    // The boolean names coerce ignoring ASCII case.
    let req = Request::parse("page/edit/TRUE");
    assert_eq!(req.arguments.get("edit"), Some(&ArgumentValue::Boolean(true)));
}

#[test]
fn test_duplicate_keys_last_wins() {
    let req = Request::parse("page/a/1/a/2");
    assert_eq!(req.arguments.len(), 1);
    assert_eq!(req.arguments.get("a"), Some(&ArgumentValue::Integer(2)));
}

#[test]
fn test_request_deterministic() {
    let path = "fragment:scp-4447-1/discuss/true";
    let r1 = Request::parse(path);
    let r2 = Request::parse(path);
    assert_eq!(r1.slug, r2.slug);
    assert_eq!(r1.category, r2.category);
    assert_eq!(r1.arguments.entries(), r2.arguments.entries());
}
