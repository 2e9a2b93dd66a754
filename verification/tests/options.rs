//! Tests for the schema-less options parser.

use wikidot_path::options::{ArgumentValue, PageOptions};

#[test]
fn test_options_basic() {
    let opts = PageOptions::parse("offset/4/norender/true");
    assert_eq!(opts.0.len(), 2);
    assert_eq!(opts.0.get("offset"), Some(&ArgumentValue::Integer(4)));
    assert_eq!(opts.0.get("norender"), Some(&ArgumentValue::Boolean(true)));
}

#[test]
fn test_options_empty() {
    let opts = PageOptions::parse("");
    assert_eq!(opts.0.len(), 0);

    let opts = PageOptions::parse("/");
    assert_eq!(opts.0.len(), 0);
}

#[test]
fn test_options_leading_slash() {
    let opts = PageOptions::parse("/edit/true");
    assert_eq!(opts.0.len(), 1);
    assert_eq!(opts.0.get("edit"), Some(&ArgumentValue::Boolean(true)));
}

#[test]
fn test_options_bare_key() {
    let opts = PageOptions::parse("norender");
    assert_eq!(opts.0.len(), 1);
    assert_eq!(opts.0.get("norender"), Some(&ArgumentValue::Null));
}

#[test]
fn test_options_skip_orphaned_booleans() {
    // A bare `true` or `false` can never begin a pair and is skipped.
    let opts = PageOptions::parse("true/edit/1/false");
    assert_eq!(opts.0.len(), 1);
    assert_eq!(opts.0.get("edit"), Some(&ArgumentValue::Integer(1)));
}

#[test]
fn test_options_caseless_coercion() {
    // The boolean names coerce ignoring ASCII case, single letters included.
    let opts = PageOptions::parse("norender/t/edit/T/comments/False");
    assert_eq!(opts.0.get("norender"), Some(&ArgumentValue::Boolean(true)));
    assert_eq!(opts.0.get("edit"), Some(&ArgumentValue::Boolean(true)));
    assert_eq!(opts.0.get("comments"), Some(&ArgumentValue::Boolean(false)));
}

#[test]
fn test_options_duplicate_keys() {
    let opts = PageOptions::parse("a/1/a/2");
    assert_eq!(opts.0.len(), 1);
    assert_eq!(opts.0.get("a"), Some(&ArgumentValue::Integer(2)));
}

#[test]
fn test_options_keys_are_case_sensitive() {
    // Unlike the schema-driven arguments, these keys match exactly.
    let opts = PageOptions::parse("offset/1/OFFSET/2");
    assert_eq!(opts.0.len(), 2);
    assert_eq!(opts.0.get("offset"), Some(&ArgumentValue::Integer(1)));
    assert_eq!(opts.0.get("OFFSET"), Some(&ArgumentValue::Integer(2)));
}
