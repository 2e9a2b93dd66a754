//! Tests for the redirect decision.

use wikidot_path::redirect::{paths_equal, redirect};

#[test]
fn test_redirect_canonical_path() {
    // A path already in canonical form needs no redirect.
    assert_eq!(redirect("/scp-1000"), None);
    assert_eq!(redirect("/big-cheese-horace"), None);
}

#[test]
fn test_redirect_normalizes() {
    assert_eq!(redirect("Big Cheese Horace"), Some("/big-cheese-horace".to_string()));
    assert_eq!(redirect("/SCP 1000"), Some("/scp-1000".to_string()));
}

#[test]
fn test_redirect_missing_slash() {
    // The canonical leading slash is disregarded when the original path has
    // none, so a missing slash alone forces no redirect.
    assert_eq!(redirect("scp-1000"), None);
    assert_eq!(redirect("Some Page"), Some("/some-page".to_string()));
}

#[test]
fn test_redirect_percent_decoding() {
    assert_eq!(redirect("/scp%2D1000"), Some("/scp-1000".to_string()));
}

#[test]
fn test_redirect_default_category() {
    // The `_default` category is implicit and stripped.
    assert_eq!(redirect("/_default:page"), Some("/page".to_string()));
}

#[test]
fn test_redirect_idempotent() {
    // A path that redirect hands out needs no further redirect.
    let q = redirect("Tufto's Proposal").unwrap();
    assert_eq!(q, "/tufto-s-proposal");
    assert_eq!(redirect(&q), None);

    let q = redirect("/_default:_default:page").unwrap();
    assert_eq!(redirect(&q), None);
}

#[test]
fn test_redirect_empty() {
    assert_eq!(redirect(""), None);
}

#[test]
fn test_paths_equal() {
    assert!(paths_equal("/a", "/a"));
    assert!(paths_equal("a", "/a"));
    assert!(!paths_equal("/a", "/b"));
    assert!(!paths_equal("b", "/a"));
    assert!(paths_equal("", "/"));
}
