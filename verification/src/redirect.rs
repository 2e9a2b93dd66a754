//! Redirect decisions for paths not in Wikidot normal form.
//!
//! Consumers in a web router redirect requests whose path differs from its
//! canonical form: the percent-decoded, normalized path with the implicit
//! `_default:` category marker removed and a mandated leading slash.

use crate::segments::str_eq;
use percent_encoding::percent_decode;
use vstd::prelude::*;
use wikidot_normalize::normalize;

verus! {

/// The percent-decoding of `s`, read back as UTF-8 (lossily).
pub uninterp spec fn decoded_of(s: Seq<char>) -> Seq<char>;

/// Relies on `percent_encoding::percent_decode` with `decode_utf8_lossy`:
/// the decoded string is a function of the input alone, and an input without
/// `%` passes through unchanged (only `%XX` triplets are rewritten).
#[verifier::external_body]
fn percent_decode_lossy(path: &str) -> (r: String)
    ensures
        r@ == decoded_of(path@),
        !path@.contains('%') ==> r@ == path@,
{
    percent_decode(path.as_bytes()).decode_utf8_lossy().into_owned()
}

/// The Wikidot normal form of `s`.
pub uninterp spec fn normal_of(s: Seq<char>) -> Seq<char>;

/// `s` begins with the literal `_default:` category marker.
pub open spec fn starts_with_default_marker(s: Seq<char>) -> bool {
    s.len() >= 9 && s.take(9) == "_default:"@
}

/// Relies on `wikidot_normalize::normalize`: the normal form is a function
/// of the input alone. Its passes replace every character outside letters,
/// numbers, `-`, `:` and `_` with a dash (after dropping one leading slash),
/// so no `/` survives; and its final pass removes a leading `_default:`
/// marker, which cannot recur, since the earlier passes leave at most one
/// colon in the text.
#[verifier::external_body]
fn normalize_path(path: String) -> (r: String)
    ensures
        r@ == normal_of(path@),
        !r@.contains('/'),
        !starts_with_default_marker(r@),
{
    let mut path = path;
    normalize(&mut path);
    path
}

/// `s` with every leading `_default:` category marker removed.
pub open spec fn strip_default_spec(s: Seq<char>) -> Seq<char>
    decreases s.len(),
{
    if starts_with_default_marker(s) {
        strip_default_spec(s.skip(9))
    } else {
        s
    }
}

/// Strips the explicit `_default:` category marker from the front of the
/// path, repeatedly: that category is implicit, so it never appears in a
/// canonical path.
fn strip_default_category(path: String) -> (r: String)
    ensures
        r@ == strip_default_spec(path@),
    decreases path@.len(),
{
    proof {
        reveal_strlit("_default:");
    }
    let n = path.as_str().unicode_len();
    if n >= 9 {
        let prefix = path.as_str().substring_char(0, 9);
        if str_eq(prefix, "_default:") {
            let rest = path.as_str().substring_char(9, n);
            proof {
                assert(prefix@ =~= path@.take(9));
                assert(rest@ =~= path@.skip(9));
            }
            return strip_default_category(rest.to_owned());
        }
    }
    path
}

/// `s`, prefixed with `/` unless it already begins with one.
pub open spec fn with_leading_slash(s: Seq<char>) -> Seq<char> {
    if s.len() > 0 && s[0] == '/' {
        s
    } else {
        seq!['/'] + s
    }
}

/// Ensures the path begins with a `/`.
fn ensure_leading_slash(path: String) -> (r: String)
    ensures
        r@ == with_leading_slash(path@),
{
    let n = path.as_str().unicode_len();
    if n > 0 && path.as_str().get_char(0) == '/' {
        path
    } else {
        proof {
            reveal_strlit("/");
        }
        let mut out = String::from_str("/");
        out.append(path.as_str());
        proof {
            assert(out@ =~= seq!['/'] + path@);
        }
        out
    }
}

/// The canonical form of a path: percent-decoded, normalized, with the
/// `_default:` marker stripped and a leading slash mandated.
pub open spec fn canonical_of(p: Seq<char>) -> Seq<char> {
    with_leading_slash(strip_default_spec(normal_of(decoded_of(p))))
}

/// The original path and the canonical path denote the same request. The
/// leading slash of the canonical path is disregarded when the original has
/// none.
pub open spec fn paths_equal_spec(original: Seq<char>, new: Seq<char>) -> bool {
    if original.len() > 0 && original[0] == '/' {
        original == new
    } else {
        original == new.skip(1)
    }
}

/// Compares a path against its canonical form, disregarding the canonical
/// leading slash when the original has none.
pub fn paths_equal(original_path: &str, new_path: &str) -> (r: bool)
    requires
        (original_path@.len() > 0 && original_path@[0] == '/') || new_path@.len() >= 1,
    ensures
        r == paths_equal_spec(original_path@, new_path@),
{
    let n = original_path.unicode_len();
    if n > 0 && original_path.get_char(0) == '/' {
        str_eq(original_path, new_path)
    } else {
        // If the original path doesn't start with /, then strip it from the
        // new path for a fair comparison.
        let m = new_path.unicode_len();
        let tail = new_path.substring_char(1, m);
        proof {
            assert(tail@ =~= new_path@.skip(1));
        }
        str_eq(original_path, tail)
    }
}

/// What `redirect` decides for a path: `None` when the path already agrees
/// with its canonical form, else the canonical form.
pub open spec fn redirect_spec(path: Seq<char>) -> Option<Seq<char>> {
    if paths_equal_spec(path, canonical_of(path)) {
        None
    } else {
        Some(canonical_of(path))
    }
}

/// Determines if a request with the given path should be redirected or not.
///
/// This is to allow consumers in a web router to redirect requests which are
/// not in Wikidot normal form.
///
/// This also redirects pages in the default category: `_default:page` will
/// be redirected to simply `page`.
///
/// It also decodes any percent codes within the string.
pub fn redirect(path: &str) -> (r: Option<String>)
    ensures
        match r {
            None => redirect_spec(path@) is None,
            Some(q) => redirect_spec(path@) == Some(q@) && q@.len() >= 1 && q@[0] == '/'
                && !starts_with_default_marker(q@.skip(1)),
        },
{
    // Perform percent decoding.
    let decoded = percent_decode_lossy(path);

    // Normalize path.
    let normalized = normalize_path(decoded);

    // The default category is implicit, so its marker never appears in a
    // canonical path.
    let stripped = strip_default_category(normalized);

    // Ensure path begins with /.
    let canonical = ensure_leading_slash(stripped);
    proof {
        assert(canonical@.len() >= 1);
        // The normalizer's output holds no slash and no marker, so the strip
        // was a no-op and the canonical path is exactly a slash before it.
        assert(stripped@ == normalized@);
        if normalized@.len() > 0 {
            assert(normalized@[0] != '/');
        }
        assert(canonical@ =~= seq!['/'] + normalized@);
        assert(canonical@.skip(1) =~= normalized@);
    }

    if paths_equal(path, canonical.as_str()) {
        None
    } else {
        Some(canonical)
    }
}

/// Redirection is idempotent: a path that `redirect` hands out needs no
/// further redirect. The canonical form rests on the outside normalizer, so
/// this holds of every returned path on which canonicalisation is stable
/// (`canonical_of(q) == q`); nothing proved here can speak to the others.
pub proof fn lemma_redirect_idempotent(p: Seq<char>, q: Seq<char>)
    requires
        redirect_spec(p) == Some(q),
        canonical_of(q) == q,
    ensures
        redirect_spec(q) is None,
{
    assert(q == canonical_of(p));
    let s = strip_default_spec(normal_of(decoded_of(p)));
    if s.len() > 0 && s[0] == '/' {
        assert(q[0] == '/');
    } else {
        assert(q == seq!['/'] + s);
        assert(q[0] == '/');
    }
    assert(paths_equal_spec(q, canonical_of(q)));
}

} // verus!
