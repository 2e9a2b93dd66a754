//! Requests with a single category.
//!
//! Here the first path segment splits at its *first* `:` alone: the piece
//! before it is the category (`_default` when there is none) and everything
//! after it, further colons included, is the slug.

use crate::keymap::KeyMap;
use crate::numbers::{i32_literal_value, is_i32_literal, lemma_i32_literal_value_in_range,
    parse_i32};
use crate::segments::{lemma_split_chars_len, split_chars, split_str, str_eq, strip_leading_slash,
    strip_slash};
use crate::value::{ascii_caseless_eq, coerce_chars, str_eq_ignore_ascii_case, SpecValue};
use vstd::prelude::*;

verus! {

/// A type for possible values an argument key could have.
///
/// Those consuming values should attempt to be flexible when accepting
/// values. For instance a truthy key should accept `1`, `true`, and `Null`
/// (as it indicates that the key is present at all) as meaning "true".
#[derive(Debug, Copy, Clone, Eq)]
pub enum ArgumentValue<'a> {
    /// A string argument value.
    String(&'a str),
    /// An integer argument value.
    Integer(i32),
    /// A boolean argument value.
    Boolean(bool),
    /// No value explicitly passed for this argument.
    /// It notes that the key was included in the mapping.
    Null,
}

impl<'a> View for ArgumentValue<'a> {
    type V = SpecValue;

    open spec fn view(&self) -> SpecValue {
        match self {
            ArgumentValue::String(s) => SpecValue::Str(s@),
            ArgumentValue::Integer(n) => SpecValue::Int(*n as int),
            ArgumentValue::Boolean(b) => SpecValue::Bool(*b),
            ArgumentValue::Null => SpecValue::Null,
        }
    }
}

impl<'a> PartialEq for ArgumentValue<'a> {
    fn eq(&self, other: &Self) -> (r: bool) {
        match (self, other) {
            (ArgumentValue::String(a), ArgumentValue::String(b)) => str_eq(a, b),
            (ArgumentValue::Integer(a), ArgumentValue::Integer(b)) => a == b,
            (ArgumentValue::Boolean(a), ArgumentValue::Boolean(b)) => a == b,
            (ArgumentValue::Null, ArgumentValue::Null) => true,
            _ => false,
        }
    }
}

impl<'a> vstd::std_specs::cmp::PartialEqSpecImpl for ArgumentValue<'a> {
    open spec fn obeys_eq_spec() -> bool {
        true
    }

    open spec fn eq_spec(&self, other: &Self) -> bool {
        self@ == other@
    }
}

/// The value that `From<&str>` yields for `v`, as a function of the slice:
/// the boolean names match ignoring ASCII case, as in [`crate::value`].
pub open spec fn argument_value_from_str<'a>(v: &'a str) -> ArgumentValue<'a> {
    if v@.len() == 0 {
        ArgumentValue::Null
    } else if ascii_caseless_eq(v@, "t"@) || ascii_caseless_eq(v@, "true"@) {
        ArgumentValue::Boolean(true)
    } else if ascii_caseless_eq(v@, "f"@) || ascii_caseless_eq(v@, "false"@) {
        ArgumentValue::Boolean(false)
    } else if is_i32_literal(v@) {
        ArgumentValue::Integer(i32_literal_value(v@) as i32)
    } else {
        ArgumentValue::String(v)
    }
}

/// The coercion agrees with the model: the view of the coerced value is
/// `coerce_chars` of the view of the input.
pub proof fn lemma_argument_value_from_str_view(v: &str)
    ensures
        argument_value_from_str(v)@ == coerce_chars(v@),
{
    if is_i32_literal(v@) {
        lemma_i32_literal_value_in_range(v@);
    }
}

impl<'a> From<&'a str> for ArgumentValue<'a> {
    fn from(value: &'a str) -> (r: Self) {
        if value.is_empty() {
            ArgumentValue::Null
        } else if str_eq_ignore_ascii_case(value, "t") || str_eq_ignore_ascii_case(
            value,
            "true",
        ) {
            ArgumentValue::Boolean(true)
        } else if str_eq_ignore_ascii_case(value, "f") || str_eq_ignore_ascii_case(
            value,
            "false",
        ) {
            ArgumentValue::Boolean(false)
        } else {
            match parse_i32(value) {
                Some(n) => ArgumentValue::Integer(n),
                None => ArgumentValue::String(value),
            }
        }
    }
}

impl<'a> vstd::std_specs::convert::FromSpecImpl<&'a str> for ArgumentValue<'a> {
    open spec fn obeys_from_spec() -> bool {
        true
    }

    open spec fn from_spec(v: &'a str) -> Self {
        argument_value_from_str(v)
    }
}

impl<'a> From<Option<&'a str>> for ArgumentValue<'a> {
    fn from(value: Option<&'a str>) -> (r: Self) {
        match value {
            Some(value) => ArgumentValue::from(value),
            None => ArgumentValue::Null,
        }
    }
}

impl<'a> vstd::std_specs::convert::FromSpecImpl<Option<&'a str>> for ArgumentValue<'a> {
    open spec fn obeys_from_spec() -> bool {
        true
    }

    open spec fn from_spec(v: Option<&'a str>) -> Self {
        match v {
            Some(v) => argument_value_from_str(v),
            None => ArgumentValue::Null,
        }
    }
}

impl From<bool> for ArgumentValue<'_> {
    fn from(value: bool) -> (r: Self) {
        ArgumentValue::Boolean(value)
    }
}

impl vstd::std_specs::convert::FromSpecImpl<bool> for ArgumentValue<'_> {
    open spec fn obeys_from_spec() -> bool {
        true
    }

    open spec fn from_spec(v: bool) -> Self {
        ArgumentValue::Boolean(v)
    }
}

impl From<i32> for ArgumentValue<'_> {
    fn from(value: i32) -> (r: Self) {
        ArgumentValue::Integer(value)
    }
}

impl vstd::std_specs::convert::FromSpecImpl<i32> for ArgumentValue<'_> {
    open spec fn obeys_from_spec() -> bool {
        true
    }

    open spec fn from_spec(v: i32) -> Self {
        ArgumentValue::Integer(v)
    }
}

impl From<()> for ArgumentValue<'_> {
    fn from(_value: ()) -> (r: Self) {
        ArgumentValue::Null
    }
}

impl vstd::std_specs::convert::FromSpecImpl<()> for ArgumentValue<'_> {
    open spec fn obeys_from_spec() -> bool {
        true
    }

    open spec fn from_spec(v: ()) -> Self {
        ArgumentValue::Null
    }
}

/// `s` holds `c` somewhere.
pub open spec fn has_char(s: Seq<char>, c: char) -> bool {
    exists|i: int| 0 <= i < s.len() && s[i] == c
}

/// The index of the first occurrence of `c` in `s` (meaningful only when
/// `has_char(s, c)` holds).
pub open spec fn first_char_index(s: Seq<char>, c: char) -> int {
    choose|i: int|
        0 <= i < s.len() && s[i] == c && (forall|j: int| 0 <= j < i ==> s[j] != c)
}

/// Finds the first occurrence of `c` in `s`.
fn find_char(s: &str, c: char) -> (r: Option<usize>)
    ensures
        match r {
            Some(i) => i < s@.len() && s@[i as int] == c && (forall|j: int|
                0 <= j < i ==> s@[j] != c) && has_char(s@, c) && first_char_index(s@, c)
                == i,
            None => !has_char(s@, c),
        },
{
    let n = s.unicode_len();
    let mut i: usize = 0;
    while i < n
        invariant
            i <= n,
            n == s@.len(),
            forall|j: int| 0 <= j < i ==> s@[j] != c,
        decreases n - i,
    {
        if s.get_char(i) == c {
            proof {
                assert(s@[i as int] == c);
                let k = first_char_index(s@, c);
                assert(0 <= k < s@.len() && s@[k] == c && (forall|j: int|
                    0 <= j < k ==> s@[j] != c));
                assert(k == i);
            }
            return Some(i);
        }
        i += 1;
    }
    None
}

/// A key segment that can never begin a pair: empty, or a bare boolean
/// literal left over from an earlier pair.
pub open spec fn skip_token_exact(s: Seq<char>) -> bool {
    s.len() == 0 || s == "true"@ || s == "false"@
}

/// The argument map resolved from `segs`, walking left to right: each key
/// takes the following segment as its value (absent means `Null`), and a
/// later occurrence of a key overrides an earlier one.
pub open spec fn resolve_arguments(segs: Seq<Seq<char>>, acc: Map<Seq<char>, SpecValue>) -> Map<
    Seq<char>,
    SpecValue,
>
    decreases segs.len(),
{
    if segs.len() == 0 {
        acc
    } else if skip_token_exact(segs[0]) {
        resolve_arguments(segs.skip(1), acc)
    } else if segs.len() == 1 {
        acc.insert(segs[0], SpecValue::Null)
    } else {
        resolve_arguments(segs.skip(2), acc.insert(segs[0], coerce_chars(segs[1])))
    }
}

/// The mathematical model of a parsed request.
pub ghost struct SpecRequest {
    /// The page slug, colons after the first one included.
    pub slug: Seq<char>,
    /// The single category before the first colon, or `_default`.
    pub category: Seq<char>,
    /// The resolved argument map.
    pub arguments: Map<Seq<char>, SpecValue>,
}

/// The request denoted by `path`: the first segment splits at its first `:`
/// into category and slug, and the remaining segments resolve into the
/// argument map.
pub open spec fn request_spec(path: Seq<char>) -> SpecRequest {
    let segs = split_chars(strip_leading_slash(path), '/');
    let first = segs[0];
    SpecRequest {
        slug: if has_char(first, ':') {
            first.skip(first_char_index(first, ':') + 1)
        } else {
            first
        },
        category: if has_char(first, ':') {
            first.take(first_char_index(first, ':'))
        } else {
            "_default"@
        },
        arguments: resolve_arguments(segs.skip(1), Map::<Seq<char>, SpecValue>::empty()),
    }
}

/// Parsing is deterministic: one path denotes one request, so any two
/// results of parsing the same path are identical.
pub proof fn lemma_parse_deterministic(path: Seq<char>, r1: SpecRequest, r2: SpecRequest)
    requires
        r1 == request_spec(path),
        r2 == request_spec(path),
    ensures
        r1 == r2,
{
}

/// Represents a request for a page.
#[derive(Debug, Clone)]
pub struct Request<'a> {
    /// The slug, or URL identifier of a page.
    ///
    /// For instance, `scp-1000` or `recent-changes`.
    pub slug: &'a str,
    /// The category that this page appears in.
    /// If in the default category, then this string is `_default`.
    pub category: &'a str,
    /// What arguments were passed into the request.
    /// A mapping of key to value.
    pub arguments: KeyMap<'a, ArgumentValue<'a>>,
}

impl<'a> View for Request<'a> {
    type V = SpecRequest;

    open spec fn view(&self) -> SpecRequest {
        SpecRequest {
            slug: self.slug@,
            category: self.category@,
            arguments: self.arguments@,
        }
    }
}

impl<'a> Request<'a> {
    /// Parses a path to extract the slug, category, and arguments.
    /// Makes a best-effort match if the path is not in normal form.
    pub fn parse(path: &'a str) -> (r: Self)
        ensures
            r@ == request_spec(path@),
            r.arguments.wf(),
    {
        let stripped = strip_slash(path);
        let segs = split_str(stripped, '/');
        let ghost all = split_chars(strip_leading_slash(path@), '/');
        proof {
            lemma_split_chars_len(strip_leading_slash(path@), '/');
        }

        // The first segment carries the category and the slug.
        let first = segs[0];
        let n1 = first.unicode_len();
        let (slug, category) = match find_char(first, ':') {
            // We can't use .split_at() because we want to
            // exclude the ':' from appearing in the string.
            Some(idx) => {
                let slug = first.substring_char(idx + 1, n1);
                let category = first.substring_char(0, idx);
                proof {
                    assert(slug@ =~= all[0].skip(first_char_index(all[0], ':') + 1));
                    assert(category@ =~= all[0].take(first_char_index(all[0], ':')));
                }
                (slug, category)
            },
            None => (first, "_default"),
        };

        // Parse out Wikidot arguments.
        //
        // This algorithm is compatible with the /KEY/true format,
        // but also allowing the more sensible /KEY for options
        // where a 'false' value doesn't make sense, like 'norender' or 'edit'.
        //
        // If there are duplicate keys, the most recent one takes precedence.
        let mut arguments: KeyMap<'a, ArgumentValue<'a>> = KeyMap::new();
        let mut i: usize = 1;
        let n = segs.len();
        let ghost target = request_spec(path@).arguments;
        proof {
            assert(all.skip(1) =~= segs.deep_view().skip(1));
        }
        while i < n
            invariant
                1 <= i <= n,
                n == segs@.len(),
                segs.deep_view() == all,
                arguments.wf(),
                resolve_arguments(all.skip(i as int), arguments@) == target,
            decreases n - i,
        {
            let ghost rest = all.skip(i as int);
            proof {
                assert(rest[0] == all[i as int]);
                assert(rest.skip(1) =~= all.skip(i + 1));
            }
            let key = segs[i];
            if !(key.is_empty() || str_eq(key, "true") || str_eq(key, "false")) {
                if i + 1 < n {
                    let value = ArgumentValue::from(segs[i + 1]);
                    arguments.insert(key, value);
                    proof {
                        lemma_argument_value_from_str_view(segs@[i + 1]);
                        assert(rest[1] == all[i + 1]);
                        assert(rest.skip(2) =~= all.skip(i + 2));
                    }
                    i += 2;
                } else {
                    arguments.insert(key, ArgumentValue::Null);
                    i += 1;
                }
            } else {
                i += 1;
            }
        }
        proof {
            assert(all.skip(n as int) =~= Seq::<Seq<char>>::empty());
        }

        Request { slug, category, arguments }
    }
}

} // verus!
