//! Requests with a full category chain.
//!
//! The first path segment is split on `:` into the category chain (all but
//! the last piece, outermost first) and the slug (the last piece); the
//! remaining segments resolve into the argument map without a schema.

use crate::keymap::KeyMap;
use crate::numbers::{i32_literal_value, is_i32_literal, lemma_i32_literal_value_in_range,
    parse_i32};
use crate::segments::{lemma_split_chars_len, split_chars, split_str, str_eq, strip_leading_slash,
    strip_slash};
use crate::value::{ascii_caseless_eq, coerce_chars, str_eq_ignore_ascii_case, SpecValue};
use vstd::prelude::*;

verus! {

/// A value for a request argument; the boolean names match ignoring ASCII
/// case, as in [`crate::value`].
#[derive(Debug, Copy, Clone, Eq)]
pub enum Value<'a> {
    /// A string argument value.
    String(&'a str),
    /// An integer argument value.
    Integer(i32),
    /// A boolean argument value.
    Boolean(bool),
    /// No value explicitly passed for this argument.
    Null,
}

impl<'a> View for Value<'a> {
    type V = SpecValue;

    open spec fn view(&self) -> SpecValue {
        match self {
            Value::String(s) => SpecValue::Str(s@),
            Value::Integer(n) => SpecValue::Int(*n as int),
            Value::Boolean(b) => SpecValue::Bool(*b),
            Value::Null => SpecValue::Null,
        }
    }
}

impl<'a> PartialEq for Value<'a> {
    fn eq(&self, other: &Self) -> (r: bool) {
        match (self, other) {
            (Value::String(a), Value::String(b)) => str_eq(a, b),
            (Value::Integer(a), Value::Integer(b)) => a == b,
            (Value::Boolean(a), Value::Boolean(b)) => a == b,
            (Value::Null, Value::Null) => true,
            _ => false,
        }
    }
}

impl<'a> vstd::std_specs::cmp::PartialEqSpecImpl for Value<'a> {
    open spec fn obeys_eq_spec() -> bool {
        true
    }

    open spec fn eq_spec(&self, other: &Self) -> bool {
        self@ == other@
    }
}

/// The value that `From<&str>` yields for `v`, as a function of the slice:
/// the boolean names match ignoring ASCII case, as in [`crate::value`].
pub open spec fn plain_value_from_str<'a>(v: &'a str) -> Value<'a> {
    if v@.len() == 0 {
        Value::Null
    } else if ascii_caseless_eq(v@, "t"@) || ascii_caseless_eq(v@, "true"@) {
        Value::Boolean(true)
    } else if ascii_caseless_eq(v@, "f"@) || ascii_caseless_eq(v@, "false"@) {
        Value::Boolean(false)
    } else if is_i32_literal(v@) {
        Value::Integer(i32_literal_value(v@) as i32)
    } else {
        Value::String(v)
    }
}

/// The coercion agrees with the model: the view of the coerced value is
/// `coerce_chars` of the view of the input.
pub proof fn lemma_plain_value_from_str_view(v: &str)
    ensures
        plain_value_from_str(v)@ == coerce_chars(v@),
{
    if is_i32_literal(v@) {
        lemma_i32_literal_value_in_range(v@);
    }
}

impl<'a> From<&'a str> for Value<'a> {
    fn from(value: &'a str) -> (r: Self) {
        if value.is_empty() {
            Value::Null
        } else if str_eq_ignore_ascii_case(value, "t") || str_eq_ignore_ascii_case(
            value,
            "true",
        ) {
            Value::Boolean(true)
        } else if str_eq_ignore_ascii_case(value, "f") || str_eq_ignore_ascii_case(
            value,
            "false",
        ) {
            Value::Boolean(false)
        } else {
            match parse_i32(value) {
                Some(n) => Value::Integer(n),
                None => Value::String(value),
            }
        }
    }
}

impl<'a> vstd::std_specs::convert::FromSpecImpl<&'a str> for Value<'a> {
    open spec fn obeys_from_spec() -> bool {
        true
    }

    open spec fn from_spec(v: &'a str) -> Self {
        plain_value_from_str(v)
    }
}

impl<'a> From<Option<&'a str>> for Value<'a> {
    fn from(value: Option<&'a str>) -> (r: Self) {
        match value {
            Some(value) => Value::from(value),
            None => Value::Null,
        }
    }
}

impl<'a> vstd::std_specs::convert::FromSpecImpl<Option<&'a str>> for Value<'a> {
    open spec fn obeys_from_spec() -> bool {
        true
    }

    open spec fn from_spec(v: Option<&'a str>) -> Self {
        match v {
            Some(v) => plain_value_from_str(v),
            None => Value::Null,
        }
    }
}

impl From<bool> for Value<'_> {
    fn from(value: bool) -> (r: Self) {
        Value::Boolean(value)
    }
}

impl vstd::std_specs::convert::FromSpecImpl<bool> for Value<'_> {
    open spec fn obeys_from_spec() -> bool {
        true
    }

    open spec fn from_spec(v: bool) -> Self {
        Value::Boolean(v)
    }
}

impl From<i32> for Value<'_> {
    fn from(value: i32) -> (r: Self) {
        Value::Integer(value)
    }
}

impl vstd::std_specs::convert::FromSpecImpl<i32> for Value<'_> {
    open spec fn obeys_from_spec() -> bool {
        true
    }

    open spec fn from_spec(v: i32) -> Self {
        Value::Integer(v)
    }
}

impl From<()> for Value<'_> {
    fn from(_value: ()) -> (r: Self) {
        Value::Null
    }
}

impl vstd::std_specs::convert::FromSpecImpl<()> for Value<'_> {
    open spec fn obeys_from_spec() -> bool {
        true
    }

    open spec fn from_spec(v: ()) -> Self {
        Value::Null
    }
}

/// A key segment that can never begin a pair: empty, or a bare boolean
/// literal left over from an earlier pair.
pub open spec fn skip_token_plain(s: Seq<char>) -> bool {
    s.len() == 0 || s == "true"@ || s == "false"@
}

/// The argument map resolved from `segs`, walking left to right: each key
/// takes the following segment as its value (absent means `Null`), and a
/// later occurrence of a key overrides an earlier one.
pub open spec fn resolve_plain(segs: Seq<Seq<char>>, acc: Map<Seq<char>, SpecValue>) -> Map<
    Seq<char>,
    SpecValue,
>
    decreases segs.len(),
{
    if segs.len() == 0 {
        acc
    } else if skip_token_plain(segs[0]) {
        resolve_plain(segs.skip(1), acc)
    } else if segs.len() == 1 {
        acc.insert(segs[0], SpecValue::Null)
    } else {
        resolve_plain(segs.skip(2), acc.insert(segs[0], coerce_chars(segs[1])))
    }
}

/// The mathematical model of a parsed request.
pub ghost struct SpecRequest {
    /// The page slug.
    pub slug: Seq<char>,
    /// The category chain, outermost first.
    pub categories: Seq<Seq<char>>,
    /// The resolved argument map.
    pub arguments: Map<Seq<char>, SpecValue>,
}

/// The request denoted by `path`: the first segment splits on `:` into the
/// category chain and the slug, and the remaining segments resolve into the
/// argument map.
pub open spec fn request_spec(path: Seq<char>) -> SpecRequest {
    let segs = split_chars(strip_leading_slash(path), '/');
    let colon = split_chars(segs[0], ':');
    SpecRequest {
        slug: colon.last(),
        categories: colon.drop_last(),
        arguments: resolve_plain(segs.skip(1), Map::<Seq<char>, SpecValue>::empty()),
    }
}

/// Represents a request for a page.
#[derive(Debug, Clone)]
pub struct Request<'a> {
    /// The page slug: the last `:`-piece of the first path segment.
    pub slug: &'a str,
    /// The category chain preceding the slug, outermost first.
    pub categories: Vec<&'a str>,
    /// The arguments passed with the request.
    pub arguments: KeyMap<'a, Value<'a>>,
}

impl<'a> View for Request<'a> {
    type V = SpecRequest;

    open spec fn view(&self) -> SpecRequest {
        SpecRequest {
            slug: self.slug@,
            categories: self.categories.deep_view(),
            arguments: self.arguments@,
        }
    }
}

/// Parsing is deterministic: one path denotes one request, so any two
/// results of parsing the same path are identical.
pub proof fn lemma_parse_deterministic(path: Seq<char>, r1: SpecRequest, r2: SpecRequest)
    requires
        r1 == request_spec(path),
        r2 == request_spec(path),
    ensures
        r1 == r2,
{
}

impl<'a> Request<'a> {
    /// Parses a path to extract the slug, categories, and arguments.
    /// Makes a best-effort match if the path is not in normal form.
    pub fn parse(path: &'a str) -> (r: Self)
        ensures
            r@ == request_spec(path@),
            r.arguments.wf(),
    {
        let stripped = strip_slash(path);
        let segs = split_str(stripped, '/');
        let ghost all = split_chars(strip_leading_slash(path@), '/');
        proof {
            lemma_split_chars_len(strip_leading_slash(path@), '/');
        }

        // The first segment carries the categories and the slug.
        let slug_part = segs[0];
        let mut categories = split_str(slug_part, ':');
        proof {
            lemma_split_chars_len(slug_part@, ':');
        }
        let slug = match categories.pop() {
            Some(slug) => slug,
            None => {
                proof {
                    assert(false);
                }
                ""
            },
        };
        proof {
            assert(categories.deep_view() =~= split_chars(all[0], ':').drop_last());
        }

        // Parse out Wikidot arguments.
        //
        // This algorithm is compatible with the /KEY/true format,
        // but also allowing the more sensible /KEY for options
        // where a 'false' value doesn't make sense, like 'norender' or 'edit'.
        let mut arguments: KeyMap<'a, Value<'a>> = KeyMap::new();
        let mut i: usize = 1;
        let n = segs.len();
        let ghost target = request_spec(path@).arguments;
        proof {
            assert(all.skip(1) =~= segs.deep_view().skip(1));
        }
        while i < n
            invariant
                1 <= i <= n,
                n == segs@.len(),
                segs.deep_view() == all,
                arguments.wf(),
                resolve_plain(all.skip(i as int), arguments@) == target,
            decreases n - i,
        {
            let ghost rest = all.skip(i as int);
            proof {
                assert(rest[0] == all[i as int]);
                assert(rest.skip(1) =~= all.skip(i + 1));
            }
            let key = segs[i];
            if !(key.is_empty() || str_eq(key, "true") || str_eq(key, "false")) {
                if i + 1 < n {
                    let value = Value::from(segs[i + 1]);
                    arguments.insert(key, value);
                    proof {
                        lemma_plain_value_from_str_view(segs@[i + 1]);
                        assert(rest[1] == all[i + 1]);
                        assert(rest.skip(2) =~= all.skip(i + 2));
                    }
                    i += 2;
                } else {
                    arguments.insert(key, Value::Null);
                    i += 1;
                }
            } else {
                i += 1;
            }
        }
        proof {
            assert(all.skip(n as int) =~= Seq::<Seq<char>>::empty());
        }

        Request { slug, categories, arguments }
    }
}

} // verus!
