//! Schema-less page options.
//!
//! Within a Wikidot-compatible URL, the options are the optional portion
//! *after* a slug. For example:
//!
//! * `/scp-1000` -- no page options.
//! * `/scp-1000/noredirect/true` -- page options are `/noredirect/true`.
//!
//! With no schema to consult, a bare `true` or `false` segment can never
//! begin a key-value pair (it is taken for an orphaned value) and is skipped.

use crate::keymap::KeyMap;
use crate::numbers::{i32_literal_value, is_i32_literal, lemma_i32_literal_value_in_range,
    parse_i32};
use crate::segments::{split_chars, split_str, str_eq, strip_leading_slash, strip_slash};
use crate::value::{ascii_caseless_eq, coerce_chars, str_eq_ignore_ascii_case, SpecValue};
use vstd::prelude::*;

verus! {

/// A type for possible values an argument key could have.
///
/// Those consuming values should attempt to be flexible when accepting
/// values. For instance a truthy key should accept `1`, `true`, and `Null`
/// (as it indicates that the key is present at all) as meaning "true".
#[derive(Debug, Copy, Clone, Eq)]
pub enum ArgumentValue<'a> {
    /// A string argument value.
    String(&'a str),
    /// An integer argument value.
    Integer(i32),
    /// A boolean argument value.
    Boolean(bool),
    /// No value explicitly passed for this argument.
    /// It notes that the key was included in the mapping.
    Null,
}

impl<'a> View for ArgumentValue<'a> {
    type V = SpecValue;

    open spec fn view(&self) -> SpecValue {
        match self {
            ArgumentValue::String(s) => SpecValue::Str(s@),
            ArgumentValue::Integer(n) => SpecValue::Int(*n as int),
            ArgumentValue::Boolean(b) => SpecValue::Bool(*b),
            ArgumentValue::Null => SpecValue::Null,
        }
    }
}

impl<'a> PartialEq for ArgumentValue<'a> {
    fn eq(&self, other: &Self) -> (r: bool) {
        match (self, other) {
            (ArgumentValue::String(a), ArgumentValue::String(b)) => str_eq(a, b),
            (ArgumentValue::Integer(a), ArgumentValue::Integer(b)) => a == b,
            (ArgumentValue::Boolean(a), ArgumentValue::Boolean(b)) => a == b,
            (ArgumentValue::Null, ArgumentValue::Null) => true,
            _ => false,
        }
    }
}

impl<'a> vstd::std_specs::cmp::PartialEqSpecImpl for ArgumentValue<'a> {
    open spec fn obeys_eq_spec() -> bool {
        true
    }

    open spec fn eq_spec(&self, other: &Self) -> bool {
        self@ == other@
    }
}

/// The value that `From<&str>` yields for `v`, as a function of the slice:
/// the boolean names match ignoring ASCII case, as in [`crate::value`].
pub open spec fn option_value_from_str<'a>(v: &'a str) -> ArgumentValue<'a> {
    if v@.len() == 0 {
        ArgumentValue::Null
    } else if ascii_caseless_eq(v@, "t"@) || ascii_caseless_eq(v@, "true"@) {
        ArgumentValue::Boolean(true)
    } else if ascii_caseless_eq(v@, "f"@) || ascii_caseless_eq(v@, "false"@) {
        ArgumentValue::Boolean(false)
    } else if is_i32_literal(v@) {
        ArgumentValue::Integer(i32_literal_value(v@) as i32)
    } else {
        ArgumentValue::String(v)
    }
}

/// The coercion agrees with the model: the view of the coerced value is
/// `coerce_chars` of the view of the input.
pub proof fn lemma_option_value_from_str_view(v: &str)
    ensures
        option_value_from_str(v)@ == coerce_chars(v@),
{
    if is_i32_literal(v@) {
        lemma_i32_literal_value_in_range(v@);
    }
}

impl<'a> From<&'a str> for ArgumentValue<'a> {
    fn from(value: &'a str) -> (r: Self) {
        if value.is_empty() {
            ArgumentValue::Null
        } else if str_eq_ignore_ascii_case(value, "t") || str_eq_ignore_ascii_case(
            value,
            "true",
        ) {
            ArgumentValue::Boolean(true)
        } else if str_eq_ignore_ascii_case(value, "f") || str_eq_ignore_ascii_case(
            value,
            "false",
        ) {
            ArgumentValue::Boolean(false)
        } else {
            match parse_i32(value) {
                Some(n) => ArgumentValue::Integer(n),
                None => ArgumentValue::String(value),
            }
        }
    }
}

impl<'a> vstd::std_specs::convert::FromSpecImpl<&'a str> for ArgumentValue<'a> {
    open spec fn obeys_from_spec() -> bool {
        true
    }

    open spec fn from_spec(v: &'a str) -> Self {
        option_value_from_str(v)
    }
}

impl<'a> From<Option<&'a str>> for ArgumentValue<'a> {
    fn from(value: Option<&'a str>) -> (r: Self) {
        match value {
            Some(value) => ArgumentValue::from(value),
            None => ArgumentValue::Null,
        }
    }
}

impl<'a> vstd::std_specs::convert::FromSpecImpl<Option<&'a str>> for ArgumentValue<'a> {
    open spec fn obeys_from_spec() -> bool {
        true
    }

    open spec fn from_spec(v: Option<&'a str>) -> Self {
        match v {
            Some(v) => option_value_from_str(v),
            None => ArgumentValue::Null,
        }
    }
}

impl From<bool> for ArgumentValue<'_> {
    fn from(value: bool) -> (r: Self) {
        ArgumentValue::Boolean(value)
    }
}

impl vstd::std_specs::convert::FromSpecImpl<bool> for ArgumentValue<'_> {
    open spec fn obeys_from_spec() -> bool {
        true
    }

    open spec fn from_spec(v: bool) -> Self {
        ArgumentValue::Boolean(v)
    }
}

impl From<i32> for ArgumentValue<'_> {
    fn from(value: i32) -> (r: Self) {
        ArgumentValue::Integer(value)
    }
}

impl vstd::std_specs::convert::FromSpecImpl<i32> for ArgumentValue<'_> {
    open spec fn obeys_from_spec() -> bool {
        true
    }

    open spec fn from_spec(v: i32) -> Self {
        ArgumentValue::Integer(v)
    }
}

impl From<()> for ArgumentValue<'_> {
    fn from(_value: ()) -> (r: Self) {
        ArgumentValue::Null
    }
}

impl vstd::std_specs::convert::FromSpecImpl<()> for ArgumentValue<'_> {
    open spec fn obeys_from_spec() -> bool {
        true
    }

    open spec fn from_spec(v: ()) -> Self {
        ArgumentValue::Null
    }
}

/// A key segment that can never begin a pair: empty, or a bare boolean
/// literal left over from an earlier pair.
pub open spec fn skip_token(s: Seq<char>) -> bool {
    s.len() == 0 || s == "true"@ || s == "false"@
}

/// The argument map resolved from `segs`, walking left to right: each key
/// takes the following segment as its value (absent means `Null`), and a
/// later occurrence of a key overrides an earlier one.
pub open spec fn resolve_options(segs: Seq<Seq<char>>, acc: Map<Seq<char>, SpecValue>) -> Map<
    Seq<char>,
    SpecValue,
>
    decreases segs.len(),
{
    if segs.len() == 0 {
        acc
    } else if skip_token(segs[0]) {
        resolve_options(segs.skip(1), acc)
    } else if segs.len() == 1 {
        acc.insert(segs[0], SpecValue::Null)
    } else {
        resolve_options(segs.skip(2), acc.insert(segs[0], coerce_chars(segs[1])))
    }
}

/// The options parsed from `path`: its segments after an optional leading
/// slash, resolved into a key-value map.
pub open spec fn page_options_map(path: Seq<char>) -> Map<Seq<char>, SpecValue> {
    resolve_options(
        split_chars(strip_leading_slash(path), '/'),
        Map::<Seq<char>, SpecValue>::empty(),
    )
}

/// Represents the set of options for a page.
///
/// When passed as a string input, the leading `/` character is optional.
#[derive(Debug, Clone)]
pub struct PageOptions<'a>(pub KeyMap<'a, ArgumentValue<'a>>);

impl<'a> View for PageOptions<'a> {
    type V = Map<Seq<char>, SpecValue>;

    open spec fn view(&self) -> Map<Seq<char>, SpecValue> {
        self.0@
    }
}

impl<'a> PageOptions<'a> {
    /// Parse out Wikidot options.
    ///
    /// This algorithm is compatible with the `/KEY/true` format,
    /// but also allows a lone `/KEY` for options which are "innately valued",
    /// such as `norender` or `edit`, where adding a `/true` is not very useful.
    ///
    /// If there are duplicate keys, the most recent one takes precedence.
    pub fn parse(path: &'a str) -> (r: Self)
        ensures
            r@ == page_options_map(path@),
            r.0.wf(),
    {
        let stripped = strip_slash(path);
        let segs = split_str(stripped, '/');
        let ghost all = split_chars(strip_leading_slash(path@), '/');
        let mut arguments: KeyMap<'a, ArgumentValue<'a>> = KeyMap::new();
        let mut i: usize = 0;
        let n = segs.len();
        proof {
            assert(all.skip(0) =~= all);
        }
        while i < n
            invariant
                i <= n,
                n == segs@.len(),
                segs.deep_view() == all,
                arguments.wf(),
                resolve_options(all.skip(i as int), arguments@) == page_options_map(path@),
            decreases n - i,
        {
            let ghost rest = all.skip(i as int);
            proof {
                assert(rest[0] == all[i as int]);
                assert(rest.skip(1) =~= all.skip(i + 1));
            }
            let key = segs[i];
            if !(key.is_empty() || str_eq(key, "true") || str_eq(key, "false")) {
                if i + 1 < n {
                    let value = ArgumentValue::from(segs[i + 1]);
                    arguments.insert(key, value);
                    proof {
                        lemma_option_value_from_str_view(segs@[i + 1]);
                        assert(rest[1] == all[i + 1]);
                        assert(rest.skip(2) =~= all.skip(i + 2));
                    }
                    i += 2;
                } else {
                    arguments.insert(key, ArgumentValue::Null);
                    i += 1;
                }
            } else {
                i += 1;
            }
        }
        proof {
            assert(all.skip(n as int) =~= Seq::<Seq<char>>::empty());
        }
        PageOptions(arguments)
    }
}

} // verus!
