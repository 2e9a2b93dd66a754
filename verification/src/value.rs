//! Typed argument values and the literal-to-value coercion.
//!
//! An argument value is `Null`, a boolean, a 32-bit integer, or the raw
//! string. Coercion is total: every string maps to exactly one value, with
//! the boolean names matched ignoring ASCII case and anything unrecognised
//! falling through to a verbatim string.

use crate::numbers::{i32_literal_value, is_i32_literal, lemma_i32_literal_value_in_range, parse_i32};
use vstd::prelude::*;

verus! {

/// The mathematical model of an argument value.
pub ghost enum SpecValue {
    /// A verbatim string value.
    Str(Seq<char>),
    /// A base-10 signed 32-bit integer value.
    Int(int),
    /// A boolean value.
    Bool(bool),
    /// No value.
    Null,
}

/// `a` and `b` are the same character up to ASCII case.
pub open spec fn ascii_eq_char(a: char, b: char) -> bool {
    ||| a == b
    ||| (65 <= a as u32 <= 90 && b as u32 == a as u32 + 32)
    ||| (65 <= b as u32 <= 90 && a as u32 == b as u32 + 32)
}

/// `a` and `b` are equal ignoring ASCII case.
pub open spec fn ascii_caseless_eq(a: Seq<char>, b: Seq<char>) -> bool {
    a.len() == b.len() && forall|i: int| 0 <= i < a.len() ==> ascii_eq_char(a[i], b[i])
}

/// Decides equality of two string slices ignoring ASCII case.
pub fn str_eq_ignore_ascii_case(a: &str, b: &str) -> (r: bool)
    ensures
        r == ascii_caseless_eq(a@, b@),
{
    let na = a.unicode_len();
    let nb = b.unicode_len();
    if na != nb {
        return false;
    }
    let mut i: usize = 0;
    while i < na
        invariant
            i <= na,
            na == a@.len(),
            na == b@.len(),
            forall|j: int| 0 <= j < i ==> ascii_eq_char(a@[j], b@[j]),
        decreases na - i,
    {
        let ca = a.get_char(i) as u32;
        let cb = b.get_char(i) as u32;
        let la = if 65 <= ca && ca <= 90 {
            ca + 32
        } else {
            ca
        };
        let lb = if 65 <= cb && cb <= 90 {
            cb + 32
        } else {
            cb
        };
        if la != lb {
            proof {
                assert(!ascii_eq_char(a@[i as int], b@[i as int]));
            }
            return false;
        }
        proof {
            assert(ascii_eq_char(a@[i as int], b@[i as int]));
        }
        i += 1;
    }
    true
}

/// A type for possible values an argument key could have.
///
/// Those consuming values should attempt to be flexible when accepting
/// values. For instance a truthy key should accept `1`, `true`, and `Null`
/// (as it indicates that the key is present at all) as meaning "true".
#[derive(Debug, Copy, Clone, Eq)]
pub enum ArgumentValue<'a> {
    /// A string argument value.
    String(&'a str),
    /// An integer argument value.
    Integer(i32),
    /// A boolean argument value.
    Boolean(bool),
    /// No value explicitly passed for this argument.
    /// It notes that the key was included in the mapping.
    Null,
}

impl<'a> View for ArgumentValue<'a> {
    type V = SpecValue;

    open spec fn view(&self) -> SpecValue {
        match self {
            ArgumentValue::String(s) => SpecValue::Str(s@),
            ArgumentValue::Integer(n) => SpecValue::Int(*n as int),
            ArgumentValue::Boolean(b) => SpecValue::Bool(*b),
            ArgumentValue::Null => SpecValue::Null,
        }
    }
}

impl<'a> PartialEq for ArgumentValue<'a> {
    fn eq(&self, other: &Self) -> (r: bool) {
        match (self, other) {
            (ArgumentValue::String(a), ArgumentValue::String(b)) => crate::segments::str_eq(
                a,
                b,
            ),
            (ArgumentValue::Integer(a), ArgumentValue::Integer(b)) => a == b,
            (ArgumentValue::Boolean(a), ArgumentValue::Boolean(b)) => a == b,
            (ArgumentValue::Null, ArgumentValue::Null) => true,
            _ => false,
        }
    }
}

impl<'a> vstd::std_specs::cmp::PartialEqSpecImpl for ArgumentValue<'a> {
    open spec fn obeys_eq_spec() -> bool {
        true
    }

    open spec fn eq_spec(&self, other: &Self) -> bool {
        self@ == other@
    }
}

/// What a string literal coerces to: the empty string is `Null`, the boolean
/// names (ignoring ASCII case) are booleans, an in-range integer literal is
/// an integer, and anything else is the string itself.
pub open spec fn coerce_chars(s: Seq<char>) -> SpecValue {
    if s.len() == 0 {
        SpecValue::Null
    } else if ascii_caseless_eq(s, "t"@) || ascii_caseless_eq(s, "true"@) {
        SpecValue::Bool(true)
    } else if ascii_caseless_eq(s, "f"@) || ascii_caseless_eq(s, "false"@) {
        SpecValue::Bool(false)
    } else if is_i32_literal(s) {
        SpecValue::Int(i32_literal_value(s))
    } else {
        SpecValue::Str(s)
    }
}

/// The value that `From<&str>` yields for `v`, as a function of the slice.
pub open spec fn value_from_str<'a>(v: &'a str) -> ArgumentValue<'a> {
    if v@.len() == 0 {
        ArgumentValue::Null
    } else if ascii_caseless_eq(v@, "t"@) || ascii_caseless_eq(v@, "true"@) {
        ArgumentValue::Boolean(true)
    } else if ascii_caseless_eq(v@, "f"@) || ascii_caseless_eq(v@, "false"@) {
        ArgumentValue::Boolean(false)
    } else if is_i32_literal(v@) {
        ArgumentValue::Integer(i32_literal_value(v@) as i32)
    } else {
        ArgumentValue::String(v)
    }
}

/// The coercion agrees with the model: the view of the coerced value is
/// `coerce_chars` of the view of the input.
pub proof fn lemma_value_from_str_view(v: &str)
    ensures
        value_from_str(v)@ == coerce_chars(v@),
{
    if is_i32_literal(v@) {
        lemma_i32_literal_value_in_range(v@);
    }
}

impl<'a> From<&'a str> for ArgumentValue<'a> {
    fn from(value: &'a str) -> (r: Self) {
        if value.is_empty() {
            ArgumentValue::Null
        } else if str_eq_ignore_ascii_case(value, "t") || str_eq_ignore_ascii_case(
            value,
            "true",
        ) {
            ArgumentValue::Boolean(true)
        } else if str_eq_ignore_ascii_case(value, "f") || str_eq_ignore_ascii_case(
            value,
            "false",
        ) {
            ArgumentValue::Boolean(false)
        } else {
            match parse_i32(value) {
                Some(n) => ArgumentValue::Integer(n),
                None => ArgumentValue::String(value),
            }
        }
    }
}

impl<'a> vstd::std_specs::convert::FromSpecImpl<&'a str> for ArgumentValue<'a> {
    open spec fn obeys_from_spec() -> bool {
        true
    }

    open spec fn from_spec(v: &'a str) -> Self {
        value_from_str(v)
    }
}

impl<'a> From<Option<&'a str>> for ArgumentValue<'a> {
    fn from(value: Option<&'a str>) -> (r: Self) {
        match value {
            Some(value) => ArgumentValue::from(value),
            None => ArgumentValue::Null,
        }
    }
}

impl<'a> vstd::std_specs::convert::FromSpecImpl<Option<&'a str>> for ArgumentValue<'a> {
    open spec fn obeys_from_spec() -> bool {
        true
    }

    open spec fn from_spec(v: Option<&'a str>) -> Self {
        match v {
            Some(v) => value_from_str(v),
            None => ArgumentValue::Null,
        }
    }
}

impl From<bool> for ArgumentValue<'_> {
    fn from(value: bool) -> (r: Self) {
        ArgumentValue::Boolean(value)
    }
}

impl vstd::std_specs::convert::FromSpecImpl<bool> for ArgumentValue<'_> {
    open spec fn obeys_from_spec() -> bool {
        true
    }

    open spec fn from_spec(v: bool) -> Self {
        ArgumentValue::Boolean(v)
    }
}

impl From<i32> for ArgumentValue<'_> {
    fn from(value: i32) -> (r: Self) {
        ArgumentValue::Integer(value)
    }
}

impl vstd::std_specs::convert::FromSpecImpl<i32> for ArgumentValue<'_> {
    open spec fn obeys_from_spec() -> bool {
        true
    }

    open spec fn from_spec(v: i32) -> Self {
        ArgumentValue::Integer(v)
    }
}

impl From<()> for ArgumentValue<'_> {
    fn from(_value: ()) -> (r: Self) {
        ArgumentValue::Null
    }
}

impl vstd::std_specs::convert::FromSpecImpl<()> for ArgumentValue<'_> {
    open spec fn obeys_from_spec() -> bool {
        true
    }

    open spec fn from_spec(v: ()) -> Self {
        ArgumentValue::Null
    }
}

} // verus!
