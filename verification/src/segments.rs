//! Splitting a path into its `/`- or `:`-delimited segments.
//!
//! Wikidot paths carry their arguments as alternating path segments, so
//! every parser in this crate starts from the same two operations: stripping
//! the optional leading slash and splitting on a separator character.

use vstd::prelude::*;

verus! {

/// The segments of `s` delimited by `sep`, in order.
///
/// Mirrors the splitting behaviour of a maximal split: `n` separators yield
/// `n + 1` segments, so the empty sequence splits into one empty segment.
pub open spec fn split_chars(s: Seq<char>, sep: char) -> Seq<Seq<char>>
    decreases s.len(),
{
    if s.len() == 0 {
        seq![Seq::<char>::empty()]
    } else {
        let rest = split_chars(s.drop_last(), sep);
        if s.last() == sep {
            rest.push(Seq::<char>::empty())
        } else {
            rest.update(rest.len() - 1, rest.last().push(s.last()))
        }
    }
}

/// A split yields at least one segment.
pub proof fn lemma_split_chars_len(s: Seq<char>, sep: char)
    ensures
        split_chars(s, sep).len() >= 1,
    decreases s.len(),
{
    if s.len() > 0 {
        lemma_split_chars_len(s.drop_last(), sep);
    }
}

/// Strips at most one leading `/` from a character sequence.
pub open spec fn strip_leading_slash(s: Seq<char>) -> Seq<char> {
    if s.len() > 0 && s[0] == '/' {
        s.skip(1)
    } else {
        s
    }
}

/// String slice equality, decided through the character views.
pub fn str_eq(a: &str, b: &str) -> (r: bool)
    ensures
        r == (a@ == b@),
{
    let x: String = a.to_owned();
    let y: String = b.to_owned();
    x == y
}

/// Strips at most one leading `/` from a string slice.
pub fn strip_slash(s: &str) -> (r: &str)
    ensures
        r@ == strip_leading_slash(s@),
{
    let n = s.unicode_len();
    if n > 0 && s.get_char(0) == '/' {
        let r = s.substring_char(1, n);
        proof {
            assert(r@ =~= s@.skip(1));
        }
        r
    } else {
        s
    }
}

/// Splits `s` on the separator `sep` into its (possibly empty) segments.
pub fn split_str<'a>(s: &'a str, sep: char) -> (r: Vec<&'a str>)
    ensures
        r.deep_view() == split_chars(s@, sep),
{
    let n = s.unicode_len();
    let mut parts: Vec<&'a str> = Vec::new();
    let mut start: usize = 0;
    let mut i: usize = 0;
    proof {
        assert(s@.take(0) =~= Seq::<char>::empty());
        assert(parts.deep_view().push(s@.subrange(0, 0)) =~~= split_chars(s@.take(0), sep));
    }
    while i < n
        invariant
            start <= i <= n,
            n == s@.len(),
            parts.deep_view().push(s@.subrange(start as int, i as int)) == split_chars(
                s@.take(i as int),
                sep,
            ),
        decreases n - i,
    {
        let ghost prev = split_chars(s@.take(i as int), sep);
        let ghost seg = s@.subrange(start as int, i as int);
        proof {
            assert(s@.take(i + 1).drop_last() =~= s@.take(i as int));
            assert(s@.take(i + 1).last() == s@[i as int]);
        }
        let c = s.get_char(i);
        if c == sep {
            let piece = s.substring_char(start, i);
            parts.push(piece);
            proof {
                assert(split_chars(s@.take(i + 1), sep) == prev.push(Seq::<char>::empty()));
                assert(parts.deep_view() =~~= prev);
                assert(s@.subrange(i + 1, i + 1) =~= Seq::<char>::empty());
                assert(parts.deep_view().push(s@.subrange(i + 1, i + 1)) =~~= prev.push(
                    Seq::<char>::empty(),
                ));
            }
            start = i + 1;
        } else {
            proof {
                assert(split_chars(s@.take(i + 1), sep) == prev.update(
                    prev.len() - 1,
                    prev.last().push(s@[i as int]),
                ));
                assert(prev.last() == seg);
                assert(prev.update(prev.len() - 1, seg.push(s@[i as int])) =~~= parts.deep_view()
                    .push(seg.push(s@[i as int])));
                assert(s@.subrange(start as int, i + 1) =~= seg.push(s@[i as int]));
            }
        }
        i += 1;
    }
    let piece = s.substring_char(start, n);
    parts.push(piece);
    proof {
        assert(s@.take(n as int) =~= s@);
        assert(parts.deep_view() =~~= split_chars(s@, sep));
    }
    parts
}

} // verus!
