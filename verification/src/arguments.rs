//! Schema-driven page arguments with case-insensitive keys.
//!
//! Within a Wikidot-compatible URL, the arguments are the optional portion
//! *after* a slug. For example:
//!
//! * `/scp-1000` -- no page arguments.
//! * `/scp-1000/noredirect/true` -- page arguments are `/noredirect/true`.
//!
//! A key named in the schema's solo list may stand alone: when the segment
//! after it is itself a valid key, the solo key is recorded with no value and
//! that segment is reprocessed as the next key.

use crate::schema::{contains_key_str, keys_contain, ArgumentSchema};
use crate::segments::{split_chars, split_str, strip_leading_slash, strip_slash};
use crate::value::{coerce_chars, lemma_value_from_str_view, ArgumentValue, SpecValue};
use unicase::UniCase;
use vstd::prelude::*;

verus! {

/// The Unicode case folding that unicase applies for caseless comparison.
pub uninterp spec fn caseless_of(s: Seq<char>) -> Seq<char>;

/// Relies on `unicase::UniCase::unicode` equality: two strings compare equal
/// exactly when their case-folded forms coincide, a function of the two
/// strings alone.
#[verifier::external_body]
fn caseless_eq(a: &str, b: &str) -> (r: bool)
    ensures
        r == (caseless_of(a@) == caseless_of(b@)),
{
    UniCase::unicode(a) == UniCase::unicode(b)
}

/// An argument entry: the original-case key with its typed value and the raw
/// segment the value was read from.
pub type ArgumentEntry<'a> = (&'a str, (ArgumentValue<'a>, &'a str));

/// The finite map denoted by an entry sequence, keyed by the case folding of
/// each key; a later entry for the same folded key overrides an earlier one.
pub open spec fn caseless_entries_map<'a>(s: Seq<ArgumentEntry<'a>>) -> Map<
    Seq<char>,
    (SpecValue, Seq<char>),
>
    decreases s.len(),
{
    if s.len() == 0 {
        Map::<Seq<char>, (SpecValue, Seq<char>)>::empty()
    } else {
        caseless_entries_map(s.drop_last()).insert(
            caseless_of(s.last().0@),
            (s.last().1.0@, s.last().1.1@),
        )
    }
}

/// A folded key is in the denoted map exactly when some entry folds to it.
proof fn lemma_caseless_map_contains<'a>(s: Seq<ArgumentEntry<'a>>, k: Seq<char>)
    ensures
        caseless_entries_map(s).contains_key(k) <==> exists|i: int|
            0 <= i < s.len() && caseless_of(s[i].0@) == k,
    decreases s.len(),
{
    if s.len() > 0 {
        lemma_caseless_map_contains(s.drop_last(), k);
        if caseless_of(s.last().0@) == k {
            assert(caseless_of(s[s.len() - 1].0@) == k);
        } else if caseless_entries_map(s).contains_key(k) {
            let i = choose|i: int|
                0 <= i < s.drop_last().len() && caseless_of(s.drop_last()[i].0@) == k;
            assert(caseless_of(s[i].0@) == k);
        } else {
            if exists|i: int| 0 <= i < s.len() && caseless_of(s[i].0@) == k {
                let i = choose|i: int| 0 <= i < s.len() && caseless_of(s[i].0@) == k;
                assert(caseless_of(s.drop_last()[i].0@) == k);
            }
        }
    }
}

/// The denoted map sends a folded key to the value of its last entry.
proof fn lemma_caseless_map_at<'a>(s: Seq<ArgumentEntry<'a>>, i: int, k: Seq<char>)
    requires
        0 <= i < s.len(),
        caseless_of(s[i].0@) == k,
        forall|j: int| i < j < s.len() ==> caseless_of(s[j].0@) != k,
    ensures
        caseless_entries_map(s).contains_key(k),
        caseless_entries_map(s)[k] == (s[i].1.0@, s[i].1.1@),
    decreases s.len(),
{
    if i == s.len() - 1 {
    } else {
        assert(caseless_of(s.drop_last()[i].0@) == k);
        lemma_caseless_map_at(s.drop_last(), i, k);
    }
}

/// The argument map resolved from `segs` under a schema, walking left to
/// right. A non-solo key takes the following segment as its value (absent
/// means `Null`). A solo key followed by another valid key is recorded as
/// `Null` with the lookahead segment as its raw slot, and that segment is
/// reprocessed as a key (`chained`), skipping the empty-segment check.
pub open spec fn resolve_schema(
    segs: Seq<Seq<char>>,
    valid: Seq<Seq<char>>,
    solo: Seq<Seq<char>>,
    chained: bool,
    acc: Map<Seq<char>, (SpecValue, Seq<char>)>,
) -> Map<Seq<char>, (SpecValue, Seq<char>)>
    decreases segs.len(),
{
    if segs.len() == 0 {
        acc
    } else if !chained && segs[0].len() == 0 {
        resolve_schema(segs.skip(1), valid, solo, false, acc)
    } else if segs.len() >= 2 && keys_contain(solo, segs[0]) && keys_contain(valid, segs[1]) {
        resolve_schema(
            segs.skip(1),
            valid,
            solo,
            true,
            acc.insert(caseless_of(segs[0]), (SpecValue::Null, segs[1])),
        )
    } else if segs.len() == 1 {
        acc.insert(caseless_of(segs[0]), (SpecValue::Null, Seq::<char>::empty()))
    } else {
        resolve_schema(
            segs.skip(2),
            valid,
            solo,
            false,
            acc.insert(caseless_of(segs[0]), (coerce_chars(segs[1]), segs[1])),
        )
    }
}

/// The arguments parsed from `path` under the given key lists.
pub open spec fn page_arguments_map(
    path: Seq<char>,
    valid: Seq<Seq<char>>,
    solo: Seq<Seq<char>>,
) -> Map<Seq<char>, (SpecValue, Seq<char>)> {
    resolve_schema(
        split_chars(strip_leading_slash(path), '/'),
        valid,
        solo,
        false,
        Map::<Seq<char>, (SpecValue, Seq<char>)>::empty(),
    )
}

/// Represents the set of arguments for a page.
///
/// Keys compare case-insensitively; each entry keeps the original-case key,
/// the typed value, and the raw segment the value was read from.
///
/// When passed as a string input, the leading `/` character is optional.
#[derive(Debug, Clone)]
pub struct PageArguments<'a> {
    entries: Vec<ArgumentEntry<'a>>,
}

impl<'a> View for PageArguments<'a> {
    type V = Map<Seq<char>, (SpecValue, Seq<char>)>;

    closed spec fn view(&self) -> Map<Seq<char>, (SpecValue, Seq<char>)> {
        caseless_entries_map(self.entries@)
    }
}

impl<'a> PageArguments<'a> {
    /// Each folded key occurs in at most one entry.
    pub closed spec fn wf(&self) -> bool {
        forall|i: int, j: int|
            0 <= i < j < self.entries@.len() ==> caseless_of(self.entries@[i].0@) != caseless_of(
                self.entries@[j].0@,
            )
    }

    /// The entry sequence backing this map, in insertion order.
    pub closed spec fn entry_seq(&self) -> Seq<ArgumentEntry<'a>> {
        self.entries@
    }

    /// The entries of the map, in insertion order; they denote exactly the
    /// map view.
    pub fn entries(&self) -> (r: &Vec<ArgumentEntry<'a>>)
        ensures
            r@ == self.entry_seq(),
            caseless_entries_map(r@) == self@,
    {
        &self.entries
    }

    /// The number of keys in the map.
    pub fn len(&self) -> (r: usize)
        requires
            self.wf(),
        ensures
            r == self@.dom().len(),
    {
        proof {
            Self::lemma_len(self.entries@);
        }
        self.entries.len()
    }

    /// With distinct folded keys, the denoted map has one key per entry.
    proof fn lemma_len(s: Seq<ArgumentEntry<'a>>)
        requires
            forall|i: int, j: int|
                0 <= i < j < s.len() ==> caseless_of(s[i].0@) != caseless_of(s[j].0@),
        ensures
            caseless_entries_map(s).dom().len() == s.len(),
            caseless_entries_map(s).dom().finite(),
        decreases s.len(),
    {
        if s.len() > 0 {
            Self::lemma_len(s.drop_last());
            lemma_caseless_map_contains(s.drop_last(), caseless_of(s.last().0@));
            assert(forall|i: int|
                0 <= i < s.drop_last().len() ==> caseless_of(s.drop_last()[i].0@) != caseless_of(
                    s.last().0@,
                ));
            assert(!caseless_entries_map(s.drop_last()).contains_key(caseless_of(s.last().0@)));
        }
    }

    /// Looks up a key, comparing case-insensitively.
    pub fn get<'s>(&'s self, key: &str) -> (r: Option<&'s (ArgumentValue<'a>, &'a str)>)
        requires
            self.wf(),
        ensures
            match r {
                Some(p) => self@.contains_key(caseless_of(key@)) && p@ == self@[caseless_of(
                    key@,
                )],
                None => !self@.contains_key(caseless_of(key@)),
            },
    {
        let n = self.entries.len();
        let mut i: usize = 0;
        while i < n
            invariant
                i <= n,
                n == self.entries@.len(),
                self.wf(),
                forall|j: int| 0 <= j < i ==> caseless_of(self.entries@[j].0@) != caseless_of(
                    key@,
                ),
            decreases n - i,
        {
            let k = self.entries[i].0;
            if caseless_eq(k, key) {
                proof {
                    lemma_caseless_map_at(self.entries@, i as int, caseless_of(key@));
                }
                return Some(&self.entries[i].1);
            }
            i += 1;
        }
        proof {
            lemma_caseless_map_contains(self.entries@, caseless_of(key@));
        }
        None
    }

    /// Inserts an entry; an existing entry with the same folded key is
    /// overwritten in place, keeping the stored key.
    fn insert(&mut self, key: &'a str, value: ArgumentValue<'a>, raw: &'a str)
        requires
            old(self).wf(),
        ensures
            final(self).wf(),
            final(self)@ == old(self)@.insert(caseless_of(key@), (value@, raw@)),
    {
        let ghost s0 = self.entries@;
        let n = self.entries.len();
        let mut i: usize = 0;
        while i < n
            invariant
                i <= n,
                n == self.entries@.len(),
                self.entries@ == s0,
                s0 == old(self).entries@,
                forall|i0: int, j0: int|
                    0 <= i0 < j0 < s0.len() ==> caseless_of(s0[i0].0@) != caseless_of(s0[j0].0@),
                forall|j: int| 0 <= j < i ==> caseless_of(s0[j].0@) != caseless_of(key@),
            decreases n - i,
        {
            let k = self.entries[i].0;
            if caseless_eq(k, key) {
                self.entries[i] = (k, (value, raw));
                proof {
                    let s1 = self.entries@;
                    assert(s1 =~= s0.update(i as int, (s0[i as int].0, (value, raw))));
                    assert(forall|x: int| 0 <= x < s1.len() ==> s1[x].0@ == s0[x].0@);
                    assert forall|k2: Seq<char>|
                        caseless_entries_map(s1).contains_key(k2) == caseless_entries_map(
                            s0,
                        ).insert(caseless_of(key@), (value@, raw@)).contains_key(k2) by {
                        lemma_caseless_map_contains(s0, k2);
                        lemma_caseless_map_contains(s1, k2);
                        if k2 == caseless_of(key@) {
                            assert(caseless_of(s1[i as int].0@) == k2);
                        } else {
                            if exists|j: int| 0 <= j < s0.len() && caseless_of(s0[j].0@) == k2 {
                                let j = choose|j: int|
                                    0 <= j < s0.len() && caseless_of(s0[j].0@) == k2;
                                assert(caseless_of(s1[j].0@) == k2);
                            }
                            if exists|j: int| 0 <= j < s1.len() && caseless_of(s1[j].0@) == k2 {
                                let j = choose|j: int|
                                    0 <= j < s1.len() && caseless_of(s1[j].0@) == k2;
                                assert(caseless_of(s0[j].0@) == k2);
                            }
                        }
                    }
                    assert forall|k2: Seq<char>|
                        caseless_entries_map(s1).contains_key(k2) implies caseless_entries_map(
                        s1,
                    )[k2] == caseless_entries_map(s0).insert(
                        caseless_of(key@),
                        (value@, raw@),
                    )[k2] by {
                        if k2 == caseless_of(key@) {
                            lemma_caseless_map_at(s1, i as int, k2);
                        } else {
                            lemma_caseless_map_contains(s1, k2);
                            let j = choose|j: int|
                                0 <= j < s1.len() && caseless_of(s1[j].0@) == k2;
                            assert(caseless_of(s0[j].0@) == k2);
                            lemma_caseless_map_at(s1, j, k2);
                            lemma_caseless_map_at(s0, j, k2);
                        }
                    }
                    assert(caseless_entries_map(s1) =~= caseless_entries_map(s0).insert(
                        caseless_of(key@),
                        (value@, raw@),
                    ));
                }
                return;
            }
            i += 1;
        }
        self.entries.push((key, (value, raw)));
        proof {
            lemma_caseless_map_contains(s0, caseless_of(key@));
            assert(self.entries@.drop_last() =~= s0);
            assert(caseless_entries_map(self.entries@) == caseless_entries_map(s0).insert(
                caseless_of(key@),
                (value@, raw@),
            ));
        }
    }

    /// Parse out Wikidot arguments.
    ///
    /// This algorithm is compatible with the `/KEY/true` format,
    /// but also allows a lone `/KEY` for options which are "innately valued",
    /// such as `norender` or `edit`, where adding a `/true` is not very useful.
    ///
    /// If there are duplicate keys, the most recent one takes precedence.
    pub fn parse(path: &'a str, schema: ArgumentSchema<'a>) -> (r: Self)
        ensures
            r@ == page_arguments_map(
                path@,
                schema.valid_keys.deep_view(),
                schema.solo_keys.deep_view(),
            ),
            r.wf(),
    {
        let ghost valid = schema.valid_keys.deep_view();
        let ghost solo = schema.solo_keys.deep_view();
        let stripped = strip_slash(path);
        let segs = split_str(stripped, '/');
        let ghost all = split_chars(strip_leading_slash(path@), '/');
        let ghost target = page_arguments_map(path@, valid, solo);
        let mut arguments = PageArguments { entries: Vec::new() };
        let mut chained = false;
        let mut i: usize = 0;
        let n = segs.len();
        proof {
            assert(all.skip(0) =~= all);
        }
        while i < n
            invariant
                i <= n,
                n == segs@.len(),
                segs.deep_view() == all,
                valid == schema.valid_keys.deep_view(),
                solo == schema.solo_keys.deep_view(),
                arguments.wf(),
                resolve_schema(all.skip(i as int), valid, solo, chained, arguments@) == target,
            decreases n - i,
        {
            let ghost rest = all.skip(i as int);
            proof {
                assert(rest[0] == all[i as int]);
                assert(rest.skip(1) =~= all.skip(i + 1));
            }
            let key = segs[i];
            if !chained && key.is_empty() {
                i += 1;
            } else if i + 1 < n && contains_key_str(schema.solo_keys, key) && contains_key_str(
                schema.valid_keys,
                segs[i + 1],
            ) {
                // A solo key whose lookahead is itself a valid key: record it
                // with no value and reprocess the lookahead as the next key.
                arguments.insert(key, ArgumentValue::Null, segs[i + 1]);
                proof {
                    assert(rest[1] == all[i + 1]);
                }
                chained = true;
                i += 1;
            } else if i + 1 < n {
                let value = ArgumentValue::from(segs[i + 1]);
                arguments.insert(key, value, segs[i + 1]);
                proof {
                    lemma_value_from_str_view(segs@[i + 1]);
                    assert(rest[1] == all[i + 1]);
                    assert(rest.skip(2) =~= all.skip(i + 2));
                }
                chained = false;
                i += 2;
            } else {
                arguments.insert(key, ArgumentValue::Null, "");
                proof {
                    reveal_strlit("");
                    assert(""@ =~= Seq::<char>::empty());
                }
                chained = false;
                i += 1;
            }
        }
        proof {
            assert(all.skip(n as int) =~= Seq::<Seq<char>>::empty());
        }
        arguments
    }
}

} // verus!
