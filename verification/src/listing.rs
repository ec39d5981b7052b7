//! Numerically ordered listings.
//!
//! Years, months and days are listed ordered by integer value, not
//! lexicographically: `"9"` sorts before `"10"`. The sort is total only over
//! names that are decimal digit strings; anything else is rejected.

use vstd::prelude::*;
use vstd::multiset::Multiset;
use vstd::seq_lib::group_to_multiset_ensures;
use crate::num::MAX_NUMERIC_LEN;
use crate::num::all_digits;
use crate::num::digits_value;
use crate::num::parse_numeric;
use crate::text::to_chars;

verus! {

/// A listing with a name that is not a decimal number cannot be ordered
/// numerically.
#[derive(Clone, Copy, PartialEq, Eq, Structural, Debug)]
pub enum ListError {
    /// Some name is empty, too long, or holds a non-digit character.
    NotNumeric,
}

/// The views of a sequence of strings.
pub open spec fn str_views(s: Seq<String>) -> Seq<Seq<char>> {
    s.map_values(|x: String| x@)
}

/// A name the numeric order is defined on: one to nineteen decimal digits.
pub open spec fn numeric_name(s: Seq<char>) -> bool {
    0 < s.len() <= MAX_NUMERIC_LEN && all_digits(s)
}

/// Ordered by integer value, smallest first.
pub open spec fn numerically_sorted(l: Seq<Seq<char>>) -> bool {
    forall|i: int, j: int|
        0 <= i < j < l.len() ==> digits_value(#[trigger] l[i]) <= digits_value(#[trigger] l[j])
}

/// The numeric value of a name known to be numeric.
fn key_of(s: &String) -> (k: u64)
    requires
        numeric_name(s@),
    ensures
        k == digits_value(s@),
{
    let chars = to_chars(s.as_str());
    parse_numeric(&chars).unwrap()
}

/// Interprets a typed menu answer as a choice among `options`.
///
/// The answer must be the one-based decimal number of an option; the chosen
/// option is returned with its zero-based position. Anything that is not a
/// number between one and the number of options yields nothing.
pub fn process_option(option: String, options: Vec<String>) -> (r: Option<(usize, String)>)
    ensures
        match r {
            Some((i, s)) => {
                &&& numeric_name(option@)
                &&& 1 <= digits_value(option@) <= options@.len()
                &&& i + 1 == digits_value(option@)
                &&& s@ == options@[i as int]@
            },
            None => !numeric_name(option@) || digits_value(option@) == 0 || digits_value(option@)
                > options@.len(),
        },
{
    let chars = to_chars(option.as_str());
    match parse_numeric(&chars) {
        Some(v) => {
            if v == 0 || v > options.len() as u64 {
                None
            } else {
                let i = (v as usize) - 1;
                Some((i, options[i].clone()))
            }
        },
        None => None,
    }
}

/// A permutation of a duplicate-free sequence keeps its length, its
/// freedom from duplicates, and exactly its members.
pub proof fn lemma_permutation_keeps_members(collected: Seq<Seq<char>>, out: Seq<Seq<char>>)
    requires
        out.to_multiset() == collected.to_multiset(),
        collected.no_duplicates(),
    ensures
        out.len() == collected.len(),
        out.no_duplicates(),
        forall|z: Seq<char>| #[trigger] collected.contains(z) == out.contains(z),
{
    broadcast use group_to_multiset_ensures;
    broadcast use vstd::multiset::group_multiset_axioms;

    assert(collected.to_multiset().len() == collected.len());
    assert(out.to_multiset().len() == out.len());
    assert forall|z: Seq<char>| #[trigger] collected.contains(z) == out.contains(z) by {
        vstd::seq_lib::to_multiset_contains(collected, z);
        vstd::seq_lib::to_multiset_contains(out, z);
    }
    collected.lemma_multiset_has_no_duplicates();
    out.lemma_multiset_has_no_duplicates_conv();
}

/// Sorts `names` by integer value, smallest first (`["10", "2", "9"]` sorts
/// to `["2", "9", "10"]`). The result holds exactly the given names (as a
/// multiset: duplicates survive). Fails exactly when some name is not a
/// decimal number of at most nineteen digits.
pub fn sort_numeric(names: Vec<String>) -> (r: Result<Vec<String>, ListError>)
    ensures
        match r {
            Ok(out) => {
                &&& forall|i: int|
                    0 <= i < names@.len() ==> numeric_name(#[trigger] str_views(names@)[i])
                &&& str_views(out@).to_multiset() == str_views(names@).to_multiset()
                &&& numerically_sorted(str_views(out@))
            },
            Err(_) => exists|i: int|
                0 <= i < names@.len() && !numeric_name(#[trigger] str_views(names@)[i]),
        },
{
    broadcast use group_to_multiset_ensures;
    broadcast use vstd::multiset::group_multiset_axioms;

    let mut i: usize = 0;
    while i < names.len()
        invariant
            0 <= i <= names@.len(),
            forall|k: int| 0 <= k < i ==> numeric_name(#[trigger] str_views(names@)[k]),
        decreases names@.len() - i,
    {
        let chars = to_chars(names[i].as_str());
        if parse_numeric(&chars).is_none() {
            proof {
                assert(!numeric_name(str_views(names@)[i as int]));
            }
            return Err(ListError::NotNumeric);
        }
        i = i + 1;
    }
    let ghost orig = str_views(names@);
    let mut src = names;
    let mut out: Vec<String> = Vec::new();
    proof {
        assert(str_views(out@) =~= Seq::<Seq<char>>::empty());
        assert(str_views(out@) + str_views(src@) =~= orig);
        assert(str_views(out@).to_multiset().add(str_views(src@).to_multiset())
            =~= orig.to_multiset()) by {
            vstd::seq_lib::lemma_multiset_commutative(str_views(out@), str_views(src@));
        }
    }
    while src.len() > 0
        invariant
            forall|k: int| 0 <= k < src@.len() ==> numeric_name(#[trigger] str_views(src@)[k]),
            forall|k: int| 0 <= k < out@.len() ==> numeric_name(#[trigger] str_views(out@)[k]),
            numerically_sorted(str_views(out@)),
            forall|a: int, b: int|
                0 <= a < out@.len() && 0 <= b < src@.len() ==> digits_value(
                    #[trigger] str_views(out@)[a],
                ) <= digits_value(#[trigger] str_views(src@)[b]),
            str_views(out@).to_multiset().add(str_views(src@).to_multiset()) == orig.to_multiset(),
            forall|k: int| 0 <= k < orig.len() ==> numeric_name(#[trigger] orig[k]),
        decreases src@.len(),
    {
        let mut m: usize = 0;
        proof {
            assert(str_views(src@)[0] == src@[0]@);
        }
        let mut mkey = key_of(&src[0]);
        let mut j: usize = 1;
        while j < src.len()
            invariant
                0 <= m < src@.len(),
                1 <= j <= src@.len(),
                forall|k: int| 0 <= k < src@.len() ==> numeric_name(
                    #[trigger] str_views(src@)[k],
                ),
                mkey == digits_value(str_views(src@)[m as int]),
                forall|k: int| 0 <= k < j ==> mkey <= digits_value(#[trigger] str_views(src@)[k]),
            decreases src@.len() - j,
        {
            proof {
                assert(str_views(src@)[j as int] == src@[j as int]@);
            }
            let k = key_of(&src[j]);
            if k < mkey {
                m = j;
                mkey = k;
            }
            j = j + 1;
        }
        let ghost src_before = src@;
        let ghost out_before = out@;
        let x = src.remove(m);
        let ghost xv = x@;
        out.push(x);
        proof {
            assert(str_views(src@) =~= str_views(src_before).remove(m as int));
            assert(str_views(out@) =~= str_views(out_before).push(xv));
            assert(xv == str_views(src_before)[m as int]);
            vstd::seq_lib::to_multiset_remove(str_views(src_before), m as int);
            vstd::seq_lib::to_multiset_build(str_views(out_before), xv);
            assert(str_views(src_before).to_multiset() =~= str_views(src@).to_multiset().insert(
                xv,
            )) by {
                assert(str_views(src@).to_multiset() == str_views(src_before).to_multiset().remove(
                    xv,
                ));
                assert(str_views(src_before).to_multiset().count(xv) > 0) by {
                    vstd::seq_lib::to_multiset_contains(str_views(src_before), xv);
                    assert(str_views(src_before).contains(xv));
                }
            }
            assert(str_views(out@).to_multiset() =~= str_views(out_before).to_multiset().insert(
                xv,
            ));
            assert(str_views(out@).to_multiset().add(str_views(src@).to_multiset()) =~= str_views(
                out_before,
            ).to_multiset().add(str_views(src_before).to_multiset()));
            assert(forall|k: int|
                0 <= k < str_views(src@).len() ==> digits_value(xv) <= digits_value(
                    #[trigger] str_views(src@)[k],
                ));
        }
    }
    proof {
        assert(str_views(src@).to_multiset() =~= Multiset::<Seq<char>>::empty());
        assert(str_views(out@).to_multiset() =~= orig.to_multiset());
    }
    Ok(out)
}

} // verus!
