//! Substring search over sequences of scalar values.
//!
//! A query is searched for at scalar-value granularity: `first_occurrence`
//! and `last_occurrence` give the leftmost and rightmost positions at which
//! the query occurs, and `cluster_at_offset` maps such a position back to a
//! grapheme-cluster index when it falls on a cluster boundary.

use vstd::prelude::*;
use vstd::seq_lib::lemma_flatten_concat;

verus! {

/// The direction of a substring search from a starting position.
#[derive(Clone, Copy, Debug, PartialEq, Eq, Structural)]
pub enum SearchDirection {
    Forward,
    Backward,
}

/// Shifts a found position by `d`, keeping "not found" as it is.
pub open spec fn shift_opt(o: Option<int>, d: int) -> Option<int> {
    match o {
        Option::Some(i) => Option::Some(i + d),
        Option::None => Option::None,
    }
}

/// A found position as a mathematical integer.
pub open spec fn opt_index(o: Option<usize>) -> Option<int> {
    match o {
        Option::Some(i) => Option::Some(i as int),
        Option::None => Option::None,
    }
}

/// `pat` occurs in `text` starting at position `i`.
pub open spec fn occurs_at(text: Seq<char>, pat: Seq<char>, i: int) -> bool {
    0 <= i && i + pat.len() <= text.len() && text.subrange(i, i + pat.len() as int) == pat
}

/// The least position at which `pat` occurs in `text`, if any. An empty
/// `pat` occurs at position zero.
pub open spec fn first_occurrence(text: Seq<char>, pat: Seq<char>) -> Option<int>
    decreases text.len(),
{
    if occurs_at(text, pat, 0) {
        Option::Some(0)
    } else if text.len() == 0 {
        Option::None
    } else {
        shift_opt(first_occurrence(text.drop_first(), pat), 1)
    }
}

/// The greatest position at most `i` at which `pat` occurs in `text`, if
/// any.
pub open spec fn last_at_or_before(text: Seq<char>, pat: Seq<char>, i: int) -> Option<int>
    decreases i + 1,
{
    if i < 0 {
        Option::None
    } else if occurs_at(text, pat, i) {
        Option::Some(i)
    } else {
        last_at_or_before(text, pat, i - 1)
    }
}

/// The greatest position at which `pat` occurs in `text`, if any. An empty
/// `pat` occurs at the end of `text`.
pub open spec fn last_occurrence(text: Seq<char>, pat: Seq<char>) -> Option<int> {
    last_at_or_before(text, pat, text.len() - pat.len())
}

/// The index of the cluster of `gs` whose first scalar value sits at offset
/// `off` of the concatenation of `gs`, if any; offsets inside a cluster, and
/// the offset of the very end, name no cluster.
pub open spec fn cluster_at_offset(gs: Seq<Seq<char>>, off: int) -> Option<int>
    decreases gs.len(),
{
    if gs.len() == 0 {
        Option::None
    } else if off == 0 {
        Option::Some(0)
    } else {
        shift_opt(cluster_at_offset(gs.drop_first(), off - gs[0].len()), 1)
    }
}

/// Whether `pat` occurs in `text` at position `i`.
fn matches_at(text: &Vec<char>, pat: &Vec<char>, i: usize) -> (b: bool)
    requires
        i <= text.len(),
    ensures
        b == occurs_at(text@, pat@, i as int),
{
    if pat.len() > text.len() - i {
        return false;
    }
    let mut j: usize = 0;
    while j < pat.len()
        invariant
            i + pat.len() <= text.len(),
            j <= pat.len(),
            forall|t: int| 0 <= t < j ==> text@[i + t] == pat@[t],
        decreases pat.len() - j,
    {
        if text[i + j] != pat[j] {
            proof {
                if occurs_at(text@, pat@, i as int) {
                    assert(text@.subrange(i as int, i + pat@.len() as int)[j as int] == pat@[j as int]);
                }
            }
            return false;
        }
        j += 1;
    }
    proof {
        assert(text@.subrange(i as int, i + pat@.len() as int) =~= pat@);
    }
    true
}

/// The leftmost occurrence of `pat` in `text`, as `first_occurrence` gives
/// it.
pub(crate) fn find_first(text: &Vec<char>, pat: &Vec<char>) -> (r: Option<usize>)
    ensures
        opt_index(r) == first_occurrence(text@, pat@),
{
    let n = text.len();
    let mut i: usize = 0;
    proof {
        assert(text@.skip(0) =~= text@);
    }
    loop
        invariant
            i <= n,
            n == text@.len(),
            first_occurrence(text@, pat@) == shift_opt(
                first_occurrence(text@.skip(i as int), pat@),
                i as int,
            ),
        decreases n - i,
    {
        let hit = matches_at(text, pat, i);
        proof {
            if i + pat@.len() <= n {
                assert(text@.skip(i as int).subrange(0, pat@.len() as int) =~= text@.subrange(
                    i as int,
                    i + pat@.len() as int,
                ));
            }
            assert(occurs_at(text@.skip(i as int), pat@, 0) == occurs_at(text@, pat@, i as int));
        }
        if hit {
            proof {
                assert(first_occurrence(text@.skip(i as int), pat@) == Option::Some(0int));
            }
            return Some(i);
        }
        if i == n {
            proof {
                assert(text@.skip(i as int).len() == 0);
                assert(first_occurrence(text@.skip(i as int), pat@) is None);
            }
            return None;
        }
        proof {
            assert(text@.skip(i as int).drop_first() =~= text@.skip(i as int + 1));
            assert(first_occurrence(text@.skip(i as int), pat@) == shift_opt(
                first_occurrence(text@.skip(i as int + 1), pat@),
                1,
            ));
        }
        i += 1;
    }
}

/// The rightmost occurrence of `pat` in `text`, as `last_occurrence` gives
/// it.
pub(crate) fn find_last(text: &Vec<char>, pat: &Vec<char>) -> (r: Option<usize>)
    ensures
        opt_index(r) == last_occurrence(text@, pat@),
{
    let n = text.len();
    let m = pat.len();
    if m > n {
        proof {
            assert(last_at_or_before(text@, pat@, text@.len() - pat@.len()) is None);
        }
        return None;
    }
    let mut i: usize = n - m;
    loop
        invariant
            i <= n,
            n == text@.len(),
            m == pat@.len(),
            last_occurrence(text@, pat@) == last_at_or_before(text@, pat@, i as int),
        decreases i,
    {
        if matches_at(text, pat, i) {
            return Some(i);
        }
        if i == 0 {
            proof {
                assert(last_at_or_before(text@, pat@, -1) is None);
            }
            return None;
        }
        i -= 1;
    }
}

} // verus!
