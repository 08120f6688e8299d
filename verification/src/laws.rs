//! The buffer's laws: proofs relating the operations to one another, stated
//! over the same spec functions the operations' contracts use.

use vstd::prelude::*;
use vstd::seq_lib::lemma_flatten_concat;

use crate::highlighting::Type;
use crate::search::cluster_at_offset;
use crate::search::first_occurrence;
use crate::search::last_at_or_before;
use crate::search::last_occurrence;
use crate::search::occurs_at;
use crate::row::class_at;
use crate::row::delete_spec;
use crate::row::insert_spec;
use crate::row::lemma_styled_range_snoc;
use crate::row::render_spec;
use crate::row::split_point;
use crate::row::styled_cluster;
use crate::row::styled_range;
use crate::row::visible_cluster;
use crate::styling::fg_reset_chars;
use crate::styling::marker_chars;

verus! {

/// Occurrences shift with the head of the text: `pat` occurs at a positive
/// position of `text` exactly when it occurs one position earlier in `text`
/// without its first element.
proof fn lemma_occurs_shift(text: Seq<char>, pat: Seq<char>, j: int)
    requires
        j >= 1,
        text.len() >= 1,
    ensures
        occurs_at(text, pat, j) == occurs_at(text.drop_first(), pat, j - 1),
{
    if j + pat.len() <= text.len() {
        assert(text.subrange(j, j + pat.len() as int) =~= text.drop_first().subrange(
            j - 1,
            j - 1 + pat.len() as int,
        ));
    }
}

/// `first_occurrence` really is the leftmost match: what it finds is an
/// occurrence and nothing occurs before it, and where it finds nothing, no
/// occurrence exists at all.
pub proof fn lemma_first_occurrence_is_leftmost(text: Seq<char>, pat: Seq<char>)
    ensures
        match first_occurrence(text, pat) {
            Option::Some(i) => occurs_at(text, pat, i) && forall|j: int|
                0 <= j < i ==> !occurs_at(text, pat, j),
            Option::None => forall|j: int| !occurs_at(text, pat, j),
        },
    decreases text.len(),
{
    if occurs_at(text, pat, 0) {
    } else if text.len() == 0 {
        assert forall|j: int| !occurs_at(text, pat, j) by {
            if j != 0 {
                assert(!occurs_at(text, pat, j));
            }
        }
    } else {
        lemma_first_occurrence_is_leftmost(text.drop_first(), pat);
        assert forall|j: int| j >= 1 implies occurs_at(text, pat, j) == occurs_at(
            text.drop_first(),
            pat,
            j - 1,
        ) by {
            lemma_occurs_shift(text, pat, j);
        }
        match first_occurrence(text.drop_first(), pat) {
            Option::Some(i) => {
                assert(first_occurrence(text, pat) == Option::Some(i + 1));
                assert(occurs_at(text, pat, i + 1));
            },
            Option::None => {
                assert(first_occurrence(text, pat) is None);
            },
        }
    }
}

/// What `last_at_or_before` finds is an occurrence no later than the bound,
/// with no occurrence between it and the bound; where it finds nothing, no
/// occurrence exists at or before the bound.
proof fn lemma_last_at_or_before_props(text: Seq<char>, pat: Seq<char>, i: int)
    ensures
        match last_at_or_before(text, pat, i) {
            Option::Some(r) => r <= i && occurs_at(text, pat, r) && forall|j: int|
                r < j <= i ==> !occurs_at(text, pat, j),
            Option::None => forall|j: int| j <= i ==> !occurs_at(text, pat, j),
        },
    decreases i + 1,
{
    if i < 0 {
    } else if occurs_at(text, pat, i) {
    } else {
        lemma_last_at_or_before_props(text, pat, i - 1);
    }
}

/// `last_occurrence` really is the rightmost match: what it finds is an
/// occurrence with none after it, and where it finds nothing, no occurrence
/// exists at all.
pub proof fn lemma_last_occurrence_is_rightmost(text: Seq<char>, pat: Seq<char>)
    ensures
        match last_occurrence(text, pat) {
            Option::Some(i) => occurs_at(text, pat, i) && forall|j: int|
                j > i ==> !occurs_at(text, pat, j),
            Option::None => forall|j: int| !occurs_at(text, pat, j),
        },
{
    lemma_last_at_or_before_props(text, pat, text.len() - pat.len());
    assert forall|j: int| j > text.len() - pat.len() implies !occurs_at(text, pat, j) by {
        assert(j + pat.len() > text.len());
    }
}

/// A found cluster index really marks a boundary: where `cluster_at_offset`
/// names a cluster, that cluster's first scalar value sits exactly at the
/// given offset of the concatenation.
pub proof fn lemma_cluster_at_offset_is_boundary(gs: Seq<Seq<char>>, off: int)
    ensures
        match cluster_at_offset(gs, off) {
            Option::Some(k) => 0 <= k < gs.len() && gs.take(k).flatten().len() == off,
            Option::None => true,
        },
    decreases gs.len(),
{
    if gs.len() == 0 {
    } else if off == 0 {
        assert(gs.take(0).flatten() =~= Seq::<char>::empty());
    } else {
        lemma_cluster_at_offset_is_boundary(gs.drop_first(), off - gs[0].len());
        match cluster_at_offset(gs.drop_first(), off - gs[0].len()) {
            Option::Some(k) => {
                assert(gs.take(k + 1) =~= seq![gs[0]] + gs.drop_first().take(k));
                lemma_flatten_concat(seq![gs[0]], gs.drop_first().take(k));
                seq![gs[0]].lemma_flatten_one_element();
            },
            Option::None => {},
        }
    }
}

/// Inserting a character at any valid cluster index grows the cluster count
/// by exactly one, and the cluster then read at that index is exactly the
/// one-character cluster that was inserted.
pub proof fn lemma_insert_reads_back(gs: Seq<Seq<char>>, at: int, c: char)
    requires
        0 <= at <= gs.len(),
    ensures
        insert_spec(gs, at, c).len() == gs.len() + 1,
        insert_spec(gs, at, c)[at] == seq![c],
{
}

/// Deleting at a valid index shrinks the cluster count by exactly one and
/// removes exactly the targeted cluster: everything before it is unchanged
/// and everything after it shifts down by one. Deleting at or past the end
/// changes nothing.
pub proof fn lemma_delete_removes_exactly(gs: Seq<Seq<char>>, at: int)
    requires
        0 <= at,
    ensures
        at < gs.len() ==> delete_spec(gs, at).len() == gs.len() - 1,
        at < gs.len() ==> forall|j: int|
            0 <= j < at ==> #[trigger] delete_spec(gs, at)[j] == gs[j],
        at < gs.len() ==> forall|j: int|
            at <= j < gs.len() - 1 ==> #[trigger] delete_spec(gs, at)[j] == gs[j + 1],
        at >= gs.len() ==> delete_spec(gs, at) == gs,
{
}

/// A split at any point, followed by concatenating the two halves in order,
/// yields back exactly the original cluster sequence; the halves cover it
/// once, with nothing lost and nothing duplicated.
pub proof fn lemma_split_append_round_trip(gs: Seq<Seq<char>>, at: int)
    requires
        0 <= at,
    ensures
        gs.take(split_point(gs, at)) + gs.skip(split_point(gs, at)) == gs,
        gs.take(split_point(gs, at)).len() + gs.skip(split_point(gs, at)).len() == gs.len(),
{
    assert(gs.take(split_point(gs, at)) + gs.skip(split_point(gs, at)) =~= gs);
}

/// A rendered prefix is the flattening of one styled unit per cluster.
proof fn lemma_styled_range_is_flat_units(gs: Seq<Seq<char>>, hl: Seq<Type>, k: int)
    requires
        0 <= k <= gs.len(),
    ensures
        styled_range(gs, hl, 0, k) == Seq::new(
            gs.len(),
            |i: int| styled_cluster(gs[i], class_at(hl, i)),
        ).take(k).flatten(),
    decreases k,
{
    let units = Seq::new(gs.len(), |i: int| styled_cluster(gs[i], class_at(hl, i)));
    if k == 0 {
        assert(units.take(0).flatten() =~= Seq::<char>::empty());
    } else {
        lemma_styled_range_is_flat_units(gs, hl, k - 1);
        lemma_styled_range_snoc(gs, hl, 0, k - 1);
        assert(units.take(k - 1).push(units[k - 1]) =~= units.take(k));
        units.take(k - 1).lemma_flatten_push(units[k - 1]);
    }
}

/// A full-range rendering styles every cluster exactly once and in order:
/// the output is the concatenation of one styled unit per cluster, each unit
/// holding its cluster's printable form whole between a foreground marker
/// and a reset marker — so no cluster is ever split across units — with a
/// tab cluster shown as exactly two spaces and every other cluster shown
/// verbatim.
pub proof fn lemma_render_full_styles_every_cluster(gs: Seq<Seq<char>>, hl: Seq<Type>)
    ensures
        ({
            let units = Seq::new(gs.len(), |i: int| styled_cluster(gs[i], class_at(hl, i)));
            &&& render_spec(gs, hl, 0, gs.len() as int) == units.flatten()
            &&& units.len() == gs.len()
            &&& forall|i: int|
                0 <= i < gs.len() ==> #[trigger] units[i] == marker_chars(class_at(hl, i))
                    + visible_cluster(gs[i]) + fg_reset_chars()
            &&& forall|i: int|
                0 <= i < gs.len() && gs[i] == seq!['\t'] ==> #[trigger] visible_cluster(gs[i])
                    == seq![' ', ' ']
            &&& forall|i: int|
                0 <= i < gs.len() && gs[i].len() > 0 && gs[i][0] != '\t'
                    ==> #[trigger] visible_cluster(gs[i]) == gs[i]
        }),
{
    let units = Seq::new(gs.len(), |i: int| styled_cluster(gs[i], class_at(hl, i)));
    lemma_styled_range_is_flat_units(gs, hl, gs.len() as int);
    assert(units.take(gs.len() as int) =~= units);
}

} // verus!
