//! Grapheme-cluster segmentation, supplied by the `unicode-segmentation`
//! crate.
//!
//! `clusters_of` names the extended grapheme-cluster segmentation of a
//! sequence of scalar values; its full definition is the Unicode text
//! segmentation algorithm, so only the facts every caller needs are stated:
//! the clusters are nonempty and concatenate back to the input.

use vstd::prelude::*;
use unicode_segmentation::UnicodeSegmentation;

verus! {

/// The extended grapheme-cluster segmentation of `s`: the sequence of
/// user-perceived characters, each a nonempty run of scalar values.
pub uninterp spec fn clusters_of(s: Seq<char>) -> Seq<Seq<char>>;

/// Relies on `unicode_segmentation::UnicodeSegmentation::graphemes` with
/// `is_extended` set: it yields the extended grapheme clusters of `s` in
/// order, consecutive nonempty substrings that concatenate back to `s`.
#[verifier::external_body]
pub(crate) fn split_clusters(s: &str) -> (r: Vec<String>)
    ensures
        r.deep_view() == clusters_of(s@),
        r.deep_view().flatten() == s@,
        forall|i: int| 0 <= i < r.deep_view().len() ==> r.deep_view()[i].len() >= 1,
{
    let mut r = Vec::new();
    for g in s.graphemes(true) {
        r.push(String::from(g));
    }
    r
}

/// Relies on `String::from` for `char`: a string holding exactly the one
/// character.
#[verifier::external_body]
pub(crate) fn char_to_string(c: char) -> (s: String)
    ensures
        s@ == seq![c],
{
    String::from(c)
}

} // verus!
