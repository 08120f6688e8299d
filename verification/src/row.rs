//! The line buffer: one row of text, addressed by grapheme-cluster index.
//!
//! A `Row` owns the encoded text of the line, the list of its grapheme
//! clusters (the cluster-boundary cache that makes positional operations
//! provable), and a per-position highlight annotation. The stored text is
//! always the concatenation of the clusters, and no cluster is empty.

use vstd::prelude::*;
use vstd::seq_lib::lemma_flatten_concat;
use vstd::string::StrSliceExecFns;
use vstd::string::StringExecFns;
use vstd::utf8::encode_utf8;

use crate::highlighting;
use crate::highlighting::Type;
use crate::search::cluster_at_offset;
use crate::search::find_first;
use crate::search::find_last;
use crate::search::first_occurrence;
use crate::search::last_occurrence;
use crate::search::opt_index;
use crate::search::shift_opt;
use crate::search::SearchDirection;
use crate::segment::char_to_string;
use crate::segment::clusters_of;
use crate::segment::split_clusters;
use crate::styling::class_marker;
use crate::styling::fg_reset_chars;
use crate::styling::marker_chars;
use crate::styling::reset_marker;

verus! {

/// One line of text: the encoded payload, its grapheme clusters, and one
/// highlight class per classified position (stale after a mutation until
/// `hightlight` runs again).
pub struct Row {
    string: String,
    clusters: Vec<String>,
    highlighting: Vec<Type>,
}

impl View for Row {
    type V = Seq<Seq<char>>;

    /// A row is modelled as its sequence of grapheme clusters.
    closed spec fn view(&self) -> Seq<Seq<char>> {
        self.clusters.deep_view()
    }
}

/// Inserting `c` as a cluster of its own: past the end it is appended,
/// otherwise it lands immediately before the cluster at `at`.
pub open spec fn insert_spec(gs: Seq<Seq<char>>, at: int, c: char) -> Seq<Seq<char>> {
    if at >= gs.len() {
        gs.push(seq![c])
    } else {
        gs.insert(at, seq![c])
    }
}

/// Removing the cluster at `at`; past the end nothing changes.
pub open spec fn delete_spec(gs: Seq<Seq<char>>, at: int) -> Seq<Seq<char>> {
    if at < gs.len() {
        gs.remove(at)
    } else {
        gs
    }
}

/// Where a split at `at` cuts: at `at`, clamped to the cluster count.
pub open spec fn split_point(gs: Seq<Seq<char>>, at: int) -> int {
    if at < gs.len() {
        at
    } else {
        gs.len() as int
    }
}

/// What `find` returns: the sub-range of clusters `[at, len)` (forward) or
/// `[0, at)` (backward) is concatenated; the query is matched in it at
/// scalar-value granularity, leftmost for a forward search and rightmost for
/// a backward one; a match is reported, as a cluster index of the full line,
/// only where it starts exactly on a cluster boundary of the sub-range. An
/// `at` past the end finds nothing.
pub open spec fn find_spec(
    gs: Seq<Seq<char>>,
    q: Seq<char>,
    at: int,
    direction: SearchDirection,
) -> Option<int> {
    if at > gs.len() {
        Option::None
    } else {
        let lo = if direction == SearchDirection::Forward {
            at
        } else {
            0
        };
        let hi = if direction == SearchDirection::Forward {
            gs.len() as int
        } else {
            at
        };
        let sub = gs.subrange(lo, hi);
        let m = if direction == SearchDirection::Forward {
            first_occurrence(sub.flatten(), q)
        } else {
            last_occurrence(sub.flatten(), q)
        };
        match m {
            Option::Some(b) => shift_opt(cluster_at_offset(sub, b), lo),
            Option::None => Option::None,
        }
    }
}

/// The class rendering uses at cluster index `i`: the recorded one, or the
/// plain class where the annotation has no entry there.
pub open spec fn class_at(hl: Seq<Type>, i: int) -> Type {
    if 0 <= i < hl.len() {
        hl[i]
    } else {
        Type::Plain
    }
}

/// The printable form of one cluster: a tab renders as two spaces, every
/// other cluster renders verbatim.
pub open spec fn visible_cluster(g: Seq<char>) -> Seq<char> {
    if g.len() > 0 && g[0] == '\t' {
        seq![' ', ' ']
    } else {
        g
    }
}

/// One rendered cluster: its class's foreground marker, its printable form,
/// then a reset marker.
pub open spec fn styled_cluster(g: Seq<char>, t: Type) -> Seq<char> {
    marker_chars(t) + visible_cluster(g) + fg_reset_chars()
}

/// The rendering of the cluster range `[s, e)`: each cluster styled, in
/// order.
pub open spec fn styled_range(gs: Seq<Seq<char>>, hl: Seq<Type>, s: int, e: int) -> Seq<char>
    decreases e - s,
{
    if s < e {
        styled_cluster(gs[s], class_at(hl, s)) + styled_range(gs, hl, s + 1, e)
    } else {
        Seq::empty()
    }
}

/// What `render` returns for any `(start, end)`: the range is clamped so
/// that `end` is at most the cluster count and `start` at most `end`, then
/// every cluster in the clamped range is styled.
pub open spec fn render_spec(gs: Seq<Seq<char>>, hl: Seq<Type>, start: int, end: int) -> Seq<
    char,
> {
    let e = if end < gs.len() {
        end
    } else {
        gs.len() as int
    };
    let s = if start < e {
        start
    } else {
        e
    };
    styled_range(gs, hl, s, e)
}

/// Extending a styled range by one cluster on the right appends that
/// cluster's styling.
pub(crate) proof fn lemma_styled_range_snoc(gs: Seq<Seq<char>>, hl: Seq<Type>, s: int, e: int)
    requires
        s <= e,
    ensures
        styled_range(gs, hl, s, e + 1) == styled_range(gs, hl, s, e) + styled_cluster(
            gs[e],
            class_at(hl, e),
        ),
    decreases e - s,
{
    if s == e {
        assert(styled_range(gs, hl, e + 1, e + 1) =~= Seq::<char>::empty());
        assert(styled_range(gs, hl, s, e + 1) =~= styled_range(gs, hl, s, e) + styled_cluster(
            gs[e],
            class_at(hl, e),
        ));
    } else {
        lemma_styled_range_snoc(gs, hl, s + 1, e);
        assert(styled_range(gs, hl, s, e + 1) =~= styled_range(gs, hl, s, e) + styled_cluster(
            gs[e],
            class_at(hl, e),
        ));
    }
}

/// The concatenation of all clusters, as an owned string.
fn join_clusters(clusters: &Vec<String>) -> (s: String)
    ensures
        s@ == clusters.deep_view().flatten(),
{
    let mut s = String::new();
    let mut i: usize = 0;
    proof {
        assert(clusters.deep_view().take(0).flatten() =~= Seq::<char>::empty());
    }
    while i < clusters.len()
        invariant
            i <= clusters.len(),
            s@ == clusters.deep_view().take(i as int).flatten(),
        decreases clusters.len() - i,
    {
        s.append(clusters[i].as_str());
        proof {
            assert(clusters.deep_view().take(i as int).push(clusters.deep_view()[i as int])
                =~= clusters.deep_view().take(i + 1));
            clusters.deep_view().take(i as int).lemma_flatten_push(clusters.deep_view()[i as int]);
        }
        i += 1;
    }
    proof {
        assert(clusters.deep_view().take(clusters.len() as int) =~= clusters.deep_view());
    }
    s
}

impl Row {
    /// The encoded text of the line.
    pub closed spec fn text(&self) -> Seq<char> {
        self.string@
    }

    /// The per-position highlight classes, possibly stale after a mutation.
    pub closed spec fn classes(&self) -> Seq<Type> {
        self.highlighting@
    }

    /// Well-formedness: the stored text is the concatenation of the grapheme
    /// clusters, and no cluster is empty. Every constructor establishes this
    /// and every method preserves it.
    pub closed spec fn wf(&self) -> bool {
        &&& self.string@ == self@.flatten()
        &&& forall|i: int| 0 <= i < self@.len() ==> #[trigger] self@[i].len() >= 1
    }

    /// Builds a row from any text slice; the cluster list is its grapheme
    /// segmentation and the highlight classes start empty.
    pub fn from_text(slice: &str) -> (row: Row)
        ensures
            row.wf(),
            row@ == clusters_of(slice@),
            row.text() == slice@,
            row.classes() == Seq::<Type>::empty(),
    {
        let clusters = split_clusters(slice);
        let string = String::from_str(slice);
        Row { string, clusters, highlighting: Vec::new() }
    }

    /// The recorded highlight classes, one per classified position.
    pub fn highlight_classes(&self) -> (hl: &Vec<Type>)
        ensures
            hl@ == self.classes(),
    {
        &self.highlighting
    }

    /// The number of grapheme clusters in the line.
    pub fn len(&self) -> (n: usize)
        ensures
            n == self@.len(),
    {
        self.clusters.len()
    }

    /// Whether the line holds no clusters at all.
    pub fn is_empty(&self) -> (empty: bool)
        ensures
            empty == (self@.len() == 0),
    {
        self.clusters.len() == 0
    }

    /// The encoded bytes of the line's text.
    pub fn as_bytes(&self) -> (bytes: &[u8])
        requires
            self.wf(),
        ensures
            bytes@ == encode_utf8(self@.flatten()),
    {
        self.string.as_str().as_bytes()
    }

    /// Inserts `c` as a cluster of its own at cluster index `at`; any `at`
    /// at or past the end appends. The highlight classes are left untouched
    /// and become stale.
    pub fn insert(&mut self, at: usize, c: char)
        requires
            old(self).wf(),
        ensures
            final(self).wf(),
            final(self)@ == insert_spec(old(self)@, at as int, c),
            final(self).classes() == old(self).classes(),
    {
        let cell = char_to_string(c);
        if at >= self.clusters.len() {
            self.string.append(cell.as_str());
            self.clusters.push(cell);
            proof {
                assert(self@ =~= old(self)@.push(seq![c]));
                old(self)@.lemma_flatten_push(seq![c]);
            }
        } else {
            self.clusters.insert(at, cell);
            proof {
                assert(self@ =~= old(self)@.insert(at as int, seq![c]));
            }
            let joined = join_clusters(&self.clusters);
            self.string = joined;
        }
    }

    /// Removes the cluster at index `at`; past the end this is a no-op. The
    /// highlight classes are left untouched and become stale.
    pub fn delete(&mut self, at: usize)
        requires
            old(self).wf(),
        ensures
            final(self).wf(),
            final(self)@ == delete_spec(old(self)@, at as int),
            final(self).classes() == old(self).classes(),
    {
        if at >= self.clusters.len() {
            return;
        }
        self.clusters.remove(at);
        proof {
            assert(self@ =~= old(self)@.remove(at as int));
        }
        let joined = join_clusters(&self.clusters);
        self.string = joined;
    }

    /// Concatenates `other` onto the end of this line, summing the cluster
    /// sequences. This line's highlight classes are left untouched and
    /// become stale.
    pub fn append(&mut self, other: &Row)
        requires
            old(self).wf(),
            other.wf(),
        ensures
            final(self).wf(),
            final(self)@ == old(self)@ + other@,
            final(self).classes() == old(self).classes(),
    {
        self.string.append(other.string.as_str());
        let mut i: usize = 0;
        proof {
            assert(other@.take(0) =~= Seq::<Seq<char>>::empty());
            assert(self@ + other@.take(0) =~= self@);
        }
        while i < other.clusters.len()
            invariant
                i <= other.clusters.len(),
                old(self).wf(),
                other.wf(),
                self@ == old(self)@ + other@.take(i as int),
                self.string@ == old(self).string@ + other.string@,
                self.highlighting == old(self).highlighting,
            decreases other.clusters.len() - i,
        {
            let ghost pre = self.clusters.deep_view();
            let cell = other.clusters[i].clone();
            proof {
                assert(cell == other.clusters@[i as int]);
            }
            self.clusters.push(cell);
            proof {
                assert(self@ =~= pre.push(cell@));
                assert(cell@ == other@[i as int]);
                assert(other@.take(i as int).push(other@[i as int]) =~= other@.take(i + 1));
                assert(self@ =~= old(self)@ + other@.take(i + 1));
            }
            i += 1;
        }
        proof {
            assert(other@.take(other@.len() as int) =~= other@);
            lemma_flatten_concat(old(self)@, other@);
        }
    }

    /// Splits the line at cluster index `at`: clusters before `at` stay
    /// here, the rest move into the returned row, whose highlight classes
    /// start empty. An `at` past the end moves nothing.
    pub fn split(&mut self, at: usize) -> (rest: Row)
        requires
            old(self).wf(),
        ensures
            final(self).wf(),
            rest.wf(),
            final(self)@ == old(self)@.take(split_point(old(self)@, at as int)),
            rest@ == old(self)@.skip(split_point(old(self)@, at as int)),
            final(self).classes() == old(self).classes(),
            rest.classes() == Seq::<Type>::empty(),
    {
        let n = self.clusters.len();
        let cut = if at < n {
            at
        } else {
            n
        };
        let mut rest_clusters: Vec<String> = Vec::new();
        let mut i: usize = cut;
        proof {
            assert(old(self)@.subrange(cut as int, cut as int) =~= Seq::<Seq<char>>::empty());
        }
        while i < n
            invariant
                cut <= i <= n,
                n == self.clusters.len(),
                old(self).wf(),
                self.string == old(self).string,
                self.clusters == old(self).clusters,
                self.highlighting == old(self).highlighting,
                rest_clusters.deep_view() == self@.subrange(cut as int, i as int),
            decreases n - i,
        {
            let ghost pre = rest_clusters.deep_view();
            let cell = self.clusters[i].clone();
            proof {
                assert(cell == self.clusters@[i as int]);
            }
            rest_clusters.push(cell);
            proof {
                assert(rest_clusters.deep_view() =~= pre.push(cell@));
                assert(cell@ == self@[i as int]);
                assert(self@.subrange(cut as int, i as int).push(self@[i as int]) =~= self@.subrange(
                    cut as int,
                    i + 1,
                ));
                assert(rest_clusters.deep_view() =~= self@.subrange(cut as int, i + 1));
            }
            i += 1;
        }
        self.clusters.truncate(cut);
        let joined = join_clusters(&self.clusters);
        self.string = joined;
        let rest_string = join_clusters(&rest_clusters);
        let rest = Row { string: rest_string, clusters: rest_clusters, highlighting: Vec::new() };
        proof {
            assert(self@ =~= old(self)@.take(split_point(old(self)@, at as int)));
            assert(rest@ =~= old(self)@.skip(split_point(old(self)@, at as int)));
        }
        rest
    }

    /// Searches for `query` from cluster index `at`: forward through the
    /// clusters `[at, len)`, backward through `[0, at)`. The returned index
    /// counts clusters of the full line. A match that does not start on a
    /// cluster boundary is treated as no match; an `at` past the end finds
    /// nothing.
    pub fn find(&self, query: &str, at: usize, direction: SearchDirection) -> (r: Option<usize>)
        requires
            self.wf(),
        ensures
            opt_index(r) == find_spec(self@, query@, at as int, direction),
    {
        let n = self.clusters.len();
        if at > n {
            return None;
        }
        let forward = direction == SearchDirection::Forward;
        let lo = if forward {
            at
        } else {
            0
        };
        let hi = if forward {
            n
        } else {
            at
        };
        let ghost gsub = self@.subrange(lo as int, hi as int);
        let mut text: Vec<char> = Vec::new();
        let mut starts: Vec<usize> = Vec::new();
        let mut k: usize = lo;
        proof {
            assert(gsub.take(0).flatten() =~= Seq::<char>::empty());
        }
        while k < hi
            invariant
                lo <= k <= hi,
                hi <= n,
                n == self@.len(),
                self.wf(),
                gsub == self@.subrange(lo as int, hi as int),
                starts@.len() == k - lo,
                forall|t: int| 0 <= t < k - lo ==> starts@[t] == gsub.take(t).flatten().len(),
                text@ == gsub.take(k - lo).flatten(),
            decreases hi - k,
        {
            starts.push(text.len());
            let cell = self.clusters[k].as_str();
            proof {
                assert(cell@ == self@[k as int]);
                assert(gsub[k - lo] == self@[k as int]);
            }
            let clen = cell.unicode_len();
            let mut j: usize = 0;
            while j < clen
                invariant
                    j <= clen,
                    lo <= k < hi,
                    clen == cell@.len(),
                    cell@ == gsub[k - lo],
                    text@ == gsub.take(k - lo).flatten() + cell@.take(j as int),
                decreases clen - j,
            {
                let c = cell.get_char(j);
                text.push(c);
                proof {
                    assert(cell@.take(j as int).push(cell@[j as int]) =~= cell@.take(j + 1));
                    assert(text@ =~= gsub.take(k - lo).flatten() + cell@.take(j + 1));
                }
                j += 1;
            }
            proof {
                assert(cell@.take(clen as int) =~= cell@);
                assert(gsub.take(k - lo).push(gsub[k - lo]) =~= gsub.take(k - lo + 1));
                gsub.take(k - lo).lemma_flatten_push(gsub[k - lo]);
                assert(text@ =~= gsub.take(k - lo + 1).flatten());
            }
            k += 1;
        }
        proof {
            assert(gsub.take(hi - lo) =~= gsub);
        }
        let mut q: Vec<char> = Vec::new();
        let qlen = query.unicode_len();
        let mut j: usize = 0;
        while j < qlen
            invariant
                j <= qlen,
                qlen == query@.len(),
                q@ == query@.take(j as int),
            decreases qlen - j,
        {
            let c = query.get_char(j);
            q.push(c);
            proof {
                assert(query@.take(j as int).push(query@[j as int]) =~= query@.take(j + 1));
            }
            j += 1;
        }
        proof {
            assert(query@.take(qlen as int) =~= query@);
        }
        let m = if forward {
            find_first(&text, &q)
        } else {
            find_last(&text, &q)
        };
        let ghost gm = if direction == SearchDirection::Forward {
            first_occurrence(gsub.flatten(), query@)
        } else {
            last_occurrence(gsub.flatten(), query@)
        };
        proof {
            assert(opt_index(m) == gm);
        }
        let b = match m {
            Some(b) => b,
            None => {
                return None;
            },
        };
        let nsub = starts.len();
        let mut k: usize = 0;
        proof {
            assert(gsub.skip(0) =~= gsub);
            assert(gsub.take(0).flatten() =~= Seq::<char>::empty());
        }
        while k < nsub
            invariant
                k <= nsub,
                nsub == hi - lo,
                lo <= hi <= n,
                n == self@.len(),
                at <= n,
                forward == (direction == SearchDirection::Forward),
                forward ==> lo == at && hi == n,
                !forward ==> lo == 0 && hi == at,
                gsub == self@.subrange(lo as int, hi as int),
                gm == (if direction == SearchDirection::Forward {
                    first_occurrence(gsub.flatten(), query@)
                } else {
                    last_occurrence(gsub.flatten(), query@)
                }),
                gm == Option::Some(b as int),
                starts@.len() == nsub,
                forall|t: int| 0 <= t < nsub ==> starts@[t] == gsub.take(t).flatten().len(),
                cluster_at_offset(gsub, b as int) == shift_opt(
                    cluster_at_offset(gsub.skip(k as int), b - gsub.take(k as int).flatten().len()),
                    k as int,
                ),
            decreases nsub - k,
        {
            if starts[k] == b {
                proof {
                    assert(b - gsub.take(k as int).flatten().len() == 0);
                    assert(gsub.skip(k as int).len() > 0);
                    assert(cluster_at_offset(gsub.skip(k as int), 0) == Option::Some(0int));
                    assert(cluster_at_offset(gsub, b as int) == Option::Some(k as int));
                }
                return Some(lo + k);
            }
            proof {
                let off = b - gsub.take(k as int).flatten().len();
                assert(off != 0);
                assert(gsub.skip(k as int).len() > 0);
                assert(gsub.skip(k as int)[0] == gsub[k as int]);
                assert(gsub.skip(k as int).drop_first() =~= gsub.skip(k as int + 1));
                assert(gsub.take(k as int).push(gsub[k as int]) =~= gsub.take(k as int + 1));
                gsub.take(k as int).lemma_flatten_push(gsub[k as int]);
                assert(cluster_at_offset(gsub.skip(k as int), off) == shift_opt(
                    cluster_at_offset(gsub.skip(k as int + 1), off - gsub[k as int].len()),
                    1,
                ));
            }
            k += 1;
        }
        proof {
            assert(gsub.skip(nsub as int).len() == 0);
            assert(cluster_at_offset(gsub, b as int) is None);
        }
        None
    }

    /// Rebuilds the highlight classes: one class per scalar value of the
    /// text, digits tagged as numbers, everything else as plain.
    pub fn hightlight(&mut self)
        requires
            old(self).wf(),
        ensures
            final(self).wf(),
            final(self)@ == old(self)@,
            final(self).classes() == highlighting::classes_of(old(self)@.flatten()),
    {
        let n = self.string.as_str().unicode_len();
        let mut hl: Vec<Type> = Vec::new();
        let mut j: usize = 0;
        while j < n
            invariant
                j <= n,
                n == self.string@.len(),
                self.string == old(self).string,
                self.clusters == old(self).clusters,
                self.highlighting == old(self).highlighting,
                hl@.len() == j,
                forall|t: int| 0 <= t < j ==> hl@[t] == highlighting::classify(self.string@[t]),
            decreases n - j,
        {
            let c = self.string.as_str().get_char(j);
            hl.push(highlighting::classify_char(c));
            j += 1;
        }
        self.highlighting = hl;
        proof {
            assert(self.highlighting@ =~= highlighting::classes_of(old(self).string@));
        }
    }

    /// Renders the cluster range `[start, end)`, clamped to the line: each
    /// cluster is preceded by its class's foreground marker and followed by
    /// a reset marker, and a tab shows as two spaces. No pair of indices
    /// makes this fail, and no cluster is ever split.
    pub fn render(&self, start: usize, end: usize) -> (out: String)
        requires
            self.wf(),
        ensures
            out@ == render_spec(self@, self.classes(), start as int, end as int),
    {
        let n = self.clusters.len();
        let e = if end < n {
            end
        } else {
            n
        };
        let s = if start < e {
            start
        } else {
            e
        };
        let mut out = String::new();
        let mut i: usize = s;
        while i < e
            invariant
                s <= i <= e,
                e <= n,
                n == self@.len(),
                self.wf(),
                out@ == styled_range(self@, self.classes(), s as int, i as int),
            decreases e - i,
        {
            let t = if i < self.highlighting.len() {
                self.highlighting[i]
            } else {
                Type::Plain
            };
            let marker = class_marker(t);
            out.append(marker.as_str());
            let cell = self.clusters[i].as_str();
            proof {
                assert(cell@ == self@[i as int]);
                assert(self@[i as int].len() >= 1);
            }
            let c0 = cell.get_char(0);
            if c0 == '\t' {
                out.append("  ");
                proof {
                    reveal_strlit("  ");
                    assert("  "@ =~= seq![' ', ' ']);
                }
            } else {
                out.append(cell);
            }
            let reset = reset_marker();
            out.append(reset.as_str());
            proof {
                lemma_styled_range_snoc(self@, self.classes(), s as int, i as int);
                assert(out@ =~= styled_range(self@, self.classes(), s as int, i + 1));
            }
            i += 1;
        }
        out
    }
}

impl Default for Row {
    /// An empty line: no text, no clusters, no highlight classes.
    fn default() -> (row: Row)
        ensures
            row.wf(),
            row@ == Seq::<Seq<char>>::empty(),
            row.classes() == Seq::<Type>::empty(),
    {
        let row = Row { string: String::new(), clusters: Vec::new(), highlighting: Vec::new() };
        proof {
            assert(row@ =~= Seq::<Seq<char>>::empty());
        }
        row
    }
}

} // verus!
