//! Scoring, ordering and deduplication of candidate lists.
//!
//! `rank` applies the scoring formula once to every candidate, sorts the
//! list by the adjusted confidence, highest first and ties in input order,
//! and then keeps only the first candidate for each distinct text. The
//! whole transformation is pinned down by the spec functions below, so the
//! output is a function of the input list alone.

use vstd::prelude::*;
use crate::models::{Confidence, Prediction, PredictionSource, PredictionType};
use crate::text;

verus! {

/// Scoring weight of a candidate's provenance, in permille.
pub open spec fn spec_source_multiplier(s: PredictionSource) -> u32 {
    match s {
        PredictionSource::History => 1200,
        PredictionSource::UserPatterns => 1300,
        PredictionSource::GitContext => 1100,
        _ => 1000,
    }
}

/// Scoring weight of a candidate's kind, in permille.
pub open spec fn spec_type_multiplier(t: PredictionType) -> u32 {
    match t {
        PredictionType::FullCommand => 1100,
        _ => 1000,
    }
}

/// The adjusted confidence of one candidate: the confidence times both
/// weights, plus a usage bonus of 40 permille per recorded acceptance up
/// to five, the sum clamped to 1000.
pub open spec fn spec_score(p: Prediction) -> u32 {
    let base = p.confidence.0 * spec_source_multiplier(p.source) * spec_type_multiplier(
        p.prediction_type,
    ) / 1000000;
    let bonus: int = if p.usage_count > 0 {
        if p.usage_count >= 5 {
            200
        } else {
            p.usage_count * 40
        }
    } else {
        0
    };
    if base + bonus >= 1000 {
        1000u32
    } else {
        (base + bonus) as u32
    }
}

/// The candidate with its adjusted confidence written back.
pub open spec fn spec_scored(p: Prediction) -> Prediction {
    Prediction { confidence: Confidence(spec_score(p)), ..p }
}

/// Every candidate rescored.
pub open spec fn score_all(s: Seq<Prediction>) -> Seq<Prediction> {
    s.map_values(|p: Prediction| spec_scored(p))
}

/// Non-increasing confidence.
pub open spec fn sorted_desc(s: Seq<Prediction>) -> bool {
    forall|i: int, j: int|
        0 <= i < j < s.len() ==> #[trigger] s[i].confidence.0 >= #[trigger] s[j].confidence.0
}

/// `p` placed into `s` after every element whose confidence is at least
/// `p`'s own; on a sorted list this is the stable descending insertion.
pub open spec fn insert_desc(s: Seq<Prediction>, p: Prediction) -> Seq<Prediction>
    decreases s.len(),
{
    if s.len() == 0 {
        seq![p]
    } else if s.last().confidence.0 < p.confidence.0 {
        insert_desc(s.drop_last(), p).push(s.last())
    } else {
        s.push(p)
    }
}

/// Stable insertion sort by confidence, highest first.
pub open spec fn sort_desc(s: Seq<Prediction>) -> Seq<Prediction>
    decreases s.len(),
{
    if s.len() == 0 {
        Seq::<Prediction>::empty()
    } else {
        insert_desc(sort_desc(s.drop_last()), s.last())
    }
}

/// Whether some element of `s` carries the text `t`.
pub open spec fn contains_text(s: Seq<Prediction>, t: Seq<char>) -> bool {
    exists|k: int| 0 <= k < s.len() && #[trigger] s[k].text@ == t
}

/// The list with every candidate whose text occurred earlier removed.
pub open spec fn dedup_texts(s: Seq<Prediction>) -> Seq<Prediction>
    decreases s.len(),
{
    if s.len() == 0 {
        Seq::<Prediction>::empty()
    } else {
        let prefix = dedup_texts(s.drop_last());
        if contains_text(s.drop_last(), s.last().text@) {
            prefix
        } else {
            prefix.push(s.last())
        }
    }
}

/// What `rank` does to a list.
pub open spec fn rank_spec(s: Seq<Prediction>) -> Seq<Prediction> {
    dedup_texts(sort_desc(score_all(s)))
}

/// `insert_desc` is insertion at the position `idx` that the executable
/// scan from the right finds.
proof fn lemma_insert_desc_at(s: Seq<Prediction>, p: Prediction, idx: int)
    requires
        0 <= idx <= s.len(),
        forall|j: int| idx <= j < s.len() ==> #[trigger] s[j].confidence.0 < p.confidence.0,
        idx > 0 ==> s[idx - 1].confidence.0 >= p.confidence.0,
    ensures
        insert_desc(s, p) == s.insert(idx, p),
    decreases s.len(),
{
    if s.len() == 0 {
        assert(insert_desc(s, p) =~= s.insert(0, p));
    } else if idx == s.len() {
        assert(s.last().confidence.0 >= p.confidence.0);
        assert(insert_desc(s, p) =~= s.insert(idx, p));
    } else {
        assert(s.last().confidence.0 < p.confidence.0);
        lemma_insert_desc_at(s.drop_last(), p, idx);
        assert(insert_desc(s, p) =~= s.drop_last().insert(idx, p).push(s.last()));
        assert(s.drop_last().insert(idx, p).push(s.last()) =~= s.insert(idx, p));
    }
}

/// Deduplication keeps exactly the texts of the input.
proof fn lemma_dedup_contains(s: Seq<Prediction>, t: Seq<char>)
    ensures
        contains_text(dedup_texts(s), t) == contains_text(s, t),
    decreases s.len(),
{
    if s.len() == 0 {
    } else {
        lemma_dedup_contains(s.drop_last(), t);
        let prefix = dedup_texts(s.drop_last());
        let dup = contains_text(s.drop_last(), s.last().text@);
        // every text of `s` survives into the deduplicated list
        if contains_text(s, t) {
            let k = choose|k: int| 0 <= k < s.len() && #[trigger] s[k].text@ == t;
            if k < s.len() - 1 {
                assert(s.drop_last()[k].text@ == t);
                assert(contains_text(prefix, t));
                let k2 = choose|k2: int| 0 <= k2 < prefix.len() && #[trigger] prefix[k2].text@
                    == t;
                assert(dedup_texts(s)[k2].text@ == t);
            } else if dup {
                assert(t == s.last().text@);
                assert(contains_text(s.drop_last(), t));
                assert(contains_text(prefix, t));
                let k2 = choose|k2: int| 0 <= k2 < prefix.len() && #[trigger] prefix[k2].text@
                    == t;
                assert(dedup_texts(s)[k2].text@ == t);
            } else {
                assert(dedup_texts(s)[prefix.len() as int].text@ == t);
            }
            assert(contains_text(dedup_texts(s), t));
        }
        // and the deduplicated list invents no text
        if contains_text(dedup_texts(s), t) {
            let k = choose|k: int| 0 <= k < dedup_texts(s).len() && #[trigger] dedup_texts(
                s,
            )[k].text@ == t;
            if dup || k < prefix.len() {
                assert(prefix[k].text@ == t);
                assert(contains_text(prefix, t));
                assert(contains_text(s.drop_last(), t));
                let k3 = choose|k3: int| 0 <= k3 < s.drop_last().len()
                    && #[trigger] s.drop_last()[k3].text@ == t;
                assert(s[k3].text@ == t);
            } else {
                assert(dedup_texts(s)[k] == s.last());
                assert(s[s.len() - 1].text@ == t);
            }
            assert(contains_text(s, t));
        }
    }
}

/// Pairwise distinct adjusted confidences.
pub open spec fn distinct_confidences(s: Seq<Prediction>) -> bool {
    forall|i: int, j: int|
        0 <= i < j < s.len() ==> #[trigger] s[i].confidence.0 != #[trigger] s[j].confidence.0
}

/// Insertion keeps the list sorted.
proof fn lemma_insert_desc_sorted(s: Seq<Prediction>, p: Prediction)
    requires
        sorted_desc(s),
    ensures
        sorted_desc(insert_desc(s, p)),
    decreases s.len(),
{
    if s.len() == 0 {
    } else if s.last().confidence.0 < p.confidence.0 {
        assert(sorted_desc(s.drop_last())) by {
            assert(forall|i: int|
                0 <= i < s.drop_last().len() ==> s.drop_last()[i] == #[trigger] s[i]);
        }
        lemma_insert_desc_sorted(s.drop_last(), p);
        let r = insert_desc(s.drop_last(), p);
        assert forall|i: int, j: int| 0 <= i < j < r.push(s.last()).len() implies #[trigger] r.push(
            s.last(),
        )[i].confidence.0 >= #[trigger] r.push(s.last())[j].confidence.0 by {
            lemma_insert_desc_multiset(s.drop_last(), p);
            if j == r.len() {
                let e = r[i];
                assert(r.to_multiset().contains(e)) by {
                    broadcast use vstd::seq_lib::group_to_multiset_ensures;

                    assert(r.contains(e));
                }
                assert(s.drop_last().to_multiset().insert(p).contains(e));
                if e == p || s.drop_last().to_multiset().count(e) > 0 {
                    broadcast use vstd::seq_lib::group_to_multiset_ensures;

                    if e == p {
                        assert(e.confidence.0 >= s.last().confidence.0);
                    } else {
                        assert(s.drop_last().contains(e));
                        let w = choose|w: int|
                            0 <= w < s.drop_last().len() && s.drop_last()[w] == e;
                        assert(s[w].confidence.0 >= s.last().confidence.0);
                    }
                }
            }
        }
    } else {
        assert forall|i: int, j: int| 0 <= i < j < s.push(p).len() implies #[trigger] s.push(
            p,
        )[i].confidence.0 >= #[trigger] s.push(p)[j].confidence.0 by {
            if j == s.len() {
                if i < s.len() - 1 {
                    assert(s[i].confidence.0 >= s[s.len() - 1].confidence.0);
                }
            }
        }
    }
}

/// Insertion adds exactly the new element to the list's contents.
proof fn lemma_insert_desc_multiset(s: Seq<Prediction>, p: Prediction)
    ensures
        insert_desc(s, p).to_multiset() == s.to_multiset().insert(p),
    decreases s.len(),
{
    broadcast use vstd::seq_lib::group_to_multiset_ensures;

    if s.len() == 0 {
        assert(insert_desc(s, p) =~= Seq::<Prediction>::empty().push(p));
        assert(Seq::<Prediction>::empty().push(p).to_multiset() =~= s.to_multiset().insert(p));
    } else if s.last().confidence.0 < p.confidence.0 {
        lemma_insert_desc_multiset(s.drop_last(), p);
        assert(s =~= s.drop_last().push(s.last()));
        assert(s.to_multiset() =~= s.drop_last().to_multiset().insert(s.last()));
        assert(insert_desc(s, p).to_multiset() =~= insert_desc(s.drop_last(), p).to_multiset()
            .insert(s.last()));
        assert(s.drop_last().to_multiset().insert(p).insert(s.last()) =~= s.drop_last()
            .to_multiset().insert(s.last()).insert(p));
    } else {
        assert(s.push(p).to_multiset() =~= s.to_multiset().insert(p));
    }
}

/// Sorting keeps exactly the list's contents.
pub proof fn lemma_sort_desc_multiset(s: Seq<Prediction>)
    ensures
        sort_desc(s).to_multiset() == s.to_multiset(),
    decreases s.len(),
{
    broadcast use vstd::seq_lib::group_to_multiset_ensures;

    if s.len() == 0 {
        assert(sort_desc(s).to_multiset() =~= s.to_multiset());
    } else {
        lemma_sort_desc_multiset(s.drop_last());
        lemma_insert_desc_multiset(sort_desc(s.drop_last()), s.last());
        assert(s =~= s.drop_last().push(s.last()));
        assert(s.to_multiset() =~= s.drop_last().to_multiset().insert(s.last()));
    }
}

/// Sorting sorts.
pub proof fn lemma_sort_desc_sorted(s: Seq<Prediction>)
    ensures
        sorted_desc(sort_desc(s)),
    decreases s.len(),
{
    if s.len() == 0 {
    } else {
        lemma_sort_desc_sorted(s.drop_last());
        lemma_insert_desc_sorted(sort_desc(s.drop_last()), s.last());
    }
}

/// Two sorted lists of the same candidates, all of distinct adjusted
/// confidence, are one and the same list.
proof fn lemma_sorted_unique(x: Seq<Prediction>, y: Seq<Prediction>)
    requires
        sorted_desc(x),
        sorted_desc(y),
        x.to_multiset() == y.to_multiset(),
        distinct_confidences(x),
    ensures
        x == y,
    decreases x.len(),
{
    broadcast use vstd::seq_lib::group_to_multiset_ensures;

    assert(x.to_multiset().len() == x.len());
    assert(y.to_multiset().len() == y.len());
    if x.len() == 0 {
        assert(x =~= y);
    } else {
        // the heads carry the one maximal confidence, so they are equal
        assert(y.contains(x[0])) by {
            assert(x.contains(x[0]));
            assert(x.to_multiset().count(x[0]) > 0);
            assert(y.to_multiset().count(x[0]) > 0);
        }
        let k = choose|k: int| 0 <= k < y.len() && y[k] == x[0];
        assert(y[0].confidence.0 >= x[0].confidence.0) by {
            if k > 0 {
                assert(y[0].confidence.0 >= y[k].confidence.0);
            }
        }
        assert(x.contains(y[0])) by {
            assert(y.contains(y[0]));
            assert(y.to_multiset().count(y[0]) > 0);
            assert(x.to_multiset().count(y[0]) > 0);
        }
        let j = choose|j: int| 0 <= j < x.len() && x[j] == y[0];
        assert(x[0].confidence.0 >= y[0].confidence.0) by {
            if j > 0 {
                assert(x[0].confidence.0 >= x[j].confidence.0);
            }
        }
        assert(x[j].confidence.0 == x[0].confidence.0);
        assert(j == 0) by {
            if j > 0 {
                assert(x[0].confidence.0 != x[j].confidence.0);
            }
        }
        assert(x[0] == y[0]);
        let xt = x.drop_first();
        let yt = y.drop_first();
        assert(xt =~= x.remove(0));
        assert(yt =~= y.remove(0));
        assert(xt.to_multiset() =~= x.to_multiset().remove(x[0]));
        assert(yt.to_multiset() =~= y.to_multiset().remove(y[0]));
        assert(sorted_desc(xt)) by {
            assert(forall|i: int| 0 <= i < xt.len() ==> xt[i] == #[trigger] x[i + 1]);
        }
        assert(sorted_desc(yt)) by {
            assert(forall|i: int| 0 <= i < yt.len() ==> yt[i] == #[trigger] y[i + 1]);
        }
        assert(distinct_confidences(xt)) by {
            assert(forall|i: int| 0 <= i < xt.len() ==> xt[i] == #[trigger] x[i + 1]);
        }
        lemma_sorted_unique(xt, yt);
        assert forall|i: int| 0 <= i < x.len() implies x[i] == y[i] by {
            if i > 0 {
                assert(x[i] == xt[i - 1]);
                assert(y[i] == yt[i - 1]);
            }
        }
        assert(x =~= y);
    }
}

/// Law: ranking is deterministic over the unordered candidate set. Two
/// input orders of the same candidates, with pairwise distinct adjusted
/// confidences, sort to the same list, so `rank` returns the same output
/// whichever source finished first.
pub proof fn lemma_ranking_determinism(a: Seq<Prediction>, b: Seq<Prediction>)
    requires
        a.to_multiset() == b.to_multiset(),
        distinct_confidences(sort_desc(a)),
    ensures
        sort_desc(a) == sort_desc(b),
{
    lemma_sort_desc_sorted(a);
    lemma_sort_desc_sorted(b);
    lemma_sort_desc_multiset(a);
    lemma_sort_desc_multiset(b);
    lemma_sorted_unique(sort_desc(a), sort_desc(b));
}

/// Every text of the input survives deduplication, and on a sorted list
/// the survivor scores at least as high as any candidate of that text.
///
/// Law: of two candidates with the same text, only the higher-ranked one
/// survives, and no text is lost.
pub proof fn lemma_dedup_keeps_best(s: Seq<Prediction>, i: int)
    requires
        sorted_desc(s),
        0 <= i < s.len(),
    ensures
        exists|k: int|
            0 <= k < dedup_texts(s).len() && #[trigger] dedup_texts(s)[k].text@ == s[i].text@
                && dedup_texts(s)[k].confidence.0 >= s[i].confidence.0,
{
    lemma_first_occ_exists(s, i);
    let j = choose|j: int|
        0 <= j <= i && #[trigger] s[j].text@ == s[i].text@ && first_occ(s, j);
    lemma_dedup_keeps_first(s, j);
    let k = choose|k: int| 0 <= k < dedup_texts(s).len() && #[trigger] dedup_texts(s)[k] == s[j];
    assert(dedup_texts(s)[k].text@ == s[i].text@);
    assert(s[j].confidence.0 >= s[i].confidence.0) by {
        if j < i {
            assert(s[j].confidence.0 >= s[i].confidence.0);
        }
    }
}

/// No text occurs twice after deduplication.
///
/// Law: deduplication leaves one candidate per distinct text.
pub proof fn lemma_dedup_distinct_texts(s: Seq<Prediction>)
    ensures
        forall|a: int, b: int|
            0 <= a < b < dedup_texts(s).len() ==> #[trigger] dedup_texts(s)[a].text@
                != #[trigger] dedup_texts(s)[b].text@,
    decreases s.len(),
{
    if s.len() == 0 {
    } else {
        lemma_dedup_distinct_texts(s.drop_last());
        let prefix = dedup_texts(s.drop_last());
        if !contains_text(s.drop_last(), s.last().text@) {
            assert forall|a: int, b: int|
                0 <= a < b < dedup_texts(s).len() implies #[trigger] dedup_texts(s)[a].text@
                != #[trigger] dedup_texts(s)[b].text@ by {
                if b == prefix.len() {
                    assert(dedup_texts(s)[a] == prefix[a]);
                    lemma_dedup_contains(s.drop_last(), prefix[a].text@);
                    assert(contains_text(prefix, prefix[a].text@)) by {
                        assert(prefix[a].text@ == prefix[a].text@);
                    }
                    assert(contains_text(s.drop_last(), prefix[a].text@));
                } else {
                    assert(dedup_texts(s)[a] == prefix[a]);
                    assert(dedup_texts(s)[b] == prefix[b]);
                }
            }
        }
    }
}

/// Whether no earlier candidate carries the text at `i`.
pub open spec fn first_occ(s: Seq<Prediction>, i: int) -> bool {
    forall|j: int| 0 <= j < i ==> #[trigger] s[j].text@ != s[i].text@
}

/// Some earlier or equal index is the first occurrence of the text at `i`.
proof fn lemma_first_occ_exists(s: Seq<Prediction>, i: int)
    requires
        0 <= i < s.len(),
    ensures
        exists|j: int| 0 <= j <= i && #[trigger] s[j].text@ == s[i].text@ && first_occ(s, j),
    decreases i,
{
    if first_occ(s, i) {
        assert(s[i].text@ == s[i].text@);
    } else {
        let j0 = choose|j0: int| 0 <= j0 < i && #[trigger] s[j0].text@ == s[i].text@;
        lemma_first_occ_exists(s, j0);
        let j = choose|j: int| 0 <= j <= j0 && #[trigger] s[j].text@ == s[j0].text@ && first_occ(s, j);
        assert(s[j].text@ == s[i].text@);
    }
}

/// A first occurrence survives deduplication as it stands.
proof fn lemma_dedup_keeps_first(s: Seq<Prediction>, j: int)
    requires
        0 <= j < s.len(),
        first_occ(s, j),
    ensures
        exists|k: int| 0 <= k < dedup_texts(s).len() && #[trigger] dedup_texts(s)[k] == s[j],
    decreases s.len(),
{
    let prefix = dedup_texts(s.drop_last());
    if j == s.len() - 1 {
        assert(!contains_text(s.drop_last(), s.last().text@)) by {
            if contains_text(s.drop_last(), s.last().text@) {
                let w = choose|w: int|
                    0 <= w < s.drop_last().len() && #[trigger] s.drop_last()[w].text@
                        == s.last().text@;
                assert(s[w].text@ == s[j].text@);
            }
        }
        assert(dedup_texts(s)[prefix.len() as int] == s[j]);
    } else {
        assert(first_occ(s.drop_last(), j)) by {
            assert(forall|w: int|
                0 <= w < s.drop_last().len() ==> s.drop_last()[w] == #[trigger] s[w]);
        }
        lemma_dedup_keeps_first(s.drop_last(), j);
        let k = choose|k: int| 0 <= k < prefix.len() && #[trigger] prefix[k] == s.drop_last()[j];
        assert(s.drop_last()[j] == s[j]);
        if contains_text(s.drop_last(), s.last().text@) {
            assert(dedup_texts(s)[k] == s[j]);
        } else {
            assert(dedup_texts(s)[k] == prefix[k]);
            assert(dedup_texts(s)[k] == s[j]);
        }
    }
}

/// Whether `e` occurs in `s`.
pub open spec fn pred_member(s: Seq<Prediction>, e: Prediction) -> bool {
    exists|i: int| 0 <= i < s.len() && #[trigger] s[i] == e
}

/// Every deduplicated candidate is one of the input's.
proof fn lemma_dedup_members(s: Seq<Prediction>)
    ensures
        forall|k: int|
            0 <= k < dedup_texts(s).len() ==> pred_member(s, #[trigger] dedup_texts(s)[k]),
    decreases s.len(),
{
    if s.len() == 0 {
    } else {
        lemma_dedup_members(s.drop_last());
        let prefix = dedup_texts(s.drop_last());
        assert forall|k: int| 0 <= k < dedup_texts(s).len() implies pred_member(
            s,
            dedup_texts(s)[k],
        ) by {
            if !contains_text(s.drop_last(), s.last().text@) && k == prefix.len() {
                assert(s[s.len() - 1] == dedup_texts(s)[k]);
            } else {
                assert(dedup_texts(s)[k] == prefix[k]);
                assert(pred_member(s.drop_last(), prefix[k]));
                let i = choose|i: int|
                    0 <= i < s.drop_last().len() && #[trigger] s.drop_last()[i] == prefix[k];
                assert(s[i] == dedup_texts(s)[k]);
            }
        }
    }
}

/// Deduplication keeps a sorted list sorted.
proof fn lemma_dedup_sorted(s: Seq<Prediction>)
    requires
        sorted_desc(s),
    ensures
        sorted_desc(dedup_texts(s)),
    decreases s.len(),
{
    if s.len() == 0 {
    } else {
        assert(sorted_desc(s.drop_last())) by {
            assert(forall|i: int|
                0 <= i < s.drop_last().len() ==> s.drop_last()[i] == #[trigger] s[i]);
        }
        lemma_dedup_sorted(s.drop_last());
        lemma_dedup_members(s.drop_last());
        let prefix = dedup_texts(s.drop_last());
        if !contains_text(s.drop_last(), s.last().text@) {
            assert forall|a: int, b: int|
                0 <= a < b < dedup_texts(s).len() implies #[trigger] dedup_texts(
                s,
            )[a].confidence.0 >= #[trigger] dedup_texts(s)[b].confidence.0 by {
                if b == prefix.len() {
                    assert(dedup_texts(s)[a] == prefix[a]);
                    assert(pred_member(s.drop_last(), prefix[a]));
                    let i = choose|i: int|
                        0 <= i < s.drop_last().len() && #[trigger] s.drop_last()[i] == prefix[a];
                    assert(s[i].confidence.0 >= s[s.len() - 1].confidence.0);
                } else {
                    assert(dedup_texts(s)[a] == prefix[a]);
                    assert(dedup_texts(s)[b] == prefix[b]);
                }
            }
        }
    }
}

/// Law: what `rank` leaves behind is sorted by adjusted confidence,
/// highest first, and holds one candidate per distinct text.
pub proof fn lemma_rank_spec_properties(s: Seq<Prediction>)
    ensures
        sorted_desc(rank_spec(s)),
        forall|a: int, b: int|
            0 <= a < b < rank_spec(s).len() ==> #[trigger] rank_spec(s)[a].text@
                != #[trigger] rank_spec(s)[b].text@,
{
    lemma_sort_desc_sorted(score_all(s));
    lemma_dedup_sorted(sort_desc(score_all(s)));
    lemma_dedup_distinct_texts(sort_desc(score_all(s)));
}

/// Law: when the top-ranked candidate sits below the ghost-text
/// threshold, no candidate of a sorted list clears it, so no ghost text
/// is shown even though the list is not empty.
pub proof fn lemma_ghost_threshold(s: Seq<Prediction>)
    requires
        sorted_desc(s),
        s.len() > 0,
        s[0].confidence.0 < 400,
    ensures
        forall|i: int| 0 <= i < s.len() ==> #[trigger] s[i].confidence.0 < 400,
{
    assert forall|i: int| 0 <= i < s.len() implies #[trigger] s[i].confidence.0 < 400 by {
        if i > 0 {
            assert(s[0].confidence.0 >= s[i].confidence.0);
        }
    }
}

/// Whether some element of `v` carries the text `t`.
fn contains_text_exec(v: &Vec<Prediction>, t: &str) -> (r: bool)
    ensures
        r == contains_text(v@, t@),
{
    let mut i: usize = 0;
    while i < v.len()
        invariant
            0 <= i <= v@.len(),
            forall|k: int| 0 <= k < i ==> #[trigger] v@[k].text@ != t@,
        decreases v@.len() - i,
    {
        if text::str_eq(v[i].text.as_str(), t) {
            return true;
        }
        i = i + 1;
    }
    false
}

/// Ranks candidate lists; carries no state of its own.
pub struct PredictionRanker;

impl PredictionRanker {
    /// A ranker.
    pub fn new() -> (r: Self)
        ensures
            r == PredictionRanker,
    {
        PredictionRanker
    }

    /// Scores, sorts and deduplicates `predictions` in place; the result
    /// is `rank_spec` of the input.
    pub fn rank(&self, predictions: &mut Vec<Prediction>)
        ensures
            final(predictions)@ == rank_spec(old(predictions)@),
    {
        let ghost input = predictions@;
        // 1. Apply the scoring formula to every candidate.
        let mut i: usize = 0;
        while i < predictions.len()
            invariant
                0 <= i <= predictions@.len(),
                predictions@.len() == input.len(),
                forall|j: int| 0 <= j < i ==> predictions@[j] == spec_scored(#[trigger] input[j]),
                forall|j: int| i <= j < input.len() ==> #[trigger] predictions@[j] == input[j],
            decreases predictions@.len() - i,
        {
            let c = predictions[i].confidence.0 as u64;
            let sm = source_multiplier(predictions[i].source) as u64;
            let tm = type_multiplier(predictions[i].prediction_type) as u64;
            let base = c * sm * tm / 1000000;
            let usage = predictions[i].usage_count;
            let bonus: u64 = if usage > 0 {
                if usage >= 5 {
                    200
                } else {
                    (usage as u64) * 40
                }
            } else {
                0
            };
            let total = base + bonus;
            let clamped: u32 = if total >= 1000 {
                1000
            } else {
                total as u32
            };
            predictions[i].confidence = Confidence(clamped);
            i = i + 1;
        }
        proof {
            assert(predictions@ =~= score_all(input));
        }
        // 2. Stable insertion sort, highest confidence first.
        let ghost scored = predictions@;
        let mut sorted: Vec<Prediction> = Vec::new();
        let ghost mut done: int = 0;
        while predictions.len() > 0
            invariant
                0 <= done <= scored.len(),
                predictions@ =~= scored.subrange(done, scored.len() as int),
                sorted@ == sort_desc(scored.subrange(0, done)),
            decreases predictions@.len(),
        {
            let p = predictions.remove(0);
            proof {
                assert(p == scored[done]);
            }
            let mut idx: usize = sorted.len();
            while idx > 0 && sorted[idx - 1].confidence.0 < p.confidence.0
                invariant
                    0 <= idx <= sorted@.len(),
                    forall|j: int|
                        idx <= j < sorted@.len() ==> #[trigger] sorted@[j].confidence.0
                            < p.confidence.0,
                decreases idx,
            {
                idx = idx - 1;
            }
            let ghost before = sorted@;
            sorted.insert(idx, p);
            proof {
                lemma_insert_desc_at(before, p, idx as int);
                let prev = scored.subrange(0, done);
                let next = scored.subrange(0, done + 1);
                assert(next.drop_last() =~= prev);
                assert(next.last() == scored[done]);
                assert(sorted@ == insert_desc(sort_desc(prev), p));
                done = done + 1;
                assert(predictions@ =~= scored.subrange(done, scored.len() as int));
            }
        }
        // 3. Keep only the first candidate of each distinct text.
        let ghost ordered = sorted@;
        let mut out: Vec<Prediction> = Vec::new();
        let ghost mut kept: int = 0;
        proof {
            assert(scored.subrange(0, scored.len() as int) =~= scored);
            assert(ordered == sort_desc(scored));
        }
        while sorted.len() > 0
            invariant
                0 <= kept <= ordered.len(),
                sorted@ =~= ordered.subrange(kept, ordered.len() as int),
                out@ == dedup_texts(ordered.subrange(0, kept)),
            decreases sorted@.len(),
        {
            let p = sorted.remove(0);
            proof {
                assert(p == ordered[kept]);
            }
            let seen = contains_text_exec(&out, p.text.as_str());
            proof {
                let prev = ordered.subrange(0, kept);
                let next = ordered.subrange(0, kept + 1);
                assert(next.drop_last() =~= prev);
                assert(next.last() == ordered[kept]);
                lemma_dedup_contains(prev, p.text@);
            }
            if !seen {
                out.push(p);
            }
            proof {
                kept = kept + 1;
                assert(sorted@ =~= ordered.subrange(kept, ordered.len() as int));
            }
        }
        proof {
            assert(ordered.subrange(0, ordered.len() as int) =~= ordered);
        }
        *predictions = out;
    }

    /// The first candidate whose confidence clears the ghost-text
    /// threshold, if any.
    pub fn filter_for_ghost<'a>(&self, predictions: &'a [Prediction]) -> (r: Option<
        &'a Prediction,
    >)
        ensures
            (match r {
                Some(p) => exists|i: int|
                    {
                        &&& 0 <= i < predictions@.len()
                        &&& #[trigger] predictions@[i] == *p
                        &&& predictions@[i].confidence.0 >= 400
                        &&& forall|j: int| 0 <= j < i ==> #[trigger] predictions@[j].confidence.0 < 400
                    },
                None => forall|i: int|
                    0 <= i < predictions@.len() ==> #[trigger] predictions@[i].confidence.0 < 400,
            }),
    {
        let mut i: usize = 0;
        while i < predictions.len()
            invariant
                0 <= i <= predictions@.len(),
                forall|j: int| 0 <= j < i ==> #[trigger] predictions@[j].confidence.0 < 400,
            decreases predictions@.len() - i,
        {
            if predictions[i].confidence.is_high_enough_for_ghost() {
                return Some(&predictions[i]);
            }
            i = i + 1;
        }
        None
    }
}

/// Scoring weight of a candidate's provenance, in permille.
fn source_multiplier(s: PredictionSource) -> (r: u32)
    ensures
        r == spec_source_multiplier(s),
{
    match s {
        PredictionSource::History => 1200,
        PredictionSource::UserPatterns => 1300,
        PredictionSource::GitContext => 1100,
        _ => 1000,
    }
}

/// Scoring weight of a candidate's kind, in permille.
fn type_multiplier(t: PredictionType) -> (r: u32)
    ensures
        r == spec_type_multiplier(t),
{
    match t {
        PredictionType::FullCommand => 1100,
        _ => 1000,
    }
}

} // verus!
