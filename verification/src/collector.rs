//! The top-k collector: a bounded best-k structure over scored candidates,
//! the deterministic tie-break order, near-duplicate de-ranking, and the
//! page window.

use vstd::prelude::*;

use crate::webpage::Region;

verus! {

/// An ephemeral reference to one scored candidate, valid for one search
/// call: where it lives, its score, and the tie-break fields.
#[derive(Debug, Clone)]
pub struct WebsitePointer {
    pub score: u128,
    pub host_centrality: u64,
    pub segment: usize,
    pub doc_id: usize,
    pub site: String,
}

pub struct SpecPointer {
    pub score: int,
    pub host_centrality: int,
    pub segment: int,
    pub doc_id: int,
    pub site: Seq<char>,
}

impl View for WebsitePointer {
    type V = SpecPointer;

    open spec fn view(&self) -> SpecPointer {
        SpecPointer {
            score: self.score as int,
            host_centrality: self.host_centrality as int,
            segment: self.segment as int,
            doc_id: self.doc_id as int,
            site: self.site@,
        }
    }
}

pub open spec fn pointers_view(v: Seq<WebsitePointer>) -> Seq<SpecPointer> {
    Seq::new(v.len(), |i: int| v[i]@)
}

/// `a` ranks strictly before `b`: higher score first, then higher host
/// centrality, then earlier encounter order. Over candidates with distinct
/// encounter positions this is a strict total order, so ranking is
/// deterministic.
pub open spec fn beats(a: SpecPointer, b: SpecPointer) -> bool {
    ||| a.score > b.score
    ||| (a.score == b.score && a.host_centrality > b.host_centrality)
    ||| (a.score == b.score && a.host_centrality == b.host_centrality && (a.segment < b.segment
        || (a.segment == b.segment && a.doc_id < b.doc_id)))
}

/// Two pointers reference different index positions.
pub open spec fn diff_key(a: SpecPointer, b: SpecPointer) -> bool {
    a.segment != b.segment || a.doc_id != b.doc_id
}

pub open spec fn distinct_keys(s: Seq<SpecPointer>) -> bool {
    forall|i: int, j: int| 0 <= i < j < s.len() ==> diff_key(#[trigger] s[i], #[trigger] s[j])
}

/// Strictly descending under `beats`.
pub open spec fn sorted_desc(v: Seq<SpecPointer>) -> bool {
    forall|i: int, j: int| 0 <= i < j < v.len() ==> beats(#[trigger] v[i], #[trigger] v[j])
}

/// Every pointer of `v` beats `x`.
pub open spec fn dominates_all(v: Seq<SpecPointer>, x: SpecPointer) -> bool {
    forall|i: int| 0 <= i < v.len() ==> beats(#[trigger] v[i], x)
}

/// `v` is the best-k of the candidates `seen`, in rank order: it is
/// descending, as long as the candidate count allows, drawn from the
/// candidates, and everything left out is beaten by everything kept.
pub open spec fn collected_ok(v: Seq<SpecPointer>, seen: Seq<SpecPointer>, k: int) -> bool {
    &&& v.len() == (if k < seen.len() {
        k
    } else {
        seen.len() as int
    })
    &&& sorted_desc(v)
    &&& (forall|i: int| 0 <= i < v.len() ==> seen.contains(#[trigger] v[i]))
    &&& (forall|j: int|
        0 <= j < seen.len() ==> (v.contains(#[trigger] seen[j]) || dominates_all(v, seen[j])))
    &&& (seen.len() <= k ==> forall|j: int|
        0 <= j < seen.len() ==> v.contains(#[trigger] seen[j]))
}

/// The best-k of `seen`, as a value: any two sequences that collect `seen`
/// are equal, so the choice is determined.
pub open spec fn spec_collected(seen: Seq<SpecPointer>, k: int) -> Seq<SpecPointer> {
    choose|v: Seq<SpecPointer>| collected_ok(v, seen, k)
}

/// Over distinct candidates, `beats` is antisymmetric.
proof fn lemma_beats_antisym(a: SpecPointer, b: SpecPointer)
    requires
        diff_key(a, b),
    ensures
        beats(a, b) <==> !beats(b, a),
{
}

/// The best-k is unique: any two collections of the same candidates under
/// the same bound are equal.
pub proof fn lemma_collected_unique(
    v: Seq<SpecPointer>,
    w: Seq<SpecPointer>,
    seen: Seq<SpecPointer>,
    k: int,
)
    requires
        distinct_keys(seen),
        collected_ok(v, seen, k),
        collected_ok(w, seen, k),
    ensures
        v == w,
{
    assert forall|i: int| 0 <= i < v.len() implies v[i] == w[i] by {
        lemma_collected_index(v, w, seen, k, i);
    }
    assert(v =~= w);
}

/// Sorted collections agree position by position (strong induction on the
/// position).
proof fn lemma_collected_index(
    v: Seq<SpecPointer>,
    w: Seq<SpecPointer>,
    seen: Seq<SpecPointer>,
    k: int,
    i: int,
)
    requires
        distinct_keys(seen),
        collected_ok(v, seen, k),
        collected_ok(w, seen, k),
        0 <= i < v.len(),
    ensures
        v[i] == w[i],
    decreases i,
{
    assert forall|j: int| 0 <= j < i implies v[j] == w[j] by {
        lemma_collected_index(v, w, seen, k, j);
    }
    if v[i] != w[i] {
        // Each element is in `seen`; find their candidate positions.
        let vi = choose|p: int| 0 <= p < seen.len() && seen[p] == v[i];
        let wi = choose|p: int| 0 <= p < seen.len() && seen[p] == w[i];
        assert(seen.contains(v[i]));
        assert(seen.contains(w[i]));
        // v[i] does not appear among w's first i entries (they equal v's, and
        // v is strictly sorted hence duplicate-free), so if v[i] is in w it
        // is at a later position and w[i] beats it; if it is not in w at all
        // it is dominated. Either way w[i] beats v[i], and symmetrically
        // v[i] beats w[i]: a contradiction with antisymmetry.
        lemma_one_beats_other(v, w, seen, k, i);
        lemma_one_beats_other(w, v, seen, k, i);
        if v[i].segment == w[i].segment && v[i].doc_id == w[i].doc_id {
            lemma_same_key_same(seen, vi, wi);
            assert(false);
        } else {
            lemma_beats_antisym(v[i], w[i]);
            assert(false);
        }
    }
}

/// Candidates with the same key are the same candidate.
proof fn lemma_same_key_same(seen: Seq<SpecPointer>, i: int, j: int)
    requires
        distinct_keys(seen),
        0 <= i < seen.len(),
        0 <= j < seen.len(),
        !diff_key(seen[i], seen[j]),
    ensures
        seen[i] == seen[j],
{
    if i < j {
        assert(diff_key(seen[i], seen[j]));
    } else if j < i {
        assert(diff_key(seen[j], seen[i]));
    }
}

/// If two collections agree up to `i` but differ at `i`, the second's entry
/// beats the first's (or they share a key).
proof fn lemma_one_beats_other(
    v: Seq<SpecPointer>,
    w: Seq<SpecPointer>,
    seen: Seq<SpecPointer>,
    k: int,
    i: int,
)
    requires
        distinct_keys(seen),
        collected_ok(v, seen, k),
        collected_ok(w, seen, k),
        0 <= i < v.len(),
        0 <= i < w.len(),
        forall|j: int| 0 <= j < i ==> v[j] == w[j],
        v[i] != w[i],
        diff_key(v[i], w[i]),
    ensures
        beats(w[i], v[i]),
{
    // v[i] is not among w[..=i].
    assert forall|j: int| 0 <= j <= i implies w[j] != v[i] by {
        if j < i {
            // w[j] == v[j]; v sorted strictly, so v[j] != v[i].
            assert(v[j] == w[j]);
            assert(beats(v[j], v[i]));
            if v[j] == v[i] {
                lemma_beats_antisym(v[j], v[i]);
            }
        }
    }
    if w.contains(v[i]) {
        let p = choose|p: int| 0 <= p < w.len() && w[p] == v[i];
        assert(p > i);
        assert(beats(w[i], w[p]));
    } else {
        assert(seen.contains(v[i]));
        let q = choose|q: int| 0 <= q < seen.len() && seen[q] == v[i];
        assert(w.contains(seen[q]) || dominates_all(w, seen[q]));
        if w.contains(seen[q]) {
            let p = choose|p: int| 0 <= p < w.len() && w[p] == seen[q];
            assert(w[p] == v[i]);
            assert(false);
        }
        assert(dominates_all(w, v[i]));
        assert(beats(w[i], v[i]));
    }
}

/// A larger collection starts with the smaller one: pages tile the full
/// ranking without overlap or gap.
pub proof fn lemma_collected_prefix(
    v: Seq<SpecPointer>,
    w: Seq<SpecPointer>,
    seen: Seq<SpecPointer>,
    k1: int,
    k2: int,
)
    requires
        distinct_keys(seen),
        collected_ok(v, seen, k1),
        collected_ok(w, seen, k2),
        0 <= k1 <= k2,
    ensures
        v == w.take(v.len() as int),
{
    let l1 = v.len() as int;
    let wt = w.take(l1);
    assert(wt.len() == l1);
    assert forall|j: int|
        0 <= j < seen.len() implies (wt.contains(#[trigger] seen[j]) || dominates_all(
        wt,
        seen[j],
    )) by {
        if !wt.contains(seen[j]) {
            if w.contains(seen[j]) {
                let p = choose|p: int| 0 <= p < w.len() && w[p] == seen[j];
                if p < l1 {
                    assert(wt[p] == seen[j]);
                    assert(false);
                }
                assert forall|i: int| 0 <= i < wt.len() implies beats(#[trigger] wt[i], seen[j])
                    by {
                    assert(wt[i] == w[i]);
                    assert(beats(w[i], w[p]));
                }
            } else {
                assert(dominates_all(w, seen[j]));
                assert forall|i: int| 0 <= i < wt.len() implies beats(#[trigger] wt[i], seen[j])
                    by {
                    assert(wt[i] == w[i]);
                }
            }
        }
    }
    if seen.len() <= k1 {
        assert forall|j: int| 0 <= j < seen.len() implies wt.contains(#[trigger] seen[j]) by {
            assert(w.contains(seen[j]));
            let q = choose|q: int| 0 <= q < w.len() && w[q] == seen[j];
            assert(q < l1);
            assert(wt[q] == seen[j]);
        }
    }
    assert(collected_ok(wt, seen, k1));
    lemma_collected_unique(v, wt, seen, k1);
}

// ---------------------------------------------------------------------------
// The bounded best-k structure
// ---------------------------------------------------------------------------

fn beats_exec(a: &WebsitePointer, b: &WebsitePointer) -> (r: bool)
    ensures
        r == beats(a@, b@),
{
    if a.score > b.score {
        true
    } else if a.score == b.score && a.host_centrality > b.host_centrality {
        true
    } else if a.score == b.score && a.host_centrality == b.host_centrality && (a.segment
        < b.segment || (a.segment == b.segment && a.doc_id < b.doc_id)) {
        true
    } else {
        false
    }
}

fn clone_pointer(p: &WebsitePointer) -> (r: WebsitePointer)
    ensures
        r@ == p@,
{
    WebsitePointer {
        score: p.score,
        host_centrality: p.host_centrality,
        segment: p.segment,
        doc_id: p.doc_id,
        site: p.site.clone(),
    }
}

/// Feeds one candidate into the bounded best-k structure.
pub fn topk_insert(
    v: &mut Vec<WebsitePointer>,
    p: WebsitePointer,
    k: usize,
    Ghost(seen): Ghost<Seq<SpecPointer>>,
)
    requires
        k >= 1,
        collected_ok(pointers_view(old(v)@), seen, k as int),
        distinct_keys(seen.push(p@)),
    ensures
        collected_ok(pointers_view(final(v)@), seen.push(p@), k as int),
{
    let ghost seen2 = seen.push(p@);
    let ghost pv = p@;
    proof {
        assert(seen2.drop_last() =~= seen);
        assert(seen2.last() == pv);
        assert(forall|j: int| 0 <= j < seen.len() ==> seen2[j] == seen[j]);
        // p's key differs from every candidate already seen, hence from
        // every kept pointer.
        assert forall|i: int| 0 <= i < pointers_view(v@).len() implies diff_key(
            #[trigger] pointers_view(v@)[i],
            pv,
        ) by {
            let x = pointers_view(v@)[i];
            assert(seen.contains(x));
            let q = choose|q: int| 0 <= q < seen.len() && seen[q] == x;
            assert(seen2[q] == x);
            assert(diff_key(seen2[q], seen2[seen.len() as int]));
        }
    }
    // Find the insertion position: the first kept pointer that p beats.
    let mut pos: usize = 0;
    loop
        invariant_except_break
            pv == p@,
            pos <= v@.len(),
            forall|j: int| 0 <= j < pos ==> !beats(pv, #[trigger] pointers_view(v@)[j]),
            collected_ok(pointers_view(v@), seen, k as int),
            v == old(v),
        ensures
            pv == p@,
            pos <= v@.len(),
            forall|j: int| 0 <= j < pos ==> !beats(pv, #[trigger] pointers_view(v@)[j]),
            pos < v@.len() ==> beats(pv, pointers_view(v@)[pos as int]),
            pos == v@.len() || beats(pv, pointers_view(v@)[pos as int]),
            collected_ok(pointers_view(v@), seen, k as int),
            v == old(v),
        decreases v@.len() - pos,
    {
        if pos >= v.len() {
            break;
        }
        let hit = beats_exec(&p, &v[pos]);
        proof {
            assert(pointers_view(v@)[pos as int] == v@[pos as int]@);
        }
        if hit {
            break;
        }
        pos = pos + 1;
    }
    if pos == v.len() {
        // p ranks after everything kept.
        if v.len() < k {
            let ghost old_view = pointers_view(v@);
            v.push(p);
            proof {
                assert(pointers_view(v@) =~= old_view.push(pv));
                lemma_append_after(old_view, pv, seen2, k as int);
            }
        } else {
            // Structure full and p beaten by all: p is left out.
            proof {
                let vv = pointers_view(v@);
                assert forall|i: int| 0 <= i < vv.len() implies beats(#[trigger] vv[i], pv) by {
                    lemma_beats_antisym(vv[i], pv);
                }
                assert(!vv.contains(pv)) by {
                    if vv.contains(pv) {
                        let q = choose|q: int| 0 <= q < vv.len() && vv[q] == pv;
                        assert(diff_key(vv[q], pv));
                    }
                }
                assert forall|j: int|
                    0 <= j < seen2.len() implies (pointers_view(v@).contains(#[trigger] seen2[j])
                    || dominates_all(pointers_view(v@), seen2[j])) by {
                    if j < seen.len() {
                        assert(seen2[j] == seen[j]);
                    }
                }
            }
        }
    } else {
        let ghost old_view = pointers_view(v@);
        v.insert(pos, p);
        proof {
            assert(pointers_view(v@) =~= old_view.insert(pos as int, pv));
            lemma_insert_mid(old_view, pv, pos as int, seen2, k as int);
        }
        if v.len() > k {
            let ghost mid_view = pointers_view(v@);
            let dropped = v.pop();
            proof {
                let vv = pointers_view(v@);
                assert(vv =~= mid_view.drop_last());
                lemma_truncate(mid_view, seen2, k as int);
            }
        } else {
            proof {
                let w = pointers_view(v@);
                assert(w.len() == old_view.len() + 1);
                assert(old_view.len() < k);
                assert(old_view.len() == seen.len());
                assert(w.len() == (if (k as int) < seen2.len() {
                    k as int
                } else {
                    seen2.len() as int
                }));
                assert forall|j: int| 0 <= j < seen2.len() implies w.contains(
                    #[trigger] seen2[j],
                ) by {
                    if j < seen.len() {
                        assert(seen2[j] == seen[j]);
                        assert(old_view.contains(seen[j]));
                        assert(w.contains(seen[j]));
                    } else {
                        assert(seen2[j] == pv);
                        assert(w.contains(pv));
                    }
                }
                assert(collected_ok(w, seen2, k as int));
            }
        }
    }
}

/// Appending a pointer that everything kept beats, when there is room.
proof fn lemma_append_after(v: Seq<SpecPointer>, p: SpecPointer, seen2: Seq<SpecPointer>, k: int)
    requires
        collected_ok(v, seen2.drop_last(), k),
        seen2.len() >= 1,
        seen2.last() == p,
        v.len() < k,
        forall|j: int| 0 <= j < v.len() ==> !beats(p, #[trigger] v[j]),
        forall|j: int| 0 <= j < v.len() ==> diff_key(#[trigger] v[j], p),
    ensures
        collected_ok(v.push(p), seen2, k),
{
    let seen = seen2.drop_last();
    let w = v.push(p);
    // There was room, so everything seen so far is kept and the counts
    // agree.
    assert(v.len() == seen.len());
    assert(seen.len() < k);
    assert(w.len() == (if k < seen2.len() {
        k as int
    } else {
        seen2.len() as int
    }));
    assert forall|i: int, j: int| 0 <= i < j < w.len() implies beats(
        #[trigger] w[i],
        #[trigger] w[j],
    ) by {
        if j == w.len() - 1 {
            assert(w[i] == v[i]);
            lemma_beats_antisym(v[i], p);
        } else {
            assert(w[i] == v[i]);
            assert(w[j] == v[j]);
        }
    }
    assert forall|i: int| 0 <= i < w.len() implies seen2.contains(#[trigger] w[i]) by {
        if i < v.len() {
            assert(seen.contains(v[i]));
            let q = choose|q: int| 0 <= q < seen.len() && seen[q] == v[i];
            assert(seen2[q] == v[i]);
        } else {
            assert(seen2[seen2.len() - 1] == p);
        }
    }
    assert forall|j: int| 0 <= j < seen2.len() implies w.contains(#[trigger] seen2[j]) by {
        if j < seen.len() {
            assert(seen2[j] == seen[j]);
            assert(v.contains(seen[j]));
            let q = choose|q: int| 0 <= q < v.len() && v[q] == seen[j];
            assert(w[q] == seen2[j]);
        } else {
            assert(seen2[j] == p);
            assert(w[w.len() - 1] == p);
        }
    }
}

/// Inserting a pointer at its rank position.
proof fn lemma_insert_mid(
    v: Seq<SpecPointer>,
    p: SpecPointer,
    pos: int,
    seen2: Seq<SpecPointer>,
    k: int,
)
    requires
        collected_ok(v, seen2.drop_last(), k),
        seen2.len() >= 1,
        seen2.last() == p,
        0 <= pos < v.len(),
        beats(p, v[pos]),
        forall|j: int| 0 <= j < pos ==> !beats(p, #[trigger] v[j]),
        forall|j: int| 0 <= j < v.len() ==> diff_key(#[trigger] v[j], p),
    ensures
        v.insert(pos, p).len() == v.len() + 1,
        sorted_desc(v.insert(pos, p)),
        forall|i: int| 0 <= i < v.insert(pos, p).len() ==> seen2.contains(
            #[trigger] v.insert(pos, p)[i],
        ),
        forall|j: int|
            0 <= j < seen2.len() ==> (v.insert(pos, p).contains(#[trigger] seen2[j])
                || dominates_all(v.insert(pos, p), seen2[j])),
        forall|x: SpecPointer| v.contains(x) ==> #[trigger] v.insert(pos, p).contains(x),
        v.insert(pos, p).contains(p),
{
    let seen = seen2.drop_last();
    let w = v.insert(pos, p);
    assert forall|i: int, j: int| 0 <= i < j < w.len() implies beats(
        #[trigger] w[i],
        #[trigger] w[j],
    ) by {
        if j < pos {
            assert(w[i] == v[i]);
            assert(w[j] == v[j]);
        } else if i < pos && j == pos {
            assert(w[i] == v[i]);
            assert(w[j] == p);
            lemma_beats_antisym(v[i], p);
        } else if i == pos {
            assert(w[i] == p);
            assert(w[j] == v[j - 1]);
            if j - 1 == pos {
            } else {
                assert(beats(v[pos], v[j - 1]));
            }
        } else if i < pos {
            assert(w[i] == v[i]);
            assert(w[j] == v[j - 1]);
            if i == j - 1 {
                lemma_beats_antisym(v[i], p);
            } else {
                assert(beats(v[i], v[j - 1]));
            }
        } else {
            assert(w[i] == v[i - 1]);
            assert(w[j] == v[j - 1]);
            assert(beats(v[i - 1], v[j - 1]));
        }
    }
    assert forall|i: int| 0 <= i < w.len() implies seen2.contains(#[trigger] w[i]) by {
        if i == pos {
            assert(seen2[seen2.len() - 1] == p);
        } else {
            let x = if i < pos {
                v[i]
            } else {
                v[i - 1]
            };
            assert(seen.contains(x));
            let q = choose|q: int| 0 <= q < seen.len() && seen[q] == x;
            assert(seen2[q] == x);
        }
    }
    assert forall|j: int|
        0 <= j < seen2.len() implies (w.contains(#[trigger] seen2[j]) || dominates_all(
        w,
        seen2[j],
    )) by {
        if j == seen2.len() - 1 {
            assert(w[pos] == p);
        } else {
            assert(seen2[j] == seen[j]);
            if v.contains(seen[j]) {
                let q = choose|q: int| 0 <= q < v.len() && v[q] == seen[j];
                if q < pos {
                    assert(w[q] == seen[j]);
                } else {
                    assert(w[q + 1] == seen[j]);
                }
            } else {
                assert(dominates_all(v, seen[j]));
                assert forall|i: int| 0 <= i < w.len() implies beats(#[trigger] w[i], seen2[j])
                    by {
                    if i == pos {
                        assert(beats(p, v[pos]));
                        assert(beats(v[pos], seen[j]));
                    } else if i < pos {
                        assert(w[i] == v[i]);
                    } else {
                        assert(w[i] == v[i - 1]);
                    }
                }
            }
        }
    }
    assert forall|x: SpecPointer| v.contains(x) implies #[trigger] w.contains(x) by {
        let q = choose|q: int| 0 <= q < v.len() && v[q] == x;
        if q < pos {
            assert(w[q] == x);
        } else {
            assert(w[q + 1] == x);
        }
    }
    assert(w[pos] == p);
}

/// Dropping the worst kept pointer once the structure overflows.
proof fn lemma_truncate(w: Seq<SpecPointer>, seen2: Seq<SpecPointer>, k: int)
    requires
        w.len() == k + 1,
        k >= 1,
        sorted_desc(w),
        forall|i: int| 0 <= i < w.len() ==> seen2.contains(#[trigger] w[i]),
        forall|j: int|
            0 <= j < seen2.len() ==> (w.contains(#[trigger] seen2[j]) || dominates_all(
                w,
                seen2[j],
            )),
        distinct_keys(seen2),
        k + 1 <= seen2.len(),
    ensures
        collected_ok(w.drop_last(), seen2, k),
{
    let v = w.drop_last();
    let d = w.last();
    assert(v.len() == k);
    assert(seen2.len() > k);
    assert forall|i: int| 0 <= i < v.len() implies seen2.contains(#[trigger] v[i]) by {
        assert(v[i] == w[i]);
    }
    assert forall|j: int|
        0 <= j < seen2.len() implies (v.contains(#[trigger] seen2[j]) || dominates_all(
        v,
        seen2[j],
    )) by {
        if w.contains(seen2[j]) {
            let q = choose|q: int| 0 <= q < w.len() && w[q] == seen2[j];
            if q < w.len() - 1 {
                assert(v[q] == seen2[j]);
            } else {
                // seen2[j] is the dropped pointer: everything kept beats it.
                assert forall|i: int| 0 <= i < v.len() implies beats(
                    #[trigger] v[i],
                    seen2[j],
                ) by {
                    assert(v[i] == w[i]);
                    assert(beats(w[i], w[w.len() - 1]));
                }
            }
        } else {
            assert(dominates_all(w, seen2[j]));
            assert forall|i: int| 0 <= i < v.len() implies beats(#[trigger] v[i], seen2[j]) by {
                assert(v[i] == w[i]);
            }
        }
    }
}

// ---------------------------------------------------------------------------
// Near-duplicate de-ranking
// ---------------------------------------------------------------------------

/// `x`'s similarity key (its site) occurs in `s`.
pub open spec fn site_in(s: Seq<SpecPointer>, site: Seq<char>) -> bool {
    exists|j: int| 0 <= j < s.len() && (#[trigger] s[j]).site == site
}

/// The ranked pointers whose site was not seen earlier: the promoted
/// representative of each near-duplicate group.
pub open spec fn spec_front(s: Seq<SpecPointer>) -> Seq<SpecPointer>
    decreases s.len(),
{
    if s.len() == 0 {
        Seq::empty()
    } else {
        spec_front(s.drop_last()) + (if site_in(s.drop_last(), s.last().site) {
            Seq::empty()
        } else {
            seq![s.last()]
        })
    }
}

/// The demoted near-duplicates, in their original relative order.
pub open spec fn spec_tail(s: Seq<SpecPointer>) -> Seq<SpecPointer>
    decreases s.len(),
{
    if s.len() == 0 {
        Seq::empty()
    } else {
        spec_tail(s.drop_last()) + (if site_in(s.drop_last(), s.last().site) {
            seq![s.last()]
        } else {
            Seq::empty()
        })
    }
}

/// De-ranking groups candidates by their similarity key (the site): the
/// best of each group keeps its place at the front, the others move to the
/// tail so later pages can still reach them.
pub open spec fn spec_derank(s: Seq<SpecPointer>) -> Seq<SpecPointer> {
    spec_front(s) + spec_tail(s)
}

/// When every site is distinct, de-ranking changes nothing.
pub proof fn lemma_derank_distinct_sites(s: Seq<SpecPointer>)
    requires
        forall|i: int, j: int|
            0 <= i < j < s.len() ==> (#[trigger] s[i]).site != (#[trigger] s[j]).site,
    ensures
        spec_front(s) == s,
        spec_tail(s) == Seq::<SpecPointer>::empty(),
        spec_derank(s) == s,
    decreases s.len(),
{
    if s.len() > 0 {
        let pre = s.drop_last();
        assert(forall|i: int, j: int|
            0 <= i < j < pre.len() ==> (#[trigger] pre[i]).site != (#[trigger] pre[j]).site);
        lemma_derank_distinct_sites(pre);
        assert(!site_in(pre, s.last().site)) by {
            if site_in(pre, s.last().site) {
                let j = choose|j: int| 0 <= j < pre.len() && (#[trigger] pre[j]).site
                    == s.last().site;
                assert(s[j].site == s[s.len() - 1].site);
            }
        }
        assert(spec_tail(s) =~= Seq::<SpecPointer>::empty());
        assert(spec_front(s) =~= pre.push(s.last()));
        assert(spec_front(s) =~= s);
        assert(spec_derank(s) =~= s);
    } else {
        assert(spec_front(s) =~= s);
        assert(spec_tail(s) =~= Seq::<SpecPointer>::empty());
        assert(spec_derank(s) =~= s);
    }
}

fn site_seen(v: &Vec<WebsitePointer>, upto: usize, site: &String) -> (r: bool)
    requires
        upto <= v@.len(),
    ensures
        r == site_in(pointers_view(v@).take(upto as int), site@),
{
    let mut j: usize = 0;
    while j < upto
        invariant
            j <= upto <= v@.len(),
            forall|i: int| 0 <= i < j ==> (#[trigger] pointers_view(v@)[i]).site != site@,
        decreases upto - j,
    {
        if v[j].site.eq(site) {
            proof {
                assert(pointers_view(v@)[j as int].site == site@);
                assert(pointers_view(v@).take(upto as int)[j as int].site == site@);
            }
            return true;
        }
        proof {
            assert(pointers_view(v@)[j as int] == v@[j as int]@);
        }
        j = j + 1;
    }
    proof {
        let t = pointers_view(v@).take(upto as int);
        assert(forall|i: int| 0 <= i < t.len() ==> (#[trigger] t[i]).site != site@);
    }
    false
}

/// Applies near-duplicate de-ranking to a ranked pointer list.
pub fn derank_similar(v: &Vec<WebsitePointer>) -> (r: Vec<WebsitePointer>)
    ensures
        pointers_view(r@) == spec_derank(pointers_view(v@)),
{
    let mut front: Vec<WebsitePointer> = Vec::new();
    let mut tail: Vec<WebsitePointer> = Vec::new();
    let mut i: usize = 0;
    proof {
        assert(pointers_view(front@) =~= spec_front(pointers_view(v@).take(0)));
        assert(pointers_view(tail@) =~= spec_tail(pointers_view(v@).take(0)));
    }
    while i < v.len()
        invariant
            i <= v@.len(),
            pointers_view(front@) == spec_front(pointers_view(v@).take(i as int)),
            pointers_view(tail@) == spec_tail(pointers_view(v@).take(i as int)),
        decreases v@.len() - i,
    {
        let ghost pre = pointers_view(v@).take(i as int);
        let seen = site_seen(v, i, &v[i].site);
        let item = clone_pointer(&v[i]);
        let ghost itemv = item@;
        proof {
            assert(itemv == pointers_view(v@)[i as int]);
        }
        if seen {
            let ghost tv = pointers_view(tail@);
            tail.push(item);
            proof {
                assert(pointers_view(tail@) =~= tv.push(itemv));
            }
        } else {
            let ghost fv = pointers_view(front@);
            front.push(item);
            proof {
                assert(pointers_view(front@) =~= fv.push(itemv));
            }
        }
        i = i + 1;
        proof {
            let cur = pointers_view(v@).take(i as int);
            assert(cur.drop_last() =~= pre);
            assert(cur.last() == pointers_view(v@)[i - 1]);
            assert(pointers_view(front@) =~= spec_front(cur));
            assert(pointers_view(tail@) =~= spec_tail(cur));
        }
    }
    proof {
        assert(pointers_view(v@).take(v@.len() as int) =~= pointers_view(v@));
    }
    let ghost fv = pointers_view(front@);
    let ghost tv = pointers_view(tail@);
    let mut out = front;
    let mut tail2 = tail;
    out.append(&mut tail2);
    proof {
        assert(pointers_view(out@) =~= fv + tv);
    }
    out
}

// ---------------------------------------------------------------------------
// The page window
// ---------------------------------------------------------------------------

/// The window `[offset, offset + n)` of a ranked list, clipped to its
/// length.
pub open spec fn spec_page(s: Seq<SpecPointer>, offset: int, n: int) -> Seq<SpecPointer> {
    let a = if offset < s.len() {
        offset
    } else {
        s.len() as int
    };
    let b = if offset + n < s.len() {
        offset + n
    } else {
        s.len() as int
    };
    s.subrange(a, b)
}

/// Cuts the requested page out of the ranked list.
pub fn page_slice(v: &Vec<WebsitePointer>, offset: usize, n: usize) -> (r: Vec<WebsitePointer>)
    ensures
        pointers_view(r@) == spec_page(pointers_view(v@), offset as int, n as int),
{
    let len = v.len();
    let a = if offset < len {
        offset
    } else {
        len
    };
    let b = if n <= len && a <= len - n {
        a + n
    } else {
        len
    };
    let mut r: Vec<WebsitePointer> = Vec::new();
    let mut i = a;
    proof {
        assert(pointers_view(r@) =~= pointers_view(v@).subrange(a as int, a as int));
    }
    while i < b
        invariant
            a <= i <= b <= v@.len(),
            pointers_view(r@) == pointers_view(v@).subrange(a as int, i as int),
        decreases b - i,
    {
        let ghost rv = pointers_view(r@);
        let item = clone_pointer(&v[i]);
        let ghost itemv = item@;
        proof {
            assert(itemv == pointers_view(v@)[i as int]);
        }
        r.push(item);
        i = i + 1;
        proof {
            assert(pointers_view(r@) =~= rv.push(itemv));
            assert(pointers_view(v@).subrange(a as int, i as int) =~= pointers_view(v@).subrange(
                a as int,
                i - 1,
            ).push(pointers_view(v@)[i - 1]));
            assert(pointers_view(r@) =~= pointers_view(v@).subrange(a as int, i as int));
        }
    }
    proof {
        let s = pointers_view(v@);
        let sa = if offset < s.len() {
            offset as int
        } else {
            s.len() as int
        };
        let sb = if offset + n < s.len() {
            offset + n
        } else {
            s.len() as int
        };
        assert(a == sa);
        assert(b == sb);
    }
    r
}

/// Budget and region knobs of one ranking pass.
#[derive(Debug, Clone, Copy, PartialEq, Eq, Structural)]
pub struct MaxDocsConsidered {
    pub total_docs: usize,
    pub segments: usize,
}

/// The search-time driver's knobs: region restriction, page window, scan
/// budget and near-duplicate handling.
#[derive(Debug)]
pub struct Ranker {
    pub selected_region: Option<Region>,
    pub max_docs: Option<MaxDocsConsidered>,
    pub offset: Option<usize>,
    pub de_rank_similar: bool,
}

impl Ranker {
    pub fn new() -> (r: Ranker)
        ensures
            r.selected_region is None,
            r.max_docs is None,
            r.offset is None,
            r.de_rank_similar,
    {
        Ranker { selected_region: None, max_docs: None, offset: None, de_rank_similar: true }
    }

    pub fn with_region(self, region: Region) -> (r: Ranker)
        ensures
            r.selected_region == Some(region),
            r.max_docs == self.max_docs,
            r.offset == self.offset,
            r.de_rank_similar == self.de_rank_similar,
    {
        Ranker { selected_region: Some(region), ..self }
    }

    pub fn with_offset(self, offset: usize) -> (r: Ranker)
        ensures
            r.offset == Some(offset),
            r.max_docs == self.max_docs,
            r.selected_region == self.selected_region,
            r.de_rank_similar == self.de_rank_similar,
    {
        Ranker { offset: Some(offset), ..self }
    }

    pub fn with_max_docs(self, total_docs: usize, segments: usize) -> (r: Ranker)
        ensures
            r.max_docs == Some(MaxDocsConsidered { total_docs, segments }),
            r.offset == self.offset,
            r.selected_region == self.selected_region,
            r.de_rank_similar == self.de_rank_similar,
    {
        Ranker { max_docs: Some(MaxDocsConsidered { total_docs, segments }), ..self }
    }

    pub fn de_rank_similar(&mut self, de_rank_similar: bool)
        ensures
            final(self).de_rank_similar == de_rank_similar,
            final(self).max_docs == old(self).max_docs,
            final(self).offset == old(self).offset,
            final(self).selected_region == old(self).selected_region,
    {
        self.de_rank_similar = de_rank_similar;
    }
}

} // verus!
