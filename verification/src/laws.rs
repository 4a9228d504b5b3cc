//! The library's stated laws, proved once and for all inputs: whitespace
//! rejection, the occurrence cap, the pagination tiling of the ranked
//! order, the ranking-policy override, freshness monotonicity and the
//! tracker penalty.

use vstd::prelude::*;

use crate::collector::{
    collected_ok, distinct_keys, lemma_collected_prefix, lemma_collected_unique, spec_page,
    SpecPointer,
};
use crate::index::SpecDocument;
use crate::optic::SpecSiteRankings;
use crate::parser::{spec_lex, spec_lex_from, SpecTerm};
use crate::query::{count_eq, lemma_cap_bound, lemma_cap_empty, spec_cap, MAX_SIMILAR_TERMS};
use crate::signal::{
    spec_coefficient, spec_fresh, spec_score, spec_trackers_raw, Signal, FRESHNESS_HORIZON,
    RAW_SCALE,
};
use crate::text::is_space;
use vstd::arithmetic::div_mod::lemma_div_is_ordered;
use vstd::arithmetic::mul::lemma_mul_inequality;

verus! {

// ---------------------------------------------------------------------------
// Whitespace-only queries compile to the empty query
// ---------------------------------------------------------------------------

proof fn lemma_lex_all_space(text: Seq<char>, i: int)
    requires
        forall|j: int| 0 <= j < text.len() ==> is_space(#[trigger] text[j]),
        0 <= i <= text.len(),
    ensures
        spec_lex_from(text, i).len() == 0,
    decreases text.len() - i,
{
    if i < text.len() {
        lemma_lex_all_space(text, i + 1);
    }
}

/// Any input consisting only of whitespace yields no terms, so the query
/// builder rejects it as empty: together with the `ensures` of
/// `LocalSearcher::search`, such a request ends in the empty-query error.
pub proof fn lemma_whitespace_query_is_empty(text: Seq<char>)
    requires
        forall|j: int| 0 <= j < text.len() ==> is_space(#[trigger] text[j]),
    ensures
        spec_cap(spec_lex(text)).len() == 0,
{
    lemma_lex_all_space(text, 0);
    lemma_cap_empty(spec_lex(text));
}

// ---------------------------------------------------------------------------
// The occurrence cap
// ---------------------------------------------------------------------------

/// However often one exact term repeats in the typed query, the compiled
/// term list — and with it the retrieval expression — holds at most the
/// cap's worth of occurrences of it. The display projection, by the
/// `ensures` of `Query::parse`, still reflects every typed occurrence.
pub proof fn lemma_repeated_term_capped(text: Seq<char>, t: SpecTerm)
    ensures
        count_eq(spec_cap(spec_lex(text)), t) <= MAX_SIMILAR_TERMS,
{
    lemma_cap_bound(spec_lex(text), t);
}

// ---------------------------------------------------------------------------
// Pagination
// ---------------------------------------------------------------------------

/// Page `p` of the ranking — what a request with `offset == p * psize` and
/// `top_n == psize` receives — is exactly the window
/// `[p * psize, (p+1) * psize)` of the full ranked order, clipped to its
/// length. Hence consecutive pages tile the ranking: no result repeats and
/// none is skipped, for any corpus and any page size.
pub proof fn lemma_pagination(
    seen: Seq<SpecPointer>,
    full: Seq<SpecPointer>,
    vk: Seq<SpecPointer>,
    psize: int,
    p: int,
)
    requires
        distinct_keys(seen),
        psize >= 1,
        p >= 0,
        collected_ok(full, seen, seen.len() as int),
        collected_ok(vk, seen, (p + 1) * psize),
    ensures
        spec_page(vk, p * psize, psize) == full.subrange(
            if p * psize < full.len() {
                p * psize
            } else {
                full.len() as int
            },
            if (p + 1) * psize < full.len() {
                (p + 1) * psize
            } else {
                full.len() as int
            },
        ),
{
    let k1 = (p + 1) * psize;
    let off = p * psize;
    assert(off >= 0) by {
        lemma_mul_inequality(0, p, psize);
    }
    assert(k1 == off + psize) by (nonlinear_arith)
        requires
            k1 == (p + 1) * psize,
            off == p * psize,
    {}
    assert(full.len() == seen.len());
    if k1 <= seen.len() {
        lemma_collected_prefix(vk, full, seen, k1, seen.len() as int);
        assert(vk == full.take(vk.len() as int));
        assert(vk.len() == k1);
    } else {
        assert(vk.len() == seen.len());
        assert(collected_ok(vk, seen, seen.len() as int));
        lemma_collected_unique(vk, full, seen, seen.len() as int);
        assert(vk == full.take(vk.len() as int)) by {
            assert(full.take(full.len() as int) =~= full);
        }
    }
    let lv = vk.len() as int;
    let a = if off < lv {
        off
    } else {
        lv
    };
    let b = if off + psize < lv {
        off + psize
    } else {
        lv
    };
    let fa = if off < full.len() {
        off
    } else {
        full.len() as int
    };
    let fb = if k1 < full.len() {
        k1
    } else {
        full.len() as int
    };
    assert(spec_page(vk, off, psize) =~= full.subrange(fa, fb)) by {
        assert(vk == full.take(lv));
        assert(a == fa);
        assert(b == fb);
        assert(forall|j: int| 0 <= j < lv ==> vk[j] == full[j]);
    }
}

// ---------------------------------------------------------------------------
// Ranking-policy override of host centrality
// ---------------------------------------------------------------------------

/// With the host-centrality coefficient set to zero, two documents that
/// differ only in host centrality score identically: their relative order
/// is decided by the remaining signals alone.
pub proof fn lemma_policy_overrides_centrality(
    coeffs: Seq<(Signal, u64)>,
    sr: SpecSiteRankings,
    d1: SpecDocument,
    d2: SpecDocument,
    ts: Seq<SpecTerm>,
    now: u64,
)
    requires
        spec_coefficient(coeffs, Signal::HostCentrality) == 0,
        d2 == (SpecDocument { host_centrality: d2.host_centrality, ..d1 }),
    ensures
        spec_score(coeffs, sr, d1, ts, now) == spec_score(coeffs, sr, d2, ts, now),
{
    assert(spec_coefficient(coeffs, Signal::HostCentrality) * d1.host_centrality == 0)
        by (nonlinear_arith)
        requires
            spec_coefficient(coeffs, Signal::HostCentrality) == 0,
    {}
    assert(spec_coefficient(coeffs, Signal::HostCentrality) * d2.host_centrality == 0)
        by (nonlinear_arith)
        requires
            spec_coefficient(coeffs, Signal::HostCentrality) == 0,
    {}
}

// ---------------------------------------------------------------------------
// Freshness monotonicity
// ---------------------------------------------------------------------------

/// The freshness signal never decreases with a more recent update time.
pub proof fn lemma_fresh_monotone(lu1: u64, lu2: u64, now: u64)
    requires
        lu1 <= lu2,
    ensures
        spec_fresh(Some(lu1), now) <= spec_fresh(Some(lu2), now),
        0 <= spec_fresh(Some(lu1), now),
{
    if lu2 >= now {
        if lu1 >= now {
        } else {
            let age1 = now - lu1;
            if age1 >= FRESHNESS_HORIZON {
            } else {
                let rem1 = FRESHNESS_HORIZON - age1;
                assert(rem1 * RAW_SCALE <= FRESHNESS_HORIZON * RAW_SCALE) by {
                    lemma_mul_inequality(rem1 as int, FRESHNESS_HORIZON as int, RAW_SCALE as int);
                }
                lemma_div_is_ordered(
                    rem1 * RAW_SCALE,
                    (FRESHNESS_HORIZON as int) * (RAW_SCALE as int),
                    FRESHNESS_HORIZON as int,
                );
                vstd::arithmetic::div_mod::lemma_div_multiples_vanish(
                    RAW_SCALE as int,
                    FRESHNESS_HORIZON as int,
                );
                assert(rem1 * RAW_SCALE >= 0) by (nonlinear_arith)
                    requires
                        rem1 >= 0,
                {}
                vstd::arithmetic::div_mod::lemma_div_pos_is_pos(
                    rem1 * RAW_SCALE,
                    FRESHNESS_HORIZON as int,
                );
            }
        }
    } else {
        let age1 = now - lu1;
        let age2 = now - lu2;
        if age2 >= FRESHNESS_HORIZON {
            if age1 >= FRESHNESS_HORIZON {
            } else {
                // age1 <= age2 < horizon contradicts age2 >= horizon unless
                // age1 >= horizon too; here age1 < horizon and age1 >= age2,
                // impossible.
                assert(false);
            }
        } else {
            if age1 >= FRESHNESS_HORIZON {
                let rem2 = FRESHNESS_HORIZON - age2;
                assert(rem2 * RAW_SCALE >= 0) by (nonlinear_arith)
                    requires
                        rem2 >= 0,
                {}
                vstd::arithmetic::div_mod::lemma_div_pos_is_pos(
                    rem2 * RAW_SCALE,
                    FRESHNESS_HORIZON as int,
                );
            } else {
                let rem1 = FRESHNESS_HORIZON - age1;
                let rem2 = FRESHNESS_HORIZON - age2;
                assert(rem1 <= rem2);
                assert(rem1 * RAW_SCALE <= rem2 * RAW_SCALE) by {
                    lemma_mul_inequality(rem1 as int, rem2 as int, RAW_SCALE as int);
                }
                lemma_div_is_ordered(
                    rem1 * RAW_SCALE,
                    rem2 * RAW_SCALE,
                    FRESHNESS_HORIZON as int,
                );
                assert(rem1 * RAW_SCALE >= 0) by (nonlinear_arith)
                    requires
                        rem1 >= 0,
                {}
                vstd::arithmetic::div_mod::lemma_div_pos_is_pos(
                    rem1 * RAW_SCALE,
                    FRESHNESS_HORIZON as int,
                );
            }
        }
    }
}

/// Of two otherwise-identical documents, the more recently updated one
/// scores at least as high, under any coefficient table.
pub proof fn lemma_freshness_monotone(
    coeffs: Seq<(Signal, u64)>,
    sr: SpecSiteRankings,
    d1: SpecDocument,
    d2: SpecDocument,
    ts: Seq<SpecTerm>,
    now: u64,
    lu1: u64,
    lu2: u64,
)
    requires
        d1.last_updated == Some(lu1),
        d2 == (SpecDocument { last_updated: Some(lu2), ..d1 }),
        lu1 <= lu2,
    ensures
        spec_score(coeffs, sr, d1, ts, now) <= spec_score(coeffs, sr, d2, ts, now),
{
    lemma_fresh_monotone(lu1, lu2, now);
    let c = spec_coefficient(coeffs, Signal::Freshness) as int;
    assert(c * spec_fresh(Some(lu1), now) <= c * spec_fresh(Some(lu2), now)) by {
        vstd::arithmetic::mul::lemma_mul_is_commutative(c, spec_fresh(Some(lu1), now));
        vstd::arithmetic::mul::lemma_mul_is_commutative(c, spec_fresh(Some(lu2), now));
        lemma_mul_inequality(spec_fresh(Some(lu1), now), spec_fresh(Some(lu2), now), c);
    }
}

// ---------------------------------------------------------------------------
// Tracker penalty
// ---------------------------------------------------------------------------

/// Of two otherwise-identical documents, the one with more detected
/// trackers scores no higher, under any coefficient table.
pub proof fn lemma_tracker_penalty(
    coeffs: Seq<(Signal, u64)>,
    sr: SpecSiteRankings,
    d1: SpecDocument,
    d2: SpecDocument,
    ts: Seq<SpecTerm>,
    now: u64,
)
    requires
        d2 == (SpecDocument { num_trackers: d2.num_trackers, ..d1 }),
        d1.num_trackers <= d2.num_trackers,
    ensures
        spec_score(coeffs, sr, d2, ts, now) <= spec_score(coeffs, sr, d1, ts, now),
{
    let c = spec_coefficient(coeffs, Signal::NumTrackers) as int;
    assert(spec_trackers_raw(d1.num_trackers) <= spec_trackers_raw(d2.num_trackers)) by {
        let m1 = if d1.num_trackers < 1000 {
            d1.num_trackers as int
        } else {
            1000int
        };
        let m2 = if d2.num_trackers < 1000 {
            d2.num_trackers as int
        } else {
            1000int
        };
        lemma_mul_inequality(m1, m2, RAW_SCALE as int);
    }
    assert(c * spec_trackers_raw(d1.num_trackers) <= c * spec_trackers_raw(d2.num_trackers)) by {
        vstd::arithmetic::mul::lemma_mul_is_commutative(c, spec_trackers_raw(d1.num_trackers));
        vstd::arithmetic::mul::lemma_mul_is_commutative(c, spec_trackers_raw(d2.num_trackers));
        lemma_mul_inequality(
            spec_trackers_raw(d1.num_trackers),
            spec_trackers_raw(d2.num_trackers),
            c,
        );
    }
}

} // verus!
