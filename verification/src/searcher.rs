//! The search-time driver: runs a query over the index's segments under a
//! scan budget, keeps the best k candidates, applies near-duplicate
//! de-ranking and the page window, and hydrates the final page.

use vstd::prelude::*;

use crate::collector::{
    collected_ok, derank_similar, diff_key, distinct_keys, lemma_collected_unique, page_slice,
    pointers_view, spec_collected, spec_derank, spec_page, topk_insert, MaxDocsConsidered, Ranker,
    SpecPointer, WebsitePointer,
};
use crate::index::{doc_matches, matches_expression, Document, Index, Segment, SpecDocument};
use crate::optic::{clone_string_vec, SiteRankings};
use crate::parser::terms_view;
use crate::query::{expr_view, Query, SearchError, SearchQuery, SpecClause};
use crate::signal::{query_tokens, spec_query_tokens, spec_score, SignalAggregator};
use crate::text::{str_chars, subvec, chars_to_string};
use crate::timeutil::now_seconds;
use crate::webpage::{spec_region_id, Region};

verus! {

/// Handle to the out-of-scope entity index collaborator.
#[derive(Debug)]
pub struct EntityIndex {}

/// Handle to the out-of-scope bang-redirection collaborator.
#[derive(Debug)]
pub struct Bangs {}

/// How many characters of the body the stored snippet keeps.
pub const SNIPPET_LEN: usize = 256;

/// A hydrated result: the stored fields of one of the final pointers.
#[derive(Debug, Clone)]
pub struct RetrievedWebpage {
    pub title: String,
    pub url: String,
    pub body: String,
    pub snippet: String,
    pub description: Option<String>,
    pub updated_time: Option<u64>,
}

pub struct SpecRetrieved {
    pub title: Seq<char>,
    pub url: Seq<char>,
    pub body: Seq<char>,
    pub snippet: Seq<char>,
    pub description: Option<Seq<char>>,
    pub updated_time: Option<u64>,
}

impl View for RetrievedWebpage {
    type V = SpecRetrieved;

    open spec fn view(&self) -> SpecRetrieved {
        SpecRetrieved {
            title: self.title@,
            url: self.url@,
            body: self.body@,
            snippet: self.snippet@,
            description: match self.description {
                Some(d) => Some(d@),
                None => None,
            },
            updated_time: self.updated_time,
        }
    }
}

/// What hydrating one stored document yields.
pub open spec fn spec_retrieved(d: SpecDocument) -> SpecRetrieved {
    SpecRetrieved {
        title: d.title,
        url: d.url,
        body: d.body,
        snippet: d.body.take(
            if d.body.len() < SNIPPET_LEN {
                d.body.len() as int
            } else {
                SNIPPET_LEN as int
            },
        ),
        description: d.description,
        updated_time: d.last_updated,
    }
}

/// The first phase's outcome: the total hit count and the page of pointers.
#[derive(Debug)]
pub struct InitialSearchHits {
    pub num_websites: usize,
    pub top_websites: Vec<WebsitePointer>,
}

/// The first phase's outcome, before hydration.
#[derive(Debug)]
pub struct InitialWebsiteResult {
    pub spell_corrected_query: Option<String>,
    pub websites: InitialSearchHits,
}

#[derive(Debug)]
pub enum InitialSearchResult {
    Websites(InitialWebsiteResult),
}

/// One hydrated result page.
#[derive(Debug)]
pub struct SearchHits {
    pub num_docs: usize,
    pub documents: Vec<RetrievedWebpage>,
}

#[derive(Debug)]
pub struct WebsitesResult {
    pub spell_corrected_query: Option<String>,
    pub webpages: SearchHits,
}

#[derive(Debug)]
pub enum SearchResult {
    Websites(WebsitesResult),
}

impl SearchResult {
    pub fn into_websites(self) -> (r: Option<WebsitesResult>)
        ensures
            match (r, self) {
                (Some(_), SearchResult::Websites(_)) => true,
                _ => false,
            },
    {
        match self {
            SearchResult::Websites(res) => Some(res),
        }
    }
}

// ---------------------------------------------------------------------------
// The candidate stream
// ---------------------------------------------------------------------------

/// Whether the optional region restriction admits a document: documents
/// indexed without a region pass every restriction.
pub open spec fn region_ok(d: SpecDocument, region: Option<Region>) -> bool {
    match region {
        None => true,
        Some(Region::All) => true,
        Some(r) => d.region_id == spec_region_id(r) || d.region_id == 0,
    }
}

/// Whether a scanned document becomes a candidate.
pub open spec fn admitted(d: SpecDocument, expr: Seq<SpecClause>, region: Option<Region>) -> bool {
    doc_matches(d, expr) && region_ok(d, region)
}

/// The pointer a candidate produces.
pub open spec fn spec_pointer(d: SpecDocument, seg: int, id: int, score: int) -> SpecPointer {
    SpecPointer {
        score: score,
        host_centrality: d.host_centrality as int,
        segment: seg,
        doc_id: id,
        site: d.site,
    }
}

/// The scoring context of one request: everything a candidate's score
/// depends on besides the document.
pub struct ScoreCtx {
    pub coeffs: Seq<(crate::signal::Signal, u64)>,
    pub site_rankings: crate::optic::SpecSiteRankings,
    pub terms: Seq<crate::parser::SpecTerm>,
    pub now: u64,
}

pub open spec fn ctx_score(ctx: ScoreCtx, d: SpecDocument) -> int {
    spec_score(ctx.coeffs, ctx.site_rankings, d, ctx.terms, ctx.now)
}

/// The candidates of one segment's first `upto` documents, in encounter
/// order.
pub open spec fn seg_cands(
    docs: Seq<Document>,
    upto: int,
    seg: int,
    expr: Seq<SpecClause>,
    region: Option<Region>,
    ctx: ScoreCtx,
) -> Seq<SpecPointer>
    decreases upto,
{
    if upto <= 0 {
        Seq::empty()
    } else {
        seg_cands(docs, upto - 1, seg, expr, region, ctx) + (if 0 <= upto - 1 < docs.len()
            && admitted(docs[upto - 1]@, expr, region) {
            seq![spec_pointer(docs[upto - 1]@, seg, upto - 1, ctx_score(ctx, docs[upto - 1]@))]
        } else {
            Seq::empty()
        })
    }
}

/// The per-segment scan limit the budget allows.
pub open spec fn spec_seg_limit(max_docs: Option<MaxDocsConsidered>, docs_len: int) -> int {
    match max_docs {
        None => docs_len,
        Some(m) => {
            let per = if m.segments == 0 {
                m.total_docs as int
            } else {
                m.total_docs as int / m.segments as int
            };
            let per1 = if per < 1 {
                1
            } else {
                per
            };
            if per1 < docs_len {
                per1
            } else {
                docs_len
            }
        },
    }
}

/// All candidates of the first `nsegs` segments, in encounter order.
pub open spec fn all_cands(
    segs: Seq<Segment>,
    nsegs: int,
    expr: Seq<SpecClause>,
    region: Option<Region>,
    max_docs: Option<MaxDocsConsidered>,
    ctx: ScoreCtx,
) -> Seq<SpecPointer>
    decreases nsegs,
{
    if nsegs <= 0 {
        Seq::empty()
    } else {
        all_cands(segs, nsegs - 1, expr, region, max_docs, ctx) + (if nsegs - 1 < segs.len() {
            seg_cands(
                segs[nsegs - 1].docs@,
                spec_seg_limit(max_docs, segs[nsegs - 1].docs@.len() as int),
                nsegs - 1,
                expr,
                region,
                ctx,
            )
        } else {
            Seq::empty()
        })
    }
}

/// Every segment-scan pointer carries its segment and a document position
/// below the scan bound.
proof fn lemma_seg_cands_keys(
    docs: Seq<Document>,
    upto: int,
    seg: int,
    expr: Seq<SpecClause>,
    region: Option<Region>,
    ctx: ScoreCtx,
)
    ensures
        forall|t: int|
            0 <= t < seg_cands(docs, upto, seg, expr, region, ctx).len() ==> {
                let x = #[trigger] seg_cands(docs, upto, seg, expr, region, ctx)[t];
                x.segment == seg && 0 <= x.doc_id < upto
            },
        forall|t1: int, t2: int|
            0 <= t1 < t2 < seg_cands(docs, upto, seg, expr, region, ctx).len() ==> #[trigger] seg_cands(
                docs,
                upto,
                seg,
                expr,
                region,
                ctx,
            )[t1].doc_id < #[trigger] seg_cands(docs, upto, seg, expr, region, ctx)[t2].doc_id,
    decreases upto,
{
    if upto > 0 {
        lemma_seg_cands_keys(docs, upto - 1, seg, expr, region, ctx);
        let pre = seg_cands(docs, upto - 1, seg, expr, region, ctx);
        let cur = seg_cands(docs, upto, seg, expr, region, ctx);
        assert forall|t: int| 0 <= t < cur.len() implies ((#[trigger] cur[t]).segment == seg && 0
            <= cur[t].doc_id < upto) by {
            if t < pre.len() {
                assert(cur[t] == pre[t]);
            }
        }
        assert forall|t1: int, t2: int| 0 <= t1 < t2 < cur.len() implies (#[trigger] cur[t1]).doc_id
            < (#[trigger] cur[t2]).doc_id by {
            if t2 < pre.len() {
                assert(cur[t1] == pre[t1]);
                assert(cur[t2] == pre[t2]);
            } else {
                assert(cur[t1] == pre[t1]);
            }
        }
    }
}

/// Every pointer of the candidate stream names a segment below the bound.
proof fn lemma_all_cands_keys(
    segs: Seq<Segment>,
    nsegs: int,
    expr: Seq<SpecClause>,
    region: Option<Region>,
    max_docs: Option<MaxDocsConsidered>,
    ctx: ScoreCtx,
)
    ensures
        forall|t: int|
            0 <= t < all_cands(segs, nsegs, expr, region, max_docs, ctx).len() ==> {
                let x = #[trigger] all_cands(segs, nsegs, expr, region, max_docs, ctx)[t];
                0 <= x.segment < nsegs
            },
        distinct_keys(all_cands(segs, nsegs, expr, region, max_docs, ctx)),
    decreases nsegs,
{
    if nsegs > 0 {
        lemma_all_cands_keys(segs, nsegs - 1, expr, region, max_docs, ctx);
        let pre = all_cands(segs, nsegs - 1, expr, region, max_docs, ctx);
        let cur = all_cands(segs, nsegs, expr, region, max_docs, ctx);
        if nsegs - 1 < segs.len() {
            lemma_seg_cands_keys(
                segs[nsegs - 1].docs@,
                spec_seg_limit(max_docs, segs[nsegs - 1].docs@.len() as int),
                nsegs - 1,
                expr,
                region,
                ctx,
            );
        }
        let sc = if nsegs - 1 < segs.len() {
            seg_cands(
                segs[nsegs - 1].docs@,
                spec_seg_limit(max_docs, segs[nsegs - 1].docs@.len() as int),
                nsegs - 1,
                expr,
                region,
                ctx,
            )
        } else {
            Seq::<SpecPointer>::empty()
        };
        assert(cur =~= pre + sc);
        assert forall|t: int| 0 <= t < cur.len() implies (0 <= (#[trigger] cur[t]).segment
            < nsegs) by {
            if t < pre.len() {
                assert(cur[t] == pre[t]);
            } else {
                assert(cur[t] == sc[t - pre.len()]);
            }
        }
        assert forall|a: int, b: int| 0 <= a < b < cur.len() implies diff_key(
            #[trigger] cur[a],
            #[trigger] cur[b],
        ) by {
            if b < pre.len() {
                assert(cur[a] == pre[a]);
                assert(cur[b] == pre[b]);
            } else if a < pre.len() {
                assert(cur[a] == pre[a]);
                assert(cur[b] == sc[b - pre.len()]);
                assert(cur[a].segment < nsegs - 1);
            } else {
                assert(cur[a] == sc[a - pre.len()]);
                assert(cur[b] == sc[b - pre.len()]);
            }
        }
    }
}

/// A mathematical count clipped to what a machine word reports.
pub open spec fn clamp_len(n: int) -> int {
    if n > usize::MAX {
        usize::MAX as int
    } else {
        n
    }
}

/// The best-k bound of one request: at least one, and the whole window.
pub open spec fn spec_k(offset: int, top_n: int) -> int {
    let sum = if offset + top_n > usize::MAX {
        usize::MAX as int
    } else {
        offset + top_n
    };
    if sum < 1 {
        1
    } else {
        sum
    }
}

// ---------------------------------------------------------------------------
// The searcher
// ---------------------------------------------------------------------------

/// The per-request scorer: the aggregator together with the request's
/// region and the clock reading the scores are computed at. Built once per
/// search call and applied to every admitted candidate.
pub struct InitialScoreTweaker {
    pub aggregator: SignalAggregator,
    pub selected_region: Option<Region>,
    pub current_timestamp: u64,
}

impl InitialScoreTweaker {
    pub fn new(
        aggregator: SignalAggregator,
        selected_region: Option<Region>,
        current_timestamp: u64,
    ) -> (r: InitialScoreTweaker)
        ensures
            r.aggregator == aggregator,
            r.selected_region == selected_region,
            r.current_timestamp == current_timestamp,
    {
        InitialScoreTweaker { aggregator, selected_region, current_timestamp }
    }

    /// Scores one admitted candidate at this request's clock reading.
    pub fn score(&self, d: &Document, terms: &Vec<crate::parser::Term>, q: &Vec<String>) -> (r:
        u128)
        requires
            self.aggregator.coefficients.wf(),
            q.deep_view() == spec_query_tokens(terms_view(terms@)),
        ensures
            r == spec_score(
                self.aggregator.coefficients@,
                self.aggregator.site_rankings@,
                d@,
                terms_view(terms@),
                self.current_timestamp,
            ),
    {
        self.aggregator.score(d, terms, q, self.current_timestamp)
    }
}

/// A searcher over one local index, with the out-of-scope collaborators'
/// handles.
#[derive(Debug)]
pub struct LocalSearcher {
    pub index: Index,
    pub entity_index: Option<EntityIndex>,
    pub bangs: Option<Bangs>,
}

/// The ranked page the first phase yields, before de-ranking knobs: the
/// collected best-k in rank order.
pub open spec fn spec_ranked(
    segs: Seq<Segment>,
    expr: Seq<SpecClause>,
    region: Option<Region>,
    max_docs: Option<MaxDocsConsidered>,
    ctx: ScoreCtx,
    k: int,
) -> Seq<SpecPointer> {
    spec_collected(all_cands(segs, segs.len() as int, expr, region, max_docs, ctx), k)
}

/// The first phase succeeded for some compiled form of the request: there
/// is a query compiled exactly as `Query::parse` prescribes, non-empty,
/// ranked under the standard budget, whose outcome these hits are.
pub open spec fn phase1_ok(
    hits: InitialSearchHits,
    sq: SearchQuery,
    de_rank: bool,
    segs: Seq<Segment>,
    now: u64,
) -> bool {
    exists|q: Query, ranker: Ranker|
        {
            &&& crate::query::query_ok(q, &sq)
            &&& q.terms@.len() > 0
            &&& ranker.de_rank_similar == de_rank
            &&& ranker.max_docs == Some(MaxDocsConsidered { total_docs: 10_000_000, segments: 1 })
            &&& #[trigger] initial_ok(hits, segs, q, ranker, now)
        }
}

/// What the first phase promises for a compiled query `q` at time `now`.
pub open spec fn initial_ok(
    r: InitialSearchHits,
    segs: Seq<Segment>,
    q: Query,
    ranker: Ranker,
    now: u64,
) -> bool {
    let expr = expr_view(q.expression@);
    let ctx = ScoreCtx {
        coeffs: crate::signal::spec_coeffs_of(
            match q.optic {
                Some(o) => o@.rankings,
                None => Seq::empty(),
            },
        ),
        site_rankings: q.site_rankings@,
        terms: terms_view(q.terms@),
        now: now,
    };
    let cands = all_cands(segs, segs.len() as int, expr, q.region, ranker.max_docs, ctx);
    let k = spec_k(q.offset as int, q.top_n as int);
    let ranked = spec_collected(cands, k);
    let ordered = if ranker.de_rank_similar {
        spec_derank(ranked)
    } else {
        ranked
    };
    &&& r.num_websites == clamp_len(cands.len() as int)
    &&& pointers_view(r.top_websites@) == spec_page(ordered, q.offset as int, q.top_n as int)
}

impl LocalSearcher {
    pub fn new(index: Index, entity_index: Option<EntityIndex>, bangs: Option<Bangs>) -> (r:
        LocalSearcher)
        ensures
            r.index == index,
    {
        LocalSearcher { index, entity_index, bangs }
    }

    /// The first phase at a fixed clock reading: scans the segments under
    /// the budget, scores every admitted candidate, keeps the best k, and
    /// cuts the requested page. The ranking is exactly the deterministic
    /// best-k of the candidate stream.
    pub fn search_initial_at(&self, query: &SearchQuery, de_rank_similar: bool, now: u64) -> (r:
        Result<InitialSearchHits, SearchError>)
        ensures
            match r {
                Ok(hits) => phase1_ok(hits, *query, de_rank_similar, self.index.segments@, now),
                Err(SearchError::EmptyQuery) => crate::query::spec_cap(
                    crate::parser::spec_lex(query.query@),
                ).len() == 0 && (match query.optic_program {
                    Some(p) => crate::optic::spec_policy(p@) is Ok,
                    None => true,
                }),
                Err(SearchError::PolicyParse(e)) => query.optic_program is Some
                    && crate::optic::spec_policy(query.optic_program->0@) is Err,
            },
    {
        let q = match Query::parse(query) {
            Ok(q) => q,
            Err(e) => {
                return Err(e);
            },
        };
        if q.is_empty() {
            proof {
                crate::query::lemma_cap_empty(crate::parser::spec_lex(query.query@));
            }
            return Err(SearchError::EmptyQuery);
        }
        let mut ranker = Ranker::new().with_max_docs(10_000_000, 1);
        ranker.de_rank_similar(de_rank_similar);
        let hits = self.run_ranking(&q, &ranker, now);
        proof {
            assert(phase1_ok(hits, *query, de_rank_similar, self.index.segments@, now)) by {
                assert(crate::query::query_ok(q, query));
                assert(q.terms@.len() > 0);
                assert(ranker.de_rank_similar == de_rank_similar);
                assert(ranker.max_docs == Some(
                    MaxDocsConsidered { total_docs: 10_000_000, segments: 1 },
                ));
                assert(initial_ok(hits, self.index.segments@, q, ranker, now));
            }
        }
        Ok(hits)
    }

    /// Runs the scan, collection, de-ranking and paging for a compiled
    /// query.
    fn run_ranking(&self, q: &Query, ranker: &Ranker, now: u64) -> (r: InitialSearchHits)
        ensures
            initial_ok(r, self.index.segments@, *q, *ranker, now),
    {
        let coefficients = q.signal_coefficients();
        let site_rankings = SiteRankings {
            liked: clone_string_vec(&q.site_rankings.liked),
            disliked: clone_string_vec(&q.site_rankings.disliked),
            blocked: clone_string_vec(&q.site_rankings.blocked),
        };
        proof {
            assert(site_rankings@.liked =~= q.site_rankings@.liked);
            assert(site_rankings@.disliked =~= q.site_rankings@.disliked);
            assert(site_rankings@.blocked =~= q.site_rankings@.blocked);
        }
        let aggregator = SignalAggregator::new(coefficients, site_rankings);
        let tweaker = InitialScoreTweaker::new(aggregator, q.region, now);
        let qtokens = query_tokens(&q.terms);
        let ghost ctx = ScoreCtx {
            coeffs: tweaker.aggregator.coefficients@,
            site_rankings: tweaker.aggregator.site_rankings@,
            terms: terms_view(q.terms@),
            now: now,
        };
        let ghost expr = expr_view(q.expression@);
        let ghost segs = self.index.segments@;
        // The best-k bound of this request.
        let k: usize = compute_k(q.offset, q.top_n);
        proof {
            assert(k as int == spec_k(q.offset as int, q.top_n as int));
        }
        let mut collected: Vec<WebsitePointer> = Vec::new();
        let mut count: usize = 0;
        let mut s: usize = 0;
        proof {
            assert(pointers_view(collected@) =~= Seq::<SpecPointer>::empty());
            assert(collected_ok(
                pointers_view(collected@),
                all_cands(segs, 0, expr, q.region, ranker.max_docs, ctx),
                k as int,
            ));
        }
        while s < self.index.segments.len()
            invariant
                segs == self.index.segments@,
                expr == expr_view(q.expression@),
                ctx == (ScoreCtx {
                    coeffs: tweaker.aggregator.coefficients@,
                    site_rankings: tweaker.aggregator.site_rankings@,
                    terms: terms_view(q.terms@),
                    now: now,
                }),
                tweaker.aggregator.coefficients.wf(),
                tweaker.current_timestamp == now,
                qtokens.deep_view() == spec_query_tokens(terms_view(q.terms@)),
                s <= segs.len(),
                k >= 1,
                k as int == spec_k(q.offset as int, q.top_n as int),
                collected_ok(
                    pointers_view(collected@),
                    all_cands(segs, s as int, expr, q.region, ranker.max_docs, ctx),
                    k as int,
                ),
                count as int == clamp_len(
                    all_cands(segs, s as int, expr, q.region, ranker.max_docs, ctx).len() as int,
                ),
            decreases segs.len() - s,
        {
            let ghost seen_pre = all_cands(segs, s as int, expr, q.region, ranker.max_docs, ctx);
            let seg = &self.index.segments[s];
            proof {
                assert(seg.docs@ == segs[s as int].docs@);
            }
            let limit = seg_limit(&ranker.max_docs, seg.docs.len());
            proof {
                assert(limit as int == spec_seg_limit(ranker.max_docs, seg.docs@.len() as int));
            }
            let mut i: usize = 0;
            proof {
                assert(seg_cands(seg.docs@, 0, s as int, expr, q.region, ctx)
                    =~= Seq::<SpecPointer>::empty());
                assert(seen_pre + seg_cands(seg.docs@, 0, s as int, expr, q.region, ctx)
                    =~= seen_pre);
            }
            while i < limit
                invariant
                    segs == self.index.segments@,
                    s < segs.len(),
                    seg.docs@ == segs[s as int].docs@,
                    expr == expr_view(q.expression@),
                    ctx == (ScoreCtx {
                        coeffs: tweaker.aggregator.coefficients@,
                        site_rankings: tweaker.aggregator.site_rankings@,
                        terms: terms_view(q.terms@),
                        now: now,
                    }),
                    tweaker.aggregator.coefficients.wf(),
                    tweaker.current_timestamp == now,
                    qtokens.deep_view() == spec_query_tokens(terms_view(q.terms@)),
                    k >= 1,
                    i <= limit,
                    limit as int == spec_seg_limit(ranker.max_docs, seg.docs@.len() as int),
                    limit <= seg.docs@.len(),
                    seen_pre == all_cands(segs, s as int, expr, q.region, ranker.max_docs, ctx),
                    collected_ok(
                        pointers_view(collected@),
                        seen_pre + seg_cands(seg.docs@, i as int, s as int, expr, q.region, ctx),
                        k as int,
                    ),
                    count as int == clamp_len(
                        seen_pre.len() + seg_cands(
                            seg.docs@,
                            i as int,
                            s as int,
                            expr,
                            q.region,
                            ctx,
                        ).len() as int,
                    ),
                decreases limit - i,
            {
                let ghost seen_mid = seen_pre + seg_cands(
                    seg.docs@,
                    i as int,
                    s as int,
                    expr,
                    q.region,
                    ctx,
                );
                let d = &seg.docs[i];
                let is_match = matches_expression(d, &q.expression);
                let reg_ok = region_check(d, &q.region);
                if is_match && reg_ok {
                    let score = tweaker.score(d, &q.terms, &qtokens);
                    let ptr = WebsitePointer {
                        score,
                        host_centrality: d.host_centrality,
                        segment: s,
                        doc_id: i,
                        site: d.site.clone(),
                    };
                    proof {
                        assert(ptr@ == spec_pointer(d@, s as int, i as int, ctx_score(ctx, d@)));
                        lemma_all_cands_keys(segs, s as int, expr, q.region, ranker.max_docs, ctx);
                        lemma_seg_cands_keys(seg.docs@, i as int, s as int, expr, q.region, ctx);
                        lemma_distinct_push(seen_pre, seg.docs@, i as int, s as int, expr, q.region, ctx, ptr@);
                    }
                    topk_insert(&mut collected, ptr, k, Ghost(seen_mid));
                    count = if count < usize::MAX {
                        count + 1
                    } else {
                        count
                    };
                    proof {
                        assert(seg_cands(seg.docs@, i + 1, s as int, expr, q.region, ctx)
                            =~= seg_cands(
                            seg.docs@,
                            i as int,
                            s as int,
                            expr,
                            q.region,
                            ctx,
                        ).push(ptr@));
                        assert(seen_pre + seg_cands(seg.docs@, i + 1, s as int, expr, q.region, ctx)
                            =~= seen_mid.push(ptr@));
                    }
                } else {
                    proof {
                        assert(!admitted(d@, expr, q.region));
                        assert(seg_cands(seg.docs@, i + 1, s as int, expr, q.region, ctx)
                            =~= seg_cands(seg.docs@, i as int, s as int, expr, q.region, ctx));
                    }
                }
                i = i + 1;
            }
            s = s + 1;
            proof {
                assert(all_cands(segs, s as int, expr, q.region, ranker.max_docs, ctx)
                    =~= seen_pre + seg_cands(
                    seg.docs@,
                    limit as int,
                    s - 1,
                    expr,
                    q.region,
                    ctx,
                ));
            }
        }
        let ghost cands = all_cands(segs, segs.len() as int, expr, q.region, ranker.max_docs, ctx);
        proof {
            assert(cands == all_cands(
                segs,
                self.index.segments@.len() as int,
                expr,
                q.region,
                ranker.max_docs,
                ctx,
            ));
            lemma_all_cands_keys(segs, segs.len() as int, expr, q.region, ranker.max_docs, ctx);
            // The kept pointers are the unique best-k.
            let w = pointers_view(collected@);
            assert(collected_ok(w, cands, k as int));
            assert(exists|v: Seq<SpecPointer>| collected_ok(v, cands, k as int));
            assert(collected_ok(spec_collected(cands, k as int), cands, k as int));
            lemma_collected_unique(w, spec_collected(cands, k as int), cands, k as int);
        }
        let ordered = if ranker.de_rank_similar {
            derank_similar(&collected)
        } else {
            collected
        };
        let page = page_slice(&ordered, q.offset, q.top_n);
        InitialSearchHits { num_websites: count, top_websites: page }
    }

    /// The first phase with the clock read now. The result is exact for
    /// the time the clock returned.
    pub fn search_initial(&self, query: &SearchQuery, de_rank_similar: bool) -> (r: Result<
        InitialSearchResult,
        SearchError,
    >)
        ensures
            match r {
                Ok(InitialSearchResult::Websites(w)) => w.spell_corrected_query is None
                    && exists|now: u64|
                    #[trigger] phase1_ok(
                        w.websites,
                        *query,
                        de_rank_similar,
                        self.index.segments@,
                        now,
                    ),
                Err(SearchError::EmptyQuery) => crate::query::spec_cap(
                    crate::parser::spec_lex(query.query@),
                ).len() == 0,
                Err(SearchError::PolicyParse(_)) => query.optic_program is Some
                    && crate::optic::spec_policy(query.optic_program->0@) is Err,
            },
    {
        let now_raw = now_seconds();
        let now: u64 = if now_raw < 0 {
            0
        } else {
            now_raw as u64
        };
        match self.search_initial_at(query, de_rank_similar, now) {
            Ok(hits) => {
                let res = InitialWebsiteResult { spell_corrected_query: None, websites: hits };
                proof {
                    assert(exists|now2: u64|
                        #[trigger] phase1_ok(
                            res.websites,
                            *query,
                            de_rank_similar,
                            self.index.segments@,
                            now2,
                        )) by {
                        assert(phase1_ok(
                            res.websites,
                            *query,
                            de_rank_similar,
                            self.index.segments@,
                            now,
                        ));
                    }
                }
                Ok(InitialSearchResult::Websites(res))
            },
            Err(e) => Err(e),
        }
    }

    /// Hydration: re-validates the query and resolves each pointer's stored
    /// fields; pointers that no longer resolve are skipped.
    pub fn retrieve_websites(&self, websites: &Vec<WebsitePointer>, query: &str) -> (r: Result<
        Vec<RetrievedWebpage>,
        SearchError,
    >)
        ensures
            match r {
                Ok(pages) => crate::query::spec_cap(crate::parser::spec_lex(query@)).len() > 0
                    && retrieved_view(pages@) == spec_hydrate(
                    self.index.segments@,
                    pointers_view(websites@),
                ),
                Err(SearchError::EmptyQuery) => crate::query::spec_cap(
                    crate::parser::spec_lex(query@),
                ).len() == 0,
                Err(SearchError::PolicyParse(_)) => false,
            },
    {
        let sq = SearchQuery { query: string_of(query), ..Default::default() };
        proof {
            assert(sq.query@ == query@);
        }
        let q = match Query::parse(&sq) {
            Ok(q) => q,
            Err(e) => {
                proof {
                    assert(sq.optic_program is None);
                    assert(false);
                }
                return Err(SearchError::EmptyQuery);
            },
        };
        if q.is_empty() {
            proof {
                crate::query::lemma_cap_empty(crate::parser::spec_lex(query@));
            }
            return Err(SearchError::EmptyQuery);
        }
        proof {
            crate::query::lemma_cap_empty(crate::parser::spec_lex(query@));
        }
        let mut pages: Vec<RetrievedWebpage> = Vec::new();
        let mut i: usize = 0;
        proof {
            assert(retrieved_view(pages@) =~= spec_hydrate(
                self.index.segments@,
                pointers_view(websites@).take(0),
            ));
        }
        while i < websites.len()
            invariant
                i <= websites@.len(),
                retrieved_view(pages@) == spec_hydrate(
                    self.index.segments@,
                    pointers_view(websites@).take(i as int),
                ),
            decreases websites@.len() - i,
        {
            let ghost pre = pointers_view(websites@).take(i as int);
            let p = &websites[i];
            proof {
                assert(pointers_view(websites@)[i as int] == p@);
            }
            if p.segment < self.index.segments.len() {
                let seg = &self.index.segments[p.segment];
                if p.doc_id < seg.docs.len() {
                    let page = hydrate(&seg.docs[p.doc_id]);
                    let ghost pv = page@;
                    let ghost rv = retrieved_view(pages@);
                    pages.push(page);
                    proof {
                        assert(retrieved_view(pages@) =~= rv.push(pv));
                    }
                }
            }
            i = i + 1;
            proof {
                let cur = pointers_view(websites@).take(i as int);
                assert(cur.drop_last() =~= pre);
                assert(cur.last() == pointers_view(websites@)[i - 1]);
                assert(retrieved_view(pages@) =~= spec_hydrate(self.index.segments@, cur));
            }
        }
        proof {
            assert(pointers_view(websites@).take(websites@.len() as int) =~= pointers_view(
                websites@,
            ));
        }
        Ok(pages)
    }

    /// The whole pipeline: first phase, then hydration of the final page.
    /// Succeeds exactly when the query compiles to at least one term; the
    /// returned page is the hydration of the ranked page of some first
    /// phase of this request.
    pub fn search(&self, query: &SearchQuery) -> (r: Result<SearchResult, SearchError>)
        ensures
            match r {
                Ok(SearchResult::Websites(w)) => {
                    &&& crate::query::spec_cap(crate::parser::spec_lex(query.query@)).len() > 0
                    &&& exists|now: u64, hits: InitialSearchHits|
                        {
                            &&& #[trigger] phase1_ok(
                                hits,
                                *query,
                                true,
                                self.index.segments@,
                                now,
                            )
                            &&& w.webpages.num_docs == hits.num_websites
                            &&& retrieved_view(w.webpages.documents@) == spec_hydrate(
                                self.index.segments@,
                                pointers_view(hits.top_websites@),
                            )
                        }
                },
                Err(SearchError::EmptyQuery) => crate::query::spec_cap(
                    crate::parser::spec_lex(query.query@),
                ).len() == 0,
                Err(SearchError::PolicyParse(_)) => query.optic_program is Some
                    && crate::optic::spec_policy(query.optic_program->0@) is Err,
            },
    {
        let initial = match self.search_initial(query, true) {
            Ok(r) => r,
            Err(e) => {
                return Err(e);
            },
        };
        proof {
            crate::query::lemma_cap_empty(crate::parser::spec_lex(query.query@));
        }
        match initial {
            InitialSearchResult::Websites(w) => {
                let retrieved = match self.retrieve_websites(
                    &w.websites.top_websites,
                    query.query.as_str(),
                ) {
                    Ok(pages) => pages,
                    Err(e) => {
                        return Err(e);
                    },
                };
                let out = WebsitesResult {
                    spell_corrected_query: w.spell_corrected_query,
                    webpages: SearchHits {
                        num_docs: w.websites.num_websites,
                        documents: retrieved,
                    },
                };
                proof {
                    let nowc = choose|now: u64|
                        #[trigger] phase1_ok(
                            w.websites,
                            *query,
                            true,
                            self.index.segments@,
                            now,
                        );
                    assert(exists|now: u64, hits: InitialSearchHits|
                        {
                            &&& #[trigger] phase1_ok(
                                hits,
                                *query,
                                true,
                                self.index.segments@,
                                now,
                            )
                            &&& out.webpages.num_docs == hits.num_websites
                            &&& retrieved_view(out.webpages.documents@) == spec_hydrate(
                                self.index.segments@,
                                pointers_view(hits.top_websites@),
                            )
                        }) by {
                        assert(phase1_ok(
                            w.websites,
                            *query,
                            true,
                            self.index.segments@,
                            nowc,
                        ));
                    }
                }
                Ok(SearchResult::Websites(out))
            },
        }
    }
}

pub open spec fn retrieved_view(v: Seq<RetrievedWebpage>) -> Seq<SpecRetrieved> {
    Seq::new(v.len(), |i: int| v[i]@)
}

/// The hydrated pages of the resolvable pointers, in order.
pub open spec fn spec_hydrate(segs: Seq<Segment>, ptrs: Seq<SpecPointer>) -> Seq<SpecRetrieved>
    decreases ptrs.len(),
{
    if ptrs.len() == 0 {
        Seq::empty()
    } else {
        spec_hydrate(segs, ptrs.drop_last()) + {
            let p = ptrs.last();
            if 0 <= p.segment < segs.len() && 0 <= p.doc_id < segs[p.segment].docs@.len() {
                seq![spec_retrieved(segs[p.segment].docs@[p.doc_id]@)]
            } else {
                Seq::empty()
            }
        }
    }
}

/// Resolves one stored document.
fn hydrate(d: &Document) -> (r: RetrievedWebpage)
    ensures
        r@ == spec_retrieved(d@),
{
    let body_chars = str_chars(d.body.as_str());
    let cut = if body_chars.len() < SNIPPET_LEN {
        body_chars.len()
    } else {
        SNIPPET_LEN
    };
    let snippet_chars = subvec(&body_chars, 0, cut);
    RetrievedWebpage {
        title: d.title.clone(),
        url: d.url.clone(),
        body: d.body.clone(),
        snippet: chars_to_string(&snippet_chars),
        description: match &d.description {
            Some(t) => Some(t.clone()),
            None => None,
        },
        updated_time: d.last_updated,
    }
}

/// Copies a string slice into an owned string.
fn string_of(s: &str) -> (r: String)
    ensures
        r@ == s@,
{
    String::from_str(s)
}

fn compute_k(offset: usize, top_n: usize) -> (r: usize)
    ensures
        r as int == spec_k(offset as int, top_n as int),
        r >= 1,
{
    let sum = if offset <= usize::MAX - top_n {
        offset + top_n
    } else {
        usize::MAX
    };
    if sum < 1 {
        1
    } else {
        sum
    }
}

fn seg_limit(max_docs: &Option<MaxDocsConsidered>, docs_len: usize) -> (r: usize)
    ensures
        r as int == spec_seg_limit(*max_docs, docs_len as int),
        r <= docs_len,
{
    match max_docs {
        None => docs_len,
        Some(m) => {
            let per = if m.segments == 0 {
                m.total_docs
            } else {
                m.total_docs / m.segments
            };
            let per1 = if per < 1 {
                1
            } else {
                per
            };
            if per1 < docs_len {
                per1
            } else {
                docs_len
            }
        },
    }
}

fn region_check(d: &Document, region: &Option<Region>) -> (r: bool)
    ensures
        r == region_ok(d@, *region),
{
    match region {
        None => true,
        Some(Region::All) => true,
        Some(reg) => {
            let id = reg.id();
            d.region_id == id || d.region_id == 0
        },
    }
}

/// The pointer key being inserted is fresh: earlier segments carry smaller
/// segment numbers and the current segment's candidates carry smaller
/// document positions.
proof fn lemma_distinct_push(
    seen_pre: Seq<SpecPointer>,
    docs: Seq<Document>,
    i: int,
    s: int,
    expr: Seq<SpecClause>,
    region: Option<Region>,
    ctx: ScoreCtx,
    p: SpecPointer,
)
    requires
        forall|t: int|
            0 <= t < seen_pre.len() ==> 0 <= (#[trigger] seen_pre[t]).segment < s,
        distinct_keys(seen_pre),
        forall|t: int|
            0 <= t < seg_cands(docs, i, s, expr, region, ctx).len() ==> {
                let x = #[trigger] seg_cands(docs, i, s, expr, region, ctx)[t];
                x.segment == s && 0 <= x.doc_id < i
            },
        forall|t1: int, t2: int|
            0 <= t1 < t2 < seg_cands(docs, i, s, expr, region, ctx).len() ==> #[trigger] seg_cands(
                docs,
                i,
                s,
                expr,
                region,
                ctx,
            )[t1].doc_id < #[trigger] seg_cands(docs, i, s, expr, region, ctx)[t2].doc_id,
        p.segment == s,
        p.doc_id == i,
    ensures
        distinct_keys((seen_pre + seg_cands(docs, i, s, expr, region, ctx)).push(p)),
{
    let sc = seg_cands(docs, i, s, expr, region, ctx);
    let all = (seen_pre + sc).push(p);
    assert forall|a: int, b: int| 0 <= a < b < all.len() implies diff_key(
        #[trigger] all[a],
        #[trigger] all[b],
    ) by {
        let pa = all[a];
        let pb = all[b];
        if b == all.len() - 1 {
            if a < seen_pre.len() {
                assert(pa == seen_pre[a]);
                assert(pa.segment < s);
            } else {
                assert(pa == sc[a - seen_pre.len()]);
                assert(pa.doc_id < i);
            }
        } else {
            if a < seen_pre.len() && b < seen_pre.len() {
                assert(pa == seen_pre[a]);
                assert(pb == seen_pre[b]);
            } else if a < seen_pre.len() {
                assert(pa == seen_pre[a]);
                assert(pb == sc[b - seen_pre.len()]);
                assert(pa.segment < s);
                assert(pb.segment == s);
            } else {
                assert(pa == sc[a - seen_pre.len()]);
                assert(pb == sc[b - seen_pre.len()]);
            }
        }
    }
}

} // verus!
