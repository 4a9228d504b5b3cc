//! The query builder: combines the parsed terms, the compiled ranking
//! policy and pagination into one immutable `Query`, and compiles the
//! boolean retrieval expression the index is scanned with.

use vstd::prelude::*;

use crate::optic::{
    clone_string_vec, empty_optic, spec_merge, Optic, PolicyParseError, SiteRankings, SpecOptic,
    spec_policy,
};
use crate::parser::{self, spec_lex, terms_view, SpecBase, SpecTerm, Term};
use crate::signal::{spec_coeffs_of, SignalCoefficient};
use crate::text::spec_tokens;
use crate::webpage::Region;

verus! {

/// How many indexable occurrences of one exact term a query may contribute:
/// occurrences beyond this cap stay visible as display text but add no
/// retrieval clauses.
pub const MAX_SIMILAR_TERMS: usize = 10;

/// Results per page when the caller does not say otherwise.
pub const NUM_RESULTS_PER_PAGE: usize = 20;

/// The page size cap the server enforces regardless of the request.
pub const MAX_NUM_RESULTS: usize = 100;

/// A search request as the caller hands it over.
#[derive(Debug, Clone)]
pub struct SearchQuery {
    pub query: String,
    pub page: usize,
    pub num_results: usize,
    pub selected_region: Option<Region>,
    pub optic_program: Option<String>,
    pub site_rankings: Option<SiteRankings>,
    pub return_ranking_signals: bool,
}

impl Default for SearchQuery {
    fn default() -> (r: SearchQuery)
        ensures
            r.query@ == Seq::<char>::empty(),
            r.page == 0,
            r.num_results == NUM_RESULTS_PER_PAGE,
            r.selected_region is None,
            r.optic_program is None,
            r.site_rankings is None,
            !r.return_ranking_signals,
    {
        SearchQuery {
            query: String::new(),
            page: 0,
            num_results: NUM_RESULTS_PER_PAGE,
            selected_region: None,
            optic_program: None,
            site_rankings: None,
            return_ranking_signals: false,
        }
    }
}

/// Why a request was rejected.
#[derive(Debug, Clone, Copy, PartialEq, Eq, Structural)]
pub enum SearchError {
    /// The query held no usable terms.
    EmptyQuery,
    /// The ranking-policy program was malformed.
    PolicyParse(PolicyParseError),
}

// ---------------------------------------------------------------------------
// The retrieval expression
// ---------------------------------------------------------------------------

#[derive(Debug, Clone, Copy, PartialEq, Eq, Structural)]
pub enum Occur {
    Must,
    MustNot,
}

/// One matcher of the boolean retrieval expression.
#[derive(Debug, Clone)]
pub enum Matcher {
    /// The token occurs in some searchable text field.
    Token(String),
    /// The token run occurs consecutively in the title.
    Phrase(Vec<String>),
    /// The site or the domain equals this host.
    Site(String),
    /// Every token occurs in the title.
    InTitle(Vec<String>),
    /// Every token occurs in the URL.
    InUrl(Vec<String>),
}

pub enum SpecMatcher {
    Token(Seq<char>),
    Phrase(Seq<Seq<char>>),
    Site(Seq<char>),
    InTitle(Seq<Seq<char>>),
    InUrl(Seq<Seq<char>>),
}

impl View for Matcher {
    type V = SpecMatcher;

    open spec fn view(&self) -> SpecMatcher {
        match self {
            Matcher::Token(s) => SpecMatcher::Token(s@),
            Matcher::Phrase(v) => SpecMatcher::Phrase(v.deep_view()),
            Matcher::Site(s) => SpecMatcher::Site(s@),
            Matcher::InTitle(v) => SpecMatcher::InTitle(v.deep_view()),
            Matcher::InUrl(v) => SpecMatcher::InUrl(v.deep_view()),
        }
    }
}

/// One clause of the retrieval expression.
#[derive(Debug, Clone)]
pub struct RetrievalClause {
    pub occur: Occur,
    pub matcher: Matcher,
}

pub struct SpecClause {
    pub occur: Occur,
    pub matcher: SpecMatcher,
}

impl View for RetrievalClause {
    type V = SpecClause;

    open spec fn view(&self) -> SpecClause {
        SpecClause { occur: self.occur, matcher: self.matcher@ }
    }
}

pub open spec fn expr_view(e: Seq<RetrievalClause>) -> Seq<SpecClause> {
    Seq::new(e.len(), |i: int| e[i]@)
}

pub proof fn lemma_expr_push(e: Seq<RetrievalClause>, c: RetrievalClause)
    ensures
        expr_view(e.push(c)) =~= expr_view(e).push(c@),
{
}

/// The retrieval clauses one term compiles to. A simple term contributes
/// one token clause per token of its text; terms whose argument holds no
/// token contribute nothing.
pub open spec fn clauses_of_term(t: SpecTerm) -> Seq<SpecClause> {
    let occ = if t.neg {
        Occur::MustNot
    } else {
        Occur::Must
    };
    match t.base {
        SpecBase::Simple(w) => Seq::new(
            spec_tokens(w).len(),
            |i: int| SpecClause { occur: occ, matcher: SpecMatcher::Token(spec_tokens(w)[i]) },
        ),
        SpecBase::Phrase(ws) => if ws.len() == 0 {
            Seq::empty()
        } else {
            seq![SpecClause { occur: occ, matcher: SpecMatcher::Phrase(ws) }]
        },
        SpecBase::Site(d) => seq![SpecClause { occur: occ, matcher: SpecMatcher::Site(d) }],
        SpecBase::Title(a) => if spec_tokens(a).len() == 0 {
            Seq::empty()
        } else {
            seq![SpecClause { occur: occ, matcher: SpecMatcher::InTitle(spec_tokens(a)) }]
        },
        SpecBase::Url(a) => if spec_tokens(a).len() == 0 {
            Seq::empty()
        } else {
            seq![SpecClause { occur: occ, matcher: SpecMatcher::InUrl(spec_tokens(a)) }]
        },
    }
}

/// The expression of a term sequence: each term's clauses, in order.
pub open spec fn spec_expression(ts: Seq<SpecTerm>) -> Seq<SpecClause>
    decreases ts.len(),
{
    if ts.len() == 0 {
        Seq::empty()
    } else {
        spec_expression(ts.drop_last()) + clauses_of_term(ts.last())
    }
}

/// Each blocked host becomes a mandatory exclusion.
pub open spec fn blocked_clauses(hosts: Seq<Seq<char>>) -> Seq<SpecClause> {
    Seq::new(
        hosts.len(),
        |i: int| SpecClause { occur: Occur::MustNot, matcher: SpecMatcher::Site(hosts[i]) },
    )
}

// ---------------------------------------------------------------------------
// The occurrence cap
// ---------------------------------------------------------------------------

/// How often `t` occurs in `ts`.
pub open spec fn count_eq(ts: Seq<SpecTerm>, t: SpecTerm) -> int
    decreases ts.len(),
{
    if ts.len() == 0 {
        0int
    } else {
        count_eq(ts.drop_last(), t) + (if ts.last() == t {
            1int
        } else {
            0int
        })
    }
}

/// Keeps each term only while fewer than `MAX_SIMILAR_TERMS` equal terms
/// came before it.
pub open spec fn spec_cap(ts: Seq<SpecTerm>) -> Seq<SpecTerm>
    decreases ts.len(),
{
    if ts.len() == 0 {
        Seq::empty()
    } else {
        spec_cap(ts.drop_last()) + (if count_eq(ts.drop_last(), ts.last()) < MAX_SIMILAR_TERMS {
            seq![ts.last()]
        } else {
            Seq::empty()
        })
    }
}

/// The display text of every simple, unnegated term, in typed order and
/// uncapped.
pub open spec fn spec_simple_texts(ts: Seq<SpecTerm>) -> Seq<Seq<char>>
    decreases ts.len(),
{
    if ts.len() == 0 {
        Seq::empty()
    } else {
        spec_simple_texts(ts.drop_last()) + (match ts.last() {
            SpecTerm { neg: false, base: SpecBase::Simple(w) } => seq![w],
            _ => Seq::empty(),
        })
    }
}

/// The capped list never holds more than the cap's worth of any one term.
pub proof fn lemma_cap_le(ts: Seq<SpecTerm>, t: SpecTerm)
    ensures
        count_eq(spec_cap(ts), t) <= count_eq(ts, t),
    decreases ts.len(),
{
    if ts.len() > 0 {
        lemma_cap_le(ts.drop_last(), t);
        if count_eq(ts.drop_last(), ts.last()) < MAX_SIMILAR_TERMS {
            lemma_count_push(spec_cap(ts.drop_last()), ts.last(), t);
            assert(spec_cap(ts) =~= spec_cap(ts.drop_last()).push(ts.last()));
        } else {
            assert(spec_cap(ts) =~= spec_cap(ts.drop_last()));
        }
    }
}

proof fn lemma_count_push(ts: Seq<SpecTerm>, x: SpecTerm, t: SpecTerm)
    ensures
        count_eq(ts.push(x), t) == count_eq(ts, t) + (if x == t {
            1int
        } else {
            0int
        }),
{
    assert(ts.push(x).drop_last() =~= ts);
}

/// The cap itself: a term occurs at most `MAX_SIMILAR_TERMS` times among
/// the kept terms, whatever the query.
pub proof fn lemma_cap_bound(ts: Seq<SpecTerm>, t: SpecTerm)
    ensures
        count_eq(spec_cap(ts), t) <= MAX_SIMILAR_TERMS,
    decreases ts.len(),
{
    if ts.len() > 0 {
        lemma_cap_bound(ts.drop_last(), t);
        if count_eq(ts.drop_last(), ts.last()) < MAX_SIMILAR_TERMS {
            lemma_count_push(spec_cap(ts.drop_last()), ts.last(), t);
            assert(spec_cap(ts) =~= spec_cap(ts.drop_last()).push(ts.last()));
            if ts.last() == t {
                lemma_cap_le(ts.drop_last(), t);
            }
        } else {
            assert(spec_cap(ts) =~= spec_cap(ts.drop_last()));
        }
    }
}

/// Capping never empties a non-empty term list: the first occurrence of
/// every term is kept.
pub proof fn lemma_cap_empty(ts: Seq<SpecTerm>)
    ensures
        spec_cap(ts).len() == 0 <==> ts.len() == 0,
    decreases ts.len(),
{
    if ts.len() > 0 {
        lemma_cap_empty(ts.drop_last());
        if ts.len() == 1 {
            assert(ts.drop_last().len() == 0);
            assert(count_eq(ts.drop_last(), ts.last()) == 0);
        }
    }
}

// ---------------------------------------------------------------------------
// The query
// ---------------------------------------------------------------------------

/// One immutable search request, compiled: the capped terms, the display
/// projection of the simple terms, the retrieval expression, the merged
/// policy and the page window.
#[derive(Debug)]
pub struct Query {
    pub terms: Vec<Term>,
    pub simple_terms_text: Vec<String>,
    pub expression: Vec<RetrievalClause>,
    pub site_rankings: SiteRankings,
    pub optic: Option<Optic>,
    pub offset: usize,
    pub top_n: usize,
    pub region: Option<Region>,
}

/// The policy a request carries: its site-rankings shorthand compiled to a
/// trivial policy, with the explicit program merged on top (so the
/// program's declarations win).
pub open spec fn spec_request_optic(
    site_rankings: Option<SiteRankings>,
    program: Option<Seq<char>>,
) -> SpecOptic {
    let base = match site_rankings {
        Some(sr) => SpecOptic { rankings: Seq::empty(), site_rankings: sr@ },
        None => empty_optic(),
    };
    match program {
        Some(p) => spec_merge(base, spec_policy(p)->Ok_0),
        None => base,
    }
}

pub open spec fn spec_program_view(q: &SearchQuery) -> Option<Seq<char>> {
    match q.optic_program {
        Some(p) => Some(p@),
        None => None,
    }
}

/// The page window: `page * top_n`, saturated at the machine limit.
pub open spec fn spec_offset(page: int, top_n: int) -> int {
    if page * top_n > usize::MAX {
        usize::MAX as int
    } else {
        page * top_n
    }
}

/// Everything `Query::parse` promises about a compiled query.
pub open spec fn query_ok(q: Query, sq: &SearchQuery) -> bool {
    let lexed = spec_lex(sq.query@);
    let optic = spec_request_optic(sq.site_rankings, spec_program_view(sq));
    &&& terms_view(q.terms@) == spec_cap(lexed)
    &&& q.simple_terms_text.deep_view() == spec_simple_texts(lexed)
    &&& expr_view(q.expression@) == spec_expression(spec_cap(lexed)) + blocked_clauses(
        optic.site_rankings.blocked,
    )
    &&& q.site_rankings@ == optic.site_rankings
    &&& (match q.optic {
        Some(o) => (sq.optic_program is Some || sq.site_rankings is Some) && o@ == optic,
        None => sq.optic_program is None && sq.site_rankings is None,
    })
    &&& q.top_n == (if sq.num_results < MAX_NUM_RESULTS {
        sq.num_results as int
    } else {
        MAX_NUM_RESULTS as int
    })
    &&& q.offset == spec_offset(sq.page as int, q.top_n as int)
    &&& q.region == sq.selected_region
}

impl Query {
    /// Compiles a request. Fails only when its ranking-policy program is
    /// malformed; an all-whitespace query compiles to an empty query, which
    /// `is_empty` reports.
    pub fn parse(sq: &SearchQuery) -> (r: Result<Query, SearchError>)
        ensures
            match r {
                Ok(q) => (match spec_program_view(sq) {
                    Some(p) => spec_policy(p) is Ok,
                    None => true,
                }) && query_ok(q, sq),
                Err(e) => {
                    &&& sq.optic_program is Some
                    &&& e is PolicyParse
                    &&& spec_policy(sq.optic_program->0@) is Err
                    &&& (e->PolicyParse_0).line == spec_policy(
                        sq.optic_program->0@,
                    )->Err_0.0 + 1
                    &&& (e->PolicyParse_0).expected == spec_policy(sq.optic_program->0@)->Err_0.1
                },
            },
    {
        // Compile and merge the policy first: a malformed program rejects
        // the request.
        let mut optic: Option<Optic> = None;
        match &sq.site_rankings {
            Some(sr) => {
                let copy = SiteRankings {
                    liked: clone_string_vec(&sr.liked),
                    disliked: clone_string_vec(&sr.disliked),
                    blocked: clone_string_vec(&sr.blocked),
                };
                optic = Some(copy.into_optic());
            },
            None => {},
        }
        match &sq.optic_program {
            Some(program) => {
                match Optic::parse(program.as_str()) {
                    Ok(parsed) => {
                        match optic {
                            Some(base) => {
                                optic = Some(base.try_merge(parsed));
                            },
                            None => {
                                let base = SiteRankings {
                                    liked: Vec::new(),
                                    disliked: Vec::new(),
                                    blocked: Vec::new(),
                                };
                                proof {
                                    assert(base@.liked =~= empty_optic().site_rankings.liked);
                                    assert(base@.disliked
                                        =~= empty_optic().site_rankings.disliked);
                                    assert(base@.blocked =~= empty_optic().site_rankings.blocked);
                                }
                                optic = Some(base.into_optic().try_merge(parsed));
                            },
                        }
                    },
                    Err(e) => {
                        return Err(SearchError::PolicyParse(e));
                    },
                }
            },
            None => {},
        }
        let ghost req_optic = spec_request_optic(sq.site_rankings, spec_program_view(sq));
        proof {
            match &optic {
                Some(o) => {
                    assert(o@ == req_optic);
                },
                None => {
                },
            }
        }
        let site_rankings = match &optic {
            Some(o) => SiteRankings {
                liked: clone_string_vec(&o.site_rankings.liked),
                disliked: clone_string_vec(&o.site_rankings.disliked),
                blocked: clone_string_vec(&o.site_rankings.blocked),
            },
            None => SiteRankings { liked: Vec::new(), disliked: Vec::new(), blocked: Vec::new() },
        };
        proof {
            assert(site_rankings@.liked =~= req_optic.site_rankings.liked);
            assert(site_rankings@.disliked =~= req_optic.site_rankings.disliked);
            assert(site_rankings@.blocked =~= req_optic.site_rankings.blocked);
        }
        // Lex, project the display terms, cap, and compile the expression.
        let all_terms = parser::parse(sq.query.as_str());
        let simple_terms_text = collect_simple_texts(&all_terms);
        let terms = cap_terms(all_terms);
        let mut expression = build_expression(&terms);
        let mut i: usize = 0;
        let ghost base_expr = expr_view(expression@);
        while i < site_rankings.blocked.len()
            invariant
                i <= site_rankings.blocked@.len(),
                expr_view(expression@) == base_expr + blocked_clauses(
                    site_rankings.blocked.deep_view().take(i as int),
                ),
            decreases site_rankings.blocked@.len() - i,
        {
            let host = site_rankings.blocked[i].clone();
            proof {
                assert(host@ == site_rankings.blocked.deep_view()[i as int]);
            }
            let ghost prev_e = expression@;
            let clause = RetrievalClause { occur: Occur::MustNot, matcher: Matcher::Site(host) };
            let ghost cv = clause@;
            expression.push(clause);
            i = i + 1;
            proof {
                lemma_expr_push(prev_e, expression@.last());
                assert(expression@ =~= prev_e.push(expression@.last()));
                assert(expr_view(expression@) =~= base_expr + blocked_clauses(
                    site_rankings.blocked.deep_view().take(i as int),
                ));
            }
        }
        proof {
            assert(site_rankings.blocked.deep_view().take(site_rankings.blocked@.len() as int)
                =~= site_rankings.blocked.deep_view());
        }
        let top_n = if sq.num_results < MAX_NUM_RESULTS {
            sq.num_results
        } else {
            MAX_NUM_RESULTS
        };
        proof {
            assert((sq.page as u128) * (top_n as u128) <= (usize::MAX as u128) * (
            MAX_NUM_RESULTS as u128)) by (nonlinear_arith)
                requires
                    sq.page <= usize::MAX,
                    top_n <= MAX_NUM_RESULTS,
            {}
        }
        let off128: u128 = (sq.page as u128) * (top_n as u128);
        let offset: usize = if off128 > (usize::MAX as u128) {
            usize::MAX
        } else {
            off128 as usize
        };
        Ok(Query {
            terms,
            simple_terms_text,
            expression,
            site_rankings,
            optic,
            offset,
            top_n,
            region: sq.selected_region,
        })
    }

    /// The display text of the query's simple terms, one entry per typed
    /// occurrence.
    pub fn simple_terms(&self) -> (r: &Vec<String>)
        ensures
            r == &self.simple_terms_text,
    {
        &self.simple_terms_text
    }

    pub fn terms(&self) -> (r: &Vec<Term>)
        ensures
            r == &self.terms,
    {
        &self.terms
    }

    pub fn optic(&self) -> (r: Option<&Optic>)
        ensures
            match r {
                Some(o) => self.optic is Some && o == &self.optic->0,
                None => self.optic is None,
            },
    {
        self.optic.as_ref()
    }

    /// A query without usable terms is invalid and must be rejected before
    /// retrieval.
    pub fn is_empty(&self) -> (r: bool)
        ensures
            r == (self.terms@.len() == 0),
    {
        self.terms.len() == 0
    }

    pub fn num_results(&self) -> (r: usize)
        ensures
            r == self.top_n,
    {
        self.top_n
    }

    pub fn offset(&self) -> (r: usize)
        ensures
            r == self.offset,
    {
        self.offset
    }

    pub fn region(&self) -> (r: Option<&Region>)
        ensures
            match r {
                Some(reg) => self.region is Some && reg == &self.region->0,
                None => self.region is None,
            },
    {
        self.region.as_ref()
    }

    pub fn site_rankings(&self) -> (r: &SiteRankings)
        ensures
            r == &self.site_rankings,
    {
        &self.site_rankings
    }

    /// The signal-coefficient table of this request: what its policy set.
    pub fn signal_coefficients(&self) -> (r: SignalCoefficient)
        ensures
            r@ == (match self.optic {
                Some(o) => spec_coeffs_of(o@.rankings),
                None => Seq::<(crate::signal::Signal, u64)>::empty(),
            }),
            r.wf(),
    {
        match &self.optic {
            Some(o) => SignalCoefficient::from_optic(o),
            None => SignalCoefficient::new(),
        }
    }
}

/// All display texts of unnegated simple terms, in order.
fn collect_simple_texts(terms: &Vec<Term>) -> (r: Vec<String>)
    ensures
        r.deep_view() == spec_simple_texts(terms_view(terms@)),
{
    let mut r: Vec<String> = Vec::new();
    let mut i: usize = 0;
    while i < terms.len()
        invariant
            i <= terms@.len(),
            r.deep_view() == spec_simple_texts(terms_view(terms@).take(i as int)),
        decreases terms@.len() - i,
    {
        let ghost pre = terms_view(terms@).take(i as int);
        match &terms[i] {
            Term::Simple(s) => {
                r.push(s.clone());
            },
            _ => {},
        }
        i = i + 1;
        proof {
            let cur = terms_view(terms@).take(i as int);
            assert(cur.drop_last() =~= pre);
            assert(cur.last() == terms_view(terms@)[i - 1]);
            assert(r.deep_view() =~= spec_simple_texts(cur));
        }
    }
    proof {
        assert(terms_view(terms@).take(terms@.len() as int) =~= terms_view(terms@));
    }
    r
}

/// Keeps each term only while fewer than the cap's worth of equal terms
/// came before it.
fn cap_terms(terms: Vec<Term>) -> (r: Vec<Term>)
    ensures
        terms_view(r@) == spec_cap(terms_view(terms@)),
{
    let mut kept: Vec<Term> = Vec::new();
    let mut i: usize = 0;
    while i < terms.len()
        invariant
            i <= terms@.len(),
            terms_view(kept@) == spec_cap(terms_view(terms@).take(i as int)),
            forall|j: int| 0 <= j < i ==> terms@[j]@ == terms_view(terms@)[j],
        decreases terms@.len() - i,
    {
        let ghost pre = terms_view(terms@).take(i as int);
        // Count the earlier occurrences of this exact term.
        let mut count: usize = 0;
        let mut j: usize = 0;
        while j < i
            invariant
                j <= i < terms@.len(),
                count <= j,
                count == count_eq(
                    terms_view(terms@).take(i as int).take(j as int),
                    terms@[i as int]@,
                ),
            decreases i - j,
        {
            let ghost cpre = terms_view(terms@).take(i as int).take(j as int);
            let eq = parser::term_eq(&terms[j], &terms[i]);
            if eq {
                count = count + 1;
            }
            j = j + 1;
            proof {
                let ccur = terms_view(terms@).take(i as int).take(j as int);
                assert(ccur.drop_last() =~= cpre);
                assert(ccur.last() == terms_view(terms@)[j - 1]);
            }
        }
        proof {
            assert(terms_view(terms@).take(i as int).take(i as int) =~= pre);
        }
        if count < MAX_SIMILAR_TERMS {
            let t = take_term(&terms, i);
            kept.push(t);
        }
        i = i + 1;
        proof {
            let cur = terms_view(terms@).take(i as int);
            assert(cur.drop_last() =~= pre);
            assert(cur.last() == terms_view(terms@)[i - 1]);
            assert(terms_view(kept@) =~= spec_cap(cur));
        }
    }
    proof {
        assert(terms_view(terms@).take(terms@.len() as int) =~= terms_view(terms@));
    }
    kept
}

/// Rebuilds the term at `i` by value.
fn take_term(terms: &Vec<Term>, i: usize) -> (r: Term)
    requires
        i < terms@.len(),
    ensures
        r@ == terms@[i as int]@,
{
    clone_term(&terms[i])
}

/// Structural copy of a term.
fn clone_term(t: &Term) -> (r: Term)
    ensures
        r@ == t@,
        r.base_view() == t.base_view(),
    decreases t,
{
    match t {
        Term::Simple(s) => Term::Simple(s.clone()),
        Term::Phrase(v) => Term::Phrase(clone_string_vec(v)),
        Term::Site(s) => Term::Site(s.clone()),
        Term::Title(s) => Term::Title(s.clone()),
        Term::Url(s) => Term::Url(s.clone()),
        Term::Not(inner) => {
            let c = clone_term(inner);
            Term::Not(Box::new(c))
        },
    }
}

/// Compiles the retrieval clauses of the capped terms, in order.
fn build_expression(terms: &Vec<Term>) -> (r: Vec<RetrievalClause>)
    ensures
        expr_view(r@) == spec_expression(terms_view(terms@)),
{
    let mut r: Vec<RetrievalClause> = Vec::new();
    let mut i: usize = 0;
    proof {
        assert(expr_view(r@) =~= spec_expression(terms_view(terms@).take(0)));
    }
    while i < terms.len()
        invariant
            i <= terms@.len(),
            expr_view(r@) == spec_expression(terms_view(terms@).take(i as int)),
        decreases terms@.len() - i,
    {
        let ghost pre = terms_view(terms@).take(i as int);
        push_term_clauses(&mut r, &terms[i]);
        i = i + 1;
        proof {
            let cur = terms_view(terms@).take(i as int);
            assert(cur.drop_last() =~= pre);
            assert(cur.last() == terms_view(terms@)[i - 1]);
            assert(expr_view(r@) =~= spec_expression(cur));
        }
    }
    proof {
        assert(terms_view(terms@).take(terms@.len() as int) =~= terms_view(terms@));
    }
    r
}

/// Appends the clauses of one term.
fn push_term_clauses(r: &mut Vec<RetrievalClause>, t: &Term)
    ensures
        expr_view(final(r)@) == expr_view(old(r)@) + clauses_of_term(t@),
{
    let neg = matches!(t, Term::Not(_));
    let occ = if neg {
        Occur::MustNot
    } else {
        Occur::Must
    };
    proof {
        assert((if t@.neg {
            Occur::MustNot
        } else {
            Occur::Must
        }) == occ);
    }
    push_base_clauses(r, t, occ);
}

/// Appends the clauses of the base of `t` under polarity `occ`.
fn push_base_clauses(r: &mut Vec<RetrievalClause>, t: &Term, occ: Occur)
    ensures
        expr_view(final(r)@) == expr_view(old(r)@) + base_clauses(t.base_view(), occ),
    decreases t,
{
    match t {
        Term::Not(inner) => {
            push_base_clauses(r, inner, occ);
        },
        Term::Simple(s) => {
            let toks = crate::text::tokenize(s.as_str());
            let ghost start = expr_view(r@);
            let mut k: usize = 0;
            while k < toks.len()
                invariant
                    k <= toks@.len(),
                    toks.deep_view() == spec_tokens(s@),
                    expr_view(r@) == start + Seq::new(
                        k as nat,
                        |i: int| SpecClause {
                            occur: occ,
                            matcher: SpecMatcher::Token(spec_tokens(s@)[i]),
                        },
                    ),
                decreases toks@.len() - k,
            {
                let tok = toks[k].clone();
                proof {
                    assert(tok@ == toks.deep_view()[k as int]);
                }
                let ghost prev_e = r@;
                r.push(RetrievalClause { occur: occ, matcher: Matcher::Token(tok) });
                k = k + 1;
                proof {
                    lemma_expr_push(prev_e, r@.last());
                    assert(r@ =~= prev_e.push(r@.last()));
                    assert(expr_view(r@) =~= start + Seq::new(
                        k as nat,
                        |i: int| SpecClause {
                            occur: occ,
                            matcher: SpecMatcher::Token(spec_tokens(s@)[i]),
                        },
                    ));
                }
            }
            proof {
                assert(expr_view(r@) =~= start + base_clauses(t.base_view(), occ));
            }
        },
        Term::Phrase(v) => {
            if v.len() > 0 {
                let copied = clone_string_vec(v);
                r.push(RetrievalClause { occur: occ, matcher: Matcher::Phrase(copied) });
                proof {
                    assert(expr_view(r@) =~= expr_view(old(r)@) + base_clauses(
                        t.base_view(),
                        occ,
                    ));
                }
            } else {
                proof {
                    assert(v.deep_view().len() == 0);
                    assert(expr_view(r@) =~= expr_view(old(r)@) + base_clauses(
                        t.base_view(),
                        occ,
                    ));
                }
            }
        },
        Term::Site(s) => {
            r.push(RetrievalClause { occur: occ, matcher: Matcher::Site(s.clone()) });
            proof {
                assert(expr_view(r@) =~= expr_view(old(r)@) + base_clauses(t.base_view(), occ));
            }
        },
        Term::Title(s) => {
            let toks = crate::text::tokenize(s.as_str());
            if toks.len() > 0 {
                r.push(RetrievalClause { occur: occ, matcher: Matcher::InTitle(toks) });
                proof {
                    assert(expr_view(r@) =~= expr_view(old(r)@) + base_clauses(
                        t.base_view(),
                        occ,
                    ));
                }
            } else {
                proof {
                    assert(spec_tokens(s@).len() == 0);
                    assert(expr_view(r@) =~= expr_view(old(r)@) + base_clauses(
                        t.base_view(),
                        occ,
                    ));
                }
            }
        },
        Term::Url(s) => {
            let toks = crate::text::tokenize(s.as_str());
            if toks.len() > 0 {
                r.push(RetrievalClause { occur: occ, matcher: Matcher::InUrl(toks) });
                proof {
                    assert(expr_view(r@) =~= expr_view(old(r)@) + base_clauses(
                        t.base_view(),
                        occ,
                    ));
                }
            } else {
                proof {
                    assert(spec_tokens(s@).len() == 0);
                    assert(expr_view(r@) =~= expr_view(old(r)@) + base_clauses(
                        t.base_view(),
                        occ,
                    ));
                }
            }
        },
    }
}

/// The clauses of an unnegated base under polarity `occ`.
pub open spec fn base_clauses(b: SpecBase, occ: Occur) -> Seq<SpecClause> {
    clauses_of_term(SpecTerm { neg: (occ is MustNot), base: b })
}

} // verus!
