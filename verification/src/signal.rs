//! The closed enumeration of ranking signals, their default weights, and the
//! coefficient table a ranking policy compiles into.

use vstd::prelude::*;

use crate::index::{token_in, Document, SpecDocument};
use crate::optic::{clone_string_vec, Optic, SiteRankings, SpecSiteRankings, COEFF_MAX_MICRO};
use crate::parser::{terms_view, SpecBase, SpecTerm, Term};
use crate::text::{fold_seq, fold_word, spec_tokens, str_chars, str_eq, tokenize};

verus! {

/// One scale unit for signal coefficients: a coefficient of `1.0` is stored
/// as `COEFF_SCALE` millionths.
pub const COEFF_SCALE: u64 = 1_000_000;

/// A ranking signal. Every signal value is aggregated as
/// `coefficient * raw value`; the per-field signals reward query terms
/// matched in that field, pre-multiplied by the field's importance boost.
#[derive(Debug, Clone, Copy, PartialEq, Eq, Structural, Hash)]
pub enum Signal {
    FieldTitle,
    FieldBody,
    FieldUrl,
    FieldSite,
    FieldDomain,
    FieldBacklinkText,
    FieldStemmedTitle,
    FieldStemmedBody,
    FieldAllBody,
    HostCentrality,
    PageCentrality,
    Freshness,
    TermProximity,
    NumTrackers,
    IsHomepageBonus,
}

pub open spec fn spec_signal_from_name(s: Seq<char>) -> Option<Signal> {
    if s == "field_title"@ {
        Some(Signal::FieldTitle)
    } else if s == "field_body"@ {
        Some(Signal::FieldBody)
    } else if s == "field_url"@ {
        Some(Signal::FieldUrl)
    } else if s == "field_site"@ {
        Some(Signal::FieldSite)
    } else if s == "field_domain"@ {
        Some(Signal::FieldDomain)
    } else if s == "field_backlink_text"@ {
        Some(Signal::FieldBacklinkText)
    } else if s == "field_stemmed_title"@ {
        Some(Signal::FieldStemmedTitle)
    } else if s == "field_stemmed_body"@ {
        Some(Signal::FieldStemmedBody)
    } else if s == "field_all_body"@ {
        Some(Signal::FieldAllBody)
    } else if s == "host_centrality"@ {
        Some(Signal::HostCentrality)
    } else if s == "page_centrality"@ {
        Some(Signal::PageCentrality)
    } else if s == "freshness"@ {
        Some(Signal::Freshness)
    } else if s == "term_proximity"@ {
        Some(Signal::TermProximity)
    } else if s == "num_trackers"@ {
        Some(Signal::NumTrackers)
    } else if s == "is_homepage"@ {
        Some(Signal::IsHomepageBonus)
    } else {
        None
    }
}

impl Signal {
    /// The signal a policy program addresses by this name, if any.
    pub fn from_name(name: &str) -> (r: Option<Signal>)
        ensures
            r == spec_signal_from_name(name@),
    {
        if str_eq(name, "field_title") {
            Some(Signal::FieldTitle)
        } else if str_eq(name, "field_body") {
            Some(Signal::FieldBody)
        } else if str_eq(name, "field_url") {
            Some(Signal::FieldUrl)
        } else if str_eq(name, "field_site") {
            Some(Signal::FieldSite)
        } else if str_eq(name, "field_domain") {
            Some(Signal::FieldDomain)
        } else if str_eq(name, "field_backlink_text") {
            Some(Signal::FieldBacklinkText)
        } else if str_eq(name, "field_stemmed_title") {
            Some(Signal::FieldStemmedTitle)
        } else if str_eq(name, "field_stemmed_body") {
            Some(Signal::FieldStemmedBody)
        } else if str_eq(name, "field_all_body") {
            Some(Signal::FieldAllBody)
        } else if str_eq(name, "host_centrality") {
            Some(Signal::HostCentrality)
        } else if str_eq(name, "page_centrality") {
            Some(Signal::PageCentrality)
        } else if str_eq(name, "freshness") {
            Some(Signal::Freshness)
        } else if str_eq(name, "term_proximity") {
            Some(Signal::TermProximity)
        } else if str_eq(name, "num_trackers") {
            Some(Signal::NumTrackers)
        } else if str_eq(name, "is_homepage") {
            Some(Signal::IsHomepageBonus)
        } else {
            None
        }
    }
}

/// The built-in weight of a signal, used when the policy sets none.
pub open spec fn spec_default_coefficient(s: Signal) -> u64 {
    COEFF_SCALE
}

pub fn default_coefficient(s: Signal) -> (r: u64)
    ensures
        r == spec_default_coefficient(s),
{
    COEFF_SCALE
}

/// The coefficient entries compiled from a policy's declarations, in order:
/// names that address no signal are dropped, and values are clamped to
/// `COEFF_MAX_MICRO`.
pub open spec fn spec_coeffs_of(rankings: Seq<(Seq<char>, u64)>) -> Seq<(Signal, u64)>
    decreases rankings.len(),
{
    if rankings.len() == 0 {
        Seq::empty()
    } else {
        spec_coeffs_of(rankings.drop_last()) + (match spec_signal_from_name(rankings.last().0) {
            Some(sig) => seq![
                (sig, if rankings.last().1 >= COEFF_MAX_MICRO {
                    COEFF_MAX_MICRO
                } else {
                    rankings.last().1
                }),
            ],
            None => Seq::empty(),
        })
    }
}

/// The coefficient an entry list gives a signal: the latest entry wins.
pub open spec fn spec_lookup(entries: Seq<(Signal, u64)>, s: Signal) -> Option<u64>
    decreases entries.len(),
{
    if entries.len() == 0 {
        None
    } else if entries.last().0 == s {
        Some(entries.last().1)
    } else {
        spec_lookup(entries.drop_last(), s)
    }
}

/// Every value of a compiled entry list stays within `COEFF_MAX_MICRO`.
pub proof fn lemma_coeffs_bounded(rankings: Seq<(Seq<char>, u64)>, i: int)
    requires
        0 <= i < spec_coeffs_of(rankings).len(),
    ensures
        spec_coeffs_of(rankings)[i].1 <= COEFF_MAX_MICRO,
    decreases rankings.len(),
{
    if rankings.len() > 0 {
        if i < spec_coeffs_of(rankings.drop_last()).len() {
            lemma_coeffs_bounded(rankings.drop_last(), i);
        }
    }
}

pub proof fn lemma_lookup_bounded(entries: Seq<(Signal, u64)>, s: Signal)
    requires
        forall|i: int| 0 <= i < entries.len() ==> (#[trigger] entries[i]).1 <= COEFF_MAX_MICRO,
        spec_lookup(entries, s) is Some,
    ensures
        spec_lookup(entries, s)->0 <= COEFF_MAX_MICRO,
    decreases entries.len(),
{
    if entries.len() > 0 && entries.last().0 != s {
        assert(forall|i: int|
            0 <= i < entries.drop_last().len() ==> (#[trigger] entries.drop_last()[i]).1
                <= COEFF_MAX_MICRO);
        lemma_lookup_bounded(entries.drop_last(), s);
    }
}

/// The signal-coefficient table of one request: what the merged policy set,
/// with built-in defaults behind it.
#[derive(Debug, Clone)]
pub struct SignalCoefficient {
    pub entries: Vec<(Signal, u64)>,
}

impl View for SignalCoefficient {
    type V = Seq<(Signal, u64)>;

    open spec fn view(&self) -> Seq<(Signal, u64)> {
        self.entries@
    }
}

impl SignalCoefficient {
    /// All entries stay within the coefficient cap.
    pub open spec fn wf(&self) -> bool {
        forall|i: int| 0 <= i < self@.len() ==> (#[trigger] self@[i]).1 <= COEFF_MAX_MICRO
    }

    /// An empty table: every signal at its default weight.
    pub fn new() -> (r: SignalCoefficient)
        ensures
            r@ == Seq::<(Signal, u64)>::empty(),
            r.wf(),
    {
        SignalCoefficient { entries: Vec::new() }
    }

    /// Compiles the coefficient declarations of a policy.
    pub fn from_optic(optic: &Optic) -> (r: SignalCoefficient)
        ensures
            r@ == spec_coeffs_of(optic@.rankings),
            r.wf(),
    {
        let mut entries: Vec<(Signal, u64)> = Vec::new();
        let mut i: usize = 0;
        while i < optic.rankings.len()
            invariant
                i <= optic.rankings@.len(),
                entries@ == spec_coeffs_of(optic@.rankings.take(i as int)),
            decreases optic.rankings@.len() - i,
        {
            let ghost pre = optic@.rankings.take(i as int);
            match Signal::from_name(optic.rankings[i].target.as_str()) {
                Some(sig) => {
                    let v = optic.rankings[i].value;
                    let clamped = if v >= COEFF_MAX_MICRO {
                        COEFF_MAX_MICRO
                    } else {
                        v
                    };
                    entries.push((sig, clamped));
                },
                None => {},
            }
            i = i + 1;
            proof {
                let cur = optic@.rankings.take(i as int);
                assert(cur.drop_last() =~= pre);
                assert(cur.last() == optic@.rankings[i - 1]);
                assert(entries@ =~= spec_coeffs_of(cur));
            }
        }
        proof {
            assert(optic@.rankings.take(optic@.rankings.len() as int) =~= optic@.rankings);
            assert forall|j: int| 0 <= j < entries@.len() implies (#[trigger] entries@[j]).1
                <= COEFF_MAX_MICRO by {
                lemma_coeffs_bounded(optic@.rankings, j);
            }
        }
        SignalCoefficient { entries }
    }

    /// The coefficient the policy set for `s`, if any; the latest entry wins.
    pub fn get(&self, s: Signal) -> (r: Option<u64>)
        ensures
            r == spec_lookup(self@, s),
    {
        let mut i: usize = self.entries.len();
        proof {
            assert(self@.take(i as int) =~= self@);
        }
        while i > 0
            invariant
                i <= self@.len(),
                spec_lookup(self@.take(i as int), s) == spec_lookup(self@, s),
            decreases i,
        {
            i = i - 1;
            let ghost cur = self@.take(i + 1);
            proof {
                assert(cur.last() == self@[i as int]);
                assert(cur.drop_last() =~= self@.take(i as int));
            }
            if self.entries[i].0 == s {
                return Some(self.entries[i].1);
            }
        }
        proof {
            assert(self@.take(0) =~= Seq::<(Signal, u64)>::empty());
        }
        None
    }

    /// The effective coefficient of `s`: the policy's value, clamped, or the
    /// built-in default.
    pub fn coefficient(&self, s: Signal) -> (r: u64)
        requires
            self.wf(),
        ensures
            r == spec_coefficient(self@, s),
            r <= COEFF_MAX_MICRO,
    {
        proof {
            if spec_lookup(self@, s) is Some {
                lemma_lookup_bounded(self@, s);
            }
        }
        match self.get(s) {
            Some(v) => v,
            None => default_coefficient(s),
        }
    }
}

impl Default for SignalCoefficient {
    fn default() -> (r: SignalCoefficient)
        ensures
            r@ == Seq::<(Signal, u64)>::empty(),
            r.wf(),
    {
        SignalCoefficient { entries: Vec::new() }
    }
}

/// The effective coefficient of `s` under entry list `entries`.
pub open spec fn spec_coefficient(entries: Seq<(Signal, u64)>, s: Signal) -> u64 {
    match spec_lookup(entries, s) {
        Some(v) => v,
        None => spec_default_coefficient(s),
    }
}


// ---------------------------------------------------------------------------
// Raw signal values
// ---------------------------------------------------------------------------

/// Horizon of the freshness signal, in seconds: pages older than this score
/// zero freshness.
pub const FRESHNESS_HORIZON: u64 = 315_360_000;

/// One scale unit for raw signal values: a full-strength signal is
/// `RAW_SCALE`.
pub const RAW_SCALE: u64 = 1_000_000_000;

/// Cap on the summed term scores of one field, against adversarial inputs.
pub const FIELD_SUM_CAP: u128 = 1_000_000_000_000;

/// The raw value a single full match contributes: `spec_sat(1)` times
/// `spec_lennorm(1)`. Used for the homepage domain-name match.
pub const NAV_UNIT: u64 = 19_607_000;

/// Flat score boost for a liked host, and penalty for a disliked one.
pub const HOST_PREFERENCE_BOOST: u128 = 5_000_000_000_000_000;

/// Saturating term-frequency weight: grows from 1000 at one occurrence
/// towards 2000, so that repetition cannot dominate.
pub open spec fn spec_sat(tf: int) -> int {
    if tf <= 0 {
        0
    } else {
        let m = if tf < 1000 {
            tf
        } else {
            1000
        };
        2000 * m / (m + 1)
    }
}

/// Length normalization: long fields weigh each match less.
pub open spec fn spec_lennorm(len: int) -> int {
    1_000_000int / (50 + len)
}

/// How often `w` occurs in `tokens`.
pub open spec fn spec_count(tokens: Seq<Seq<char>>, w: Seq<char>) -> int
    decreases tokens.len(),
{
    if tokens.len() == 0 {
        0int
    } else {
        spec_count(tokens.drop_last(), w) + (if tokens.last() == w {
            1int
        } else {
            0int
        })
    }
}

/// What one query token contributes in one field.
pub open spec fn spec_term_score(tokens: Seq<Seq<char>>, w: Seq<char>) -> int {
    if spec_count(tokens, w) > 0 {
        spec_sat(spec_count(tokens, w)) * spec_lennorm(tokens.len() as int)
    } else {
        0
    }
}

/// The summed term scores of one field over the query tokens `q`.
pub open spec fn spec_field_sum(tokens: Seq<Seq<char>>, q: Seq<Seq<char>>) -> int
    decreases q.len(),
{
    if q.len() == 0 {
        0int
    } else {
        spec_field_sum(tokens, q.drop_last()) + spec_term_score(tokens, q.last())
    }
}

/// The capped raw match value of one field.
pub open spec fn spec_field_raw(tokens: Seq<Seq<char>>, q: Seq<Seq<char>>) -> int {
    if spec_field_sum(tokens, q) > FIELD_SUM_CAP {
        FIELD_SUM_CAP as int
    } else {
        spec_field_sum(tokens, q)
    }
}

/// The tokens of every unnegated simple term, in order, repeats included.
pub open spec fn spec_pos_tokens(ts: Seq<SpecTerm>) -> Seq<Seq<char>>
    decreases ts.len(),
{
    if ts.len() == 0 {
        Seq::empty()
    } else {
        spec_pos_tokens(ts.drop_last()) + (match ts.last() {
            SpecTerm { neg: false, base: SpecBase::Simple(w) } => spec_tokens(w),
            _ => Seq::empty(),
        })
    }
}

/// First occurrences only.
pub open spec fn spec_dedup(s: Seq<Seq<char>>) -> Seq<Seq<char>>
    decreases s.len(),
{
    if s.len() == 0 {
        Seq::empty()
    } else {
        spec_dedup(s.drop_last()) + (if s.drop_last().contains(s.last()) {
            Seq::empty()
        } else {
            seq![s.last()]
        })
    }
}

/// The distinct query tokens scoring works over.
pub open spec fn spec_query_tokens(ts: Seq<SpecTerm>) -> Seq<Seq<char>> {
    spec_dedup(spec_pos_tokens(ts))
}

/// Some unnegated simple term's folded text equals the document's domain:
/// the query names the site itself.
pub open spec fn spec_nav_match(ts: Seq<SpecTerm>, domain: Seq<char>) -> bool
    decreases ts.len(),
{
    if ts.len() == 0 {
        false
    } else {
        spec_nav_match(ts.drop_last(), domain) || (match ts.last() {
            SpecTerm { neg: false, base: SpecBase::Simple(w) } => fold_seq(w) == domain,
            _ => false,
        })
    }
}

/// Freshness: full at the declared update time, falling linearly to zero
/// over the horizon; unknown update times score zero.
pub open spec fn spec_fresh(last_updated: Option<u64>, now: u64) -> int {
    match last_updated {
        None => 0int,
        Some(lu) => if lu >= now {
            RAW_SCALE as int
        } else {
            let age = now - lu;
            if age >= FRESHNESS_HORIZON {
                0int
            } else {
                (FRESHNESS_HORIZON - age) * RAW_SCALE / (FRESHNESS_HORIZON as int)
            }
        },
    }
}

/// The tracker penalty's raw value.
pub open spec fn spec_trackers_raw(n: u64) -> int {
    let m = if n < 1000 {
        n as int
    } else {
        1000int
    };
    m * RAW_SCALE
}

/// The proximity automaton: walks the body tokens remembering the last
/// query-token position and the smallest gap between two neighbouring
/// occurrences of distinct query tokens seen so far.
pub open spec fn prox_fold(tokens: Seq<Seq<char>>, q: Seq<Seq<char>>) -> (
    Option<(int, Seq<char>)>,
    Option<int>,
)
    decreases tokens.len(),
{
    if tokens.len() == 0 {
        (None::<(int, Seq<char>)>, None::<int>)
    } else {
        let prev = prox_fold(tokens.drop_last(), q);
        let i = tokens.len() - 1;
        let tok = tokens.last();
        if q.contains(tok) {
            match prev.0 {
                Some(p) => if p.1 != tok {
                    let dd = i - p.0;
                    let best = match prev.1 {
                        Some(b) => if dd < b {
                            dd
                        } else {
                            b
                        },
                        None => dd,
                    };
                    (Some((i as int, tok)), Some(best))
                } else {
                    (Some((i as int, tok)), prev.1)
                },
                None => (Some((i as int, tok)), prev.1),
            }
        } else {
            prev
        }
    }
}

/// The term-proximity raw value: higher the closer two distinct query
/// tokens stand in the body.
pub open spec fn spec_prox_raw(tokens: Seq<Seq<char>>, q: Seq<Seq<char>>) -> int {
    match prox_fold(tokens, q).1 {
        Some(d) => (RAW_SCALE as int) / (1 + d),
        None => 0int,
    }
}

/// `host` or `domain` stands in the preference list.
pub open spec fn spec_host_in(lst: Seq<Seq<char>>, site: Seq<char>, domain: Seq<char>) -> bool {
    lst.contains(site) || lst.contains(domain)
}

// ---------------------------------------------------------------------------
// The aggregated score
// ---------------------------------------------------------------------------

/// The whole relevance score of one candidate: the weighted sum of every
/// signal, the tracker penalty and a disliked-host penalty subtracted with
/// a floor at zero.
pub open spec fn spec_score(
    coeffs: Seq<(Signal, u64)>,
    sr: SpecSiteRankings,
    d: SpecDocument,
    ts: Seq<SpecTerm>,
    now: u64,
) -> int {
    let q = spec_query_tokens(ts);
    let hp = d.is_homepage;
    let title_boost: int = if hp {
        1200
    } else {
        1000
    };
    let domain_boost: int = if hp {
        1100
    } else {
        100
    };
    let nav: int = if hp && spec_nav_match(ts, d.domain) {
        3000 * NAV_UNIT
    } else {
        0
    };
    let pos = spec_coefficient(coeffs, Signal::FieldTitle) * (spec_field_raw(d.title_tokens, q)
        * title_boost) + spec_coefficient(coeffs, Signal::FieldBody) * (spec_field_raw(
        d.body_tokens,
        q,
    ) * 400) + spec_coefficient(coeffs, Signal::FieldUrl) * (spec_field_raw(d.url_tokens, q)
        * 100) + spec_coefficient(coeffs, Signal::FieldSite) * (spec_field_raw(d.site_tokens, q)
        * 300) + spec_coefficient(coeffs, Signal::FieldDomain) * (spec_field_raw(
        d.domain_tokens,
        q,
    ) * domain_boost + nav) + spec_coefficient(coeffs, Signal::FieldBacklinkText) * (
    spec_field_raw(d.backlink_tokens, q) * 400) + spec_coefficient(
        coeffs,
        Signal::FieldStemmedTitle,
    ) * (spec_field_raw(d.title_tokens, q) * 10) + spec_coefficient(
        coeffs,
        Signal::FieldStemmedBody,
    ) * (spec_field_raw(d.body_tokens, q) * 10) + spec_coefficient(coeffs, Signal::FieldAllBody)
        * spec_field_raw(d.body_tokens + d.description_tokens, q) + spec_coefficient(
        coeffs,
        Signal::HostCentrality,
    ) * d.host_centrality + spec_coefficient(coeffs, Signal::PageCentrality) * d.page_centrality
        + spec_coefficient(coeffs, Signal::Freshness) * spec_fresh(d.last_updated, now)
        + spec_coefficient(coeffs, Signal::TermProximity) * spec_prox_raw(d.body_tokens, q)
        + spec_coefficient(coeffs, Signal::IsHomepageBonus) * (if hp {
        RAW_SCALE as int
    } else {
        0int
    }) + (if spec_host_in(sr.liked, d.site, d.domain) {
        HOST_PREFERENCE_BOOST as int
    } else {
        0int
    });
    let neg = spec_coefficient(coeffs, Signal::NumTrackers) * spec_trackers_raw(d.num_trackers)
        + (if spec_host_in(sr.disliked, d.site, d.domain) {
        HOST_PREFERENCE_BOOST as int
    } else {
        0int
    });
    if pos >= neg {
        pos - neg
    } else {
        0
    }
}

// ---------------------------------------------------------------------------
// Executable scoring
// ---------------------------------------------------------------------------

fn sat(tf: u64) -> (r: u64)
    ensures
        r == spec_sat(tf as int),
        r <= 2000,
{
    if tf == 0 {
        0
    } else {
        let m: u64 = if tf < 1000 {
            tf
        } else {
            1000
        };
        let q = (2000 * m) / (m + 1);
        proof {
            vstd::arithmetic::div_mod::lemma_div_is_ordered(
                2000 * (m as int),
                ((m as int) + 1) * 2000,
                (m as int) + 1,
            );
            vstd::arithmetic::div_mod::lemma_div_multiples_vanish(2000, (m as int) + 1);
        }
        q
    }
}

fn lennorm(len: usize) -> (r: u64)
    ensures
        r == spec_lennorm(len as int),
        r <= 20_000,
{
    let d: u128 = 50u128 + (len as u128);
    let q: u128 = 1_000_000u128 / d;
    proof {
        vstd::arithmetic::div_mod::lemma_div_is_ordered_by_denominator(1_000_000, 50, d as int);
        assert(1_000_000int / 50 == 20_000);
    }
    q as u64
}

fn count_token(tokens: &Vec<String>, w: &String) -> (r: u64)
    ensures
        r == spec_count(tokens.deep_view(), w@),
{
    let mut n: u64 = 0;
    let mut i: usize = 0;
    while i < tokens.len()
        invariant
            i <= tokens@.len(),
            n <= i,
            n == spec_count(tokens.deep_view().take(i as int), w@),
        decreases tokens@.len() - i,
    {
        let ghost pre = tokens.deep_view().take(i as int);
        if tokens[i].eq(w) {
            n = n + 1;
        }
        i = i + 1;
        proof {
            let cur = tokens.deep_view().take(i as int);
            assert(cur.drop_last() =~= pre);
            assert(cur.last() == tokens.deep_view()[i - 1]);
            assert(tokens.deep_view()[i - 1] == tokens@[i - 1]@);
        }
    }
    proof {
        assert(tokens.deep_view().take(tokens@.len() as int) =~= tokens.deep_view());
    }
    n
}

/// The capped raw match value of one field, over the deduplicated query
/// tokens.
fn field_raw(tokens: &Vec<String>, q: &Vec<String>) -> (r: u128)
    ensures
        r == spec_field_raw(tokens.deep_view(), q.deep_view()),
        r <= FIELD_SUM_CAP,
{
    let mut sum: u128 = 0;
    let mut i: usize = 0;
    while i < q.len()
        invariant
            i <= q@.len(),
            sum == spec_field_sum(tokens.deep_view(), q.deep_view().take(i as int)),
            sum <= (i as int) * 40_000_000,
        decreases q@.len() - i,
    {
        let ghost pre = q.deep_view().take(i as int);
        let c = count_token(tokens, &q[i]);
        let term: u64 = if c > 0 {
            let s = sat(c);
            let l = lennorm(tokens.len());
            proof {
                assert(s * l <= 40_000_000) by (nonlinear_arith)
                    requires
                        0 <= s <= 2000,
                        0 <= l <= 20_000,
                {}
            }
            s * l
        } else {
            0
        };
        proof {
            assert(q.deep_view()[i as int] == q@[i as int]@);
            assert(term == spec_term_score(tokens.deep_view(), q.deep_view()[i as int]));
            assert(term <= 40_000_000);
        }
        sum = sum + (term as u128);
        i = i + 1;
        proof {
            let cur = q.deep_view().take(i as int);
            assert(cur.drop_last() =~= pre);
            assert(cur.last() == q.deep_view()[i - 1]);
        }
    }
    proof {
        assert(q.deep_view().take(q@.len() as int) =~= q.deep_view());
    }
    if sum > FIELD_SUM_CAP {
        FIELD_SUM_CAP
    } else {
        sum
    }
}

/// The deduplicated tokens of the query's unnegated simple terms.
pub fn query_tokens(terms: &Vec<Term>) -> (r: Vec<String>)
    ensures
        r.deep_view() == spec_query_tokens(terms_view(terms@)),
{
    let mut all: Vec<String> = Vec::new();
    proof {
        assert(all.deep_view() =~= spec_pos_tokens(terms_view(terms@).take(0)));
    }
    let mut i: usize = 0;
    while i < terms.len()
        invariant
            i <= terms@.len(),
            all.deep_view() == spec_pos_tokens(terms_view(terms@).take(i as int)),
        decreases terms@.len() - i,
    {
        let ghost pre = terms_view(terms@).take(i as int);
        match &terms[i] {
            Term::Simple(s) => {
                let mut toks = tokenize(s.as_str());
                let ghost toks_view = toks.deep_view();
                let ghost all_view = all.deep_view();
                all.append(&mut toks);
                proof {
                    assert(all.deep_view() =~~= all_view + toks_view);
                }
            },
            _ => {},
        }
        i = i + 1;
        proof {
            let cur = terms_view(terms@).take(i as int);
            assert(cur.drop_last() =~= pre);
            assert(cur.last() == terms_view(terms@)[i - 1]);
            assert(all.deep_view() =~~= spec_pos_tokens(cur));
        }
    }
    proof {
        assert(terms_view(terms@).take(terms@.len() as int) =~= terms_view(terms@));
    }
    // Keep first occurrences only.
    let mut out: Vec<String> = Vec::new();
    let mut i: usize = 0;
    proof {
        assert(out.deep_view() =~= spec_dedup(all.deep_view().take(0)));
    }
    while i < all.len()
        invariant
            i <= all@.len(),
            out.deep_view() == spec_dedup(all.deep_view().take(i as int)),
        decreases all@.len() - i,
    {
        let ghost pre = all.deep_view().take(i as int);
        let seen = token_in_prefix(&all, i);
        if !seen {
            let item = all[i].clone();
            let ghost itemv = item@;
            let ghost out_pre = out.deep_view();
            proof {
                assert(itemv == all.deep_view()[i as int]);
            }
            out.push(item);
            proof {
                assert(out.deep_view() =~~= out_pre.push(itemv));
            }
        }
        i = i + 1;
        proof {
            let cur = all.deep_view().take(i as int);
            assert(cur.drop_last() =~= pre);
            assert(cur.last() == all.deep_view()[i - 1]);
            assert(out.deep_view() =~~= spec_dedup(cur));
        }
    }
    proof {
        assert(all.deep_view().take(all@.len() as int) =~= all.deep_view());
    }
    out
}

/// Does `v[i]` already occur among `v[..i]`?
fn token_in_prefix(v: &Vec<String>, i: usize) -> (r: bool)
    requires
        i < v@.len(),
    ensures
        r == v.deep_view().take(i as int).contains(v.deep_view()[i as int]),
{
    let mut j: usize = 0;
    while j < i
        invariant
            j <= i < v@.len(),
            forall|k: int| 0 <= k < j ==> v.deep_view()[k] != v.deep_view()[i as int],
        decreases i - j,
    {
        if v[j].eq(&v[i]) {
            proof {
                assert(v.deep_view()[j as int] == v@[j as int]@);
                assert(v.deep_view()[i as int] == v@[i as int]@);
                assert(v.deep_view().take(i as int)[j as int] == v.deep_view()[i as int]);
            }
            return true;
        }
        proof {
            assert(v.deep_view()[j as int] == v@[j as int]@);
            assert(v.deep_view()[i as int] == v@[i as int]@);
        }
        j = j + 1;
    }
    proof {
        let pre = v.deep_view().take(i as int);
        assert(forall|k: int| 0 <= k < pre.len() ==> pre[k] != v.deep_view()[i as int]);
    }
    false
}

fn nav_match(terms: &Vec<Term>, domain: &String) -> (r: bool)
    ensures
        r == spec_nav_match(terms_view(terms@), domain@),
{
    let dom_chars = str_chars(domain.as_str());
    let mut i: usize = 0;
    let mut found = false;
    proof {
        assert(!spec_nav_match(terms_view(terms@).take(0), domain@));
    }
    while i < terms.len()
        invariant
            i <= terms@.len(),
            dom_chars@ == domain@,
            found == spec_nav_match(terms_view(terms@).take(i as int), domain@),
        decreases terms@.len() - i,
    {
        let ghost pre = terms_view(terms@).take(i as int);
        match &terms[i] {
            Term::Simple(s) => {
                let chars = str_chars(s.as_str());
                let folded = fold_word(&chars);
                if crate::text::chars_eq(&folded, &dom_chars) {
                    found = true;
                }
            },
            _ => {},
        }
        i = i + 1;
        proof {
            let cur = terms_view(terms@).take(i as int);
            assert(cur.drop_last() =~= pre);
            assert(cur.last() == terms_view(terms@)[i - 1]);
        }
    }
    proof {
        assert(terms_view(terms@).take(terms@.len() as int) =~= terms_view(terms@));
    }
    found
}

fn fresh_raw(last_updated: &Option<u64>, now: u64) -> (r: u64)
    ensures
        r == spec_fresh(*last_updated, now),
        r <= RAW_SCALE,
{
    match last_updated {
        None => 0,
        Some(lu) => {
            if *lu >= now {
                RAW_SCALE
            } else {
                let age = now - *lu;
                if age >= FRESHNESS_HORIZON {
                    0
                } else {
                    let rem = FRESHNESS_HORIZON - age;
                    proof {
                        assert(rem * RAW_SCALE <= FRESHNESS_HORIZON * RAW_SCALE)
                            by (nonlinear_arith)
                            requires
                                0 <= rem <= FRESHNESS_HORIZON,
                        {}
                        assert((rem * RAW_SCALE) / (FRESHNESS_HORIZON as int) <= RAW_SCALE)
                            by (nonlinear_arith)
                            requires
                                0 <= rem * RAW_SCALE <= FRESHNESS_HORIZON * RAW_SCALE,
                        {}
                    }
                    (rem * RAW_SCALE) / FRESHNESS_HORIZON
                }
            }
        },
    }
}

fn trackers_raw(n: u64) -> (r: u64)
    ensures
        r == spec_trackers_raw(n),
        r <= 1000 * RAW_SCALE,
{
    let m: u64 = if n < 1000 {
        n
    } else {
        1000
    };
    m * RAW_SCALE
}

fn prox_raw(tokens: &Vec<String>, q: &Vec<String>) -> (r: u64)
    ensures
        r == spec_prox_raw(tokens.deep_view(), q.deep_view()),
        r <= RAW_SCALE,
{
    let mut last: Option<(usize, String)> = None;
    let mut best: Option<u64> = None;
    let mut i: usize = 0;
    while i < tokens.len()
        invariant
            i <= tokens@.len(),
            (match last {
                Some(pt) => prox_fold(tokens.deep_view().take(i as int), q.deep_view()).0 == Some(
                    (pt.0 as int, pt.1@),
                ) && pt.0 < i,
                None => prox_fold(tokens.deep_view().take(i as int), q.deep_view()).0 is None,
            }),
            (match best {
                Some(b) => prox_fold(tokens.deep_view().take(i as int), q.deep_view()).1 == Some(
                    b as int,
                ) && b >= 1,
                None => prox_fold(tokens.deep_view().take(i as int), q.deep_view()).1 is None,
            }),
        decreases tokens@.len() - i,
    {
        let ghost pre = tokens.deep_view().take(i as int);
        let in_q = token_in(q, &tokens[i]);
        proof {
            assert(tokens.deep_view()[i as int] == tokens@[i as int]@);
        }
        if in_q {
            match &last {
                Some((p, t)) => {
                    if !t.eq(&tokens[i]) {
                        let dd = (i - *p) as u64;
                        let nb = match best {
                            Some(b) => if dd < b {
                                dd
                            } else {
                                b
                            },
                            None => dd,
                        };
                        best = Some(nb);
                        last = Some((i, tokens[i].clone()));
                    } else {
                        last = Some((i, tokens[i].clone()));
                    }
                },
                None => {
                    last = Some((i, tokens[i].clone()));
                },
            }
        }
        i = i + 1;
        proof {
            let cur = tokens.deep_view().take(i as int);
            assert(cur.drop_last() =~= pre);
            assert(cur.last() == tokens.deep_view()[i - 1]);
        }
    }
    proof {
        assert(tokens.deep_view().take(tokens@.len() as int) =~= tokens.deep_view());
    }
    match best {
        Some(d) => {
            let q128: u128 = (RAW_SCALE as u128) / (1 + (d as u128));
            proof {
                vstd::arithmetic::div_mod::lemma_div_is_ordered_by_denominator(
                    RAW_SCALE as int,
                    1,
                    1 + (d as int),
                );
                assert((RAW_SCALE as int) / 1 == RAW_SCALE);
            }
            q128 as u64
        },
        None => 0,
    }
}

fn host_in(lst: &Vec<String>, site: &String, domain: &String) -> (r: bool)
    ensures
        r == spec_host_in(lst.deep_view(), site@, domain@),
{
    let a = token_in(lst, site);
    let b = token_in(lst, domain);
    a || b
}

/// Under a well-formed table every effective coefficient is capped.
pub proof fn lemma_coeff_wf(entries: Seq<(Signal, u64)>, s: Signal)
    requires
        forall|i: int| 0 <= i < entries.len() ==> (#[trigger] entries[i]).1 <= COEFF_MAX_MICRO,
    ensures
        0 <= spec_coefficient(entries, s) <= COEFF_MAX_MICRO,
{
    if spec_lookup(entries, s) is Some {
        lemma_lookup_bounded(entries, s);
    }
}

/// Bound of a coefficient-times-raw product.
proof fn lemma_contrib_bound(c: int, raw: int, rawmax: int)
    requires
        0 <= c <= COEFF_MAX_MICRO,
        0 <= raw <= rawmax,
        0 <= rawmax,
    ensures
        0 <= c * raw <= (COEFF_MAX_MICRO as int) * rawmax,
{
    assert(0 <= c * raw <= (COEFF_MAX_MICRO as int) * rawmax) by (nonlinear_arith)
        requires
            0 <= c <= COEFF_MAX_MICRO,
            0 <= raw <= rawmax,
            0 <= rawmax,
    {}
}

/// The per-request signal aggregator: the merged policy's coefficient table
/// and host preferences.
#[derive(Debug)]
pub struct SignalAggregator {
    pub coefficients: SignalCoefficient,
    pub site_rankings: SiteRankings,
}

impl SignalAggregator {
    pub fn new(coefficients: SignalCoefficient, site_rankings: SiteRankings) -> (r:
        SignalAggregator)
        ensures
            r.coefficients == coefficients,
            r.site_rankings == site_rankings,
    {
        SignalAggregator { coefficients, site_rankings }
    }

    /// Scores one candidate document for the given query terms at the given
    /// time.
    pub fn score(&self, d: &Document, terms: &Vec<Term>, q: &Vec<String>, now: u64) -> (r: u128)
        requires
            self.coefficients.wf(),
            q.deep_view() == spec_query_tokens(terms_view(terms@)),
        ensures
            r == spec_score(
                self.coefficients@,
                self.site_rankings@,
                d@,
                terms_view(terms@),
                now,
            ),
    {
        let hp = d.is_homepage;
        let title_boost: u128 = if hp {
            1200
        } else {
            1000
        };
        let domain_boost: u128 = if hp {
            1100
        } else {
            100
        };
        let is_nav = nav_match(terms, &d.domain);
        let nav: u128 = if hp && is_nav {
            3000 * (NAV_UNIT as u128)
        } else {
            0
        };
        let c = &self.coefficients;
        let title_raw = field_raw(&d.title_tokens, q);
        let body_raw = field_raw(&d.body_tokens, q);
        let url_raw = field_raw(&d.url_tokens, q);
        let site_raw = field_raw(&d.site_tokens, q);
        let domain_raw = field_raw(&d.domain_tokens, q);
        let backlink_raw = field_raw(&d.backlink_tokens, q);
        let all_body = concat_tokens(&d.body_tokens, &d.description_tokens);
        let all_body_raw = field_raw(&all_body, q);
        let freshv = fresh_raw(&d.last_updated, now);
        let proxv = prox_raw(&d.body_tokens, q);
        let trkv = trackers_raw(d.num_trackers);
        let liked = host_in(&self.site_rankings.liked, &d.site, &d.domain);
        let disliked = host_in(&self.site_rankings.disliked, &d.site, &d.domain);
        proof {
            assert(all_body.deep_view() == d@.body_tokens + d@.description_tokens);
        }
        proof {
            let cm = COEFF_MAX_MICRO as int;
            lemma_coeff_wf(c@, Signal::FieldTitle);
            lemma_coeff_wf(c@, Signal::FieldBody);
            lemma_coeff_wf(c@, Signal::FieldUrl);
            lemma_coeff_wf(c@, Signal::FieldSite);
            lemma_coeff_wf(c@, Signal::FieldDomain);
            lemma_coeff_wf(c@, Signal::FieldBacklinkText);
            lemma_coeff_wf(c@, Signal::FieldStemmedTitle);
            lemma_coeff_wf(c@, Signal::FieldStemmedBody);
            lemma_coeff_wf(c@, Signal::FieldAllBody);
            lemma_coeff_wf(c@, Signal::HostCentrality);
            lemma_coeff_wf(c@, Signal::PageCentrality);
            lemma_coeff_wf(c@, Signal::Freshness);
            lemma_coeff_wf(c@, Signal::TermProximity);
            lemma_coeff_wf(c@, Signal::IsHomepageBonus);
            lemma_coeff_wf(c@, Signal::NumTrackers);
            lemma_contrib_bound(
                spec_coefficient(c@, Signal::FieldTitle) as int,
                (title_raw * title_boost) as int,
                (FIELD_SUM_CAP * 1200) as int,
            );
            lemma_contrib_bound(
                spec_coefficient(c@, Signal::FieldBody) as int,
                (body_raw * 400) as int,
                (FIELD_SUM_CAP * 400) as int,
            );
            lemma_contrib_bound(
                spec_coefficient(c@, Signal::FieldUrl) as int,
                (url_raw * 100) as int,
                (FIELD_SUM_CAP * 100) as int,
            );
            lemma_contrib_bound(
                spec_coefficient(c@, Signal::FieldSite) as int,
                (site_raw * 300) as int,
                (FIELD_SUM_CAP * 300) as int,
            );
            lemma_contrib_bound(
                spec_coefficient(c@, Signal::FieldDomain) as int,
                (domain_raw * domain_boost + nav) as int,
                (FIELD_SUM_CAP * 1100 + 3000 * (NAV_UNIT as int)) as int,
            );
            lemma_contrib_bound(
                spec_coefficient(c@, Signal::FieldBacklinkText) as int,
                (backlink_raw * 400) as int,
                (FIELD_SUM_CAP * 400) as int,
            );
            lemma_contrib_bound(
                spec_coefficient(c@, Signal::FieldStemmedTitle) as int,
                (title_raw * 10) as int,
                (FIELD_SUM_CAP * 10) as int,
            );
            lemma_contrib_bound(
                spec_coefficient(c@, Signal::FieldStemmedBody) as int,
                (body_raw * 10) as int,
                (FIELD_SUM_CAP * 10) as int,
            );
            lemma_contrib_bound(
                spec_coefficient(c@, Signal::FieldAllBody) as int,
                all_body_raw as int,
                FIELD_SUM_CAP as int,
            );
            lemma_contrib_bound(
                spec_coefficient(c@, Signal::HostCentrality) as int,
                d.host_centrality as int,
                u64::MAX as int,
            );
            lemma_contrib_bound(
                spec_coefficient(c@, Signal::PageCentrality) as int,
                d.page_centrality as int,
                u64::MAX as int,
            );
            lemma_contrib_bound(
                spec_coefficient(c@, Signal::Freshness) as int,
                freshv as int,
                RAW_SCALE as int,
            );
            lemma_contrib_bound(
                spec_coefficient(c@, Signal::TermProximity) as int,
                proxv as int,
                RAW_SCALE as int,
            );
            lemma_contrib_bound(
                spec_coefficient(c@, Signal::IsHomepageBonus) as int,
                (if hp {
                    RAW_SCALE as int
                } else {
                    0int
                }),
                RAW_SCALE as int,
            );
            lemma_contrib_bound(
                spec_coefficient(c@, Signal::NumTrackers) as int,
                spec_trackers_raw(d.num_trackers),
                1000 * RAW_SCALE as int,
            );
        }
        let p1 = (c.coefficient(Signal::FieldTitle) as u128) * (title_raw * title_boost);
        let p2 = (c.coefficient(Signal::FieldBody) as u128) * (body_raw * 400);
        let p3 = (c.coefficient(Signal::FieldUrl) as u128) * (url_raw * 100);
        let p4 = (c.coefficient(Signal::FieldSite) as u128) * (site_raw * 300);
        let p5 = (c.coefficient(Signal::FieldDomain) as u128) * (domain_raw * domain_boost + nav);
        let p6 = (c.coefficient(Signal::FieldBacklinkText) as u128) * (backlink_raw * 400);
        let p7 = (c.coefficient(Signal::FieldStemmedTitle) as u128) * (title_raw * 10);
        let p8 = (c.coefficient(Signal::FieldStemmedBody) as u128) * (body_raw * 10);
        let p9 = (c.coefficient(Signal::FieldAllBody) as u128) * all_body_raw;
        let p10 = (c.coefficient(Signal::HostCentrality) as u128) * (d.host_centrality as u128);
        let p11 = (c.coefficient(Signal::PageCentrality) as u128) * (d.page_centrality as u128);
        let p12 = (c.coefficient(Signal::Freshness) as u128) * (freshv as u128);
        let p13 = (c.coefficient(Signal::TermProximity) as u128) * (proxv as u128);
        let p14 = (c.coefficient(Signal::IsHomepageBonus) as u128) * (if hp {
            RAW_SCALE as u128
        } else {
            0
        });
        let p15: u128 = if liked {
            HOST_PREFERENCE_BOOST
        } else {
            0
        };
        let pos = p1 + p2 + p3 + p4 + p5 + p6 + p7 + p8 + p9 + p10 + p11 + p12 + p13 + p14 + p15;
        let n1 = (c.coefficient(Signal::NumTrackers) as u128) * (trkv as u128);
        let n2: u128 = if disliked {
            HOST_PREFERENCE_BOOST
        } else {
            0
        };
        let neg = n1 + n2;
        if pos >= neg {
            pos - neg
        } else {
            0
        }
    }
}

impl Default for SignalAggregator {
    fn default() -> (r: SignalAggregator)
        ensures
            r.coefficients@ == Seq::<(Signal, u64)>::empty(),
            r.coefficients.wf(),
            r.site_rankings@.liked.len() == 0,
            r.site_rankings@.disliked.len() == 0,
            r.site_rankings@.blocked.len() == 0,
    {
        SignalAggregator {
            coefficients: SignalCoefficient::new(),
            site_rankings: SiteRankings {
                liked: Vec::new(),
                disliked: Vec::new(),
                blocked: Vec::new(),
            },
        }
    }
}

/// Concatenates two token lists.
fn concat_tokens(a: &Vec<String>, b: &Vec<String>) -> (r: Vec<String>)
    ensures
        r.deep_view() == a.deep_view() + b.deep_view(),
{
    let mut r = clone_string_vec(a);
    let mut btail = clone_string_vec(b);
    let ghost rv = r.deep_view();
    let ghost bv = btail.deep_view();
    r.append(&mut btail);
    proof {
        assert(r.deep_view() =~~= rv + bv);
    }
    r
}


} // verus!
