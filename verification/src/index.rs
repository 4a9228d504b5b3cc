//! The in-memory inverted index: documents tokenized per field, grouped in
//! segments, and the evaluation of the boolean retrieval expression over
//! them.

use vstd::prelude::*;

use crate::query::{Matcher, Occur, RetrievalClause, SpecClause, SpecMatcher, expr_view};
use crate::text::{spec_tokens, str_chars, tokenize_chars};
use crate::timeutil::{parse_rfc3339, rfc3339_seconds};
use crate::webpage::{Link, Webpage};

verus! {

/// One indexed document: its per-field token lists, its fast fields, and
/// the stored fields hydration returns.
#[derive(Debug, Clone)]
pub struct Document {
    pub title_tokens: Vec<String>,
    pub body_tokens: Vec<String>,
    pub url_tokens: Vec<String>,
    pub site_tokens: Vec<String>,
    pub domain_tokens: Vec<String>,
    pub description_tokens: Vec<String>,
    pub backlink_tokens: Vec<String>,
    pub site: String,
    pub domain: String,
    pub is_homepage: bool,
    pub host_centrality: u64,
    pub page_centrality: u64,
    pub fetch_time_ms: u64,
    pub last_updated: Option<u64>,
    pub num_trackers: u64,
    pub region_id: u64,
    pub pre_computed_score: u64,
    pub title: String,
    pub url: String,
    pub body: String,
    pub description: Option<String>,
}

pub struct SpecDocument {
    pub title_tokens: Seq<Seq<char>>,
    pub body_tokens: Seq<Seq<char>>,
    pub url_tokens: Seq<Seq<char>>,
    pub site_tokens: Seq<Seq<char>>,
    pub domain_tokens: Seq<Seq<char>>,
    pub description_tokens: Seq<Seq<char>>,
    pub backlink_tokens: Seq<Seq<char>>,
    pub site: Seq<char>,
    pub domain: Seq<char>,
    pub is_homepage: bool,
    pub host_centrality: u64,
    pub page_centrality: u64,
    pub fetch_time_ms: u64,
    pub last_updated: Option<u64>,
    pub num_trackers: u64,
    pub region_id: u64,
    pub pre_computed_score: u64,
    pub title: Seq<char>,
    pub url: Seq<char>,
    pub body: Seq<char>,
    pub description: Option<Seq<char>>,
}

impl View for Document {
    type V = SpecDocument;

    open spec fn view(&self) -> SpecDocument {
        SpecDocument {
            title_tokens: self.title_tokens.deep_view(),
            body_tokens: self.body_tokens.deep_view(),
            url_tokens: self.url_tokens.deep_view(),
            site_tokens: self.site_tokens.deep_view(),
            domain_tokens: self.domain_tokens.deep_view(),
            description_tokens: self.description_tokens.deep_view(),
            backlink_tokens: self.backlink_tokens.deep_view(),
            site: self.site@,
            domain: self.domain@,
            is_homepage: self.is_homepage,
            host_centrality: self.host_centrality,
            page_centrality: self.page_centrality,
            fetch_time_ms: self.fetch_time_ms,
            last_updated: self.last_updated,
            num_trackers: self.num_trackers,
            region_id: self.region_id,
            pre_computed_score: self.pre_computed_score,
            title: self.title@,
            url: self.url@,
            body: self.body@,
            description: match self.description {
                Some(d) => Some(d@),
                None => None,
            },
        }
    }
}

// ---------------------------------------------------------------------------
// Building a document from a webpage
// ---------------------------------------------------------------------------

/// The anchor texts of all backlinks, tokenized and concatenated.
pub open spec fn spec_backlink_tokens(links: Seq<Link>) -> Seq<Seq<char>>
    decreases links.len(),
{
    if links.len() == 0 {
        Seq::empty()
    } else {
        spec_backlink_tokens(links.drop_last()) + spec_tokens(links.last().text@)
    }
}

/// The timestamp a page's declared update time parses to: negative times
/// are clamped to the epoch.
pub open spec fn spec_last_updated(raw: Option<Seq<char>>) -> Option<u64> {
    match raw {
        None => None,
        Some(s) => match rfc3339_seconds(s) {
            None => None,
            Some(t) => Some(
                if t < 0 {
                    0u64
                } else {
                    t as u64
                },
            ),
        },
    }
}

/// `d` is the document the indexer builds for `page`.
pub open spec fn doc_of_webpage(d: SpecDocument, page: Webpage) -> bool {
    &&& d.title_tokens == spec_tokens(
        match page.html.title {
            Some(t) => t@,
            None => Seq::<char>::empty(),
        },
    )
    &&& d.body_tokens == spec_tokens(page.html.text@)
    &&& d.url_tokens == spec_tokens(page.html.url@)
    &&& d.site_tokens == spec_tokens(page.html.site@)
    &&& d.domain_tokens == spec_tokens(page.html.domain@)
    &&& d.description_tokens == spec_tokens(
        match page.html.description {
            Some(t) => t@,
            None => Seq::<char>::empty(),
        },
    )
    &&& d.backlink_tokens == spec_backlink_tokens(page.backlinks@)
    &&& d.site == page.html.site@
    &&& d.domain == page.html.domain@
    &&& d.is_homepage == page.html.is_homepage
    &&& d.host_centrality == page.host_centrality
    &&& d.page_centrality == page.page_centrality
    &&& d.fetch_time_ms == page.fetch_time_ms
    &&& d.last_updated == spec_last_updated(
        match page.html.updated_time_raw {
            Some(s) => Some(s@),
            None => None,
        },
    )
    &&& d.num_trackers == page.html.num_trackers
    &&& d.region_id == 0
    &&& d.pre_computed_score == page.pre_computed_score
    &&& d.title == (match page.html.title {
        Some(t) => t@,
        None => Seq::<char>::empty(),
    })
    &&& d.url == page.html.url@
    &&& d.body == page.html.text@
    &&& d.description == (match page.html.description {
        Some(t) => Some(t@),
        None => None::<Seq<char>>,
    })
}

fn tokenize_string(s: &String) -> (r: Vec<String>)
    ensures
        r.deep_view() == spec_tokens(s@),
{
    let chars = str_chars(s.as_str());
    tokenize_chars(&chars)
}

fn tokenize_opt(s: &Option<String>) -> (r: Vec<String>)
    ensures
        r.deep_view() == spec_tokens(
            match s {
                Some(t) => t@,
                None => Seq::<char>::empty(),
            },
        ),
{
    match s {
        Some(t) => tokenize_string(t),
        None => {
            let r: Vec<String> = Vec::new();
            proof {
                assert(r.deep_view() =~= spec_tokens(Seq::<char>::empty()));
            }
            r
        },
    }
}

fn backlink_tokens(links: &Vec<Link>) -> (r: Vec<String>)
    ensures
        r.deep_view() == spec_backlink_tokens(links@),
{
    let mut r: Vec<String> = Vec::new();
    proof {
        assert(r.deep_view() =~= spec_backlink_tokens(links@.take(0)));
    }
    let mut i: usize = 0;
    while i < links.len()
        invariant
            i <= links@.len(),
            r.deep_view() == spec_backlink_tokens(links@.take(i as int)),
        decreases links@.len() - i,
    {
        let ghost pre = links@.take(i as int);
        let mut toks = tokenize_string(&links[i].text);
        let ghost toks_view = toks.deep_view();
        let ghost r_view = r.deep_view();
        r.append(&mut toks);
        i = i + 1;
        proof {
            let cur = links@.take(i as int);
            assert(cur.drop_last() =~= pre);
            assert(cur.last() == links@[i - 1]);
            assert(r.deep_view() =~~= r_view + toks_view);
            assert(r.deep_view() =~~= spec_backlink_tokens(cur));
        }
    }
    proof {
        assert(links@.take(links@.len() as int) =~= links@);
    }
    r
}

impl Document {
    /// Builds the indexed document of one ingested page.
    pub fn from_webpage(page: &Webpage) -> (d: Document)
        ensures
            doc_of_webpage(d@, *page),
    {
        let last_updated = match &page.html.updated_time_raw {
            Some(s) => match parse_rfc3339(s.as_str()) {
                Some(t) => Some(
                    if t < 0 {
                        0u64
                    } else {
                        t as u64
                    },
                ),
                None => None,
            },
            None => None,
        };
        Document {
            title_tokens: tokenize_opt(&page.html.title),
            body_tokens: tokenize_string(&page.html.text),
            url_tokens: tokenize_string(&page.html.url),
            site_tokens: tokenize_string(&page.html.site),
            domain_tokens: tokenize_string(&page.html.domain),
            description_tokens: tokenize_opt(&page.html.description),
            backlink_tokens: backlink_tokens(&page.backlinks),
            site: page.html.site.clone(),
            domain: page.html.domain.clone(),
            is_homepage: page.html.is_homepage,
            host_centrality: page.host_centrality,
            page_centrality: page.page_centrality,
            fetch_time_ms: page.fetch_time_ms,
            last_updated,
            num_trackers: page.html.num_trackers,
            region_id: 0,
            pre_computed_score: page.pre_computed_score,
            title: match &page.html.title {
                Some(t) => t.clone(),
                None => String::new(),
            },
            url: page.html.url.clone(),
            body: page.html.text.clone(),
            description: match &page.html.description {
                Some(t) => Some(t.clone()),
                None => None,
            },
        }
    }
}

// ---------------------------------------------------------------------------
// Matching
// ---------------------------------------------------------------------------

/// `w` occurs among `tokens`.
pub open spec fn has_token(tokens: Seq<Seq<char>>, w: Seq<char>) -> bool {
    tokens.contains(w)
}

/// `ws` occurs as a consecutive run within `tokens`.
pub open spec fn has_phrase(tokens: Seq<Seq<char>>, ws: Seq<Seq<char>>) -> bool {
    exists|k: int|
        0 <= k && k + ws.len() <= tokens.len() && #[trigger] tokens.subrange(k, k + ws.len())
            == ws
}

/// What one matcher asks of a document. A bare token may match in any
/// searchable text field; a phrase must stand in the title; `site:` compares
/// the whole host and domain; `intitle:`/`inurl:` look at one field.
pub open spec fn matcher_matches(d: SpecDocument, m: SpecMatcher) -> bool {
    match m {
        SpecMatcher::Token(w) => has_token(d.title_tokens, w) || has_token(d.body_tokens, w)
            || has_token(d.url_tokens, w) || has_token(d.site_tokens, w) || has_token(
            d.domain_tokens,
            w,
        ) || has_token(d.description_tokens, w),
        SpecMatcher::Phrase(ws) => has_phrase(d.title_tokens, ws),
        SpecMatcher::Site(h) => d.site == h || d.domain == h,
        SpecMatcher::InTitle(ws) => forall|i: int|
            0 <= i < ws.len() ==> has_token(d.title_tokens, #[trigger] ws[i]),
        SpecMatcher::InUrl(ws) => forall|i: int|
            0 <= i < ws.len() ==> has_token(d.url_tokens, #[trigger] ws[i]),
    }
}

pub open spec fn clause_sat(d: SpecDocument, c: SpecClause) -> bool {
    match c.occur {
        Occur::Must => matcher_matches(d, c.matcher),
        Occur::MustNot => !matcher_matches(d, c.matcher),
    }
}

pub open spec fn has_must(expr: Seq<SpecClause>) -> bool {
    exists|i: int| 0 <= i < expr.len() && (#[trigger] expr[i]).occur is Must
}

/// A document matches the expression when some clause demands a match and
/// every clause is satisfied; an expression with no positive clause selects
/// nothing.
pub open spec fn doc_matches(d: SpecDocument, expr: Seq<SpecClause>) -> bool {
    has_must(expr) && forall|i: int| 0 <= i < expr.len() ==> clause_sat(d, #[trigger] expr[i])
}

pub fn token_in(tokens: &Vec<String>, w: &String) -> (r: bool)
    ensures
        r == has_token(tokens.deep_view(), w@),
{
    let mut i: usize = 0;
    while i < tokens.len()
        invariant
            i <= tokens@.len(),
            forall|j: int| 0 <= j < i ==> tokens.deep_view()[j] != w@,
        decreases tokens@.len() - i,
    {
        if tokens[i].eq(w) {
            proof {
                assert(tokens.deep_view()[i as int] == w@);
            }
            return true;
        }
        proof {
            assert(tokens.deep_view()[i as int] == tokens@[i as int]@);
        }
        i = i + 1;
    }
    proof {
        assert(forall|j: int| 0 <= j < tokens.deep_view().len() ==> tokens.deep_view()[j] != w@);
    }
    false
}

fn phrase_in(tokens: &Vec<String>, ws: &Vec<String>) -> (r: bool)
    ensures
        r == has_phrase(tokens.deep_view(), ws.deep_view()),
{
    if ws.len() > tokens.len() {
        proof {
            assert(!has_phrase(tokens.deep_view(), ws.deep_view()));
        }
        return false;
    }
    let last_start = tokens.len() - ws.len();
    let mut k: usize = 0;
    while k <= last_start
        invariant
            k <= last_start + 1,
            last_start == tokens@.len() - ws@.len(),
            forall|k2: int|
                0 <= k2 < k ==> #[trigger] tokens.deep_view().subrange(
                    k2,
                    k2 + ws.deep_view().len(),
                ) != ws.deep_view(),
        decreases last_start + 1 - k,
    {
        let mut m: usize = 0;
        let mut all = true;
        while m < ws.len()
            invariant
                k + ws@.len() <= tokens@.len(),
                m <= ws@.len(),
                all == (forall|j: int|
                    0 <= j < m ==> tokens.deep_view()[k + j] == ws.deep_view()[j]),
            decreases ws@.len() - m,
        {
            proof {
                assert(tokens.len() == tokens@.len());
            }
            if !tokens[k + m].eq(&ws[m]) {
                all = false;
                proof {
                    assert(tokens.deep_view()[k + m] == tokens@[k + m]@);
                    assert(ws.deep_view()[m as int] == ws@[m as int]@);
                }
            } else {
                proof {
                    assert(tokens.deep_view()[k + m] == tokens@[k + m]@);
                    assert(ws.deep_view()[m as int] == ws@[m as int]@);
                }
            }
            m = m + 1;
        }
        if all {
            proof {
                assert(tokens.deep_view().subrange(k as int, k + ws.deep_view().len())
                    =~= ws.deep_view());
            }
            return true;
        }
        proof {
            let sub = tokens.deep_view().subrange(k as int, k + ws.deep_view().len());
            let j = choose|j: int|
                0 <= j < ws.deep_view().len() && tokens.deep_view()[k + j] != ws.deep_view()[j];
            assert(sub[j] != ws.deep_view()[j]);
            assert(ws@.len() > 0);
            assert(tokens.len() == tokens@.len());
        }
        k = k + 1;
    }
    proof {
        assert forall|k2: int| 0 <= k2 && k2 + ws.deep_view().len() <= tokens.deep_view().len()
            implies #[trigger] tokens.deep_view().subrange(k2, k2 + ws.deep_view().len())
            != ws.deep_view() by {}
        assert(!has_phrase(tokens.deep_view(), ws.deep_view()));
    }
    false
}

fn matcher_eval(d: &Document, m: &Matcher) -> (r: bool)
    ensures
        r == matcher_matches(d@, m@),
{
    match m {
        Matcher::Token(w) => {
            let r1 = token_in(&d.title_tokens, w);
            let r2 = token_in(&d.body_tokens, w);
            let r3 = token_in(&d.url_tokens, w);
            let r4 = token_in(&d.site_tokens, w);
            let r5 = token_in(&d.domain_tokens, w);
            let r6 = token_in(&d.description_tokens, w);
            proof {
                assert(d@.title_tokens == d.title_tokens.deep_view());
                assert(d@.body_tokens == d.body_tokens.deep_view());
                assert(d@.url_tokens == d.url_tokens.deep_view());
                assert(d@.site_tokens == d.site_tokens.deep_view());
                assert(d@.domain_tokens == d.domain_tokens.deep_view());
                assert(d@.description_tokens == d.description_tokens.deep_view());
            }
            let r = r1 || r2 || r3 || r4 || r5 || r6;
            proof {
                assert(r == matcher_matches(d@, m@));
            }
            r
        },
        Matcher::Phrase(ws) => {
            let r = phrase_in(&d.title_tokens, ws);
            proof {
                assert(r == matcher_matches(d@, m@));
            }
            r
        },
        Matcher::Site(h) => {
            let r = d.site.eq(h) || d.domain.eq(h);
            proof {
                assert(r == matcher_matches(d@, m@));
            }
            r
        },
        Matcher::InTitle(ws) => {
            let mut i: usize = 0;
            let mut all = true;
            while i < ws.len()
                invariant
                    i <= ws@.len(),
                    all == (forall|j: int|
                        0 <= j < i ==> has_token(d@.title_tokens, #[trigger] ws.deep_view()[j])),
                decreases ws@.len() - i,
            {
                if !token_in(&d.title_tokens, &ws[i]) {
                    all = false;
                    proof {
                        assert(ws.deep_view()[i as int] == ws@[i as int]@);
                    }
                } else {
                    proof {
                        assert(ws.deep_view()[i as int] == ws@[i as int]@);
                    }
                }
                i = i + 1;
            }
            proof {
                let ghost wsv = ws.deep_view();
                assert(m@->InTitle_0 == wsv);
                if all {
                    assert forall|jj: int| 0 <= jj < wsv.len() implies has_token(
                        d@.title_tokens,
                        #[trigger] wsv[jj],
                    ) by {}
                } else {
                    let jw = choose|j: int|
                        0 <= j < wsv.len() && !has_token(d@.title_tokens, #[trigger] wsv[j]);
                    assert(!matcher_matches(d@, m@));
                }
            }
            all
        },
        Matcher::InUrl(ws) => {
            let mut i: usize = 0;
            let mut all = true;
            while i < ws.len()
                invariant
                    i <= ws@.len(),
                    all == (forall|j: int|
                        0 <= j < i ==> has_token(d@.url_tokens, #[trigger] ws.deep_view()[j])),
                decreases ws@.len() - i,
            {
                if !token_in(&d.url_tokens, &ws[i]) {
                    all = false;
                    proof {
                        assert(ws.deep_view()[i as int] == ws@[i as int]@);
                    }
                } else {
                    proof {
                        assert(ws.deep_view()[i as int] == ws@[i as int]@);
                    }
                }
                i = i + 1;
            }
            proof {
                let ghost wsv = ws.deep_view();
                assert(m@->InUrl_0 == wsv);
                if all {
                    assert forall|jj: int| 0 <= jj < wsv.len() implies has_token(
                        d@.url_tokens,
                        #[trigger] wsv[jj],
                    ) by {}
                } else {
                    let jw = choose|j: int|
                        0 <= j < wsv.len() && !has_token(d@.url_tokens, #[trigger] wsv[j]);
                    assert(!matcher_matches(d@, m@));
                }
            }
            all
        },
    }
}

/// Evaluates the whole retrieval expression against one document.
pub fn matches_expression(d: &Document, expr: &Vec<RetrievalClause>) -> (r: bool)
    ensures
        r == doc_matches(d@, expr_view(expr@)),
{
    let mut any_must = false;
    let mut all_sat = true;
    let mut i: usize = 0;
    while i < expr.len()
        invariant
            i <= expr@.len(),
            any_must == (exists|j: int|
                0 <= j < i && (#[trigger] expr_view(expr@)[j]).occur is Must),
            all_sat == (forall|j: int| 0 <= j < i ==> clause_sat(d@, expr_view(expr@)[j])),
        decreases expr@.len() - i,
    {
        let c = &expr[i];
        let matched = matcher_eval(d, &c.matcher);
        match c.occur {
            Occur::Must => {
                any_must = true;
                if !matched {
                    all_sat = false;
                }
            },
            Occur::MustNot => {
                if matched {
                    all_sat = false;
                }
            },
        }
        proof {
            assert(expr_view(expr@)[i as int] == expr@[i as int]@);
        }
        i = i + 1;
    }
    any_must && all_sat
}

// ---------------------------------------------------------------------------
// The index
// ---------------------------------------------------------------------------

/// One independently scannable shard of the index.
#[derive(Debug, Clone)]
pub struct Segment {
    pub docs: Vec<Document>,
}

/// Why an index operation failed. The in-memory index itself cannot fail;
/// the variant stands for a storage engine that can.
#[derive(Debug, Clone, Copy, PartialEq, Eq, Structural)]
pub enum IndexError {
    Unavailable,
}

/// The in-memory index: pages inserted since the last commit, and the
/// committed segments scans run over.
#[derive(Debug)]
pub struct Index {
    pub pending: Vec<Document>,
    pub segments: Vec<Segment>,
}

impl Index {
    /// Opens a fresh, empty in-memory index.
    pub fn temporary() -> (r: Result<Index, IndexError>)
        ensures
            match r {
                Ok(ix) => ix.pending@.len() == 0 && ix.segments@.len() == 0,
                Err(_) => false,
            },
    {
        Ok(Index { pending: Vec::new(), segments: Vec::new() })
    }

    /// Indexes one page; it becomes searchable at the next commit.
    pub fn insert(&mut self, page: Webpage) -> (r: Result<(), IndexError>)
        ensures
            r is Ok,
            final(self).segments == old(self).segments,
            final(self).pending@.len() == old(self).pending@.len() + 1,
            final(self).pending@.take(old(self).pending@.len() as int) == old(self).pending@,
            doc_of_webpage(final(self).pending@.last()@, page),
    {
        let d = Document::from_webpage(&page);
        let ghost pre = self.pending@;
        self.pending.push(d);
        proof {
            assert(self.pending@.take(pre.len() as int) =~= pre);
        }
        Ok(())
    }

    /// Seals the pending pages into a new segment; with nothing pending the
    /// index is unchanged.
    pub fn commit(&mut self) -> (r: Result<(), IndexError>)
        ensures
            r is Ok,
            final(self).pending@.len() == 0,
            old(self).pending@.len() == 0 ==> final(self).segments == old(self).segments,
            old(self).pending@.len() > 0 ==> {
                &&& final(self).segments@.len() == old(self).segments@.len() + 1
                &&& final(self).segments@.take(old(self).segments@.len() as int) == old(
                    self,
                ).segments@
                &&& final(self).segments@.last().docs == old(self).pending
            },
    {
        if self.pending.len() == 0 {
            return Ok(());
        }
        let mut moved: Vec<Document> = Vec::new();
        core::mem::swap(&mut moved, &mut self.pending);
        let ghost pre = self.segments@;
        self.segments.push(Segment { docs: moved });
        proof {
            assert(self.segments@.take(pre.len() as int) =~= pre);
        }
        Ok(())
    }

    /// How many segments a scan visits.
    pub fn num_segments(&self) -> (r: usize)
        ensures
            r == self.segments@.len(),
    {
        self.segments.len()
    }
}

} // verus!
