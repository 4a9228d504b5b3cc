//! The term lexer: turns raw query text into an ordered sequence of typed
//! query terms. Tokenizes on whitespace, recognizes quoted spans as phrases,
//! a leading `-` as negation, and the field prefixes `site:`, `intitle:` and
//! `inurl:`. Parsing is lenient: malformed prefixes degrade to simple terms
//! and no input is rejected.

use vstd::prelude::*;

use crate::text::{
    fold_seq, fold_word, is_space, space, spec_tokens, str_chars, subvec, chars_to_string,
    tokenize_chars,
};

verus! {

/// A single typed query term.
#[derive(Debug)]
pub enum Term {
    /// A bare word, kept exactly as the user typed it.
    Simple(String),
    /// A quoted span, kept as its token sequence.
    Phrase(Vec<String>),
    /// A negated term: documents matching it are excluded.
    Not(Box<Term>),
    /// `site:` restriction, case folded.
    Site(String),
    /// `intitle:` restriction.
    Title(String),
    /// `inurl:` restriction.
    Url(String),
}

/// The mathematical shape of a term: an unnegated base, plus a negation flag
/// (negations do not nest: `Not` applies to a base term).
pub struct SpecTerm {
    pub neg: bool,
    pub base: SpecBase,
}

pub enum SpecBase {
    Simple(Seq<char>),
    Phrase(Seq<Seq<char>>),
    Site(Seq<char>),
    Title(Seq<char>),
    Url(Seq<char>),
}

impl Term {
    pub open spec fn base_view(self) -> SpecBase
        decreases self,
    {
        match self {
            Term::Simple(s) => SpecBase::Simple(s@),
            Term::Phrase(v) => SpecBase::Phrase(v.deep_view()),
            Term::Not(t) => t.base_view(),
            Term::Site(s) => SpecBase::Site(s@),
            Term::Title(s) => SpecBase::Title(s@),
            Term::Url(s) => SpecBase::Url(s@),
        }
    }
}

impl View for Term {
    type V = SpecTerm;

    open spec fn view(&self) -> SpecTerm {
        match *self {
            Term::Not(t) => SpecTerm { neg: true, base: t.base_view() },
            _ => SpecTerm { neg: false, base: self.base_view() },
        }
    }
}

/// The views of a term sequence.
pub open spec fn terms_view(v: Seq<Term>) -> Seq<SpecTerm> {
    Seq::new(v.len(), |i: int| v[i]@)
}

/// The first index at or after `i` holding whitespace, or the length.
pub open spec fn find_space(s: Seq<char>, i: int) -> int
    decreases s.len() - i,
{
    if i < 0 || i >= s.len() {
        s.len() as int
    } else if is_space(s[i]) {
        i
    } else {
        find_space(s, i + 1)
    }
}

/// The first index at or after `i` holding `"`, or the length.
pub open spec fn find_quote(s: Seq<char>, i: int) -> int
    decreases s.len() - i,
{
    if i < 0 || i >= s.len() {
        s.len() as int
    } else if s[i] == '"' {
        i
    } else {
        find_quote(s, i + 1)
    }
}

pub proof fn lemma_find_space_bounds(s: Seq<char>, i: int)
    requires
        0 <= i <= s.len(),
    ensures
        i <= find_space(s, i) <= s.len(),
    decreases s.len() - i,
{
    if i < s.len() && !is_space(s[i]) {
        lemma_find_space_bounds(s, i + 1);
    }
}

pub proof fn lemma_find_quote_bounds(s: Seq<char>, i: int)
    requires
        0 <= i <= s.len(),
    ensures
        i <= find_quote(s, i) <= s.len(),
    decreases s.len() - i,
{
    if i < s.len() && s[i] != '"' {
        lemma_find_quote_bounds(s, i + 1);
    }
}

/// A scan that saw no whitespace in `[i, j)` and stopped at `j` because the
/// end or a whitespace was reached has found `find_space(s, i)`.
pub proof fn lemma_find_space_at(s: Seq<char>, i: int, j: int)
    requires
        0 <= i <= j <= s.len(),
        forall|k: int| i <= k < j ==> !is_space(s[k]),
        j == s.len() || is_space(s[j]),
    ensures
        find_space(s, i) == j,
    decreases j - i,
{
    if i < j {
        lemma_find_space_at(s, i + 1, j);
    }
}

pub proof fn lemma_find_quote_at(s: Seq<char>, i: int, j: int)
    requires
        0 <= i <= j <= s.len(),
        forall|k: int| i <= k < j ==> s[k] != '"',
        j == s.len() || s[j] == '"',
    ensures
        find_quote(s, i) == j,
    decreases j - i,
{
    if i < j {
        lemma_find_quote_at(s, i + 1, j);
    }
}

pub open spec fn has_site_prefix(w: Seq<char>) -> bool {
    w.len() > 5 && w[0] == 's' && w[1] == 'i' && w[2] == 't' && w[3] == 'e' && w[4] == ':'
}

pub open spec fn has_title_prefix(w: Seq<char>) -> bool {
    w.len() > 8 && w[0] == 'i' && w[1] == 'n' && w[2] == 't' && w[3] == 'i' && w[4] == 't'
        && w[5] == 'l' && w[6] == 'e' && w[7] == ':'
}

pub open spec fn has_url_prefix(w: Seq<char>) -> bool {
    w.len() > 6 && w[0] == 'i' && w[1] == 'n' && w[2] == 'u' && w[3] == 'r' && w[4] == 'l'
        && w[5] == ':'
}

/// Classifies an unnegated word.
pub open spec fn spec_base(w: Seq<char>) -> SpecBase {
    if has_site_prefix(w) {
        SpecBase::Site(fold_seq(w.skip(5)))
    } else if has_title_prefix(w) {
        SpecBase::Title(w.skip(8))
    } else if has_url_prefix(w) {
        SpecBase::Url(w.skip(6))
    } else {
        SpecBase::Simple(w)
    }
}

/// Classifies a whitespace-free word: one leading `-` negates the rest.
pub open spec fn spec_classify(w: Seq<char>) -> SpecTerm {
    if w.len() >= 2 && w[0] == '-' {
        SpecTerm { neg: true, base: spec_base(w.skip(1)) }
    } else {
        SpecTerm { neg: false, base: spec_base(w) }
    }
}

/// The terms of `s` from position `i` on: whitespace is skipped, a quoted
/// span becomes a phrase over its tokens, and every other maximal
/// whitespace-free run is classified as a word.
pub open spec fn spec_lex_from(s: Seq<char>, i: int) -> Seq<SpecTerm>
    decreases s.len() - i,
    via spec_lex_from_decreases
{
    if i < 0 || i >= s.len() {
        Seq::empty()
    } else if is_space(s[i]) {
        spec_lex_from(s, i + 1)
    } else if s[i] == '"' {
        let j = find_quote(s, i + 1);
        let t = SpecTerm { neg: false, base: SpecBase::Phrase(spec_tokens(s.subrange(i + 1, j))) };
        seq![t] + spec_lex_from(s, if j < s.len() { j + 1 } else { j })
    } else {
        let j = find_space(s, i);
        seq![spec_classify(s.subrange(i, j))] + spec_lex_from(s, j)
    }
}

#[via_fn]
proof fn spec_lex_from_decreases(s: Seq<char>, i: int) {
    if 0 <= i < s.len() {
        if s[i] == '"' {
            lemma_find_quote_bounds(s, i + 1);
        } else if !is_space(s[i]) {
            lemma_find_space_bounds(s, i + 1);
        }
    }
}

/// The terms of the raw query text `s`.
pub open spec fn spec_lex(s: Seq<char>) -> Seq<SpecTerm> {
    spec_lex_from(s, 0)
}

fn base_term(w: &Vec<char>) -> (t: Term)
    ensures
        t@ == (SpecTerm { neg: false, base: spec_base(w@) }),
{
    let n = w.len();
    if n > 5 && w[0] == 's' && w[1] == 'i' && w[2] == 't' && w[3] == 'e' && w[4] == ':' {
        let arg = subvec(w, 5, n);
        let folded = fold_word(&arg);
        Term::Site(chars_to_string(&folded))
    } else if n > 8 && w[0] == 'i' && w[1] == 'n' && w[2] == 't' && w[3] == 'i' && w[4] == 't'
        && w[5] == 'l' && w[6] == 'e' && w[7] == ':' {
        let arg = subvec(w, 8, n);
        Term::Title(chars_to_string(&arg))
    } else if n > 6 && w[0] == 'i' && w[1] == 'n' && w[2] == 'u' && w[3] == 'r' && w[4] == 'l'
        && w[5] == ':' {
        let arg = subvec(w, 6, n);
        Term::Url(chars_to_string(&arg))
    } else {
        Term::Simple(chars_to_string(w))
    }
}

fn classify(w: &Vec<char>) -> (t: Term)
    ensures
        t@ == spec_classify(w@),
{
    if w.len() >= 2 && w[0] == '-' {
        let rest = subvec(w, 1, w.len());
        let inner = base_term(&rest);
        Term::Not(Box::new(inner))
    } else {
        base_term(w)
    }
}

/// Lexes the raw query text into its term sequence.
pub fn parse(query: &str) -> (r: Vec<Term>)
    ensures
        terms_view(r@) == spec_lex(query@),
{
    let s = str_chars(query);
    let n = s.len();
    let mut out: Vec<Term> = Vec::new();
    let mut i: usize = 0;
    while i < n
        invariant
            s@ == query@,
            n == s@.len(),
            i <= n,
            spec_lex(s@) == terms_view(out@) + spec_lex_from(s@, i as int),
        decreases n - i,
    {
        let ghost prev = terms_view(out@);
        let c = s[i];
        if space(c) {
            i = i + 1;
        } else if c == '"' {
            let mut j: usize = i + 1;
            while j < n && s[j] != '"'
                invariant
                    i + 1 <= j <= n,
                    n == s@.len(),
                    forall|k: int| i + 1 <= k < j ==> s@[k] != '"',
                decreases n - j,
            {
                j = j + 1;
            }
            proof {
                lemma_find_quote_at(s@, i + 1, j as int);
            }
            let inner = subvec(&s, i + 1, j);
            let words = tokenize_chars(&inner);
            out.push(Term::Phrase(words));
            i = if j < n {
                j + 1
            } else {
                j
            };
            proof {
                assert(terms_view(out@) =~= prev + seq![out@.last()@]);
            }
        } else {
            let mut j: usize = i + 1;
            while j < n && !space(s[j])
                invariant
                    i + 1 <= j <= n,
                    n == s@.len(),
                    forall|k: int| i + 1 <= k < j ==> !is_space(s@[k]),
                decreases n - j,
            {
                j = j + 1;
            }
            proof {
                lemma_find_space_at(s@, i as int, j as int);
            }
            let word = subvec(&s, i, j);
            let t = classify(&word);
            out.push(t);
            i = j;
            proof {
                assert(terms_view(out@) =~= prev + seq![out@.last()@]);
            }
        }
    }
    proof {
        assert(spec_lex(s@) =~= terms_view(out@));
    }
    out
}

/// Structural equality of terms.
pub fn term_eq(a: &Term, b: &Term) -> (r: bool)
    ensures
        r == (a@ == b@),
{
    match (a, b) {
        (Term::Not(x), Term::Not(y)) => base_eq(x, y),
        (Term::Not(_), _) => false,
        (_, Term::Not(_)) => false,
        _ => base_eq(a, b),
    }
}

/// Structural equality of the base of two terms, negations stripped.
fn base_eq(a: &Term, b: &Term) -> (r: bool)
    ensures
        r == (a.base_view() == b.base_view()),
    decreases a, b,
{
    match (a, b) {
        (Term::Simple(x), Term::Simple(y)) => x.eq(y),
        (Term::Site(x), Term::Site(y)) => x.eq(y),
        (Term::Title(x), Term::Title(y)) => x.eq(y),
        (Term::Url(x), Term::Url(y)) => x.eq(y),
        (Term::Phrase(x), Term::Phrase(y)) => {
            proof {
                assert(forall|j: int| 0 <= j < x@.len() ==> x.deep_view()[j] == x@[j]@);
                assert(forall|j: int| 0 <= j < y@.len() ==> y.deep_view()[j] == y@[j]@);
            }
            if x.len() != y.len() {
                proof {
                    assert(x.deep_view().len() != y.deep_view().len());
                }
                false
            } else {
                let mut i: usize = 0;
                let mut eq = true;
                while i < x.len()
                    invariant
                        x@.len() == y@.len(),
                        i <= x@.len(),
                        eq == (forall|j: int| 0 <= j < i ==> x@[j]@ == y@[j]@),
                    decreases x@.len() - i,
                {
                    if !(x[i].eq(&y[i])) {
                        eq = false;
                    }
                    i = i + 1;
                }
                proof {
                    assert(forall|j: int| 0 <= j < x@.len() ==> x.deep_view()[j] == x@[j]@);
                    assert(forall|j: int| 0 <= j < y@.len() ==> y.deep_view()[j] == y@[j]@);
                    if eq {
                        assert(x.deep_view() =~= y.deep_view());
                    } else {
                        let jw = choose|j: int| 0 <= j < x@.len() && x@[j]@ != y@[j]@;
                        assert(x.deep_view()[jw] != y.deep_view()[jw]);
                    }
                }
                eq
            }
        },
        (Term::Not(x), _) => base_eq(x, b),
        (_, Term::Not(y)) => base_eq(a, y),
        _ => false,
    }
}

} // verus!
