//! The ranking-policy compiler. A policy ("optic") is a small line-based
//! program: `@<signal_name> = <number>` sets a signal coefficient, and
//! `like <domain>` / `dislike <domain>` / `block <domain>` classify a host.
//! Lines may be blank or comments starting with `#`. Parsing fails with the
//! first offending line and the token that was expected there. Two policies
//! merge totally: for a host the two classify differently, the later policy's
//! declaration wins; for a coefficient set twice, the later value wins.

use vstd::prelude::*;

use crate::parser::{find_space, lemma_find_space_at};
use crate::text::{chars_to_string, fold_seq, fold_word, is_space, space, str_chars, subvec};

verus! {

/// Largest coefficient a policy can set, in millionths: a written value of
/// `100000000` (one hundred million) or more is clamped here.
pub const COEFF_MAX_MICRO: u64 = 100_000_000_000_000;

const WHOLE_CAP: u64 = 100_000_000;

/// How a policy classifies a host.
#[derive(Debug, Clone, Copy, PartialEq, Eq, Structural)]
pub enum Ranking {
    Liked,
    Disliked,
    Blocked,
}

/// The token a malformed policy line was missing.
#[derive(Debug, Clone, Copy, PartialEq, Eq, Structural)]
pub enum ExpectedToken {
    /// A `@coefficient` or host directive at the start of the line.
    Directive,
    /// A signal name after `@`.
    Name,
    /// `=` after the signal name.
    Equals,
    /// A number after `=`.
    Number,
    /// A domain after a host directive.
    Domain,
    /// The end of the line.
    End,
}

/// Why a policy program was rejected: the 1-based line and what was expected.
#[derive(Debug, Clone, Copy, PartialEq, Eq, Structural)]
pub struct PolicyParseError {
    pub line: usize,
    pub expected: ExpectedToken,
}

/// One coefficient declaration, value in millionths.
#[derive(Debug, Clone)]
pub struct RankingCoeff {
    pub target: String,
    pub value: u64,
}

/// Host preferences: each host stands in at most one of the three lists.
#[derive(Debug, Clone)]
pub struct SiteRankings {
    pub liked: Vec<String>,
    pub disliked: Vec<String>,
    pub blocked: Vec<String>,
}

/// A compiled ranking policy.
#[derive(Debug, Clone)]
pub struct Optic {
    pub rankings: Vec<RankingCoeff>,
    pub site_rankings: SiteRankings,
}

pub struct SpecSiteRankings {
    pub liked: Seq<Seq<char>>,
    pub disliked: Seq<Seq<char>>,
    pub blocked: Seq<Seq<char>>,
}

pub struct SpecOptic {
    pub rankings: Seq<(Seq<char>, u64)>,
    pub site_rankings: SpecSiteRankings,
}

impl View for SiteRankings {
    type V = SpecSiteRankings;

    open spec fn view(&self) -> SpecSiteRankings {
        SpecSiteRankings {
            liked: self.liked.deep_view(),
            disliked: self.disliked.deep_view(),
            blocked: self.blocked.deep_view(),
        }
    }
}

impl View for Optic {
    type V = SpecOptic;

    open spec fn view(&self) -> SpecOptic {
        SpecOptic {
            rankings: Seq::new(
                self.rankings@.len(),
                |i: int| (self.rankings@[i].target@, self.rankings@[i].value),
            ),
            site_rankings: self.site_rankings@,
        }
    }
}

pub open spec fn empty_site_rankings() -> SpecSiteRankings {
    SpecSiteRankings { liked: Seq::empty(), disliked: Seq::empty(), blocked: Seq::empty() }
}

pub open spec fn empty_optic() -> SpecOptic {
    SpecOptic { rankings: Seq::empty(), site_rankings: empty_site_rankings() }
}

// ---------------------------------------------------------------------------
// Line splitting
// ---------------------------------------------------------------------------

pub open spec fn line_fold(s: Seq<char>) -> (Seq<Seq<char>>, Seq<char>)
    decreases s.len(),
{
    if s.len() == 0 {
        (Seq::empty(), Seq::empty())
    } else {
        let prev = line_fold(s.drop_last());
        if s.last() == '\n' {
            (prev.0.push(prev.1), Seq::empty())
        } else {
            (prev.0, prev.1.push(s.last()))
        }
    }
}

/// The lines of `s`, split on `'\n'`; a program always has at least one line.
pub open spec fn spec_lines(s: Seq<char>) -> Seq<Seq<char>> {
    line_fold(s).0.push(line_fold(s).1)
}

fn split_lines(s: &Vec<char>) -> (r: Vec<Vec<char>>)
    ensures
        r.deep_view() == spec_lines(s@),
{
    let mut acc: Vec<Vec<char>> = Vec::new();
    let mut cur: Vec<char> = Vec::new();
    let mut i: usize = 0;
    while i < s.len()
        invariant
            i <= s@.len(),
            (acc.deep_view(), cur@) == line_fold(s@.take(i as int)),
        decreases s@.len() - i,
    {
        let ghost pre = s@.take(i as int);
        let c = s[i];
        if c == '\n' {
            acc.push(cur);
            cur = Vec::new();
        } else {
            cur.push(c);
        }
        i = i + 1;
        proof {
            assert(s@.take(i as int).drop_last() =~= pre);
            assert(acc.deep_view() =~~= line_fold(s@.take(i as int)).0);
        }
    }
    proof {
        assert(s@.take(s@.len() as int) =~= s@);
    }
    acc.push(cur);
    proof {
        assert(acc.deep_view() =~~= spec_lines(s@));
    }
    acc
}

// ---------------------------------------------------------------------------
// Character classes and scans
// ---------------------------------------------------------------------------

pub open spec fn is_digit(c: char) -> bool {
    '0' <= c && c <= '9'
}

pub open spec fn is_name_char(c: char) -> bool {
    ('a' <= c && c <= 'z') || ('A' <= c && c <= 'Z') || ('0' <= c && c <= '9') || c == '_'
}

/// The first index at or after `i` holding a non-space, or the length.
pub open spec fn skip_sp(s: Seq<char>, i: int) -> int
    decreases s.len() - i,
{
    if i < 0 || i >= s.len() {
        s.len() as int
    } else if is_space(s[i]) {
        skip_sp(s, i + 1)
    } else {
        i
    }
}

/// The first index at or after `i` whose character is no name character.
pub open spec fn end_name(s: Seq<char>, i: int) -> int
    decreases s.len() - i,
{
    if i < 0 || i >= s.len() {
        s.len() as int
    } else if is_name_char(s[i]) {
        end_name(s, i + 1)
    } else {
        i
    }
}

/// The first index at or after `i` whose character is no digit.
pub open spec fn end_digits(s: Seq<char>, i: int) -> int
    decreases s.len() - i,
{
    if i < 0 || i >= s.len() {
        s.len() as int
    } else if is_digit(s[i]) {
        end_digits(s, i + 1)
    } else {
        i
    }
}

proof fn lemma_skip_sp_at(s: Seq<char>, i: int, j: int)
    requires
        0 <= i <= j <= s.len(),
        forall|k: int| i <= k < j ==> is_space(s[k]),
        j == s.len() || !is_space(s[j]),
    ensures
        skip_sp(s, i) == j,
    decreases j - i,
{
    if i < j {
        lemma_skip_sp_at(s, i + 1, j);
    }
}

proof fn lemma_end_name_at(s: Seq<char>, i: int, j: int)
    requires
        0 <= i <= j <= s.len(),
        forall|k: int| i <= k < j ==> is_name_char(s[k]),
        j == s.len() || !is_name_char(s[j]),
    ensures
        end_name(s, i) == j,
    decreases j - i,
{
    if i < j {
        lemma_end_name_at(s, i + 1, j);
    }
}

proof fn lemma_end_digits_at(s: Seq<char>, i: int, j: int)
    requires
        0 <= i <= j <= s.len(),
        forall|k: int| i <= k < j ==> is_digit(s[k]),
        j == s.len() || !is_digit(s[j]),
    ensures
        end_digits(s, i) == j,
    decreases j - i,
{
    if i < j {
        lemma_end_digits_at(s, i + 1, j);
    }
}

fn scan_sp(s: &Vec<char>, from: usize) -> (r: usize)
    requires
        from <= s@.len(),
    ensures
        r == skip_sp(s@, from as int),
        from <= r <= s@.len(),
{
    let mut j = from;
    while j < s.len() && space(s[j])
        invariant
            from <= j <= s@.len(),
            forall|k: int| from <= k < j ==> is_space(s@[k]),
        decreases s@.len() - j,
    {
        j = j + 1;
    }
    proof {
        lemma_skip_sp_at(s@, from as int, j as int);
    }
    j
}

fn scan_name(s: &Vec<char>, from: usize) -> (r: usize)
    requires
        from <= s@.len(),
    ensures
        r == end_name(s@, from as int),
        from <= r <= s@.len(),
{
    let mut j = from;
    while j < s.len() && (('a' <= s[j] && s[j] <= 'z') || ('A' <= s[j] && s[j] <= 'Z') || ('0'
        <= s[j] && s[j] <= '9') || s[j] == '_')
        invariant
            from <= j <= s@.len(),
            forall|k: int| from <= k < j ==> is_name_char(s@[k]),
        decreases s@.len() - j,
    {
        j = j + 1;
    }
    proof {
        lemma_end_name_at(s@, from as int, j as int);
    }
    j
}

fn scan_digits(s: &Vec<char>, from: usize) -> (r: usize)
    requires
        from <= s@.len(),
    ensures
        r == end_digits(s@, from as int),
        from <= r <= s@.len(),
{
    let mut j = from;
    while j < s.len() && '0' <= s[j] && s[j] <= '9'
        invariant
            from <= j <= s@.len(),
            forall|k: int| from <= k < j ==> is_digit(s@[k]),
        decreases s@.len() - j,
    {
        j = j + 1;
    }
    proof {
        lemma_end_digits_at(s@, from as int, j as int);
    }
    j
}

fn scan_word(s: &Vec<char>, from: usize) -> (r: usize)
    requires
        from <= s@.len(),
    ensures
        r == find_space(s@, from as int),
        from <= r <= s@.len(),
{
    let mut j = from;
    while j < s.len() && !space(s[j])
        invariant
            from <= j <= s@.len(),
            forall|k: int| from <= k < j ==> !is_space(s@[k]),
        decreases s@.len() - j,
    {
        j = j + 1;
    }
    proof {
        if j < s.len() {
            assert(is_space(s@[j as int]));
        }
        assert forall|k: int| from <= k < j implies !is_space(s@[k]) by {}
        lemma_find_space_at(s@, from as int, j as int);
    }
    j
}

// ---------------------------------------------------------------------------
// Numbers
// ---------------------------------------------------------------------------

/// The value of a digit string.
pub open spec fn digits_value(s: Seq<char>) -> int
    decreases s.len(),
{
    if s.len() == 0 {
        0
    } else {
        digits_value(s.drop_last()) * 10 + (s.last() as int - 48)
    }
}

pub open spec fn pow10(k: int) -> int
    decreases k,
{
    if k <= 0 {
        1
    } else {
        10 * pow10(k - 1)
    }
}

/// The coefficient written as `whole.frac`, in millionths, clamped.
pub open spec fn micro_value(whole: Seq<char>, frac: Seq<char>) -> u64 {
    let raw = digits_value(whole) * 1_000_000 + digits_value(frac) * pow10(6 - frac.len());
    if raw >= COEFF_MAX_MICRO {
        COEFF_MAX_MICRO
    } else {
        raw as u64
    }
}

/// Reads the digit run `s[from..to]`, clamped to `WHOLE_CAP`.
fn read_whole(s: &Vec<char>, from: usize, to: usize) -> (r: u64)
    requires
        from <= to <= s@.len(),
        forall|k: int| from <= k < to ==> is_digit(s@[k]),
    ensures
        r == if digits_value(s@.subrange(from as int, to as int)) >= WHOLE_CAP {
            WHOLE_CAP as int
        } else {
            digits_value(s@.subrange(from as int, to as int))
        },
        r <= WHOLE_CAP,
{
    let mut val: u64 = 0;
    let mut i = from;
    while i < to
        invariant
            from <= i <= to <= s@.len(),
            forall|k: int| from <= k < to ==> is_digit(s@[k]),
            val == if digits_value(s@.subrange(from as int, i as int)) >= WHOLE_CAP {
                WHOLE_CAP as int
            } else {
                digits_value(s@.subrange(from as int, i as int))
            },
            val <= WHOLE_CAP,
        decreases to - i,
    {
        let ghost pre = s@.subrange(from as int, i as int);
        let c = s[i];
        let d: u64 = (c as u32 as u64) - 48;
        let next = val * 10 + d;
        if next >= WHOLE_CAP {
            val = WHOLE_CAP;
        } else {
            val = next;
        }
        i = i + 1;
        proof {
            let cur = s@.subrange(from as int, i as int);
            assert(cur.drop_last() =~= pre);
            assert(cur.last() == s@[i - 1]);
            assert(digits_value(cur) == digits_value(pre) * 10 + (s@[i - 1] as int - 48));
        }
    }
    val
}

fn pow10_u64(k: u64) -> (r: u64)
    requires
        k <= 6,
    ensures
        r == pow10(k as int),
{
    proof {
        lemma_pow10_vals();
    }
    if k == 0 {
        1
    } else if k == 1 {
        10
    } else if k == 2 {
        100
    } else if k == 3 {
        1000
    } else if k == 4 {
        10000
    } else if k == 5 {
        100000
    } else {
        proof {
            lemma_pow10_vals();
        }
        1000000
    }
}

proof fn lemma_pow10_vals()
    ensures
        pow10(0) == 1,
        pow10(1) == 10,
        pow10(2) == 100,
        pow10(3) == 1000,
        pow10(4) == 10000,
        pow10(5) == 100000,
        pow10(6) == 1_000_000,
{
    assert(pow10(0) == 1);
    assert(pow10(1) == 10);
    assert(pow10(2) == 100);
    assert(pow10(3) == 1000);
    assert(pow10(4) == 10000);
    assert(pow10(5) == 100000);
    assert(pow10(6) == 1_000_000);
}

/// A digit run of at most 6 digits has a value below one million.
proof fn lemma_digits_bound(s: Seq<char>, k: int)
    requires
        s.len() <= k,
        forall|i: int| 0 <= i < s.len() ==> is_digit(s[i]),
    ensures
        0 <= digits_value(s) < pow10(k),
    decreases s.len(),
{
    if s.len() == 0 {
        assert(pow10(k) >= 1) by {
            lemma_pow10_pos(k);
        }
    } else {
        lemma_digits_bound(s.drop_last(), k - 1);
        assert(pow10(k) == 10 * pow10(k - 1));
    }
}

proof fn lemma_pow10_pos(k: int)
    ensures
        pow10(k) >= 1,
    decreases k,
{
    if k > 0 {
        lemma_pow10_pos(k - 1);
    }
}

proof fn lemma_pow10_le(k: int)
    requires
        0 <= k <= 6,
    ensures
        1 <= pow10(k) <= 1_000_000,
{
    lemma_pow10_vals();
    if k == 0 {
    } else if k == 1 {
    } else if k == 2 {
    } else if k == 3 {
    } else if k == 4 {
    } else if k == 5 {
    } else {
        assert(k == 6);
    }
}

// ---------------------------------------------------------------------------
// Lines
// ---------------------------------------------------------------------------

pub enum SpecLine {
    Blank,
    Coeff(Seq<char>, u64),
    Host(Ranking, Seq<char>),
    Bad(ExpectedToken),
}

pub open spec fn is_like_word(w: Seq<char>) -> bool {
    w.len() == 4 && w[0] == 'l' && w[1] == 'i' && w[2] == 'k' && w[3] == 'e'
}

pub open spec fn is_dislike_word(w: Seq<char>) -> bool {
    w.len() == 7 && w[0] == 'd' && w[1] == 'i' && w[2] == 's' && w[3] == 'l' && w[4] == 'i'
        && w[5] == 'k' && w[6] == 'e'
}

pub open spec fn is_block_word(w: Seq<char>) -> bool {
    w.len() == 5 && w[0] == 'b' && w[1] == 'l' && w[2] == 'o' && w[3] == 'c' && w[4] == 'k'
}

/// What one policy line means.
pub open spec fn spec_line_parse(s: Seq<char>) -> SpecLine {
    let i = skip_sp(s, 0);
    if i >= s.len() {
        SpecLine::Blank
    } else if s[i] == '#' {
        SpecLine::Blank
    } else if s[i] == '@' {
        let ns = i + 1;
        let ne = end_name(s, ns);
        if ne == ns {
            SpecLine::Bad(ExpectedToken::Name)
        } else {
            let name = s.subrange(ns, ne);
            let k = skip_sp(s, ne);
            if k >= s.len() || s[k] != '=' {
                SpecLine::Bad(ExpectedToken::Equals)
            } else {
                let m = skip_sp(s, k + 1);
                let de = end_digits(s, m);
                if de == m {
                    SpecLine::Bad(ExpectedToken::Number)
                } else {
                    let whole = s.subrange(m, de);
                    if de < s.len() && s[de] == '.' {
                        let fe = end_digits(s, de + 1);
                        if fe == de + 1 || fe - (de + 1) > 6 {
                            SpecLine::Bad(ExpectedToken::Number)
                        } else if skip_sp(s, fe) != s.len() {
                            SpecLine::Bad(ExpectedToken::End)
                        } else {
                            SpecLine::Coeff(name, micro_value(whole, s.subrange(de + 1, fe)))
                        }
                    } else if skip_sp(s, de) != s.len() {
                        SpecLine::Bad(ExpectedToken::End)
                    } else {
                        SpecLine::Coeff(name, micro_value(whole, Seq::empty()))
                    }
                }
            }
        }
    } else {
        let we = find_space(s, i);
        let w = s.subrange(i, we);
        if !(is_like_word(w) || is_dislike_word(w) || is_block_word(w)) {
            SpecLine::Bad(ExpectedToken::Directive)
        } else {
            let cat = if is_like_word(w) {
                Ranking::Liked
            } else if is_dislike_word(w) {
                Ranking::Disliked
            } else {
                Ranking::Blocked
            };
            let ds = skip_sp(s, we);
            if ds >= s.len() {
                SpecLine::Bad(ExpectedToken::Domain)
            } else {
                let de = find_space(s, ds);
                if skip_sp(s, de) != s.len() {
                    SpecLine::Bad(ExpectedToken::End)
                } else {
                    SpecLine::Host(cat, fold_seq(s.subrange(ds, de)))
                }
            }
        }
    }
}

pub enum LineParsed {
    Blank,
    Coeff(String, u64),
    Host(Ranking, String),
    Bad(ExpectedToken),
}

impl View for LineParsed {
    type V = SpecLine;

    open spec fn view(&self) -> SpecLine {
        match *self {
            LineParsed::Blank => SpecLine::Blank,
            LineParsed::Coeff(n, v) => SpecLine::Coeff(n@, v),
            LineParsed::Host(c, d) => SpecLine::Host(c, d@),
            LineParsed::Bad(e) => SpecLine::Bad(e),
        }
    }
}

fn parse_line(s: &Vec<char>) -> (r: LineParsed)
    ensures
        r@ == spec_line_parse(s@),
{
    let n = s.len();
    let i = scan_sp(s, 0);
    if i >= n {
        return LineParsed::Blank;
    }
    if s[i] == '#' {
        return LineParsed::Blank;
    }
    if s[i] == '@' {
        let ns = i + 1;
        let ne = scan_name(s, ns);
        if ne == ns {
            return LineParsed::Bad(ExpectedToken::Name);
        }
        let name_chars = subvec(s, ns, ne);
        let name = chars_to_string(&name_chars);
        let k = scan_sp(s, ne);
        if k >= n || s[k] != '=' {
            return LineParsed::Bad(ExpectedToken::Equals);
        }
        let m = scan_sp(s, k + 1);
        let de = scan_digits(s, m);
        if de == m {
            return LineParsed::Bad(ExpectedToken::Number);
        }
        proof {
            lemma_digit_run(s@, m as int, de as int);
        }
        let whole = read_whole(s, m, de);
        if de < n && s[de] == '.' {
            let fe = scan_digits(s, de + 1);
            if fe == de + 1 || fe - (de + 1) > 6 {
                return LineParsed::Bad(ExpectedToken::Number);
            }
            if scan_sp(s, fe) != n {
                return LineParsed::Bad(ExpectedToken::End);
            }
            proof {
                lemma_digit_run(s@, de + 1 as int, fe as int);
            }
            let frac = read_whole(s, de + 1, fe);
            let scale = pow10_u64(6 - ((fe - (de + 1)) as u64));
            let ghost fs = s@.subrange(de + 1 as int, fe as int);
            let ghost flen = fe - (de + 1);
            proof {
                lemma_digits_bound(fs, flen as int);
                lemma_pow10_mul(flen as int);
                lemma_pow10_le(flen as int);
                lemma_pow10_le(6 - flen);
                assert(digits_value(fs) * pow10(6 - flen) < 1_000_000) by (nonlinear_arith)
                    requires
                        0 <= digits_value(fs) < pow10(flen as int),
                        pow10(flen as int) * pow10(6 - flen) == 1_000_000,
                        pow10(6 - flen) >= 1,
                {}
                assert(digits_value(fs) < WHOLE_CAP);
                assert(frac == digits_value(fs));
                assert(scale == pow10(6 - flen));
                assert((frac * scale) as int == digits_value(fs) * pow10(6 - flen));
            }
            let value = clamp_micro(whole, frac * scale);
            proof {
                let ghost ws = s@.subrange(m as int, de as int);
                lemma_digits_bound(ws, ws.len() as int);
                if whole == WHOLE_CAP {
                    assert(digits_value(ws) >= WHOLE_CAP);
                    assert(digits_value(ws) * 1_000_000 >= 100_000_000_000_000);
                    assert(value == micro_value(ws, fs));
                } else {
                    assert(value == micro_value(ws, fs));
                }
            }
            return LineParsed::Coeff(name, value);
        }
        if scan_sp(s, de) != n {
            return LineParsed::Bad(ExpectedToken::End);
        }
        let value = clamp_micro(whole, 0);
        proof {
            assert(digits_value(Seq::<char>::empty()) == 0);
            let ghost ws = s@.subrange(m as int, de as int);
            lemma_digits_bound(ws, ws.len() as int);
            if whole == WHOLE_CAP {
                assert(digits_value(ws) >= WHOLE_CAP);
                assert(digits_value(ws) * 1_000_000 >= 100_000_000_000_000);
                assert(value == micro_value(ws, Seq::<char>::empty()));
            } else {
                assert(value == micro_value(ws, Seq::<char>::empty()));
            }
        }
        return LineParsed::Coeff(name, value);
    }
    let we = scan_word(s, i);
    let w = subvec(s, i, we);
    let cat_opt: Option<Ranking> = if w.len() == 4 && w[0] == 'l' && w[1] == 'i' && w[2] == 'k'
        && w[3] == 'e' {
        Some(Ranking::Liked)
    } else if w.len() == 7 && w[0] == 'd' && w[1] == 'i' && w[2] == 's' && w[3] == 'l'
        && w[4] == 'i' && w[5] == 'k' && w[6] == 'e' {
        Some(Ranking::Disliked)
    } else if w.len() == 5 && w[0] == 'b' && w[1] == 'l' && w[2] == 'o' && w[3] == 'c'
        && w[4] == 'k' {
        Some(Ranking::Blocked)
    } else {
        None
    };
    match cat_opt {
        None => LineParsed::Bad(ExpectedToken::Directive),
        Some(cat) => {
            let ds = scan_sp(s, we);
            if ds >= n {
                return LineParsed::Bad(ExpectedToken::Domain);
            }
            let de = scan_word(s, ds);
            if scan_sp(s, de) != n {
                return LineParsed::Bad(ExpectedToken::End);
            }
            let dom_chars = subvec(s, ds, de);
            let folded = fold_word(&dom_chars);
            LineParsed::Host(cat, chars_to_string(&folded))
        },
    }
}

/// Every character scanned by `end_digits` is a digit.
proof fn lemma_digit_run(s: Seq<char>, from: int, to: int)
    requires
        0 <= from <= s.len(),
        to == end_digits(s, from),
    ensures
        to <= s.len(),
        forall|k: int| from <= k < to ==> is_digit(s[k]),
    decreases s.len() - from,
{
    if from < s.len() && is_digit(s[from]) {
        lemma_digit_run(s, from + 1, to);
    }
}

proof fn lemma_pow10_mul(k: int)
    requires
        0 <= k <= 6,
    ensures
        pow10(k) * pow10(6 - k) == 1_000_000,
{
    lemma_pow10_vals();
}

/// Combines a clamped whole part with a sub-million fraction part.
fn clamp_micro(whole: u64, frac_scaled: u64) -> (r: u64)
    requires
        whole <= WHOLE_CAP,
        frac_scaled < 1_000_000,
    ensures
        whole < WHOLE_CAP ==> r == (if whole * 1_000_000 + frac_scaled >= COEFF_MAX_MICRO {
            COEFF_MAX_MICRO as int
        } else {
            whole * 1_000_000 + frac_scaled
        }),
        whole == WHOLE_CAP ==> r == COEFF_MAX_MICRO,
        r <= COEFF_MAX_MICRO,
{
    let raw = whole * 1_000_000 + frac_scaled;
    if raw >= COEFF_MAX_MICRO {
        COEFF_MAX_MICRO
    } else {
        raw
    }
}

// ---------------------------------------------------------------------------
// Compiling a program
// ---------------------------------------------------------------------------

/// Removes every occurrence of `h` from `s`.
pub open spec fn spec_remove(s: Seq<Seq<char>>, h: Seq<char>) -> Seq<Seq<char>>
    decreases s.len(),
{
    if s.len() == 0 {
        Seq::empty()
    } else {
        spec_remove(s.drop_last(), h) + (if s.last() == h {
            Seq::empty()
        } else {
            seq![s.last()]
        })
    }
}

/// Classifies `h` as `cat`, withdrawing any earlier classification:
/// the newest declaration for a host wins.
pub open spec fn spec_classify_host(
    sr: SpecSiteRankings,
    cat: Ranking,
    h: Seq<char>,
) -> SpecSiteRankings {
    let cleared = SpecSiteRankings {
        liked: spec_remove(sr.liked, h),
        disliked: spec_remove(sr.disliked, h),
        blocked: spec_remove(sr.blocked, h),
    };
    match cat {
        Ranking::Liked => SpecSiteRankings { liked: cleared.liked.push(h), ..cleared },
        Ranking::Disliked => SpecSiteRankings { disliked: cleared.disliked.push(h), ..cleared },
        Ranking::Blocked => SpecSiteRankings { blocked: cleared.blocked.push(h), ..cleared },
    }
}

pub open spec fn spec_apply_line(o: SpecOptic, l: SpecLine) -> SpecOptic {
    match l {
        SpecLine::Blank => o,
        SpecLine::Bad(_) => o,
        SpecLine::Coeff(name, value) => SpecOptic {
            rankings: o.rankings.push((name, value)),
            ..o
        },
        SpecLine::Host(cat, h) => SpecOptic {
            site_rankings: spec_classify_host(o.site_rankings, cat, h),
            ..o
        },
    }
}

/// The policy compiled from well-formed lines, applied in order.
pub open spec fn spec_compile(lines: Seq<Seq<char>>) -> SpecOptic
    decreases lines.len(),
{
    if lines.len() == 0 {
        empty_optic()
    } else {
        spec_apply_line(spec_compile(lines.drop_last()), spec_line_parse(lines.last()))
    }
}

/// The first malformed line of the program, 0-based, with what was expected.
pub open spec fn first_bad(lines: Seq<Seq<char>>, i: int) -> Option<(int, ExpectedToken)>
    decreases lines.len() - i,
{
    if i < 0 || i >= lines.len() {
        None
    } else if spec_line_parse(lines[i]) is Bad {
        Some((i, spec_line_parse(lines[i])->Bad_0))
    } else {
        first_bad(lines, i + 1)
    }
}

/// The whole program compiles exactly when every line is well formed.
pub open spec fn spec_policy(s: Seq<char>) -> Result<SpecOptic, (int, ExpectedToken)> {
    let lines = spec_lines(s);
    match first_bad(lines, 0) {
        Some(e) => Err(e),
        None => Ok(spec_compile(lines)),
    }
}

/// Copies a vector of strings.
pub fn clone_string_vec(v: &Vec<String>) -> (r: Vec<String>)
    ensures
        r.deep_view() == v.deep_view(),
{
    let mut r: Vec<String> = Vec::new();
    let mut i: usize = 0;
    while i < v.len()
        invariant
            i <= v@.len(),
            r.deep_view() == v.deep_view().take(i as int),
        decreases v@.len() - i,
    {
        let item = v[i].clone();
        let ghost itemv = item@;
        let ghost pre_deep = r.deep_view();
        proof {
            assert(itemv == v.deep_view()[i as int]);
        }
        r.push(item);
        i = i + 1;
        proof {
            assert(r.deep_view() =~~= pre_deep.push(itemv));
            assert(v.deep_view().take(i as int) =~~= v.deep_view().take(i - 1).push(
                v.deep_view()[i - 1],
            ));
            assert(r.deep_view() =~~= v.deep_view().take(i as int));
        }
    }
    proof {
        assert(v.deep_view().take(v@.len() as int) =~= v.deep_view());
    }
    r
}

fn remove_host(v: &Vec<String>, h: &String) -> (r: Vec<String>)
    ensures
        r.deep_view() == spec_remove(v.deep_view(), h@),
{
    let mut r: Vec<String> = Vec::new();
    let mut i: usize = 0;
    while i < v.len()
        invariant
            i <= v@.len(),
            r.deep_view() == spec_remove(v.deep_view().take(i as int), h@),
        decreases v@.len() - i,
    {
        let ghost pre = v.deep_view().take(i as int);
        if !v[i].eq(h) {
            let item = v[i].clone();
            proof {
                assert(item@ == v.deep_view()[i as int]);
            }
            r.push(item);
        }
        i = i + 1;
        proof {
            let cur = v.deep_view().take(i as int);
            assert(cur.drop_last() =~= pre);
            assert(cur.last() == v.deep_view()[i - 1]);
            assert(r.deep_view() =~= spec_remove(cur, h@));
        }
    }
    proof {
        assert(v.deep_view().take(v@.len() as int) =~= v.deep_view());
    }
    r
}

impl SiteRankings {
    pub fn new() -> (r: SiteRankings)
        ensures
            r@ == empty_site_rankings(),
    {
        let r = SiteRankings { liked: Vec::new(), disliked: Vec::new(), blocked: Vec::new() };
        proof {
            assert(r@.liked =~= empty_site_rankings().liked);
            assert(r@.disliked =~= empty_site_rankings().disliked);
            assert(r@.blocked =~= empty_site_rankings().blocked);
        }
        r
    }

    /// Records that `host` is classified `cat`, superseding any earlier
    /// classification of the same host.
    pub fn classify(&mut self, cat: Ranking, host: String)
        ensures
            final(self)@ == spec_classify_host(old(self)@, cat, host@),
    {
        let liked = remove_host(&self.liked, &host);
        let disliked = remove_host(&self.disliked, &host);
        let blocked = remove_host(&self.blocked, &host);
        self.liked = liked;
        self.disliked = disliked;
        self.blocked = blocked;
        match cat {
            Ranking::Liked => self.liked.push(host),
            Ranking::Disliked => self.disliked.push(host),
            Ranking::Blocked => self.blocked.push(host),
        }
        proof {
            assert(self@.liked =~= spec_classify_host(old(self)@, cat, host@).liked);
            assert(self@.disliked =~= spec_classify_host(old(self)@, cat, host@).disliked);
            assert(self@.blocked =~= spec_classify_host(old(self)@, cat, host@).blocked);
        }
    }

    /// Wraps these host preferences as a policy with no coefficients.
    pub fn into_optic(self) -> (r: Optic)
        ensures
            r@.rankings == Seq::<(Seq<char>, u64)>::empty(),
            r@.site_rankings == self@,
    {
        let r = Optic { rankings: Vec::new(), site_rankings: self };
        proof {
            assert(r@.rankings =~= Seq::<(Seq<char>, u64)>::empty());
        }
        r
    }
}

impl Optic {
    /// Compiles a policy program. Returns the compiled policy, or the first
    /// offending line (1-based) and the token expected there.
    pub fn parse(program: &str) -> (r: Result<Optic, PolicyParseError>)
        ensures
            match r {
                Ok(o) => spec_policy(program@) is Ok && o@ == spec_policy(program@)->Ok_0,
                Err(e) => spec_policy(program@) is Err && e.line == spec_policy(
                    program@,
                )->Err_0.0 + 1 && e.expected == spec_policy(program@)->Err_0.1,
            },
    {
        let chars = str_chars(program);
        let lines = split_lines(&chars);
        let ghost ls = lines.deep_view();
        let mut optic = Optic {
            rankings: Vec::new(),
            site_rankings: SiteRankings::new(),
        };
        proof {
            assert(optic@.rankings =~= spec_compile(ls.take(0)).rankings);
            assert(optic@ == spec_compile(ls.take(0)));
        }
        let mut i: usize = 0;
        while i < lines.len()
            invariant
                ls == lines.deep_view(),
                ls == spec_lines(chars@),
                chars@ == program@,
                i <= ls.len(),
                first_bad(ls, 0) == first_bad(ls, i as int),
                optic@ == spec_compile(ls.take(i as int)),
            decreases ls.len() - i,
        {
            let ghost pre = ls.take(i as int);
            let parsed = parse_line(&lines[i]);
            proof {
                assert(lines[i as int]@ == ls[i as int]);
                assert(parsed@ == spec_line_parse(ls[i as int]));
            }
            match parsed {
                LineParsed::Blank => {},
                LineParsed::Bad(e) => {
                    proof {
                        assert(first_bad(ls, i as int) == Some((i as int, e)));
                    }
                    return Err(PolicyParseError { line: i + 1, expected: e });
                },
                LineParsed::Coeff(name, value) => {
                    optic.rankings.push(RankingCoeff { target: name, value });
                },
                LineParsed::Host(cat, host) => {
                    optic.site_rankings.classify(cat, host);
                },
            }
            i = i + 1;
            proof {
                let cur = ls.take(i as int);
                assert(cur.drop_last() =~= pre);
                assert(cur.last() == ls[i - 1]);
                assert(spec_compile(cur) == spec_apply_line(spec_compile(pre), spec_line_parse(
                    ls[i - 1],
                )));
                assert(optic@.rankings =~= spec_compile(cur).rankings);
                assert(optic@ == spec_compile(cur));
            }
        }
        proof {
            assert(ls.take(ls.len() as int) =~= ls);
        }
        Ok(optic)
    }

    /// Merges `other` into `self`: `other`'s coefficients come later and so
    /// win on conflict, and `other`'s host classifications supersede
    /// `self`'s for the hosts it mentions. The merge is total.
    pub fn try_merge(self, other: Optic) -> (r: Optic)
        ensures
            r@ == spec_merge(self@, other@),
    {
        let mut rankings = self.rankings;
        let mut other_rankings = other.rankings;
        let ghost a = rankings@;
        let ghost b = other_rankings@;
        rankings.append(&mut other_rankings);
        let mut site_rankings = self.site_rankings;
        let mut i: usize = 0;
        let ob = other.site_rankings;
        while i < ob.liked.len()
            invariant
                i <= ob.liked@.len(),
                site_rankings@ == spec_classify_all(
                    self.site_rankings@,
                    Ranking::Liked,
                    ob.liked.deep_view().take(i as int),
                ),
            decreases ob.liked@.len() - i,
        {
            let ghost pre = ob.liked.deep_view().take(i as int);
            site_rankings.classify(Ranking::Liked, ob.liked[i].clone());
            i = i + 1;
            proof {
                let cur = ob.liked.deep_view().take(i as int);
                assert(cur.drop_last() =~= pre);
                assert(cur.last() == ob.liked.deep_view()[i - 1]);
            }
        }
        proof {
            assert(ob.liked.deep_view().take(ob.liked@.len() as int) =~= ob.liked.deep_view());
        }
        let mut i: usize = 0;
        let ghost after_liked = site_rankings@;
        while i < ob.disliked.len()
            invariant
                i <= ob.disliked@.len(),
                site_rankings@ == spec_classify_all(
                    after_liked,
                    Ranking::Disliked,
                    ob.disliked.deep_view().take(i as int),
                ),
            decreases ob.disliked@.len() - i,
        {
            let ghost pre = ob.disliked.deep_view().take(i as int);
            site_rankings.classify(Ranking::Disliked, ob.disliked[i].clone());
            i = i + 1;
            proof {
                let cur = ob.disliked.deep_view().take(i as int);
                assert(cur.drop_last() =~= pre);
                assert(cur.last() == ob.disliked.deep_view()[i - 1]);
            }
        }
        proof {
            assert(ob.disliked.deep_view().take(ob.disliked@.len() as int)
                =~= ob.disliked.deep_view());
        }
        let mut i: usize = 0;
        let ghost after_disliked = site_rankings@;
        while i < ob.blocked.len()
            invariant
                i <= ob.blocked@.len(),
                site_rankings@ == spec_classify_all(
                    after_disliked,
                    Ranking::Blocked,
                    ob.blocked.deep_view().take(i as int),
                ),
            decreases ob.blocked@.len() - i,
        {
            let ghost pre = ob.blocked.deep_view().take(i as int);
            site_rankings.classify(Ranking::Blocked, ob.blocked[i].clone());
            i = i + 1;
            proof {
                let cur = ob.blocked.deep_view().take(i as int);
                assert(cur.drop_last() =~= pre);
                assert(cur.last() == ob.blocked.deep_view()[i - 1]);
            }
        }
        proof {
            assert(ob.blocked.deep_view().take(ob.blocked@.len() as int)
                =~= ob.blocked.deep_view());
        }
        let r = Optic { rankings, site_rankings };
        proof {
            assert(r@.rankings =~= spec_merge(self@, other@).rankings);
        }
        r
    }
}

/// Classifies every host of `hs` as `cat`, in order.
pub open spec fn spec_classify_all(
    sr: SpecSiteRankings,
    cat: Ranking,
    hs: Seq<Seq<char>>,
) -> SpecSiteRankings
    decreases hs.len(),
{
    if hs.len() == 0 {
        sr
    } else {
        spec_classify_host(spec_classify_all(sr, cat, hs.drop_last()), cat, hs.last())
    }
}

/// The merge of two policies: coefficient lists concatenate (later entries
/// win at lookup), and the second policy's host classifications are applied
/// after the first's, liked then disliked then blocked.
pub open spec fn spec_merge(a: SpecOptic, b: SpecOptic) -> SpecOptic {
    SpecOptic {
        rankings: a.rankings + b.rankings,
        site_rankings: spec_classify_all(
            spec_classify_all(
                spec_classify_all(a.site_rankings, Ranking::Liked, b.site_rankings.liked),
                Ranking::Disliked,
                b.site_rankings.disliked,
            ),
            Ranking::Blocked,
            b.site_rankings.blocked,
        ),
    }
}

} // verus!
