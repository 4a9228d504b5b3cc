//! Webpages as the indexer sees them: URL decomposition into site and
//! domain, HTML text extraction, tracker detection, and the `Webpage`
//! ingestion record.

use vstd::prelude::*;

use crate::parser::{find_quote, lemma_find_quote_at};
use crate::text::{
    chars_eq, chars_to_string, fold_char, fold_seq, fold_word, is_space, space, str_chars, subvec,
};

verus! {

// ---------------------------------------------------------------------------
// Substring search
// ---------------------------------------------------------------------------

/// The first index at or after `i` where `p` occurs in `s`, or `-1`.
pub open spec fn find_sub(s: Seq<char>, p: Seq<char>, i: int) -> int
    decreases s.len() + 1 - i,
{
    if i < 0 || i + p.len() > s.len() {
        -1
    } else if s.subrange(i, i + p.len()) == p {
        i
    } else {
        find_sub(s, p, i + 1)
    }
}

/// `p` occurs somewhere in `s`.
pub open spec fn contains_sub(s: Seq<char>, p: Seq<char>) -> bool {
    find_sub(s, p, 0) >= 0
}

proof fn lemma_find_sub_found(s: Seq<char>, p: Seq<char>, i: int, j: int)
    requires
        0 <= i <= j,
        j + p.len() <= s.len(),
        forall|k: int| i <= k < j ==> #[trigger] s.subrange(k, k + p.len()) != p,
        s.subrange(j, j + p.len()) == p,
    ensures
        find_sub(s, p, i) == j,
    decreases j - i,
{
    if i < j {
        lemma_find_sub_found(s, p, i + 1, j);
    }
}

proof fn lemma_find_sub_none(s: Seq<char>, p: Seq<char>, i: int)
    requires
        0 <= i,
        forall|k: int| i <= k && k + p.len() <= s.len() ==> #[trigger] s.subrange(k, k + p.len()) != p,
    ensures
        find_sub(s, p, i) == -1,
    decreases s.len() + 1 - i,
{
    if i + p.len() <= s.len() {
        lemma_find_sub_none(s, p, i + 1);
    }
}

/// Finds the first occurrence of `p` in `s` at or after `from`.
pub fn find_sub_from(s: &Vec<char>, p: &Vec<char>, from: usize) -> (r: Option<usize>)
    requires
        from <= s@.len(),
    ensures
        match r {
            Some(j) => find_sub(s@, p@, from as int) == j && from <= j && j + p@.len() <= s@.len(),
            None => find_sub(s@, p@, from as int) == -1,
        },
{
    if p.len() > s.len() || from > s.len() - p.len() {
        proof {
            lemma_find_sub_none(s@, p@, from as int);
        }
        return None;
    }
    let last_start = s.len() - p.len();
    let mut i = from;
    while i <= last_start
        invariant
            from <= i,
            i <= last_start + 1,
            last_start == s@.len() - p@.len(),
            forall|k: int| from <= k < i ==> #[trigger] s@.subrange(k, k + p@.len()) != p@,
        decreases last_start + 1 - i,
    {
        let mut k: usize = 0;
        let mut matches = true;
        while k < p.len()
            invariant
                i + p@.len() <= s@.len(),
                k <= p@.len(),
                matches == (forall|m: int| 0 <= m < k ==> s@[i + m] == p@[m]),
            decreases p@.len() - k,
        {
            proof {
                assert(s.len() == s@.len());
                assert(i + k < s@.len());
            }
            if s[i + k] != p[k] {
                matches = false;
            }
            k = k + 1;
        }
        if matches {
            proof {
                assert(s@.subrange(i as int, i + p@.len()) =~= p@);
                lemma_find_sub_found(s@, p@, from as int, i as int);
            }
            return Some(i);
        }
        proof {
            let sub = s@.subrange(i as int, i + p@.len());
            let m = choose|m: int| 0 <= m < p@.len() && s@[i + m] != p@[m];
            assert(sub[m] != p@[m]);
            assert(p@.len() > 0);
            assert(s.len() == s@.len());
            assert(i + 1 <= s@.len());
        }
        i = i + 1;
    }
    proof {
        lemma_find_sub_none(s@, p@, from as int);
    }
    None
}

// ---------------------------------------------------------------------------
// Trimming
// ---------------------------------------------------------------------------

/// `s` without trailing whitespace.
pub open spec fn trim_end(s: Seq<char>) -> Seq<char>
    decreases s.len(),
{
    if s.len() == 0 {
        s
    } else if is_space(s.last()) {
        trim_end(s.drop_last())
    } else {
        s
    }
}

/// The first index from which `s` has no leading whitespace.
pub open spec fn start_idx(s: Seq<char>) -> int
    decreases s.len(),
{
    if s.len() == 0 {
        0
    } else if is_space(s.first()) {
        1 + start_idx(s.drop_first())
    } else {
        0
    }
}

/// `s` without leading and trailing whitespace.
pub open spec fn spec_trim(s: Seq<char>) -> Seq<char> {
    let t = trim_end(s);
    t.skip(start_idx(t))
}

proof fn lemma_trim_end_at(s: Seq<char>, b: int)
    requires
        0 <= b <= s.len(),
        forall|k: int| b <= k < s.len() ==> is_space(s[k]),
        b == 0 || !is_space(s[b - 1]),
    ensures
        trim_end(s) == s.take(b),
    decreases s.len(),
{
    if s.len() > b {
        assert(is_space(s.last()));
        lemma_trim_end_at(s.drop_last(), b);
        assert(s.drop_last().take(b) =~= s.take(b));
    } else {
        if s.len() > 0 {
            assert(!is_space(s.last()));
        }
        assert(s.take(b) =~= s);
    }
}

proof fn lemma_start_idx_at(s: Seq<char>, a: int)
    requires
        0 <= a <= s.len(),
        forall|k: int| 0 <= k < a ==> is_space(s[k]),
        a == s.len() || !is_space(s[a]),
    ensures
        start_idx(s) == a,
    decreases a,
{
    if a > 0 {
        assert(is_space(s.first()));
        lemma_start_idx_at(s.drop_first(), a - 1);
    }
}

/// Removes leading and trailing whitespace.
pub fn trim_chars(s: &Vec<char>) -> (r: Vec<char>)
    ensures
        r@ == spec_trim(s@),
{
    let mut b = s.len();
    while b > 0 && space(s[b - 1])
        invariant
            b <= s@.len(),
            forall|k: int| b <= k < s@.len() ==> is_space(s@[k]),
        decreases b,
    {
        b = b - 1;
    }
    proof {
        lemma_trim_end_at(s@, b as int);
    }
    let mut a: usize = 0;
    while a < b && space(s[a])
        invariant
            a <= b <= s@.len(),
            forall|k: int| 0 <= k < a ==> is_space(s@[k]),
        decreases b - a,
    {
        a = a + 1;
    }
    proof {
        let t = trim_end(s@);
        assert(t =~= s@.take(b as int));
        assert forall|k: int| 0 <= k < a implies is_space(t[k]) by {}
        lemma_start_idx_at(t, a as int);
        assert(t.skip(a as int) =~= s@.subrange(a as int, b as int));
    }
    subvec(s, a, b)
}

// ---------------------------------------------------------------------------
// URLs
// ---------------------------------------------------------------------------

/// The index right after the first `://`, or `0` if there is none.
pub open spec fn spec_host_start(s: Seq<char>) -> int {
    let p = find_sub(s, seq![':', '/', '/'], 0);
    if p >= 0 {
        p + 3
    } else {
        0
    }
}

/// The first `/`, `?` or `#` at or after `i`, or the length: the end of the
/// host part.
pub open spec fn spec_host_end(s: Seq<char>, i: int) -> int
    decreases s.len() - i,
{
    if i < 0 || i >= s.len() {
        s.len() as int
    } else if s[i] == '/' || s[i] == '?' || s[i] == '#' {
        i
    } else {
        spec_host_end(s, i + 1)
    }
}

proof fn lemma_host_end_at(s: Seq<char>, i: int, j: int)
    requires
        0 <= i <= j <= s.len(),
        forall|k: int| i <= k < j ==> !(s[k] == '/' || s[k] == '?' || s[k] == '#'),
        j == s.len() || (s[j] == '/' || s[j] == '?' || s[j] == '#'),
    ensures
        spec_host_end(s, i) == j,
    decreases j - i,
{
    if i < j {
        lemma_host_end_at(s, i + 1, j);
    }
}

/// The host (site) of a URL, case folded.
pub open spec fn spec_site(s: Seq<char>) -> Seq<char> {
    let a = spec_host_start(s);
    fold_seq(s.subrange(a, spec_host_end(s, a)))
}

/// What follows the host.
pub open spec fn spec_path(s: Seq<char>) -> Seq<char> {
    s.skip(spec_host_end(s, spec_host_start(s)))
}

/// A URL points at its site's homepage when nothing, or only `/`, follows
/// the host.
pub open spec fn spec_is_homepage(s: Seq<char>) -> bool {
    spec_path(s) == Seq::<char>::empty() || spec_path(s) == seq!['/']
}

/// The last index of `.` in `s`, or `-1`.
pub open spec fn rfind_dot(s: Seq<char>) -> int
    decreases s.len(),
{
    if s.len() == 0 {
        -1
    } else if s.last() == '.' {
        s.len() - 1
    } else {
        rfind_dot(s.drop_last())
    }
}

proof fn lemma_rfind_dot_at(s: Seq<char>, d: int)
    requires
        -1 <= d < s.len(),
        d >= 0 ==> s[d] == '.',
        forall|k: int| d < k < s.len() ==> s[k] != '.',
    ensures
        rfind_dot(s) == d,
    decreases s.len(),
{
    if s.len() > 0 && s.last() != '.' {
        lemma_rfind_dot_at(s.drop_last(), d);
    }
}

/// The registrable domain of a host: its last two dot-separated labels, or
/// the whole host when it has fewer.
pub open spec fn spec_domain_of_host(h: Seq<char>) -> Seq<char> {
    let d1 = rfind_dot(h);
    if d1 < 0 {
        h
    } else {
        let d2 = rfind_dot(h.take(d1));
        if d2 < 0 {
            h
        } else {
            h.skip(d2 + 1)
        }
    }
}

/// The domain of a URL.
pub open spec fn spec_domain(s: Seq<char>) -> Seq<char> {
    spec_domain_of_host(spec_site(s))
}

fn rfind_dot_exec(s: &Vec<char>) -> (r: Option<usize>)
    ensures
        match r {
            Some(d) => rfind_dot(s@) == d && d < s@.len(),
            None => rfind_dot(s@) == -1,
        },
{
    let mut b = s.len();
    while b > 0
        invariant
            b <= s@.len(),
            forall|k: int| b <= k < s@.len() ==> s@[k] != '.',
        decreases b,
    {
        b = b - 1;
        if s[b] == '.' {
            proof {
                lemma_rfind_dot_at(s@, b as int);
            }
            return Some(b);
        }
    }
    proof {
        lemma_rfind_dot_at(s@, -1);
    }
    None
}

/// Where the host part of a URL begins.
pub fn host_start(url: &Vec<char>) -> (r: usize)
    ensures
        r as int == spec_host_start(url@),
        r <= url@.len(),
{
    let sep = vec![':', '/', '/'];
    proof {
        assert(sep@ =~= seq![':', '/', '/']);
        assert(sep@.len() == 3);
    }
    match find_sub_from(url, &sep, 0) {
        Some(p) => {
            proof {
                assert(url.len() == url@.len());
                assert(p + sep@.len() <= url@.len());
            }
            p + 3
        },
        None => 0,
    }
}

/// The parts a URL splits into: folded host, its domain, the path, and
/// whether the URL is its site's homepage.
pub struct UrlParts {
    pub site: Vec<char>,
    pub domain: Vec<char>,
    pub path: Vec<char>,
    pub is_homepage: bool,
}

/// Splits a URL into host, domain and path.
pub fn parse_url(url: &Vec<char>) -> (r: UrlParts)
    ensures
        r.site@ == spec_site(url@),
        r.domain@ == spec_domain(url@),
        r.path@ == spec_path(url@),
        r.is_homepage == spec_is_homepage(url@),
{
    let a: usize = host_start(url);
    let mut j = a;
    while j < url.len() && url[j] != '/' && url[j] != '?' && url[j] != '#'
        invariant
            a <= j <= url@.len(),
            forall|k: int| a <= k < j ==> !(url@[k] == '/' || url@[k] == '?' || url@[k] == '#'),
        decreases url@.len() - j,
    {
        j = j + 1;
    }
    proof {
        lemma_host_end_at(url@, a as int, j as int);
    }
    let host_raw = subvec(url, a, j);
    let site = fold_word(&host_raw);
    let path = subvec(url, j, url.len());
    let is_homepage = if path.len() == 0 {
        proof {
            assert(path@ =~= Seq::<char>::empty());
        }
        true
    } else if path.len() == 1 && path[0] == '/' {
        proof {
            assert(path@ =~= seq!['/']);
        }
        true
    } else {
        false
    };
    let domain = domain_of_host(&site);
    UrlParts { site, domain, path, is_homepage }
}

fn domain_of_host(h: &Vec<char>) -> (r: Vec<char>)
    ensures
        r@ == spec_domain_of_host(h@),
{
    match rfind_dot_exec(h) {
        None => subvec(h, 0, h.len()),
        Some(d1) => {
            let front = subvec(h, 0, d1);
            match rfind_dot_exec(&front) {
                None => {
                    proof {
                        assert(h@.take(d1 as int) == front@);
                    }
                    subvec(h, 0, h.len())
                },
                Some(d2) => {
                    proof {
                        assert(h@.take(d1 as int) == front@);
                        assert(h@.subrange(d2 + 1, h@.len() as int) =~= h@.skip(d2 + 1));
                    }
                    subvec(h, d2 + 1, h.len())
                },
            }
        },
    }
}

// ---------------------------------------------------------------------------
// HTML scanning
// ---------------------------------------------------------------------------

/// Where in the document the scanner stands.
#[derive(Debug, Clone, Copy, PartialEq, Eq, Structural)]
pub enum HtmlMode {
    Normal,
    InTitle,
    InScript,
    InStyle,
}

/// What the scanner has gathered: the title text, the visible body text, and
/// the two recognized `og:` metadata values, still unparsed.
pub struct SpecHtmlState {
    pub mode: HtmlMode,
    pub title: Seq<char>,
    pub seen_title: bool,
    pub body: Seq<char>,
    pub updated: Option<Seq<char>>,
    pub desc: Option<Seq<char>>,
}

pub open spec fn init_html_state() -> SpecHtmlState {
    SpecHtmlState {
        mode: HtmlMode::Normal,
        title: Seq::empty(),
        seen_title: false,
        body: Seq::empty(),
        updated: None,
        desc: None,
    }
}

/// The first `>` at or after `i`, or the length.
pub open spec fn find_gt(s: Seq<char>, i: int) -> int
    decreases s.len() - i,
{
    if i < 0 || i >= s.len() {
        s.len() as int
    } else if s[i] == '>' {
        i
    } else {
        find_gt(s, i + 1)
    }
}

proof fn lemma_find_gt_bounds(s: Seq<char>, i: int)
    requires
        0 <= i <= s.len(),
    ensures
        i <= find_gt(s, i) <= s.len(),
    decreases s.len() - i,
{
    if i < s.len() && s[i] != '>' {
        lemma_find_gt_bounds(s, i + 1);
    }
}

proof fn lemma_find_gt_at(s: Seq<char>, i: int, j: int)
    requires
        0 <= i <= j <= s.len(),
        forall|k: int| i <= k < j ==> s[k] != '>',
        j == s.len() || s[j] == '>',
    ensures
        find_gt(s, i) == j,
    decreases j - i,
{
    if i < j {
        lemma_find_gt_at(s, i + 1, j);
    }
}

pub open spec fn is_alpha(c: char) -> bool {
    ('a' <= c && c <= 'z') || ('A' <= c && c <= 'Z')
}

/// The first index at or after `i` holding no letter, or the length.
pub open spec fn end_alpha(s: Seq<char>, i: int) -> int
    decreases s.len() - i,
{
    if i < 0 || i >= s.len() {
        s.len() as int
    } else if is_alpha(s[i]) {
        end_alpha(s, i + 1)
    } else {
        i
    }
}

proof fn lemma_end_alpha_at(s: Seq<char>, i: int, j: int)
    requires
        0 <= i <= j <= s.len(),
        forall|k: int| i <= k < j ==> is_alpha(s[k]),
        j == s.len() || !is_alpha(s[j]),
    ensures
        end_alpha(s, i) == j,
    decreases j - i,
{
    if i < j {
        lemma_end_alpha_at(s, i + 1, j);
    }
}

pub open spec fn spec_tag_closing(t: Seq<char>) -> bool {
    t.len() > 0 && t[0] == '/'
}

/// The tag's name: its leading letters, case folded.
pub open spec fn spec_tag_name(t: Seq<char>) -> Seq<char> {
    let b: int = if spec_tag_closing(t) {
        1
    } else {
        0
    };
    fold_seq(t.subrange(b, end_alpha(t, b)))
}

pub open spec fn spec_selfclosing(t: Seq<char>) -> bool {
    t.len() > 0 && t.last() == '/'
}

/// The value of the `key="..."` attribute inside tag text `t`, if present.
pub open spec fn spec_attr(t: Seq<char>, key: Seq<char>) -> Option<Seq<char>> {
    let pat = key + seq!['=', '"'];
    let p = find_sub(t, pat, 0);
    if p < 0 {
        None
    } else {
        let vs = p + pat.len();
        Some(t.subrange(vs, find_quote(t, vs)))
    }
}

/// A `meta` tag contributes the first `og:updated_time` and
/// `og:description` it declares.
pub open spec fn spec_apply_meta(st: SpecHtmlState, t: Seq<char>) -> SpecHtmlState {
    let st1 = if spec_attr(t, "property"@) == Some("og:updated_time"@) && spec_attr(
        t,
        "content"@,
    ) is Some && st.updated is None {
        SpecHtmlState { updated: spec_attr(t, "content"@), ..st }
    } else {
        st
    };
    if spec_attr(t, "property"@) == Some("og:description"@) && spec_attr(t, "content"@) is Some
        && st1.desc is None {
        SpecHtmlState { desc: spec_attr(t, "content"@), ..st1 }
    } else {
        st1
    }
}

/// How one tag (its text between `<` and `>`) changes the scanner state.
pub open spec fn spec_apply_tag(st: SpecHtmlState, t: Seq<char>) -> SpecHtmlState {
    let name = spec_tag_name(t);
    if spec_tag_closing(t) {
        if name == "title"@ && st.mode is InTitle {
            SpecHtmlState { mode: HtmlMode::Normal, seen_title: true, ..st }
        } else if name == "script"@ && st.mode is InScript {
            SpecHtmlState { mode: HtmlMode::Normal, ..st }
        } else if name == "style"@ && st.mode is InStyle {
            SpecHtmlState { mode: HtmlMode::Normal, ..st }
        } else {
            st
        }
    } else if st.mode is Normal {
        if spec_selfclosing(t) {
            if name == "meta"@ {
                spec_apply_meta(st, t)
            } else {
                st
            }
        } else if name == "title"@ && !st.seen_title {
            SpecHtmlState { mode: HtmlMode::InTitle, ..st }
        } else if name == "script"@ {
            SpecHtmlState { mode: HtmlMode::InScript, ..st }
        } else if name == "style"@ {
            SpecHtmlState { mode: HtmlMode::InStyle, ..st }
        } else if name == "meta"@ {
            spec_apply_meta(st, t)
        } else {
            st
        }
    } else {
        st
    }
}

/// How one text character changes the scanner state: it lands in the title
/// or the body, or is dropped inside scripts and styles.
pub open spec fn spec_apply_char(st: SpecHtmlState, c: char) -> SpecHtmlState {
    match st.mode {
        HtmlMode::Normal => SpecHtmlState { body: st.body.push(c), ..st },
        HtmlMode::InTitle => SpecHtmlState { title: st.title.push(c), ..st },
        HtmlMode::InScript => st,
        HtmlMode::InStyle => st,
    }
}

/// A `<` opens a tag in normal and title text; inside scripts and styles
/// only `</` does, so that comparison operators in script code do not end
/// the document early.
pub open spec fn spec_tag_starts(s: Seq<char>, i: int, st: SpecHtmlState) -> bool {
    s[i] == '<' && (st.mode is Normal || st.mode is InTitle || (i + 1 < s.len() && s[i + 1]
        == '/'))
}

/// The scanner, from position `i` in state `st`.
pub open spec fn spec_scan(s: Seq<char>, i: int, st: SpecHtmlState) -> SpecHtmlState
    decreases s.len() + 1 - i,
    via spec_scan_decreases
{
    if i < 0 || i >= s.len() {
        st
    } else if spec_tag_starts(s, i, st) {
        let j = find_gt(s, i + 1);
        spec_scan(s, j + 1, spec_apply_tag(st, s.subrange(i + 1, j)))
    } else {
        spec_scan(s, i + 1, spec_apply_char(st, s[i]))
    }
}

#[via_fn]
proof fn spec_scan_decreases(s: Seq<char>, i: int, st: SpecHtmlState) {
    if 0 <= i < s.len() {
        if spec_tag_starts(s, i, st) {
            lemma_find_gt_bounds(s, i + 1);
        }
    }
}

/// What scanning the whole document yields.
pub open spec fn spec_html_state(s: Seq<char>) -> SpecHtmlState {
    spec_scan(s, 0, init_html_state())
}

struct HtmlScan {
    mode: HtmlMode,
    title: Vec<char>,
    seen_title: bool,
    body: Vec<char>,
    updated: Option<Vec<char>>,
    desc: Option<Vec<char>>,
}

impl View for HtmlScan {
    type V = SpecHtmlState;

    closed spec fn view(&self) -> SpecHtmlState {
        SpecHtmlState {
            mode: self.mode,
            title: self.title@,
            seen_title: self.seen_title,
            body: self.body@,
            updated: match self.updated {
                Some(v) => Some(v@),
                None => None,
            },
            desc: match self.desc {
                Some(v) => Some(v@),
                None => None,
            },
        }
    }
}

fn scan_alpha(s: &Vec<char>, from: usize) -> (r: usize)
    requires
        from <= s@.len(),
    ensures
        r == end_alpha(s@, from as int),
        from <= r <= s@.len(),
{
    let mut j = from;
    while j < s.len() && (('a' <= s[j] && s[j] <= 'z') || ('A' <= s[j] && s[j] <= 'Z'))
        invariant
            from <= j <= s@.len(),
            forall|k: int| from <= k < j ==> is_alpha(s@[k]),
        decreases s@.len() - j,
    {
        j = j + 1;
    }
    proof {
        lemma_end_alpha_at(s@, from as int, j as int);
    }
    j
}

fn attr_value(t: &Vec<char>, key: &str) -> (r: Option<Vec<char>>)
    ensures
        match r {
            Some(v) => spec_attr(t@, key@) == Some(v@),
            None => spec_attr(t@, key@) is None,
        },
{
    let mut pat = str_chars(key);
    pat.push('=');
    pat.push('"');
    proof {
        assert(pat@ =~= key@ + seq!['=', '"']);
    }
    match find_sub_from(t, &pat, 0) {
        None => None,
        Some(p) => {
            proof {
                assert(t.len() == t@.len());
                assert(p + pat@.len() <= t@.len());
            }
            let vs = p + pat.len();
            let mut j = vs;
            while j < t.len() && t[j] != '"'
                invariant
                    vs <= j <= t@.len(),
                    forall|k: int| vs <= k < j ==> t@[k] != '"',
                decreases t@.len() - j,
            {
                j = j + 1;
            }
            proof {
                lemma_find_quote_at(t@, vs as int, j as int);
            }
            Some(subvec(t, vs, j))
        },
    }
}

fn apply_meta(st: &mut HtmlScan, t: &Vec<char>)
    ensures
        final(st)@ == spec_apply_meta(old(st)@, t@),
{
    proof {
        reveal_strlit("og:updated_time");
        reveal_strlit("og:description");
        assert("og:updated_time"@.len() == 15);
        assert("og:description"@.len() == 14);
        assert("og:updated_time"@ != "og:description"@);
    }
    let ghost st0 = st@;
    let prop = attr_value(t, "property");
    let content = attr_value(t, "content");
    match (&prop, &content) {
        (Some(p), Some(c)) => {
            let upd = str_chars("og:updated_time");
            let dsc = str_chars("og:description");
            if chars_eq(p, &upd) {
                if st.updated.is_none() {
                    let copied = subvec(c, 0, c.len());
                    proof {
                        assert(copied@ =~= c@);
                    }
                    st.updated = Some(copied);
                    proof {
                        assert(spec_attr(t@, "property"@) == Some("og:updated_time"@));
                        assert(spec_attr(t@, "content"@) == Some(copied@));
                        assert(st@.updated == spec_attr(t@, "content"@));
                        assert(st@.desc == st0.desc);
                        assert(st@ == spec_apply_meta(st0, t@));
                    }
                }
            } else if chars_eq(p, &dsc) {
                if st.desc.is_none() {
                    let copied = subvec(c, 0, c.len());
                    proof {
                        assert(copied@ =~= c@);
                    }
                    st.desc = Some(copied);
                }
            }
        },
        _ => {},
    }
}

fn apply_tag(st: &mut HtmlScan, t: &Vec<char>)
    ensures
        final(st)@ == spec_apply_tag(old(st)@, t@),
{
    proof {
        reveal_strlit("title");
        reveal_strlit("script");
        reveal_strlit("style");
        reveal_strlit("meta");
    }
    let closing = t.len() > 0 && t[0] == '/';
    let b: usize = if closing {
        1
    } else {
        0
    };
    let ne = scan_alpha(t, b);
    let name_raw = subvec(t, b, ne);
    let name = fold_word(&name_raw);
    let selfclosing = t.len() > 0 && t[t.len() - 1] == '/';
    let lit_title = str_chars("title");
    let lit_script = str_chars("script");
    let lit_style = str_chars("style");
    let lit_meta = str_chars("meta");
    if closing {
        if chars_eq(&name, &lit_title) && matches!(st.mode, HtmlMode::InTitle) {
            st.mode = HtmlMode::Normal;
            st.seen_title = true;
        } else if chars_eq(&name, &lit_script) && matches!(st.mode, HtmlMode::InScript) {
            st.mode = HtmlMode::Normal;
        } else if chars_eq(&name, &lit_style) && matches!(st.mode, HtmlMode::InStyle) {
            st.mode = HtmlMode::Normal;
        }
    } else if matches!(st.mode, HtmlMode::Normal) {
        if selfclosing {
            if chars_eq(&name, &lit_meta) {
                apply_meta(st, t);
            }
        } else if chars_eq(&name, &lit_title) && !st.seen_title {
            st.mode = HtmlMode::InTitle;
        } else if chars_eq(&name, &lit_script) {
            st.mode = HtmlMode::InScript;
        } else if chars_eq(&name, &lit_style) {
            st.mode = HtmlMode::InStyle;
        } else if chars_eq(&name, &lit_meta) {
            apply_meta(st, t);
        }
    }
}

/// Runs the scanner over the whole document.
fn scan_html(s: &Vec<char>) -> (r: HtmlScan)
    ensures
        r@ == spec_html_state(s@),
{
    let n = s.len();
    let mut st = HtmlScan {
        mode: HtmlMode::Normal,
        title: Vec::new(),
        seen_title: false,
        body: Vec::new(),
        updated: None,
        desc: None,
    };
    proof {
        assert(st@ == init_html_state());
    }
    let mut i: usize = 0;
    while i < n
        invariant
            n == s@.len(),
            i <= n,
            spec_html_state(s@) == spec_scan(s@, i as int, st@),
        decreases n - i,
    {
        let ghost i0 = i as int;
        let ghost st_pre = st@;
        let c = s[i];
        let tag = c == '<' && (matches!(st.mode, HtmlMode::Normal) || matches!(
            st.mode,
            HtmlMode::InTitle,
        ) || (i + 1 < n && s[i + 1] == '/'));
        proof {
            assert(tag == spec_tag_starts(s@, i as int, st@));
        }
        if tag {
            let mut j = i + 1;
            while j < n && s[j] != '>'
                invariant
                    i + 1 <= j <= n,
                    n == s@.len(),
                    forall|k: int| i + 1 <= k < j ==> s@[k] != '>',
                decreases n - j,
            {
                j = j + 1;
            }
            proof {
                lemma_find_gt_at(s@, i + 1, j as int);
            }
            let t = subvec(s, i + 1, j);
            apply_tag(&mut st, &t);
            proof {
                assert(spec_scan(s@, i0, st_pre) == spec_scan(s@, j + 1, st@));
            }
            i = if j < n {
                j + 1
            } else {
                n
            };
            proof {
                if j == n {
                    assert(spec_scan(s@, j + 1, st@) == st@);
                    assert(spec_scan(s@, n as int, st@) == st@);
                }
            }
        } else {
            let ghost st0 = st@;
            match st.mode {
                HtmlMode::Normal => st.body.push(c),
                HtmlMode::InTitle => st.title.push(c),
                HtmlMode::InScript => {},
                HtmlMode::InStyle => {},
            }
            proof {
                assert(st@ == spec_apply_char(st0, c));
            }
            i = i + 1;
        }
    }
    st
}

// ---------------------------------------------------------------------------
// Trackers
// ---------------------------------------------------------------------------

/// How many of the known third-party tracking hosts the raw page source
/// references. Each host counts once however often it occurs.
pub open spec fn spec_num_trackers(s: Seq<char>) -> int {
    tracker_one(s, "google-analytics.com"@) + tracker_one(s, "googletagmanager.com"@)
        + tracker_one(s, "doubleclick.net"@) + tracker_one(s, "hotjar.com"@) + tracker_one(
        s,
        "segment.com"@,
    ) + tracker_one(s, "facebook.net"@) + tracker_one(s, "scorecardresearch.com"@) + tracker_one(
        s,
        "adnxs.com"@,
    )
}

pub open spec fn tracker_one(s: Seq<char>, p: Seq<char>) -> int {
    if contains_sub(s, p) {
        1
    } else {
        0
    }
}

fn has_pattern(s: &Vec<char>, pat: &str) -> (r: bool)
    ensures
        r == contains_sub(s@, pat@),
{
    let p = str_chars(pat);
    match find_sub_from(s, &p, 0) {
        Some(_) => true,
        None => false,
    }
}

fn count_trackers(s: &Vec<char>) -> (r: u64)
    ensures
        r == spec_num_trackers(s@),
{
    let mut n: u64 = 0;
    if has_pattern(s, "google-analytics.com") {
        n = n + 1;
    }
    if has_pattern(s, "googletagmanager.com") {
        n = n + 1;
    }
    if has_pattern(s, "doubleclick.net") {
        n = n + 1;
    }
    if has_pattern(s, "hotjar.com") {
        n = n + 1;
    }
    if has_pattern(s, "segment.com") {
        n = n + 1;
    }
    if has_pattern(s, "facebook.net") {
        n = n + 1;
    }
    if has_pattern(s, "scorecardresearch.com") {
        n = n + 1;
    }
    if has_pattern(s, "adnxs.com") {
        n = n + 1;
    }
    n
}

// ---------------------------------------------------------------------------
// Html and Webpage
// ---------------------------------------------------------------------------

/// A parsed webpage: its URL decomposition and the text the scanner took
/// from its source.
#[derive(Debug, Clone)]
pub struct Html {
    pub url: String,
    pub site: String,
    pub domain: String,
    pub is_homepage: bool,
    pub title: Option<String>,
    pub text: String,
    pub description: Option<String>,
    pub updated_time_raw: Option<String>,
    pub num_trackers: u64,
}

/// `h` is what parsing source `src` fetched from `url` yields.
pub open spec fn html_ok(h: Html, src: Seq<char>, url: Seq<char>) -> bool {
    let st = spec_html_state(src);
    &&& h.url@ == url
    &&& h.site@ == spec_site(url)
    &&& h.domain@ == spec_domain(url)
    &&& h.is_homepage == spec_is_homepage(url)
    &&& (match h.title {
        Some(t) => st.seen_title && t@ == spec_trim(st.title),
        None => !st.seen_title,
    })
    &&& h.text@ == st.body
    &&& (match h.description {
        Some(d) => st.desc == Some(d@),
        None => st.desc is None,
    })
    &&& (match h.updated_time_raw {
        Some(u) => st.updated == Some(u@),
        None => st.updated is None,
    })
    &&& h.num_trackers == spec_num_trackers(src)
}

impl Html {
    /// Parses the page fetched from `url`.
    pub fn parse(src: &str, url: &str) -> (r: Html)
        ensures
            html_ok(r, src@, url@),
    {
        let chars = str_chars(src);
        let st = scan_html(&chars);
        let url_chars = str_chars(url);
        let parts = parse_url(&url_chars);
        let title = if st.seen_title {
            let trimmed = trim_chars(&st.title);
            Some(chars_to_string(&trimmed))
        } else {
            None
        };
        let description = match &st.desc {
            Some(d) => Some(chars_to_string(d)),
            None => None,
        };
        let updated_time_raw = match &st.updated {
            Some(u) => Some(chars_to_string(u)),
            None => None,
        };
        let num_trackers = count_trackers(&chars);
        Html {
            url: String::from_str(url),
            site: chars_to_string(&parts.site),
            domain: chars_to_string(&parts.domain),
            is_homepage: parts.is_homepage,
            title,
            text: chars_to_string(&st.body),
            description,
            updated_time_raw,
            num_trackers,
        }
    }
}

/// A backlink: a link from another page to this one, with its anchor text.
#[derive(Debug, Clone)]
pub struct Link {
    pub source: String,
    pub destination: String,
    pub text: String,
}

/// What the indexer ingests for one page: the parsed page together with the
/// signals the external collaborators supply. Centrality values are fixed
/// point, scaled by `CENTRALITY_SCALING`.
#[derive(Debug, Clone)]
pub struct Webpage {
    pub html: Html,
    pub backlinks: Vec<Link>,
    pub host_centrality: u64,
    pub page_centrality: u64,
    pub fetch_time_ms: u64,
    pub pre_computed_score: u64,
    pub primary_image: Option<String>,
}

impl Webpage {
    /// Ingestion record of a page with no known backlinks or centrality.
    pub fn new(html: &str, url: &str) -> (r: Webpage)
        ensures
            html_ok(r.html, html@, url@),
            r.backlinks@.len() == 0,
            r.host_centrality == 0,
            r.page_centrality == 0,
            r.fetch_time_ms == 0,
            r.pre_computed_score == 0,
            r.primary_image is None,
    {
        Webpage {
            html: Html::parse(html, url),
            backlinks: Vec::new(),
            host_centrality: 0,
            page_centrality: 0,
            fetch_time_ms: 0,
            pre_computed_score: 0,
            primary_image: None,
        }
    }
}


// ---------------------------------------------------------------------------
// Regions
// ---------------------------------------------------------------------------

/// The region a request can restrict results to.
#[derive(Debug, Clone, Copy, PartialEq, Eq, Structural, Hash)]
pub enum Region {
    All,
    Denmark,
    France,
    Germany,
    Spain,
    UnitedStates,
}

impl Region {
    pub fn id(&self) -> (r: u64)
        ensures
            r == spec_region_id(*self),
    {
        match self {
            Region::All => 0,
            Region::Denmark => 1,
            Region::France => 2,
            Region::Germany => 3,
            Region::Spain => 4,
            Region::UnitedStates => 5,
        }
    }

    pub fn from_id(id: u64) -> (r: Option<Region>)
        ensures
            match r {
                Some(reg) => spec_region_id(reg) == id,
                None => id > 5,
            },
    {
        match id {
            0 => Some(Region::All),
            1 => Some(Region::Denmark),
            2 => Some(Region::France),
            3 => Some(Region::Germany),
            4 => Some(Region::Spain),
            5 => Some(Region::UnitedStates),
            _ => None,
        }
    }
}

pub open spec fn spec_region_id(r: Region) -> u64 {
    match r {
        Region::All => 0,
        Region::Denmark => 1,
        Region::France => 2,
        Region::Germany => 3,
        Region::Spain => 4,
        Region::UnitedStates => 5,
    }
}

} // verus!
