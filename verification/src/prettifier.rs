//! Result prettifying: HTML entity decoding and tag stripping for titles,
//! thousand separators for hit counts, and human-readable dates for
//! snippets.

use vstd::prelude::*;

use crate::text::{chars_to_string, spec_decimal, decimal_string, str_chars, subvec};
use crate::timeutil::{date_text, format_date};
use crate::webpage::spec_host_start;

verus! {

/// A result snippet.
#[derive(Debug, Clone)]
pub enum Snippet {
    Normal { date: Option<String>, text: String },
}

/// A spell correction with its highlighted rendering.
#[derive(Debug, Clone)]
pub struct HighlightedSpellCorrection {
    pub raw: String,
    pub highlighted: String,
}

/// A direct answer shown above the result list.
#[derive(Debug, Clone)]
pub struct DisplayedAnswer {
    pub title: String,
    pub url: String,
    pub pretty_url: String,
    pub snippet: String,
    pub answer: String,
    pub body: String,
}

// ---------------------------------------------------------------------------
// HTML escaping
// ---------------------------------------------------------------------------

pub open spec fn amp_at(s: Seq<char>, i: int) -> bool {
    i + 5 <= s.len() && s[i] == '&' && s[i + 1] == 'a' && s[i + 2] == 'm' && s[i + 3] == 'p'
        && s[i + 4] == ';'
}

pub open spec fn lt_at(s: Seq<char>, i: int) -> bool {
    i + 4 <= s.len() && s[i] == '&' && s[i + 1] == 'l' && s[i + 2] == 't' && s[i + 3] == ';'
}

pub open spec fn gt_at(s: Seq<char>, i: int) -> bool {
    i + 4 <= s.len() && s[i] == '&' && s[i + 1] == 'g' && s[i + 2] == 't' && s[i + 3] == ';'
}

pub open spec fn quot_at(s: Seq<char>, i: int) -> bool {
    i + 6 <= s.len() && s[i] == '&' && s[i + 1] == 'q' && s[i + 2] == 'u' && s[i + 3] == 'o' && s[i
        + 4] == 't' && s[i + 5] == ';'
}

pub open spec fn apos_at(s: Seq<char>, i: int) -> bool {
    i + 5 <= s.len() && s[i] == '&' && s[i + 1] == '#' && s[i + 2] == '3' && s[i + 3] == '9' && s[i
        + 4] == ';'
}

/// `s` from position `i` with the five common character entities decoded.
pub open spec fn spec_decode(s: Seq<char>, i: int) -> Seq<char>
    decreases s.len() - i,
{
    if i < 0 || i >= s.len() {
        Seq::empty()
    } else if amp_at(s, i) {
        seq!['&'] + spec_decode(s, i + 5)
    } else if lt_at(s, i) {
        seq!['<'] + spec_decode(s, i + 4)
    } else if gt_at(s, i) {
        seq!['>'] + spec_decode(s, i + 4)
    } else if quot_at(s, i) {
        seq!['"'] + spec_decode(s, i + 6)
    } else if apos_at(s, i) {
        seq!['\''] + spec_decode(s, i + 5)
    } else {
        seq![s[i]] + spec_decode(s, i + 1)
    }
}

/// Drops every markup-sensitive character.
pub open spec fn spec_strip(s: Seq<char>) -> Seq<char>
    decreases s.len(),
{
    if s.len() == 0 {
        Seq::empty()
    } else {
        spec_strip(s.drop_last()) + (if s.last() == '<' || s.last() == '>' || s.last() == '&' {
            Seq::empty()
        } else {
            seq![s.last()]
        })
    }
}

/// What escaping user-visible text yields: entities decoded, then every
/// `<`, `>` and `&` removed.
pub open spec fn spec_html_escape(s: Seq<char>) -> Seq<char> {
    spec_strip(spec_decode(s, 0))
}

/// Decodes the common character entities and strips `<`, `>` and `&`, so
/// the text can stand in markup without being markup.
pub fn html_escape(s: &str) -> (r: String)
    ensures
        r@ == spec_html_escape(s@),
{
    let chars = str_chars(s);
    let n = chars.len();
    let mut decoded: Vec<char> = Vec::new();
    let mut i: usize = 0;
    while i < n
        invariant
            chars@ == s@,
            n == chars@.len(),
            i <= n,
            spec_decode(chars@, 0) == decoded@ + spec_decode(chars@, i as int),
        decreases n - i,
    {
        let ghost pre = decoded@;
        if n - i >= 5 && chars[i] == '&' && chars[i + 1] == 'a' && chars[i + 2] == 'm' && chars[i
            + 3] == 'p' && chars[i + 4] == ';' {
            decoded.push('&');
            i = i + 5;
        } else if n - i >= 4 && chars[i] == '&' && chars[i + 1] == 'l' && chars[i + 2] == 't'
            && chars[i + 3] == ';' {
            decoded.push('<');
            i = i + 4;
        } else if n - i >= 4 && chars[i] == '&' && chars[i + 1] == 'g' && chars[i + 2] == 't'
            && chars[i + 3] == ';' {
            decoded.push('>');
            i = i + 4;
        } else if n - i >= 6 && chars[i] == '&' && chars[i + 1] == 'q' && chars[i + 2] == 'u'
            && chars[i + 3] == 'o' && chars[i + 4] == 't' && chars[i + 5] == ';' {
            decoded.push('"');
            i = i + 6;
        } else if n - i >= 5 && chars[i] == '&' && chars[i + 1] == '#' && chars[i + 2] == '3'
            && chars[i + 3] == '9' && chars[i + 4] == ';' {
            decoded.push('\'');
            i = i + 5;
        } else {
            decoded.push(chars[i]);
            i = i + 1;
        }
        proof {
            assert(decoded@ =~= pre.push(decoded@.last()));
            assert(spec_decode(chars@, 0) =~= decoded@ + spec_decode(chars@, i as int));
        }
    }
    let mut out: Vec<char> = Vec::new();
    let mut j: usize = 0;
    proof {
        assert(out@ =~= spec_strip(decoded@.take(0)));
    }
    while j < decoded.len()
        invariant
            j <= decoded@.len(),
            out@ == spec_strip(decoded@.take(j as int)),
        decreases decoded@.len() - j,
    {
        let ghost pre = decoded@.take(j as int);
        let c = decoded[j];
        if !(c == '<' || c == '>' || c == '&') {
            out.push(c);
        }
        j = j + 1;
        proof {
            let cur = decoded@.take(j as int);
            assert(cur.drop_last() =~= pre);
            assert(cur.last() == decoded@[j - 1]);
            assert(out@ =~= spec_strip(cur));
        }
    }
    proof {
        assert(decoded@.take(decoded@.len() as int) =~= decoded@);
    }
    chars_to_string(&out)
}

// ---------------------------------------------------------------------------
// Thousand separators
// ---------------------------------------------------------------------------

/// Digit groups of three, separated by dots, from the right.
pub open spec fn spec_sep(s: Seq<char>) -> Seq<char>
    decreases s.len(),
{
    if s.len() <= 3 {
        s
    } else {
        spec_sep(s.take(s.len() - 3)) + seq!['.'] + s.skip(s.len() - 3)
    }
}

fn sep_chars(v: &Vec<char>) -> (r: Vec<char>)
    ensures
        r@ == spec_sep(v@),
    decreases v@.len(),
{
    if v.len() <= 3 {
        let r = subvec(v, 0, v.len());
        proof {
            assert(r@ =~= v@);
        }
        r
    } else {
        let front = subvec(v, 0, v.len() - 3);
        proof {
            assert(front@ =~= v@.take(v@.len() - 3));
        }
        let mut r = sep_chars(&front);
        let ghost rpre = r@;
        r.push('.');
        let mut back = subvec(v, v.len() - 3, v.len());
        proof {
            assert(back@ =~= v@.skip(v@.len() - 3));
        }
        let ghost rmid = r@;
        let ghost backv = back@;
        r.append(&mut back);
        proof {
            assert(r@ =~= rmid + backv);
            assert(r@ =~= spec_sep(v@));
        }
        r
    }
}

/// Writes a hit count with `.` as the thousands separator.
pub fn thousand_sep_number(num: usize) -> (r: String)
    ensures
        r@ == spec_sep(spec_decimal(num as int)),
{
    let digits = decimal_string(num as u64);
    let chars = str_chars(digits.as_str());
    let grouped = sep_chars(&chars);
    chars_to_string(&grouped)
}

// ---------------------------------------------------------------------------
// Dates
// ---------------------------------------------------------------------------

/// How a result's update time is shown, given the current time: whole
/// hours (plus one, so a fresh page reads "1 hour ago") under a day, days
/// under thirty, and the calendar date beyond.
pub open spec fn spec_prettify_date(date: u64, now: u64) -> Seq<char> {
    let diff = if now >= date {
        now - date
    } else {
        0
    };
    let num_hours = diff / 3600 + 1;
    if num_hours < 24 {
        if num_hours <= 1 {
            "1 hour ago"@
        } else {
            spec_decimal(num_hours) + " hours ago"@
        }
    } else {
        let num_days = diff / 86400;
        if num_days < 30 {
            if num_days <= 1 {
                "1 day ago"@
            } else {
                spec_decimal(num_days) + " days ago"@
            }
        } else {
            date_text(date as i64)
        }
    }
}

/// Renders a result's update time relative to the current time.
pub fn prettify_date(date: u64, now: u64) -> (r: String)
    ensures
        r@ == spec_prettify_date(date, now),
{
    let diff: u64 = if now >= date {
        now - date
    } else {
        0
    };
    let num_hours = diff / 3600 + 1;
    if num_hours < 24 {
        if num_hours <= 1 {
            String::from_str("1 hour ago")
        } else {
            let d = decimal_string(num_hours);
            d.concat(" hours ago")
        }
    } else {
        let num_days = diff / 86400;
        if num_days < 30 {
            if num_days <= 1 {
                String::from_str("1 day ago")
            } else {
                let d = decimal_string(num_days);
                d.concat(" days ago")
            }
        } else {
            format_date_clamped(date)
        }
    }
}

/// Renders the calendar date of a timestamp that may exceed the signed
/// range.
fn format_date_clamped(date: u64) -> (r: String)
    ensures
        r@ == date_text(date as i64),
{
    format_date(date as i64)
}


// ---------------------------------------------------------------------------
// URLs for display
// ---------------------------------------------------------------------------

/// The first `?` at or after `i`, or the length.
pub open spec fn find_qmark(s: Seq<char>, i: int) -> int
    decreases s.len() - i,
{
    if i < 0 || i >= s.len() {
        s.len() as int
    } else if s[i] == '?' {
        i
    } else {
        find_qmark(s, i + 1)
    }
}

proof fn lemma_find_qmark_at(s: Seq<char>, i: int, j: int)
    requires
        0 <= i <= j <= s.len(),
        forall|k: int| i <= k < j ==> s[k] != '?',
        j == s.len() || s[j] == '?',
    ensures
        find_qmark(s, i) == j,
    decreases j - i,
{
    if i < j {
        lemma_find_qmark_at(s, i + 1, j);
    }
}

/// Each `/` of the displayed part becomes ` › `.
pub open spec fn spec_crumbs(s: Seq<char>) -> Seq<char>
    decreases s.len(),
{
    if s.len() == 0 {
        Seq::empty()
    } else {
        spec_crumbs(s.drop_last()) + (if s.last() == '/' {
            seq![' ', '\u{203a}', ' ']
        } else {
            seq![s.last()]
        })
    }
}

/// A URL as shown under a result: the query part dropped, a trailing slash
/// removed, and the path written as breadcrumbs after the scheme and host.
pub open spec fn spec_prettify_url(s: Seq<char>) -> Seq<char> {
    let t = s.take(find_qmark(s, 0));
    let t2 = if t.len() > 0 && t.last() == '/' {
        t.drop_last()
    } else {
        t
    };
    let hs = spec_host_start(t2);
    t2.take(hs) + spec_crumbs(t2.skip(hs))
}

/// Renders a URL for display under a result.
pub fn prettify_url(url: &str) -> (r: String)
    ensures
        r@ == spec_prettify_url(url@),
{
    let chars = str_chars(url);
    let mut q: usize = 0;
    while q < chars.len() && chars[q] != '?'
        invariant
            q <= chars@.len(),
            forall|k: int| 0 <= k < q ==> chars@[k] != '?',
        decreases chars@.len() - q,
    {
        q = q + 1;
    }
    proof {
        lemma_find_qmark_at(chars@, 0, q as int);
    }
    let stripped = subvec(&chars, 0, q);
    let cut = if stripped.len() > 0 && stripped[stripped.len() - 1] == '/' {
        stripped.len() - 1
    } else {
        stripped.len()
    };
    let t2 = subvec(&stripped, 0, cut);
    proof {
        let t = chars@.take(find_qmark(chars@, 0));
        assert(stripped@ == t);
        if t.len() > 0 && t.last() == '/' {
            assert(t2@ =~= t.drop_last());
        } else {
            assert(t2@ =~= t);
        }
    }
    let hs = crate::webpage::host_start(&t2);
    let head = subvec(&t2, 0, hs);
    proof {
        assert(head@ =~= t2@.take(hs as int));
    }
    let mut out = head;
    let mut i = hs;
    proof {
        assert(out@ =~= t2@.take(hs as int) + spec_crumbs(t2@.skip(hs as int).take(0)));
    }
    while i < t2.len()
        invariant
            hs <= i <= t2@.len(),
            hs as int == spec_host_start(t2@),
            out@ == t2@.take(hs as int) + spec_crumbs(t2@.skip(hs as int).take(i - hs)),
        decreases t2@.len() - i,
    {
        let ghost pre = t2@.skip(hs as int).take(i - hs);
        let c = t2[i];
        if c == '/' {
            out.push(' ');
            out.push('\u{203a}');
            out.push(' ');
        } else {
            out.push(c);
        }
        i = i + 1;
        proof {
            let cur = t2@.skip(hs as int).take(i - hs);
            assert(cur.drop_last() =~= pre);
            assert(cur.last() == t2@[i - 1]);
            assert(out@ =~= t2@.take(hs as int) + spec_crumbs(cur));
        }
    }
    proof {
        assert(t2@.skip(hs as int).take(t2@.len() - hs) =~= t2@.skip(hs as int));
    }
    chars_to_string(&out)
}


} // verus!
