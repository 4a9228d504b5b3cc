//! Highlighted text: a string together with the fragments it was built
//! from, each normal or highlighted, kept as index ranges into the string.

use vstd::prelude::*;

verus! {

#[derive(Debug, Clone, Copy, PartialEq, Eq, Structural)]
pub enum HighlightedKind {
    Normal,
    Highlighted,
}

/// One fragment of highlighted text: its kind and its text, either owned
/// (`String`) or as a range into the assembled string.
#[derive(Debug, Clone)]
pub struct HighlightedFragment<T = String> {
    pub kind: HighlightedKind,
    pub text: T,
}

impl<T> HighlightedFragment<T> {
    pub fn new_unhighlighted(text: T) -> (r: HighlightedFragment<T>)
        ensures
            r.kind == HighlightedKind::Normal,
            r.text == text,
    {
        Self::new_normal(text)
    }

    pub fn new_normal(text: T) -> (r: HighlightedFragment<T>)
        ensures
            r.kind == HighlightedKind::Normal,
            r.text == text,
    {
        HighlightedFragment { kind: HighlightedKind::Normal, text }
    }

    pub fn new_highlighted(text: T) -> (r: HighlightedFragment<T>)
        ensures
            r.kind == HighlightedKind::Highlighted,
            r.text == text,
    {
        HighlightedFragment { kind: HighlightedKind::Highlighted, text }
    }
}

impl HighlightedFragment<String> {
    pub fn text(&self) -> (r: &String)
        ensures
            r == &self.text,
    {
        &self.text
    }
}

/// Assembled highlighted text: the concatenation of the pushed fragments,
/// each remembered as a `(start, end)` range into `text`.
#[derive(Debug, Clone)]
pub struct Highlighted {
    pub text: String,
    pub fragments: Vec<HighlightedFragment<(usize, usize)>>,
}

impl Highlighted {
    /// Every fragment range lies within the text, in order.
    pub open spec fn wf(&self) -> bool {
        forall|i: int|
            0 <= i < self.fragments@.len() ==> {
                let f = #[trigger] self.fragments@[i];
                f.text.0 <= f.text.1 <= self.text@.len()
            }
    }

    pub fn new() -> (r: Highlighted)
        ensures
            r.text@ == Seq::<char>::empty(),
            r.fragments@.len() == 0,
            r.wf(),
    {
        Highlighted { text: String::new(), fragments: Vec::new() }
    }

    /// Appends a fragment: its text extends the assembled string and its
    /// range records where it landed.
    pub fn push(&mut self, fragment: HighlightedFragment<String>)
        requires
            old(self).wf(),
            old(self).text@.len() + fragment.text@.len() <= usize::MAX,
        ensures
            final(self).text@ == old(self).text@ + fragment.text@,
            final(self).fragments@.len() == old(self).fragments@.len() + 1,
            final(self).fragments@.take(old(self).fragments@.len() as int) == old(
                self,
            ).fragments@,
            final(self).fragments@.last().kind == fragment.kind,
            final(self).fragments@.last().text.0 == old(self).text@.len(),
            final(self).fragments@.last().text.1 == final(self).text@.len(),
            final(self).wf(),
    {
        let start_chars = text_char_len(&self.text);
        let frag_chars = text_char_len(&fragment.text);
        self.text.append(fragment.text.as_str());
        let end_chars = start_chars + frag_chars;
        let ghost pre = self.fragments@;
        self.fragments.push(
            HighlightedFragment { kind: fragment.kind, text: (start_chars, end_chars) },
        );
        proof {
            assert(self.fragments@.take(pre.len() as int) =~= pre);
        }
    }

    pub fn is_empty(&self) -> (r: bool)
        ensures
            r == (self.text@.len() == 0),
    {
        self.text.as_str().is_empty()
    }
}

/// The length of a string in characters.
fn text_char_len(s: &String) -> (r: usize)
    ensures
        r == s@.len(),
{
    s.as_str().unicode_len()
}

} // verus!
