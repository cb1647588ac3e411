use vstd::prelude::*;

verus! {

/// Whether a character has the Unicode `Alphabetic` property.
pub uninterp spec fn unicode_alphabetic(c: char) -> bool;

/// Whether a character belongs to one of the Unicode general categories for
/// numbers.
pub uninterp spec fn unicode_numeric(c: char) -> bool;

/// Whether a character has the Unicode `White_Space` property.
pub uninterp spec fn unicode_whitespace(c: char) -> bool;

/// `char::is_alphabetic` consults the Unicode character database; the answer
/// depends on the character alone and is known here only by name.
pub assume_specification[ char::is_alphabetic ](c: char) -> (r: bool)
    ensures
        r == unicode_alphabetic(c),
;

/// `char::is_numeric` consults the Unicode character database; the answer
/// depends on the character alone and is known here only by name.
pub assume_specification[ char::is_numeric ](c: char) -> (r: bool)
    ensures
        r == unicode_numeric(c),
;

/// `char::is_whitespace` consults the Unicode character database; the answer
/// depends on the character alone and is known here only by name.
pub assume_specification[ char::is_whitespace ](c: char) -> (r: bool)
    ensures
        r == unicode_whitespace(c),
;

/// `String::push` appends one character to the end of the string.
pub assume_specification[ String::push ](s: &mut String, c: char)
    ensures
        final(s)@ == old(s)@.push(c),
;

/// The length of the longest prefix of `text` whose characters all satisfy
/// `keep`.
pub open spec fn run_length(text: Seq<char>, keep: spec_fn(char) -> bool) -> nat
    decreases text.len(),
{
    if text.len() > 0 && keep(text[0]) {
        1 + run_length(text.skip(1), keep)
    } else {
        0
    }
}

/// A run never extends past the end of the text.
pub proof fn lemma_run_length_bounded(text: Seq<char>, keep: spec_fn(char) -> bool)
    ensures
        run_length(text, keep) <= text.len(),
    decreases text.len(),
{
    if text.len() > 0 && keep(text[0]) {
        lemma_run_length_bounded(text.skip(1), keep);
    }
}

/// A run is the only prefix that satisfies `keep` throughout and is followed
/// by the end of the text or by a character that does not.
pub proof fn lemma_run_length_is(text: Seq<char>, keep: spec_fn(char) -> bool, n: int)
    requires
        0 <= n <= text.len(),
        forall|j: int| 0 <= j < n ==> keep(#[trigger] text[j]),
        n == text.len() || !keep(text[n]),
    ensures
        run_length(text, keep) == n,
    decreases text.len(),
{
    if n > 0 {
        let tail = text.skip(1);
        lemma_run_length_is(tail, keep, n - 1);
    }
}

/// Every character of a run satisfies `keep`, and the run stops at the end of
/// the text or at a character that does not.
pub proof fn lemma_run_length_splits(text: Seq<char>, keep: spec_fn(char) -> bool)
    ensures
        run_length(text, keep) <= text.len(),
        forall|j: int| 0 <= j < run_length(text, keep) ==> keep(#[trigger] text[j]),
        run_length(text, keep) == text.len() || !keep(text[run_length(text, keep) as int]),
    decreases text.len(),
{
    if text.len() > 0 && keep(text[0]) {
        let tail = text.skip(1);
        lemma_run_length_splits(tail, keep);
        assert forall|j: int| 0 <= j < run_length(text, keep) implies keep(#[trigger] text[j]) by {
            if j > 0 {
                assert(text[j] == tail[j - 1]);
            }
        }
    }
}

/// The characters of a piece of text, in order.
pub fn characters(text: &str) -> (chars: Vec<char>)
    ensures
        chars@ == text@,
{
    let mut chars: Vec<char> = Vec::new();
    for c in source: text.chars()
        invariant
            chars@ == source.seq().take(source.index@),
    {
        chars.push(c);
    }
    chars
}

/// What a lexing step makes of a piece of text: its result, and the text
/// that is left after it.
pub struct Lexed<T> {
    pub result: Result<T, super::TokenizationError>,
    pub rest: Seq<char>,
}

/// A cursor over the characters of a piece of text. Its view is the text
/// that has not been consumed yet.
pub struct CharIterator {
    chars: Vec<char>,
    position: usize,
}

impl View for CharIterator {
    type V = Seq<char>;

    closed spec fn view(&self) -> Seq<char> {
        self.chars@.skip(self.position as int)
    }
}

impl CharIterator {
    #[verifier::type_invariant]
    spec fn in_bounds(&self) -> bool {
        self.position <= self.chars.len()
    }

    /// A cursor at the start of `text`.
    pub fn new(text: &str) -> (it: Self)
        ensures
            it@ == text@,
    {
        CharIterator { chars: characters(text), position: 0 }
    }

    /// The next character, which stays in place.
    pub fn peek(&self) -> (c: Option<char>)
        ensures
            c == if self@.len() > 0 { Some(self@[0]) } else { None },
    {
        proof {
            use_type_invariant(self);
        }
        if self.position < self.chars.len() {
            Some(self.chars[self.position])
        } else {
            None
        }
    }

    /// The next character, which is consumed.
    pub fn next(&mut self) -> (c: Option<char>)
        ensures
            c == if old(self)@.len() > 0 { Some(old(self)@[0]) } else { None },
            final(self)@ == if old(self)@.len() > 0 { old(self)@.skip(1) } else { old(self)@ },
    {
        proof {
            use_type_invariant(&*self);
        }
        if self.position < self.chars.len() {
            let c = self.chars[self.position];
            self.position = self.position + 1;
            Some(c)
        } else {
            None
        }
    }
}

} // verus!
