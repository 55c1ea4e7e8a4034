//! `#?` questions: finding one in a line, and what form it took.

use crate::text;
use crate::text::{chars_of, end_trimmed, start_trimmed, string_of};
use vstd::prelude::*;
use vstd::slice::slice_subrange;

verus! {

/// Which of the two emergent `#?` forms a question took. One firing rule covers both;
/// this is annotation for the AI, not a code path selector.
#[derive(Debug, Clone, Copy, PartialEq, Eq, Structural)]
pub enum TriggerForm {
    Standalone,
    Inline,
}

/// A line split at its first `#?` outside quotes.
#[derive(Debug, Clone, PartialEq, Eq)]
pub struct QuestionSplit {
    pub left: String,
    pub question: String,
}

/// Whether a character is a letter or a digit.
pub uninterp spec fn is_word(c: char) -> bool;

/// Whether a character is a letter or a digit of ASCII.
pub open spec fn is_ascii_word(c: char) -> bool {
    '0' <= c <= '9' || 'A' <= c <= 'Z' || 'a' <= c <= 'z'
}

/// Whether a text holds nothing but ASCII.
pub open spec fn is_ascii_text(s: Seq<char>) -> bool {
    forall|i: int| 0 <= i < s.len() ==> #[trigger] s[i] as u32 <= 0x7F
}

/// `char::is_alphanumeric`: whether Unicode counts a character as a letter or a number.
/// Among the ASCII characters these are the letters and digits; the rest of Unicode's
/// tables is not spelled out.
pub assume_specification[ char::is_alphanumeric ](c: char) -> (r: bool)
    ensures
        r == is_word(c),
        c as u32 <= 0x7F ==> r == is_ascii_word(c),
;

/// Where a line stands with regard to its quotes.
pub struct Parity {
    pub single: bool,
    pub double: bool,
    /// The next character is taken literally.
    pub escaped: bool,
}

impl Parity {
    /// Outside quotes, with nothing escaped.
    pub open spec fn plain(self) -> bool {
        !self.single && !self.double && !self.escaped
    }

    /// One character further.
    pub open spec fn step(self, c: char) -> Parity {
        if self.escaped {
            Parity { escaped: false, ..self }
        } else if c == '\\' && !self.single {
            Parity { escaped: true, ..self }
        } else if c == '\'' && !self.double {
            Parity { single: !self.single, ..self }
        } else if c == '"' && !self.single {
            Parity { double: !self.double, ..self }
        } else {
            self
        }
    }
}

/// Where a line stands with regard to its quotes behind some text.
pub open spec fn parity(s: Seq<char>) -> Parity
    decreases s.len(),
{
    if s.len() == 0 {
        Parity { single: false, double: false, escaped: false }
    } else {
        parity(s.drop_last()).step(s.last())
    }
}

/// Whether a `#?` outside quotes stands at `i`.
pub open spec fn asks_at(line: Seq<char>, i: int) -> bool {
    &&& 0 <= i
    &&& i + 1 < line.len()
    &&& line[i] == '#'
    &&& line[i + 1] == '?'
    &&& parity(line.take(i)).plain()
}

/// The first `#?` outside quotes that begins before `n`.
pub open spec fn token_before(line: Seq<char>, n: int) -> Option<int>
    decreases n,
{
    if n <= 0 {
        None
    } else {
        match token_before(line, n - 1) {
            Some(i) => Some(i),
            None => if asks_at(line, n - 1) {
                Some(n - 1)
            } else {
                None
            },
        }
    }
}

/// What stands left of a line's question, and the question.
pub open spec fn split(line: Seq<char>) -> Option<(Seq<char>, Seq<char>)> {
    match token_before(line, line.len() as int) {
        Some(i) => Some((line.take(i), text::trim(line.skip(i + 2)))),
        None => None,
    }
}

/// The form of a question with `left` before it: standalone where there is no word
/// character.
pub open spec fn form_of(left: Seq<char>) -> TriggerForm {
    let t = text::trim(left);
    if forall|i: int| 0 <= i < t.len() ==> !is_word(#[trigger] t[i]) {
        TriggerForm::Standalone
    } else {
        TriggerForm::Inline
    }
}

/// How a form is named on the wire.
pub open spec fn form_name(form: TriggerForm) -> Seq<char> {
    match form {
        TriggerForm::Standalone => "standalone"@,
        TriggerForm::Inline => "inline"@,
    }
}

/// A line is split at the first `#?` outside quotes, and at no other place.
pub proof fn the_first_unquoted_token_splits(line: Seq<char>, i: int)
    requires
        asks_at(line, i),
        forall|j: int| 0 <= j < i ==> !asks_at(line, j),
    ensures
        split(line) == Some((line.take(i), text::trim(line.skip(i + 2)))),
{
    lemma_none_before(line, i);
    lemma_token_stays(line, i + 1, line.len() as int);
}

proof fn lemma_none_before(line: Seq<char>, n: int)
    requires
        forall|j: int| 0 <= j < n ==> !asks_at(line, j),
    ensures
        token_before(line, n) is None,
    decreases n,
{
    if n > 0 {
        lemma_none_before(line, n - 1);
    }
}

/// A `#?` that is wholly inside quotes never asks: where every character of a line lies
/// behind an open quote or an escape, there is no question in it.
pub proof fn quoted_lines_ask_nothing(line: Seq<char>)
    requires
        forall|i: int| 0 <= i < line.len() && line[i] == '#' ==> !parity(#[trigger] line.take(i)).plain(),
    ensures
        split(line) is None,
{
    lemma_no_token(line, line.len() as int);
}

proof fn lemma_no_token(line: Seq<char>, n: int)
    requires
        n <= line.len(),
        forall|i: int| 0 <= i < line.len() && line[i] == '#' ==> !parity(#[trigger] line.take(i)).plain(),
    ensures
        token_before(line, n) is None,
    decreases n,
{
    if n > 0 {
        lemma_no_token(line, n - 1);
        assert(!asks_at(line, n - 1)) by {
            let prefix = line.take(n - 1);
        }
    }
}

proof fn lemma_token_stays(line: Seq<char>, n: int, m: int)
    requires
        token_before(line, n) is Some,
        n <= m,
    ensures
        token_before(line, m) == token_before(line, n),
    decreases m - n,
{
    if n < m {
        lemma_token_stays(line, n, m - 1);
    }
}

impl TriggerForm {
    pub fn as_str(self) -> (r: &'static str)
        ensures
            r@ == form_name(self),
    {
        match self {
            TriggerForm::Standalone => "standalone",
            TriggerForm::Inline => "inline",
        }
    }
}

/// Extracts a `#?` question from a line, tracking quote parity (single quote, double
/// quote, backslash: the common lexical subset across shells and REPL languages), so
/// that `echo "#? not a question"` does not trigger. Heredocs and triple quotes are
/// accepted misses.
pub fn extract_question(line: &str) -> (r: Option<QuestionSplit>)
    ensures
        match split(line@) {
            Some(parts) => r is Some && (r->0.left@, r->0.question@) == parts,
            None => r is None,
        },
{
    let chars = chars_of(line);
    let mut in_single = false;
    let mut in_double = false;
    let mut escaped = false;
    let mut i: usize = 0;
    while i < chars.len()
        invariant
            chars@ == line@,
            i <= chars.len(),
            token_before(line@, i as int) is None,
            parity(line@.take(i as int)) == (Parity {
                single: in_single,
                double: in_double,
                escaped,
            }),
        decreases chars.len() - i,
    {
        let c = chars[i];
        assert(line@.take(i + 1).drop_last() =~= line@.take(i as int));
        assert(line@.take(i + 1).last() == c);
        if escaped {
            escaped = false;
        } else if c == '\\' && !in_single {
            escaped = true;
        } else if c == '\'' && !in_double {
            in_single = !in_single;
        } else if c == '"' && !in_single {
            in_double = !in_double;
        } else if c == '#' && !in_single && !in_double && chars.len() - i >= 2 && chars[i + 1]
            == '?' {
            proof {
                lemma_token_stays(line@, i + 1, line@.len() as int);
            }
            let left = string_of(slice_subrange(chars.as_slice(), 0, i));
            let rest = slice_subrange(chars.as_slice(), i + 2, chars.len());
            assert(rest@ =~= line@.skip(i + 2));
            assert(left@ =~= line@.take(i as int));
            let start: usize = start_trimmed(rest);
            let end: usize = end_trimmed(rest, start);
            let question = string_of(slice_subrange(rest, start, end));
            return Some(QuestionSplit { left, question });
        }
        i += 1;
    }
    None
}

/// Standalone when the left part is empty or carries no word characters (only a comment
/// prefix such as `//` or `--`, or a bare prompt); inline otherwise. Annotation only.
pub fn question_form(left: &str) -> (r: TriggerForm)
    ensures
        r == form_of(left@),
        is_ascii_text(left@) ==> (r is Inline <==> exists|i: int|
            0 <= i < left@.len() && is_ascii_word(#[trigger] left@[i])),
{
    let trimmed = text::trimmed(left);
    let chars = chars_of(trimmed.as_str());
    let ghost t = text::trim(left@);
    let mut i: usize = 0;
    while i < chars.len()
        invariant
            i <= chars.len(),
            chars@ == t,
            t == text::trim(left@),
            forall|j: int| 0 <= j < i ==> !is_word(#[trigger] t[j]),
            is_ascii_text(left@) ==> forall|j: int| 0 <= j < i ==> !is_ascii_word(#[trigger] t[j]),
        decreases chars.len() - i,
    {
        proof {
            text::lemma_trim_keeps(left@, t[i as int]);
            assert(t.contains(t[i as int]));
        }
        if chars[i].is_alphanumeric() {
            assert(is_word(t[i as int]));
            return TriggerForm::Inline;
        }
        i += 1;
    }
    proof {
        if is_ascii_text(left@) {
            assert forall|k: int| 0 <= k < left@.len() implies !is_ascii_word(
                #[trigger] left@[k],
            ) by {
                text::lemma_trim_keeps(left@, left@[k]);
                if is_ascii_word(left@[k]) {
                    assert(t.contains(left@[k]));
                }
            }
        }
    }
    TriggerForm::Standalone
}

} // verus!
