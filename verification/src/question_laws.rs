//! What holds of questions: which lines ask one, and which only quote one.

use crate::question;
use crate::question::Parity;
use crate::text;
use vstd::prelude::*;

verus! {

/// Whether a text holds neither quotes nor backslashes.
pub open spec fn unquoted(s: Seq<char>) -> bool {
    forall|i: int| 0 <= i < s.len() ==> #[trigger] s[i] != '\'' && s[i] != '"' && s[i] != '\\'
}

/// Whether a text holds no `#?`.
pub open spec fn tokenless(s: Seq<char>) -> bool {
    forall|i: int| 0 <= i < s.len() - 1 && #[trigger] s[i] == '#' ==> s[i + 1] != '?'
}

/// A plain line is split at its first `#?`: what stands before it stays as it is, and
/// everything behind it is the question, without the whitespace around it.
pub proof fn a_plain_line_asks_behind_its_token(left: Seq<char>, rest: Seq<char>)
    requires
        unquoted(left),
        tokenless(left),
    ensures
        question::split(left + seq!['#', '?'] + rest) == Some((left, text::trim(rest))),
{
    let line = left + seq!['#', '?'] + rest;
    let n = left.len() as int;
    lemma_start(left);
    lemma_plain(outside(), left);
    assert(line.take(n) =~= left);
    assert(question::asks_at(line, n));
    assert forall|j: int| 0 <= j < n implies !question::asks_at(line, j) by {
        if line[j] == '#' && line[j + 1] == '?' {
            assert(left[j] == '#');
            if j + 1 < n {
                assert(left[j + 1] == '?');
            }
        }
    }
    question::the_first_unquoted_token_splits(line, n);
    assert(line.skip(n + 2) =~= rest);
}

/// A line without a `#?` asks nothing, quoted or not.
pub proof fn a_line_without_a_token_asks_nothing(line: Seq<char>)
    requires
        tokenless(line),
    ensures
        question::split(line) is None,
{
    assert forall|j: int| 0 <= j < line.len() implies !question::asks_at(line, j) by {
        if question::asks_at(line, j) {
            assert(line[j] == '#');
        }
    }
    lemma_nothing_asked(line, line.len() as int);
}

/// A `#?` between quotes asks nothing: whatever stands there, without the closing quote
/// itself, and in double quotes without a backslash.
pub proof fn a_quoted_token_asks_nothing(
    before: Seq<char>,
    quote: char,
    inside: Seq<char>,
    after: Seq<char>,
)
    requires
        quote == '\'' || quote == '"',
        unquoted(before),
        tokenless(before),
        !inside.contains(quote),
        quote == '"' ==> !inside.contains('\\'),
        unquoted(after),
        tokenless(after),
    ensures
        question::split(before + seq![quote] + inside + seq![quote] + after) is None,
{
    let line = before + seq![quote] + inside + seq![quote] + after;
    let n = before.len() as int;
    let m = n + 1 + inside.len() as int;
    assert forall|j: int| 0 <= j < line.len() implies !question::asks_at(line, j) by {
        if line[j] == '#' && j + 1 < line.len() && line[j + 1] == '?' {
            if j < n {
                assert(before[j] == '#');
                if j + 1 < n {
                    assert(before[j + 1] == '?');
                }
            } else if j < m {
                let part = inside.take(j - n - 1);
                assert(line.take(j) =~= before + (seq![quote] + part));
                lemma_start(before + (seq![quote] + part));
                lemma_parity_over(outside(), before, seq![quote] + part);
                lemma_plain(outside(), before);
                lemma_within(quote, part, inside);
            } else {
                assert(after[j - m - 1] == '#');
                assert(after[j - m] == '?');
            }
        }
    }
    lemma_nothing_asked(line, line.len() as int);
}

/// A `#` behind a backslash does not begin a question.
pub proof fn an_escaped_token_asks_nothing(before: Seq<char>, after: Seq<char>)
    requires
        unquoted(before),
        tokenless(before),
        tokenless(after),
    ensures
        question::split(before + seq!['\\', '#', '?'] + after) is None,
{
    let line = before + seq!['\\', '#', '?'] + after;
    let n = before.len() as int;
    assert forall|j: int| 0 <= j < line.len() implies !question::asks_at(line, j) by {
        if line[j] == '#' && j + 1 < line.len() && line[j + 1] == '?' {
            if j < n {
                assert(before[j] == '#');
                if j + 1 < n {
                    assert(before[j + 1] == '?');
                }
            } else if j == n + 1 {
                assert(line.take(j) =~= before + seq!['\\']);
                lemma_start(before + seq!['\\']);
                lemma_parity_over(outside(), before, seq!['\\']);
                lemma_plain(outside(), before);
                lemma_one(outside(), '\\');
            } else {
                assert(after[j - n - 3] == '#');
                assert(after[j - n - 2] == '?');
            }
        }
    }
    lemma_nothing_asked(line, line.len() as int);
}

/// Outside quotes, with nothing escaped.
spec fn outside() -> Parity {
    Parity { single: false, double: false, escaped: false }
}

/// Where a line stands with regard to its quotes some text further.
spec fn over(p: Parity, s: Seq<char>) -> Parity
    decreases s.len(),
{
    if s.len() == 0 {
        p
    } else {
        over(p, s.drop_last()).step(s.last())
    }
}

proof fn lemma_one(p: Parity, c: char)
    ensures
        over(p, seq![c]) == p.step(c),
{
    let s = seq![c];
    assert(s.drop_last().len() == 0);
    assert(over(p, s.drop_last()) == p);
}

proof fn lemma_start(s: Seq<char>)
    ensures
        question::parity(s) == over(outside(), s),
    decreases s.len(),
{
    if s.len() > 0 {
        lemma_start(s.drop_last());
    }
}

proof fn lemma_parity_over(p: Parity, s: Seq<char>, t: Seq<char>)
    ensures
        over(p, s + t) == over(over(p, s), t),
    decreases t.len(),
{
    if t.len() == 0 {
        assert(s + t =~= s);
    } else {
        lemma_parity_over(p, s, t.drop_last());
        assert((s + t).drop_last() =~= s + t.drop_last());
        assert((s + t).last() == t.last());
    }
}

proof fn lemma_plain(p: Parity, s: Seq<char>)
    requires
        p == outside(),
        unquoted(s),
    ensures
        over(p, s) == p,
    decreases s.len(),
{
    if s.len() > 0 {
        let init = s.drop_last();
        assert forall|i: int| 0 <= i < init.len() implies #[trigger] init[i] != '\'' && init[i]
            != '"' && init[i] != '\\' by {
            assert(init[i] == s[i]);
        }
        lemma_plain(p, init);
        assert(s.last() == s[s.len() - 1]);
    }
}

proof fn lemma_within(quote: char, part: Seq<char>, inside: Seq<char>)
    requires
        quote == '\'' || quote == '"',
        part.is_prefix_of(inside),
        !inside.contains(quote),
        quote == '"' ==> !inside.contains('\\'),
    ensures
        over(outside(), seq![quote] + part) == (Parity {
            single: quote == '\'',
            double: quote == '"',
            escaped: false,
        }),
    decreases part.len(),
{
    let s = seq![quote] + part;
    if part.len() == 0 {
        assert(s =~= seq![quote]);
        lemma_one(outside(), quote);
    } else {
        let init = part.drop_last();
        assert(part == inside.subrange(0, part.len() as int));
        assert(init =~= inside.subrange(0, init.len() as int));
        lemma_within(quote, init, inside);
        assert(s.drop_last() =~= seq![quote] + init);
        let c = part.last();
        assert(s.last() == c);
        assert(inside[part.len() - 1] == c);
        assert(inside.contains(c));
    }
}

proof fn lemma_nothing_asked(line: Seq<char>, n: int)
    requires
        n <= line.len(),
        forall|j: int| 0 <= j < line.len() ==> !question::asks_at(line, j),
    ensures
        question::token_before(line, n) is None,
    decreases n,
{
    if n > 0 {
        lemma_nothing_asked(line, n - 1);
    }
}

} // verus!
