//! What holds of the lines of a screen and of the difference between two screens.

use crate::screen_diff;
use crate::text;
use crate::text_laws;
use vstd::prelude::*;

verus! {

/// A screen's lines are its text again with line feeds between them, and no line holds one;
/// an empty screen has no line at all.
pub proof fn the_lines_are_the_screen(screen: Seq<char>)
    ensures
        screen.len() == 0 ==> screen_diff::screen_lines(screen).len() == 0,
        screen.len() > 0 ==> screen_diff::screen_lines(screen).len() > 0,
        text_laws::joined(screen_diff::screen_lines(screen), '\n') == screen,
        forall|i: int|
            0 <= i < screen_diff::screen_lines(screen).len()
                ==> !(#[trigger] screen_diff::screen_lines(screen)[i]).contains('\n'),
{
    lemma_same_split(screen);
    text_laws::splitting_loses_nothing(screen, '\n');
    if screen.len() == 0 {
        assert(text_laws::joined(screen_diff::screen_lines(screen), '\n') =~= screen);
    }
}

proof fn lemma_same_split(s: Seq<char>)
    ensures
        screen_diff::split_lines(s) == text::split_on(s, '\n'),
    decreases s.len(),
{
    if s.len() > 0 {
        lemma_same_split(s.drop_last());
    }
}

/// Screens that are the same differ in nothing; one that is all new counts every line as
/// added, and one that is all gone every line as removed.
pub proof fn a_summary_counts_the_lines(before: Seq<char>, after: Seq<char>)
    ensures
        screen_diff::added_between(before, before) == 0,
        screen_diff::removed_between(before, before) == 0,
        screen_diff::added_between(seq![], after) == screen_diff::screen_lines(after).len(),
        screen_diff::removed_between(seq![], after) == 0,
        screen_diff::removed_between(before, seq![]) == screen_diff::screen_lines(before).len(),
        screen_diff::added_between(before, seq![]) == 0,
        screen_diff::added_between(before, after) <= screen_diff::screen_lines(after).len(),
        screen_diff::removed_between(before, after) <= screen_diff::screen_lines(before).len(),
{
    let b = screen_diff::screen_lines(before);
    let a = screen_diff::screen_lines(after);
    lemma_common_own(b);
    lemma_common_bounds(b, a);
    lemma_common_bounds(b, seq![]);
    lemma_common_bounds(seq![], a);
}

proof fn lemma_common_own(a: Seq<Seq<char>>)
    ensures
        screen_diff::longest_common(a, a) == a.len(),
    decreases a.len(),
{
    if a.len() > 0 {
        lemma_common_own(a.drop_last());
    }
}

proof fn lemma_common_bounds(a: Seq<Seq<char>>, b: Seq<Seq<char>>)
    ensures
        screen_diff::longest_common(a, b) <= a.len(),
        screen_diff::longest_common(a, b) <= b.len(),
    decreases a.len() + b.len(),
{
    if a.len() > 0 && b.len() > 0 {
        lemma_common_bounds(a.drop_last(), b.drop_last());
        lemma_common_bounds(a.drop_last(), b);
        lemma_common_bounds(a, b.drop_last());
    }
}

} // verus!
