use koshell::screen_diff::{
    diff_from_ops, diff_screen_text, split_screen_lines, summarize_screen_diff, HunkLineKind,
    LineOp, ScreenDiffHunk, ScreenDiffHunkLine, ScreenDiffSummary,
};

#[test]
fn reports_no_changes_for_identical_screens() {
    assert_eq!(
        summarize_screen_diff("one\ntwo", "one\ntwo"),
        ScreenDiffSummary {
            added_lines: 0,
            removed_lines: 0,
            changed_lines: 0,
        }
    );
    assert!(diff_screen_text("one\ntwo", "one\ntwo").hunks.is_empty());
}

#[test]
fn counts_added_and_removed_lines() {
    assert_eq!(
        summarize_screen_diff("one\ntwo\nthree", "zero\none\nthree\nfour"),
        ScreenDiffSummary {
            added_lines: 2,
            removed_lines: 1,
            changed_lines: 3,
        }
    );
}

#[test]
fn returns_detailed_hunks() {
    let diff = diff_screen_text("one\ntwo\nthree", "one\nTWO\nthree\nfour");
    assert_eq!(diff.added_lines, 2);
    assert_eq!(diff.removed_lines, 1);
    assert_eq!(diff.changed_lines, 3);
    assert_eq!(
        diff.hunks,
        vec![
            ScreenDiffHunk {
                old_start: 2,
                old_lines: 1,
                new_start: 2,
                new_lines: 1,
                lines: vec![
                    ScreenDiffHunkLine {
                        kind: HunkLineKind::Removed,
                        line: "two".to_string(),
                        old_line_number: Some(2),
                        new_line_number: None,
                    },
                    ScreenDiffHunkLine {
                        kind: HunkLineKind::Added,
                        line: "TWO".to_string(),
                        old_line_number: None,
                        new_line_number: Some(2),
                    },
                ],
            },
            ScreenDiffHunk {
                old_start: 4,
                old_lines: 0,
                new_start: 4,
                new_lines: 1,
                lines: vec![ScreenDiffHunkLine {
                    kind: HunkLineKind::Added,
                    line: "four".to_string(),
                    old_line_number: None,
                    new_line_number: Some(4),
                }],
            },
        ]
    );
}

#[test]
fn treats_empty_screen_as_no_lines() {
    let added = diff_screen_text("", "first");
    assert_eq!(added.added_lines, 1);
    assert_eq!(added.removed_lines, 0);
    assert_eq!(added.changed_lines, 1);

    let removed = diff_screen_text("first", "");
    assert_eq!(removed.added_lines, 0);
    assert_eq!(removed.removed_lines, 1);
    assert_eq!(removed.changed_lines, 1);
}

#[test]
fn screens_split_into_lines() {
    assert!(split_screen_lines("").is_empty());
    assert_eq!(split_screen_lines("one\n\ntwo"), vec!["one", "", "two"]);
}

#[test]
fn a_diff_follows_from_the_operations_alone() {
    let old = split_screen_lines("a\nb");
    let new = split_screen_lines("a\nc\nd");
    let diff = diff_from_ops(
        &vec![
            LineOp::Equal {
                old_index: 0,
                new_index: 0,
                len: 1,
            },
            LineOp::Replace {
                old_index: 1,
                old_len: 1,
                new_index: 1,
                new_len: 2,
            },
        ],
        &old,
        &new,
    );
    assert_eq!(
        (diff.added_lines, diff.removed_lines, diff.changed_lines),
        (2, 1, 3)
    );
    assert_eq!(diff.hunks.len(), 1);
    assert_eq!(diff.hunks[0].old_start, 2);
    assert_eq!(diff.hunks[0].new_lines, 2);
}

/// The lists of at most `longest` lines out of some.
fn lists(lines: &[&str], longest: usize) -> Vec<Vec<String>> {
    let mut all = vec![Vec::new()];
    let mut last = all.clone();
    for _ in 0..longest {
        last = last
            .iter()
            .flat_map(|list: &Vec<String>| {
                lines.iter().map(|line| {
                    let mut longer = list.clone();
                    longer.push(line.to_string());
                    longer
                })
            })
            .collect();
        all.extend(last.clone());
    }
    all
}

fn longest_common(a: &[String], b: &[String]) -> usize {
    let mut row = vec![0; b.len() + 1];
    for x in a {
        let mut next = vec![0];
        for (j, y) in b.iter().enumerate() {
            next.push(if x == y {
                row[j] + 1
            } else {
                row[j + 1].max(next[j])
            });
        }
        row = next;
    }
    row[b.len()]
}

/// Checks the diff of two lists of lines: shortest, removed lines first, and the hunks
/// applied to the old lines give the new ones.
fn check_diff(old: &[String], new: &[String]) {
    let diff = diff_screen_text(&old.join("\n"), &new.join("\n"));
    let kept = longest_common(old, new);
    assert_eq!(diff.removed_lines, old.len() - kept, "{old:?} {new:?}");
    assert_eq!(diff.added_lines, new.len() - kept, "{old:?} {new:?}");
    let mut applied = Vec::new();
    let mut at = 0;
    for hunk in &diff.hunks {
        applied.extend_from_slice(&old[at..hunk.old_start - 1]);
        at = hunk.old_start - 1 + hunk.old_lines;
        assert_eq!(hunk.lines.len(), hunk.old_lines + hunk.new_lines);
        for (i, line) in hunk.lines.iter().enumerate() {
            let removed = line.kind == HunkLineKind::Removed;
            assert_eq!(removed, i < hunk.old_lines, "{old:?} {new:?}");
            if !removed {
                applied.push(line.line.clone());
            }
        }
    }
    applied.extend_from_slice(&old[at..]);
    assert_eq!(applied, new, "{old:?}");
}

#[test]
fn every_short_diff_is_shortest_and_applies() {
    for screens in [lists(&["a", "b", "c"], 4), lists(&["a", "b"], 6)] {
        for old in &screens {
            for new in &screens {
                check_diff(old, new);
            }
        }
    }
}

#[test]
fn swapping_the_screens_swaps_the_counts() {
    let (before, after) = ("one\ntwo\nthree\ntwo", "two\nfour\none\ntwo\nfive");
    let there = summarize_screen_diff(before, after);
    let back = summarize_screen_diff(after, before);
    assert_eq!((there.added_lines, there.removed_lines), (3, 2));
    assert_eq!((back.added_lines, back.removed_lines), (2, 3));
    assert_eq!(there.changed_lines, back.changed_lines);
}
