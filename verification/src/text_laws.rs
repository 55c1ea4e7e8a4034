//! What holds of the texts that everything else is made of.

use crate::paths;
use crate::text;
use vstd::prelude::*;

verus! {

/// A number reads back from its numeral.
pub proof fn numerals_read_back(n: nat)
    ensures
        text::digits_value(text::decimal(n)) == Some(n),
        text::unsigned_value(text::decimal(n)) == Some(n),
        text::decimal(n).len() > 0,
        forall|i: int|
            0 <= i < text::decimal(n).len() ==> '0' <= #[trigger] text::decimal(n)[i] <= '9',
    decreases n,
{
    let s = text::decimal(n);
    if n >= 10 {
        numerals_read_back(n / 10);
        assert(s.drop_last() =~= text::decimal(n / 10));
        assert(s.last() == text::digit(n % 10));
        assert forall|i: int| 0 <= i < s.len() implies '0' <= #[trigger] s[i] <= '9' by {
            if i < s.len() - 1 {
                assert(s[i] == text::decimal(n / 10)[i]);
            }
        }
    }
    assert(s[0] != '+');
}

/// A negative number reads back with its sign.
pub proof fn signed_numerals_read_back(n: int)
    ensures
        text::signed_value(text::signed_decimal(n)) == Some(n),
{
    reveal_strlit("-");
    if n < 0 {
        let s = text::signed_decimal(n);
        numerals_read_back((-n) as nat);
        assert(s.skip(1) =~= text::decimal((-n) as nat));
    } else {
        numerals_read_back(n as nat);
    }
}

/// Trimming takes whitespace from both ends and nothing else: what is left is one piece of
/// the text, with whitespace alone around it and none at its ends.
pub proof fn trimming_takes_whitespace_alone(s: Seq<char>) -> (at: int)
    ensures
        ({
            let t = text::trim(s);
            &&& 0 <= at <= s.len() - t.len()
            &&& t == s.subrange(at, at + t.len())
            &&& forall|i: int| 0 <= i < at ==> text::is_space(#[trigger] s[i])
            &&& forall|i: int| at + t.len() <= i < s.len() ==> text::is_space(#[trigger] s[i])
            &&& t.len() > 0 ==> !text::is_space(t[0]) && !text::is_space(t.last())
            &&& t.len() == 0 ==> forall|i: int| 0 <= i < s.len() ==> text::is_space(#[trigger] s[i])
        }),
{
    let k = lemma_trim_start(s);
    let rest = text::trim_start(s);
    let n = trimming_the_end_takes_whitespace_alone(rest);
    let t = text::trim(s);
    assert(t == rest.take(n));
    assert(t =~= s.subrange(k, k + t.len()));
    assert forall|i: int| k + t.len() <= i < s.len() implies text::is_space(#[trigger] s[i]) by {
        assert(rest[i - k] == s[i]);
    }
    if t.len() > 0 {
        assert(t[0] == rest[0]);
    }
    if t.len() == 0 && rest.len() > 0 {
        assert(text::is_space(rest[0]));
    }
    k
}

proof fn lemma_trim_start(s: Seq<char>) -> (k: int)
    ensures
        0 <= k <= s.len(),
        text::trim_start(s) == s.skip(k),
        forall|i: int| 0 <= i < k ==> text::is_space(#[trigger] s[i]),
        k < s.len() ==> !text::is_space(s[k]),
    decreases s.len(),
{
    if s.len() > 0 && text::is_space(s[0]) {
        let rest = s.drop_first();
        let k = lemma_trim_start(rest);
        assert(rest.skip(k) =~= s.skip(k + 1));
        assert forall|i: int| 0 <= i < k + 1 implies text::is_space(#[trigger] s[i]) by {
            if i > 0 {
                assert(rest[i - 1] == s[i]);
            }
        }
        if k < rest.len() {
            assert(rest[k] == s[k + 1]);
        }
        k + 1
    } else {
        assert(s.skip(0) =~= s);
        0
    }
}

/// Trimming at the end takes the whitespace there and nothing else.
pub proof fn trimming_the_end_takes_whitespace_alone(s: Seq<char>) -> (n: int)
    ensures
        0 <= n <= s.len(),
        text::trim_end(s) == s.take(n),
        forall|i: int| n <= i < s.len() ==> text::is_space(#[trigger] s[i]),
        n > 0 ==> !text::is_space(s[n - 1]),
    decreases s.len(),
{
    if s.len() > 0 && text::is_space(s.last()) {
        let rest = s.drop_last();
        let n = trimming_the_end_takes_whitespace_alone(rest);
        assert(rest.take(n) =~= s.take(n));
        assert forall|i: int| n <= i < s.len() implies text::is_space(#[trigger] s[i]) by {
            if i < rest.len() {
                assert(rest[i] == s[i]);
            }
        }
        if n > 0 {
            assert(rest[n - 1] == s[n - 1]);
        }
        n
    } else {
        assert(s.take(s.len() as int) =~= s);
        s.len() as int
    }
}

/// The parts of a text with the separator between them.
pub open spec fn joined(parts: Seq<Seq<char>>, separator: char) -> Seq<char>
    decreases parts.len(),
{
    if parts.len() == 0 {
        seq![]
    } else if parts.len() == 1 {
        parts[0]
    } else {
        joined(parts.drop_last(), separator).push(separator) + parts.last()
    }
}

/// Splitting loses nothing: joined with the separator, the parts are the text again, and no
/// part holds the separator.
pub proof fn splitting_loses_nothing(s: Seq<char>, separator: char)
    ensures
        text::split_on(s, separator).len() > 0,
        joined(text::split_on(s, separator), separator) == s,
        forall|i: int|
            0 <= i < text::split_on(s, separator).len() ==> !(#[trigger] text::split_on(
                s,
                separator,
            )[i]).contains(separator),
    decreases s.len(),
{
    let all = text::split_on(s, separator);
    if s.len() == 0 {
        assert(joined(all, separator) =~= s);
    } else {
        let init = s.drop_last();
        splitting_loses_nothing(init, separator);
        let parts = text::split_on(init, separator);
        if s.last() == separator {
            assert(all.drop_last() =~= parts);
            assert(joined(all, separator) =~= joined(parts, separator).push(separator));
            assert(joined(all, separator) =~= s);
        } else {
            let last = parts.last().push(s.last());
            assert(all.drop_last() =~= parts.drop_last());
            if parts.len() == 1 {
                assert(all[0] == last);
                assert(joined(all, separator) =~= s);
            } else {
                assert(joined(all, separator) =~= joined(parts, separator).push(s.last()));
                assert(joined(all, separator) =~= s);
            }
            assert(!last.contains(separator)) by {
                if last.contains(separator) {
                    let i = last.index_of(separator);
                    assert(last[i] == separator);
                    assert(parts.last()[i] == separator);
                    assert(parts[parts.len() - 1].contains(separator));
                }
            }
            assert forall|i: int| 0 <= i < all.len() implies !(#[trigger] all[i]).contains(
                separator,
            ) by {
                if i < all.len() - 1 {
                    assert(all[i] == parts[i]);
                }
            }
        }
    }
}

/// What a shell reads from a word behind `open` quotes or outside of them: in single quotes
/// every character but the quote stands for itself; outside, a backslash makes the next
/// one stand for itself. None where the word does not end outside quotes.
pub open spec fn word_read(s: Seq<char>, open: bool) -> Option<Seq<char>>
    decreases s.len(),
{
    if s.len() == 0 {
        if open {
            None
        } else {
            Some(seq![])
        }
    } else if s[0] == '\'' {
        word_read(s.skip(1), !open)
    } else if !open && s[0] == '\\' {
        if s.len() < 2 {
            None
        } else {
            match word_read(s.skip(2), open) {
                Some(rest) => Some(seq![s[1]] + rest),
                None => None,
            }
        }
    } else {
        match word_read(s.skip(1), open) {
            Some(rest) => Some(seq![s[0]] + rest),
            None => None,
        }
    }
}

/// Quoting is safe: whatever a text holds, a shell reads the quoted word back as exactly
/// that text.
pub proof fn a_quoted_word_is_read_back(s: Seq<char>)
    ensures
        word_read(text::single_quoted(s), false) == Some(s),
{
    let q = text::single_quoted(s);
    let body = text::quote_body(s);
    assert(q.skip(1) =~= body + seq!['\'']);
    lemma_body_read(s, seq!['\'']);
    let end = seq!['\''];
    assert(end.skip(1) =~= Seq::<char>::empty());
    assert(word_read(end.skip(1), false) == Some(Seq::<char>::empty()));
    assert(word_read(end, true) == Some(Seq::<char>::empty()));
    assert(s + Seq::<char>::empty() =~= s);
}

proof fn lemma_body_read(s: Seq<char>, tail: Seq<char>)
    ensures
        word_read(text::quote_body(s) + tail, true) == match word_read(tail, true) {
            Some(rest) => Some(s + rest),
            None => None,
        },
    decreases s.len(),
{
    if s.len() == 0 {
        assert(text::quote_body(s) + tail =~= tail);
        if let Some(rest) = word_read(tail, true) {
            assert(s + rest =~= rest);
        }
    } else {
        let init = s.drop_last();
        let c = s.last();
        let piece = if c == '\'' {
            seq!['\'', '\\', '\'', '\'']
        } else {
            seq![c]
        };
        assert(text::quote_body(s) =~= text::quote_body(init) + piece);
        assert(text::quote_body(s) + tail =~= text::quote_body(init) + (piece + tail));
        lemma_body_read(init, piece + tail);
        let w = piece + tail;
        if c == '\'' {
            let w1 = w.skip(1);
            let w2 = w1.skip(2);
            assert(w1[0] == '\\' && w1[1] == '\'');
            assert(w2[0] == '\'');
            assert(w2.skip(1) =~= tail);
            assert(word_read(w2, false) == word_read(tail, true));
            assert(word_read(w1, false) == match word_read(w2, false) {
                Some(rest) => Some(seq!['\''] + rest),
                None => None,
            });
            assert(word_read(w, true) == word_read(w1, false));
        } else {
            assert(w.skip(1) =~= tail);
            assert(w[0] == c);
        }
        if let Some(rest) = word_read(tail, true) {
            assert(init + (seq![c] + rest) =~= s + rest);
        }
    }
}

/// A padded text begins with the text, an aligned one ends with it; both are as wide as
/// asked where the text is not wider, and are filled with spaces.
pub proof fn padding_fills_with_spaces(s: Seq<char>, width: nat)
    ensures
        ({
            let p = text::padded(s, width);
            let r = text::right_aligned(s, width);
            &&& s.is_prefix_of(p)
            &&& s.is_suffix_of(r)
            &&& p.len() == r.len()
            &&& p.len() == if s.len() < width {
                width
            } else {
                s.len()
            }
            &&& forall|i: int| s.len() <= i < p.len() ==> #[trigger] p[i] == ' '
            &&& forall|i: int| 0 <= i < r.len() - s.len() ==> #[trigger] r[i] == ' '
        }),
{
    let p = text::padded(s, width);
    let r = text::right_aligned(s, width);
    assert(s =~= p.subrange(0, s.len() as int));
    assert(s =~= r.subrange(r.len() - s.len(), r.len() as int));
}

/// The name of a path is what follows its last slash; a slash behind it, or a dot, changes
/// nothing.
pub proof fn a_name_follows_the_last_slash(dir: Seq<char>, name: Seq<char>)
    requires
        name.len() > 0,
        name != seq!['.'],
        !name.contains('/'),
    ensures
        text::base_name(name) == name,
        text::base_name(dir.push('/') + name) == name,
        text::base_name((dir.push('/') + name).push('/')) == name,
        text::base_name((dir.push('/') + name).push('/').push('.')) == name,
{
    let path = dir.push('/') + name;
    assert forall|i: int| -1 < i < name.len() implies #[trigger] name[i] != '/' by {
        if name[i] == '/' {
            assert(name.contains('/'));
        }
    }
    assert(name.skip(0) =~= name);
    lemma_name_behind(name, -1, name);
    assert forall|i: int| dir.len() < i < path.len() implies #[trigger] path[i] != '/' by {
        assert(path[i] == name[i - dir.len() - 1]);
    }
    assert(path.skip(dir.len() as int + 1) =~= name);
    lemma_name_behind(path, dir.len() as int, name);
    lemma_nothing_behind(path, seq![]);
    assert(path.push('/') + Seq::<char>::empty() =~= path.push('/'));
    lemma_nothing_behind(path, seq!['.']);
    assert(path.push('/') + seq!['.'] =~= path.push('/').push('.'));
}

proof fn lemma_name_behind(path: Seq<char>, at: int, name: Seq<char>)
    requires
        -1 <= at < path.len(),
        at >= 0 ==> path[at] == '/',
        forall|i: int| at < i < path.len() ==> #[trigger] path[i] != '/',
        path.skip(at + 1) == name,
        name.len() > 0,
        name != seq!['.'],
    ensures
        text::base_name(path) == name,
{
    lemma_slash_at(path, at);
}

proof fn lemma_nothing_behind(path: Seq<char>, rest: Seq<char>)
    requires
        rest.len() == 0 || rest == seq!['.'],
    ensures
        text::base_name(path.push('/') + rest) == text::base_name(path),
{
    let more = path.push('/') + rest;
    let at = path.len() as int;
    assert(more[at] == '/');
    assert forall|i: int| at < i < more.len() implies #[trigger] more[i] != '/' by {
        assert(more[i] == rest[i - at - 1]);
    }
    lemma_slash_at(more, at);
    assert(more.skip(at + 1) =~= rest);
    assert(more.take(at) =~= path);
}

proof fn lemma_slash_at(path: Seq<char>, at: int)
    requires
        -1 <= at < path.len(),
        at >= 0 ==> path[at] == '/',
        forall|i: int| at < i < path.len() ==> #[trigger] path[i] != '/',
    ensures
        text::last_slash(path) == at,
{
    lemma_last_slash(path);
    let l = text::last_slash(path);
    if l < at {
        assert(path[at] != '/');
    } else if at < l {
        assert(path[l] == '/');
    }
}

proof fn lemma_last_slash(path: Seq<char>)
    ensures
        -1 <= text::last_slash(path) < path.len(),
        text::last_slash(path) >= 0 ==> path[text::last_slash(path)] == '/',
        forall|i: int| text::last_slash(path) < i < path.len() ==> #[trigger] path[i] != '/',
    decreases path.len(),
{
    if path.len() > 0 && path.last() != '/' {
        let init = path.drop_last();
        lemma_last_slash(init);
        assert forall|i: int| text::last_slash(path) < i < path.len() implies #[trigger] path[i]
            != '/' by {
            if i < init.len() {
                assert(init[i] == path[i]);
            }
        }
        if text::last_slash(path) >= 0 {
            assert(init[text::last_slash(path)] == path[text::last_slash(path)]);
        }
    }
}

/// A clipped text is the longest beginning that fits: one character more would not.
pub proof fn clipping_keeps_what_fits(s: Seq<char>, max: nat)
    ensures
        ({
            let c = text::clip_bytes(s, max);
            &&& c.is_prefix_of(s)
            &&& text::byte_len(c) <= max
            &&& c.len() < s.len() ==> text::byte_len(s.take((c.len() + 1) as int)) > max
        }),
    decreases s.len(),
{
    text::lemma_clip_bytes_fits(s, max);
    if s.len() > 0 && text::byte_len(s) > max {
        let init = s.drop_last();
        clipping_keeps_what_fits(init, max);
        let c = text::clip_bytes(s, max);
        if c.len() == init.len() {
            assert(s.take((c.len() + 1) as int) =~= s);
        } else {
            assert(init.take((c.len() + 1) as int) =~= s.take((c.len() + 1) as int));
        }
    }
}

/// The first candidate on a list is the one found: it is on the list, and none before it is.
pub proof fn the_first_listed_candidate_is_found(
    candidates: Seq<Seq<char>>,
    list: Seq<Seq<char>>,
    i: int,
)
    requires
        0 <= i < candidates.len(),
        text::listed(list, candidates[i]),
        forall|j: int| 0 <= j < i ==> !text::listed(list, #[trigger] candidates[j]),
    ensures
        text::first_listed(candidates, list) == Some(candidates[i]),
    decreases candidates.len(),
{
    let init = candidates.drop_last();
    if i < init.len() {
        assert forall|j: int| 0 <= j < i implies !text::listed(list, #[trigger] init[j]) by {
            assert(init[j] == candidates[j]);
        }
        assert(init[i] == candidates[i]);
        the_first_listed_candidate_is_found(init, list, i);
    } else {
        assert forall|j: int| 0 <= j < init.len() implies !text::listed(
            list,
            #[trigger] init[j],
        ) by {
            assert(init[j] == candidates[j]);
        }
        nothing_is_found_off_the_list(init, list);
    }
}

/// Where no candidate is on the list, none is found.
pub proof fn nothing_is_found_off_the_list(candidates: Seq<Seq<char>>, list: Seq<Seq<char>>)
    requires
        forall|j: int|
            0 <= j < candidates.len() ==> !text::listed(list, #[trigger] candidates[j]),
    ensures
        text::first_listed(candidates, list) is None,
    decreases candidates.len(),
{
    if candidates.len() > 0 {
        let init = candidates.drop_last();
        assert forall|j: int| 0 <= j < init.len() implies !text::listed(
            list,
            #[trigger] init[j],
        ) by {
            assert(init[j] == candidates[j]);
        }
        nothing_is_found_off_the_list(init, list);
        assert(candidates[candidates.len() - 1] == candidates.last());
    }
}

/// A path below another one begins with it and ends with the name, with exactly one slash
/// between them that the base did not have.
pub proof fn a_path_below_begins_with_its_base(base: Seq<char>, name: Seq<char>)
    ensures
        ({
            let p = paths::below(base, name);
            &&& base.is_prefix_of(p)
            &&& name.is_suffix_of(p)
            &&& base.len() > 0 ==> p[p.len() - name.len() - 1] == '/'
            &&& p.len() == base.len() + name.len() + if base.len() > 0 && base.last() != '/' {
                1int
            } else {
                0
            }
            &&& base.len() > 0 ==> (paths::absolute(p) <==> base[0] == '/')
        }),
{
    let p = paths::below(base, name);
    reveal_strlit("/");
    assert(base =~= p.subrange(0, base.len() as int));
    assert(name =~= p.subrange(p.len() - name.len(), p.len() as int));
}

} // verus!
