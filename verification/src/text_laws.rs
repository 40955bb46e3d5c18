//! What holds of lines, joining and trimming, whatever the text.

use vstd::prelude::*;
use crate::text::{
    has_substring, is_blank, is_whitespace, join_lines, leading_whitespace, lemma_prefix_run,
    lemma_prefix_run_bounds, lemma_trailing_whitespace, line_end, lines, occurs_at, strip_cr,
    trailing_whitespace, trim, trim_start,
};

verus! {

/// The converse of `lemma_trailing_whitespace`: what holds of the characters
/// that `trailing_whitespace` counts, and of the one before them.
pub proof fn lemma_trailing_whitespace_bounds(s: Seq<char>)
    ensures
        0 <= trailing_whitespace(s) <= s.len(),
        forall|i: int|
            s.len() - trailing_whitespace(s) <= i < s.len() ==> is_whitespace(#[trigger] s[i]),
        trailing_whitespace(s) < s.len() ==> !is_whitespace(
            s[s.len() - trailing_whitespace(s) - 1],
        ),
    decreases s.len(),
{
    if s.len() > 0 && is_whitespace(s.last()) {
        let rest = s.drop_last();
        lemma_trailing_whitespace_bounds(rest);
        assert forall|i: int|
            s.len() - trailing_whitespace(s) <= i < s.len() implies is_whitespace(
            #[trigger] s[i],
        ) by {
            if i < s.len() - 1 {
                assert(s[i] == rest[i]);
            }
        }
        if trailing_whitespace(s) < s.len() {
            assert(s[s.len() - trailing_whitespace(s) - 1] == rest[rest.len() - trailing_whitespace(
                rest,
            ) - 1]);
        }
    }
}

/// Trimming a blank text leaves nothing.
pub proof fn lemma_trim_blank(s: Seq<char>)
    requires
        is_blank(s),
    ensures
        trim(s) == Seq::<char>::empty(),
{
    lemma_prefix_run(s, |c: char| is_whitespace(c), s.len() as int);
    lemma_trailing_whitespace_bounds(trim_start(s));
}

/// A text is blank exactly when nothing is left of it after trimming.
pub proof fn lemma_blank_iff_trim_empty(s: Seq<char>)
    ensures
        is_blank(s) <==> trim(s).len() == 0,
{
    if is_blank(s) {
        lemma_trim_blank(s);
    } else {
        let ws = |c: char| is_whitespace(c);
        lemma_prefix_run_bounds(s, ws);
        let n = leading_whitespace(s);
        if n == s.len() {
            assert forall|i: int| 0 <= i < s.len() implies is_whitespace(#[trigger] s[i]) by {}
        }
        let rest = trim_start(s);
        assert(rest[0] == s[n]);
        lemma_trailing_whitespace_bounds(rest);
    }
}

/// Whitespace in front of a text does not change what trimming leaves.
pub proof fn lemma_trim_after_blank(w: Seq<char>, s: Seq<char>)
    requires
        is_blank(w),
    ensures
        trim(w + s) == trim(s),
{
    let ws = |c: char| is_whitespace(c);
    let all = w + s;
    lemma_prefix_run_bounds(s, ws);
    let n = w.len() + leading_whitespace(s);
    assert forall|i: int| 0 <= i < n implies ws(#[trigger] all[i]) by {}
    lemma_prefix_run(all, ws, n);
    assert(trim_start(all) =~= trim_start(s));
}

/// Whitespace behind a text does not change what trimming leaves.
pub proof fn lemma_trim_before_blank(s: Seq<char>, w: Seq<char>)
    requires
        is_blank(w),
    ensures
        trim(s + w) == trim(s),
{
    let ws = |c: char| is_whitespace(c);
    let all = s + w;
    if is_blank(s) {
        assert forall|i: int| 0 <= i < all.len() implies is_whitespace(#[trigger] all[i]) by {}
        lemma_trim_blank(s);
        lemma_trim_blank(all);
    } else {
        lemma_prefix_run_bounds(s, ws);
        let n = leading_whitespace(s);
        if n == s.len() {
            assert forall|i: int| 0 <= i < s.len() implies is_whitespace(#[trigger] s[i]) by {}
        }
        assert forall|i: int| 0 <= i < n implies ws(#[trigger] all[i]) by {}
        lemma_prefix_run(all, ws, n);
        let body = trim_start(s);
        assert(trim_start(all) =~= body + w);
        lemma_trailing_whitespace_bounds(body);
        let m = w.len() + trailing_whitespace(body);
        let tail = body + w;
        assert forall|i: int| tail.len() - m <= i < tail.len() implies is_whitespace(
            #[trigger] tail[i],
        ) by {}
        lemma_trailing_whitespace(tail, m);
    }
}

/// Trimming what is trimmed already changes nothing.
pub proof fn lemma_trim_twice(s: Seq<char>)
    ensures
        trim(trim(s)) == trim(s),
{
    let ws = |c: char| is_whitespace(c);
    lemma_prefix_run_bounds(s, ws);
    let body = trim_start(s);
    lemma_trailing_whitespace_bounds(body);
    let t = trim(s);
    if t.len() == 0 {
        lemma_trim_blank(t);
    } else {
        lemma_prefix_run(t, ws, 0);
        lemma_trailing_whitespace(t, 0);
    }
}

/// Joining two runs of lines puts one line feed between them.
pub proof fn lemma_join_concat(a: Seq<Seq<char>>, b: Seq<Seq<char>>)
    requires
        a.len() > 0,
        b.len() > 0,
    ensures
        join_lines(a + b) == join_lines(a) + seq!['\n'] + join_lines(b),
    decreases b.len(),
{
    let all = a + b;
    if b.len() == 1 {
        assert(all.drop_last() =~= a);
    } else {
        assert(all.drop_last() =~= a + b.drop_last());
        lemma_join_concat(a, b.drop_last());
    }
}

/// Blank lines join to a blank text.
pub proof fn lemma_join_blank(lines: Seq<Seq<char>>)
    requires
        forall|i: int| 0 <= i < lines.len() ==> is_blank(#[trigger] lines[i]),
    ensures
        is_blank(join_lines(lines)),
    decreases lines.len(),
{
    if lines.len() > 1 {
        let before = lines.drop_last();
        assert forall|i: int| 0 <= i < before.len() implies is_blank(#[trigger] before[i]) by {}
        lemma_join_blank(before);
        let joined = join_lines(lines);
        assert forall|i: int| 0 <= i < joined.len() implies is_whitespace(
            #[trigger] joined[i],
        ) by {}
    }
}

/// Whether a carriage return directly followed by a line feed stands at `at`.
pub open spec fn crlf_at(s: Seq<char>, at: int) -> bool {
    0 <= at && at + 1 < s.len() && s[at] == '\r' && s[at + 1] == '\n'
}

/// Whether `s` holds a carriage return directly followed by a line feed.
pub open spec fn has_crlf(s: Seq<char>) -> bool {
    exists|at: int| crlf_at(s, at)
}

/// A text that is not empty has at least one line.
pub proof fn lemma_lines_nonempty(s: Seq<char>)
    requires
        s.len() > 0,
    ensures
        lines(s).len() > 0,
{
}

/// Splitting into lines and joining again gives the text back, but for the
/// line feed that it may end with, where no line ends with a carriage return.
pub proof fn lemma_join_of_lines(s: Seq<char>)
    requires
        !has_crlf(s),
    ensures
        s.len() > 0 && s.last() == '\n' ==> s == join_lines(lines(s)) + seq!['\n'],
        !(s.len() > 0 && s.last() == '\n') ==> s == join_lines(lines(s)),
    decreases s.len(),
{
    if s.len() > 0 {
        let no_feed = |c: char| c != '\n';
        lemma_prefix_run_bounds(s, no_feed);
        let end = line_end(s);
        if end < s.len() {
            // The first line ends at a line feed with no carriage return before it.
            let first = s.take(end);
            let rest = s.skip(end + 1);
            if end > 0 && first.last() == '\r' {
                assert(crlf_at(s, end - 1));
            }
            assert forall|at: int| !crlf_at(rest, at) by {
                if crlf_at(rest, at) {
                    assert(crlf_at(s, at + end + 1));
                }
            }
            lemma_join_of_lines(rest);
            if rest.len() > 0 {
                lemma_lines_nonempty(rest);
                lemma_join_concat(seq![first], lines(rest));
                assert(s =~= first + seq!['\n'] + rest);
            }
        }
    }
}

/// Every line of a text is a piece of the text.
pub proof fn lemma_line_is_piece(s: Seq<char>, i: int)
    requires
        0 <= i < lines(s).len(),
    ensures
        has_substring(s, lines(s)[i]),
    decreases s.len(),
{
    let no_feed = |c: char| c != '\n';
    lemma_prefix_run_bounds(s, no_feed);
    let end = line_end(s);
    if end == s.len() {
        assert(s.subrange(0, s.len() as int) =~= s);
        assert(occurs_at(s, lines(s)[i], 0));
    } else {
        let first = strip_cr(s.take(end));
        let rest = s.skip(end + 1);
        if i == 0 {
            assert(s.subrange(0, first.len() as int) =~= first);
            assert(occurs_at(s, lines(s)[i], 0));
        } else {
            lemma_line_is_piece(rest, i - 1);
            let line = lines(rest)[i - 1];
            let at = choose|at: int| occurs_at(rest, line, at);
            assert(s.subrange(at + end + 1, at + end + 1 + line.len()) =~= rest.subrange(
                at,
                at + line.len(),
            ));
            assert(occurs_at(s, lines(s)[i], at + end + 1));
        }
    }
}

/// What occurs in a piece of a text occurs in the text.
pub proof fn lemma_substring_of_piece(s: Seq<char>, piece: Seq<char>, needle: Seq<char>)
    requires
        has_substring(s, piece),
        has_substring(piece, needle),
    ensures
        has_substring(s, needle),
{
    let a = choose|at: int| occurs_at(s, piece, at);
    let b = choose|at: int| occurs_at(piece, needle, at);
    assert(s.subrange(a + b, a + b + needle.len()) =~= s.subrange(a, a + piece.len()).subrange(
        b,
        b + needle.len(),
    ));
    assert(occurs_at(s, needle, a + b));
}

/// A piece of a blank text is blank.
pub proof fn lemma_piece_of_blank(s: Seq<char>, piece: Seq<char>)
    requires
        has_substring(s, piece),
        is_blank(s),
    ensures
        is_blank(piece),
{
    let a = choose|at: int| occurs_at(s, piece, at);
    assert forall|i: int| 0 <= i < piece.len() implies is_whitespace(#[trigger] piece[i]) by {}
}

/// What is left after trimming is a piece of the text.
pub proof fn lemma_trim_is_piece(s: Seq<char>)
    ensures
        has_substring(s, trim(s)),
{
    lemma_prefix_run_bounds(s, |c: char| is_whitespace(c));
    lemma_trailing_whitespace_bounds(trim_start(s));
    let from = leading_whitespace(s);
    assert(s.subrange(from, from + trim(s).len()) =~= trim(s));
    assert(occurs_at(s, trim(s), from));
}

/// A needle that does not hold the character `c` and occurs in two texts put
/// together with `c` between them occurs in one of the two.
pub proof fn lemma_needle_beside(x: Seq<char>, c: char, y: Seq<char>, needle: Seq<char>)
    requires
        forall|i: int| 0 <= i < needle.len() ==> needle[i] != c,
        has_substring(x + seq![c] + y, needle),
    ensures
        has_substring(x, needle) || has_substring(y, needle),
{
    let all = x + seq![c] + y;
    let at = choose|at: int| occurs_at(all, needle, at);
    let found = all.subrange(at, at + needle.len());
    if at + needle.len() <= x.len() {
        assert(x.subrange(at, at + needle.len()) =~= found);
        assert(occurs_at(x, needle, at));
    } else if at > x.len() {
        let to = at - x.len() - 1;
        assert(y.subrange(to, to + needle.len()) =~= found);
        assert(occurs_at(y, needle, to));
    } else {
        assert(found[x.len() - at] == all[x.len() as int]);
    }
}

/// Every line of a blank text is blank.
pub proof fn lemma_lines_of_blank(s: Seq<char>)
    requires
        is_blank(s),
    ensures
        forall|i: int| 0 <= i < lines(s).len() ==> is_blank(#[trigger] lines(s)[i]),
{
    assert forall|i: int| 0 <= i < lines(s).len() implies is_blank(#[trigger] lines(s)[i]) by {
        lemma_line_is_piece(s, i);
        lemma_piece_of_blank(s, lines(s)[i]);
    }
}

/// Whitespace in front of a text that begins with none changes the joined
/// lines of the text by whitespace in front alone, which is returned.
pub proof fn lemma_lines_after_blank(w: Seq<char>, x: Seq<char>) -> (v: Seq<char>)
    requires
        is_blank(w),
        x.len() > 0,
        !is_whitespace(x[0]),
    ensures
        is_blank(v),
        join_lines(lines(w + x)) == v + join_lines(lines(x)),
    decreases w.len(),
{
    let no_feed = |c: char| c != '\n';
    let all = w + x;
    lemma_prefix_run_bounds(w, no_feed);
    lemma_prefix_run_bounds(x, no_feed);
    let e = line_end(w);
    if e < w.len() {
        // `w` holds a line feed: what stands before it is a blank line of `w + x`.
        assert forall|i: int| 0 <= i < e implies no_feed(#[trigger] all[i]) by {
            assert(all[i] == w[i]);
        }
        lemma_prefix_run(all, no_feed, e);
        let first = strip_cr(all.take(e));
        let rest = w.skip(e + 1);
        assert(all.skip(e + 1) =~= rest + x);
        assert forall|i: int| 0 <= i < rest.len() implies is_whitespace(#[trigger] rest[i]) by {}
        assert forall|i: int| 0 <= i < first.len() implies is_whitespace(#[trigger] first[i]) by {}
        let inner = lemma_lines_after_blank(rest, x);
        lemma_lines_nonempty(rest + x);
        lemma_join_concat(seq![first], lines(rest + x));
        let v = first + seq!['\n'] + inner;
        assert forall|i: int| 0 <= i < v.len() implies is_whitespace(#[trigger] v[i]) by {}
        v
    } else {
        // `w` holds no line feed: it is the beginning of the first line of `w + x`.
        let ex = line_end(x);
        let end = w.len() + ex;
        assert forall|i: int| 0 <= i < end implies no_feed(#[trigger] all[i]) by {}
        lemma_prefix_run(all, no_feed, end);
        if ex < x.len() {
            let head = strip_cr(x.take(ex));
            assert(strip_cr(all.take(end)) =~= w + head);
            assert(all.skip(end + 1) =~= x.skip(ex + 1));
            let tail = lines(x.skip(ex + 1));
            if tail.len() > 0 {
                lemma_join_concat(seq![w + head], tail);
                lemma_join_concat(seq![head], tail);
            }
        }
        w
    }
}

/// Whitespace behind a text that ends with none changes the joined lines of
/// the text by whitespace behind alone, which is returned.
pub proof fn lemma_lines_before_blank(x: Seq<char>, w: Seq<char>) -> (v: Seq<char>)
    requires
        is_blank(w),
        x.len() > 0,
        !is_whitespace(x.last()),
    ensures
        is_blank(v),
        join_lines(lines(x + w)) == join_lines(lines(x)) + v,
    decreases x.len(),
{
    let no_feed = |c: char| c != '\n';
    let all = x + w;
    lemma_prefix_run_bounds(w, no_feed);
    lemma_prefix_run_bounds(x, no_feed);
    let ex = line_end(x);
    if ex < x.len() {
        // `x` holds a line feed: `x + w` begins with the first line of `x`.
        assert forall|i: int| 0 <= i < ex implies no_feed(#[trigger] all[i]) by {}
        lemma_prefix_run(all, no_feed, ex);
        let head = strip_cr(x.take(ex));
        assert(all.take(ex) =~= x.take(ex));
        let rest = x.skip(ex + 1);
        assert(all.skip(ex + 1) =~= rest + w);
        let v = lemma_lines_before_blank(rest, w);
        lemma_lines_nonempty(rest + w);
        lemma_lines_nonempty(rest);
        lemma_join_concat(seq![head], lines(rest + w));
        lemma_join_concat(seq![head], lines(rest));
        v
    } else {
        // `x` is one line: `w` lengthens it up to its first line feed, and adds
        // blank lines after it.
        let ew = line_end(w);
        let end = x.len() + ew;
        assert forall|i: int| 0 <= i < end implies no_feed(#[trigger] all[i]) by {}
        if ew == w.len() {
            lemma_prefix_run(all, no_feed, end);
            w
        } else {
            lemma_prefix_run(all, no_feed, end);
            let gap = strip_cr(w.take(ew));
            assert(strip_cr(all.take(end)) =~= x + gap);
            assert forall|i: int| 0 <= i < gap.len() implies is_whitespace(#[trigger] gap[i]) by {}
            let rest = w.skip(ew + 1);
            assert forall|i: int| 0 <= i < rest.len() implies is_whitespace(
                #[trigger] rest[i],
            ) by {}
            assert(all.skip(end + 1) =~= rest);
            let tail = lines(rest);
            if tail.len() == 0 {
                gap
            } else {
                lemma_lines_of_blank(rest);
                lemma_join_blank(tail);
                lemma_join_concat(seq![x + gap], tail);
                let v = gap + seq!['\n'] + join_lines(tail);
                assert forall|i: int| 0 <= i < v.len() implies is_whitespace(#[trigger] v[i]) by {}
                v
            }
        }
    }
}

/// Splitting into lines, joining and trimming is trimming alone, where the
/// trimmed text holds no carriage return directly followed by a line feed.
pub proof fn lemma_trim_of_joined_lines(s: Seq<char>)
    requires
        !has_crlf(trim(s)),
    ensures
        trim(join_lines(lines(s))) == trim(s),
{
    let ws = |c: char| is_whitespace(c);
    let joined = join_lines(lines(s));
    if is_blank(s) {
        lemma_lines_of_blank(s);
        lemma_join_blank(lines(s));
        lemma_trim_blank(joined);
        lemma_trim_blank(s);
    } else {
        lemma_prefix_run_bounds(s, ws);
        let from = leading_whitespace(s);
        if from == s.len() {
            assert forall|i: int| 0 <= i < s.len() implies is_whitespace(#[trigger] s[i]) by {}
        }
        // `s` is whitespace, the trimmed text, whitespace.
        let body = trim_start(s);
        lemma_trailing_whitespace_bounds(body);
        let t = trim(s);
        let lead = s.take(from);
        let trail = body.skip(t.len() as int);
        assert forall|i: int| 0 <= i < lead.len() implies is_whitespace(#[trigger] lead[i]) by {}
        assert forall|i: int| 0 <= i < trail.len() implies is_whitespace(#[trigger] trail[i]) by {}
        assert(s =~= lead + (t + trail));
        let before = lemma_lines_after_blank(lead, t + trail);
        let after = lemma_lines_before_blank(t, trail);
        lemma_join_of_lines(t);
        lemma_trim_after_blank(before, t + after);
        lemma_trim_before_blank(t, after);
        lemma_trim_twice(s);
    }
}

} // verus!
