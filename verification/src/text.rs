//! Text as sequences of characters: whitespace, occurrences, lines and
//! trimming, each with its meaning on `Seq<char>` and a function that
//! computes it on `Vec<char>`.

use vstd::prelude::*;

verus! {

/// The characters of `s`, in order.
pub fn to_chars(s: &str) -> (chars: Vec<char>)
    ensures
        chars@ == s@,
{
    let mut chars: Vec<char> = Vec::new();
    for c in it: s.chars()
        invariant
            chars@ == it.seq().take(it.index() as int),
            it.seq() == s@,
    {
        chars.push(c);
    }
    chars
}

/// The string made of the characters `chars[from..to]`.
pub fn substring(chars: &Vec<char>, from: usize, to: usize) -> (s: String)
    requires
        from <= to <= chars.len(),
    ensures
        s@ == chars@.subrange(from as int, to as int),
{
    let mut s = String::new();
    let mut i: usize = from;
    while i < to
        invariant
            from <= i <= to <= chars.len(),
            s@ == chars@.subrange(from as int, i as int),
        decreases to - i,
    {
        s.push(chars[i]);
        i += 1;
    }
    s
}

/// The length of the longest prefix of `s` whose items all satisfy `p`.
pub open spec fn prefix_run<A>(s: Seq<A>, p: spec_fn(A) -> bool) -> int
    decreases s.len(),
{
    if s.len() > 0 && p(s[0]) {
        1 + prefix_run(s.skip(1), p)
    } else {
        0
    }
}

/// `prefix_run(s, p)` is the position of the first item of `s` that does not
/// satisfy `p`, or the length of `s` where every item does.
pub proof fn lemma_prefix_run<A>(s: Seq<A>, p: spec_fn(A) -> bool, n: int)
    requires
        0 <= n <= s.len(),
        forall|i: int| 0 <= i < n ==> p(#[trigger] s[i]),
        n < s.len() ==> !p(s[n]),
    ensures
        prefix_run(s, p) == n,
    decreases s.len(),
{
    if n > 0 {
        let rest = s.skip(1);
        assert forall|i: int| 0 <= i < n - 1 implies p(#[trigger] rest[i]) by {}
        lemma_prefix_run(rest, p, n - 1);
    }
}

/// The converse of `lemma_prefix_run`: what holds at and before the position
/// that `prefix_run` gives.
pub proof fn lemma_prefix_run_bounds<A>(s: Seq<A>, p: spec_fn(A) -> bool)
    ensures
        0 <= prefix_run(s, p) <= s.len(),
        forall|i: int| 0 <= i < prefix_run(s, p) ==> p(#[trigger] s[i]),
        prefix_run(s, p) < s.len() ==> !p(s[prefix_run(s, p)]),
    decreases s.len(),
{
    if s.len() > 0 && p(s[0]) {
        let rest = s.skip(1);
        lemma_prefix_run_bounds(rest, p);
        assert forall|i: int| 0 <= i < prefix_run(s, p) implies p(#[trigger] s[i]) by {
            if i > 0 {
                assert(s[i] == rest[i - 1]);
            }
        }
    }
}

/// The characters with the Unicode property `White_Space`.
pub open spec fn is_whitespace(c: char) -> bool {
    let n = c as u32;
    ||| 0x09 <= n <= 0x0d
    ||| n == 0x20
    ||| n == 0x85
    ||| n == 0xa0
    ||| n == 0x1680
    ||| 0x2000 <= n <= 0x200a
    ||| n == 0x2028
    ||| n == 0x2029
    ||| n == 0x202f
    ||| n == 0x205f
    ||| n == 0x3000
}

/// Whether `c` is a whitespace character.
pub fn is_whitespace_char(c: char) -> (b: bool)
    ensures
        b == is_whitespace(c),
{
    let n: u32 = c as u32;
    (0x09 <= n && n <= 0x0d) || n == 0x20 || n == 0x85 || n == 0xa0 || n == 0x1680 || (0x2000 <= n
        && n <= 0x200a) || n == 0x2028 || n == 0x2029 || n == 0x202f || n == 0x205f || n == 0x3000
}

/// A text is blank when every character of it is whitespace; the empty text is blank.
pub open spec fn is_blank(s: Seq<char>) -> bool {
    forall|i: int| 0 <= i < s.len() ==> is_whitespace(#[trigger] s[i])
}

/// Whether every character of `chars` is whitespace.
pub fn is_blank_text(chars: &Vec<char>) -> (b: bool)
    ensures
        b == is_blank(chars@),
{
    let mut i: usize = 0;
    while i < chars.len()
        invariant
            i <= chars.len(),
            forall|j: int| 0 <= j < i ==> is_whitespace(#[trigger] chars@[j]),
        decreases chars.len() - i,
    {
        if !is_whitespace_char(chars[i]) {
            return false;
        }
        i += 1;
    }
    true
}

/// `needle` occurs in `hay` at position `at`.
pub open spec fn occurs_at(hay: Seq<char>, needle: Seq<char>, at: int) -> bool {
    &&& 0 <= at
    &&& at + needle.len() <= hay.len()
    &&& hay.subrange(at, at + needle.len()) == needle
}

/// `needle` occurs somewhere in `hay`. The empty text occurs in every text.
pub open spec fn has_substring(hay: Seq<char>, needle: Seq<char>) -> bool {
    exists|at: int| occurs_at(hay, needle, at)
}

/// Whether `needle` occurs in `hay` at position `at`.
pub fn matches_at(hay: &Vec<char>, needle: &Vec<char>, at: usize) -> (b: bool)
    requires
        at + needle.len() <= hay.len(),
    ensures
        b == occurs_at(hay@, needle@, at as int),
{
    let mut k: usize = 0;
    while k < needle.len()
        invariant
            k <= needle.len(),
            at + needle.len() <= hay.len(),
            forall|j: int| 0 <= j < k ==> hay@[at + j] == needle@[j],
        decreases needle.len() - k,
    {
        if hay[at + k] != needle[k] {
            return false;
        }
        k += 1;
    }
    assert(hay@.subrange(at as int, at + needle.len()) =~= needle@);
    true
}

/// Whether `needle` occurs somewhere in `hay`.
pub fn contains(hay: &Vec<char>, needle: &Vec<char>) -> (b: bool)
    ensures
        b == has_substring(hay@, needle@),
{
    if needle.len() > hay.len() {
        return false;
    }
    let last: usize = hay.len() - needle.len();
    let mut at: usize = 0;
    loop
        invariant
            at <= last,
            last + needle.len() == hay.len(),
            forall|j: int| 0 <= j < at ==> !occurs_at(hay@, needle@, j),
        decreases last - at,
    {
        if matches_at(hay, needle, at) {
            return true;
        }
        if at == last {
            return false;
        }
        at += 1;
    }
}

/// The texts that a vector of character vectors holds.
pub open spec fn texts(v: Seq<Vec<char>>) -> Seq<Seq<char>> {
    Seq::new(v.len(), |i: int| v[i]@)
}

/// Index of the first line feed in `s`, or `s.len()` where it holds none.
pub open spec fn line_end(s: Seq<char>) -> int {
    prefix_run(s, |c: char| c != '\n')
}

/// `s` without the carriage return that it may end with.
pub open spec fn strip_cr(s: Seq<char>) -> Seq<char> {
    if s.len() > 0 && s.last() == '\r' {
        s.drop_last()
    } else {
        s
    }
}

/// The lines of `s`. A line ends at a line feed, or at a carriage return
/// directly followed by one; neither belongs to the line. What follows the
/// last line feed is a line of its own unless it is empty, and it keeps a
/// carriage return at its end.
pub open spec fn lines(s: Seq<char>) -> Seq<Seq<char>>
    decreases s.len(),
{
    let end = line_end(s);
    if s.len() == 0 {
        Seq::empty()
    } else if 0 <= end < s.len() {
        seq![strip_cr(s.take(end))] + lines(s.skip(end + 1))
    } else {
        seq![s]
    }
}

/// The lines of `text`.
pub fn split_lines(text: &Vec<char>) -> (out: Vec<Vec<char>>)
    ensures
        texts(out@) == lines(text@),
{
    let mut out: Vec<Vec<char>> = Vec::new();
    let mut line: Vec<char> = Vec::new();
    let mut start: usize = 0;
    let mut i: usize = 0;
    assert(text@.skip(0) == text@);
    while i < text.len()
        invariant
            start <= i <= text.len(),
            line@ == text@.subrange(start as int, i as int),
            forall|j: int| start <= j < i ==> text@[j] != '\n',
            lines(text@) == texts(out@) + lines(text@.skip(start as int)),
        decreases text.len() - i,
    {
        let c = text[i];
        if c == '\n' {
            let ghost tail = text@.skip(start as int);
            proof {
                assert forall|j: int| 0 <= j < i - start implies tail[j] != '\n' by {}
                lemma_prefix_run(tail, |c: char| c != '\n', i - start);
                assert(tail.take(i - start) == line@);
                assert(tail.skip(i - start + 1) == text@.skip(i + 1));
            }
            let n = line.len();
            if n > 0 && line[n - 1] == '\r' {
                line.pop();
            }
            out.push(line);
            line = Vec::new();
            start = i + 1;
        } else {
            line.push(c);
        }
        i += 1;
    }
    proof {
        let tail = text@.skip(start as int);
        assert forall|j: int| 0 <= j < tail.len() implies tail[j] != '\n' by {}
        lemma_prefix_run(tail, |c: char| c != '\n', tail.len() as int);
    }
    if line.len() > 0 {
        out.push(line);
    }
    out
}

/// The lines joined again, with one line feed between each two neighbours.
pub open spec fn join_lines(lines: Seq<Seq<char>>) -> Seq<char>
    decreases lines.len(),
{
    if lines.len() == 0 {
        Seq::empty()
    } else if lines.len() == 1 {
        lines[0]
    } else {
        join_lines(lines.drop_last()) + seq!['\n'] + lines.last()
    }
}

/// Appends the characters of `tail` to `out`.
pub fn append_chars(out: &mut Vec<char>, tail: &Vec<char>)
    ensures
        final(out)@ == old(out)@ + tail@,
{
    let mut k: usize = 0;
    while k < tail.len()
        invariant
            k <= tail.len(),
            out@ == old(out)@ + tail@.take(k as int),
        decreases tail.len() - k,
    {
        out.push(tail[k]);
        k += 1;
    }
}

/// The lines `lines[from..to]` joined with line feeds.
pub fn join_range(lines: &Vec<Vec<char>>, from: usize, to: usize) -> (out: Vec<char>)
    requires
        from <= to <= lines.len(),
    ensures
        out@ == join_lines(texts(lines@).subrange(from as int, to as int)),
{
    let mut out: Vec<char> = Vec::new();
    let mut i: usize = from;
    while i < to
        invariant
            from <= i <= to <= lines.len(),
            out@ == join_lines(texts(lines@).subrange(from as int, i as int)),
        decreases to - i,
    {
        let ghost done = texts(lines@).subrange(from as int, i as int);
        let ghost next = texts(lines@).subrange(from as int, i + 1);
        assert(next.drop_last() == done);
        if i > from {
            out.push('\n');
        }
        append_chars(&mut out, &lines[i]);
        i += 1;
    }
    out
}

/// How many whitespace characters `s` begins with.
pub open spec fn leading_whitespace(s: Seq<char>) -> int {
    prefix_run(s, |c: char| is_whitespace(c))
}

/// How many whitespace characters `s` ends with.
pub open spec fn trailing_whitespace(s: Seq<char>) -> int
    decreases s.len(),
{
    if s.len() > 0 && is_whitespace(s.last()) {
        1 + trailing_whitespace(s.drop_last())
    } else {
        0
    }
}

/// `s` without the whitespace that it begins with.
pub open spec fn trim_start(s: Seq<char>) -> Seq<char> {
    s.skip(leading_whitespace(s))
}

/// `s` without the whitespace that it ends with.
pub open spec fn trim_end(s: Seq<char>) -> Seq<char> {
    s.take(s.len() - trailing_whitespace(s))
}

/// `s` without the whitespace at either end.
pub open spec fn trim(s: Seq<char>) -> Seq<char> {
    trim_end(trim_start(s))
}

/// `trailing_whitespace(s)` counts the characters after the last one of `s`
/// that is no whitespace, or all of them where there is none.
pub proof fn lemma_trailing_whitespace(s: Seq<char>, n: int)
    requires
        0 <= n <= s.len(),
        forall|i: int| s.len() - n <= i < s.len() ==> is_whitespace(#[trigger] s[i]),
        n < s.len() ==> !is_whitespace(s[s.len() - n - 1]),
    ensures
        trailing_whitespace(s) == n,
    decreases s.len(),
{
    if n > 0 {
        let rest = s.drop_last();
        assert forall|i: int| rest.len() - (n - 1) <= i < rest.len() implies is_whitespace(
            #[trigger] rest[i],
        ) by {}
        lemma_trailing_whitespace(rest, n - 1);
    }
}

/// The bounds of `trim(chars@)` within `chars`.
pub fn trim_bounds(chars: &Vec<char>) -> (bounds: (usize, usize))
    ensures
        bounds.0 <= bounds.1 <= chars.len(),
        chars@.subrange(bounds.0 as int, bounds.1 as int) == trim(chars@),
{
    let mut from: usize = 0;
    while from < chars.len() && is_whitespace_char(chars[from])
        invariant
            from <= chars.len(),
            forall|i: int| 0 <= i < from ==> is_whitespace(#[trigger] chars@[i]),
        decreases chars.len() - from,
    {
        from += 1;
    }
    let mut to: usize = chars.len();
    while to > from && is_whitespace_char(chars[to - 1])
        invariant
            from <= to <= chars.len(),
            forall|i: int| to <= i < chars.len() ==> is_whitespace(#[trigger] chars@[i]),
        decreases to,
    {
        to -= 1;
    }
    proof {
        lemma_prefix_run(chars@, |c: char| is_whitespace(c), from as int);
        let rest = chars@.skip(from as int);
        assert forall|i: int|
            rest.len() - (chars.len() - to) <= i < rest.len() implies is_whitespace(
            #[trigger] rest[i],
        ) by {}
        lemma_trailing_whitespace(rest, chars.len() - to);
    }
    (from, to)
}

} // verus!
