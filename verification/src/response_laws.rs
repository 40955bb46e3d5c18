//! What holds of the translated text, whatever the answer.

use vstd::prelude::*;
use crate::external::json_string_members;
use crate::response::{
    accumulate, accumulated, assemble, body_lines, chat_marker, clean, code_fence, has_fence,
    has_marker, is_kept, is_noise, is_preamble, is_text, line_fragment, stream_fragments,
};
use crate::text::{
    has_substring, is_blank, is_whitespace, join_lines, lemma_prefix_run,
    lemma_prefix_run_bounds, lines, occurs_at, prefix_run, trim,
};
use crate::text_laws::{
    has_crlf, lemma_join_blank, lemma_join_concat, lemma_line_is_piece, lemma_needle_beside,
    lemma_piece_of_blank, lemma_substring_of_piece, lemma_trim_after_blank, lemma_trim_blank,
    lemma_trim_is_piece, lemma_trim_of_joined_lines, lemma_trim_twice,
};

verus! {

/// Lines without a code fence join to a text without one.
pub proof fn lemma_join_unfenced(lines: Seq<Seq<char>>)
    requires
        forall|i: int| 0 <= i < lines.len() ==> !has_fence(#[trigger] lines[i]),
    ensures
        !has_fence(join_lines(lines)),
    decreases lines.len(),
{
    reveal_strlit("```");
    if lines.len() == 0 {
        if has_fence(join_lines(lines)) {
            let at = choose|at: int| occurs_at(join_lines(lines), code_fence(), at);
            assert(false);
        }
    } else if lines.len() > 1 {
        let before = lines.drop_last();
        assert forall|i: int| 0 <= i < before.len() implies !has_fence(#[trigger] before[i]) by {}
        lemma_join_unfenced(before);
        if has_fence(join_lines(lines)) {
            lemma_needle_beside(join_lines(before), '\n', lines.last(), code_fence());
        }
    }
}

/// What cleaning leaves is trimmed and holds no code fence.
pub proof fn lemma_clean_result(text: Seq<char>)
    ensures
        trim(clean(text)) == clean(text),
        !has_fence(clean(text)),
{
    let all = lines(text);
    let rest = all.skip(prefix_run(all, |line: Seq<char>| is_noise(line)));
    let unfenced = |line: Seq<char>| !has_fence(line);
    let body = body_lines(all);
    lemma_prefix_run_bounds(rest, unfenced);
    assert forall|i: int| 0 <= i < body.len() implies !has_fence(#[trigger] body[i]) by {}
    lemma_join_unfenced(body);
    lemma_trim_twice(join_lines(body));
    lemma_trim_is_piece(join_lines(body));
    if has_fence(clean(text)) {
        lemma_substring_of_piece(join_lines(body), clean(text), code_fence());
    }
}

/// A line that carries no fragment adds nothing to the fragments of the
/// answer: they are those of the answer without that line.
pub proof fn lemma_line_without_fragment(lines: Seq<Seq<char>>, i: int)
    requires
        0 <= i < lines.len(),
        line_fragment(lines[i]) is None,
    ensures
        stream_fragments(lines) == stream_fragments(lines.remove(i)),
    decreases lines.len(),
{
    if i < lines.len() - 1 {
        let others = lines.remove(i);
        assert(others.drop_last() =~= lines.drop_last().remove(i));
        lemma_line_without_fragment(lines.drop_last(), i);
    }
}

/// A line that is no JSON document is passed over: the fragments of the
/// answer, and so the translated text, are those of the answer without that
/// line.
pub proof fn lemma_invalid_line_is_passed_over(lines: Seq<Seq<char>>, i: int)
    requires
        0 <= i < lines.len(),
        json_string_members(lines[i]) is None,
    ensures
        stream_fragments(lines) == stream_fragments(lines.remove(i)),
        assemble(stream_fragments(lines)) == assemble(stream_fragments(lines.remove(i))),
{
    lemma_line_without_fragment(lines, i);
}

/// Where the item at `k` stands once the item at `i` is removed; the number
/// of items before `k` likewise.
pub open spec fn index_without(k: int, i: int) -> int {
    if k <= i {
        k
    } else {
        k - 1
    }
}

/// Where the fragment at `i` holds a marker, every other fragment is kept
/// exactly when it is kept among the fragments without the one at `i`.
proof fn lemma_kept_beside_marked(fragments: Seq<Seq<char>>, i: int, k: int)
    requires
        0 <= i < fragments.len(),
        0 <= k < fragments.len(),
        k != i,
        has_marker(fragments[i]),
    ensures
        is_kept(fragments, k) == is_kept(fragments.remove(i), index_without(k, i)),
{
    let others = fragments.remove(i);
    let m = index_without(k, i);
    if is_preamble(fragments, k) {
        assert forall|j: int| 0 <= j < m implies !is_text(#[trigger] others[j]) by {}
    }
    if is_preamble(others, m) {
        assert forall|j: int| 0 <= j < k implies !is_text(#[trigger] fragments[j]) by {
            if j < i {
                assert(fragments[j] == others[j]);
            } else if j > i {
                assert(fragments[j] == others[j - 1]);
            }
        }
    }
}

/// Where the fragment at `i` holds a marker, what the first `n` fragments
/// accumulate is what they accumulate without the one at `i`.
proof fn lemma_accumulated_beside_marked(fragments: Seq<Seq<char>>, i: int, n: int)
    requires
        0 <= i < fragments.len(),
        0 <= n <= fragments.len(),
        has_marker(fragments[i]),
    ensures
        accumulated(fragments, n) == accumulated(fragments.remove(i), index_without(n, i)),
    decreases n,
{
    if n > 0 {
        lemma_accumulated_beside_marked(fragments, i, n - 1);
        if n - 1 != i {
            lemma_kept_beside_marked(fragments, i, n - 1);
        }
    }
}

/// A fragment that holds a marker never reaches the result, wherever it
/// stands: the result is that of the fragments without it.
pub proof fn lemma_marked_fragment_is_dropped(fragments: Seq<Seq<char>>, i: int)
    requires
        0 <= i < fragments.len(),
        has_marker(fragments[i]),
    ensures
        accumulate(fragments) == accumulate(fragments.remove(i)),
        assemble(fragments) == assemble(fragments.remove(i)),
{
    lemma_accumulated_beside_marked(fragments, i, fragments.len() as int);
}

/// The position of the preamble among `fragments`, or their number where
/// none of them carries text.
pub open spec fn preamble_index(fragments: Seq<Seq<char>>) -> int {
    prefix_run(fragments, |fragment: Seq<char>| !is_text(fragment))
}

/// The fragments without the preamble.
pub open spec fn without_preamble(fragments: Seq<Seq<char>>) -> Seq<Seq<char>> {
    let i = preamble_index(fragments);
    if 0 <= i < fragments.len() {
        fragments.remove(i)
    } else {
        fragments
    }
}

/// The concatenation of the fragments.
pub open spec fn concat(fragments: Seq<Seq<char>>) -> Seq<char>
    decreases fragments.len(),
{
    if fragments.len() == 0 {
        Seq::empty()
    } else {
        concat(fragments.drop_last()) + fragments.last()
    }
}

/// The concatenation of the fragments that hold no marker.
pub open spec fn concat_unmarked(fragments: Seq<Seq<char>>) -> Seq<char>
    decreases fragments.len(),
{
    if fragments.len() == 0 {
        Seq::empty()
    } else if has_marker(fragments.last()) {
        concat_unmarked(fragments.drop_last())
    } else {
        concat_unmarked(fragments.drop_last()) + fragments.last()
    }
}

/// The preamble is the fragment at `preamble_index`, and no other.
pub proof fn lemma_preamble_index(fragments: Seq<Seq<char>>, i: int)
    requires
        0 <= i < fragments.len(),
    ensures
        is_preamble(fragments, i) <==> i == preamble_index(fragments),
{
    let blank_or_marked = |fragment: Seq<char>| !is_text(fragment);
    lemma_prefix_run_bounds(fragments, blank_or_marked);
    let p = preamble_index(fragments);
    if is_preamble(fragments, i) {
        assert forall|j: int| 0 <= j < i implies blank_or_marked(#[trigger] fragments[j]) by {}
        lemma_prefix_run(fragments, blank_or_marked, i);
    }
    if i == p {
        assert forall|j: int| 0 <= j < i implies !is_text(#[trigger] fragments[j]) by {}
    }
}

/// What the first `n` fragments accumulate is the concatenation of those of
/// them that are not the preamble and hold no marker.
proof fn lemma_accumulated_without_preamble(fragments: Seq<Seq<char>>, n: int)
    requires
        0 <= n <= fragments.len(),
    ensures
        accumulated(fragments, n) == concat_unmarked(
            without_preamble(fragments).take(index_without(n, preamble_index(fragments))),
        ),
    decreases n,
{
    let p = preamble_index(fragments);
    let others = without_preamble(fragments);
    lemma_prefix_run_bounds(fragments, |fragment: Seq<char>| !is_text(fragment));
    if n > 0 {
        let k = n - 1;
        lemma_accumulated_without_preamble(fragments, k);
        lemma_preamble_index(fragments, k);
        if k != p {
            let m = index_without(k, p);
            assert(others.take(m + 1).drop_last() =~= others.take(m));
        }
    }
}

/// The first fragment that carries text is excluded from the result: what is
/// accumulated is the concatenation of the others, those with a marker left
/// out.
pub proof fn lemma_preamble_is_excluded(fragments: Seq<Seq<char>>)
    ensures
        accumulate(fragments) == concat_unmarked(without_preamble(fragments)),
{
    let others = without_preamble(fragments);
    lemma_prefix_run_bounds(fragments, |fragment: Seq<char>| !is_text(fragment));
    lemma_accumulated_without_preamble(fragments, fragments.len() as int);
    assert(others.take(others.len() as int) =~= others);
}

/// Where no fragment holds a marker, the concatenation of those without one
/// is the concatenation of all.
pub proof fn lemma_concat_unmarked(fragments: Seq<Seq<char>>)
    requires
        forall|i: int| 0 <= i < fragments.len() ==> !has_marker(#[trigger] fragments[i]),
    ensures
        concat_unmarked(fragments) == concat(fragments),
    decreases fragments.len(),
{
    if fragments.len() > 0 {
        let before = fragments.drop_last();
        assert forall|i: int| 0 <= i < before.len() implies !has_marker(#[trigger] before[i]) by {}
        lemma_concat_unmarked(before);
    }
}

/// Cleaning an empty text leaves it empty.
pub proof fn lemma_clean_empty()
    ensures
        clean(Seq::empty()) == Seq::<char>::empty(),
{
    lemma_trim_blank(Seq::empty());
}

/// The lines of a text hold no marker that the text does not hold.
pub proof fn lemma_line_markers(text: Seq<char>, i: int)
    requires
        0 <= i < lines(text).len(),
    ensures
        has_fence(lines(text)[i]) ==> has_fence(text),
        has_substring(lines(text)[i], chat_marker()) ==> has_substring(text, chat_marker()),
{
    lemma_line_is_piece(text, i);
    if has_fence(lines(text)[i]) {
        lemma_substring_of_piece(text, lines(text)[i], code_fence());
    }
    if has_substring(lines(text)[i], chat_marker()) {
        lemma_substring_of_piece(text, lines(text)[i], chat_marker());
    }
}

/// Whether the first line of `text` that is not blank is free of the chat
/// marker. It is where every line is blank.
pub open spec fn first_text_line_is_plain(text: Seq<char>) -> bool {
    let all = lines(text);
    let first = prefix_run(all, |line: Seq<char>| is_blank(line));
    0 <= first < all.len() ==> !has_substring(all[first], chat_marker())
}

/// Where no line is cut, cleaning is trimming: of a text without a code
/// fence, whose first line that is not blank holds no chat marker, cleaning
/// leaves the lines, joined and trimmed.
pub proof fn lemma_clean_plain(text: Seq<char>)
    requires
        !has_fence(text),
        first_text_line_is_plain(text),
    ensures
        clean(text) == trim(join_lines(lines(text))),
{
    let all = lines(text);
    let blank = |line: Seq<char>| is_blank(line);
    let noise = |line: Seq<char>| is_noise(line);
    let unfenced = |line: Seq<char>| !has_fence(line);
    lemma_prefix_run_bounds(all, blank);
    let first = prefix_run(all, blank);
    assert forall|i: int| 0 <= i < all.len() implies !has_fence(#[trigger] all[i]) by {
        lemma_line_markers(text, i);
    }
    // The leading noise is the blank lines at the beginning, and no line
    // after it is cut.
    assert forall|i: int| 0 <= i < first implies noise(#[trigger] all[i]) by {}
    lemma_prefix_run(all, noise, first);
    let rest = all.skip(first);
    assert forall|i: int| 0 <= i < rest.len() implies unfenced(#[trigger] rest[i]) by {}
    lemma_prefix_run(rest, unfenced, rest.len() as int);
    assert(rest.take(rest.len() as int) =~= rest);
    let head = all.take(first);
    assert forall|i: int| 0 <= i < head.len() implies is_blank(#[trigger] head[i]) by {}
    if first == 0 {
        assert(rest =~= all);
    } else if first == all.len() {
        lemma_join_blank(all);
        lemma_trim_blank(join_lines(all));
        lemma_trim_blank(join_lines(rest));
    } else {
        assert(all =~= head + rest);
        lemma_join_concat(head, rest);
        lemma_join_blank(head);
        let lead = join_lines(head) + seq!['\n'];
        assert forall|i: int| 0 <= i < lead.len() implies is_whitespace(#[trigger] lead[i]) by {}
        lemma_trim_after_blank(lead, join_lines(rest));
    }
}

/// Of fragments without markers, the result is the concatenation of all but
/// the first that carries text, trimmed. This holds where no line of that
/// concatenation is cut or changed: where it holds no code fence, its first
/// line that is not blank holds no chat marker and, once trimmed, it holds no
/// carriage return directly followed by a line feed.
pub proof fn lemma_plain_fragments(fragments: Seq<Seq<char>>)
    requires
        forall|i: int| 0 <= i < fragments.len() ==> !has_marker(#[trigger] fragments[i]),
        !has_fence(concat(without_preamble(fragments))),
        first_text_line_is_plain(concat(without_preamble(fragments))),
        !has_crlf(trim(concat(without_preamble(fragments)))),
    ensures
        assemble(fragments) == trim(concat(without_preamble(fragments))),
{
    let others = without_preamble(fragments);
    let text = concat(others);
    lemma_prefix_run_bounds(fragments, |fragment: Seq<char>| !is_text(fragment));
    assert forall|i: int| 0 <= i < others.len() implies !has_marker(#[trigger] others[i]) by {}
    lemma_preamble_is_excluded(fragments);
    lemma_concat_unmarked(others);
    lemma_clean_plain(text);
    lemma_trim_of_joined_lines(text);
}

/// A single fragment gives an empty result, whatever it holds.
pub proof fn lemma_single_fragment(fragment: Seq<char>)
    ensures
        assemble(seq![fragment]) == Seq::<char>::empty(),
{
    let fragments = seq![fragment];
    assert(accumulated(fragments, 0) == Seq::<char>::empty());
    if is_kept(fragments, 0) {
        assert(is_blank(fragment)) by {}
        let all = lines(fragment);
        let noise = |line: Seq<char>| is_noise(line);
        assert forall|i: int| 0 <= i < all.len() implies noise(#[trigger] all[i]) by {
            lemma_line_is_piece(fragment, i);
            lemma_piece_of_blank(fragment, all[i]);
        }
        lemma_prefix_run(all, noise, all.len() as int);
        lemma_trim_blank(Seq::empty());
    } else {
        lemma_clean_empty();
    }
}

} // verus!
