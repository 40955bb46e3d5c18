//! From the server's answer to the translated text.
//!
//! The answer is a stream of lines, each a JSON object that may carry a
//! fragment of the text under the key `response`. The fragments are filtered
//! and concatenated, and the concatenation is cleaned of what surrounds the
//! translation.

use vstd::prelude::*;
use crate::error::TranslationError;
use crate::external::{json_string_members, parse_json, string_member};
use crate::response_laws::lemma_clean_result;
use crate::text::{
    append_chars, contains, has_substring, is_blank, is_blank_text, join_lines, join_range,
    lemma_prefix_run, lines, prefix_run, split_lines, substring, texts, to_chars, trim,
    trim_bounds,
};

verus! {

/// The key under which a line of the answer carries its fragment.
pub open spec fn response_key() -> Seq<char> {
    "response"@
}

/// The marker with which the model's chat template opens a turn.
pub open spec fn chat_marker() -> Seq<char> {
    "<|im_start|>"@
}

/// The marker that opens or closes a block of code.
pub open spec fn code_fence() -> Seq<char> {
    "```"@
}

/// Whether `s` holds a code fence.
pub open spec fn has_fence(s: Seq<char>) -> bool {
    has_substring(s, code_fence())
}

/// Whether `s` holds one of the two markers.
pub open spec fn has_marker(s: Seq<char>) -> bool {
    has_substring(s, chat_marker()) || has_fence(s)
}

/// Whether an HTTP status code reports success.
pub open spec fn is_success_status(code: u16) -> bool {
    200 <= code < 300
}

/// Accepts the status codes that report success, and turns every other into
/// the error that carries it.
pub fn check_status(code: u16) -> (r: Result<(), TranslationError>)
    ensures
        is_success_status(code) ==> r is Ok,
        !is_success_status(code) ==> r == Err::<(), TranslationError>(
            TranslationError::OllamaError(code),
        ),
{
    if 200 <= code && code < 300 {
        Ok(())
    } else {
        Err(TranslationError::OllamaError(code))
    }
}

/// The fragment that a line of the answer carries: the string under the key
/// `response`, where the line is a JSON object that has one.
pub open spec fn line_fragment(line: Seq<char>) -> Option<Seq<char>> {
    match json_string_members(line) {
        Some(members) => if members.contains_key(response_key()) {
            Some(members[response_key()])
        } else {
            None
        },
        None => None,
    }
}

/// The fragments that the lines carry, in the order of the lines.
pub open spec fn stream_fragments(lines: Seq<Seq<char>>) -> Seq<Seq<char>>
    decreases lines.len(),
{
    if lines.len() == 0 {
        Seq::empty()
    } else {
        let before = stream_fragments(lines.drop_last());
        match line_fragment(lines.last()) {
            Some(fragment) => before.push(fragment),
            None => before,
        }
    }
}

/// The texts of a sequence of strings.
pub open spec fn views(strings: Seq<String>) -> Seq<Seq<char>> {
    Seq::new(strings.len(), |i: int| strings[i]@)
}

/// A fragment carries text when it holds no marker and is not blank.
pub open spec fn is_text(fragment: Seq<char>) -> bool {
    !has_marker(fragment) && !is_blank(fragment)
}

/// The preamble is the first fragment that carries text.
pub open spec fn is_preamble(fragments: Seq<Seq<char>>, i: int) -> bool {
    &&& is_text(fragments[i])
    &&& forall|j: int| 0 <= j < i ==> !is_text(#[trigger] fragments[j])
}

/// A fragment is kept when it holds no marker and is not the preamble.
pub open spec fn is_kept(fragments: Seq<Seq<char>>, i: int) -> bool {
    !has_marker(fragments[i]) && !is_preamble(fragments, i)
}

/// The concatenation of the fragments kept among the first `n`.
pub open spec fn accumulated(fragments: Seq<Seq<char>>, n: int) -> Seq<char>
    decreases n,
{
    if n <= 0 {
        Seq::empty()
    } else if is_kept(fragments, n - 1) {
        accumulated(fragments, n - 1) + fragments[n - 1]
    } else {
        accumulated(fragments, n - 1)
    }
}

/// The concatenation of all the fragments kept.
pub open spec fn accumulate(fragments: Seq<Seq<char>>) -> Seq<char> {
    accumulated(fragments, fragments.len() as int)
}

/// A line is noise when it is blank or holds a marker.
pub open spec fn is_noise(line: Seq<char>) -> bool {
    is_blank(line) || has_marker(line)
}

/// The lines that belong to the translation: those after the leading noise,
/// up to the first of them that holds a code fence.
pub open spec fn body_lines(lines: Seq<Seq<char>>) -> Seq<Seq<char>> {
    let rest = lines.skip(prefix_run(lines, |line: Seq<char>| is_noise(line)));
    rest.take(prefix_run(rest, |line: Seq<char>| !has_fence(line)))
}

/// The accumulated text without what surrounds the translation.
pub open spec fn clean(text: Seq<char>) -> Seq<char> {
    trim(join_lines(body_lines(lines(text))))
}

/// The translated text that a sequence of fragments gives.
pub open spec fn assemble(fragments: Seq<Seq<char>>) -> Seq<char> {
    clean(accumulate(fragments))
}

/// The fragment that `line` carries, if any. A line that is no JSON document
/// carries none.
pub fn fragment_of_line(line: &str) -> (r: Option<String>)
    ensures
        r matches Some(fragment) ==> line_fragment(line@) == Some(fragment@),
        r is None ==> line_fragment(line@) is None,
{
    match parse_json(line) {
        Ok(value) => string_member(&value, "response"),
        Err(_) => None,
    }
}

/// Whether `text` holds one of the two markers.
fn holds_marker(text: &Vec<char>, chat: &Vec<char>, fence: &Vec<char>) -> (b: bool)
    requires
        chat@ == chat_marker(),
        fence@ == code_fence(),
    ensures
        b == has_marker(text@),
{
    contains(text, chat) || contains(text, fence)
}

/// Concatenates the fragments that are kept.
pub fn accumulate_fragments(fragments: &Vec<String>) -> (acc: Vec<char>)
    ensures
        acc@ == accumulate(views(fragments@)),
{
    let chat = to_chars("<|im_start|>");
    let fence = to_chars("```");
    let mut acc: Vec<char> = Vec::new();
    let mut preamble_pending = true;
    let mut i: usize = 0;
    while i < fragments.len()
        invariant
            i <= fragments.len(),
            chat@ == chat_marker(),
            fence@ == code_fence(),
            acc@ == accumulated(views(fragments@), i as int),
            preamble_pending == forall|j: int|
                0 <= j < i ==> !is_text(#[trigger] views(fragments@)[j]),
        decreases fragments.len() - i,
    {
        let content = to_chars(fragments[i].as_str());
        if !holds_marker(&content, &chat, &fence) {
            if preamble_pending && !is_blank_text(&content) {
                preamble_pending = false;
            } else {
                append_chars(&mut acc, &content);
            }
        }
        i += 1;
    }
    acc
}

/// Cleans the accumulated text of what surrounds the translation.
pub fn clean_text(text: &Vec<char>) -> (out: String)
    ensures
        out@ == clean(text@),
        trim(out@) == out@,
        !has_fence(out@),
{
    let chat = to_chars("<|im_start|>");
    let fence = to_chars("```");
    let all = split_lines(text);
    let mut from: usize = 0;
    while from < all.len() && (is_blank_text(&all[from]) || holds_marker(&all[from], &chat, &fence))
        invariant
            from <= all.len(),
            chat@ == chat_marker(),
            fence@ == code_fence(),
            forall|i: int| 0 <= i < from ==> is_noise(#[trigger] texts(all@)[i]),
        decreases all.len() - from,
    {
        from += 1;
    }
    let mut to: usize = from;
    while to < all.len() && !contains(&all[to], &fence)
        invariant
            from <= to <= all.len(),
            fence@ == code_fence(),
            forall|i: int| from <= i < to ==> !has_fence(#[trigger] texts(all@)[i]),
        decreases all.len() - to,
    {
        to += 1;
    }
    proof {
        let noise = |line: Seq<char>| is_noise(line);
        let unfenced = |line: Seq<char>| !has_fence(line);
        let rest = texts(all@).skip(from as int);
        lemma_prefix_run(texts(all@), noise, from as int);
        assert forall|i: int| 0 <= i < to - from implies unfenced(#[trigger] rest[i]) by {}
        lemma_prefix_run(rest, unfenced, to - from);
        assert(rest.take(to - from) == texts(all@).subrange(from as int, to as int));
        lemma_clean_result(text@);
    }
    let joined = join_range(&all, from, to);
    let bounds = trim_bounds(&joined);
    substring(&joined, bounds.0, bounds.1)
}

/// Assembles the translated text from the fragments of an answer, in the
/// order in which they came.
pub fn assemble_fragments(fragments: &Vec<String>) -> (out: String)
    ensures
        out@ == assemble(views(fragments@)),
        trim(out@) == out@,
        !has_fence(out@),
{
    let acc = accumulate_fragments(fragments);
    clean_text(&acc)
}

/// The fragments that the lines of the answer carry, in their order. Lines
/// that are no JSON documents, or carry no fragment, are passed over.
pub fn response_fragments(response_text: &str) -> (fragments: Vec<String>)
    ensures
        views(fragments@) == stream_fragments(lines(response_text@)),
{
    let chars = to_chars(response_text);
    let all = split_lines(&chars);
    let mut fragments: Vec<String> = Vec::new();
    let mut i: usize = 0;
    while i < all.len()
        invariant
            i <= all.len(),
            views(fragments@) == stream_fragments(texts(all@).take(i as int)),
        decreases all.len() - i,
    {
        let ghost done = texts(all@).take(i as int);
        let ghost next = texts(all@).take(i + 1);
        assert(next.drop_last() == done);
        let line = substring(&all[i], 0, all[i].len());
        assert(line@ == all@[i as int]@);
        match fragment_of_line(line.as_str()) {
            Some(fragment) => {
                fragments.push(fragment);
            },
            None => {},
        }
        i += 1;
    }
    assert(texts(all@).take(all.len() as int) == texts(all@));
    fragments
}

/// Parses the answer of the server and extracts the translated text. No
/// line makes the parse fail: the result is always `Ok`.
pub fn parse_response(response_text: &str) -> (r: Result<String, TranslationError>)
    ensures
        r is Ok,
        r matches Ok(translated) ==> translated@ == assemble(
            stream_fragments(lines(response_text@)),
        ),
        r matches Ok(translated) ==> trim(translated@) == translated@,
        r matches Ok(translated) ==> !has_fence(translated@),
{
    let fragments = response_fragments(response_text);
    Ok(assemble_fragments(&fragments))
}

} // verus!
