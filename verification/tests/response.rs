use ollama_translator::response::{
    accumulate_fragments, assemble_fragments, check_status, clean_text, fragment_of_line,
    parse_response, response_fragments,
};
use ollama_translator::TranslationError;

fn strings(items: &[&str]) -> Vec<String> {
    items.iter().map(|s| s.to_string()).collect()
}

fn chars(s: &str) -> Vec<char> {
    s.chars().collect()
}

fn text(v: &[char]) -> String {
    v.iter().collect()
}

#[test]
fn fence_fragment_is_dropped_and_later_fragments_stay() {
    let body = "{\"response\":\"Bonjour\"}\n{\"response\":\" le monde\"}\n{\"response\":\"```\"}\n{\"response\":\"extra\"}\n";
    assert_eq!(parse_response(body).unwrap(), "le mondeextra");
}

#[test]
fn fence_inside_the_accumulated_text_cuts_what_follows() {
    let body = "{\"response\":\"Bonjour\"}\n{\"response\":\" le monde\\n``\"}\n{\"response\":\"`\\n\"}\n{\"response\":\"extra\"}\n";
    assert_eq!(parse_response(body).unwrap(), "le monde");
}

#[test]
fn fragments_after_the_first_are_concatenated_and_trimmed() {
    let body = "{\"response\":\"Hello\"}\n{\"response\":\" wor\"}\n{\"response\":\"ld \"}\n{\"response\":\"\\n\"}";
    assert_eq!(parse_response(body).unwrap(), "world");
    assert_eq!(assemble_fragments(&strings(&["Hello", " wor", "ld ", "\n"])), "world");
}

#[test]
fn carriage_return_before_line_feed_becomes_a_line_feed() {
    assert_eq!(assemble_fragments(&strings(&["x", "a\r\nb"])), "a\nb");
    assert_eq!(assemble_fragments(&strings(&["x", "a\r", "\nb\r\n"])), "a\nb");
    assert_eq!(assemble_fragments(&strings(&["x", "a\rb"])), "a\rb");
}

#[test]
fn chat_marker_across_fragments_drops_the_first_line() {
    assert_eq!(assemble_fragments(&strings(&["x", "<|im", "_start|>hi\nthere"])), "there");
    assert_eq!(assemble_fragments(&strings(&["x", "hi\n<|im", "_start|>there"])), "hi\n<|im_start|>there");
}

#[test]
fn result_is_trimmed_and_holds_no_fence() {
    let inputs = [
        strings(&["p", "  a  "]),
        strings(&["p", "\n\n a \n``", "`\n b"]),
        strings(&["p", "``", "` a"]),
        strings(&["p", "a `", "`` b\n c "]),
        strings(&["p", "\u{a0}a\u{2003}\n"]),
    ];
    for fragments in inputs.iter() {
        let out = assemble_fragments(fragments);
        assert_eq!(out.trim(), out);
        assert!(!out.contains("```"));
    }
}

#[test]
fn marked_fragments_never_reach_the_result() {
    let with = strings(&["first", "<|im_start|>assistant", "one ", "```rust", "two", "a ``` b"]);
    let without = strings(&["first", "one ", "two"]);
    assert_eq!(assemble_fragments(&with), "one two");
    assert_eq!(assemble_fragments(&with), assemble_fragments(&without));
}

#[test]
fn a_marked_fragment_does_not_pass_for_the_preamble() {
    assert_eq!(assemble_fragments(&strings(&["```", "first", "second"])), "second");
    assert_eq!(text(&accumulate_fragments(&strings(&["<|im_start|>", "a", "b", "c"]))), "bc");
}

#[test]
fn the_only_fragment_is_excluded() {
    assert_eq!(parse_response("{\"response\":\"Bonjour\"}").unwrap(), "");
    assert_eq!(assemble_fragments(&strings(&["Bonjour"])), "");
    assert_eq!(assemble_fragments(&strings(&["   "])), "");
    assert_eq!(assemble_fragments(&strings(&["```"])), "");
    assert_eq!(assemble_fragments(&strings(&[])), "");
}

#[test]
fn blank_fragments_before_the_preamble_are_kept() {
    let acc = accumulate_fragments(&strings(&[" ", "\n", "preamble", "", "x", " ", "y"]));
    assert_eq!(text(&acc), " \nx y");
    assert_eq!(assemble_fragments(&strings(&[" ", "\n", "preamble", "", "x", " ", "y"])), "x y");
}

#[test]
fn lines_that_are_no_json_are_passed_over() {
    let body = "garbage\n{\"response\":\"Hi\"}\n{not json}\n\n{\"response\":\"Guten \"}\n{\"response\":\n{\"response\":\"Tag\"}\ntrailing";
    assert_eq!(parse_response(body).unwrap(), "Guten Tag");
    let clean = "{\"response\":\"Hi\"}\n{\"response\":\"Guten \"}\n{\"response\":\"Tag\"}";
    assert_eq!(parse_response(clean).unwrap(), "Guten Tag");
}

#[test]
fn fragments_come_in_the_order_of_the_lines() {
    let body = "{\"response\":\"a\"}\nnoise\n{\"response\":\"\"}\r\n{\"done\":true}\n{\"response\":\" b\\n\"}";
    assert_eq!(response_fragments(body), strings(&["a", "", " b\n"]));
    assert!(response_fragments("").is_empty());
    assert!(response_fragments("no json here\n").is_empty());
}

#[test]
fn lines_without_a_string_under_response_carry_nothing() {
    let body = "{\"response\":\"skip\"}\n{\"done\":true}\n{\"response\":42}\n{\"response\":null}\n[\"response\"]\n\"response\"\n{\"response\":\"kept\",\"done\":false}";
    assert_eq!(parse_response(body).unwrap(), "kept");
}

#[test]
fn empty_answer_gives_empty_text() {
    assert_eq!(parse_response("").unwrap(), "");
    assert_eq!(parse_response("\n\n").unwrap(), "");
}

#[test]
fn answer_lines_may_end_with_carriage_return() {
    let body = "{\"response\":\"a\"}\r\n{\"response\":\"b\"}\r\n{\"response\":\"c\"}\r\n";
    assert_eq!(parse_response(body).unwrap(), "bc");
}

#[test]
fn fragment_of_line_reads_the_string_under_response() {
    assert_eq!(fragment_of_line("{\"response\":\"Bonjour\"}"), Some("Bonjour".to_string()));
    assert_eq!(fragment_of_line("{\"model\":\"m\",\"response\":\" le\",\"done\":false}"), Some(" le".to_string()));
    assert_eq!(fragment_of_line("{\"response\":\"\"}"), Some(String::new()));
    assert_eq!(fragment_of_line("{\"response\":\"a\\nb\\u00e9\\\"\"}"), Some("a\nb\u{e9}\"".to_string()));
    assert_eq!(fragment_of_line("  {\"response\" : \"x\"}  "), Some("x".to_string()));
}

#[test]
fn fragment_of_line_is_none_without_a_string_under_response() {
    assert_eq!(fragment_of_line(""), None);
    assert_eq!(fragment_of_line("response"), None);
    assert_eq!(fragment_of_line("\"response\""), None);
    assert_eq!(fragment_of_line("{\"response\":\"x\"} trailing"), None);
    assert_eq!(fragment_of_line("{\"response\":\"x\""), None);
    assert_eq!(fragment_of_line("{\"Response\":\"x\"}"), None);
    assert_eq!(fragment_of_line("{\"response\":1}"), None);
    assert_eq!(fragment_of_line("{\"response\":[\"x\"]}"), None);
    assert_eq!(fragment_of_line("{\"response\":{\"response\":\"x\"}}"), None);
    assert_eq!(fragment_of_line("{\"outer\":{\"response\":\"x\"}}"), None);
    assert_eq!(fragment_of_line("[{\"response\":\"x\"}]"), None);
    assert_eq!(fragment_of_line("null"), None);
}

#[test]
fn clean_drops_leading_noise_lines() {
    assert_eq!(clean_text(&chars("\n   \n<|im_start|>assistant\n```\nText\nmore")), "Text\nmore");
    assert_eq!(clean_text(&chars("\t\n\nText")), "Text");
}

#[test]
fn clean_keeps_a_chat_marker_after_the_first_body_line() {
    assert_eq!(clean_text(&chars("Text\n<|im_start|>\nmore")), "Text\n<|im_start|>\nmore");
}

#[test]
fn clean_stops_at_the_first_fenced_line() {
    assert_eq!(clean_text(&chars("one\ntwo\nthree ``` four\nfive")), "one\ntwo");
    assert_eq!(clean_text(&chars("```\ncode\n```\nafter")), "code");
    assert_eq!(clean_text(&chars("x\n```\nafter")), "x");
    assert_eq!(clean_text(&chars("```\n```\nafter")), "after");
}

#[test]
fn clean_trims_and_rejoins_with_line_feeds() {
    assert_eq!(clean_text(&chars("  a \r\n b\r\n\r\n")), "a \n b");
    assert_eq!(clean_text(&chars("a\rb")), "a\rb");
    assert_eq!(clean_text(&chars("\u{a0}a\u{3000}\n")), "a");
    assert_eq!(clean_text(&chars("")), "");
    assert_eq!(clean_text(&chars(" \n \n")), "");
}

#[test]
fn success_statuses_are_accepted() {
    assert!(check_status(200).is_ok());
    assert!(check_status(204).is_ok());
    assert!(check_status(299).is_ok());
}

#[test]
fn other_statuses_give_the_error_with_the_code() {
    assert!(matches!(check_status(500), Err(TranslationError::OllamaError(500))));
    assert!(matches!(check_status(404), Err(TranslationError::OllamaError(404))));
    assert!(matches!(check_status(300), Err(TranslationError::OllamaError(300))));
    assert!(matches!(check_status(199), Err(TranslationError::OllamaError(199))));
    assert!(matches!(check_status(0), Err(TranslationError::OllamaError(0))));
    assert!(matches!(check_status(65535), Err(TranslationError::OllamaError(65535))));
}

fn texts_of(tokens: &[&str], length: usize) -> Vec<String> {
    let mut all = vec![String::new()];
    let mut last = vec![String::new()];
    for _ in 0..length {
        let mut next = Vec::new();
        for text in last.iter() {
            for token in tokens {
                next.push(format!("{}{}", text, token));
            }
        }
        all.extend(next.iter().cloned());
        last = next;
    }
    all
}

#[test]
fn cleaning_is_trimming_exactly_where_no_line_is_cut_or_changed() {
    let tokens = ["<|im_start|>", "a", " ", "\n", "\r", "```", "`"];
    for text in texts_of(&tokens, 5) {
        let unfenced = !text.contains("```");
        let first_plain = text
            .lines()
            .find(|line| !line.trim().is_empty())
            .map_or(true, |line| !line.contains("<|im_start|>"));
        let unchanged = !text.trim().contains("\r\n");
        let cleaned = clean_text(&chars(&text));
        assert_eq!(
            cleaned == text.trim(),
            unfenced && first_plain && unchanged,
            "{:?} cleaned to {:?}",
            text,
            cleaned
        );
    }
}
