use ollama_translator::text::{
    contains, is_blank_text, is_whitespace_char, join_range, matches_at, split_lines, to_chars,
    substring, trim_bounds,
};

fn cv(s: &str) -> Vec<char> {
    s.chars().collect()
}

fn lines_of(s: &str) -> Vec<String> {
    split_lines(&cv(s)).iter().map(|l| l.iter().collect::<String>()).collect()
}

fn trimmed(s: &str) -> String {
    let v = cv(s);
    let (from, to) = trim_bounds(&v);
    substring(&v, from, to)
}

const SAMPLES: [&str; 24] = [
    "",
    "\n",
    "\r\n",
    "\r",
    "a",
    "a\n",
    "a\r\n",
    "a\r",
    "a\nb",
    "a\r\nb",
    "a\n\nb",
    "a\n\r\nb\r",
    "\na",
    "\n\n",
    "a\r\r\nb",
    "foo\nbar\n\r\nbaz\r",
    "  lead",
    "trail  ",
    " \t both \u{a0}",
    "\u{2003}em\u{2003}",
    " \n ",
    "h\u{e9}llo w\u{f6}rld\n\u{4e16}\u{754c}",
    "x\u{85}y\u{2028}z",
    "\u{feff}bom",
];

#[test]
fn whitespace_is_what_std_calls_whitespace() {
    let mut n: u32 = 0;
    while n <= 0x10ffff {
        if let Some(c) = char::from_u32(n) {
            assert_eq!(is_whitespace_char(c), c.is_whitespace(), "U+{:04X}", n);
        }
        n += 1;
    }
}

#[test]
fn whitespace_examples() {
    assert!(is_whitespace_char(' '));
    assert!(is_whitespace_char('\n'));
    assert!(is_whitespace_char('\r'));
    assert!(is_whitespace_char('\t'));
    assert!(is_whitespace_char('\u{a0}'));
    assert!(!is_whitespace_char('a'));
    assert!(!is_whitespace_char('\u{200b}'));
    assert!(!is_whitespace_char('\u{1c}'));
}

#[test]
fn to_chars_and_back() {
    for s in SAMPLES {
        let v = to_chars(s);
        assert_eq!(v, cv(s));
        assert_eq!(substring(&v, 0, v.len()), s);
    }
    let v = to_chars("h\u{e9}llo");
    assert_eq!(substring(&v, 1, 3), "\u{e9}l");
    assert_eq!(substring(&v, 2, 2), "");
}

#[test]
fn lines_are_what_std_gives() {
    for s in SAMPLES {
        let expected: Vec<String> = s.lines().map(|l| l.to_string()).collect();
        assert_eq!(lines_of(s), expected, "{:?}", s);
    }
}

#[test]
fn lines_examples() {
    assert_eq!(lines_of("foo\nbar\n\r\nbaz\r"), vec!["foo", "bar", "", "baz\r"]);
    assert_eq!(lines_of("a\n"), vec!["a"]);
    assert_eq!(lines_of("\n"), vec![""]);
    assert_eq!(lines_of("a\r\r\n"), vec!["a\r"]);
    assert!(lines_of("").is_empty());
}

#[test]
fn trim_is_what_std_gives() {
    for s in SAMPLES {
        assert_eq!(trimmed(s), s.trim(), "{:?}", s);
    }
}

#[test]
fn trim_examples() {
    assert_eq!(trimmed("  a b \n"), "a b");
    assert_eq!(trimmed(" \t\r\n"), "");
    assert_eq!(trimmed("x"), "x");
    assert_eq!(trim_bounds(&cv("  ab ")), (2, 4));
    assert_eq!(trim_bounds(&cv("   ")), (3, 3));
}

#[test]
fn blank_is_empty_after_trimming() {
    for s in SAMPLES {
        assert_eq!(is_blank_text(&cv(s)), s.trim().is_empty(), "{:?}", s);
    }
    assert!(is_blank_text(&cv("")));
    assert!(is_blank_text(&cv(" \n\t")));
    assert!(!is_blank_text(&cv(" . ")));
}

#[test]
fn contains_is_what_std_gives() {
    let needles = ["", "a", "\n", "\r\n", "ab", "```", "<|im_start|>", "b\r", "llo w", "\u{754c}"];
    for s in SAMPLES {
        for n in needles {
            assert_eq!(contains(&cv(s), &cv(n)), s.contains(n), "{:?} in {:?}", n, s);
        }
    }
}

#[test]
fn contains_examples() {
    assert!(contains(&cv("say ```rust"), &cv("```")));
    assert!(contains(&cv("```"), &cv("```")));
    assert!(!contains(&cv("``"), &cv("```")));
    assert!(!contains(&cv("`` `"), &cv("```")));
    assert!(contains(&cv("x<|im_start|>"), &cv("<|im_start|>")));
    assert!(!contains(&cv("<|im_start>"), &cv("<|im_start|>")));
    assert!(contains(&cv(""), &cv("")));
    assert!(!contains(&cv(""), &cv("a")));
    assert!(matches_at(&cv("abcabc"), &cv("cab"), 2));
    assert!(!matches_at(&cv("abcabc"), &cv("cab"), 3));
}

#[test]
fn join_puts_line_feeds_between_lines() {
    let lines = vec![cv("a"), cv(""), cv("b c"), cv("d")];
    assert_eq!(join_range(&lines, 0, 4), cv("a\n\nb c\nd"));
    assert_eq!(join_range(&lines, 1, 3), cv("\nb c"));
    assert_eq!(join_range(&lines, 2, 3), cv("b c"));
    assert_eq!(join_range(&lines, 2, 2), cv(""));
    assert_eq!(join_range(&lines, 4, 4), cv(""));
}
