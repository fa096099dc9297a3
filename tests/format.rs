use outlaw_format::consts::MAX_LINE_LENGTH;

#[test]
fn format_empty_document() {
    let actual = outlaw_format::format("");

    assert_eq!(actual, "");
}

#[test]
fn nested_header_is_one_level_deeper_with_its_text_below_it() {
    let actual = outlaw_format::format("=== A\ntext\n  === B\ntext2");

    assert_eq!(
        actual,
        "=== A\n\n    text\n\n    === B\n\n        text2\n"
    );
}

#[test]
fn plain_line_after_bullet_continues_it() {
    assert_eq!(outlaw_format::format("* item\ncontinued"), "* item\n  continued\n");
    assert_eq!(
        outlaw_format::format("=== H\n\n* item\ncontinued"),
        "=== H\n\n    * item\n      continued\n"
    );
}

#[test]
fn unbreakable_token_stays_on_one_line() {
    let token = "x".repeat(300);
    let actual = outlaw_format::format(&format!("=== H\n{}", token));

    assert_eq!(actual, format!("=== H\n\n    {}\n", token));
}

#[test]
fn long_line_wraps_at_last_space_within_width() {
    let words = vec!["word"; 30].join(" ");
    assert_eq!(words.len(), 149);
    let actual = outlaw_format::format(&format!("=== H\n{}", words));
    let head = vec!["word"; 24].join(" ");
    let tail = vec!["word"; 6].join(" ");
    assert_eq!(head.len(), MAX_LINE_LENGTH);

    assert_eq!(actual, format!("=== H\n\n    {}\n    {}\n", head, tail));
}

#[test]
fn long_bullet_wraps_into_continuation_line() {
    let words = vec!["word"; 30].join(" ");
    let actual = outlaw_format::format(&format!("=== H\n\n* {}", words));
    // The split lies at the last whitespace at or before position 119 of "* word word ...".
    let head = format!("* {}", vec!["word"; 23].join(" "));
    let tail = format!("  {}", vec!["word"; 7].join(" "));

    assert_eq!(actual, format!("=== H\n\n    {}\n    {}\n", head, tail));
}

#[test]
fn long_quote_keeps_its_marker_on_the_wrapped_part() {
    let words = vec!["word"; 30].join(" ");
    let actual = outlaw_format::format(&format!("=== H\n> {}", words));
    let head = format!("> {}", vec!["word"; 23].join(" "));
    let tail = format!("> {}", vec!["word"; 7].join(" "));

    assert_eq!(actual, format!("=== H\n\n    {}\n    {}\n", head, tail));
}

#[test]
fn token_longer_than_width_splits_after_it() {
    let token = "y".repeat(130);
    let actual = outlaw_format::format(&format!("=== H\n{} rest of line", token));

    assert_eq!(actual, format!("=== H\n\n    {}\n    rest of line\n", token));
}

#[test]
fn preformatted_line_is_never_wrapped() {
    let body = format!("| {}", vec!["code"; 40].join(" "));
    let actual = outlaw_format::format(&format!("=== H\n{}", body));

    assert_eq!(actual, format!("=== H\n\n    {}\n", body));
}

#[test]
fn runs_of_blank_lines_collapse_to_one() {
    let actual = outlaw_format::format("=== H\n\n\n\ntext\n\n\n\nmore");

    assert_eq!(actual, "=== H\n\n    text\n\n    more\n");
    assert!(!actual.contains("\n\n\n"));
}

#[test]
fn header_dedent_reuses_level_of_header_with_same_indentation() {
    let actual = outlaw_format::format("=== A\n  === B\n    === C\n  === D\n=== E");

    assert_eq!(
        actual,
        "=== A\n\n    === B\n\n        === C\n\n    === D\n\n=== E\n\n"
    );
}

#[test]
fn header_dedent_without_match_goes_to_top_level() {
    let actual = outlaw_format::format("=== A\n  === B\n      === C\n    === D");

    assert_eq!(
        actual,
        "=== A\n\n    === B\n\n        === C\n\n=== D\n\n"
    );
}

#[test]
fn header_indented_far_nests_only_one_level() {
    let actual = outlaw_format::format("=== A\n                === B");

    assert_eq!(actual, "=== A\n\n    === B\n\n");
}

#[test]
fn nested_bullets_follow_their_indentation() {
    let actual = outlaw_format::format("=== H\n\n* a\n    * b\n        * c\n* d\n  * e");

    assert_eq!(
        actual,
        "=== H\n\n    * a\n        * b\n            * c\n    * d\n        * e\n"
    );
}

#[test]
fn bullet_dedent_without_match_goes_below_header() {
    let actual = outlaw_format::format("=== H\n\n    * a\n        * b\n  * c");

    assert_eq!(actual, "=== H\n\n    * a\n        * b\n    * c\n");
}

#[test]
fn todo_item_after_bullet_reads_as_continuation() {
    let actual = outlaw_format::format("=== H\n\n* a\n[ ] task");

    assert_eq!(actual, "=== H\n\n    * a\n      [ ] task\n");
}

#[test]
fn crlf_line_endings_read_as_line_feeds() {
    assert_eq!(
        outlaw_format::format("=== A\r\ntext\r\n"),
        outlaw_format::format("=== A\ntext\n")
    );
}

#[test]
fn text_before_first_header_stays_at_top_level() {
    assert_eq!(outlaw_format::format("a\nb\n=== H\nc"), "a\nb\n\n=== H\n\n    c\n");
}

#[test]
fn formatting_twice_changes_nothing() {
    let input = "intro\n=== A\n\ntext\n  === B\n\n* one\ncontinued\n    * two\n\n\n\n> quote\n| pre\n```rust\nfn main() {}\n```\n=== C\n";
    let long = format!("{}{}\n", input, vec!["word"; 60].join(" "));
    for text in [input.to_string(), long] {
        let once = outlaw_format::format(&text);
        let twice = outlaw_format::format(&once);
        assert_eq!(twice, once);
    }
}

#[test]
fn bullet_right_after_header_starts_at_level_zero() {
    let once = outlaw_format::format("=== A\n* x");

    assert_eq!(once, "=== A\n\n* x\n");
    assert_eq!(outlaw_format::format(&once), "=== A\n\n    * x\n");
}

#[test]
fn no_wrapped_body_line_exceeds_width() {
    let mut text = String::from("=== H\n\n");
    for n in 1..40 {
        let words: Vec<String> = (0..n * 3).map(|i| "w".repeat(1 + (i * 7 + n) % 11)).collect();
        text.push_str(&words.join(" "));
        text.push('\n');
    }
    text.push_str(&"z".repeat(200));
    text.push('\n');
    let out = outlaw_format::format(&text);
    for line in out.lines() {
        let body = line.trim_start();
        assert!(
            body.chars().count() <= MAX_LINE_LENGTH || !body.contains(' '),
            "line too long: {:?}",
            line
        );
    }
}

#[test]
fn first_line_before_any_header_is_at_top_level() {
    assert_eq!(outlaw_format::format("text\n* b"), "text\n* b\n");
    assert_eq!(outlaw_format::format("[ ] a\nb"), "[ ] a\n  b\n");
}

#[test]
fn blank_lines_inside_fenced_block_are_kept() {
    assert_eq!(outlaw_format::format("```\n\n\n```"), "```\n\n\n```\n");
    let actual = outlaw_format::format("=== H\n\n```\ncode\n\n\n\nmore\n```\n\n\n\nafter");

    assert_eq!(
        actual,
        "=== H\n\n    ```\n    code\n\n\n\n    more\n    ```\n\n    after\n"
    );
}

#[test]
fn tilde_fence_keeps_blank_lines_too() {
    let actual = outlaw_format::format("=== H\n~~~\na\n\n\nb\n~~~");

    assert_eq!(actual, "=== H\n\n    ~~~\n    a\n\n\n    b\n    ~~~\n");
}
