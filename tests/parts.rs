use outlaw_format::consts::MAX_LINE_LENGTH;
use outlaw_format::formatting::Action;
use outlaw_format::{
    format_to_string, parse_document, wrap_document, wrap_long_lines, Block, Document,
    FormattedLine, LineType, RawLine,
};

fn chars(s: &str) -> Vec<char> {
    s.chars().collect()
}

#[test]
fn raw_line_counts_indent_and_trims() {
    let line = RawLine::from_string(" \t hello world  ");

    assert_eq!(line.num_indent, 3);
    assert_eq!(line.trimmed, chars("hello world"));
    assert_eq!(line.raw, chars(" \t hello world  "));
}

#[test]
fn raw_line_counts_unicode_whitespace_as_indent() {
    let line = RawLine::from_string("\u{3000}\u{a0}x");

    assert_eq!(line.num_indent, 2);
    assert_eq!(line.trimmed, chars("x"));
}

#[test]
fn line_types_follow_prefixes() {
    assert_eq!(LineType::from_raw(&chars("=== H")), LineType::Header);
    assert_eq!(LineType::from_raw(&chars("* b")), LineType::ListBulletPoint);
    assert_eq!(LineType::from_raw(&chars("[x] t")), LineType::ListTodoItem);
    assert_eq!(LineType::from_raw(&chars("| p")), LineType::Preformatted);
    assert_eq!(LineType::from_raw(&chars("```rust")), LineType::Preformatted);
    assert_eq!(LineType::from_raw(&chars("~~~")), LineType::Preformatted);
    assert_eq!(LineType::from_raw(&chars("> q")), LineType::Quote);
    assert_eq!(LineType::from_raw(&chars("===H")), LineType::Text);
    assert_eq!(LineType::from_raw(&chars("")), LineType::Text);
}

#[test]
fn prefixes_and_their_lengths() {
    assert_eq!(LineType::ListTodoItem.get_prefix(), "[");
    assert_eq!(LineType::ListTodoItem.get_prefix_length(), 4);
    assert_eq!(LineType::ListContinuousLine.get_prefix_length(), 2);
    assert_eq!(LineType::Text.get_prefix_length(), 0);
}

#[test]
fn parse_document_builds_blocks() {
    let document = parse_document("pre\n=== A\n  === B\nbody");

    assert_eq!(document.blocks.len(), 3);
    assert!(document.blocks[0].is_before_first_header);
    assert_eq!(document.blocks[1].header.indent_level, 0);
    assert_eq!(document.blocks[2].header.indent_level, 1);
    assert_eq!(document.blocks[2].contents.len(), 1);
    assert_eq!(document.blocks[2].contents[0].indent_level, 2);
    assert_eq!(document.blocks[2].contents[0].contents, chars("body"));
}

#[test]
fn wrap_long_lines_splits_and_settles() {
    let text = vec!["ab"; 10].join(" ");
    let mut lines = vec![FormattedLine::from_raw(RawLine::from_string(&text), 0)];
    let settled = wrap_long_lines(&mut lines, 8);

    assert!(settled);
    let got: Vec<String> = lines.iter().map(|l| l.contents.iter().collect()).collect();
    assert_eq!(got, vec!["ab ab ab", "ab ab ab", "ab ab ab", "ab"]);
}

#[test]
fn wrap_long_lines_reports_lines_left_long() {
    let text = vec!["w"; 300].join(" ");
    let mut lines = vec![FormattedLine::from_raw(RawLine::from_string(&text), 0)];
    let settled = wrap_long_lines(&mut lines, 2);

    assert!(!settled);
    assert_eq!(lines.len(), 101);
}

#[test]
fn wrap_document_wraps_every_block() {
    let text = format!("=== A\n{}\n=== B\n{}", "a ".repeat(100), "b ".repeat(100));
    let mut document = parse_document(&text);

    assert!(wrap_document(&mut document, MAX_LINE_LENGTH));
    assert_eq!(document.blocks[1].contents.len(), 2);
    assert_eq!(document.blocks[2].contents.len(), 2);
}

#[test]
fn document_built_by_hand_renders() {
    let mut document = Document::new();
    let mut block = Block::new(FormattedLine::from_raw(RawLine::from_string("=== T"), 1));
    block.add_line(FormattedLine::from_raw(RawLine::from_string("x"), 2));
    block.add_line(FormattedLine::empty());
    block.add_line(FormattedLine::empty());
    block.add_line(FormattedLine::from_raw(RawLine::from_string("y"), 2));
    document.add_block(block);

    assert_eq!(
        format_to_string(&document),
        "=== T\n\n        x\n\n        y\n"
    );
    assert_eq!(Document::default().blocks.len(), 1);
    assert_ne!(Action::Start, Action::InsertBodyText);
}

#[test]
fn raw_line_list_item_and_fence_marker() {
    assert!(RawLine::from_string("  * a").is_list_item());
    assert!(RawLine::from_string("[ ] a").is_list_item());
    assert!(!RawLine::from_string("> a").is_list_item());
    assert!(RawLine::from_string("  ```rust").contains_marker());
    assert!(RawLine::from_string("~~~").contains_marker());
    assert!(!RawLine::from_string("| x").contains_marker());
    assert!(RawLine::from_string(" \t ").is_empty());
    assert!(!RawLine::from_string(" x ").is_empty());
}

#[test]
fn indentation_of_lines_and_blocks() {
    let line = FormattedLine::from_raw(RawLine::from_string("text"), 3);
    assert_eq!(line.num_indent(), 12);
    assert!(!line.is_empty());
    assert!(FormattedLine::empty().is_empty());

    let first = Block::new(FormattedLine::empty());
    assert_eq!(first.contents_indent_level(), 0);
    let block = Block::new(FormattedLine::from_raw(RawLine::from_string("=== H"), 2));
    assert_eq!(block.contents_indent_level(), 3);
}
