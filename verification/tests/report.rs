use page_render::report::{
    concat_blocks, mark, ErrorPos, FormatFault, SourceError, SourceErrorsWithSource, FILE_NAME,
    SOURCE_LIMIT, TAB_WIDTH,
};

fn error(message: &str, span: std::ops::Range<usize>, pos: ErrorPos) -> SourceError {
    SourceError { span, pos, message: message.to_string() }
}

fn report(source: &str, errors: Vec<SourceError>) -> Result<String, FormatFault> {
    SourceErrorsWithSource { source: source.to_string(), errors }.format()
}

#[test]
fn constants_are_those_of_the_report() {
    assert_eq!(FILE_NAME, "<user input>");
    assert_eq!(TAB_WIDTH, 2);
    assert_eq!(SOURCE_LIMIT, 1_000_000_000);
}

#[test]
fn marking_keeps_or_collapses_the_span() {
    assert_eq!(mark(&(3..7), ErrorPos::Full), 3..7);
    assert_eq!(mark(&(3..7), ErrorPos::Start), 3..3);
    assert_eq!(mark(&(3..7), ErrorPos::End), 7..7);
}

#[test]
fn label_is_the_marked_span_in_characters() {
    let text = "héllo world";
    assert_eq!(error("m", 5..5, ErrorPos::Start).label(text), Some(4..4));
    assert_eq!(error("m", 5..8, ErrorPos::Start).label(text), Some(4..4));
    assert_eq!(error("m", 5..8, ErrorPos::End).label(text), Some(7..7));
    assert_eq!(error("m", 5..8, ErrorPos::Full).label(text), None);
    assert_eq!(error("m", 5..5, ErrorPos::Full).label(text), Some(4..4));
    assert_eq!(error("m", 5..50, ErrorPos::End).label(text), None);
}

#[test]
fn blocks_are_joined_without_separators() {
    let blocks = vec!["one\n".to_string(), String::new(), "twö".to_string(), "3".to_string()];
    assert_eq!(concat_blocks(&blocks), "one\ntwö3");
    assert_eq!(concat_blocks(&Vec::new()), "");
}

#[test]
fn report_is_anchored_at_the_character_offset() {
    let text = report("héllo world", vec![error("syntax error", 5..5, ErrorPos::Start)]).unwrap();
    assert!(text.starts_with("Error: syntax error\n"));
    assert!(text.contains("syntax error"));
    // byte 5 is the fifth character of the first line
    assert!(text.contains("<user input>:1:5"));
    assert!(!text.contains(":1:6"));
    assert!(text.contains("héllo world"));
}

#[test]
fn report_is_plain_text() {
    let text = report("let x = ;", vec![error("expected expression", 8..8, ErrorPos::Start)])
        .unwrap();
    assert!(!text.contains('\u{1b}'));
    assert!(text.contains("<user input>:1:9"));
}

#[test]
fn report_shows_tabs_two_columns_wide() {
    let text = report("\tx", vec![error("m", 1..1, ErrorPos::Start)]).unwrap();
    assert!(text.contains("│   x\n"));
    assert!(!text.contains("│     x\n"));
}

#[test]
fn report_of_later_line_names_line_and_column() {
    let source = "first\nsecönd line\nthird";
    // the d of "secönd" is byte 12, the sixth character of the second line
    let text = report(source, vec![error("unknown variable", 12..14, ErrorPos::Start)]).unwrap();
    assert!(text.contains("Error: unknown variable"));
    assert!(text.contains("<user input>:2:6"));
    assert!(text.contains("secönd line"));
    assert!(!text.contains("third"));
}

#[test]
fn report_holds_one_block_for_each_diagnostic_in_order() {
    let source = "héllo world";
    let first = report(source, vec![error("first problem", 0..0, ErrorPos::Start)]).unwrap();
    let second = report(source, vec![error("second problem", 3..9, ErrorPos::End)]).unwrap();
    let both = report(
        source,
        vec![
            error("first problem", 0..0, ErrorPos::Start),
            error("second problem", 3..9, ErrorPos::End),
        ],
    )
    .unwrap();
    assert_eq!(both, format!("{first}{second}"));
    assert!(second.contains("<user input>:1:9"));
}

#[test]
fn report_without_diagnostics_is_empty() {
    assert_eq!(report("anything", Vec::new()), Ok(String::new()));
}

#[test]
fn report_is_repeatable() {
    let errors = SourceErrorsWithSource {
        source: "a + b".to_string(),
        errors: vec![error("unexpected plus", 2..2, ErrorPos::Full)],
    };
    assert_eq!(errors.format(), errors.format());
}

#[test]
fn report_fails_when_a_span_is_out_of_range() {
    assert_eq!(report("short", vec![error("m", 5..5, ErrorPos::Start)]), Err(FormatFault));
    assert_eq!(report("short", vec![error("m", 0..99, ErrorPos::End)]), Err(FormatFault));
    assert_eq!(report("", vec![error("m", 0..0, ErrorPos::Full)]), Err(FormatFault));
}

#[test]
fn report_fails_as_a_whole_when_one_span_fails() {
    let errors = vec![
        error("fine", 1..1, ErrorPos::Start),
        error("out of range", 40..40, ErrorPos::Start),
        error("fine too", 2..2, ErrorPos::Start),
    ];
    assert_eq!(report("hello", errors), Err(FormatFault));
}

#[test]
fn report_fails_for_a_full_span_that_is_not_empty() {
    assert_eq!(report("hello world", vec![error("m", 2..4, ErrorPos::Full)]), Err(FormatFault));
}

#[test]
fn try_format_writes_the_same_report() {
    let errors = SourceErrorsWithSource {
        source: "héllo world".to_string(),
        errors: vec![error("syntax error", 5..5, ErrorPos::Start)],
    };
    assert_eq!(errors.try_format(), Some(errors.format()));
    let faulty = SourceErrorsWithSource {
        source: "short".to_string(),
        errors: vec![error("m", 9..9, ErrorPos::Full)],
    };
    assert_eq!(faulty.try_format(), Some(Err(FormatFault)));
}

#[test]
fn diagnostic_is_cloned_field_by_field() {
    let original = error("unknown variable", 3..8, ErrorPos::End);
    let copy = original.clone();
    assert_eq!(copy.span, 3..8);
    assert_eq!(copy.pos, ErrorPos::End);
    assert_eq!(copy.message, "unknown variable");
}

#[test]
fn label_is_never_rendered_from_a_byte_offset() {
    // each ö takes two bytes, so the x is byte 6 but the fourth character
    let text = report("ööö x", vec![error("here", 6..6, ErrorPos::Full)]).unwrap();
    assert!(text.contains("<user input>:1:4"));
    assert!(!text.contains(":1:7"));
}

#[test]
fn every_block_starts_with_its_heading() {
    let source = "one\ntwo\nthree";
    let first = report(source, vec![error("first problem", 0..0, ErrorPos::Start)]).unwrap();
    assert!(first.starts_with("Error: first problem\n"));
    let both = report(
        source,
        vec![
            error("first problem", 0..0, ErrorPos::Start),
            error("second\tproblem: ünïcode", 4..4, ErrorPos::End),
        ],
    )
    .unwrap();
    assert!(both.starts_with("Error: first problem\n"));
    assert!(both[first.len()..].starts_with("Error: second\tproblem: ünïcode\n"));
}

#[test]
fn heading_holds_an_empty_message() {
    let text = report("x", vec![error("", 0..0, ErrorPos::Full)]).unwrap();
    assert!(text.starts_with("Error: \n"));
}
