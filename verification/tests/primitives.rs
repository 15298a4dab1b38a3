//! Tests of the text helpers, the code-block resolver, the span model and
//! the top-level error sum.

use evcxr_errors::code_block::{
    count_columns, CodeBlock, CodeKind, CommandCall, Segment, UserCodeMetadata,
};
use evcxr_errors::errors::{sanitize_message, CompilationError, Error};
use evcxr_errors::span::{line_and_column, Span, SpannedMessage};
use evcxr_errors::text::{
    join_comma_strs, replace_all_str, split_lines, str_ends_with, str_starts_with, str_trim_end,
};

fn user_segment(code: &str, start_line: usize, column_offset: usize, node_index: usize) -> Segment {
    Segment {
        kind: CodeKind::OriginalUserCode(UserCodeMetadata { start_line, column_offset, node_index }),
        code: code.to_string(),
    }
}

#[test]
fn sanitize_replaces_every_occurrence() {
    assert_eq!(
        sanitize_message("expected `;`, found `evcxr_variable_store`"),
        "expected `;`, found <end of input>"
    );
    assert_eq!(
        sanitize_message("`evcxr_variable_store` and `evcxr_variable_store`"),
        "<end of input> and <end of input>"
    );
}

#[test]
fn sanitize_preserves_other_text() {
    assert_eq!(sanitize_message("nothing to see here"), "nothing to see here");
    // The bare identifier without backticks is not the sentinel.
    assert_eq!(sanitize_message("evcxr_variable_store"), "evcxr_variable_store");
}

#[test]
fn replace_all_scans_left_to_right() {
    assert_eq!(replace_all_str("aaa", "aa", "b"), "ba");
    assert_eq!(replace_all_str("abcabc", "b", "xy"), "axycaxyc");
    assert_eq!(replace_all_str("", "b", "xy"), "");
}

#[test]
fn prefix_and_suffix_tests() {
    assert!(str_starts_with("aborting due to 2 errors", "aborting due to"));
    assert!(!str_starts_with("due to", "aborting"));
    assert!(str_ends_with("/tmp/build/lib.rs", "lib.rs"));
    assert!(!str_ends_with("/tmp/build/main.rs", "lib.rs"));
    assert!(str_starts_with("abc", ""));
    assert!(str_ends_with("abc", ""));
}

#[test]
fn trim_end_removes_trailing_whitespace_only() {
    assert_eq!(str_trim_end("x.clone()  \n"), "x.clone()");
    assert_eq!(str_trim_end("  lead"), "  lead");
    assert_eq!(str_trim_end(""), "");
    assert_eq!(str_trim_end(" \t\r\n"), "");
}

#[test]
fn split_lines_matches_rust_semantics() {
    assert_eq!(split_lines("a\nb\n"), vec!["a".to_string(), "b".to_string()]);
    assert_eq!(split_lines("a\r\nb"), vec!["a".to_string(), "b".to_string()]);
    assert_eq!(split_lines(""), Vec::<String>::new());
    assert_eq!(split_lines("a\n\n"), vec!["a".to_string(), "".to_string()]);
    assert_eq!(split_lines("no newline"), vec!["no newline".to_string()]);
}

#[test]
fn join_with_comma_and_space() {
    assert_eq!(join_comma_strs(&Vec::<String>::new()), "");
    assert_eq!(join_comma_strs(&vec!["a".to_string()]), "a");
    assert_eq!(join_comma_strs(&vec!["a".to_string(), "b".to_string()]), "a, b");
}

#[test]
fn columns_count_characters() {
    assert_eq!(count_columns("hello"), 5);
    assert_eq!(count_columns(""), 0);
    assert_eq!(count_columns("héllo"), 5);
}

#[test]
fn text_helpers_handle_non_ascii() {
    assert_eq!(split_lines("héllo\nwörld"), vec!["héllo".to_string(), "wörld".to_string()]);
    assert_eq!(replace_all_str("héllo", "é", "e"), "hello");
    assert_eq!(line_and_column("héllo\nwörld", 8, 0, 1), (2, 3));
}

#[test]
fn origin_for_line_walks_segments() {
    let block = CodeBlock {
        segments: vec![
            Segment { kind: CodeKind::OtherGeneratedCode, code: "fn main() {\n".to_string() },
            user_segment("let a = 1;\nlet b = 2;\n", 1, 0, 5),
            Segment { kind: CodeKind::OtherGeneratedCode, code: "}\n".to_string() },
        ],
        prologue_offset: 20,
    };
    let (kind, offset) = block.origin_for_line(1);
    assert!(matches!(kind, CodeKind::OtherGeneratedCode));
    assert_eq!(offset, 0);
    let (kind, offset) = block.origin_for_line(3);
    assert!(matches!(kind, CodeKind::OriginalUserCode(_)));
    assert_eq!(offset, 1);
    let (kind, offset) = block.origin_for_line(4);
    assert!(matches!(kind, CodeKind::OtherGeneratedCode));
    assert_eq!(offset, 0);
    let (kind, _) = block.origin_for_line(9);
    assert!(matches!(kind, CodeKind::Unknown));
}

#[test]
fn line_and_column_counts_from_the_segment_base() {
    let text = "let a = 1;\nlet b = 2;\n";
    // Positions are character offsets within the segment's text.
    assert_eq!(line_and_column(text, 4, 0, 1), (1, 5));
    assert_eq!(line_and_column(text, 15, 0, 1), (2, 5));
    // The column offset applies to the first line only.
    assert_eq!(line_and_column(text, 4, 3, 10), (10, 8));
    assert_eq!(line_and_column(text, 15, 3, 10), (11, 5));
}

#[test]
fn span_from_segment_uses_the_segment_metadata() {
    let segment = user_segment("let a = 1;\nlet b = 2;\n", 7, 2, 0);
    let span = Span::from_segment(&segment, 4, 9).unwrap();
    assert_eq!(span.start_line, 7);
    assert_eq!(span.start_column, 7);
    assert_eq!(span.end_line, 7);
    assert_eq!(span.end_column, 12);
    let generated = Segment { kind: CodeKind::OtherGeneratedCode, code: "x\n".to_string() };
    assert!(Span::from_segment(&generated, 0, 1).is_none());
}

#[test]
fn span_from_command_spans_one_line() {
    let command = CommandCall {
        command: ":vars".to_string(),
        args: None,
        line_number: 3,
    };
    let span = Span::from_command(&command, 2, 6);
    assert_eq!(span.start_line, 3);
    assert_eq!(span.end_line, 3);
    assert_eq!(span.start_column, 2);
    assert_eq!(span.end_column, 6);
    assert_eq!(span.byte_start, 2);
    assert_eq!(span.byte_end, 6);
    assert_eq!(span.code_block_id, 0);
}

#[test]
fn synthesized_error_from_segment_span() {
    let segment = user_segment("let a = 1;\n", 1, 0, 0);
    let span = Span::from_segment(&segment, 4, 5).unwrap();
    let message = SpannedMessage::from_segment_span(&segment, span);
    assert!(message.is_primary);
    assert_eq!(message.lines, vec!["let a = 1;".to_string()]);
    let error =
        CompilationError::from_segment_span(&segment, message, "synthetic".to_string());
    assert_eq!(error.message(), "synthetic");
    assert_eq!(error.level(), "error");
    assert!(error.is_from_user_code());
}

#[test]
fn error_text_concatenates_compilation_errors() {
    let block = CodeBlock { segments: Vec::new(), prologue_offset: 20 };
    let first = CompilationError::opt_new(
        evcxr_errors::diagnostics::Diagnostic {
            message: evcxr_errors::diagnostics::MessageField::Text("first. ".to_string()),
            ..Default::default()
        },
        &block,
    )
    .unwrap();
    let second = CompilationError::opt_new(
        evcxr_errors::diagnostics::Diagnostic {
            message: evcxr_errors::diagnostics::MessageField::Text("second.".to_string()),
            ..Default::default()
        },
        &block,
    )
    .unwrap();
    let error = Error::CompilationErrors(vec![first, second]);
    assert_eq!(error.text(), "first. second.");
}

#[test]
fn error_text_for_lost_variables() {
    let error = Error::TypeRedefinedVariablesLost(vec!["a".to_string(), "b".to_string()]);
    assert_eq!(
        error.text(),
        "A type redefinition resulted in the following variables being lost: a, b"
    );
}

#[test]
fn error_text_passes_messages_through() {
    assert_eq!(Error::Message("plain".to_string()).text(), "plain");
    assert_eq!(Error::SubprocessTerminated("it died".to_string()).text(), "it died");
    let from_string: Error = Error::from("converted".to_string());
    assert_eq!(from_string.text(), "converted");
}
