//! End-to-end tests of the compilation-error assembler.

use evcxr_errors::code_block::{CodeBlock, CodeKind, Segment, UserCodeInfo, UserCodeMetadata};
use evcxr_errors::diagnostics::{Diagnostic, DiagnosticCode, DiagnosticSpan, MessageField};
use evcxr_errors::errors::CompilationError;

fn empty_block() -> CodeBlock {
    CodeBlock { segments: Vec::new(), prologue_offset: 20 }
}

fn user_segment(code: &str, start_line: usize, column_offset: usize, node_index: usize) -> Segment {
    Segment {
        kind: CodeKind::OriginalUserCode(UserCodeMetadata { start_line, column_offset, node_index }),
        code: code.to_string(),
    }
}

fn generated_segment(code: &str) -> Segment {
    Segment { kind: CodeKind::OtherGeneratedCode, code: code.to_string() }
}

fn text_record(message: &str) -> Diagnostic {
    Diagnostic { message: MessageField::Text(message.to_string()), ..Default::default() }
}

fn local_span(line_start: usize, line_end: usize, cs: usize, ce: usize, bs: usize, be: usize) -> DiagnosticSpan {
    DiagnosticSpan {
        file_name: Some("/x/lib.rs".to_string()),
        line_start: Some(line_start),
        line_end: Some(line_end),
        column_start: Some(cs),
        column_end: Some(ce),
        byte_start: Some(bs),
        byte_end: Some(be),
        ..Default::default()
    }
}

#[test]
fn epilogue_records_are_suppressed() {
    let block = empty_block();
    for msg in [
        "aborting due to previous error",
        "For more information about this error, try `rustc --explain E0308`.",
        "Some errors occurred: E0308",
    ] {
        let mut record = text_record(msg);
        record.level = Some("error".to_string());
        assert!(CompilationError::opt_new(record, &block).is_none());
    }
}

#[test]
fn records_without_prose_are_suppressed() {
    let block = empty_block();
    let record = Diagnostic::default();
    assert!(CompilationError::opt_new(record, &block).is_none());
}

#[test]
fn sentinel_is_sanitized() {
    let block = empty_block();
    let mut record = text_record("expected `;`, found `evcxr_variable_store`");
    record.level = Some("error".to_string());
    let error = CompilationError::opt_new(record, &block).unwrap();
    assert_eq!(error.message(), "expected `;`, found <end of input>");
    assert_eq!(error.level(), "error");
}

#[test]
fn envelope_is_unwrapped() {
    let block = empty_block();
    let inner = text_record("real message");
    let record = Diagnostic {
        message: MessageField::Wrapped(Box::new(inner)),
        ..Default::default()
    };
    let error = CompilationError::opt_new(record, &block).unwrap();
    assert_eq!(error.message(), "real message");
}

#[test]
fn child_promotion_anchors_in_user_code() {
    // The whole generated file is one user segment starting at user line 1.
    let block = CodeBlock {
        segments: vec![user_segment("let x = 1;\nlet y = 2;\nlet z;\n", 1, 0, 7)],
        prologue_offset: 20,
    };
    let mut child = text_record("child message");
    child.spans = vec![local_span(3, 3, 5, 9, 40, 44)];
    let mut record = text_record("top-level message");
    record.children = vec![child];
    let error = CompilationError::opt_new(record, &block).unwrap();
    assert_eq!(error.message(), "child message");
    assert!(error.is_from_user_code());
    let messages = error.spanned_messages();
    assert_eq!(messages.len(), 1);
    let span = messages[0].span.unwrap();
    assert_eq!(span.start_line, 3);
    assert_eq!(span.start_column, 5);
    assert_eq!(span.end_line, 3);
    assert_eq!(span.end_column, 9);
    assert_eq!(span.code_block_id, 7);
}

#[test]
fn first_line_column_offset_is_applied() {
    let block = CodeBlock {
        segments: vec![user_segment("let x = 1;\n", 4, 8, 2)],
        prologue_offset: 20,
    };
    let mut record = text_record("boom");
    record.spans = vec![local_span(1, 1, 1, 4, 0, 3)];
    let error = CompilationError::opt_new(record, &block).unwrap();
    let span = error.spanned_messages()[0].span.unwrap();
    // Line 1 of the segment: the user-line base plus the column offset.
    assert_eq!(span.start_line, 4);
    assert_eq!(span.start_column, 9);
    assert_eq!(span.end_column, 12);
    assert_eq!(span.code_block_id, 2);
}

#[test]
fn generated_only_span_is_span_less() {
    let block = CodeBlock {
        segments: vec![generated_segment("fn main() {\n"), user_segment("1 + 1\n", 1, 0, 0)],
        prologue_offset: 20,
    };
    let mut record = text_record("oops");
    let mut span = local_span(1, 1, 1, 5, 0, 4);
    span.label = Some("borrowed value lives here".to_string());
    record.spans = vec![span];
    let error = CompilationError::opt_new(record, &block).unwrap();
    let messages = error.spanned_messages();
    assert_eq!(messages.len(), 1);
    assert!(messages[0].span.is_none());
    assert_eq!(messages[0].label, "borrowed value lives here");
    assert!(!error.is_from_user_code());
    assert!(error.is_from_generated_code());
}

#[test]
fn span_less_messages_are_dropped_when_a_user_span_exists() {
    let block = CodeBlock {
        segments: vec![user_segment("let q = ();\nq.foo();\n", 1, 0, 0)],
        prologue_offset: 20,
    };
    let mut record = text_record("two spans");
    let mut generated = local_span(9, 9, 1, 2, 0, 1);
    generated.label = Some("in generated code".to_string());
    let mut user = local_span(2, 2, 1, 2, 12, 13);
    user.is_primary = true;
    record.spans = vec![generated, user];
    let error = CompilationError::opt_new(record, &block).unwrap();
    let messages = error.spanned_messages();
    assert_eq!(messages.len(), 1);
    assert!(messages[0].span.is_some());
    assert!(messages[0].is_primary);
}

#[test]
fn all_span_less_messages_are_kept_when_none_resolves() {
    let block = CodeBlock {
        segments: vec![generated_segment("fn main() {\n}\n")],
        prologue_offset: 20,
    };
    let mut record = text_record("oops");
    record.spans = vec![local_span(1, 1, 1, 2, 0, 1), local_span(2, 2, 1, 2, 12, 13)];
    let error = CompilationError::opt_new(record, &block).unwrap();
    let messages = error.spanned_messages();
    assert_eq!(messages.len(), 2);
    assert!(messages.iter().all(|m| m.span.is_none()));
}

#[test]
fn expansion_chain_reaches_user_code() {
    let block = CodeBlock {
        segments: vec![user_segment("assert!(x);\n", 1, 0, 3)],
        prologue_offset: 20,
    };
    let inner = local_span(1, 1, 1, 8, 0, 7);
    let mut outer = DiagnosticSpan {
        expansion: Some(Box::new(inner)),
        ..Default::default()
    };
    outer.label = Some("outer label".to_string());
    outer.is_primary = true;
    let mut record = text_record("macro error");
    record.spans = vec![outer];
    let error = CompilationError::opt_new(record, &block).unwrap();
    let messages = error.spanned_messages();
    assert_eq!(messages.len(), 1);
    let span = messages[0].span.unwrap();
    assert_eq!(span.start_line, 1);
    assert_eq!(span.code_block_id, 3);
    // The inner span anchors the message; the outer label names it.
    assert_eq!(messages[0].label, "outer label");
    assert!(messages[0].is_primary);
}

#[test]
fn fill_lines_copies_the_covered_lines() {
    let block = CodeBlock {
        segments: vec![user_segment("let a = 1;\nlet b = 2;\nlet c;\n", 1, 0, 0)],
        prologue_offset: 20,
    };
    let mut record = text_record("boom");
    record.spans = vec![local_span(1, 2, 1, 3, 0, 12)];
    let mut error = CompilationError::opt_new(record, &block).unwrap();
    let info = UserCodeInfo {
        original_lines: vec!["let a = 1;".to_string(), "let b = 2;".to_string(), "let c;".to_string()],
    };
    error.fill_lines(&info);
    let messages = error.spanned_messages();
    let span = messages[0].span.unwrap();
    assert_eq!(messages[0].lines.len(), span.end_line - span.start_line + 1);
    assert_eq!(messages[0].lines, vec!["let a = 1;".to_string(), "let b = 2;".to_string()]);
}

#[test]
fn primary_message_is_preferred() {
    let block = CodeBlock {
        segments: vec![user_segment("let a = 1;\nlet b = 2;\n", 1, 0, 0)],
        prologue_offset: 20,
    };
    let mut record = text_record("boom");
    let first = local_span(1, 1, 1, 2, 0, 1);
    let mut second = local_span(2, 2, 1, 2, 11, 12);
    second.is_primary = true;
    record.spans = vec![first, second];
    let error = CompilationError::opt_new(record, &block).unwrap();
    let primary = error.primary_spanned_message().unwrap();
    assert!(primary.is_primary);
    assert_eq!(primary.span.unwrap().start_line, 2);
}

#[test]
fn first_message_stands_in_when_none_is_primary() {
    let block = CodeBlock {
        segments: vec![user_segment("let a = 1;\nlet b = 2;\n", 1, 0, 0)],
        prologue_offset: 20,
    };
    let mut record = text_record("boom");
    record.spans = vec![local_span(1, 1, 1, 2, 0, 1), local_span(2, 2, 1, 2, 11, 12)];
    let error = CompilationError::opt_new(record, &block).unwrap();
    let primary = error.primary_spanned_message().unwrap();
    assert_eq!(primary.span.unwrap().start_line, 1);
}

#[test]
fn no_messages_means_no_primary() {
    let block = empty_block();
    let error = CompilationError::opt_new(text_record("boom"), &block).unwrap();
    assert!(error.primary_spanned_message().is_none());
}

#[test]
fn code_explanation_and_rendered_are_read_back() {
    let block = empty_block();
    let mut record = text_record("boom");
    record.code = Some(DiagnosticCode {
        code: Some("E0308".to_string()),
        explanation: Some("Expected type did not match the received type.".to_string()),
    });
    record.rendered = Some("error[E0308]: mismatched types".to_string());
    let error = CompilationError::opt_new(record, &block).unwrap();
    assert_eq!(error.code(), Some("E0308"));
    assert_eq!(
        error.explanation(),
        Some("Expected type did not match the received type.")
    );
    assert_eq!(error.rendered(), "error[E0308]: mismatched types");
}

#[test]
fn extra_hint_for_reference_lifetimes() {
    let block = empty_block();
    let mut record = text_record("borrowed value does not live long enough");
    record.code = Some(DiagnosticCode { code: Some("E0597".to_string()), explanation: None });
    let error = CompilationError::opt_new(record, &block).unwrap();
    assert_eq!(
        error.evcxr_extra_hint(),
        Some("Values assigned to variables in Evcxr cannot contain references (unless they're static)")
    );
    let mut other = text_record("mismatched types");
    other.code = Some(DiagnosticCode { code: Some("E0308".to_string()), explanation: None });
    let error = CompilationError::opt_new(other, &block).unwrap();
    assert!(error.evcxr_extra_hint().is_none());
}

#[test]
fn help_children_are_aggregated() {
    let block = empty_block();
    let mut help_child = text_record("try adding a semicolon");
    help_child.level = Some("help".to_string());
    help_child.spans = vec![DiagnosticSpan {
        suggested_replacement: Some(";".to_string()),
        ..Default::default()
    }];
    let mut note_child = text_record("this is a note");
    note_child.level = Some("note".to_string());
    let mut record = text_record("boom");
    record.children = vec![help_child, note_child];
    let error = CompilationError::opt_new(record, &block).unwrap();
    assert_eq!(error.help(), vec!["try adding a semicolon\n\n;".to_string()]);
}

#[test]
fn help_replacement_is_trimmed() {
    let block = empty_block();
    let mut help_child = text_record("consider this");
    help_child.level = Some("help".to_string());
    help_child.spans = vec![DiagnosticSpan {
        suggested_replacement: Some("x.clone()  \n".to_string()),
        ..Default::default()
    }];
    let mut record = text_record("boom");
    record.children = vec![help_child];
    let error = CompilationError::opt_new(record, &block).unwrap();
    assert_eq!(error.help(), vec!["consider this\n\nx.clone()".to_string()]);
}

#[test]
fn actual_type_from_child_message() {
    let block = empty_block();
    let mut child = text_record("expected struct `String`, found enum `Option<String>`");
    let mut record = text_record("mismatched types");
    child.level = Some("note".to_string());
    record.children = vec![child];
    let error = CompilationError::opt_new(record, &block).unwrap();
    assert_eq!(error.get_actual_type(), Some("Option<String>".to_string()));
}

#[test]
fn actual_type_from_multiline_child_message() {
    let block = empty_block();
    let child = text_record("expected type `std::string::String`\n   found type `{integer}`");
    let mut record = text_record("mismatched types");
    record.children = vec![child];
    let error = CompilationError::opt_new(record, &block).unwrap();
    assert_eq!(error.get_actual_type(), Some("{integer}".to_string()));
}

#[test]
fn actual_type_from_unquoted_label() {
    let block = empty_block();
    let mut record = text_record("mismatched types");
    let mut span = DiagnosticSpan::default();
    span.label = Some("expected String, found integer".to_string());
    record.spans = vec![span];
    let error = CompilationError::opt_new(record, &block).unwrap();
    assert_eq!(error.get_actual_type(), Some("integer".to_string()));
}

#[test]
fn no_actual_type_for_other_errors() {
    let block = empty_block();
    let error = CompilationError::opt_new(text_record("cannot find value `x`"), &block).unwrap();
    assert!(error.get_actual_type().is_none());
}
