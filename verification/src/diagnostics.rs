//! The structured diagnostic records the compiler (possibly wrapped by a
//! build tool) emits, modelled as plain values.  Every field is optional:
//! records are accepted as they come, and an absent field only restricts
//! what can be derived from the record.

use vstd::prelude::*;

verus! {

/// The compiler's short error code and its long explanation.
#[derive(Debug)]
pub struct DiagnosticCode {
    pub code: Option<String>,
    pub explanation: Option<String>,
}

/// The `message` field of a record: absent, prose, or — when a build tool
/// wraps the compiler's record — a whole nested record.
#[derive(Debug)]
pub enum MessageField {
    Absent,
    Text(String),
    Wrapped(Box<Diagnostic>),
}

/// One span of a diagnostic record.  Lines and columns are 1-based; bytes
/// are offsets in the file the compiler saw.
#[derive(Debug)]
pub struct DiagnosticSpan {
    pub file_name: Option<String>,
    pub line_start: Option<usize>,
    pub line_end: Option<usize>,
    pub column_start: Option<usize>,
    pub column_end: Option<usize>,
    pub byte_start: Option<usize>,
    pub byte_end: Option<usize>,
    pub label: Option<String>,
    pub is_primary: bool,
    pub suggested_replacement: Option<String>,
    /// The macro-call site this span expands from.
    pub expansion: Option<Box<DiagnosticSpan>>,
}

/// One structured diagnostic record, as the subprocess driver hands it in.
#[derive(Debug)]
pub struct Diagnostic {
    pub message: MessageField,
    pub level: Option<String>,
    pub code: Option<DiagnosticCode>,
    pub rendered: Option<String>,
    pub spans: Vec<DiagnosticSpan>,
    pub children: Vec<Diagnostic>,
}

impl Default for DiagnosticSpan {
    /// A span with every field absent.
    fn default() -> (r: Self)
        ensures
            r.file_name is None,
            r.line_start is None,
            r.line_end is None,
            r.column_start is None,
            r.column_end is None,
            r.byte_start is None,
            r.byte_end is None,
            r.label is None,
            !r.is_primary,
            r.suggested_replacement is None,
            r.expansion is None,
    {
        DiagnosticSpan {
            file_name: None,
            line_start: None,
            line_end: None,
            column_start: None,
            column_end: None,
            byte_start: None,
            byte_end: None,
            label: None,
            is_primary: false,
            suggested_replacement: None,
            expansion: None,
        }
    }
}

impl Default for Diagnostic {
    /// A record with every field absent.
    fn default() -> (r: Self)
        ensures
            r.message is Absent,
            r.level is None,
            r.code is None,
            r.rendered is None,
            r.spans@.len() == 0,
            r.children@.len() == 0,
    {
        Diagnostic {
            message: MessageField::Absent,
            level: None,
            code: None,
            rendered: None,
            spans: Vec::new(),
            children: Vec::new(),
        }
    }
}

} // verus!
