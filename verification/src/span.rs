//! Spans in the user's original input, and the spanned messages built from
//! diagnostic spans.

use vstd::prelude::*;
use crate::code_block::CodeBlock;
use crate::code_block::CommandCall;
use crate::code_block::Segment;
use crate::diagnostics::Diagnostic;
use crate::diagnostics::DiagnosticSpan;
use crate::origins::any_user;
use crate::origins::get_code_origins_for_span;
use crate::origins::sat_add;
use crate::origins::sat_add_spec;
use crate::origins::span_bytes;
use crate::origins::span_origin_kinds;
use crate::origins::span_origin_pairs;
use crate::text::ends_with;
use crate::text::lemma_rust_lines_bounds;
use crate::text::rust_lines;
use crate::text::split_lines;
use crate::text::str_ends_with;

verus! {

/// A place in the user's original input.  Lines and columns are 1-based;
/// `start_*` is inclusive, `end_line` is inclusive and `end_column` is
/// exclusive.  Bytes are offsets within the originating segment's text.
#[derive(Debug, Clone, Copy)]
pub struct Span {
    pub start_line: usize,
    pub start_column: usize,
    pub end_line: usize,
    pub end_column: usize,
    pub byte_start: usize,
    pub byte_end: usize,
    /// Which user input block the span belongs to.
    pub code_block_id: usize,
}

/// One message of a diagnostic, anchored in the user's input when the
/// anchor could be resolved.
#[derive(Debug)]
pub struct SpannedMessage {
    pub span: Option<Span>,
    /// The user's own lines covered by `span`, filled in later.
    pub lines: Vec<String>,
    pub label: String,
    pub is_primary: bool,
}

/// The mathematical value of a `SpannedMessage`.
#[verifier::ext_equal]
pub struct SpannedMessageView {
    pub span: Option<Span>,
    pub lines: Seq<Seq<char>>,
    pub label: Seq<char>,
    pub is_primary: bool,
}

impl View for SpannedMessage {
    type V = SpannedMessageView;

    open spec fn view(&self) -> SpannedMessageView {
        SpannedMessageView {
            span: self.span,
            lines: self.lines.deep_view(),
            label: self.label@,
            is_primary: self.is_primary,
        }
    }
}

impl DeepView for SpannedMessage {
    type V = SpannedMessageView;

    open spec fn deep_view(&self) -> SpannedMessageView {
        self.view()
    }
}

/// The label of a span record, or empty when absent.
pub open spec fn record_label(s: DiagnosticSpan) -> Seq<char> {
    match s.label {
        Some(l) => l@,
        None => Seq::empty(),
    }
}

/// The user-coordinate span a record yields directly at its own level: the
/// record must name the synthetic unit, carry columns, and its first and
/// last line origins must both be user-supplied.
pub open spec fn local_user_span(s: DiagnosticSpan, cb: CodeBlock) -> Option<Span> {
    if s.file_name is Some && s.column_start is Some && s.column_end is Some && ends_with(
        s.file_name->Some_0@,
        "lib.rs"@,
    ) {
        let pairs = span_origin_pairs(s, cb);
        let bytes = span_bytes(s, cb);
        if pairs.len() > 0 && pairs.first().0 is OriginalUserCode
            && pairs.last().0 is OriginalUserCode {
            let fm = pairs.first().0->OriginalUserCode_0;
            let fo = pairs.first().1;
            let lm = pairs.last().0->OriginalUserCode_0;
            let lo = pairs.last().1;
            Some(
                Span {
                    start_line: sat_add_spec(fm.start_line as nat, fo) as usize,
                    start_column: sat_add_spec(
                        s.column_start->Some_0 as nat,
                        if fo == 0 {
                            fm.column_offset as nat
                        } else {
                            0nat
                        },
                    ) as usize,
                    end_line: sat_add_spec(lm.start_line as nat, lo) as usize,
                    end_column: sat_add_spec(
                        s.column_end->Some_0 as nat,
                        if lo == 0 {
                            lm.column_offset as nat
                        } else {
                            0nat
                        },
                    ) as usize,
                    byte_start: bytes.0 as usize,
                    byte_end: bytes.1 as usize,
                    code_block_id: fm.node_index,
                },
            )
        } else {
            None
        }
    } else {
        None
    }
}

/// The spanned message built from a span record: the record's own span
/// when it resolves to user code; otherwise the innermost expansion span
/// that does, under the outermost label, with the primary flags combined;
/// otherwise a span-less message.
pub open spec fn spec_from_record(s: DiagnosticSpan, cb: CodeBlock) -> SpannedMessageView
    decreases s,
{
    let direct = local_user_span(s, cb);
    if direct is Some {
        SpannedMessageView {
            span: direct,
            lines: Seq::empty(),
            label: record_label(s),
            is_primary: s.is_primary,
        }
    } else {
        match s.expansion {
            Some(e) => {
                let inner = spec_from_record(*e, cb);
                if inner.span is Some {
                    SpannedMessageView {
                        span: inner.span,
                        lines: inner.lines,
                        label: if s.label is Some {
                            s.label->Some_0@
                        } else {
                            inner.label
                        },
                        is_primary: inner.is_primary || s.is_primary,
                    }
                } else {
                    SpannedMessageView {
                        span: None,
                        lines: Seq::empty(),
                        label: record_label(s),
                        is_primary: s.is_primary,
                    }
                }
            },
            None => SpannedMessageView {
                span: None,
                lines: Seq::empty(),
                label: record_label(s),
                is_primary: s.is_primary,
            },
        }
    }
}

/// The views of the messages built from each span of a record, in order.
pub open spec fn built_messages(spans: Seq<DiagnosticSpan>, cb: CodeBlock) -> Seq<
    SpannedMessageView,
> {
    spans.map_values(|s: DiagnosticSpan| spec_from_record(s, cb))
}

/// Whether any message of the list carries a user-coordinate span.
pub open spec fn has_user_span(ms: Seq<SpannedMessageView>) -> bool {
    exists|i: int| 0 <= i < ms.len() && ms[i].span is Some
}

/// The messages that carry a span, in order.
pub open spec fn keep_with_span(ms: Seq<SpannedMessageView>) -> Seq<SpannedMessageView>
    decreases ms.len(),
{
    if ms.len() == 0 {
        Seq::empty()
    } else if ms.first().span is Some {
        seq![ms.first()] + keep_with_span(ms.drop_first())
    } else {
        keep_with_span(ms.drop_first())
    }
}

/// The spanned messages of a record: one per span; when at least one
/// resolves to user code, the span-less ones are dropped.
pub open spec fn spec_build_spanned_messages(d: Diagnostic, cb: CodeBlock) -> Seq<
    SpannedMessageView,
> {
    let all = built_messages(d.spans@, cb);
    if has_user_span(all) {
        keep_with_span(all)
    } else {
        all
    }
}

impl SpannedMessage {
    /// Build the spanned message for one span record, following the
    /// expansion chain when the record's own span lies in generated code.
    pub fn from_record(span_record: &DiagnosticSpan, code_block: &CodeBlock) -> (r: SpannedMessage)
        ensures
            r@ == spec_from_record(*span_record, *code_block),
        decreases *span_record,
    {
        let mut span: Option<Span> = None;
        if span_record.file_name.is_some() && span_record.column_start.is_some()
            && span_record.column_end.is_some() {
            let file_name = span_record.file_name.as_ref().unwrap();
            if str_ends_with(file_name.as_str(), "lib.rs") {
                let (origins, bytes) = get_code_origins_for_span(span_record, code_block);
                let ghost pairs = span_origin_pairs(*span_record, *code_block);
                if origins.len() > 0 {
                    let n = origins.len();
                    let first_meta = origins[0].0.user_meta();
                    let last_meta = origins[n - 1].0.user_meta();
                    proof {
                        assert(pairs.first() == pairs[0]);
                        assert(pairs.last() == pairs[n - 1]);
                    }
                    if first_meta.is_some() && last_meta.is_some() {
                        let fm = first_meta.unwrap();
                        let lm = last_meta.unwrap();
                        let fo = origins[0].1;
                        let lo = origins[n - 1].1;
                        let cs = span_record.column_start.unwrap();
                        let ce = span_record.column_end.unwrap();
                        span = Some(
                            Span {
                                start_line: sat_add(fm.start_line, fo),
                                start_column: sat_add(
                                    cs,
                                    if fo == 0 {
                                        fm.column_offset
                                    } else {
                                        0
                                    },
                                ),
                                end_line: sat_add(lm.start_line, lo),
                                end_column: sat_add(
                                    ce,
                                    if lo == 0 {
                                        lm.column_offset
                                    } else {
                                        0
                                    },
                                ),
                                byte_start: bytes.0,
                                byte_end: bytes.1,
                                code_block_id: fm.node_index,
                            },
                        );
                    }
                }
                proof {
                    assert(span == local_user_span(*span_record, *code_block));
                }
            }
        }
        proof {
            assert(span == local_user_span(*span_record, *code_block));
        }
        if span.is_none() {
            match &span_record.expansion {
                Some(e) => {
                    let mut message = Self::from_record(&**e, code_block);
                    if message.span.is_some() {
                        match &span_record.label {
                            Some(label) => {
                                message.label = label.clone();
                            },
                            None => {},
                        }
                        message.is_primary = message.is_primary || span_record.is_primary;
                        proof {
                            assert(message@ =~= spec_from_record(*span_record, *code_block));
                        }
                        return message;
                    }
                },
                None => {},
            }
        }
        let result = SpannedMessage {
            span,
            lines: Vec::new(),
            label: match &span_record.label {
                Some(l) => l.clone(),
                None => String::new(),
            },
            is_primary: span_record.is_primary,
        };
        proof {
            assert(result@.lines =~= Seq::<Seq<char>>::empty());
            assert(result@ =~= spec_from_record(*span_record, *code_block));
        }
        result
    }

    /// A primary message spanning `span`, whose lines are the segment's own.
    pub fn from_segment_span(segment: &Segment, span: Span) -> (r: SpannedMessage)
        ensures
            r@.span == Some(span),
            r@.lines == rust_lines(segment.code@),
            r@.label == Seq::<char>::empty(),
            r@.is_primary,
    {
        SpannedMessage {
            span: Some(span),
            lines: split_lines(segment.code.as_str()),
            label: String::new(),
            is_primary: true,
        }
    }
}

/// Build one spanned message per span of the record; when at least one
/// carries a user-coordinate span, keep only those that do.
pub fn build_spanned_messages(diag: &Diagnostic, code_block: &CodeBlock) -> (r: Vec<SpannedMessage>)
    ensures
        r.deep_view() == spec_build_spanned_messages(*diag, *code_block),
{
    let ghost views = built_messages(diag.spans@, *code_block);
    let mut any = false;
    let mut i: usize = 0;
    while i < diag.spans.len()
        invariant
            i <= diag.spans@.len(),
            views == built_messages(diag.spans@, *code_block),
            views.len() == diag.spans@.len(),
            forall|j: int|
                0 <= j < views.len() ==> views[j] == spec_from_record(
                    diag.spans@[j],
                    *code_block,
                ),
            any ==> has_user_span(views),
            !any ==> forall|j: int| 0 <= j < i ==> !(views[j].span is Some),
        decreases diag.spans@.len() - i,
    {
        let m = SpannedMessage::from_record(&diag.spans[i], code_block);
        if m.span.is_some() {
            proof {
                assert(views[i as int].span is Some);
            }
            any = true;
        } else {
            proof {
                assert(views[i as int].span is None);
            }
        }
        i += 1;
    }
    proof {
        if !any {
            if has_user_span(views) {
                let ghost w = choose|j: int| 0 <= j < views.len() && views[j].span is Some;
                assert(!(views[w].span is Some));
            }
        }
    }
    let mut out: Vec<SpannedMessage> = Vec::new();
    let mut k: usize = 0;
    if any {
        proof {
            assert(out.deep_view() =~= Seq::<SpannedMessageView>::empty());
            assert(views.skip(0) =~= views);
            assert(out.deep_view() + keep_with_span(views) =~= keep_with_span(views));
        }
        while k < diag.spans.len()
            invariant
                k <= diag.spans@.len(),
                views == built_messages(diag.spans@, *code_block),
                views.len() == diag.spans@.len(),
                forall|j: int|
                    0 <= j < views.len() ==> views[j] == spec_from_record(
                        diag.spans@[j],
                        *code_block,
                    ),
                out.deep_view() + keep_with_span(views.skip(k as int)) == keep_with_span(views),
            decreases diag.spans@.len() - k,
        {
            let m = SpannedMessage::from_record(&diag.spans[k], code_block);
            proof {
                assert(views.skip(k as int).first() == views[k as int]);
                assert(views.skip(k as int).drop_first() =~= views.skip(k + 1));
            }
            if m.span.is_some() {
                let ghost pre = out.deep_view();
                out.push(m);
                proof {
                    assert(out.deep_view() =~= pre.push(m@));
                    assert(pre.push(m@) + keep_with_span(views.skip(k + 1)) =~= pre + (seq![m@]
                        + keep_with_span(views.skip(k + 1))));
                }
            }
            k += 1;
        }
        proof {
            assert(views.skip(views.len() as int) =~= Seq::<SpannedMessageView>::empty());
            assert(out.deep_view() + Seq::<SpannedMessageView>::empty() =~= out.deep_view());
            assert(has_user_span(views));
        }
    } else {
        while k < diag.spans.len()
            invariant
                k <= diag.spans@.len(),
                views == built_messages(diag.spans@, *code_block),
                views.len() == diag.spans@.len(),
                forall|j: int|
                    0 <= j < views.len() ==> views[j] == spec_from_record(
                        diag.spans@[j],
                        *code_block,
                    ),
                out.deep_view() =~= views.take(k as int),
            decreases diag.spans@.len() - k,
        {
            let m = SpannedMessage::from_record(&diag.spans[k], code_block);
            let ghost pre = out.deep_view();
            out.push(m);
            proof {
                assert(out.deep_view() =~= pre.push(m@));
                assert(views.take(k + 1) =~= views.take(k as int).push(views[k as int]));
            }
            k += 1;
        }
        proof {
            assert(views.take(views.len() as int) =~= views);
        }
    }
    out
}

/// The 1-based line and column of the character position `position` in
/// `text`, counting lines as `str::lines` does and columns in display
/// columns, shifted by the segment's place in the user's input.
pub open spec fn spec_line_and_column(
    text: Seq<char>,
    position: int,
    first_line_column_offset: nat,
    start_line: nat,
) -> (nat, nat) {
    let p = text.subrange(0, position);
    let ls = rust_lines(p);
    let line = ls.len();
    let col0: nat = if line == 0 {
        0
    } else {
        ls.last().len()
    };
    let col = col0 + 1 + (if line == 1 {
        first_line_column_offset
    } else {
        0nat
    });
    (((start_line + line) - 1) as nat, col)
}

/// The 1-based line and column of the character position `position` in
/// `text`.
pub fn line_and_column(
    text: &str,
    position: usize,
    first_line_column_offset: usize,
    start_line: usize,
) -> (r: (usize, usize))
    requires
        position <= text@.len(),
        start_line >= 1,
        start_line + text@.len() <= usize::MAX,
        first_line_column_offset + text@.len() + 1 <= usize::MAX,
    ensures
        r.0 == spec_line_and_column(
            text@,
            position as int,
            first_line_column_offset as nat,
            start_line as nat,
        ).0,
        r.1 == spec_line_and_column(
            text@,
            position as int,
            first_line_column_offset as nat,
            start_line as nat,
        ).1,
{
    let prefix = text.substring_char(0, position);
    let lines = split_lines(prefix);
    proof {
        lemma_rust_lines_bounds(prefix@);
        assert(lines.deep_view().len() == lines@.len());
    }
    let line = lines.len();
    let col0 = if line == 0 {
        0
    } else {
        let last = lines[line - 1].as_str();
        proof {
            assert(lines.deep_view()[line - 1] == lines@[line - 1]@);
            assert(rust_lines(prefix@).last() == rust_lines(prefix@)[line - 1]);
        }
        last.unicode_len()
    };
    let col = col0 + 1 + (if line == 1 {
        first_line_column_offset
    } else {
        0
    });
    ((start_line + line) - 1, col)
}

/// Whether every origin of `s` and of its whole expansion chain lies in
/// generated code.
pub open spec fn chain_all_generated(s: DiagnosticSpan, cb: CodeBlock) -> bool
    decreases s,
{
    !any_user(span_origin_kinds(s, cb)) && (match s.expansion {
        Some(e) => chain_all_generated(*e, cb),
        None => true,
    })
}

/// A span whose origins resolve entirely inside generated code, along its
/// whole expansion chain, yields a spanned message without a span.
pub proof fn lemma_generated_span_suppressed(s: DiagnosticSpan, cb: CodeBlock)
    requires
        chain_all_generated(s, cb),
    ensures
        spec_from_record(s, cb).span is None,
    decreases s,
{
    if local_user_span(s, cb) is Some {
        let pairs = span_origin_pairs(s, cb);
        let kinds = span_origin_kinds(s, cb);
        assert(kinds[0] == pairs[0].0);
        assert(pairs.first() == pairs[0]);
        assert(kinds[0] is OriginalUserCode);
        assert(any_user(kinds));
    }
    match s.expansion {
        Some(e) => lemma_generated_span_suppressed(*e, cb),
        None => {},
    }
}

/// A freshly built spanned message carries no source lines yet: they are
/// attached later, once the user's own text is at hand.
pub proof fn lemma_built_message_lines_empty(s: DiagnosticSpan, cb: CodeBlock)
    ensures
        spec_from_record(s, cb).lines == Seq::<Seq<char>>::empty(),
    decreases s,
{
    match s.expansion {
        Some(e) => lemma_built_message_lines_empty(*e, cb),
        None => {},
    }
}

/// Every message that `keep_with_span` keeps carries a span.
pub proof fn lemma_keep_with_span_all(ms: Seq<SpannedMessageView>)
    ensures
        forall|i: int|
            0 <= i < keep_with_span(ms).len() ==> (#[trigger] keep_with_span(ms)[i]).span is Some,
    decreases ms.len(),
{
    if ms.len() == 0 {
    } else {
        lemma_keep_with_span_all(ms.drop_first());
        if ms.first().span is Some {
            assert forall|i: int| 0 <= i < keep_with_span(ms).len() implies (
            #[trigger] keep_with_span(ms)[i]).span is Some by {
                if i > 0 {
                    assert(keep_with_span(ms)[i] == keep_with_span(ms.drop_first())[i - 1]);
                }
            }
        }
    }
}

/// Among the built spanned messages of a record, either every one carries
/// a user-coordinate span or none does.
pub proof fn lemma_spanned_messages_uniform(d: Diagnostic, cb: CodeBlock)
    ensures
        has_user_span(spec_build_spanned_messages(d, cb)) ==> forall|i: int|
            0 <= i < spec_build_spanned_messages(d, cb).len() ==> (
            #[trigger] spec_build_spanned_messages(d, cb)[i]).span is Some,
{
    let all = built_messages(d.spans@, cb);
    if has_user_span(all) {
        lemma_keep_with_span_all(all);
    }
}

impl Span {
    /// The 1-based coordinates of a character range within a user-supplied
    /// segment, or nothing for a generated segment.
    pub fn from_segment(segment: &Segment, range_start: usize, range_end: usize) -> (r: Option<
        Span,
    >)
        requires
            range_start <= segment.code@.len(),
            range_end <= segment.code@.len(),
            segment.kind is OriginalUserCode ==> ({
                let meta = segment.kind->OriginalUserCode_0;
                &&& meta.start_line >= 1
                &&& meta.start_line + segment.code@.len() <= usize::MAX
                &&& meta.column_offset + segment.code@.len() + 1 <= usize::MAX
            }),
        ensures
            match r {
                Some(sp) => {
                    let meta = segment.kind->OriginalUserCode_0;
                    let s = spec_line_and_column(
                        segment.code@,
                        range_start as int,
                        meta.column_offset as nat,
                        meta.start_line as nat,
                    );
                    let e = spec_line_and_column(
                        segment.code@,
                        range_end as int,
                        meta.column_offset as nat,
                        meta.start_line as nat,
                    );
                    &&& segment.kind is OriginalUserCode
                    &&& sp.start_line == s.0
                    &&& sp.start_column == s.1
                    &&& sp.end_line == e.0
                    &&& sp.end_column == e.1
                    &&& sp.byte_start == s.1
                    &&& sp.byte_end == e.1
                    &&& sp.code_block_id == 0
                },
                None => !(segment.kind is OriginalUserCode),
            },
    {
        let meta_opt = segment.kind.user_meta();
        if meta_opt.is_none() {
            return None;
        }
        let meta = meta_opt.unwrap();
        let (start_line, start_column) = line_and_column(
            segment.code.as_str(),
            range_start,
            meta.column_offset,
            meta.start_line,
        );
        let (end_line, end_column) = line_and_column(
            segment.code.as_str(),
            range_end,
            meta.column_offset,
            meta.start_line,
        );
        Some(
            Span {
                start_line,
                start_column,
                end_line,
                end_column,
                byte_start: start_column,
                byte_end: end_column,
                code_block_id: 0,
            },
        )
    }

    /// The span of a command call: one line, the given columns, the
    /// columns standing in for byte offsets.
    pub fn from_command(command: &CommandCall, start_column: usize, end_column: usize) -> (r: Span)
        ensures
            r.start_line == command.line_number,
            r.start_column == start_column,
            r.end_line == command.line_number,
            r.end_column == end_column,
            r.byte_start == start_column,
            r.byte_end == end_column,
            r.code_block_id == 0,
    {
        Span {
            start_line: command.line_number,
            start_column,
            end_line: command.line_number,
            end_column,
            byte_start: start_column,
            byte_end: end_column,
            code_block_id: 0,
        }
    }
}

} // verus!
