//! The origin resolver: mapping a diagnostic span in the synthetic
//! compilation unit to the segments it came from and to a segment-local
//! byte range.

use vstd::prelude::*;
use crate::code_block::CodeBlock;
use crate::code_block::CodeKind;
use crate::code_block::Segment;
use crate::code_block::origin_for_line_spec;
use crate::diagnostics::Diagnostic;
use crate::diagnostics::DiagnosticSpan;
use crate::text::ends_with;
use crate::text::str_ends_with;

verus! {

/// The innermost span of the expansion chain that lies in the synthetic
/// unit, whose file name always ends with `lib.rs`.
pub open spec fn spec_local_span(s: DiagnosticSpan) -> Option<DiagnosticSpan>
    decreases s,
{
    if s.file_name is Some && ends_with(s.file_name->Some_0@, "lib.rs"@) {
        Some(s)
    } else {
        match s.expansion {
            Some(e) => spec_local_span(*e),
            None => None,
        }
    }
}

/// The value of an absent field: zero.
pub open spec fn opt_or_zero(o: Option<usize>) -> nat {
    match o {
        Some(v) => v as nat,
        None => 0,
    }
}

/// The byte length of a segment's text.
pub open spec fn seg_byte_len(seg: Segment) -> nat {
    (vstd::utf8::encode_utf8(seg.code@).len() as usize) as nat
}

/// Addition clamped at the largest machine value.
pub open spec fn sat_add_spec(a: nat, b: nat) -> nat {
    if a + b > usize::MAX {
        usize::MAX as nat
    } else {
        a + b
    }
}

/// Walk the segments in order, subtracting each generated segment's byte
/// length from `b`, and stop at the first segment that reaches past `b` or
/// that holds user code.
pub open spec fn localize_byte(segs: Seq<Segment>, b: nat) -> nat
    decreases segs.len(),
{
    if segs.len() == 0 {
        b
    } else if seg_byte_len(segs[0]) > b {
        b
    } else if segs[0].kind is OriginalUserCode {
        b
    } else {
        localize_byte(segs.drop_first(), (b - seg_byte_len(segs[0])) as nat)
    }
}

/// The per-line origins of a span already known to be local: one
/// `(kind, segment-local line offset)` pair per spanned line.
pub open spec fn local_origin_pairs(local: DiagnosticSpan, segs: Seq<Segment>) -> Seq<
    (CodeKind, nat),
> {
    match (local.line_start, local.line_end) {
        (Some(ls), Some(le)) => if ls <= le {
            Seq::new((le - ls + 1) as nat, |i: int| origin_for_line_spec(segs, (ls + i) as nat))
        } else {
            Seq::empty()
        },
        _ => Seq::empty(),
    }
}

/// The per-line origins of `s`: empty when no span of the expansion chain
/// is local.
pub open spec fn span_origin_pairs(s: DiagnosticSpan, cb: CodeBlock) -> Seq<(CodeKind, nat)> {
    match spec_local_span(s) {
        Some(local) => local_origin_pairs(local, cb.segments@),
        None => Seq::empty(),
    }
}

/// The kinds alone of the per-line origins of `s`.
pub open spec fn span_origin_kinds(s: DiagnosticSpan, cb: CodeBlock) -> Seq<CodeKind> {
    span_origin_pairs(s, cb).map_values(|p: (CodeKind, nat)| p.0)
}

/// The segment-local byte range of `s`: the raw byte range plus the
/// prologue offset, localised by `localize_byte`; `(0, 0)` when no span of
/// the expansion chain is local.
pub open spec fn span_bytes(s: DiagnosticSpan, cb: CodeBlock) -> (nat, nat) {
    match spec_local_span(s) {
        Some(local) => (
            localize_byte(
                cb.segments@,
                sat_add_spec(opt_or_zero(local.byte_start), cb.prologue_offset as nat),
            ),
            localize_byte(
                cb.segments@,
                sat_add_spec(opt_or_zero(local.byte_end), cb.prologue_offset as nat),
            ),
        ),
        None => (0nat, 0nat),
    }
}

/// The origin kinds of all spans of a record, in span order.
pub open spec fn spans_origin_kinds(spans: Seq<DiagnosticSpan>, cb: CodeBlock) -> Seq<CodeKind>
    decreases spans.len(),
{
    if spans.len() == 0 {
        Seq::empty()
    } else {
        span_origin_kinds(spans[0], cb) + spans_origin_kinds(spans.drop_first(), cb)
    }
}

/// The origin kinds of a whole record.
pub open spec fn diag_origin_kinds(d: Diagnostic, cb: CodeBlock) -> Seq<CodeKind> {
    spans_origin_kinds(d.spans@, cb)
}

/// Whether any kind in the list marks user-supplied code.
pub open spec fn any_user(ks: Seq<CodeKind>) -> bool {
    exists|i: int| 0 <= i < ks.len() && ks[i] is OriginalUserCode
}

/// The innermost local span of the expansion chain, if any.
pub fn local_span<'a>(s: &'a DiagnosticSpan) -> (r: Option<&'a DiagnosticSpan>)
    ensures
        match r {
            Some(x) => spec_local_span(*s) == Some(*x),
            None => spec_local_span(*s) is None,
        },
    decreases *s,
{
    if let Some(f) = &s.file_name {
        if str_ends_with(f.as_str(), "lib.rs") {
            return Some(s);
        }
    }
    match &s.expansion {
        Some(e) => local_span(&**e),
        None => None,
    }
}

/// Addition clamped at the largest machine value.
pub fn sat_add(a: usize, b: usize) -> (r: usize)
    ensures
        r == sat_add_spec(a as nat, b as nat),
{
    if a > usize::MAX - b {
        usize::MAX
    } else {
        a + b
    }
}

/// Localise the byte offset `b` as `localize_byte` describes.
fn localize_byte_exec(segments: &Vec<Segment>, b0: usize) -> (r: usize)
    ensures
        r == localize_byte(segments@, b0 as nat),
{
    let mut b = b0;
    let mut i: usize = 0;
    proof {
        assert(segments@.skip(0) =~= segments@);
    }
    while i < segments.len()
        invariant
            i <= segments@.len(),
            localize_byte(segments@.skip(i as int), b as nat) == localize_byte(
                segments@,
                b0 as nat,
            ),
        decreases segments@.len() - i,
    {
        proof {
            assert(segments@.skip(i as int)[0] == segments@[i as int]);
            assert(segments@.skip(i as int).drop_first() =~= segments@.skip(i + 1));
        }
        let n = segments[i].code.as_str().len();
        if n > b {
            return b;
        }
        if segments[i].kind.is_user_supplied() {
            return b;
        }
        b = b - n;
        i += 1;
    }
    b
}

/// The per-line origins of `span` and its segment-local byte range.
pub fn get_code_origins_for_span(span: &DiagnosticSpan, code_block: &CodeBlock) -> (r: (
    Vec<(CodeKind, usize)>,
    (usize, usize),
))
    ensures
        r.0@.len() == span_origin_pairs(*span, *code_block).len(),
        forall|i: int|
            0 <= i < r.0@.len() ==> r.0@[i].0 == span_origin_pairs(*span, *code_block)[i].0
                && r.0@[i].1 == span_origin_pairs(*span, *code_block)[i].1,
        r.1.0 == span_bytes(*span, *code_block).0,
        r.1.1 == span_bytes(*span, *code_block).1,
{
    match local_span(span) {
        Some(local) => {
            let ghost pairs = span_origin_pairs(*span, *code_block);
            let mut origins: Vec<(CodeKind, usize)> = Vec::new();
            if local.line_start.is_some() && local.line_end.is_some() {
                let ls = match local.line_start {
                    Some(v) => v,
                    None => 0,
                };
                let le = match local.line_end {
                    Some(v) => v,
                    None => 0,
                };
                if ls <= le {
                    let mut line = ls;
                    loop
                        invariant_except_break
                            ls <= line <= le,
                            origins@.len() == line - ls,
                        invariant
                            pairs == span_origin_pairs(*span, *code_block),
                            pairs.len() == le - ls + 1,
                            forall|i: int|
                                0 <= i < pairs.len() ==> pairs[i] == origin_for_line_spec(
                                    code_block.segments@,
                                    (ls + i) as nat,
                                ),
                            origins@.len() <= pairs.len(),
                            forall|i: int|
                                0 <= i < origins@.len() ==> origins@[i].0 == pairs[i].0
                                    && origins@[i].1 == pairs[i].1,
                        ensures
                            origins@.len() == pairs.len(),
                        decreases le - line,
                    {
                        let o = code_block.origin_for_line(line);
                        proof {
                            assert(pairs[line - ls] == origin_for_line_spec(
                                code_block.segments@,
                                ((ls + line - ls) as int) as nat,
                            ));
                        }
                        origins.push(o);
                        if line == le {
                            break ;
                        }
                        line += 1;
                    }
                }
            }
            let bs0 = sat_add(
                match local.byte_start {
                    Some(v) => v,
                    None => 0,
                },
                code_block.prologue_offset,
            );
            let be0 = sat_add(
                match local.byte_end {
                    Some(v) => v,
                    None => 0,
                },
                code_block.prologue_offset,
            );
            let bs = localize_byte_exec(&code_block.segments, bs0);
            let be = localize_byte_exec(&code_block.segments, be0);
            (origins, (bs, be))
        },
        None => (Vec::new(), (0, 0)),
    }
}

/// The origin kinds of every span of `diag`, concatenated in span order.
pub fn get_code_origins(diag: &Diagnostic, code_block: &CodeBlock) -> (r: Vec<CodeKind>)
    ensures
        r@ == diag_origin_kinds(*diag, *code_block),
{
    let mut out: Vec<CodeKind> = Vec::new();
    let mut i: usize = 0;
    proof {
        assert(diag.spans@.skip(0) =~= diag.spans@);
        assert(out@ + spans_origin_kinds(diag.spans@, *code_block) =~= spans_origin_kinds(
            diag.spans@,
            *code_block,
        ));
    }
    while i < diag.spans.len()
        invariant
            i <= diag.spans@.len(),
            out@ + spans_origin_kinds(diag.spans@.skip(i as int), *code_block)
                == diag_origin_kinds(*diag, *code_block),
        decreases diag.spans@.len() - i,
    {
        let ghost pre = out@;
        let ghost kinds_i = span_origin_kinds(diag.spans@[i as int], *code_block);
        let (pairs, _bytes) = get_code_origins_for_span(&diag.spans[i], code_block);
        let mut j: usize = 0;
        while j < pairs.len()
            invariant
                j <= pairs@.len(),
                kinds_i == span_origin_kinds(diag.spans@[i as int], *code_block),
                pairs@.len() == kinds_i.len(),
                forall|k: int| 0 <= k < pairs@.len() ==> pairs@[k].0 == kinds_i[k],
                out@ == pre + kinds_i.take(j as int),
            decreases pairs@.len() - j,
        {
            out.push(pairs[j].0.clone());
            proof {
                assert(kinds_i.take(j + 1) =~= kinds_i.take(j as int).push(kinds_i[j as int]));
                assert(out@ =~= pre + kinds_i.take(j + 1));
            }
            j += 1;
        }
        proof {
            assert(kinds_i.take(kinds_i.len() as int) =~= kinds_i);
            assert(diag.spans@.skip(i as int)[0] == diag.spans@[i as int]);
            assert(diag.spans@.skip(i as int).drop_first() =~= diag.spans@.skip(i + 1));
            assert(spans_origin_kinds(diag.spans@.skip(i as int), *code_block) == kinds_i
                + spans_origin_kinds(diag.spans@.skip(i + 1), *code_block));
            assert((pre + kinds_i) + spans_origin_kinds(diag.spans@.skip(i + 1), *code_block)
                =~= pre + (kinds_i + spans_origin_kinds(diag.spans@.skip(i + 1), *code_block)));
        }
        i += 1;
    }
    proof {
        assert(diag.spans@.skip(diag.spans@.len() as int) =~= Seq::<DiagnosticSpan>::empty());
        assert(out@ + Seq::<CodeKind>::empty() =~= out@);
    }
    out
}

/// Whether any kind in `ks` marks user-supplied code.
pub fn any_user_exec(ks: &Vec<CodeKind>) -> (r: bool)
    ensures
        r == any_user(ks@),
{
    let mut i: usize = 0;
    while i < ks.len()
        invariant
            i <= ks@.len(),
            forall|j: int| 0 <= j < i ==> !(ks@[j] is OriginalUserCode),
        decreases ks@.len() - i,
    {
        if ks[i].is_user_supplied() {
            return true;
        }
        i += 1;
    }
    false
}

} // verus!
