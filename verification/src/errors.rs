//! The compilation-error assembler: turn raw diagnostic records into
//! errors anchored in the user's input, and the unified error sum the
//! upper layers observe.

use vstd::prelude::*;
use vstd::string::StrSliceExecFns;
use vstd::string::StringExecFns;
use crate::code_block::CodeBlock;
use crate::code_block::CodeKind;
use crate::code_block::Segment;
use crate::code_block::UserCodeInfo;
use crate::diagnostics::Diagnostic;
use crate::diagnostics::DiagnosticSpan;
use crate::diagnostics::MessageField;
use crate::origins::any_user;
use crate::origins::any_user_exec;
use crate::origins::diag_origin_kinds;
use crate::origins::get_code_origins;
use crate::span::SpannedMessage;
use crate::span::SpannedMessageView;
use crate::span::build_spanned_messages;
use crate::span::spec_build_spanned_messages;
use crate::text::has_sub;
use crate::text::join_comma;
use crate::text::join_comma_strs;
use crate::text::lemma_replace_all_absent;
use crate::text::lemma_replace_all_removes;
use crate::text::replace_all;
use crate::text::replace_all_str;
use crate::text::starts_with;
use crate::text::str_eq;
use crate::text::str_starts_with;
use crate::text::str_trim_end;
use crate::text::trim_end_spec;

verus! {

/// The sentinel identifier the generator places at the end of the
/// synthetic variable store.
pub open spec fn sentinel() -> Seq<char> {
    "`evcxr_variable_store`"@
}

/// What references to the sentinel are replaced by.
pub open spec fn end_marker() -> Seq<char> {
    "<end of input>"@
}

/// The sanitised form of a message: every reference to the sentinel
/// replaced by the end-of-input marker.
pub open spec fn sanitized(m: Seq<char>) -> Seq<char> {
    replace_all(m, sentinel(), end_marker())
}

/// Replace references to the sentinel identifier — a name past the end of
/// what the user typed — with something meaningful to the user.
pub fn sanitize_message(message: &str) -> (r: String)
    ensures
        r@ == sanitized(message@),
{
    proof {
        reveal_strlit("`evcxr_variable_store`");
    }
    replace_all_str(message, "`evcxr_variable_store`", "<end of input>")
}

/// The sanitised message holds no occurrence of the sentinel, and a
/// message without the sentinel is left exactly as it was.
pub proof fn lemma_sanitize(m: Seq<char>)
    ensures
        !has_sub(sanitized(m), sentinel()),
        !has_sub(m, sentinel()) ==> sanitized(m) == m,
{
    reveal_strlit("`evcxr_variable_store`");
    reveal_strlit("<end of input>");
    assert(sentinel()[0] == '`');
    assert(end_marker()[0] == '<');
    assert(forall|k: int| 0 <= k < end_marker().len() ==> end_marker()[k] != '`');
    assert(forall|k: int| 0 <= k < sentinel().len() ==> sentinel()[k] != '<');
    lemma_replace_all_removes(m, sentinel(), end_marker());
    if !has_sub(m, sentinel()) {
        lemma_replace_all_absent(m, sentinel(), end_marker());
    }
}

/// Whether a message is one of the epilogue summaries the compiler emits
/// after the real diagnostics.
pub open spec fn is_epilogue(m: Seq<char>) -> bool {
    starts_with(m, "aborting due to"@) || starts_with(m, "For more information about"@)
        || starts_with(m, "Some errors occurred"@)
}

/// Whether a message is one of the epilogue summaries.
pub fn is_epilogue_exec(m: &str) -> (r: bool)
    ensures
        r == is_epilogue(m@),
{
    str_starts_with(m, "aborting due to") || str_starts_with(m, "For more information about")
        || str_starts_with(m, "Some errors occurred")
}

/// Some build tools wrap the compiler's record in an envelope whose
/// `message` field holds the real record; unwrap one such envelope.
pub open spec fn unwrap_envelope(d: Diagnostic) -> Diagnostic {
    match d.message {
        MessageField::Wrapped(inner) => *inner,
        _ => d,
    }
}

/// Walk the children in order, merging each child's origins into the
/// accumulated list, until a child refers to user code while the list so
/// far does not; that child replaces the record.
pub open spec fn promote(children: Seq<Diagnostic>, acc: Seq<CodeKind>, cb: CodeBlock) -> (
    Option<Diagnostic>,
    Seq<CodeKind>,
)
    decreases children.len(),
{
    if children.len() == 0 {
        (None, acc)
    } else {
        let co = diag_origin_kinds(children.first(), cb);
        if !any_user(acc) && any_user(co) {
            (Some(children.first()), co)
        } else {
            promote(children.drop_first(), acc + co, cb)
        }
    }
}

/// The record the assembler works on after envelope unwrapping and child
/// promotion, with its accumulated code origins.
pub open spec fn working_record(d: Diagnostic, cb: CodeBlock) -> (Diagnostic, Seq<CodeKind>) {
    let d1 = unwrap_envelope(d);
    let p = promote(d1.children@, diag_origin_kinds(d1, cb), cb);
    (
        match p.0 {
            Some(c) => c,
            None => d1,
        },
        p.1,
    )
}

/// Whether the assembler suppresses the record outright: its working
/// record has no prose message, or the message is an epilogue summary.
pub open spec fn assembles_to_none(d: Diagnostic, cb: CodeBlock) -> bool {
    let w = working_record(d, cb).0;
    !(w.message is Text) || is_epilogue(w.message->Text_0@)
}

/// A record whose own message is an epilogue summary, and whose children
/// never take its place, assembles to nothing.
pub proof fn lemma_epilogue_suppressed(d: Diagnostic, cb: CodeBlock)
    requires
        d.message is Text,
        is_epilogue(d.message->Text_0@),
        forall|i: int|
            0 <= i < d.children@.len() ==> !any_user(
                diag_origin_kinds(#[trigger] d.children@[i], cb),
            ),
    ensures
        assembles_to_none(d, cb),
{
    assert(unwrap_envelope(d) == d);
    lemma_promote_no_user(d.children@, diag_origin_kinds(d, cb), cb);
}

/// When no child refers to user code, promotion never replaces the record.
proof fn lemma_promote_no_user(children: Seq<Diagnostic>, acc: Seq<CodeKind>, cb: CodeBlock)
    requires
        forall|i: int|
            0 <= i < children.len() ==> !any_user(diag_origin_kinds(#[trigger] children[i], cb)),
    ensures
        promote(children, acc, cb).0 is None,
    decreases children.len(),
{
    if children.len() == 0 {
    } else {
        assert(children[0] == children.first());
        assert forall|i: int| 0 <= i < children.drop_first().len() implies !any_user(
            diag_origin_kinds(#[trigger] children.drop_first()[i], cb),
        ) by {
            assert(children.drop_first()[i] == children[i + 1]);
        }
        lemma_promote_no_user(
            children.drop_first(),
            acc + diag_origin_kinds(children.first(), cb),
            cb,
        );
    }
}

/// A structured compilation error: sanitised prose, the raw record it came
/// from, the provenance of the code it points at, and one message per
/// surviving span.
#[derive(Debug)]
pub struct CompilationError {
    message: String,
    raw: Diagnostic,
    code_origins: Vec<CodeKind>,
    spanned_messages: Vec<SpannedMessage>,
    level: String,
}

/// The mathematical value of a `CompilationError`.
#[verifier::ext_equal]
pub struct CompilationErrorView {
    pub message: Seq<char>,
    pub raw: Diagnostic,
    pub code_origins: Seq<CodeKind>,
    pub spanned_messages: Seq<SpannedMessageView>,
    pub level: Seq<char>,
}

impl View for CompilationError {
    type V = CompilationErrorView;

    closed spec fn view(&self) -> CompilationErrorView {
        CompilationErrorView {
            message: self.message@,
            raw: self.raw,
            code_origins: self.code_origins@,
            spanned_messages: self.spanned_messages.deep_view(),
            level: self.level@,
        }
    }
}

impl CompilationError {
    /// Assemble a compilation error from one diagnostic record, or nothing
    /// for an epilogue summary or a record without prose.
    pub fn opt_new(record: Diagnostic, code_block: &CodeBlock) -> (r: Option<CompilationError>)
        ensures
            r is None <==> assembles_to_none(record, *code_block),
            r matches Some(e) ==> ({
                let w = working_record(record, *code_block).0;
                let ks = working_record(record, *code_block).1;
                &&& w.message is Text
                &&& !is_epilogue(w.message->Text_0@)
                &&& e@.message == sanitized(w.message->Text_0@)
                &&& e@.raw == w
                &&& e@.code_origins == ks
                &&& e@.spanned_messages == spec_build_spanned_messages(w, *code_block)
                &&& e@.level == (match w.level {
                    Some(l) => l@,
                    None => Seq::<char>::empty(),
                })
            }),
    {
        let ghost record0 = record;
        let mut diag = match record {
            Diagnostic { message: MessageField::Wrapped(inner), .. } => *inner,
            other => other,
        };
        proof {
            assert(diag == unwrap_envelope(record0));
        }
        let ghost d1 = diag;
        let ghost ks0 = diag_origin_kinds(d1, *code_block);
        let mut code_origins = get_code_origins(&diag, code_block);
        let mut i: usize = 0;
        let mut found = false;
        proof {
            assert(diag.children@.skip(0) =~= diag.children@);
        }
        while i < diag.children.len()
            invariant_except_break
                !found,
                i <= diag.children@.len(),
                promote(diag.children@.skip(i as int), code_origins@, *code_block) == promote(
                    diag.children@,
                    ks0,
                    *code_block,
                ),
            invariant
                diag == d1,
                ks0 == diag_origin_kinds(d1, *code_block),
                i <= diag.children@.len(),
            ensures
                found ==> i < diag.children@.len() && promote(diag.children@, ks0, *code_block)
                    == (Some(diag.children@[i as int]), code_origins@),
                !found ==> promote(diag.children@, ks0, *code_block) == (
                    None::<Diagnostic>,
                    code_origins@,
                ),
            decreases diag.children@.len() - i,
        {
            proof {
                assert(diag.children@.skip(i as int).first() == diag.children@[i as int]);
                assert(diag.children@.skip(i as int).drop_first() =~= diag.children@.skip(i + 1));
            }
            let mut child_origins = get_code_origins(&diag.children[i], code_block);
            let acc_user = any_user_exec(&code_origins);
            let child_user = any_user_exec(&child_origins);
            if !acc_user && child_user {
                code_origins = child_origins;
                found = true;
                break ;
            }
            code_origins.append(&mut child_origins);
            i += 1;
        }
        proof {
            if i == diag.children@.len() && !found {
                assert(diag.children@.skip(i as int) =~= Seq::<Diagnostic>::empty());
            }
        }
        let working = if found {
            diag.children.remove(i)
        } else {
            diag
        };
        proof {
            assert(working == working_record(record0, *code_block).0);
            assert(code_origins@ == working_record(record0, *code_block).1);
        }
        let mut message = String::new();
        let mut have_message = false;
        match &working.message {
            MessageField::Text(m) => {
                if !is_epilogue_exec(m.as_str()) {
                    message = sanitize_message(m.as_str());
                    have_message = true;
                }
            },
            _ => {},
        }
        if !have_message {
            return None;
        }
        let spanned_messages = build_spanned_messages(&working, code_block);
        let level = match &working.level {
            Some(l) => l.clone(),
            None => String::new(),
        };
        Some(
            CompilationError { message, raw: working, code_origins, spanned_messages, level },
        )
    }
}

/// Whether any kind in the list is evaluator-generated code.
pub open spec fn any_generated(ks: Seq<CodeKind>) -> bool {
    exists|i: int| 0 <= i < ks.len() && ks[i] is OtherGeneratedCode
}

/// The compiler's short error code carried by a record.
pub open spec fn spec_code(d: Diagnostic) -> Option<Seq<char>> {
    match d.code {
        Some(c) => match c.code {
            Some(s) => Some(s@),
            None => None,
        },
        None => None,
    }
}

/// The long explanation carried by a record.
pub open spec fn spec_explanation(d: Diagnostic) -> Option<Seq<char>> {
    match d.code {
        Some(c) => match c.explanation {
            Some(s) => Some(s@),
            None => None,
        },
        None => None,
    }
}

/// The first spanned message marked primary, if any.
pub open spec fn first_primary(ms: Seq<SpannedMessageView>) -> Option<SpannedMessageView>
    decreases ms.len(),
{
    if ms.len() == 0 {
        None
    } else if ms.first().is_primary {
        Some(ms.first())
    } else {
        first_primary(ms.drop_first())
    }
}

/// The message `primary_spanned_message` picks: the first primary entry,
/// else the first entry, else none.
pub open spec fn spec_primary(ms: Seq<SpannedMessageView>) -> Option<SpannedMessageView> {
    match first_primary(ms) {
        Some(m) => Some(m),
        None => if ms.len() > 0 {
            Some(ms.first())
        } else {
            None
        },
    }
}

/// What `first_primary` returns: a primary entry preceded by none, when
/// one exists at all.
pub proof fn lemma_first_primary(ms: Seq<SpannedMessageView>)
    ensures
        match first_primary(ms) {
            Some(m) => exists|i: int|
                0 <= i < ms.len() && ms[i] == m && ms[i].is_primary && forall|j: int|
                    0 <= j < i ==> !(#[trigger] ms[j]).is_primary,
            None => forall|j: int| 0 <= j < ms.len() ==> !(#[trigger] ms[j]).is_primary,
        },
    decreases ms.len(),
{
    if ms.len() == 0 {
    } else if ms.first().is_primary {
        let w: int = 0;
        assert(ms[w] == ms.first());
    } else {
        lemma_first_primary(ms.drop_first());
        match first_primary(ms.drop_first()) {
            Some(m) => {
                let i = choose|i: int|
                    0 <= i < ms.drop_first().len() && ms.drop_first()[i] == m
                        && ms.drop_first()[i].is_primary && forall|j: int|
                        0 <= j < i ==> !(#[trigger] ms.drop_first()[j]).is_primary;
                assert(ms[i + 1] == ms.drop_first()[i]);
                assert forall|j: int| 0 <= j < i + 1 implies !(#[trigger] ms[j]).is_primary by {
                    if j > 0 {
                        assert(ms.drop_first()[j - 1] == ms[j]);
                    }
                }
            },
            None => {
                assert forall|j: int| 0 <= j < ms.len() implies !(#[trigger] ms[j]).is_primary by {
                    if j > 0 {
                        assert(ms.drop_first()[j - 1] == ms[j]);
                    }
                }
            },
        }
    }
}

/// The help text contributed by one child: present when the child is a
/// `help` diagnostic with prose, with the trimmed suggested replacement of
/// its first span appended after a blank line.
pub open spec fn spec_help_one(child: Diagnostic) -> Option<Seq<char>> {
    if child.level is Some && child.level->Some_0@ == "help"@ {
        match child.message {
            MessageField::Text(m) => Some(m@ + help_suffix(child)),
            _ => None,
        }
    } else {
        None
    }
}

/// The suggested-replacement suffix of a help child.
pub open spec fn help_suffix(child: Diagnostic) -> Seq<char> {
    if child.spans@.len() > 0 && child.spans@[0].suggested_replacement is Some {
        "\n\n"@ + trim_end_spec(child.spans@[0].suggested_replacement->Some_0@)
    } else {
        Seq::empty()
    }
}

/// The help texts of all children, in order.
pub open spec fn spec_help(children: Seq<Diagnostic>) -> Seq<Seq<char>>
    decreases children.len(),
{
    if children.len() == 0 {
        Seq::empty()
    } else {
        match spec_help_one(children.first()) {
            Some(h) => seq![h] + spec_help(children.drop_first()),
            None => spec_help(children.drop_first()),
        }
    }
}

/// What the permissive "expected … found …" pattern captures from a
/// message: the backtick-quoted type after the last "found".
pub uninterp spec fn type_capture(s: Seq<char>) -> Option<Seq<char>>;

/// What the bare-word fallback pattern captures from a span label:
/// "integer" or "float" written without backticks.
pub uninterp spec fn numeric_capture(s: Seq<char>) -> Option<Seq<char>>;

/// Relies on regex::Regex::captures with the literal pattern
/// `" *expected (?s:.)*found.* `(.*)`"`; what it captures depends on the
/// text alone.
#[verifier::external_body]
fn capture_found_type(text: &str) -> (r: Option<String>)
    ensures
        r is Some <==> type_capture(text@) is Some,
        r matches Some(s) ==> type_capture(text@) == Some(s@),
{
    let re = regex::Regex::new(" *expected (?s:.)*found.* `(.*)`").unwrap();
    re.captures(text).map(|c| c[1].to_owned())
}

/// Relies on regex::Regex::captures with the literal pattern
/// `"expected .* found (integer|float)"`; what it captures depends on the
/// text alone.
#[verifier::external_body]
fn capture_numeric_found(text: &str) -> (r: Option<String>)
    ensures
        r is Some <==> numeric_capture(text@) is Some,
        r matches Some(s) ==> numeric_capture(text@) == Some(s@),
{
    let re = regex::Regex::new("expected .* found (integer|float)").unwrap();
    re.captures(text).map(|c| c[1].to_owned())
}

/// The first capture of the permissive pattern over the children's prose.
pub open spec fn child_capture(children: Seq<Diagnostic>) -> Option<Seq<char>>
    decreases children.len(),
{
    if children.len() == 0 {
        None
    } else {
        match children.first().message {
            MessageField::Text(m) => match type_capture(m@) {
                Some(t) => Some(t),
                None => child_capture(children.drop_first()),
            },
            _ => child_capture(children.drop_first()),
        }
    }
}

/// The first capture over the span labels: the permissive pattern first,
/// then the bare-word fallback.
pub open spec fn label_capture(spans: Seq<DiagnosticSpan>) -> Option<Seq<char>>
    decreases spans.len(),
{
    if spans.len() == 0 {
        None
    } else {
        match spans.first().label {
            Some(l) => match type_capture(l@) {
                Some(t) => Some(t),
                None => match numeric_capture(l@) {
                    Some(t) => Some(t),
                    None => label_capture(spans.drop_first()),
                },
            },
            None => label_capture(spans.drop_first()),
        }
    }
}

/// The "found" type of a record: the children's prose first, then the
/// span labels.
pub open spec fn spec_actual_type(d: Diagnostic) -> Option<Seq<char>> {
    match child_capture(d.children@) {
        Some(t) => Some(t),
        None => label_capture(d.spans@),
    }
}

/// Copy a vector of strings.
fn clone_string_vec(v: &Vec<String>) -> (r: Vec<String>)
    ensures
        r@ == v@,
{
    let mut out: Vec<String> = Vec::new();
    let mut i: usize = 0;
    while i < v.len()
        invariant
            i <= v@.len(),
            out@ == v@.take(i as int),
        decreases v@.len() - i,
    {
        out.push(v[i].clone());
        proof {
            assert(v@.take(i + 1) =~= v@.take(i as int).push(v@[i as int]));
        }
        i += 1;
    }
    proof {
        assert(v@.take(v@.len() as int) =~= v@);
    }
    out
}

impl CompilationError {
    /// Whether this error originated in code supplied by the user: true
    /// exactly when some entry of the code origins is user-supplied.
    pub fn is_from_user_code(&self) -> (r: bool)
        ensures
            r == any_user(self@.code_origins),
    {
        any_user_exec(&self.code_origins)
    }

    /// Whether this error originated in code the evaluator generated.
    pub fn is_from_generated_code(&self) -> (r: bool)
        ensures
            r == any_generated(self@.code_origins),
    {
        let mut i: usize = 0;
        while i < self.code_origins.len()
            invariant
                i <= self.code_origins@.len(),
                forall|j: int| 0 <= j < i ==> !(self.code_origins@[j] is OtherGeneratedCode),
            decreases self.code_origins@.len() - i,
        {
            if matches!(&self.code_origins[i], CodeKind::OtherGeneratedCode) {
                return true;
            }
            i += 1;
        }
        false
    }

    /// The sanitised message.
    pub fn message(&self) -> (r: String)
        ensures
            r@ == self@.message,
    {
        self.message.clone()
    }

    /// The diagnostic's level: `"error"`, `"warning"`, `"help"`, ….
    pub fn level(&self) -> (r: &str)
        ensures
            r@ == self@.level,
    {
        self.level.as_str()
    }

    /// The compiler's short error code, when present.
    pub fn code(&self) -> (r: Option<&str>)
        ensures
            r is Some <==> spec_code(self@.raw) is Some,
            r matches Some(s) ==> spec_code(self@.raw) == Some(s@),
    {
        match &self.raw.code {
            Some(c) => match &c.code {
                Some(s) => Some(s.as_str()),
                None => None,
            },
            None => None,
        }
    }

    /// The compiler's long explanation of the code, when present.
    pub fn explanation(&self) -> (r: Option<&str>)
        ensures
            r is Some <==> spec_explanation(self@.raw) is Some,
            r matches Some(s) ==> spec_explanation(self@.raw) == Some(s@),
    {
        match &self.raw.code {
            Some(c) => match &c.explanation {
                Some(s) => Some(s.as_str()),
                None => None,
            },
            None => None,
        }
    }

    /// The evaluator's own hint for codes that commonly confuse its users.
    pub fn evcxr_extra_hint(&self) -> (r: Option<&str>)
        ensures
            r is Some <==> (spec_code(self@.raw) == Some("E0597"@)),
            r matches Some(h) ==> h@
                == "Values assigned to variables in Evcxr cannot contain references (unless they're static)"@,
    {
        match self.code() {
            Some(code) => {
                if str_eq(code, "E0597") {
                    Some(
                        "Values assigned to variables in Evcxr cannot contain references (unless they're static)",
                    )
                } else {
                    None
                }
            },
            None => None,
        }
    }

    /// The spanned messages, in order.
    pub fn spanned_messages(&self) -> (r: &Vec<SpannedMessage>)
        ensures
            r.deep_view() == self@.spanned_messages,
    {
        &self.spanned_messages
    }

    /// The first spanned message marked primary; when none is — perhaps
    /// because it pointed into generated code and was filtered out — the
    /// first spanned message, if any.
    pub fn primary_spanned_message(&self) -> (r: Option<&SpannedMessage>)
        ensures
            match r {
                Some(m) => spec_primary(self@.spanned_messages) == Some(m@),
                None => spec_primary(self@.spanned_messages) is None,
            },
    {
        let ghost views = self@.spanned_messages;
        let mut i: usize = 0;
        proof {
            assert(views.skip(0) =~= views);
        }
        while i < self.spanned_messages.len()
            invariant
                i <= views.len(),
                views == self@.spanned_messages,
                views.len() == self.spanned_messages@.len(),
                forall|j: int| 0 <= j < views.len() ==> views[j] == self.spanned_messages@[j]@,
                first_primary(views.skip(i as int)) == first_primary(views),
            decreases views.len() - i,
        {
            proof {
                assert(views.skip(i as int).first() == views[i as int]);
                assert(views.skip(i as int).drop_first() =~= views.skip(i + 1));
            }
            if self.spanned_messages[i].is_primary {
                return Some(&self.spanned_messages[i]);
            }
            i += 1;
        }
        proof {
            assert(views.skip(views.len() as int) =~= Seq::<SpannedMessageView>::empty());
        }
        if self.spanned_messages.len() > 0 {
            Some(&self.spanned_messages[0])
        } else {
            None
        }
    }

    /// The compiler's pre-rendered terminal string, or empty.
    pub fn rendered(&self) -> (r: String)
        ensures
            r@ == (match self@.raw.rendered {
                Some(s) => s@,
                None => Seq::<char>::empty(),
            }),
    {
        match &self.raw.rendered {
            Some(s) => s.clone(),
            None => String::new(),
        }
    }

    /// The help texts of the `help` children, each with its trimmed
    /// suggested replacement appended after a blank line.
    pub fn help(&self) -> (r: Vec<String>)
        ensures
            r.deep_view() == spec_help(self@.raw.children@),
    {
        let children = &self.raw.children;
        let mut out: Vec<String> = Vec::new();
        let mut i: usize = 0;
        proof {
            assert(children@.skip(0) =~= children@);
            assert(out.deep_view() =~= Seq::<Seq<char>>::empty());
            assert(out.deep_view() + spec_help(children@) =~= spec_help(children@));
        }
        while i < children.len()
            invariant
                i <= children@.len(),
                out.deep_view() + spec_help(children@.skip(i as int)) == spec_help(children@),
            decreases children@.len() - i,
        {
            proof {
                assert(children@.skip(i as int).first() == children@[i as int]);
                assert(children@.skip(i as int).drop_first() =~= children@.skip(i + 1));
            }
            let child = &children[i];
            let is_help = match &child.level {
                Some(l) => str_eq(l.as_str(), "help"),
                None => false,
            };
            if is_help {
                match &child.message {
                    MessageField::Text(m) => {
                        let mut msg = m.clone();
                        let mut has_suffix = false;
                        if child.spans.len() > 0 {
                            match &child.spans[0].suggested_replacement {
                                Some(rep) => {
                                    msg.append("\n\n");
                                    msg.append(str_trim_end(rep.as_str()));
                                    has_suffix = true;
                                },
                                None => {},
                            }
                        }
                        proof {
                            if has_suffix {
                                assert(msg@ =~= m@ + help_suffix(children@[i as int]));
                            } else {
                                assert(help_suffix(children@[i as int]) =~= Seq::<char>::empty());
                                assert(msg@ =~= m@ + help_suffix(children@[i as int]));
                            }
                        }
                        let ghost pre = out.deep_view();
                        let ghost h = spec_help_one(children@[i as int])->Some_0;
                        out.push(msg);
                        proof {
                            assert(out.deep_view() =~= pre.push(h));
                            assert(pre.push(h) + spec_help(children@.skip(i + 1)) =~= pre + (
                            seq![h] + spec_help(children@.skip(i + 1))));
                        }
                    },
                    _ => {},
                }
            }
            i += 1;
        }
        proof {
            assert(children@.skip(children@.len() as int) =~= Seq::<Diagnostic>::empty());
            assert(out.deep_view() + Seq::<Seq<char>>::empty() =~= out.deep_view());
        }
        out
    }

    /// The "found" type named by the error's prose, when the record is a
    /// type error.
    pub fn get_actual_type(&self) -> (r: Option<String>)
        ensures
            r is Some <==> spec_actual_type(self@.raw) is Some,
            r matches Some(s) ==> spec_actual_type(self@.raw) == Some(s@),
    {
        let children = &self.raw.children;
        let mut i: usize = 0;
        proof {
            assert(children@.skip(0) =~= children@);
        }
        while i < children.len()
            invariant
                i <= children@.len(),
                children@ == self@.raw.children@,
                child_capture(children@.skip(i as int)) == child_capture(children@),
            decreases children@.len() - i,
        {
            proof {
                assert(children@.skip(i as int).first() == children@[i as int]);
                assert(children@.skip(i as int).drop_first() =~= children@.skip(i + 1));
            }
            match &children[i].message {
                MessageField::Text(m) => {
                    let captured = capture_found_type(m.as_str());
                    if captured.is_some() {
                        proof {
                            assert(child_capture(children@.skip(i as int)) == type_capture(m@));
                            assert(child_capture(children@) is Some);
                            assert(spec_actual_type(self@.raw) == child_capture(children@));
                        }
                        return captured;
                    }
                },
                _ => {},
            }
            i += 1;
        }
        proof {
            assert(children@.skip(children@.len() as int) =~= Seq::<Diagnostic>::empty());
        }
        let spans = &self.raw.spans;
        let mut k: usize = 0;
        proof {
            assert(spans@.skip(0) =~= spans@);
        }
        while k < spans.len()
            invariant
                k <= spans@.len(),
                spans@ == self@.raw.spans@,
                child_capture(self@.raw.children@) is None,
                label_capture(spans@.skip(k as int)) == label_capture(spans@),
            decreases spans@.len() - k,
        {
            proof {
                assert(spans@.skip(k as int).first() == spans@[k as int]);
                assert(spans@.skip(k as int).drop_first() =~= spans@.skip(k + 1));
            }
            match &spans[k].label {
                Some(l) => {
                    let captured = capture_found_type(l.as_str());
                    if captured.is_some() {
                        proof {
                            assert(label_capture(spans@.skip(k as int)) == type_capture(l@));
                            assert(spec_actual_type(self@.raw) == label_capture(spans@));
                        }
                        return captured;
                    }
                    let captured2 = capture_numeric_found(l.as_str());
                    if captured2.is_some() {
                        proof {
                            assert(label_capture(spans@.skip(k as int)) == numeric_capture(l@));
                            assert(spec_actual_type(self@.raw) == label_capture(spans@));
                        }
                        return captured2;
                    }
                },
                None => {},
            }
            k += 1;
        }
        proof {
            assert(spans@.skip(spans@.len() as int) =~= Seq::<DiagnosticSpan>::empty());
        }
        None
    }

    /// Attach to every spanned message with a span the user's own lines
    /// covered by that span.
    pub fn fill_lines(&mut self, code_info: &UserCodeInfo)
        requires
            forall|i: int|
                0 <= i < old(self)@.spanned_messages.len() ==> ((
                #[trigger] old(self)@.spanned_messages[i]).span matches Some(sp) ==> 1
                    <= sp.start_line && sp.start_line - 1 <= sp.end_line && sp.end_line
                    <= code_info.original_lines@.len()),
        ensures
            final(self)@.message == old(self)@.message,
            final(self)@.raw == old(self)@.raw,
            final(self)@.code_origins == old(self)@.code_origins,
            final(self)@.level == old(self)@.level,
            final(self)@.spanned_messages.len() == old(self)@.spanned_messages.len(),
            forall|i: int|
                0 <= i < old(self)@.spanned_messages.len() ==> ({
                    let om = #[trigger] old(self)@.spanned_messages[i];
                    let nm = final(self)@.spanned_messages[i];
                    &&& nm.span == om.span
                    &&& nm.label == om.label
                    &&& nm.is_primary == om.is_primary
                    &&& (om.span matches Some(sp) ==> nm.lines == om.lines
                        + code_info.original_lines.deep_view().subrange(
                        sp.start_line - 1,
                        sp.end_line as int,
                    ))
                    &&& (om.span is None ==> nm.lines == om.lines)
                }),
    {
        let ghost oldviews = old(self)@.spanned_messages;
        let n = self.spanned_messages.len();
        let mut updated: Vec<SpannedMessage> = Vec::new();
        let mut i: usize = 0;
        while i < n
            invariant
                *self == *old(self),
                n == self.spanned_messages@.len(),
                oldviews == old(self)@.spanned_messages,
                oldviews.len() == n,
                forall|j: int| 0 <= j < n ==> oldviews[j] == self.spanned_messages@[j]@,
                forall|j: int|
                    0 <= j < n ==> ((#[trigger] oldviews[j]).span matches Some(sp) ==> 1
                        <= sp.start_line && sp.start_line - 1 <= sp.end_line && sp.end_line
                        <= code_info.original_lines@.len()),
                i <= n,
                updated@.len() == i,
                forall|j: int|
                    0 <= j < i ==> ({
                        let om = #[trigger] oldviews[j];
                        let nm = updated@[j]@;
                        &&& nm.span == om.span
                        &&& nm.label == om.label
                        &&& nm.is_primary == om.is_primary
                        &&& (om.span matches Some(sp) ==> nm.lines == om.lines
                            + code_info.original_lines.deep_view().subrange(
                            sp.start_line - 1,
                            sp.end_line as int,
                        ))
                        &&& (om.span is None ==> nm.lines == om.lines)
                    }),
            decreases n - i,
        {
            let sm = &self.spanned_messages[i];
            proof {
                assert(oldviews[i as int] == self.spanned_messages@[i as int]@);
                assert(oldviews[i as int].span == sm.span);
            }
            let mut lines = clone_string_vec(&sm.lines);
            proof {
                assert(lines.deep_view() =~= sm.lines.deep_view());
            }
            match sm.span {
                Some(sp) => {
                    let ghost base = sm.lines.deep_view();
                    let mut k = sp.start_line - 1;
                    proof {
                        assert(lines.deep_view() =~= base
                            + code_info.original_lines.deep_view().subrange(
                            sp.start_line - 1,
                            sp.start_line - 1,
                        ));
                    }
                    while k < sp.end_line
                        invariant
                            sp.start_line >= 1,
                            sp.start_line - 1 <= k <= sp.end_line,
                            sp.end_line <= code_info.original_lines@.len(),
                            base == sm.lines.deep_view(),
                            lines.deep_view() == base
                                + code_info.original_lines.deep_view().subrange(
                                sp.start_line - 1,
                                k as int,
                            ),
                        decreases sp.end_line - k,
                    {
                        let ghost pre = lines.deep_view();
                        lines.push(code_info.original_lines[k].clone());
                        proof {
                            assert(lines.deep_view() =~= pre.push(
                                code_info.original_lines.deep_view()[k as int],
                            ));
                            assert(code_info.original_lines.deep_view().subrange(
                                sp.start_line - 1,
                                k + 1,
                            ) =~= code_info.original_lines.deep_view().subrange(
                                sp.start_line - 1,
                                k as int,
                            ).push(code_info.original_lines.deep_view()[k as int]));
                            assert(pre.push(code_info.original_lines.deep_view()[k as int]) =~= base
                                + code_info.original_lines.deep_view().subrange(
                                sp.start_line - 1,
                                k + 1,
                            ));
                        }
                        k += 1;
                    }
                },
                None => {},
            }
            updated.push(
                SpannedMessage {
                    span: sm.span,
                    lines,
                    label: sm.label.clone(),
                    is_primary: sm.is_primary,
                },
            );
            i += 1;
        }
        self.spanned_messages = updated;
    }

    /// A synthesized error — level `"error"`, empty raw record — that
    /// spans the given portion of `segment`.
    pub fn from_segment_span(segment: &Segment, spanned_message: SpannedMessage, message: String) -> (r:
        CompilationError)
        ensures
            r@.message == message@,
            r@.raw.message is Absent,
            r@.raw.level is None,
            r@.raw.code is None,
            r@.raw.rendered is None,
            r@.raw.spans@.len() == 0,
            r@.raw.children@.len() == 0,
            r@.code_origins == seq![segment.kind],
            r@.spanned_messages == seq![spanned_message@],
            r@.level == "error"@,
    {
        let mut origins: Vec<CodeKind> = Vec::new();
        origins.push(segment.kind.clone());
        let mut messages: Vec<SpannedMessage> = Vec::new();
        messages.push(spanned_message);
        let result = CompilationError {
            message,
            raw: Default::default(),
            code_origins: origins,
            spanned_messages: messages,
            level: String::from_str("error"),
        };
        proof {
            assert(result@.code_origins =~= seq![segment.kind]);
            assert(result@.spanned_messages =~= seq![result.spanned_messages@[0]@]);
        }
        result
    }
}

/// The unified error sum the upper layers observe.
#[derive(Debug)]
pub enum Error {
    /// A batch of structured compilation errors.
    CompilationErrors(Vec<CompilationError>),
    /// Variables lost across a type redefinition, by name.
    TypeRedefinedVariablesLost(Vec<String>),
    /// Any other failure, carrying its message.
    Message(String),
    /// The compiler subprocess died without usable output.
    SubprocessTerminated(String),
}

/// The messages of a batch of errors, concatenated.
pub open spec fn concat_messages(errs: Seq<CompilationError>) -> Seq<char>
    decreases errs.len(),
{
    if errs.len() == 0 {
        Seq::empty()
    } else {
        errs.first()@.message + concat_messages(errs.drop_first())
    }
}

/// The text an error displays.
pub open spec fn spec_error_text(e: Error) -> Seq<char> {
    match e {
        Error::CompilationErrors(errors) => concat_messages(errors@),
        Error::TypeRedefinedVariablesLost(variables) =>
            "A type redefinition resulted in the following variables being lost: "@ + join_comma(
            variables.deep_view(),
        ),
        Error::Message(message) => message@,
        Error::SubprocessTerminated(message) => message@,
    }
}

impl Error {
    /// The message this error displays.
    pub fn text(&self) -> (r: String)
        ensures
            r@ == spec_error_text(*self),
    {
        match self {
            Error::CompilationErrors(errors) => {
                let mut out = String::new();
                let mut i: usize = 0;
                proof {
                    assert(errors@.skip(0) =~= errors@);
                    assert(out@ + concat_messages(errors@) =~= concat_messages(errors@));
                }
                while i < errors.len()
                    invariant
                        i <= errors@.len(),
                        out@ + concat_messages(errors@.skip(i as int)) == concat_messages(
                            errors@,
                        ),
                    decreases errors@.len() - i,
                {
                    proof {
                        assert(errors@.skip(i as int).first() == errors@[i as int]);
                        assert(errors@.skip(i as int).drop_first() =~= errors@.skip(i + 1));
                    }
                    let m = errors[i].message();
                    out.append(m.as_str());
                    i += 1;
                }
                proof {
                    assert(errors@.skip(errors@.len() as int) =~= Seq::<CompilationError>::empty());
                    assert(out@ + Seq::<char>::empty() =~= out@);
                }
                out
            },
            Error::TypeRedefinedVariablesLost(variables) => {
                let mut out = String::from_str(
                    "A type redefinition resulted in the following variables being lost: ",
                );
                let joined = join_comma_strs(variables);
                out.append(joined.as_str());
                out
            },
            Error::Message(message) => message.clone(),
            Error::SubprocessTerminated(message) => message.clone(),
        }
    }
}

impl From<String> for Error {
    /// Wrap a plain message.
    fn from(message: String) -> (r: Self) {
        Error::Message(message)
    }
}

impl vstd::std_specs::convert::FromSpecImpl<String> for Error {
    open spec fn obeys_from_spec() -> bool {
        true
    }

    open spec fn from_spec(t: String) -> Self {
        Error::Message(t)
    }
}

} // verus!
