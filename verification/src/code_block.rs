//! The synthetic compilation unit, described as an ordered sequence of
//! segments, each tagged with the provenance of its text.

use vstd::prelude::*;
use vstd::string::StrSliceExecFns;

verus! {

/// Where a run of user-supplied text came from in the user's input.
#[derive(Debug, Clone, Copy)]
pub struct UserCodeMetadata {
    /// 1-based line in the original input at which the segment begins.
    pub start_line: usize,
    /// Added to column 1 for the first line of the segment.
    pub column_offset: usize,
    /// Which user input block this segment came from.
    pub node_index: usize,
}

/// The provenance of a segment of the synthetic compilation unit.
#[derive(Debug)]
pub enum CodeKind {
    /// Text copied verbatim from the user's input.
    OriginalUserCode(UserCodeMetadata),
    /// Variable-store plumbing around the user's text.
    PackVariable { variable_name: String },
    /// Any other code the evaluator generated.
    OtherGeneratedCode,
    /// A line past the end of the generated unit.
    Unknown,
}

impl Clone for CodeKind {
    fn clone(&self) -> (r: Self)
        ensures
            r == *self,
    {
        match self {
            CodeKind::OriginalUserCode(meta) => CodeKind::OriginalUserCode(*meta),
            CodeKind::PackVariable { variable_name } => CodeKind::PackVariable {
                variable_name: variable_name.clone(),
            },
            CodeKind::OtherGeneratedCode => CodeKind::OtherGeneratedCode,
            CodeKind::Unknown => CodeKind::Unknown,
        }
    }
}

impl CodeKind {
    /// Whether this kind marks text the user wrote.
    pub open spec fn spec_is_user_supplied(&self) -> bool {
        self is OriginalUserCode
    }

    /// Whether this kind marks text the user wrote.
    pub fn is_user_supplied(&self) -> (r: bool)
        ensures
            r == self.spec_is_user_supplied(),
    {
        matches!(self, CodeKind::OriginalUserCode(_))
    }

    /// The user-code metadata carried by this kind, if any.
    pub fn user_meta(&self) -> (r: Option<UserCodeMetadata>)
        ensures
            r is Some <==> self is OriginalUserCode,
            r is Some ==> r->Some_0 == self->OriginalUserCode_0,
    {
        match self {
            CodeKind::OriginalUserCode(meta) => Some(*meta),
            _ => None,
        }
    }
}

/// A contiguous run of the synthetic compilation unit with uniform
/// provenance.  The `code` text of every segment ends with a newline.
#[derive(Debug)]
pub struct Segment {
    pub kind: CodeKind,
    pub code: String,
}

/// A command the user typed, with the 1-based line it stood on.
#[derive(Debug)]
pub struct CommandCall {
    pub command: String,
    pub args: Option<String>,
    pub line_number: usize,
}

/// The user's original input split into lines, without trailing newlines.
#[derive(Debug)]
pub struct UserCodeInfo {
    pub original_lines: Vec<String>,
}

/// The number of newline characters in `s`.
pub open spec fn nl_count(s: Seq<char>) -> nat
    decreases s.len(),
{
    if s.len() == 0 {
        0
    } else {
        (if s.last() == '\n' {
            1nat
        } else {
            0nat
        }) + nl_count(s.drop_last())
    }
}

/// The number of lines a segment contributes to the concatenated unit.
pub open spec fn segment_lines(seg: Segment) -> nat {
    nl_count(seg.code@)
}

/// The kind and segment-local offset of the 0-based line `l` of the
/// concatenation of `segs`.
pub open spec fn origin_of_line0(segs: Seq<Segment>, l: nat) -> (CodeKind, nat)
    decreases segs.len(),
{
    if segs.len() == 0 {
        (CodeKind::Unknown, 0nat)
    } else if l < segment_lines(segs[0]) {
        (segs[0].kind, l)
    } else {
        origin_of_line0(segs.drop_first(), (l - segment_lines(segs[0])) as nat)
    }
}

/// The kind and segment-local offset of the 1-based line `line`; line 0
/// falls outside every segment.
pub open spec fn origin_for_line_spec(segs: Seq<Segment>, line: nat) -> (CodeKind, nat) {
    if line == 0 {
        (CodeKind::Unknown, 0nat)
    } else {
        origin_of_line0(segs, (line - 1) as nat)
    }
}

/// The number of newline characters in `s`.
pub fn count_newlines(s: &str) -> (r: usize)
    ensures
        r == nl_count(s@),
{
    let m = s.unicode_len();
    let mut cnt: usize = 0;
    let mut i: usize = 0;
    proof {
        assert(s@.subrange(0, 0) =~= Seq::<char>::empty());
    }
    while i < m
        invariant
            m == s@.len(),
            i <= m,
            cnt <= i,
            cnt == nl_count(s@.subrange(0, i as int)),
        decreases m - i,
    {
        let c = s.get_char(i);
        proof {
            let pre = s@.subrange(0, i as int);
            let pre1 = s@.subrange(0, i + 1);
            assert(pre1.drop_last() =~= pre);
            assert(pre1.last() == s@[i as int]);
        }
        if c == '\n' {
            cnt += 1;
        }
        i += 1;
    }
    proof {
        assert(s@.subrange(0, m as int) =~= s@);
    }
    cnt
}

/// The number of display columns `text` occupies: one per character.
pub fn count_columns(text: &str) -> (r: usize)
    ensures
        r == text@.len(),
{
    text.unicode_len()
}

/// The generated source handed to the compiler: its segments in order, and
/// the number of bytes the generator emits before the first segment.
#[derive(Debug)]
pub struct CodeBlock {
    pub segments: Vec<Segment>,
    /// Byte length of the prologue the code generator places before the
    /// segments; a constant of the generator, supplied together with the
    /// block.
    pub prologue_offset: usize,
}

impl CodeBlock {
    /// The provenance of the 1-based line `line` of the concatenated
    /// generated source, and the 0-based offset of that line within its
    /// segment.
    pub fn origin_for_line(&self, line: usize) -> (r: (CodeKind, usize))
        ensures
            r.0 == origin_for_line_spec(self.segments@, line as nat).0,
            r.1 == origin_for_line_spec(self.segments@, line as nat).1,
    {
        if line == 0 {
            return (CodeKind::Unknown, 0);
        }
        let mut l = line - 1;
        let mut i: usize = 0;
        proof {
            assert(self.segments@.skip(0) =~= self.segments@);
        }
        while i < self.segments.len()
            invariant
                line >= 1,
                i <= self.segments@.len(),
                origin_of_line0(self.segments@.skip(i as int), l as nat) == origin_of_line0(
                    self.segments@,
                    (line - 1) as nat,
                ),
            decreases self.segments@.len() - i,
        {
            let n = count_newlines(self.segments[i].code.as_str());
            proof {
                assert(self.segments@.skip(i as int)[0] == self.segments@[i as int]);
                assert(self.segments@.skip(i as int).drop_first() =~= self.segments@.skip(i + 1));
            }
            if l < n {
                proof {
                    assert(segment_lines(self.segments@.skip(i as int)[0]) == nl_count(
                        self.segments@[i as int].code@,
                    ));
                    assert(origin_of_line0(self.segments@.skip(i as int), l as nat) == (
                        self.segments@[i as int].kind,
                        l as nat,
                    ));
                }
                return (self.segments[i].kind.clone(), l);
            }
            l = l - n;
            i += 1;
        }
        (CodeKind::Unknown, 0)
    }
}

} // verus!
