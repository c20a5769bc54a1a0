//! Compiler and runtime messages of robot code, placed on the lines and
//! columns of the code the player wrote.

use vstd::prelude::*;
use crate::position::{
    get_line_and_column, lemma_line_col_bounded, lemma_line_col_counts, line_col_after, line_len, line_start, line_window,
    spec_line_and_column, split_lines,
};

verus! {

/// Where in the code a message points.
#[derive(Debug, Clone, Copy, PartialEq, Eq, Structural)]
pub enum SpanType {
    /// Character offsets `from..to`.
    Segment { from: usize, to: usize },
    /// A whole line, counted from 0.
    Line(usize),
    Unknown,
}

/// A message of the robot language together with the place it points to.
#[derive(Debug, Clone)]
pub struct ErrorContext {
    pub span_type: SpanType,
    pub message: String,
}

/// A place in the code, in lines, columns and character offsets.
#[derive(Debug, Clone, Copy, PartialEq, Eq, Structural, Default)]
pub struct SrLangErrorSpan {
    pub line_from: i64,
    pub line_to: i64,
    pub column_from: i64,
    pub column_to: i64,
    pub char_from: i64,
    pub char_to: i64,
}

/// A message shown in the editor, with the place it points to if known.
#[derive(Debug, Clone)]
pub struct SrLangError {
    pub span: Option<SrLangErrorSpan>,
    pub message: String,
}

/// What went wrong with a robot written in the robot language.
#[derive(Debug, Clone)]
pub enum LangRobotError {
    /// The compiler's messages.
    Compile(Vec<ErrorContext>),
    /// A failure while running the robot's `step`.
    Runtime(ErrorContext),
    /// `step` returned something that is not a direction number; the
    /// message says what.
    Return(String),
    /// `step` returned a number that names no direction.
    InvalidDirection,
}

/// A failure of a robot of any kind: one in the robot language, or another
/// with its message.
#[derive(Debug, Clone)]
pub enum RobotError {
    Lang(LangRobotError),
    Other(String),
}

/// The span that a place in the code covers, if the code contains it.
pub open spec fn spec_span(span_type: SpanType, code: Seq<char>) -> Option<SrLangErrorSpan> {
    match span_type {
        SpanType::Segment { from, to } => {
            match (spec_line_and_column(code, from as int), spec_line_and_column(code, to as int)) {
                (Some((lf, cf)), Some((lt, ct))) => Some(
                    SrLangErrorSpan {
                        line_from: lf as i64,
                        line_to: lt as i64,
                        column_from: cf as i64,
                        column_to: ct as i64,
                        char_from: from as i64,
                        char_to: to as i64,
                    },
                ),
                _ => None,
            }
        },
        SpanType::Line(l) => {
            if l <= split_lines(code).len() {
                Some(
                    SrLangErrorSpan {
                        line_from: l as i64,
                        line_to: l as i64,
                        column_from: 0,
                        column_to: line_len(code, l as int) as i64,
                        char_from: line_start(code, l as int) as i64,
                        char_to: (line_start(code, l as int) + line_len(code, l as int)) as i64,
                    },
                )
            } else {
                None
            }
        },
        SpanType::Unknown => None,
    }
}

/// A segment's span starts at the line and column of its first offset and
/// ends at the line and column of its last one, each being the number of
/// line breaks before the offset and the characters since the last of them;
/// it exists exactly when both offsets lie within the code.
pub proof fn lemma_segment_span(code: Seq<char>, from: usize, to: usize)
    requires
        code.len() <= isize::MAX,
    ensures
        spec_span(SpanType::Segment { from, to }, code) is Some <==> from <= code.len() && to <= code.len(),
        spec_span(SpanType::Segment { from, to }, code) matches Some(s) ==> {
            &&& s.line_from == line_col_after(code.take(from as int)).0
            &&& s.column_from == line_col_after(code.take(from as int)).1
            &&& s.line_to == line_col_after(code.take(to as int)).0
            &&& s.column_to == line_col_after(code.take(to as int)).1
            &&& s.char_from == from
            &&& s.char_to == to
            &&& s.line_from == code.take(from as int).filter(|c: char| c == '\n').len()
            &&& s.line_to == code.take(to as int).filter(|c: char| c == '\n').len()
        },
{
    if from <= code.len() {
        lemma_line_col_bounded(code.take(from as int));
        lemma_line_col_counts(code.take(from as int));
    }
    if to <= code.len() {
        lemma_line_col_bounded(code.take(to as int));
        lemma_line_col_counts(code.take(to as int));
    }
}

/// The text a robot language error shows.
pub open spec fn spec_lang_error_message(e: LangRobotError) -> Seq<char> {
    match e {
        LangRobotError::Compile(v) => if v@.len() > 0 {
            v@[0].message@
        } else {
            "unknown error"@
        },
        LangRobotError::Runtime(ctx) => ctx.message@,
        LangRobotError::Return(m) => m@,
        LangRobotError::InvalidDirection => "invalid direction"@,
    }
}

/// The editor message for one language message.
pub open spec fn spec_converted(code: Seq<char>, ctx: ErrorContext, e: SrLangError) -> bool {
    &&& e.span == spec_span(ctx.span_type, code)
    &&& e.message@ == ctx.message@
}

impl SrLangErrorSpan {
    /// The lines, columns and offsets that `span_type` covers in `code`.
    pub fn from_context(span_type: &SpanType, code: &str) -> (r: Option<Self>)
        requires
            code@.len() <= isize::MAX,
        ensures
            r == spec_span(*span_type, code@),
            span_type matches SpanType::Segment { from, to } ==> {
                &&& (r is Some <==> from <= code@.len() && to <= code@.len())
                &&& r matches Some(s) ==> {
                    &&& s.line_from == line_col_after(code@.take(from as int)).0
                    &&& s.column_from == line_col_after(code@.take(from as int)).1
                    &&& s.line_to == line_col_after(code@.take(to as int)).0
                    &&& s.column_to == line_col_after(code@.take(to as int)).1
                    &&& s.char_from == from
                    &&& s.char_to == to
                }
            },
    {
        proof {
            if let SpanType::Segment { from, to } = *span_type {
                lemma_segment_span(code@, from, to);
            }
        }
        proof {
            crate::position::lemma_lines_cover_text(code@);
        }
        match span_type {
            SpanType::Segment { from, to } => {
                let (line_from, column_from) = match get_line_and_column(code, *from) {
                    Some(p) => p,
                    None => return None,
                };
                let (line_to, column_to) = match get_line_and_column(code, *to) {
                    Some(p) => p,
                    None => return None,
                };
                Some(
                    Self {
                        line_from,
                        line_to,
                        column_from,
                        column_to,
                        char_from: *from as i64,
                        char_to: *to as i64,
                    },
                )
            },
            SpanType::Line(l) => {
                let w = line_window(code, *l);
                if !w.found {
                    None
                } else {
                    proof {
                        crate::position::lemma_line_window_in_text(code@, *l as int);
                    }
                    Some(
                        Self {
                            line_from: *l as i64,
                            line_to: *l as i64,
                            column_from: 0,
                            column_to: w.len as i64,
                            char_from: w.start as i64,
                            char_to: (w.start + w.len) as i64,
                        },
                    )
                }
            },
            SpanType::Unknown => None,
        }
    }
}

impl SrLangError {
    /// A message that points nowhere.
    pub fn create(message: &str) -> (e: SrLangError)
        ensures
            e.span is None,
            e.message@ == message@,
    {
        SrLangError { span: None, message: String::from_str(message) }
    }
}

impl LangRobotError {
    /// The text of the error: the first compiler message, the runtime
    /// message, the returned value's message or that the direction is
    /// invalid.
    pub fn to_string(&self) -> (s: String)
        ensures
            s@ == spec_lang_error_message(*self),
    {
        match self {
            LangRobotError::Compile(v) => {
                if v.len() > 0 {
                    v[0].message.clone()
                } else {
                    String::from_str("unknown error")
                }
            },
            LangRobotError::Runtime(ctx) => ctx.message.clone(),
            LangRobotError::Return(m) => m.clone(),
            LangRobotError::InvalidDirection => String::from_str("invalid direction"),
        }
    }
}

/// A single editor message without a place.
pub fn create_error(message: &str) -> (v: Vec<SrLangError>)
    ensures
        v@.len() == 1,
        v@[0].span is None,
        v@[0].message@ == message@,
{
    let mut v = Vec::new();
    v.push(SrLangError::create(message));
    v
}

/// The editor message for one language message.
pub fn convert_error_context(code: &str, ctx: &ErrorContext) -> (e: SrLangError)
    requires
        code@.len() <= isize::MAX,
    ensures
        spec_converted(code@, *ctx, e),
{
    SrLangError {
        span: SrLangErrorSpan::from_context(&ctx.span_type, code),
        message: ctx.message.clone(),
    }
}

/// The editor messages for a list of language messages, in order.
pub fn convert_error_context_multiple(code: &str, errs: &Vec<ErrorContext>) -> (v: Vec<SrLangError>)
    requires
        code@.len() <= isize::MAX,
    ensures
        v@.len() == errs@.len(),
        forall|i: int| 0 <= i < errs@.len() ==> spec_converted(code@, errs@[i], #[trigger] v@[i]),
{
    let mut v: Vec<SrLangError> = Vec::new();
    let mut i: usize = 0;
    while i < errs.len()
        invariant
            code@.len() <= isize::MAX,
            0 <= i <= errs@.len(),
            v@.len() == i,
            forall|j: int| 0 <= j < i ==> spec_converted(code@, errs@[j], #[trigger] v@[j]),
        decreases errs@.len() - i,
    {
        v.push(convert_error_context(code, &errs[i]));
        i = i + 1;
    }
    v
}

/// The editor messages for an error of the robot language: each compiler
/// message with its place, the runtime message with its place, or the
/// error's text alone.
pub fn convert_lang_error(code: &str, err: &LangRobotError) -> (v: Vec<SrLangError>)
    requires
        code@.len() <= isize::MAX,
    ensures
        match err {
            LangRobotError::Compile(errs) => v@.len() == errs@.len() && forall|i: int|
                0 <= i < errs@.len() ==> spec_converted(code@, errs@[i], #[trigger] v@[i]),
            LangRobotError::Runtime(ctx) => v@.len() == 1 && spec_converted(code@, *ctx, v@[0]),
            _ => v@.len() == 1 && v@[0].span is None && v@[0].message@ == spec_lang_error_message(
                *err,
            ),
        },
{
    match err {
        LangRobotError::Compile(errs) => convert_error_context_multiple(code, errs),
        LangRobotError::Runtime(ctx) => {
            let mut v = Vec::new();
            v.push(convert_error_context(code, ctx));
            v
        },
        _ => {
            let msg = err.to_string();
            create_error(msg.as_str())
        },
    }
}

/// The editor messages for a failed robot: those of a language error, or
/// the failure's message alone.
pub fn convert_error(code: &str, err: &RobotError) -> (v: Vec<SrLangError>)
    requires
        code@.len() <= isize::MAX,
    ensures
        match err {
            RobotError::Lang(e) => match e {
                LangRobotError::Compile(errs) => v@.len() == errs@.len() && forall|i: int|
                    0 <= i < errs@.len() ==> spec_converted(code@, errs@[i], #[trigger] v@[i]),
                LangRobotError::Runtime(ctx) => v@.len() == 1 && spec_converted(code@, *ctx, v@[0]),
                _ => v@.len() == 1 && v@[0].span is None && v@[0].message@
                    == spec_lang_error_message(*e),
            },
            RobotError::Other(m) => v@.len() == 1 && v@[0].span is None && v@[0].message@ == m@,
        },
{
    match err {
        RobotError::Lang(e) => convert_lang_error(code, e),
        RobotError::Other(m) => create_error(m.as_str()),
    }
}

} // verus!
