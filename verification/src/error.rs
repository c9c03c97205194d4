//! Errors and the traces they carry.

use vstd::prelude::*;
use vstd::string::*;
use crate::function::{FunctionId, IdView};
use crate::span::{Span, Sp};

verus! {

/// One line of an error trace: a function that was running, and where it was called.
#[derive(Clone, Debug, PartialEq, Eq)]
pub struct TraceFrame {
    pub id: FunctionId,
    pub span: Span,
}

/// What can go wrong.
#[derive(Debug, PartialEq, Eq)]
pub enum UiuaError {
    /// A source unit could not be read: its path, and the cause.
    Load(String, String),
    /// The source text is not well formed.
    Parse(Vec<Sp<String>>),
    /// A runtime error.
    Run(Sp<String>),
    /// A runtime error with the calls that were under way when it happened.
    Traced { error: Box<UiuaError>, trace: Vec<TraceFrame> },
    /// A request to leave enclosing loops: how many more, and where it was made.
    Break(usize, Span),
}

/// The mathematical model of a [`TraceFrame`].
pub struct TraceView {
    pub id: IdView,
    pub span: Span,
}

/// The mathematical model of a [`UiuaError`].
pub enum ErrorView {
    Load(Seq<char>, Seq<char>),
    Parse(Seq<(Span, Seq<char>)>),
    Run(Span, Seq<char>),
    Traced { error: Box<ErrorView>, trace: Seq<TraceView> },
    Break(usize, Span),
}

impl View for TraceFrame {
    type V = TraceView;

    open spec fn view(&self) -> TraceView {
        TraceView { id: self.id@, span: self.span }
    }
}

/// The models of some trace frames, in order.
pub open spec fn trace_view(trace: Seq<TraceFrame>) -> Seq<TraceView> {
    Seq::new(trace.len(), |i: int| trace[i]@)
}

/// The models of some parse errors, in order.
pub open spec fn parse_errors_view(errors: Seq<Sp<String>>) -> Seq<(Span, Seq<char>)> {
    Seq::new(errors.len(), |i: int| (errors[i].span, errors[i].value@))
}

/// The model of an error.
pub open spec fn error_view(e: UiuaError) -> ErrorView
    decreases e,
{
    match e {
        UiuaError::Load(path, cause) => ErrorView::Load(path@, cause@),
        UiuaError::Parse(errors) => ErrorView::Parse(parse_errors_view(errors@)),
        UiuaError::Run(message) => ErrorView::Run(message.span, message.value@),
        UiuaError::Traced { error, trace } => ErrorView::Traced {
            error: Box::new(error_view(*error)),
            trace: trace_view(trace@),
        },
        UiuaError::Break(n, span) => ErrorView::Break(n, span),
    }
}

impl View for UiuaError {
    type V = ErrorView;

    open spec fn view(&self) -> ErrorView {
        error_view(*self)
    }
}

/// The model of what a fallible step without a value returned.
pub open spec fn unit_view(r: Result<(), UiuaError>) -> Result<(), ErrorView> {
    match r {
        Ok(_) => Ok(()),
        Err(e) => Err(e@),
    }
}

impl ErrorView {
    /// How many frames the trace of the error holds.
    pub open spec fn trace_len(self) -> nat {
        match self {
            ErrorView::Traced { trace, .. } => trace.len(),
            _ => 0,
        }
    }

    /// The error with more frames at the end of its trace. An error without
    /// a trace is wrapped first.
    pub open spec fn traced(self, frames: Seq<TraceView>) -> ErrorView {
        match self {
            ErrorView::Traced { error, trace } => ErrorView::Traced { error, trace: trace + frames },
            _ => ErrorView::Traced { error: Box::new(self), trace: frames },
        }
    }

    /// The break request that the error is or wraps; the error itself where it is none.
    pub open spec fn break_data(self) -> Result<(usize, Span), ErrorView>
        decreases self,
    {
        match self {
            ErrorView::Break(n, span) => Ok((n, span)),
            ErrorView::Traced { error, trace } => match error.break_data() {
                Ok(data) => Ok(data),
                Err(inner) => Err(ErrorView::Traced { error: Box::new(inner), trace }),
            },
            _ => Err(self),
        }
    }

    /// A runtime error with a message at a span.
    pub open spec fn run(span: Span, message: Seq<char>) -> ErrorView {
        ErrorView::Run(span, message)
    }
}

/// The model of what [`UiuaError::break_data`] returned.
pub open spec fn break_view(r: Result<(usize, Span), UiuaError>) -> Result<
    (usize, Span),
    ErrorView,
> {
    match r {
        Ok(data) => Ok(data),
        Err(e) => Err(e@),
    }
}

impl UiuaError {
    /// A runtime error with a message at a span.
    pub fn run(span: Span, message: String) -> (e: UiuaError)
        ensures
            e@ == ErrorView::run(span, message@),
    {
        UiuaError::Run(Sp { value: message, span })
    }

    /// The error with more frames at the end of its trace. An error without
    /// a trace is wrapped first.
    pub fn traced(self, frames: Vec<TraceFrame>) -> (e: UiuaError)
        ensures
            e@ == self@.traced(trace_view(frames@)),
    {
        match self {
            UiuaError::Traced { error, trace } => {
                let mut trace = trace;
                let mut frames = frames;
                let ghost before = trace@;
                let ghost added = frames@;
                trace.append(&mut frames);
                assert(trace_view(trace@) =~= trace_view(before) + trace_view(added));
                UiuaError::Traced { error, trace }
            },
            other => UiuaError::Traced { error: Box::new(other), trace: frames },
        }
    }

    /// The break request that the error is or wraps; the error itself where it is none.
    pub fn break_data(self) -> (r: Result<(usize, Span), UiuaError>)
        ensures
            break_view(r) == self@.break_data(),
        decreases self,
    {
        match self {
            UiuaError::Break(n, span) => Ok((n, span)),
            UiuaError::Traced { error, trace } => match (*error).break_data() {
                Ok(data) => Ok(data),
                Err(inner) => Err(UiuaError::Traced { error: Box::new(inner), trace }),
            },
            other => Err(other),
        }
    }
}

} // verus!
