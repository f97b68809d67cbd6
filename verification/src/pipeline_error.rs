//! Errors of a pipeline run.
use vstd::prelude::*;

use crate::bench::{BenchError, BenchErrorView};
use crate::egg_lang::{EggError, EggErrorView};
use crate::emit_c::{CodegenError, CodegenErrorView};
use crate::error::IrError;
use crate::eval::{EvalError, EvalErrorView};
use crate::infer::{TypeError, TypeErrorView};
use crate::interp_loops::{LoopError, LoopErrorView};
use crate::lower::{LowerError, LowerErrorView};
use crate::surgery::SurgeryError;
use crate::text::{decimal, index_text, quoted, quoted_text};

verus! {

/// Errors produced by the pipeline.
#[derive(Debug)]
pub enum PipelineError {
    /// Unknown built-in example.
    UnknownExample(String),
    /// Invalid shape parameter.
    InvalidShape {
        /// Shape key.
        key: String,
        /// Shape value.
        value: usize,
        /// Reason the shape is invalid.
        reason: String,
    },
    /// Invalid shape flag syntax.
    InvalidShapeSpec(String),
    /// Graph error.
    Ir(IrError),
    /// Type inference error.
    Type(TypeError),
    /// Graph surgery error.
    Surgery(SurgeryError),
    /// Search error.
    Egg(EggError),
    /// Lowering error.
    Lower(LowerError),
    /// Schedule legality error, as its message.
    Legality(String),
    /// Schedule autotune error, as its message.
    Tune(String),
    /// C emission error.
    Codegen(CodegenError),
    /// C compile, run or parse error.
    Bench(BenchError),
    /// Graph interpreter error.
    Eval(EvalError),
    /// Loop interpreter error.
    Loop(LoopError),
    /// Filesystem error, as its message.
    Io(String),
    /// Self-check failed.
    CheckFailed(String),
}

/// The contents of a [`PipelineError`].
pub enum PipelineErrorView {
    UnknownExample(Seq<char>),
    InvalidShape { key: Seq<char>, value: usize, reason: Seq<char> },
    InvalidShapeSpec(Seq<char>),
    Ir(IrError),
    Type(TypeErrorView),
    Surgery(SurgeryError),
    Egg(EggErrorView),
    Lower(LowerErrorView),
    Legality(Seq<char>),
    Tune(Seq<char>),
    Codegen(CodegenErrorView),
    Bench(BenchErrorView),
    Eval(EvalErrorView),
    Loop(LoopErrorView),
    Io(Seq<char>),
    CheckFailed(Seq<char>),
}

impl View for PipelineError {
    type V = PipelineErrorView;

    open spec fn view(&self) -> PipelineErrorView {
        match *self {
            PipelineError::UnknownExample(name) => PipelineErrorView::UnknownExample(name@),
            PipelineError::InvalidShape { key, value, reason } => PipelineErrorView::InvalidShape {
                key: key@,
                value,
                reason: reason@,
            },
            PipelineError::InvalidShapeSpec(spec) => PipelineErrorView::InvalidShapeSpec(spec@),
            PipelineError::Ir(e) => PipelineErrorView::Ir(e),
            PipelineError::Type(e) => PipelineErrorView::Type(e@),
            PipelineError::Surgery(e) => PipelineErrorView::Surgery(e),
            PipelineError::Egg(e) => PipelineErrorView::Egg(e@),
            PipelineError::Lower(e) => PipelineErrorView::Lower(e@),
            PipelineError::Legality(m) => PipelineErrorView::Legality(m@),
            PipelineError::Tune(m) => PipelineErrorView::Tune(m@),
            PipelineError::Codegen(e) => PipelineErrorView::Codegen(e@),
            PipelineError::Bench(e) => PipelineErrorView::Bench(e@),
            PipelineError::Eval(e) => PipelineErrorView::Eval(e@),
            PipelineError::Loop(e) => PipelineErrorView::Loop(e@),
            PipelineError::Io(m) => PipelineErrorView::Io(m@),
            PipelineError::CheckFailed(m) => PipelineErrorView::CheckFailed(m@),
        }
    }
}

impl PipelineErrorView {
    /// The message of this error.
    pub open spec fn text(self) -> Seq<char> {
        match self {
            PipelineErrorView::UnknownExample(name) => "unknown example "@ + quoted_text(name),
            PipelineErrorView::InvalidShape { key, value, reason } => "invalid shape "@ + key + "="@
                + decimal(value as nat) + ": "@ + reason,
            PipelineErrorView::InvalidShapeSpec(spec) => "invalid shape flag "@ + quoted_text(spec)
                + "; expected K=V"@,
            PipelineErrorView::Ir(e) => e.text(),
            PipelineErrorView::Type(e) => e.text(),
            PipelineErrorView::Surgery(e) => e.text(),
            PipelineErrorView::Egg(e) => e.text(),
            PipelineErrorView::Lower(e) => e.text(),
            PipelineErrorView::Legality(m) => m,
            PipelineErrorView::Tune(m) => m,
            PipelineErrorView::Codegen(e) => e.text(),
            PipelineErrorView::Bench(e) => e.text(),
            PipelineErrorView::Eval(e) => e.text(),
            PipelineErrorView::Loop(e) => e.text(),
            PipelineErrorView::Io(m) => m,
            PipelineErrorView::CheckFailed(m) => "self-check failed: "@ + m,
        }
    }
}

impl PipelineError {
    /// Renders the message of this error.
    pub fn to_text(&self) -> (r: String)
        ensures
            r@ == self@.text(),
    {
        match self {
            PipelineError::UnknownExample(name) => String::from_str("unknown example ").concat(
                quoted(name.as_str()).as_str(),
            ),
            PipelineError::InvalidShape { key, value, reason } => String::from_str("invalid shape ")
                .concat(key.as_str())
                .concat("=")
                .concat(index_text(*value).as_str())
                .concat(": ")
                .concat(reason.as_str()),
            PipelineError::InvalidShapeSpec(spec) => String::from_str("invalid shape flag ")
                .concat(quoted(spec.as_str()).as_str())
                .concat("; expected K=V"),
            PipelineError::Ir(e) => e.to_text(),
            PipelineError::Type(e) => e.to_text(),
            PipelineError::Surgery(e) => e.to_text(),
            PipelineError::Egg(e) => e.to_text(),
            PipelineError::Lower(e) => e.to_text(),
            PipelineError::Legality(m) => m.clone(),
            PipelineError::Tune(m) => m.clone(),
            PipelineError::Codegen(e) => e.to_text(),
            PipelineError::Bench(e) => e.to_text(),
            PipelineError::Eval(e) => e.to_text(),
            PipelineError::Loop(e) => e.to_text(),
            PipelineError::Io(m) => m.clone(),
            PipelineError::CheckFailed(m) => String::from_str("self-check failed: ").concat(
                m.as_str(),
            ),
        }
    }
}

} // verus!
