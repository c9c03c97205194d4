//! A verified core for a stack-based array language: a compiler from word
//! trees to instructions, an interpreter for those instructions, and the
//! scope and import machinery around them.
//!
//! The interpreter is specified against a mathematical model of its state,
//! in [`model`]: every executable function says which function of the model
//! it computes. Laws of the model are proved in [`model::invariants`] and
//! [`model::laws`].

pub mod span;
pub mod primitive;
pub mod text;
pub mod value;
pub mod function;
pub mod error;
pub mod ast;
pub mod machine;
pub mod model;
pub mod compile;
pub mod run;
pub mod load;

pub use error::UiuaError;
pub use function::{Function, FunctionId, Instr};
pub use machine::{IoBackend, RunMode, Scope, SourceFile, StackArg, Uiua};
pub use primitive::Primitive;
pub use span::{Sp, Span};
pub use value::Value;
