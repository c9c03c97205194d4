//! Functions and the instructions they are made of.

use vstd::prelude::*;
use std::rc::Rc;
use crate::primitive::Primitive;
use crate::span::Span;
use crate::value::{Value, ValueView, value_view};

verus! {

/// What a function is called in an error trace.
#[derive(Clone, Debug, PartialEq, Eq)]
pub enum FunctionId {
    /// The top level of a source unit.
    Main,
    /// A function bound to a name.
    Named(String),
    /// A function written in place, known by where it was written.
    Anonymous(Span),
    /// A built-in operation.
    Primitive(Primitive),
}

/// One step of a compiled function.
#[derive(Clone, Debug, PartialEq, Eq)]
pub enum Instr {
    /// Push a constant.
    Push(Rc<Value>),
    /// Remember how high the value stack is.
    BeginArray,
    /// Combine what was pushed since the matching `BeginArray` into one array.
    /// The number is an index into the span table.
    EndArray(usize),
    /// Run a primitive. The number is an index into the span table.
    Prim(Primitive, usize),
    /// Call the value on top of the stack. The number is an index into the span table.
    Call(usize),
    /// Push an argument of the innermost dfn.
    DfnVal(usize),
    /// Take a condition from the stack and call the first function where
    /// it is one, the second where it is zero.
    If(Rc<Function>, Rc<Function>),
}

/// A compiled function.
#[derive(Clone, Debug, PartialEq, Eq)]
pub struct Function {
    pub id: FunctionId,
    pub instrs: Vec<Instr>,
    /// For a dfn, how many arguments it takes from the stack when called.
    pub dfn_args: Option<u8>,
}

/// The mathematical model of a [`FunctionId`].
pub enum IdView {
    Main,
    Named(Seq<char>),
    Anonymous(Span),
    Primitive(Primitive),
}

/// The mathematical model of an [`Instr`].
pub enum InstrView {
    Push(ValueView),
    BeginArray,
    EndArray(usize),
    Prim(Primitive, usize),
    Call(usize),
    DfnVal(usize),
    If(FunctionView, FunctionView),
}

/// The mathematical model of a [`Function`].
pub struct FunctionView {
    pub id: IdView,
    pub instrs: Seq<InstrView>,
    pub dfn_args: Option<u8>,
}

impl View for FunctionId {
    type V = IdView;

    open spec fn view(&self) -> IdView {
        match self {
            FunctionId::Main => IdView::Main,
            FunctionId::Named(name) => IdView::Named(name@),
            FunctionId::Anonymous(span) => IdView::Anonymous(*span),
            FunctionId::Primitive(p) => IdView::Primitive(*p),
        }
    }
}

/// The model of an instruction.
pub open spec fn instr_view(instr: Instr) -> InstrView
    decreases instr, 0int,
{
    match instr {
        Instr::Push(v) => InstrView::Push(value_view(*v)),
        Instr::BeginArray => InstrView::BeginArray,
        Instr::EndArray(span) => InstrView::EndArray(span),
        Instr::Prim(p, span) => InstrView::Prim(p, span),
        Instr::Call(span) => InstrView::Call(span),
        Instr::DfnVal(i) => InstrView::DfnVal(i),
        Instr::If(a, b) => InstrView::If(function_view(*a), function_view(*b)),
    }
}

/// The models of a sequence of instructions, in order.
pub open spec fn instrs_view(instrs: Seq<Instr>) -> Seq<InstrView>
    decreases instrs, 1int,
{
    Seq::new(
        instrs.len(),
        |i: int|
            if 0 <= i < instrs.len() {
                instr_view(instrs[i])
            } else {
                InstrView::BeginArray
            },
    )
}

/// The model of a function.
pub open spec fn function_view(f: Function) -> FunctionView
    decreases f, 2int,
{
    FunctionView { id: f.id@, instrs: instrs_view(f.instrs@), dfn_args: f.dfn_args }
}

impl View for Instr {
    type V = InstrView;

    open spec fn view(&self) -> InstrView {
        instr_view(*self)
    }
}

impl View for Function {
    type V = FunctionView;

    open spec fn view(&self) -> FunctionView {
        function_view(*self)
    }
}

impl FunctionId {
    /// The same identifier again.
    pub fn copy(&self) -> (r: FunctionId)
        ensures
            r == *self,
    {
        match self {
            FunctionId::Main => FunctionId::Main,
            FunctionId::Named(name) => FunctionId::Named(name.clone()),
            FunctionId::Anonymous(span) => FunctionId::Anonymous(*span),
            FunctionId::Primitive(p) => FunctionId::Primitive(*p),
        }
    }
}

} // verus!
