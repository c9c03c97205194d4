//! The mathematical model of the interpreter: its state as sequences, and
//! what each operation makes of a state.
//!
//! The executable functions in the other modules are specified against the
//! functions here. Where an operation may need to call back into the
//! interpreter, it takes the nesting depth that is still allowed as `d`.

use vstd::prelude::*;
use crate::error::{ErrorView, TraceView};
use crate::function::{FunctionView, IdView, InstrView};
use crate::machine::{RunMode, SourceFile};
use crate::primitive::Primitive;
use crate::span::{Span, span_at};
use crate::text::{decimal, shape_text};
use crate::value::{Fault, ValueView};

pub mod compile;
pub mod run;
pub mod invariants;
pub mod laws;

verus! {

/// The model of a call frame.
pub struct FrameView {
    pub function: FunctionView,
    /// Where the call was made, as an index into the span table.
    pub call_span: usize,
    pub pc: usize,
    /// The primitives and array literals that the frame has entered and not left.
    pub spans: Seq<(usize, Option<Primitive>)>,
    /// Whether the frame owns the top entry of the dfn stack.
    pub dfn: bool,
}

/// The model of the arguments of a running dfn.
pub struct DfnView {
    pub function: FunctionView,
    pub args: Seq<ValueView>,
}

/// The model of a scope.
pub struct ScopeView {
    pub value: Seq<ValueView>,
    pub anti: Seq<ValueView>,
    pub array: Seq<usize>,
    pub dfn: Seq<DfnView>,
    pub call: Seq<FrameView>,
    /// Names and the globals they stand for, oldest binding first. In a
    /// well-formed scope no name stands twice.
    pub names: Seq<(Seq<char>, nat)>,
}

/// The model of the interpreter.
pub struct UiuaView {
    /// The instruction buffers of the functions being compiled, innermost last.
    pub new_functions: Seq<Seq<InstrView>>,
    /// For each dfn being compiled, how many arguments its body has named so far.
    pub new_dfns: Seq<u8>,
    pub globals: Seq<ValueView>,
    pub spans: Seq<Span>,
    pub stack: ScopeView,
    pub lower_stacks: Seq<ScopeView>,
    pub mode: RunMode,
    /// The paths of the source units that are being loaded. In a
    /// well-formed state no path stands twice.
    pub current_imports: Seq<Seq<char>>,
    /// The scopes that imports have left, by path. In a well-formed state
    /// no path stands twice.
    pub imports: Seq<(Seq<char>, ScopeView)>,
    /// The source units that can be imported.
    pub files: Seq<SourceFile>,
}

/// A new state and what the step returned.
pub type Step<T> = (UiuaView, Result<T, ErrorView>);

/// The position of the first binding of `name` at or after `from`.
pub open spec fn find_name(names: Seq<(Seq<char>, nat)>, name: Seq<char>, from: int) -> Option<
    int,
>
    decreases names.len() - from,
{
    if from < 0 || from >= names.len() {
        None
    } else if names[from].0 == name {
        Some(from)
    } else {
        find_name(names, name, from + 1)
    }
}

/// The global that `name` stands for.
pub open spec fn lookup(names: Seq<(Seq<char>, nat)>, name: Seq<char>) -> Option<nat> {
    match find_name(names, name, 0) {
        Some(i) => Some(names[i].1),
        None => None,
    }
}

/// The names after `name` is bound to `index`: an earlier binding of the
/// name is dropped, and the new one becomes the youngest.
pub open spec fn bind(names: Seq<(Seq<char>, nat)>, name: Seq<char>, index: nat) -> Seq<
    (Seq<char>, nat),
> {
    match find_name(names, name, 0) {
        Some(i) => names.remove(i).push((name, index)),
        None => names.push((name, index)),
    }
}

/// The position of the first of `paths` that equals `path`, at or after `from`.
pub open spec fn find_path(paths: Seq<Seq<char>>, path: Seq<char>, from: int) -> Option<int>
    decreases paths.len() - from,
{
    if from < 0 || from >= paths.len() {
        None
    } else if paths[from] == path {
        Some(from)
    } else {
        find_path(paths, path, from + 1)
    }
}

/// The nameable primitives among the first `n` of the enumeration, in order.
pub open spec fn nameable(n: nat) -> Seq<Primitive>
    decreases n,
{
    if n == 0 {
        Seq::empty()
    } else if Primitive::spec_nth(n - 1).spec_nameable() {
        nameable((n - 1) as nat).push(Primitive::spec_nth(n - 1))
    } else {
        nameable((n - 1) as nat)
    }
}

/// The function that stands for a primitive.
pub open spec fn primitive_function(p: Primitive) -> FunctionView {
    FunctionView { id: IdView::Primitive(p), instrs: seq![InstrView::Prim(p, 0)], dfn_args: None }
}

/// The globals that every interpreter starts with: the nameable primitives as functions.
pub open spec fn initial_globals() -> Seq<ValueView> {
    let prims = nameable(Primitive::count());
    Seq::new(prims.len(), |i: int| ValueView::function(primitive_function(prims[i])))
}

/// The names that every scope starts with: each nameable primitive, bound to its global.
pub open spec fn initial_names() -> Seq<(Seq<char>, nat)> {
    let prims = nameable(Primitive::count());
    Seq::new(prims.len(), |i: int| (prims[i].spec_name(), i as nat))
}

/// The trace frames of the primitives among some entered spans, in order.
pub open spec fn primitive_frames(spans: Seq<Span>, entered: Seq<(usize, Option<Primitive>)>) -> Seq<
    TraceView,
>
    decreases entered.len(),
{
    if entered.len() == 0 {
        Seq::empty()
    } else {
        let rest = primitive_frames(spans, entered.drop_last());
        match entered.last().1 {
            Some(p) => rest.push(
                TraceView { id: IdView::Primitive(p), span: span_at(spans, entered.last().0 as int) },
            ),
            None => rest,
        }
    }
}

/// What a frame adds to the trace of an error: the primitives it has
/// entered, then the frame itself.
pub open spec fn frame_trace(spans: Seq<Span>, frame: FrameView) -> Seq<TraceView> {
    primitive_frames(spans, frame.spans).push(
        TraceView { id: frame.function.id, span: span_at(spans, frame.call_span as int) },
    )
}

/// The message for an arithmetic fault.
pub open spec fn fault_message(fault: Fault) -> Seq<char> {
    match fault {
        Fault::NotNumbers => "Expected numbers"@,
        Fault::OutOfRange => "Number out of range"@,
        Fault::Shapes => "Shapes do not match"@,
    }
}

/// The message for an index that an array has no row for.
pub open spec fn index_message(index: nat, rows: nat, shape: Seq<usize>) -> Seq<char> {
    "Index "@ + decimal(index) + " is out of bounds of length "@ + decimal(rows)
        + " (dimension 1) in shape "@ + shape_text(shape)
}

impl ScopeView {
    /// The scope that a run starts in: empty stacks and the initial names.
    pub open spec fn fresh() -> ScopeView {
        ScopeView {
            value: Seq::empty(),
            anti: Seq::empty(),
            array: Seq::empty(),
            dfn: Seq::empty(),
            call: Seq::empty(),
            names: initial_names(),
        }
    }

    /// Every name stands for a global that exists, no name is bound
    /// twice, and the dfn stack has one entry for each call frame that
    /// owns one.
    pub open spec fn wf(self, globals: nat) -> bool {
        &&& forall|i: int| 0 <= i < self.names.len() ==> (#[trigger] self.names[i]).1 < globals
        &&& distinct_names(self.names)
        &&& self.dfn.len() == dfn_frames(self.call)
    }
}

/// Whether no name is bound twice.
pub open spec fn distinct_names(names: Seq<(Seq<char>, nat)>) -> bool {
    forall|i: int, j: int|
        #![trigger names[i], names[j]]
        0 <= i < j < names.len() ==> names[i].0 != names[j].0
}

/// Whether no path stands twice.
pub open spec fn distinct_paths(paths: Seq<Seq<char>>) -> bool {
    forall|i: int, j: int|
        #![trigger paths[i], paths[j]]
        0 <= i < j < paths.len() ==> paths[i] != paths[j]
}

/// Whether no path has two kept scopes.
pub open spec fn distinct_imports(imports: Seq<(Seq<char>, ScopeView)>) -> bool {
    forall|i: int, j: int|
        #![trigger imports[i], imports[j]]
        0 <= i < j < imports.len() ==> imports[i].0 != imports[j].0
}

/// How many of some call frames own an entry of the dfn stack.
pub open spec fn dfn_frames(call: Seq<FrameView>) -> nat
    decreases call.len(),
{
    if call.len() == 0 {
        0
    } else {
        dfn_frames(call.drop_last()) + if call.last().dfn {
            1nat
        } else {
            0nat
        }
    }
}

/// Whether two frames differ at most in the spans they have entered.
pub open spec fn same_but_spans(a: FrameView, b: FrameView) -> bool {
    a == (FrameView { spans: a.spans, ..b })
}

impl UiuaView {
    /// The state that an interpreter starts in.
    pub open spec fn initial(files: Seq<SourceFile>) -> UiuaView {
        UiuaView {
            new_functions: Seq::empty(),
            new_dfns: Seq::empty(),
            globals: initial_globals(),
            spans: seq![Span::Builtin],
            stack: ScopeView::fresh(),
            lower_stacks: Seq::empty(),
            mode: RunMode::Normal,
            current_imports: Seq::empty(),
            imports: Seq::empty(),
            files,
        }
    }

    /// The tables of the state contain those of `before`, which only grow,
    /// and what never changes is the same.
    pub open spec fn extends(self, before: UiuaView) -> bool {
        &&& before.globals.is_prefix_of(self.globals)
        &&& before.spans.is_prefix_of(self.spans)
        &&& before.imports.is_prefix_of(self.imports)
        &&& self.files == before.files
        &&& self.mode == before.mode
    }

    /// The activations are those of `before`: the same call frames and dfn
    /// frames, the same scopes set aside, the same source units being loaded.
    pub open spec fn resumes(self, before: UiuaView) -> bool {
        &&& self.stack.call == before.stack.call
        &&& self.stack.dfn == before.stack.dfn
        &&& self.lower_stacks == before.lower_stacks
        &&& self.current_imports == before.current_imports
    }

    /// As `resumes`, but the top frame may hold other spans: where an
    /// instruction fails, the span it entered stays for the trace.
    pub open spec fn resumes_pending(self, before: UiuaView) -> bool {
        &&& self.stack.call.len() == before.stack.call.len()
        &&& self.stack.call.len() > 0 ==> self.stack.call.drop_last()
            == before.stack.call.drop_last() && same_but_spans(
            self.stack.call.last(),
            before.stack.call.last(),
        )
        &&& self.stack.dfn == before.stack.dfn
        &&& self.lower_stacks == before.lower_stacks
        &&& self.current_imports == before.current_imports
    }

    /// What holds of the state after any step of a run that began in
    /// `before` and has ended: the tables have only grown, the
    /// activations and the names are the same, and the state is well
    /// formed if `before` was.
    pub open spec fn continues(self, before: UiuaView) -> bool {
        &&& self.extends(before)
        &&& self.resumes(before)
        &&& self.stack.names == before.stack.names
        &&& before.wf() ==> self.wf()
    }

    /// As `continues`, but the names of the current scope may be others:
    /// what holds after items of a source unit have run.
    pub open spec fn proceeds(self, before: UiuaView) -> bool {
        &&& self.extends(before)
        &&& self.resumes(before)
        &&& before.wf() ==> self.wf()
    }

    /// As `continues`, for an instruction that may have failed.
    pub open spec fn continues_pending(self, before: UiuaView) -> bool {
        &&& self.extends(before)
        &&& self.resumes_pending(before)
        &&& self.stack.names == before.stack.names
        &&& before.wf() ==> self.wf()
    }

    /// What holds of the state after compiling: nothing but the
    /// compiler's buffers and the span table has changed, and the span
    /// table has only grown.
    pub open spec fn compiled_from(self, before: UiuaView) -> bool {
        &&& self.globals == before.globals
        &&& before.spans.is_prefix_of(self.spans)
        &&& self.stack == before.stack
        &&& self.lower_stacks == before.lower_stacks
        &&& self.mode == before.mode
        &&& self.current_imports == before.current_imports
        &&& self.imports == before.imports
        &&& self.files == before.files
    }

    /// Every scope that the state holds is well formed, the globals that
    /// the initial names stand for exist, no path has two kept scopes, and
    /// no path is being loaded twice.
    #[verifier::opaque]
    pub open spec fn wf(self) -> bool {
        &&& initial_names().len() <= self.globals.len()
        &&& distinct_imports(self.imports)
        &&& distinct_paths(self.current_imports)
        &&& self.stack.wf(self.globals.len())
        &&& forall|i: int|
            0 <= i < self.lower_stacks.len() ==> (#[trigger] self.lower_stacks[i]).wf(
                self.globals.len(),
            )
        &&& forall|i: int|
            0 <= i < self.imports.len() ==> (#[trigger] self.imports[i]).1.wf(self.globals.len())
    }

    /// The state with another scope in place of the current one.
    pub open spec fn with_stack(self, stack: ScopeView) -> UiuaView {
        UiuaView { stack, ..self }
    }

    /// The state with other values on the stack.
    pub open spec fn with_values(self, value: Seq<ValueView>) -> UiuaView {
        self.with_stack(ScopeView { value, ..self.stack })
    }

    /// The state with other values on the antistack.
    pub open spec fn with_anti(self, anti: Seq<ValueView>) -> UiuaView {
        self.with_stack(ScopeView { anti, ..self.stack })
    }

    /// The state with other call frames.
    pub open spec fn with_call(self, call: Seq<FrameView>) -> UiuaView {
        self.with_stack(ScopeView { call, ..self.stack })
    }

    /// The state with another dfn stack.
    pub open spec fn with_dfn(self, dfn: Seq<DfnView>) -> UiuaView {
        self.with_stack(ScopeView { dfn, ..self.stack })
    }

    /// The global at an index; the empty list where there is none.
    pub open spec fn global(self, index: int) -> ValueView {
        if 0 <= index < self.globals.len() {
            self.globals[index]
        } else {
            ValueView::empty()
        }
    }

    /// The index of the span that errors are reported at: the innermost
    /// span that the top frame has entered, else where that frame was
    /// called, else the builtin span.
    pub open spec fn span_index(self) -> usize {
        if self.stack.call.len() == 0 {
            0
        } else {
            let frame = self.stack.call.last();
            if frame.spans.len() > 0 {
                frame.spans.last().0
            } else {
                frame.call_span
            }
        }
    }

    /// The span that errors are reported at.
    pub open spec fn span(self) -> Span {
        span_at(self.spans, self.span_index() as int)
    }

    /// A runtime error at the current span.
    pub open spec fn error(self, message: Seq<char>) -> ErrorView {
        ErrorView::Run(self.span(), message)
    }

    /// A value more on the stack.
    pub open spec fn push(self, v: ValueView) -> UiuaView {
        self.with_values(self.stack.value.push(v))
    }

    /// The top value taken from the stack. `arg_name` says in the error
    /// what the value was wanted for.
    pub open spec fn pop(self, arg_name: Seq<char>) -> Step<ValueView> {
        if self.stack.value.len() == 0 {
            (self, Err(self.error("Stack was empty when evaluating "@ + arg_name)))
        } else {
            (self.with_values(self.stack.value.drop_last()), Ok(self.stack.value.last()))
        }
    }

    /// A value more on the antistack.
    pub open spec fn antipush(self, v: ValueView) -> UiuaView {
        self.with_anti(self.stack.anti.push(v))
    }

    /// The top value taken from the antistack.
    pub open spec fn antipop(self, arg_name: Seq<char>) -> Step<ValueView> {
        if self.stack.anti.len() == 0 {
            (self, Err(self.error("Antistack was empty when evaluating "@ + arg_name)))
        } else {
            (self.with_anti(self.stack.anti.drop_last()), Ok(self.stack.anti.last()))
        }
    }

    /// A frame more on the call stack.
    pub open spec fn push_frame(self, frame: FrameView) -> UiuaView {
        self.with_call(self.stack.call.push(frame))
    }

    /// The call stack without its top frame, and the dfn stack without
    /// the entry that the frame owned.
    pub open spec fn pop_frame(self) -> UiuaView {
        if self.stack.call.len() == 0 {
            self
        } else if self.stack.call.last().dfn && self.stack.dfn.len() > 0 {
            self.with_call(self.stack.call.drop_last()).with_dfn(self.stack.dfn.drop_last())
        } else {
            self.with_call(self.stack.call.drop_last())
        }
    }

    /// The top frame changed by `f`.
    pub open spec fn map_frame(self, f: spec_fn(FrameView) -> FrameView) -> UiuaView {
        if self.stack.call.len() == 0 {
            self
        } else {
            self.with_call(self.stack.call.drop_last().push(f(self.stack.call.last())))
        }
    }

    /// The top frame at another instruction.
    pub open spec fn set_pc(self, pc: usize) -> UiuaView {
        self.map_frame(|f: FrameView| FrameView { pc, ..f })
    }

    /// The top frame enters a span.
    pub open spec fn push_span(self, span: usize, prim: Option<Primitive>) -> UiuaView {
        self.map_frame(|f: FrameView| FrameView { spans: f.spans.push((span, prim)), ..f })
    }

    /// The top frame leaves the span it entered last.
    pub open spec fn pop_span(self) -> UiuaView {
        self.map_frame(
            |f: FrameView|
                FrameView {
                    spans: if f.spans.len() > 0 {
                        f.spans.drop_last()
                    } else {
                        f.spans
                    },
                    ..f
                },
        )
    }

    /// The error with what a frame adds to its trace.
    pub open spec fn trace_error(self, error: ErrorView, frame: FrameView) -> ErrorView {
        error.traced(frame_trace(self.spans, frame))
    }

    /// The top frame is given up: the error gets its trace, and the frame leaves.
    pub open spec fn unwind(self, error: ErrorView) -> Step<()> {
        if self.stack.call.len() == 0 {
            (self, Err(error))
        } else {
            (self.pop_frame(), Err(self.trace_error(error, self.stack.call.last())))
        }
    }

    /// A span more in the table, and its index.
    pub open spec fn add_span(self, span: Span) -> (UiuaView, usize) {
        (UiuaView { spans: self.spans.push(span), ..self }, self.spans.len() as usize)
    }

    /// A value more in the globals table, bound to `name` in the current scope.
    pub open spec fn define(self, name: Seq<char>, v: ValueView) -> UiuaView {
        UiuaView {
            globals: self.globals.push(v),
            stack: ScopeView {
                names: bind(self.stack.names, name, self.globals.len()),
                ..self.stack
            },
            ..self
        }
    }
}

} // verus!
