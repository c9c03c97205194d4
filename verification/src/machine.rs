//! The interpreter's state, and the operations on its stacks.

use vstd::prelude::*;
use vstd::string::*;
use std::rc::Rc;
use crate::ast::Parsed;
use crate::error::{ErrorView, UiuaError};
use crate::function::{Function, FunctionId, Instr, instrs_view};
use crate::model::{
    DfnView,
    FrameView,
    ScopeView,
    UiuaView,
    initial_globals,
    initial_names,
    nameable,
    primitive_function,
};
use crate::model::invariants::{
    antipop_continues,
    antipush_continues,
    pop_continues,
    push_continues,
    values_continue,
};
use crate::model::laws::initial_wf;
use crate::model::run::argument;
use crate::primitive::Primitive;
use crate::span::{Span, span_at};
use crate::text::{signed_decimal, push_signed_decimal, with_number, with_text};
use crate::value::{Value, ValueView, share, values_view};

verus! {

/// Which lines of a source unit run.
///
/// Whatever the mode, a line that holds the import primitive runs.
#[derive(Debug, Clone, Copy, PartialEq, Eq, Structural, PartialOrd, Ord, Hash)]
pub enum RunMode {
    /// Only lines outside of test blocks.
    Normal,
    /// Only lines inside of test blocks, and the bindings there.
    Test,
    /// Everything.
    Watch,
}

/// A source unit that can be imported: its path and what a parser made of its text.
#[derive(Clone, Debug)]
pub struct SourceFile {
    pub path: String,
    pub source: Rc<Parsed>,
}

impl SourceFile {
    /// What a parser made of the text of the source unit.
    pub open spec fn parsed(self) -> Parsed {
        *self.source
    }
}

/// Where imports find their source units.
#[derive(Clone, Debug)]
pub struct IoBackend {
    pub files: Vec<SourceFile>,
}

/// One activation of a function.
#[derive(Clone, Debug)]
pub(crate) struct StackFrame {
    pub(crate) function: Rc<Function>,
    pub(crate) call_span: usize,
    pub(crate) pc: usize,
    pub(crate) spans: Vec<(usize, Option<Primitive>)>,
    pub(crate) dfn: bool,
}

/// The arguments of a running dfn.
#[derive(Clone, Debug)]
pub(crate) struct DfnFrame {
    pub(crate) function: Rc<Function>,
    pub(crate) args: Vec<Rc<Value>>,
}

/// The stacks of a run and the names it can see.
#[derive(Clone, Debug)]
#[must_use]
pub struct Scope {
    pub(crate) value: Vec<Rc<Value>>,
    pub(crate) anti: Vec<Rc<Value>>,
    pub(crate) array: Vec<usize>,
    pub(crate) dfn: Vec<DfnFrame>,
    pub(crate) call: Vec<StackFrame>,
    /// The map from names to globals, as a list, oldest binding first.
    /// No name stands twice: binding a name again drops its old entry.
    pub(crate) names: Vec<(String, usize)>,
}

/// The interpreter.
#[derive(Clone, Debug)]
pub struct Uiua {
    pub(crate) new_functions: Vec<Vec<Instr>>,
    pub(crate) new_dfns: Vec<u8>,
    pub(crate) globals: Vec<Rc<Value>>,
    pub(crate) spans: Vec<Span>,
    pub(crate) stack: Scope,
    pub(crate) lower_stacks: Vec<Scope>,
    pub(crate) mode: RunMode,
    /// The set of paths that are being loaded, as a list. No path
    /// stands twice.
    pub(crate) current_imports: Vec<String>,
    /// The map from paths to the scopes that imports have left, as a
    /// list. No path stands twice.
    pub(crate) imports: Vec<(String, Scope)>,
    pub(crate) io: IoBackend,
    pub(crate) depth: usize,
}

impl View for StackFrame {
    type V = FrameView;

    open(crate) spec fn view(&self) -> FrameView {
        FrameView {
            function: self.function@,
            call_span: self.call_span,
            pc: self.pc,
            spans: self.spans@,
            dfn: self.dfn,
        }
    }
}

impl View for DfnFrame {
    type V = DfnView;

    open(crate) spec fn view(&self) -> DfnView {
        DfnView { function: self.function@, args: values_view(self.args@) }
    }
}

/// The models of some call frames, in order.
pub(crate) open spec fn frames_view(frames: Seq<StackFrame>) -> Seq<FrameView> {
    Seq::new(frames.len(), |i: int| frames[i]@)
}

/// The models of some dfn frames, in order.
pub(crate) open spec fn dfns_view(frames: Seq<DfnFrame>) -> Seq<DfnView> {
    Seq::new(frames.len(), |i: int| frames[i]@)
}

/// The models of some bindings, in order.
pub(crate) open spec fn names_view(names: Seq<(String, usize)>) -> Seq<(Seq<char>, nat)> {
    Seq::new(names.len(), |i: int| (names[i].0@, names[i].1 as nat))
}

/// The models of some paths, in order.
pub(crate) open spec fn paths_view(paths: Seq<String>) -> Seq<Seq<char>> {
    Seq::new(paths.len(), |i: int| paths[i]@)
}

/// The models of some instruction buffers, in order.
pub(crate) open spec fn buffers_view(buffers: Seq<Vec<Instr>>) -> Seq<Seq<crate::function::InstrView>> {
    Seq::new(buffers.len(), |i: int| instrs_view(buffers[i]@))
}

impl View for Scope {
    type V = ScopeView;

    open(crate) spec fn view(&self) -> ScopeView {
        ScopeView {
            value: values_view(self.value@),
            anti: values_view(self.anti@),
            array: self.array@,
            dfn: dfns_view(self.dfn@),
            call: frames_view(self.call@),
            names: names_view(self.names@),
        }
    }
}

/// The models of some scopes, in order.
pub(crate) open spec fn scopes_view(scopes: Seq<Scope>) -> Seq<ScopeView> {
    Seq::new(scopes.len(), |i: int| scopes[i]@)
}

/// The models of some kept imports, in order.
pub(crate) open spec fn imports_view(imports: Seq<(String, Scope)>) -> Seq<(Seq<char>, ScopeView)> {
    Seq::new(imports.len(), |i: int| (imports[i].0@, imports[i].1@))
}

impl View for Uiua {
    type V = UiuaView;

    open(crate) spec fn view(&self) -> UiuaView {
        UiuaView {
            new_functions: buffers_view(self.new_functions@),
            new_dfns: self.new_dfns@,
            globals: values_view(self.globals@),
            spans: self.spans@,
            stack: self.stack@,
            lower_stacks: scopes_view(self.lower_stacks@),
            mode: self.mode,
            current_imports: paths_view(self.current_imports@),
            imports: imports_view(self.imports@),
            files: self.io.files@,
        }
    }
}

impl Uiua {
    /// How many more activations may be nested.
    pub open(crate) spec fn depth(&self) -> nat {
        self.depth as nat
    }
}

/// How many activations may be nested unless another limit is set.
pub const DEFAULT_DEPTH: usize = 200;

/// The model of what a step that hands out a value returned.
pub open spec fn value_step_view(r: Result<Rc<Value>, UiuaError>) -> Result<ValueView, ErrorView> {
    match r {
        Ok(v) => Ok(v@),
        Err(e) => Err(e@),
    }
}

/// What a value is taken from the stack for, as error messages name it.
pub trait StackArg {
    /// The name, as a sequence of characters.
    spec fn spec_arg_name(&self) -> Seq<char>;

    /// The name.
    fn arg_name(&self) -> (name: String)
        ensures
            name@ == self.spec_arg_name(),
    ;
}

impl StackArg for usize {
    open spec fn spec_arg_name(&self) -> Seq<char> {
        argument(*self as nat)
    }

    fn arg_name(&self) -> (name: String) {
        let name = with_number("argument ", *self as u64, "");
        proof {
            reveal_strlit("");
        }
        assert(name@ =~= argument(*self as nat));
        name
    }
}

impl StackArg for u8 {
    open spec fn spec_arg_name(&self) -> Seq<char> {
        argument(*self as nat)
    }

    fn arg_name(&self) -> (name: String) {
        let name = with_number("argument ", *self as u64, "");
        proof {
            reveal_strlit("");
        }
        assert(name@ =~= argument(*self as nat));
        name
    }
}

impl StackArg for i32 {
    open spec fn spec_arg_name(&self) -> Seq<char> {
        "argument "@ + signed_decimal(*self as int)
    }

    fn arg_name(&self) -> (name: String) {
        let mut name = String::from_str("argument ");
        push_signed_decimal(&mut name, *self as i64);
        name
    }
}

impl<'a> StackArg for &'a str {
    open spec fn spec_arg_name(&self) -> Seq<char> {
        self@
    }

    fn arg_name(&self) -> (name: String) {
        String::from_str(self)
    }
}

impl Scope {
    /// The scope that a run starts in: empty stacks, and a name for each nameable primitive.
    pub fn fresh() -> (r: Scope)
        ensures
            r@ == ScopeView::fresh(),
    {
        let all = Primitive::all();
        let mut names: Vec<(String, usize)> = Vec::new();
        let mut k: usize = 0;
        while k < all.len()
            invariant
                k <= all.len(),
                all@ == Primitive::spec_all(),
                names@.len() == nameable(k as nat).len(),
                forall|i: int|
                    0 <= i < names@.len() ==> (#[trigger] names@[i]).0@ == nameable(
                        k as nat,
                    )[i].spec_name() && names@[i].1 == i,
            decreases all.len() - k,
        {
            let p = all[k];
            match p.format_name() {
                None => {
                    let index = names.len();
                    names.push((String::from_str(p.name()), index));
                },
                Some(_) => {},
            }
            k += 1;
        }
        let r = Scope {
            value: Vec::new(),
            anti: Vec::new(),
            array: Vec::new(),
            dfn: Vec::new(),
            call: Vec::new(),
            names,
        };
        assert(r@.names =~= initial_names());
        assert(r@.value =~= Seq::empty());
        assert(r@.anti =~= Seq::empty());
        assert(r@.array =~= Seq::empty());
        assert(r@.dfn =~= Seq::empty());
        assert(r@.call =~= Seq::empty());
        r
    }
}

impl Default for Scope {
    fn default() -> (r: Scope)
        ensures
            r@ == ScopeView::fresh(),
    {
        Scope::fresh()
    }
}

impl IoBackend {
    /// A backend without source units: every import fails.
    pub fn none() -> (r: IoBackend)
        ensures
            r.files@ == Seq::<SourceFile>::empty(),
    {
        IoBackend { files: Vec::new() }
    }
}

impl Default for Uiua {
    fn default() -> (r: Uiua)
        ensures
            r@ == UiuaView::initial(Seq::empty()),
            r@.wf(),
            r.depth() == DEFAULT_DEPTH,
    {
        Uiua::with_stdio()
    }
}

impl Uiua {
    /// A new interpreter that can import nothing.
    pub fn with_stdio() -> (r: Uiua)
        ensures
            r@ == UiuaView::initial(Seq::empty()),
            r@.wf(),
            r.depth() == DEFAULT_DEPTH,
    {
        Uiua::with_backend(IoBackend::none())
    }

    /// A new interpreter that imports from the source units of `io`.
    pub fn with_backend(io: IoBackend) -> (r: Uiua)
        ensures
            r@ == UiuaView::initial(io.files@),
            r@.wf(),
            r.depth() == DEFAULT_DEPTH,
    {
        proof {
            initial_wf(io.files@);
        }
        let all = Primitive::all();
        let mut globals: Vec<Rc<Value>> = Vec::new();
        let mut k: usize = 0;
        while k < all.len()
            invariant
                k <= all.len(),
                all@ == Primitive::spec_all(),
                globals@.len() == nameable(k as nat).len(),
                forall|i: int|
                    0 <= i < globals@.len() ==> (#[trigger] globals@[i])@ == ValueView::function(
                        primitive_function(nameable(k as nat)[i]),
                    ),
            decreases all.len() - k,
        {
            let p = all[k];
            match p.format_name() {
                None => {
                    let function = Function {
                        id: FunctionId::Primitive(p),
                        instrs: vec![Instr::Prim(p, 0)],
                        dfn_args: None,
                    };
                    assert(function@.instrs =~= primitive_function(p).instrs);
                    globals.push(Rc::new(Value::from_function(Rc::new(function))));
                },
                Some(_) => {},
            }
            k += 1;
        }
        let r = Uiua {
            new_functions: Vec::new(),
            new_dfns: Vec::new(),
            globals,
            spans: vec![Span::Builtin],
            stack: Scope::fresh(),
            lower_stacks: Vec::new(),
            mode: RunMode::Normal,
            current_imports: Vec::new(),
            imports: Vec::new(),
            io,
            depth: DEFAULT_DEPTH,
        };
        assert(r@.globals =~= initial_globals());
        assert(r@.new_functions =~= Seq::empty());
        assert(r@.spans =~= seq![Span::Builtin]);
        assert(r@.lower_stacks =~= Seq::empty());
        assert(r@.current_imports =~= Seq::empty());
        assert(r@.imports =~= Seq::empty());
        assert(r@.new_dfns =~= Seq::empty());
        r
    }

    /// The interpreter with another run mode. A new interpreter runs in `Normal` mode.
    pub fn mode(self, mode: RunMode) -> (r: Uiua)
        ensures
            r@ == (UiuaView { mode, ..self@ }),
            self@.wf() ==> r@.wf(),
            r.depth() == self.depth(),
    {
        proof {
            if self@.wf() {
                reveal(UiuaView::wf);
            }
        }
        let mut r = self;
        r.mode = mode;
        r
    }

    /// The interpreter with another limit on how many activations may be nested.
    pub fn depth_limit(self, limit: usize) -> (r: Uiua)
        ensures
            r@ == self@,
            self@.wf() ==> r@.wf(),
            r.depth() == limit,
    {
        let mut r = self;
        r.depth = limit;
        r
    }

    /// The index of the span that errors are reported at.
    pub(crate) fn span_index(&self) -> (r: usize)
        ensures
            r == self@.span_index(),
    {
        let n = self.stack.call.len();
        if n == 0 {
            0
        } else {
            let frame = &self.stack.call[n - 1];
            let m = frame.spans.len();
            if m > 0 {
                frame.spans[m - 1].0
            } else {
                frame.call_span
            }
        }
    }

    /// The span at an index of the table; the builtin span where the table has none.
    pub(crate) fn span_at(&self, index: usize) -> (r: Span)
        ensures
            r == span_at(self@.spans, index as int),
    {
        if index < self.spans.len() {
            self.spans[index]
        } else {
            Span::Builtin
        }
    }

    /// The span of the call that is under way.
    pub fn span(&self) -> (r: Span)
        ensures
            r == self@.span(),
    {
        self.span_at(self.span_index())
    }

    /// An error with a message at the current span.
    pub fn error(&self, message: &str) -> (e: UiuaError)
        ensures
            e@ == self@.error(message@),
    {
        UiuaError::run(self.span(), String::from_str(message))
    }

    /// Puts a value on the stack.
    pub fn push(&mut self, val: Value)
        ensures
            final(self)@ == old(self)@.push(val@),
            final(self)@.continues(old(self)@),
            final(self).depth() == old(self).depth(),
    {
        self.push_ref(Rc::new(val));
    }

    /// Puts a shared value on the stack.
    pub fn push_ref(&mut self, val: Rc<Value>)
        ensures
            final(self)@ == old(self)@.push(val@),
            final(self)@.continues(old(self)@),
            final(self).depth() == old(self).depth(),
    {
        proof {
            push_continues(self@, val@);
        }
        self.stack.value.push(val);
        assert(self@.stack.value =~= old(self)@.stack.value.push(val@));
    }

    /// Puts a value on the antistack.
    pub fn antipush(&mut self, val: Value)
        ensures
            final(self)@ == old(self)@.antipush(val@),
            final(self)@.continues(old(self)@),
            final(self).depth() == old(self).depth(),
    {
        self.antipush_ref(Rc::new(val));
    }

    /// Puts a shared value on the antistack.
    pub fn antipush_ref(&mut self, val: Rc<Value>)
        ensures
            final(self)@ == old(self)@.antipush(val@),
            final(self)@.continues(old(self)@),
            final(self).depth() == old(self).depth(),
    {
        proof {
            antipush_continues(self@, val@);
        }
        self.stack.anti.push(val);
        assert(self@.stack.anti =~= old(self)@.stack.anti.push(val@));
    }

    /// Takes the top value from the stack. `arg` says in the error message
    /// what the value was wanted for.
    pub fn pop<A: StackArg>(&mut self, arg: A) -> (r: Result<Rc<Value>, UiuaError>)
        ensures
            (final(self)@, value_step_view(r)) == old(self)@.pop(arg.spec_arg_name()),
            final(self)@.continues(old(self)@),
            final(self).depth() == old(self).depth(),
    {
        proof {
            pop_continues(self@, arg.spec_arg_name());
        }
        match self.stack.value.pop() {
            Some(v) => {
                assert(self@.stack.value =~= old(self)@.stack.value.drop_last());
                Ok(v)
            },
            None => {
                let name = arg.arg_name();
                let message = with_text("Stack was empty when evaluating ", name.as_str());
                Err(self.error(message.as_str()))
            },
        }
    }

    /// Takes the top value from the antistack.
    pub fn antipop<A: StackArg>(&mut self, arg: A) -> (r: Result<Rc<Value>, UiuaError>)
        ensures
            (final(self)@, value_step_view(r)) == old(self)@.antipop(arg.spec_arg_name()),
            final(self)@.continues(old(self)@),
            final(self).depth() == old(self).depth(),
    {
        proof {
            antipop_continues(self@, arg.spec_arg_name());
        }
        match self.stack.anti.pop() {
            Some(v) => {
                assert(self@.stack.anti =~= old(self)@.stack.anti.drop_last());
                Ok(v)
            },
            None => {
                let name = arg.arg_name();
                let message = with_text("Antistack was empty when evaluating ", name.as_str());
                Err(self.error(message.as_str()))
            },
        }
    }

    /// Takes the result of a run from the stack.
    pub fn pop_result(&mut self) -> (r: Result<Rc<Value>, UiuaError>)
        ensures
            (final(self)@, value_step_view(r)) == old(self)@.pop("result"@),
            final(self)@.continues(old(self)@),
            final(self).depth() == old(self).depth(),
    {
        self.pop("result")
    }

    /// Takes all values from the stack, the bottom one first.
    pub fn take_stack(&mut self) -> (r: Vec<Rc<Value>>)
        ensures
            final(self)@ == old(self)@.with_values(Seq::empty()),
            final(self)@.continues(old(self)@),
            values_view(r@) == old(self)@.stack.value,
            final(self).depth() == old(self).depth(),
    {
        proof {
            values_continue(self@, self@.with_values(Seq::empty()));
        }
        let mut taken: Vec<Rc<Value>> = Vec::new();
        std::mem::swap(&mut taken, &mut self.stack.value);
        assert(self@.stack.value =~= Seq::empty());
        taken
    }

    /// The values on the stack, the bottom one first.
    pub fn clone_stack(&self) -> (r: Vec<Rc<Value>>)
        ensures
            values_view(r@) == self@.stack.value,
    {
        let mut r: Vec<Rc<Value>> = Vec::new();
        let mut i: usize = 0;
        while i < self.stack.value.len()
            invariant
                i <= self.stack.value.len(),
                r@ == self.stack.value@.subrange(0, i as int),
            decreases self.stack.value.len() - i,
        {
            r.push(share(&self.stack.value[i]));
            assert(r@ =~= self.stack.value@.subrange(0, i + 1));
            i += 1;
        }
        assert(r@ =~= self.stack.value@);
        r
    }

    /// How many values the globals table holds.
    pub fn globals_len(&self) -> (n: usize)
        ensures
            n == self@.globals.len(),
    {
        self.globals.len()
    }

    /// How many values the stack holds.
    pub fn stack_size(&self) -> (n: usize)
        ensures
            n == self@.stack.value.len(),
    {
        self.stack.value.len()
    }

    /// How many values the antistack holds.
    pub fn antistack_size(&self) -> (n: usize)
        ensures
            n == self@.stack.anti.len(),
    {
        self.stack.anti.len()
    }

    /// Drops the values above the first `size` from the stack.
    pub fn truncate_stack(&mut self, size: usize)
        ensures
            final(self)@ == old(self)@.with_values(
                if size <= old(self)@.stack.value.len() {
                    old(self)@.stack.value.subrange(0, size as int)
                } else {
                    old(self)@.stack.value
                },
            ),
            final(self)@.continues(old(self)@),
            final(self).depth() == old(self).depth(),
    {
        self.stack.value.truncate(size);
        assert(self@.stack.value =~= if size <= old(self)@.stack.value.len() {
            old(self)@.stack.value.subrange(0, size as int)
        } else {
            old(self)@.stack.value
        });
        proof {
            values_continue(old(self)@, self@);
        }
    }

    /// Drops the values above the first `size` from the antistack.
    pub fn truncate_antistack(&mut self, size: usize)
        ensures
            final(self)@ == old(self)@.with_anti(
                if size <= old(self)@.stack.anti.len() {
                    old(self)@.stack.anti.subrange(0, size as int)
                } else {
                    old(self)@.stack.anti
                },
            ),
            final(self)@.continues(old(self)@),
            final(self).depth() == old(self).depth(),
    {
        self.stack.anti.truncate(size);
        assert(self@.stack.anti =~= if size <= old(self)@.stack.anti.len() {
            old(self)@.stack.anti.subrange(0, size as int)
        } else {
            old(self)@.stack.anti
        });
        proof {
            values_continue(old(self)@, self@);
        }
    }
}

} // verus!
