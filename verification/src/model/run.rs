//! What running makes of a state: instructions, calls, primitives, and the
//! items of a source unit with their scopes and imports.
//!
//! `d` is how many more activations may be nested: each function call and
//! each scope takes one, and gives it back when it ends.

use vstd::prelude::*;
use crate::ast::{Binding, Item, Parsed, functiony, has_import};
use crate::error::{ErrorView, parse_errors_view};
use crate::function::{FunctionView, IdView, InstrView};
use crate::machine::{RunMode, SourceFile};
use crate::model::{
    DfnView,
    FrameView,
    ScopeView,
    Step,
    UiuaView,
    fault_message,
    find_path,
    index_message,
};
use crate::primitive::{IoOp, Primitive};
use crate::text::decimal;
use crate::value::ValueView;

verus! {

/// The position of the first source unit at or after `from` whose path is `path`.
pub open spec fn find_file(files: Seq<SourceFile>, path: Seq<char>, from: int) -> Option<int>
    decreases files.len() - from,
{
    if from < 0 || from >= files.len() {
        None
    } else if files[from].path@ == path {
        Some(from)
    } else {
        find_file(files, path, from + 1)
    }
}

/// The position of the first cached import at or after `from` whose path is `path`.
pub open spec fn find_import(imports: Seq<(Seq<char>, ScopeView)>, path: Seq<char>, from: int) -> Option<
    int,
>
    decreases imports.len() - from,
{
    if from < 0 || from >= imports.len() {
        None
    } else if imports[from].0 == path {
        Some(from)
    } else {
        find_import(imports, path, from + 1)
    }
}

/// What a value is wanted for, where it is the `n`-th argument of a primitive.
pub open spec fn argument(n: nat) -> Seq<char> {
    "argument "@ + decimal(n)
}

/// The frame that a call of `function` starts with.
pub open spec fn call_frame(function: FunctionView, call_span: usize, dfn: bool) -> FrameView {
    FrameView { function, call_span, pc: 0, spans: Seq::empty(), dfn }
}

/// The function that the top level of a line runs as.
pub open spec fn main_function(instrs: Seq<InstrView>) -> FunctionView {
    FunctionView { id: IdView::Main, instrs, dfn_args: None }
}

/// The message of the error that is raised where no further activation may be nested.
pub open spec fn depth_message() -> Seq<char> {
    "Maximum nesting depth exceeded"@
}

/// Whether a line of words runs.
pub open spec fn words_run(mode: RunMode, in_test: bool) -> bool {
    match mode {
        RunMode::Normal => !in_test,
        RunMode::Test => in_test,
        RunMode::Watch => true,
    }
}

/// Whether a binding runs.
pub open spec fn binding_runs(mode: RunMode, in_test: bool) -> bool {
    match mode {
        RunMode::Normal => true,
        RunMode::Watch => true,
        RunMode::Test => in_test,
    }
}

impl UiuaView {
    /// The height of the value stack is recorded: an array literal begins.
    pub open spec fn begin_array(self) -> UiuaView {
        self.with_stack(
            ScopeView {
                array: self.stack.array.push(self.stack.value.len() as usize),
                ..self.stack
            },
        )
    }

    /// An array literal ends: the values above the recorded height
    /// leave the stack and become the rows of one array, the last pushed first.
    pub open spec fn end_array(self, span: usize) -> Step<()> {
        if self.stack.array.len() == 0 {
            (self, Err(self.error("Array was not begun"@)))
        } else {
            let start = self.stack.array.last() as int;
            let s = self.with_stack(
                ScopeView { array: self.stack.array.drop_last(), ..self.stack },
            );
            if start > s.stack.value.len() {
                (s, Err(s.error("Array removed elements"@)))
            } else {
                let rows = s.stack.value.subrange(start, s.stack.value.len() as int).reverse();
                let s = s.with_values(s.stack.value.subrange(0, start)).push_span(span, None);
                match ValueView::stack(rows) {
                    None => (s, Err(s.error("Cannot combine arrays of different shapes"@))),
                    Some(v) => (s.pop_span().push(v), Ok(())),
                }
            }
        }
    }

    /// An argument of the innermost dfn is pushed.
    pub open spec fn dfn_val(self, index: usize) -> Step<()> {
        if self.stack.dfn.len() > 0 && index < self.stack.dfn.last().args.len() {
            (self.push(self.stack.dfn.last().args[index as int]), Ok(()))
        } else {
            (self, Err(self.error("No dfn argument "@ + decimal(index as nat))))
        }
    }

    /// A value is taken, changed by `f`, and put back.
    pub open spec fn monadic(self, f: spec_fn(ValueView) -> Result<ValueView, Seq<char>>) -> Step<
        (),
    > {
        let (s, r) = self.pop(argument(1));
        match r {
            Err(e) => (s, Err(e)),
            Ok(a) => match f(a) {
                Ok(v) => (s.push(v), Ok(())),
                Err(message) => (s, Err(s.error(message))),
            },
        }
    }

    /// Two values are taken, the top one first, and what `f` makes of them is put back.
    pub open spec fn dyadic(
        self,
        f: spec_fn(ValueView, ValueView) -> Result<ValueView, Seq<char>>,
    ) -> Step<()> {
        let (s, r) = self.pop(argument(1));
        match r {
            Err(e) => (s, Err(e)),
            Ok(a) => {
                let (s, r) = s.pop(argument(2));
                match r {
                    Err(e) => (s, Err(e)),
                    Ok(b) => match f(a, b) {
                        Ok(v) => (s.push(v), Ok(())),
                        Err(message) => (s, Err(s.error(message))),
                    },
                }
            },
        }
    }

    /// A frame is entered and runs to its end. Whether it ends well
    /// or not, the call stack is afterwards as it was before.
    pub open spec fn exec(self, d: nat, frame: FrameView) -> Step<()>
        decreases d, 0nat, 0nat,
    {
        let s = self.push_frame(frame);
        if d == 0 {
            s.unwind(s.error(depth_message()))
        } else {
            s.run((d - 1) as nat, frame.function.instrs, 0)
        }
    }

    /// The instructions of the top frame run from `pc` on. At the end
    /// the frame leaves; at the first error it is given up.
    pub open spec fn run(self, d: nat, instrs: Seq<InstrView>, pc: nat) -> Step<()>
        decreases d, 20nat, instrs.len() - pc,
    {
        if pc >= instrs.len() {
            (self.pop_frame(), Ok(()))
        } else {
            let (s, r) = self.step(d, instrs[pc as int]);
            match r {
                Err(e) => s.unwind(e),
                Ok(_) => s.set_pc((pc + 1) as usize).run(d, instrs, pc + 1),
            }
        }
    }

    /// One instruction runs.
    pub open spec fn step(self, d: nat, instr: InstrView) -> Step<()>
        decreases d, 19nat, 0nat,
    {
        match instr {
            InstrView::Push(v) => (self.push(v), Ok(())),
            InstrView::BeginArray => (self.begin_array(), Ok(())),
            InstrView::EndArray(span) => self.end_array(span),
            InstrView::Prim(p, span) => {
                let (s, r) = self.push_span(span, Some(p)).run_prim(d, p);
                match r {
                    Err(e) => (s, Err(e)),
                    Ok(_) => (s.pop_span(), Ok(())),
                }
            },
            InstrView::Call(span) => self.call_with_span(d, span),
            InstrView::DfnVal(index) => self.dfn_val(index),
            InstrView::If(if_true, if_false) => self.branch(d, if_true, if_false),
        }
    }

    /// A condition is taken from the stack: at one `if_true` is called,
    /// at zero `if_false`; any other value is an error.
    pub open spec fn branch(self, d: nat, if_true: FunctionView, if_false: FunctionView) -> Step<
        (),
    >
        decreases d, 18nat, 0nat,
    {
        let (s, r) = self.pop(argument(2));
        match r {
            Err(e) => (s, Err(e)),
            Ok(v) => match v.as_nat() {
                None => (s, Err(s.error("Index must be a list of integers"@))),
                Some(n) => if n == 0 {
                    s.push(ValueView::function(if_false)).call(d)
                } else if n == 1 {
                    s.push(ValueView::function(if_true)).call(d)
                } else {
                    (
                        s,
                        Err(
                            s.error(
                                "Index "@ + decimal(n as nat)
                                    + " is out of bounds of length 2 (dimension 1) in shape [2]"@,
                            ),
                        ),
                    )
                },
            },
        }
    }

    /// The value on top of the stack is called. A scalar function is
    /// entered, a dfn with its arguments taken from the stack, the top
    /// one first. Any other value is put back: calling it changes nothing.
    pub open spec fn call_with_span(self, d: nat, call_span: usize) -> Step<()>
        decreases d, 10nat, 0nat,
    {
        let (s, r) = self.pop("called function"@);
        match r {
            Err(e) => (s, Err(e)),
            Ok(v) => match v.scalar_function() {
                Some(f) => match f.dfn_args {
                    Some(n) => {
                        let have = s.stack.value.len() as int;
                        if have < n {
                            (
                                s,
                                Err(
                                    ErrorView::Run(
                                        crate::span::span_at(s.spans, call_span as int),
                                        "not enough arguments for dfn of "@ + decimal(n as nat)
                                            + " values"@,
                                    ),
                                ),
                            )
                        } else {
                            let args = s.stack.value.subrange(have - n, have).reverse();
                            s.with_values(s.stack.value.subrange(0, have - n)).with_dfn(
                                s.stack.dfn.push(DfnView { function: f, args }),
                            ).exec(d, call_frame(f, call_span, true))
                        }
                    },
                    None => s.exec(d, call_frame(f, call_span, false)),
                },
                None => (s.push(v), Ok(())),
            },
        }
    }

    /// The value on top of the stack is called, at the current span.
    pub open spec fn call(self, d: nat) -> Step<()>
        decreases d, 11nat, 0nat,
    {
        self.call_with_span(d, self.span_index())
    }

    /// The innermost dfn is called again.
    pub open spec fn recur(self, d: nat) -> Step<()>
        decreases d, 12nat, 0nat,
    {
        if self.stack.dfn.len() == 0 {
            (self, Err(self.error("Cannot recur outside of dfn"@)))
        } else {
            self.push(ValueView::function(self.stack.dfn.last().function)).call(d)
        }
    }

    /// The value on top of the stack is called, and a break that ends
    /// here is caught: the result says whether there was one. A break
    /// that goes further goes on with one level less.
    pub open spec fn call_catch_break(self, d: nat) -> Step<bool>
        decreases d, 12nat, 0nat,
    {
        let (s, r) = self.call(d);
        match r {
            Ok(_) => (s, Ok(false)),
            Err(e) => match e.break_data() {
                Ok((n, span)) => if n == 0 {
                    (s, Ok(true))
                } else {
                    (s, Err(ErrorView::Break((n - 1) as usize, span)))
                },
                Err(e) => (s, Err(e)),
            },
        }
    }

    /// The value on top of the stack is called where a break has nothing
    /// to leave: one that ends here is an error with `message`.
    pub open spec fn call_error_on_break(self, d: nat, message: Seq<char>) -> Step<()>
        decreases d, 12nat, 0nat,
    {
        let (s, r) = self.call(d);
        match r {
            Ok(_) => (s, Ok(())),
            Err(e) => match e.break_data() {
                Ok((n, span)) => if n == 0 {
                    (s, Err(ErrorView::Run(span, message)))
                } else {
                    (s, Err(ErrorView::Break((n - 1) as usize, span)))
                },
                Err(e) => (s, Err(e)),
            },
        }
    }

    /// A function is called `n` times, or until it breaks.
    pub open spec fn repeat(self, d: nat, f: ValueView, n: nat) -> Step<()>
        decreases d, 17nat, n,
    {
        if n == 0 {
            (self, Ok(()))
        } else {
            let (s, r) = self.push(f).call_catch_break(d);
            match r {
                Err(e) => (s, Err(e)),
                Ok(broke) => if broke {
                    (s, Ok(()))
                } else {
                    s.repeat(d, f, (n - 1) as nat)
                },
            }
        }
    }

    /// The top value is pushed a second time.
    pub open spec fn dup(self) -> Step<()> {
        let (s, r) = self.pop(argument(1));
        match r {
            Err(e) => (s, Err(e)),
            Ok(a) => (s.push(a).push(a), Ok(())),
        }
    }

    /// The two top values change places.
    pub open spec fn flip(self) -> Step<()> {
        let (s, r) = self.pop(argument(1));
        match r {
            Err(e) => (s, Err(e)),
            Ok(a) => {
                let (s, r) = s.pop(argument(2));
                match r {
                    Err(e) => (s, Err(e)),
                    Ok(b) => (s.push(a).push(b), Ok(())),
                }
            },
        }
    }

    /// The top value is discarded.
    pub open spec fn discard(self) -> Step<()> {
        let (s, r) = self.pop(argument(1));
        match r {
            Err(e) => (s, Err(e)),
            Ok(_) => (s, Ok(())),
        }
    }

    /// The top value moves to the antistack.
    pub open spec fn save(self) -> Step<()> {
        let (s, r) = self.pop(argument(1));
        match r {
            Err(e) => (s, Err(e)),
            Ok(a) => (s.antipush(a), Ok(())),
        }
    }

    /// The top of the antistack moves back to the stack.
    pub open spec fn load(self) -> Step<()> {
        let (s, r) = self.antipop(argument(1));
        match r {
            Err(e) => (s, Err(e)),
            Ok(a) => (s.push(a), Ok(())),
        }
    }

    /// A break is requested: the top value says how many loops to leave
    /// beyond the innermost.
    pub open spec fn request_break(self) -> Step<()> {
        let (s, r) = self.pop(argument(1));
        match r {
            Err(e) => (s, Err(e)),
            Ok(a) => match a.as_nat() {
                None => (s, Err(s.error("Break count must be a natural number"@))),
                Some(n) => (s, Err(ErrorView::Break(n, s.span()))),
            },
        }
    }

    /// The repeat primitive: the top value is called as often as the
    /// value beneath it says.
    pub open spec fn repeat_prim(self, d: nat) -> Step<()>
        decreases d, 18nat, 0nat,
    {
        let (s, r) = self.pop(argument(1));
        match r {
            Err(e) => (s, Err(e)),
            Ok(f) => {
                let (s, r) = s.pop(argument(2));
                match r {
                    Err(e) => (s, Err(e)),
                    Ok(n) => match n.as_nat() {
                        None => (s, Err(s.error("Repetitions must be a natural number"@))),
                        Some(n) => s.repeat(d, f, n as nat),
                    },
                }
            },
        }
    }

    /// The dip primitive: the top value is called with the value
    /// beneath it set aside, and that value is put back afterwards.
    pub open spec fn dip(self, d: nat) -> Step<()>
        decreases d, 18nat, 0nat,
    {
        let (s, r) = self.pop(argument(1));
        match r {
            Err(e) => (s, Err(e)),
            Ok(f) => {
                let (s, r) = s.pop(argument(2));
                match r {
                    Err(e) => (s, Err(e)),
                    Ok(a) => {
                        let (s, r) = s.push(f).call_error_on_break(
                            d,
                            "break is not allowed in dip"@,
                        );
                        match r {
                            Err(e) => (s, Err(e)),
                            Ok(_) => (s.push(a), Ok(())),
                        }
                    },
                }
            },
        }
    }

    /// The import primitive: the top value is the path of the source
    /// unit to import. A path that no source unit is known at is a load error.
    pub open spec fn import_prim(self, d: nat) -> Step<()>
        decreases d, 18nat, 0nat,
    {
        let (s, r) = self.pop(argument(1));
        match r {
            Err(e) => (s, Err(e)),
            Ok(path) => match path.as_text() {
                None => (s, Err(s.error("Import path must be a string"@))),
                Some(text) => match find_file(s.files, text, 0) {
                    None => (s, Err(ErrorView::Load(text, "no source unit is known at this path"@))),
                    Some(i) => s.import(d, s.files[i].parsed(), s.files[i].path@),
                },
            },
        }
    }

    /// A primitive runs.
    pub open spec fn run_prim(self, d: nat, p: Primitive) -> Step<()>
        decreases d, 18nat, 1nat,
    {
        match p {
            Primitive::Noop => (self, Ok(())),
            Primitive::Dup => self.dup(),
            Primitive::Flip => self.flip(),
            Primitive::Pop => self.discard(),
            Primitive::Save => self.save(),
            Primitive::Load => self.load(),
            Primitive::Neg => self.monadic(|a: ValueView| negate(a)),
            Primitive::Not => self.monadic(|a: ValueView| complement(a)),
            Primitive::Add => self.dyadic(|a: ValueView, b: ValueView| sum(a, b)),
            Primitive::Reverse => self.monadic(|a: ValueView| reversed(a)),
            Primitive::First => self.monadic(|a: ValueView| first_row(a)),
            Primitive::Last => self.monadic(|a: ValueView| last_row(a)),
            Primitive::Pick => self.dyadic(|a: ValueView, b: ValueView| picked(a, b)),
            Primitive::Call => self.call(d),
            Primitive::Recur => self.recur(d),
            Primitive::Break => self.request_break(),
            Primitive::Repeat => self.repeat_prim(d),
            Primitive::Dip => self.dip(d),
            Primitive::Io(IoOp::Import) => self.import_prim(d),
        }
    }

    /// The current scope is set aside and a fresh one takes its place.
    pub open spec fn enter_scope(self) -> UiuaView {
        UiuaView {
            lower_stacks: self.lower_stacks.push(self.stack),
            stack: ScopeView::fresh(),
            ..self
        }
    }

    /// The scope that was set aside last is current again; a fresh one
    /// where none was set aside.
    pub open spec fn leave_scope(self) -> UiuaView {
        if self.lower_stacks.len() > 0 {
            UiuaView {
                stack: self.lower_stacks.last(),
                lower_stacks: self.lower_stacks.drop_last(),
                ..self
            }
        } else {
            UiuaView { stack: ScopeView::fresh(), ..self }
        }
    }

    /// The function that stands for a binding of an imported scope: the
    /// global itself where it is a scalar function, else a function that pushes it.
    pub open spec fn import_function(self, binding: (Seq<char>, nat)) -> FunctionView {
        let value = self.global(binding.1 as int);
        match value.scalar_function() {
            Some(f) => f,
            None => FunctionView {
                id: IdView::Named(binding.0),
                instrs: seq![InstrView::Push(value)],
                dfn_args: None,
            },
        }
    }

    /// The bindings of a scope are pushed as one list of functions,
    /// oldest binding first.
    pub open spec fn push_scope_imports(self, scope: ScopeView) -> UiuaView {
        self.push(
            ValueView::functions(
                Seq::new(scope.names.len(), |i: int| self.import_function(scope.names[i])),
            ),
        )
    }

    /// Some items run in a scope of their own, and that scope is handed
    /// back. Whether they end well or not, the scope that was current
    /// before is current again afterwards.
    pub open spec fn in_scope(self, d: nat, items: Seq<Item>, in_test: bool) -> Step<ScopeView>
        decreases d, 28nat, 0nat,
    {
        if d == 0 {
            (self, Err(self.error(depth_message())))
        } else {
            let (s, r) = self.enter_scope().items((d - 1) as nat, items, 0, in_test);
            match r {
                Err(e) => (s.leave_scope(), Err(e)),
                Ok(_) => (s.leave_scope(), Ok(s.stack)),
            }
        }
    }

    /// A source unit runs in a scope of its own, and that scope is handed back.
    pub open spec fn load_in_scope(self, d: nat, source: Parsed, path: Seq<char>) -> Step<
        ScopeView,
    >
        decreases d, 15nat, 0nat,
    {
        if d == 0 {
            (self, Err(self.error(depth_message())))
        } else {
            let (s, r) = self.enter_scope().load_impl((d - 1) as nat, source, Some(path));
            match r {
                Err(e) => (s.leave_scope(), Err(e)),
                Ok(_) => (s.leave_scope(), Ok(s.stack)),
            }
        }
    }

    /// The scope that an import has left is kept under its path, unless
    /// a scope is kept under that path already: no path has two.
    pub open spec fn keep_import(self, path: Seq<char>, scope: ScopeView) -> UiuaView {
        if find_import(self.imports, path, 0) is None {
            UiuaView { imports: self.imports.push((path, scope)), ..self }
        } else {
            self
        }
    }

    /// A source unit is imported: it runs once, in a scope of its own, and
    /// that scope is kept; each import pushes the bindings of the kept scope.
    /// A unit that is being loaded cannot be imported.
    pub open spec fn import(self, d: nat, source: Parsed, path: Seq<char>) -> Step<()>
        decreases d, 16nat, 0nat,
    {
        if find_path(self.current_imports, path, 0) is Some {
            (self, Err(self.error("cycle detected importing "@ + path)))
        } else {
            match find_import(self.imports, path, 0) {
                Some(i) => (self.push_scope_imports(self.imports[i].1), Ok(())),
                None => {
                    let (s, r) = self.load_in_scope(d, source, path);
                    match r {
                        Err(e) => (s, Err(e)),
                        Ok(scope) => (
                            s.keep_import(path, scope).push_scope_imports(scope),
                            Ok(()),
                        ),
                    }
                },
            }
        }
    }

    /// A parsed source unit runs. While it runs, its path counts as being loaded.
    pub open spec fn load_impl(self, d: nat, source: Parsed, path: Option<Seq<char>>) -> Step<()>
        decreases d, 31nat, 0nat,
    {
        if source.errors@.len() > 0 {
            (self, Err(ErrorView::Parse(parse_errors_view(source.errors@))))
        } else {
            let s = match path {
                Some(p) => self.begin_load(p),
                None => self,
            };
            let (s, r) = s.items(d, source.items@, 0, false);
            let s = match path {
                Some(p) => s.end_load(p),
                None => s,
            };
            (s, r)
        }
    }

    /// A path counts as being loaded.
    pub open spec fn begin_load(self, path: Seq<char>) -> UiuaView {
        if find_path(self.current_imports, path, 0) is Some {
            self
        } else {
            UiuaView { current_imports: self.current_imports.push(path), ..self }
        }
    }

    /// A path no longer counts as being loaded.
    pub open spec fn end_load(self, path: Seq<char>) -> UiuaView {
        match find_path(self.current_imports, path, 0) {
            Some(i) => UiuaView { current_imports: self.current_imports.remove(i), ..self },
            None => self,
        }
    }

    /// The items from position `from` on run, in order, up to the first error.
    pub open spec fn items(self, d: nat, items: Seq<Item>, from: nat, in_test: bool) -> Step<()>
        decreases d, 30nat, items.len() - from,
    {
        if from >= items.len() {
            (self, Ok(()))
        } else {
            let (s, r) = self.item(d, items[from as int], in_test);
            match r {
                Err(e) => (s, Err(e)),
                Ok(_) => s.items(d, items, from + 1, in_test),
            }
        }
    }

    /// One item runs, where the mode lets it. Items in a scope of their
    /// own leave nothing in the scope around them: what they bind stays
    /// in the globals table, and their scope is dropped.
    pub open spec fn item(self, d: nat, item: Item, in_test: bool) -> Step<()>
        decreases d, 29nat, 0nat,
    {
        match item {
            Item::Scoped { items, test } => {
                let (s, r) = self.in_scope(d, items@, test);
                match r {
                    Err(e) => (s, Err(e)),
                    Ok(_) => (s, Ok(())),
                }
            },
            Item::Words(words, _) => {
                if words_run(self.mode, in_test) || has_import(words@) {
                    let (s, r) = self.compile_words(words@);
                    match r {
                        Err(e) => (s, Err(e)),
                        Ok(instrs) => s.exec_global_instrs(d, instrs),
                    }
                } else {
                    (self, Ok(()))
                }
            },
            Item::Binding(binding, _) => {
                if binding_runs(self.mode, in_test) || has_import(binding.words@) {
                    self.binding(d, binding)
                } else {
                    (self, Ok(()))
                }
            },
            Item::Newlines => (self, Ok(())),
            Item::Comment(_) => (self, Ok(())),
        }
    }

    /// A binding runs: a name for a function gets the compiled words as
    /// a function; any other name gets the value that running the words
    /// leaves on top of the stack, or the empty list where they leave none.
    pub open spec fn binding(self, d: nat, binding: Binding) -> Step<()>
        decreases d, 27nat, 0nat,
    {
        let name = binding.name.value@;
        let (s, r) = self.compile_words(binding.words@);
        match r {
            Err(e) => (s, Err(e)),
            Ok(instrs) => if functiony(name) {
                (
                    s.define(
                        name,
                        ValueView::function(
                            FunctionView { id: IdView::Named(name), instrs, dfn_args: None },
                        ),
                    ),
                    Ok(()),
                )
            } else {
                let (s, r) = s.exec_global_instrs(d, instrs);
                match r {
                    Err(e) => (s, Err(e)),
                    Ok(_) => if s.stack.value.len() > 0 {
                        (
                            s.with_values(s.stack.value.drop_last()).define(
                                name,
                                s.stack.value.last(),
                            ),
                            Ok(()),
                        )
                    } else {
                        (s.define(name, ValueView::empty()), Ok(()))
                    },
                }
            },
        }
    }

    /// Some instructions run as the top level of a line.
    pub open spec fn exec_global_instrs(self, d: nat, instrs: Seq<InstrView>) -> Step<()>
        decreases d, 5nat, 0nat,
    {
        self.exec(d, call_frame(main_function(instrs), 0, false))
    }
}

/// What negation makes of a value, or the message of the error.
pub open spec fn negate(a: ValueView) -> Result<ValueView, Seq<char>> {
    match a.negated() {
        Ok(v) => Ok(v),
        Err(fault) => Err(fault_message(fault)),
    }
}

/// What taking each number from one makes of a value, or the message of the error.
pub open spec fn complement(a: ValueView) -> Result<ValueView, Seq<char>> {
    match a.complemented() {
        Ok(v) => Ok(v),
        Err(fault) => Err(fault_message(fault)),
    }
}

/// The sum of two values, or the message of the error.
pub open spec fn sum(a: ValueView, b: ValueView) -> Result<ValueView, Seq<char>> {
    match a.plus(b) {
        Ok(v) => Ok(v),
        Err(fault) => Err(fault_message(fault)),
    }
}

/// A value with its rows in reverse order.
pub open spec fn reversed(a: ValueView) -> Result<ValueView, Seq<char>> {
    Ok(a.reverse())
}

/// The first row of a value, or the message of the error.
pub open spec fn first_row(a: ValueView) -> Result<ValueView, Seq<char>> {
    match a.first() {
        Some(v) => Ok(v),
        None => Err("Cannot take first of an empty array"@),
    }
}

/// The last row of a value, or the message of the error.
pub open spec fn last_row(a: ValueView) -> Result<ValueView, Seq<char>> {
    match a.last() {
        Some(v) => Ok(v),
        None => Err("Cannot take last of an empty array"@),
    }
}

/// The row of `array` at `index`, or the message of the error.
pub open spec fn picked(index: ValueView, array: ValueView) -> Result<ValueView, Seq<char>> {
    match index.as_nat() {
        None => Err("Index must be a list of integers"@),
        Some(n) => match array.pick(n as nat) {
            Some(v) => Ok(v),
            None => Err(index_message(n as nat, array.row_count(), array.shape)),
        },
    }
}

} // verus!
