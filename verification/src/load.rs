//! Loading source units: items, bindings, scopes and imports.

use vstd::prelude::*;
use vstd::string::*;
use std::rc::Rc;
use crate::ast::{Binding, Item, Parsed, is_functiony, words_have_import};
use crate::error::{ErrorView, UiuaError, parse_errors_view, unit_view};
use crate::function::{Function, FunctionId, Instr, InstrView, instrs_view};
use crate::machine::{RunMode, Scope, StackFrame, Uiua, imports_view, names_view, paths_view};
use crate::model::{ScopeView, bind, find_name, find_path};
use crate::model::invariants::{
    import_continues,
    in_scope_restores,
    load_path_proceeds,
    load_proceeds,
    push_scope_imports_continues,
    scoped_item_keeps_scope,
};
use crate::model::run::find_import;
use crate::primitive::same_text;
use crate::span::Sp;
use crate::text::with_text;
use crate::value::{Value, functions_view};

verus! {

/// The model of what running items in a scope of their own returned.
pub open spec fn scope_step_view(r: Result<Scope, UiuaError>) -> Result<ScopeView, ErrorView> {
    match r {
        Ok(scope) => Ok(scope@),
        Err(e) => Err(e@),
    }
}

/// A copy of some parse errors.
fn copy_errors(errors: &Vec<Sp<String>>) -> (r: Vec<Sp<String>>)
    ensures
        parse_errors_view(r@) == parse_errors_view(errors@),
{
    let mut r: Vec<Sp<String>> = Vec::new();
    let mut i: usize = 0;
    while i < errors.len()
        invariant
            i <= errors.len(),
            r@.len() == i,
            forall|j: int|
                0 <= j < i ==> (#[trigger] r@[j]).span == errors@[j].span && r@[j].value@
                    == errors@[j].value@,
        decreases errors.len() - i,
    {
        r.push(Sp { value: errors[i].value.clone(), span: errors[i].span });
        i += 1;
    }
    assert(parse_errors_view(r@) =~= parse_errors_view(errors@));
    r
}

impl Uiua {
    /// Sets the current scope aside and puts a fresh one in its place.
    fn enter_scope(&mut self)
        ensures
            final(self)@ == old(self)@.enter_scope(),
            final(self).depth() == old(self).depth(),
    {
        let mut scope = Scope::fresh();
        std::mem::swap(&mut scope, &mut self.stack);
        self.lower_stacks.push(scope);
        assert(self@.lower_stacks =~= old(self)@.lower_stacks.push(old(self)@.stack));
    }

    /// Makes the scope that was set aside last current again, and hands
    /// back the scope that was current.
    fn leave_scope(&mut self) -> (scope: Scope)
        ensures
            final(self)@ == old(self)@.leave_scope(),
            scope@ == old(self)@.stack,
            final(self).depth() == old(self).depth(),
    {
        let mut scope = match self.lower_stacks.pop() {
            Some(outer) => {
                assert(self@.lower_stacks =~= old(self)@.lower_stacks.drop_last());
                outer
            },
            None => Scope::fresh(),
        };
        std::mem::swap(&mut scope, &mut self.stack);
        scope
    }

    /// The bindings of a scope as one list of functions, oldest binding first.
    fn scope_functions(&self, scope: &Scope) -> (r: Value)
        ensures
            self@.push(r@) == self@.push_scope_imports(scope@),
    {
        let mut functions: Vec<Rc<Function>> = Vec::new();
        let mut i: usize = 0;
        while i < scope.names.len()
            invariant
                i <= scope.names.len(),
                functions@.len() == i,
                forall|j: int|
                    0 <= j < i ==> (#[trigger] functions@[j])@ == self@.import_function(
                        scope@.names[j],
                    ),
            decreases scope.names.len() - i,
        {
            let value = self.global(scope.names[i].1);
            let function = match value.scalar_function() {
                Some(f) => f,
                None => {
                    let function = Function {
                        id: FunctionId::Named(scope.names[i].0.clone()),
                        instrs: vec![Instr::Push(value)],
                        dfn_args: None,
                    };
                    assert(function@.instrs =~= seq![InstrView::Push(value@)]);
                    Rc::new(function)
                },
            };
            functions.push(function);
            i += 1;
        }
        let r = Value::from_functions(functions);
        assert(functions_view(functions@) =~= Seq::new(
            scope@.names.len(),
            |i: int| self@.import_function(scope@.names[i]),
        ));
        r
    }

    /// Pushes the bindings of a scope as one list of functions, oldest
    /// binding first: a global that is a scalar function as it is, any
    /// other global as a function that pushes it.
    pub fn push_scope_imports(&mut self, scope: &Scope)
        ensures
            final(self)@ == old(self)@.push_scope_imports(scope@),
            final(self)@.continues(old(self)@),
            final(self).depth() == old(self).depth(),
    {
        proof {
            push_scope_imports_continues(self@, scope@);
        }
        let value = self.scope_functions(scope);
        self.push(value);
    }

    /// Adds a value to the globals table and binds `name` to it in the current scope.
    fn define(&mut self, name: &str, value: Rc<Value>)
        ensures
            final(self)@ == old(self)@.define(name@, value@),
            final(self).depth() == old(self).depth(),
    {
        let index = self.globals.len();
        self.globals.push(value);
        assert(self@.globals =~= old(self)@.globals.push(value@));
        let ghost names = old(self)@.stack.names;
        let mut i: usize = 0;
        let mut found: Option<usize> = None;
        while i < self.stack.names.len() && found.is_none()
            invariant
                i <= self.stack.names.len(),
                self.stack.names@ == old(self).stack.names@,
                names == names_view(self.stack.names@),
                found is None ==> find_name(names, name@, 0) == find_name(names, name@, i as int),
                found matches Some(k) ==> k < self.stack.names.len() && find_name(names, name@, 0)
                    == Some(k as int),
            decreases self.stack.names.len() - i + (if found is None { 1nat } else { 0nat }),
        {
            if same_text(self.stack.names[i].0.as_str(), name) {
                found = Some(i);
            } else {
                i += 1;
            }
        }
        match found {
            Some(k) => {
                self.stack.names.remove(k);
            },
            None => {},
        }
        self.stack.names.push((String::from_str(name), index));
        assert(self@.stack.names =~= bind(names, name@, index as nat));
    }

    /// Runs some instructions as the top level of a line.
    pub(crate) fn exec_global_instrs(&mut self, instrs: Vec<Instr>) -> (r: Result<(), UiuaError>)
        ensures
            (final(self)@, unit_view(r)) == old(self)@.exec_global_instrs(
                old(self).depth(),
                instrs_view(instrs@),
            ),
            final(self).depth() == old(self).depth(),
        decreases old(self).depth(), 5nat, 0nat,
    {
        let function = Function { id: FunctionId::Main, instrs, dfn_args: None };
        self.exec(
            StackFrame {
                function: Rc::new(function),
                call_span: 0,
                pc: 0,
                spans: Vec::new(),
                dfn: false,
            },
        )
    }

    /// Runs a binding.
    pub(crate) fn binding(&mut self, binding: &Binding) -> (r: Result<(), UiuaError>)
        ensures
            (final(self)@, unit_view(r)) == old(self)@.binding(old(self).depth(), *binding),
            final(self).depth() == old(self).depth(),
        decreases old(self).depth(), 27nat, 0nat,
    {
        let name = binding.name.value.as_str();
        let instrs = match self.compile_words(&binding.words) {
            Ok(instrs) => instrs,
            Err(e) => {
                return Err(e);
            },
        };
        let value = if is_functiony(name) {
            let function = Function {
                id: FunctionId::Named(binding.name.value.clone()),
                instrs,
                dfn_args: None,
            };
            Rc::new(Value::from_function(Rc::new(function)))
        } else {
            match self.exec_global_instrs(instrs) {
                Ok(_) => {},
                Err(e) => {
                    return Err(e);
                },
            }
            let ghost before = self@;
            match self.stack.value.pop() {
                Some(v) => {
                    assert(self@.stack.value =~= before.stack.value.drop_last());
                    v
                },
                None => Rc::new(Value::empty()),
            }
        };
        self.define(name, value);
        Ok(())
    }

    /// Runs one item, where the mode lets it. Items in a scope of their
    /// own leave nothing in the scope around them.
    pub(crate) fn item(&mut self, item: &Item, in_test: bool) -> (r: Result<(), UiuaError>)
        ensures
            (final(self)@, unit_view(r)) == old(self)@.item(old(self).depth(), *item, in_test),
            *item is Scoped ==> final(self)@.stack == old(self)@.stack && final(self)@.continues(
                old(self)@,
            ),
            final(self).depth() == old(self).depth(),
        decreases old(self).depth(), 29nat, 0nat,
    {
        proof {
            if *item is Scoped {
                scoped_item_keeps_scope(self@, self.depth(), *item, in_test);
            }
        }
        match item {
            Item::Scoped { items, test } => {
                match self.in_scope(items, *test) {
                    Ok(_) => Ok(()),
                    Err(e) => Err(e),
                }
            },
            Item::Words(words, _) => {
                let can_run = match self.mode {
                    RunMode::Normal => !in_test,
                    RunMode::Test => in_test,
                    RunMode::Watch => true,
                };
                if can_run || words_have_import(words) {
                    let instrs = match self.compile_words(words) {
                        Ok(instrs) => instrs,
                        Err(e) => {
                            return Err(e);
                        },
                    };
                    self.exec_global_instrs(instrs)
                } else {
                    Ok(())
                }
            },
            Item::Binding(binding, _) => {
                let can_run = match self.mode {
                    RunMode::Normal => true,
                    RunMode::Watch => true,
                    RunMode::Test => in_test,
                };
                if can_run || words_have_import(&binding.words) {
                    self.binding(binding)
                } else {
                    Ok(())
                }
            },
            Item::Newlines => Ok(()),
            Item::Comment(_) => Ok(()),
        }
    }

    /// Runs the items from position `from` on, in order, up to the first error.
    pub(crate) fn items(&mut self, items: &Vec<Item>, from: usize, in_test: bool) -> (r: Result<
        (),
        UiuaError,
    >)
        ensures
            (final(self)@, unit_view(r)) == old(self)@.items(
                old(self).depth(),
                items@,
                from as nat,
                in_test,
            ),
            final(self).depth() == old(self).depth(),
        decreases old(self).depth(), 30nat, items@.len() - from,
    {
        if from >= items.len() {
            return Ok(());
        }
        match self.item(&items[from], in_test) {
            Ok(_) => {},
            Err(e) => {
                return Err(e);
            },
        }
        self.items(items, from + 1, in_test)
    }

    /// Runs some items in a scope of their own and hands that scope back.
    ///
    /// Names that the items bind are gone when the scope ends; the values
    /// bound to them stay in the globals table. Whether the items end
    /// well or not, the scope that was current before is current again.
    pub fn in_scope(&mut self, items: &Vec<Item>, in_test: bool) -> (r: Result<Scope, UiuaError>)
        ensures
            (final(self)@, scope_step_view(r)) == old(self)@.in_scope(
                old(self).depth(),
                items@,
                in_test,
            ),
            final(self)@.continues(old(self)@),
            final(self)@.stack == old(self)@.stack,
            old(self)@.wf() ==> (r matches Ok(scope) ==> scope@.wf(final(self)@.globals.len())),
            final(self).depth() == old(self).depth(),
        decreases old(self).depth(), 28nat, 0nat,
    {
        proof {
            in_scope_restores(self@, self.depth(), items@, in_test);
        }
        if self.depth == 0 {
            return Err(self.error("Maximum nesting depth exceeded"));
        }
        self.enter_scope();
        self.depth = self.depth - 1;
        let r = self.items(items, 0, in_test);
        self.depth = self.depth + 1;
        let scope = self.leave_scope();
        match r {
            Ok(_) => Ok(scope),
            Err(e) => Err(e),
        }
    }

    /// Whether a source unit with this path is being loaded.
    fn is_loading(&self, path: &str) -> (r: Option<usize>)
        ensures
            r is Some == find_path(self@.current_imports, path@, 0) is Some,
            r matches Some(i) ==> i < self.current_imports@.len() && find_path(
                self@.current_imports,
                path@,
                0,
            ) == Some(i as int),
    {
        let ghost paths = self@.current_imports;
        let mut i: usize = 0;
        while i < self.current_imports.len()
            invariant
                i <= self.current_imports.len(),
                paths == paths_view(self.current_imports@),
                find_path(paths, path@, 0) == find_path(paths, path@, i as int),
            decreases self.current_imports.len() - i,
        {
            if same_text(self.current_imports[i].as_str(), path) {
                return Some(i);
            }
            i += 1;
        }
        None
    }

    /// The position of the kept scope of an import.
    fn find_import(&self, path: &str) -> (r: Option<usize>)
        ensures
            r is Some == find_import(self@.imports, path@, 0) is Some,
            r matches Some(i) ==> i < self.imports@.len() && find_import(self@.imports, path@, 0)
                == Some(i as int),
    {
        let ghost imports = self@.imports;
        let mut i: usize = 0;
        while i < self.imports.len()
            invariant
                i <= self.imports.len(),
                imports == imports_view(self.imports@),
                find_import(imports, path@, 0) == find_import(imports, path@, i as int),
            decreases self.imports.len() - i,
        {
            if same_text(self.imports[i].0.as_str(), path) {
                return Some(i);
            }
            i += 1;
        }
        None
    }

    /// Runs a source unit in a scope of its own and hands that scope back.
    fn load_in_scope(&mut self, input: &Parsed, path: &str) -> (r: Result<Scope, UiuaError>)
        ensures
            (final(self)@, scope_step_view(r)) == old(self)@.load_in_scope(
                old(self).depth(),
                *input,
                path@,
            ),
            final(self).depth() == old(self).depth(),
        decreases old(self).depth(), 15nat, 0nat,
    {
        if self.depth == 0 {
            return Err(self.error("Maximum nesting depth exceeded"));
        }
        self.enter_scope();
        self.depth = self.depth - 1;
        let r = self.load_impl(input, Some(path));
        self.depth = self.depth + 1;
        let scope = self.leave_scope();
        match r {
            Ok(_) => Ok(scope),
            Err(e) => Err(e),
        }
    }

    /// Keeps the scope that an import has left, unless one is kept under
    /// its path already, and pushes its bindings.
    fn keep_import(&mut self, path: &str, scope: Scope)
        ensures
            final(self)@ == old(self)@.keep_import(path@, scope@).push_scope_imports(scope@),
            final(self).depth() == old(self).depth(),
    {
        if self.find_import(path).is_none() {
            let ghost before = self.imports@;
            self.imports.push((String::from_str(path), scope));
            assert(self@.imports =~= imports_view(before).push((path@, scope@)));
            let n = self.imports.len();
            let value = self.scope_functions(&self.imports[n - 1].1);
            self.push(value);
        } else {
            let value = self.scope_functions(&scope);
            self.push(value);
        }
    }

    /// Pushes the bindings of the scope that an earlier import has left.
    fn push_kept_import(&mut self, i: usize)
        requires
            i < old(self)@.imports.len(),
        ensures
            final(self)@ == old(self)@.push_scope_imports(old(self)@.imports[i as int].1),
            final(self).depth() == old(self).depth(),
    {
        let value = self.scope_functions(&self.imports[i].1);
        self.push(value);
    }

    /// Imports a source unit: it runs once, in a scope of its own, and
    /// that scope is kept; each import pushes the bindings of the kept scope
    /// as one list of functions. A unit that is being loaded cannot be imported.
    pub fn import(&mut self, input: &Parsed, path: &str) -> (r: Result<(), UiuaError>)
        ensures
            (final(self)@, unit_view(r)) == old(self)@.import(old(self).depth(), *input, path@),
            final(self)@.continues(old(self)@),
            final(self).depth() == old(self).depth(),
        decreases old(self).depth(), 16nat, 0nat,
    {
        proof {
            import_continues(self@, self.depth(), *input, path@);
        }
        if self.is_loading(path).is_some() {
            let message = with_text("cycle detected importing ", path);
            return Err(self.error(message.as_str()));
        }
        match self.find_import(path) {
            Some(i) => {
                self.push_kept_import(i);
                return Ok(());
            },
            None => {},
        }
        match self.load_in_scope(input, path) {
            Err(e) => Err(e),
            Ok(scope) => {
                self.keep_import(path, scope);
                Ok(())
            },
        }
    }

    /// Counts a path as being loaded.
    fn begin_load(&mut self, path: &str)
        ensures
            final(self)@ == old(self)@.begin_load(path@),
            final(self).depth() == old(self).depth(),
    {
        if self.is_loading(path).is_none() {
            self.current_imports.push(String::from_str(path));
            assert(self@.current_imports =~= old(self)@.current_imports.push(path@));
        }
    }

    /// Counts a path as being loaded no longer.
    fn end_load(&mut self, path: &str)
        ensures
            final(self)@ == old(self)@.end_load(path@),
            final(self).depth() == old(self).depth(),
    {
        match self.is_loading(path) {
            Some(i) => {
                self.current_imports.remove(i);
                assert(self@.current_imports =~= old(self)@.current_imports.remove(i as int));
            },
            None => {},
        }
    }

    /// Runs a parsed source unit. While it runs, its path counts as being loaded.
    pub(crate) fn load_impl(&mut self, input: &Parsed, path: Option<&str>) -> (r: Result<
        (),
        UiuaError,
    >)
        ensures
            (final(self)@, unit_view(r)) == old(self)@.load_impl(
                old(self).depth(),
                *input,
                match path {
                    Some(p) => Some(p@),
                    None => None,
                },
            ),
            final(self).depth() == old(self).depth(),
        decreases old(self).depth(), 31nat, 0nat,
    {
        if input.errors.len() > 0 {
            return Err(UiuaError::Parse(copy_errors(&input.errors)));
        }
        match path {
            Some(p) => {
                self.begin_load(p);
                let r = self.items(&input.items, 0, false);
                self.end_load(p);
                r
            },
            None => self.items(&input.items, 0, false),
        }
    }

    /// Runs a parsed source unit.
    pub fn load_str(&mut self, input: &Parsed) -> (r: Result<(), UiuaError>)
        ensures
            (final(self)@, unit_view(r)) == old(self)@.load_impl(old(self).depth(), *input, None),
            final(self)@.proceeds(old(self)@),
            final(self).depth() == old(self).depth(),
    {
        proof {
            load_proceeds(self@, self.depth(), *input);
        }
        self.load_impl(input, None)
    }

    /// Runs a parsed source unit that was read from `path`. While it
    /// runs, importing `path` is an error.
    pub fn load_str_path(&mut self, input: &Parsed, path: &str) -> (r: Result<(), UiuaError>)
        ensures
            (final(self)@, unit_view(r)) == old(self)@.load_impl(
                old(self).depth(),
                *input,
                Some(path@),
            ),
            find_path(old(self)@.current_imports, path@, 0) is None ==> final(self)@.proceeds(
                old(self)@,
            ),
            final(self).depth() == old(self).depth(),
    {
        proof {
            if find_path(self@.current_imports, path@, 0) is None {
                load_path_proceeds(self@, self.depth(), *input, path@);
            }
        }
        self.load_impl(input, Some(path))
    }
}

} // verus!
