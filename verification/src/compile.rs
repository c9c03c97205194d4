//! The compiler: from words to instructions.

use vstd::prelude::*;
use vstd::string::*;
use std::rc::Rc;
use crate::ast::{Func, Modified, Word};
use crate::error::{ErrorView, UiuaError, unit_view};
use crate::function::{Function, FunctionId, Instr, InstrView, instrs_view};
use crate::machine::{Uiua, names_view};
use crate::model::{find_name, lookup};
use crate::model::invariants::compile_words_compiles;
use crate::model::compile::{completes_choice, emit};
use crate::primitive::Primitive;
use crate::span::{Sp, Span};
use crate::text::{read_number, with_text};
use crate::value::{Value, share};

verus! {

/// The model of what compiling some words returned.
pub open spec fn instrs_step_view(r: Result<Vec<Instr>, UiuaError>) -> Result<
    Seq<InstrView>,
    ErrorView,
> {
    match r {
        Ok(instrs) => Ok(instrs_view(instrs@)),
        Err(e) => Err(e@),
    }
}

/// The two functions of a choice that `instr` completes at the end of
/// `buf`: the one pushed second, then the one pushed first.
fn choice(buf: &Vec<Instr>, instr: &Instr) -> (r: Option<(Rc<Function>, Rc<Function>)>)
    ensures
        r is Some == completes_choice(instrs_view(buf@), instr@),
        r matches Some((second, first)) ==> {
            let n = buf@.len() as int;
            &&& second@ == instrs_view(buf@)[n - 4]->Push_0.scalar_function()->0
            &&& first@ == instrs_view(buf@)[n - 5]->Push_0.scalar_function()->0
        },
{
    let n = buf.len();
    match instr {
        Instr::Prim(Primitive::Call, _) => {},
        _ => {
            return None;
        },
    }
    if n < 6 {
        return None;
    }
    match (&buf[n - 6], &buf[n - 5], &buf[n - 4], &buf[n - 3], &buf[n - 2], &buf[n - 1]) {
        (
            Instr::BeginArray,
            Instr::Push(first),
            Instr::Push(second),
            Instr::EndArray(_),
            Instr::Prim(Primitive::Flip, _),
            Instr::Prim(Primitive::Pick, _),
        ) => {
            match (second.scalar_function(), first.scalar_function()) {
                (Some(s), Some(f)) => Some((s, f)),
                _ => None,
            }
        },
        _ => None,
    }
}

/// Emits `instr` at the end of `buf`, with the rewrites that apply there.
pub fn emit_into(buf: &mut Vec<Instr>, instr: Instr)
    ensures
        instrs_view(final(buf)@) == emit(instrs_view(old(buf)@), instr@),
{
    let n = buf.len();
    let ghost before = instrs_view(buf@);
    match choice(buf, &instr) {
        Some((second, first)) => {
            buf.truncate(n - 6);
            buf.push(Instr::If(second, first));
            assert(instrs_view(buf@) =~= emit(before, instr@));
            return;
        },
        None => {},
    }
    match instr {
        Instr::Prim(new, span) => {
            if n > 0 {
                let top = match &buf[n - 1] {
                    Instr::Prim(top, top_span) => Some((*top, *top_span)),
                    _ => None,
                };
                match top {
                    Some((top, top_span)) => {
                        if top == Primitive::Reverse && new == Primitive::First {
                            buf.pop();
                            buf.push(Instr::Prim(Primitive::Last, top_span));
                        } else if top == Primitive::Reverse && new == Primitive::Last {
                            buf.pop();
                            buf.push(Instr::Prim(Primitive::First, top_span));
                        } else if top.args() == top.outputs() && new.args() == new.outputs() && (
                        top.inverse() == Some(new) || new.inverse() == Some(top)) {
                            buf.pop();
                        } else if new == Primitive::Noop {
                        } else {
                            buf.push(Instr::Prim(new, span));
                        }
                        assert(instrs_view(buf@) =~= emit(before, instr@));
                        return;
                    },
                    None => {},
                }
            }
            if new == Primitive::Noop {
            } else {
                buf.push(Instr::Prim(new, span));
            }
            assert(instrs_view(buf@) =~= emit(before, instr@));
        },
        other => {
            buf.push(other);
            assert(instrs_view(buf@) =~= emit(before, instr@));
        },
    }
}

impl Uiua {
    /// Adds a span to the table and hands back its index.
    pub(crate) fn add_span(&mut self, span: Span) -> (index: usize)
        ensures
            (final(self)@, index) == old(self)@.add_span(span),
            final(self).depth() == old(self).depth(),
    {
        let index = self.spans.len();
        self.spans.push(span);
        index
    }

    /// The global at an index; the empty list where there is none.
    pub fn global(&self, index: usize) -> (r: Rc<Value>)
        ensures
            r@ == self@.global(index as int),
    {
        if index < self.globals.len() {
            share(&self.globals[index])
        } else {
            Rc::new(Value::empty())
        }
    }

    /// The global that a name stands for in the current scope.
    pub(crate) fn lookup(&self, name: &str) -> (r: Option<usize>)
        ensures
            r is Some == lookup(self@.stack.names, name@) is Some,
            r matches Some(index) ==> lookup(self@.stack.names, name@) == Some(index as nat),
    {
        let mut i: usize = 0;
        let ghost names = self@.stack.names;
        while i < self.stack.names.len()
            invariant
                i <= self.stack.names.len(),
                names == names_view(self.stack.names@),
                find_name(names, name@, 0) == find_name(names, name@, i as int),
            decreases self.stack.names.len() - i,
        {
            if crate::primitive::same_text(self.stack.names[i].0.as_str(), name) {
                return Some(self.stack.names[i].1);
            }
            i += 1;
        }
        None
    }

    /// Emits an instruction into the buffer of the function being compiled.
    pub(crate) fn push_instr(&mut self, instr: Instr)
        ensures
            final(self)@ == old(self)@.push_instr(instr@),
            final(self).depth() == old(self).depth(),
    {
        match self.new_functions.pop() {
            None => {},
            Some(buf) => {
                let mut buf = buf;
                emit_into(&mut buf, instr);
                self.new_functions.push(buf);
                assert(self@.new_functions =~= old(self)@.push_instr(instr@).new_functions);
            },
        }
    }

    /// Opens a buffer for a function to be compiled.
    fn open_buffer(&mut self)
        ensures
            final(self)@ == old(self)@.open_buffer(),
            final(self).depth() == old(self).depth(),
    {
        let buf: Vec<Instr> = Vec::new();
        assert(instrs_view(buf@) =~= Seq::empty());
        self.new_functions.push(buf);
        assert(self@.new_functions =~= old(self)@.new_functions.push(Seq::empty()));
    }

    /// Closes the top buffer and hands back what it holds.
    fn close_buffer(&mut self) -> (instrs: Vec<Instr>)
        ensures
            final(self)@ == old(self)@.close_buffer(),
            instrs_view(instrs@) == old(self)@.buffer(),
            final(self).depth() == old(self).depth(),
    {
        match self.new_functions.pop() {
            Some(instrs) => {
                assert(self@.new_functions =~= old(self)@.new_functions.drop_last());
                instrs
            },
            None => {
                let instrs: Vec<Instr> = Vec::new();
                assert(instrs_view(instrs@) =~= Seq::empty());
                instrs
            },
        }
    }

    /// Compiles a primitive: in call position it runs, elsewhere it is
    /// pushed as a function of one instruction.
    pub(crate) fn primitive(&mut self, prim: Primitive, span: Span, call: bool)
        ensures
            final(self)@ == old(self)@.primitive(prim, span, call),
            final(self).depth() == old(self).depth(),
    {
        let index = self.add_span(span);
        if call {
            self.push_instr(Instr::Prim(prim, index));
        } else {
            let function = Function {
                id: FunctionId::Primitive(prim),
                instrs: vec![Instr::Prim(prim, index)],
                dfn_args: None,
            };
            assert(function@.instrs =~= seq![InstrView::Prim(prim, index)]);
            self.push_instr(Instr::Push(Rc::new(Value::from_function(Rc::new(function)))));
        }
    }

    /// Notes that the dfn being compiled names the argument at `index`.
    fn note_dfn_arg(&mut self, index: u8)
        ensures
            final(self)@ == old(self)@.note_dfn_arg(index),
            final(self).depth() == old(self).depth(),
    {
        if index < 255 {
            match self.new_dfns.pop() {
                None => {},
                Some(seen) => {
                    let now: u8 = if seen > index {
                        seen
                    } else {
                        index + 1
                    };
                    self.new_dfns.push(now);
                    assert(self@.new_dfns =~= old(self)@.note_dfn_arg(index).new_dfns);
                },
            }
        }
    }

    /// Compiles an identifier.
    pub(crate) fn ident(&mut self, name: &str, span: Span, call: bool) -> (r: Result<
        (),
        UiuaError,
    >)
        ensures
            (final(self)@, unit_view(r)) == old(self)@.ident(name@, span, call),
            final(self).depth() == old(self).depth(),
    {
        match self.lookup(name) {
            Some(index) => {
                let value = self.global(index);
                let is_function = value.is_function();
                self.push_instr(Instr::Push(value));
                if is_function && call {
                    let at = self.add_span(span);
                    self.push_instr(Instr::Call(at));
                }
                return Ok(());
            },
            None => {},
        }
        match Primitive::from_multiname(name) {
            Some(parts) => {
                let ghost prims = Primitive::spec_from_multiname(name@)->0;
                let mut n: usize = parts.len();
                while n > 0
                    invariant
                        n <= parts@.len(),
                        parts@.len() == prims.len(),
                        forall|i: int| 0 <= i < parts@.len() ==> (#[trigger] parts@[i]).0 == prims[i].0,
                        self@.primitives(prims, n as nat, span, call) == old(self)@.primitives(
                            prims,
                            prims.len(),
                            span,
                            call,
                        ),
                        self.depth() == old(self).depth(),
                    decreases n,
                {
                    self.primitive(parts[n - 1].0, span, call);
                    n -= 1;
                }
                return Ok(());
            },
            None => {},
        }
        if self.new_dfns.len() > 0 && name.unicode_len() == 1 {
            let c = name.get_char(0);
            if 'a' <= c && c <= 'z' {
                let index: u8 = (c as u32 - 'a' as u32) as u8;
                self.note_dfn_arg(index);
                self.push_instr(Instr::DfnVal(index as usize));
                return Ok(());
            }
        }
        Err(UiuaError::run(span, with_text("unknown identifier ", name)))
    }

    /// Compiles a function block.
    pub(crate) fn func(&mut self, func: &Func) -> (r: Result<(), UiuaError>)
        ensures
            (final(self)@, unit_view(r)) == old(self)@.func(*func),
            final(self).depth() == old(self).depth(),
        decreases func, 0nat,
    {
        let instrs = match self.compile_words(&func.body) {
            Ok(instrs) => instrs,
            Err(e) => {
                return Err(e);
            },
        };
        if instrs.len() == 2 {
            match (&instrs[0], &instrs[1]) {
                (Instr::Push(f), Instr::Call(_)) => {
                    if f.is_function() {
                        self.push_instr(Instr::Push(share(f)));
                        return Ok(());
                    }
                },
                _ => {},
            }
        }
        let function = Function { id: func.id.copy(), instrs, dfn_args: None };
        self.push_instr(Instr::Push(Rc::new(Value::from_function(Rc::new(function)))));
        Ok(())
    }

    /// Compiles a dfn block.
    pub(crate) fn dfn(&mut self, func: &Func, span: Span, call: bool) -> (r: Result<
        (),
        UiuaError,
    >)
        ensures
            (final(self)@, unit_view(r)) == old(self)@.dfn(*func, span, call),
            final(self).depth() == old(self).depth(),
        decreases func, 0nat,
    {
        self.new_dfns.push(0);
        let instrs = match self.compile_words(&func.body) {
            Ok(instrs) => instrs,
            Err(e) => {
                return Err(e);
            },
        };
        let ghost after = self@;
        let size: u8 = match self.new_dfns.pop() {
            Some(size) => size,
            None => 0,
        };
        assert(self@.new_dfns =~= if after.new_dfns.len() > 0 {
            after.new_dfns.drop_last()
        } else {
            after.new_dfns
        });
        let at = self.add_span(span);
        let function = Function { id: func.id.copy(), instrs, dfn_args: Some(size) };
        self.push_instr(Instr::Push(Rc::new(Value::from_function(Rc::new(function)))));
        if call {
            self.push_instr(Instr::Call(at));
        }
        Ok(())
    }

    /// Compiles a modifier with its operands.
    pub(crate) fn modified(&mut self, modified: &Modified, call: bool) -> (r: Result<
        (),
        UiuaError,
    >)
        ensures
            (final(self)@, unit_view(r)) == old(self)@.modified(*modified, call),
            final(self).depth() == old(self).depth(),
        decreases modified, 0nat,
    {
        self.open_buffer();
        match self.words(&modified.words, modified.words.len(), false) {
            Ok(_) => {},
            Err(e) => {
                return Err(e);
            },
        }
        self.primitive(modified.modifier.value, modified.modifier.span, true);
        let instrs = self.close_buffer();
        let function = Function {
            id: FunctionId::Anonymous(modified.modifier.span),
            instrs,
            dfn_args: None,
        };
        self.push_instr(Instr::Push(Rc::new(Value::from_function(Rc::new(function)))));
        if call {
            let at = self.add_span(modified.modifier.span);
            self.push_instr(Instr::Call(at));
        }
        Ok(())
    }

    /// Compiles a list: its items between the two array instructions.
    fn list(&mut self, items: &Vec<Sp<Word>>, span: Span, call: bool) -> (r: Result<(), UiuaError>)
        ensures
            (final(self)@, unit_view(r)) == old(self)@.list(items@, span, call),
            final(self).depth() == old(self).depth(),
        decreases items@, items@.len() + 1,
    {
        self.push_instr(Instr::BeginArray);
        match self.words(items, items.len(), call) {
            Ok(_) => {},
            Err(e) => {
                return Err(e);
            },
        }
        let at = self.add_span(span);
        self.push_instr(Instr::EndArray(at));
        Ok(())
    }

    /// Compiles one word.
    pub(crate) fn word(&mut self, word: &Sp<Word>, call: bool) -> (r: Result<(), UiuaError>)
        ensures
            (final(self)@, unit_view(r)) == old(self)@.word(*word, call),
            final(self).depth() == old(self).depth(),
        decreases word, 0nat,
    {
        match &word.value {
            Word::Number(n) => match read_number(n.as_str()) {
                Some(v) => {
                    self.push_instr(Instr::Push(Rc::new(Value::from_number(v))));
                    Ok(())
                },
                None => Err(UiuaError::run(word.span, with_text("invalid number ", n.as_str()))),
            },
            Word::Char(c) => {
                self.push_instr(Instr::Push(Rc::new(Value::from_char(*c))));
                Ok(())
            },
            Word::String(s) => {
                self.push_instr(Instr::Push(Rc::new(Value::from_text(s.as_str()))));
                Ok(())
            },
            Word::Ident(name) => self.ident(name.as_str(), word.span, call),
            Word::Strand(items) => self.list(items, word.span, false),
            Word::Array(items) => self.list(items, word.span, true),
            Word::Func(func) => self.func(func),
            Word::Dfn(func) => self.dfn(func, word.span, call),
            Word::Primitive(p) => {
                self.primitive(*p, word.span, call);
                Ok(())
            },
            Word::Modified(m) => self.modified(m, call),
            Word::Spaces => Ok(()),
        }
    }

    /// Compiles the first `n` of some words, last to first.
    pub(crate) fn words(&mut self, words: &Vec<Sp<Word>>, n: usize, call: bool) -> (r: Result<
        (),
        UiuaError,
    >)
        ensures
            (final(self)@, unit_view(r)) == old(self)@.words(words@, n as nat, call),
            final(self).depth() == old(self).depth(),
        decreases words@, n,
    {
        if n == 0 || n > words.len() {
            return Ok(());
        }
        match self.word(&words[n - 1], call) {
            Ok(_) => {},
            Err(e) => {
                return Err(e);
            },
        }
        self.words(words, n - 1, call)
    }

    /// Compiles some words into instructions of their own. The top level
    /// of the words is in call position.
    pub fn compile_words(&mut self, words: &Vec<Sp<Word>>) -> (r: Result<Vec<Instr>, UiuaError>)
        ensures
            (final(self)@, instrs_step_view(r)) == old(self)@.compile_words(words@),
            final(self)@.compiled_from(old(self)@),
            final(self).depth() == old(self).depth(),
        decreases words@, words@.len() + 1,
    {
        proof {
            compile_words_compiles(self@, words@);
        }
        self.open_buffer();
        match self.words(words, words.len(), true) {
            Ok(_) => {},
            Err(e) => {
                return Err(e);
            },
        }
        Ok(self.close_buffer())
    }
}

} // verus!
