//! The interpreter: running instructions, calling functions and primitives.

use vstd::prelude::*;
use vstd::string::*;
use std::rc::Rc;
use crate::error::{ErrorView, TraceFrame, UiuaError, trace_view, unit_view};
use crate::function::{Function, FunctionId, Instr};
use crate::machine::{DfnFrame, StackFrame, Uiua, dfns_view};
use crate::model::{fault_message, frame_trace, index_message, primitive_frames};
use crate::model::invariants::{
    call_catch_break_continues,
    call_continues,
    call_error_on_break_continues,
    exec_restores,
    recur_continues,
};
use crate::model::run::{argument, find_file};
use crate::primitive::{IoOp, Primitive, same_text};
use crate::text::{push_decimal, push_shape, with_number};
use crate::value::{
    Fault,
    Value,
    ValueView,
    reverse_values,
    share,
    values_view_reverse,
    values_view_subrange,
};

verus! {

/// The model of what a step that hands out a flag returned.
pub open spec fn flag_view(r: Result<bool, UiuaError>) -> Result<bool, ErrorView> {
    match r {
        Ok(b) => Ok(b),
        Err(e) => Err(e@),
    }
}

/// The model of what a function on values returned: a value, or the message of an error.
pub open spec fn text_result_view(r: Result<Value, String>) -> Result<ValueView, Seq<char>> {
    match r {
        Ok(v) => Ok(v@),
        Err(message) => Err(message@),
    }
}

/// The message for an arithmetic fault.
fn fault_text(fault: Fault) -> (s: String)
    ensures
        s@ == fault_message(fault),
{
    match fault {
        Fault::NotNumbers => String::from_str("Expected numbers"),
        Fault::OutOfRange => String::from_str("Number out of range"),
        Fault::Shapes => String::from_str("Shapes do not match"),
    }
}

/// Negates every number of a value.
pub fn negate_value(a: Value) -> (r: Result<Value, String>)
    ensures
        text_result_view(r) == crate::model::run::negate(a@),
{
    match a.negated() {
        Ok(v) => Ok(v),
        Err(fault) => Err(fault_text(fault)),
    }
}

/// Takes every number of a value from one.
pub fn complement_value(a: &Value) -> (r: Result<Value, String>)
    ensures
        text_result_view(r) == crate::model::run::complement(a@),
{
    match a.complemented() {
        Ok(v) => Ok(v),
        Err(fault) => Err(fault_text(fault)),
    }
}

/// Adds two values.
pub fn sum_values(a: Value, b: Value) -> (r: Result<Value, String>)
    ensures
        text_result_view(r) == crate::model::run::sum(a@, b@),
{
    match a.plus(&b) {
        Ok(v) => Ok(v),
        Err(fault) => Err(fault_text(fault)),
    }
}

/// Reverses the rows of a value.
pub fn reverse_value(a: &Value) -> (r: Value)
    ensures
        r@ == a@.reverse(),
{
    a.reverse()
}

/// The first row of a value.
pub fn first_value(a: &Value) -> (r: Result<Value, String>)
    ensures
        text_result_view(r) == crate::model::run::first_row(a@),
{
    match a.first() {
        Some(v) => Ok(v),
        None => Err(String::from_str("Cannot take first of an empty array")),
    }
}

/// The last row of a value.
pub fn last_value(a: &Value) -> (r: Result<Value, String>)
    ensures
        text_result_view(r) == crate::model::run::last_row(a@),
{
    match a.last() {
        Some(v) => Ok(v),
        None => Err(String::from_str("Cannot take last of an empty array")),
    }
}

/// The row of `array` at `index`.
pub fn pick_value(index: &Value, array: Value) -> (r: Result<Value, String>)
    ensures
        text_result_view(r) == crate::model::run::picked(index@, array@),
{
    match index.as_nat() {
        None => Err(String::from_str("Index must be a list of integers")),
        Some(n) => match array.pick(n) {
            Some(v) => Ok(v),
            None => {
                let mut message = String::from_str("Index ");
                push_decimal(&mut message, n as u64);
                message.append(" is out of bounds of length ");
                push_decimal(&mut message, array.row_count() as u64);
                message.append(" (dimension 1) in shape ");
                push_shape(&mut message, &array.shape);
                assert(message@ =~= index_message(n as nat, array@.row_count(), array@.shape));
                Err(message)
            },
        },
    }
}

impl Uiua {
    /// Enters a frame.
    fn push_frame(&mut self, frame: StackFrame)
        ensures
            final(self)@ == old(self)@.push_frame(frame@),
            final(self).depth() == old(self).depth(),
    {
        self.stack.call.push(frame);
        assert(self@.stack.call =~= old(self)@.stack.call.push(frame@));
    }

    /// Leaves the top frame, and hands it back where there was one.
    fn pop_frame(&mut self) -> (frame: Option<StackFrame>)
        ensures
            final(self)@ == old(self)@.pop_frame(),
            final(self).depth() == old(self).depth(),
            frame is Some == (old(self)@.stack.call.len() > 0),
            frame matches Some(f) ==> f@ == old(self)@.stack.call.last(),
    {
        match self.stack.call.pop() {
            None => None,
            Some(frame) => {
                assert(self@.stack.call =~= old(self)@.stack.call.drop_last());
                if frame.dfn {
                    match self.stack.dfn.pop() {
                        Some(_) => {
                            assert(self@.stack.dfn =~= old(self)@.stack.dfn.drop_last());
                        },
                        None => {},
                    }
                }
                Some(frame)
            },
        }
    }

    /// Moves the top frame to another instruction.
    fn set_pc(&mut self, pc: usize)
        ensures
            final(self)@ == old(self)@.set_pc(pc),
            final(self).depth() == old(self).depth(),
    {
        let n = self.stack.call.len();
        if n > 0 {
            let frame = &mut self.stack.call[n - 1];
            frame.pc = pc;
            assert(self@.stack.call =~= old(self)@.set_pc(pc).stack.call);
        }
    }

    /// The top frame enters a span.
    pub(crate) fn push_span(&mut self, span: usize, prim: Option<Primitive>)
        ensures
            final(self)@ == old(self)@.push_span(span, prim),
            final(self).depth() == old(self).depth(),
    {
        let n = self.stack.call.len();
        if n > 0 {
            let frame = &mut self.stack.call[n - 1];
            frame.spans.push((span, prim));
            assert(self@.stack.call =~= old(self)@.push_span(span, prim).stack.call);
        }
    }

    /// The top frame leaves the span it entered last.
    pub(crate) fn pop_span(&mut self)
        ensures
            final(self)@ == old(self)@.pop_span(),
            final(self).depth() == old(self).depth(),
    {
        let n = self.stack.call.len();
        if n > 0 {
            let frame = &mut self.stack.call[n - 1];
            frame.spans.pop();
            assert(self@.stack.call =~= old(self)@.pop_span().stack.call);
        }
    }

    /// The error with what a frame adds to its trace: the primitives
    /// that the frame has entered, then the frame itself.
    pub(crate) fn trace_error(&self, error: UiuaError, frame: StackFrame) -> (e: UiuaError)
        ensures
            e@ == self@.trace_error(error@, frame@),
            e@.trace_len() == error@.trace_len() + frame_trace(self@.spans, frame@).len(),
    {
        let mut frames: Vec<TraceFrame> = Vec::new();
        let mut i: usize = 0;
        assert(frame.spans@.subrange(0, 0) =~= Seq::empty());
        while i < frame.spans.len()
            invariant
                i <= frame.spans.len(),
                trace_view(frames@) == primitive_frames(
                    self@.spans,
                    frame.spans@.subrange(0, i as int),
                ),
            decreases frame.spans.len() - i,
        {
            let ghost before = frames@;
            let entry = frame.spans[i];
            match entry.1 {
                Some(p) => {
                    frames.push(
                        TraceFrame { id: FunctionId::Primitive(p), span: self.span_at(entry.0) },
                    );
                    assert(trace_view(frames@) =~= trace_view(before).push(frames@.last()@));
                },
                None => {},
            }
            assert(frame.spans@.subrange(0, i + 1).drop_last() =~= frame.spans@.subrange(
                0,
                i as int,
            ));
            i += 1;
        }
        assert(frame.spans@.subrange(0, i as int) =~= frame.spans@);
        let ghost before = frames@;
        frames.push(TraceFrame { id: frame.function.id.copy(), span: self.span_at(frame.call_span) });
        assert(trace_view(frames@) =~= trace_view(before).push(frames@.last()@));
        error.traced(frames)
    }

    /// Gives up the top frame: the error gets its trace, and the frame leaves.
    fn unwind(&mut self, error: UiuaError) -> (e: UiuaError)
        ensures
            (final(self)@, Err::<(), ErrorView>(e@)) == old(self)@.unwind(error@),
            final(self).depth() == old(self).depth(),
    {
        match self.pop_frame() {
            None => error,
            Some(frame) => self.trace_error(error, frame),
        }
    }

    /// Records the height of the value stack: an array literal begins.
    fn begin_array(&mut self)
        ensures
            final(self)@ == old(self)@.begin_array(),
            final(self).depth() == old(self).depth(),
    {
        self.stack.array.push(self.stack.value.len());
    }

    /// Ends an array literal: the values above the recorded height
    /// leave the stack and become the rows of one array, the last pushed first.
    fn end_array(&mut self, span: usize) -> (r: Result<(), UiuaError>)
        ensures
            (final(self)@, unit_view(r)) == old(self)@.end_array(span),
            final(self).depth() == old(self).depth(),
    {
        let start = match self.stack.array.pop() {
            None => {
                return Err(self.error("Array was not begun"));
            },
            Some(start) => start,
        };
        assert(self@.stack.array =~= old(self)@.stack.array.drop_last());
        if start > self.stack.value.len() {
            return Err(self.error("Array removed elements"));
        }
        let ghost all = self.stack.value@;
        let rows = self.stack.value.split_off(start);
        let rows = reverse_values(rows);
        proof {
            values_view_subrange(all, start as int, all.len() as int);
            values_view_subrange(all, 0, start as int);
            values_view_reverse(all.subrange(start as int, all.len() as int));
        }
        self.push_span(span, None);
        match Value::stack(&rows) {
            None => Err(self.error("Cannot combine arrays of different shapes")),
            Some(v) => {
                self.pop_span();
                self.push(v);
                Ok(())
            },
        }
    }

    /// Pushes an argument of the innermost dfn.
    fn dfn_val(&mut self, index: usize) -> (r: Result<(), UiuaError>)
        ensures
            (final(self)@, unit_view(r)) == old(self)@.dfn_val(index),
            final(self).depth() == old(self).depth(),
    {
        let n = self.stack.dfn.len();
        if n > 0 && index < self.stack.dfn[n - 1].args.len() {
            let value = share(&self.stack.dfn[n - 1].args[index]);
            self.push_ref(value);
            Ok(())
        } else {
            let message = with_number("No dfn argument ", index as u64, "");
            proof {
                reveal_strlit("");
                assert(message@ =~= "No dfn argument "@ + crate::text::decimal(index as nat));
            }
            Err(self.error(message.as_str()))
        }
    }

    /// Takes a value from the stack, and puts back what `f` makes of it.
    pub(crate) fn monadic_ref<F: Fn(&Value) -> Value>(
        &mut self,
        f: F,
        Ghost(model): Ghost<spec_fn(ValueView) -> ValueView>,
    ) -> (r: Result<(), UiuaError>)
        requires
            forall|a: &Value| f.requires((a,)),
            forall|a: &Value, out: Value| f.ensures((a,), out) ==> out@ == model(a@),
        ensures
            (final(self)@, unit_view(r)) == old(self)@.monadic(
                |a: ValueView| Ok::<ValueView, Seq<char>>(model(a)),
            ),
            final(self).depth() == old(self).depth(),
    {
        let a = match self.pop(1usize) {
            Ok(a) => a,
            Err(e) => {
                return Err(e);
            },
        };
        let out = f(&a);
        self.push(out);
        Ok(())
    }

    /// Takes a value from the stack, hands it over to `f`, and puts
    /// back what `f` makes of it. Where `f` makes nothing of it, the
    /// message that `f` gives is that of an error at the current span.
    pub(crate) fn monadic_env<F: Fn(Value) -> Result<Value, String>>(
        &mut self,
        f: F,
        Ghost(model): Ghost<spec_fn(ValueView) -> Result<ValueView, Seq<char>>>,
    ) -> (r: Result<(), UiuaError>)
        requires
            forall|a: Value| f.requires((a,)),
            forall|a: Value, out: Result<Value, String>|
                f.ensures((a,), out) ==> text_result_view(out) == model(a@),
        ensures
            (final(self)@, unit_view(r)) == old(self)@.monadic(model),
            final(self).depth() == old(self).depth(),
    {
        let a = match self.pop(1usize) {
            Ok(a) => Value::take(a),
            Err(e) => {
                return Err(e);
            },
        };
        match f(a) {
            Ok(out) => {
                self.push(out);
                Ok(())
            },
            Err(message) => Err(self.error(message.as_str())),
        }
    }

    /// As `monadic_env`, but `f` only looks at the value.
    pub(crate) fn monadic_ref_env<F: Fn(&Value) -> Result<Value, String>>(
        &mut self,
        f: F,
        Ghost(model): Ghost<spec_fn(ValueView) -> Result<ValueView, Seq<char>>>,
    ) -> (r: Result<(), UiuaError>)
        requires
            forall|a: &Value| f.requires((a,)),
            forall|a: &Value, out: Result<Value, String>|
                f.ensures((a,), out) ==> text_result_view(out) == model(a@),
        ensures
            (final(self)@, unit_view(r)) == old(self)@.monadic(model),
            final(self).depth() == old(self).depth(),
    {
        let a = match self.pop(1usize) {
            Ok(a) => a,
            Err(e) => {
                return Err(e);
            },
        };
        match f(&a) {
            Ok(out) => {
                self.push(out);
                Ok(())
            },
            Err(message) => Err(self.error(message.as_str())),
        }
    }

    /// Takes a value from the stack, lets `f` change it, and puts it
    /// back. The value is handed over and taken back: a value that
    /// nothing else holds is changed in place.
    #[allow(dead_code)]
    pub(crate) fn monadic_mut<F: Fn(Value) -> Value>(
        &mut self,
        f: F,
        Ghost(model): Ghost<spec_fn(ValueView) -> ValueView>,
    ) -> (r: Result<(), UiuaError>)
        requires
            forall|a: Value| f.requires((a,)),
            forall|a: Value, out: Value| f.ensures((a,), out) ==> out@ == model(a@),
        ensures
            (final(self)@, unit_view(r)) == old(self)@.monadic(
                |a: ValueView| Ok::<ValueView, Seq<char>>(model(a)),
            ),
            final(self).depth() == old(self).depth(),
    {
        let a = match self.pop(1usize) {
            Ok(a) => Value::take(a),
            Err(e) => {
                return Err(e);
            },
        };
        let out = f(a);
        self.push(out);
        Ok(())
    }

    /// Takes two values from the stack, the top one first, and puts back
    /// what `f` makes of them.
    #[allow(dead_code)]
    pub(crate) fn dyadic_ref<F: Fn(&Value, &Value) -> Value>(
        &mut self,
        f: F,
        Ghost(model): Ghost<spec_fn(ValueView, ValueView) -> ValueView>,
    ) -> (r: Result<(), UiuaError>)
        requires
            forall|a: &Value, b: &Value| f.requires((a, b)),
            forall|a: &Value, b: &Value, out: Value|
                f.ensures((a, b), out) ==> out@ == model(a@, b@),
        ensures
            (final(self)@, unit_view(r)) == old(self)@.dyadic(
                |a: ValueView, b: ValueView| Ok::<ValueView, Seq<char>>(model(a, b)),
            ),
            final(self).depth() == old(self).depth(),
    {
        let a = match self.pop(1usize) {
            Ok(a) => a,
            Err(e) => {
                return Err(e);
            },
        };
        let b = match self.pop(2usize) {
            Ok(b) => b,
            Err(e) => {
                return Err(e);
            },
        };
        let out = f(&a, &b);
        self.push(out);
        Ok(())
    }

    /// Takes two values from the stack, the top one first, hands them
    /// over to `f`, and puts back what `f` makes of them. Where `f`
    /// makes nothing of them, the message that `f` gives is that of an
    /// error at the current span.
    pub(crate) fn dyadic_env<F: Fn(Value, Value) -> Result<Value, String>>(
        &mut self,
        f: F,
        Ghost(model): Ghost<spec_fn(ValueView, ValueView) -> Result<ValueView, Seq<char>>>,
    ) -> (r: Result<(), UiuaError>)
        requires
            forall|a: Value, b: Value| f.requires((a, b)),
            forall|a: Value, b: Value, out: Result<Value, String>|
                f.ensures((a, b), out) ==> text_result_view(out) == model(a@, b@),
        ensures
            (final(self)@, unit_view(r)) == old(self)@.dyadic(model),
            final(self).depth() == old(self).depth(),
    {
        let a = match self.pop(1usize) {
            Ok(a) => a,
            Err(e) => {
                return Err(e);
            },
        };
        let b = match self.pop(2usize) {
            Ok(b) => b,
            Err(e) => {
                return Err(e);
            },
        };
        match f(Value::take(a), Value::take(b)) {
            Ok(out) => {
                self.push(out);
                Ok(())
            },
            Err(message) => Err(self.error(message.as_str())),
        }
    }

    /// As `dyadic_env`, but `f` only looks at the two values.
    #[allow(dead_code)]
    pub(crate) fn dyadic_ref_env<F: Fn(&Value, &Value) -> Result<Value, String>>(
        &mut self,
        f: F,
        Ghost(model): Ghost<spec_fn(ValueView, ValueView) -> Result<ValueView, Seq<char>>>,
    ) -> (r: Result<(), UiuaError>)
        requires
            forall|a: &Value, b: &Value| f.requires((a, b)),
            forall|a: &Value, b: &Value, out: Result<Value, String>|
                f.ensures((a, b), out) ==> text_result_view(out) == model(a@, b@),
        ensures
            (final(self)@, unit_view(r)) == old(self)@.dyadic(model),
            final(self).depth() == old(self).depth(),
    {
        let a = match self.pop(1usize) {
            Ok(a) => a,
            Err(e) => {
                return Err(e);
            },
        };
        let b = match self.pop(2usize) {
            Ok(b) => b,
            Err(e) => {
                return Err(e);
            },
        };
        match f(&a, &b) {
            Ok(out) => {
                self.push(out);
                Ok(())
            },
            Err(message) => Err(self.error(message.as_str())),
        }
    }

    /// As `dyadic_env`, but `f` only looks at the value that was on top,
    /// and is handed the one beneath.
    pub(crate) fn dyadic_ref_own_env<F: Fn(&Value, Value) -> Result<Value, String>>(
        &mut self,
        f: F,
        Ghost(model): Ghost<spec_fn(ValueView, ValueView) -> Result<ValueView, Seq<char>>>,
    ) -> (r: Result<(), UiuaError>)
        requires
            forall|a: &Value, b: Value| f.requires((a, b)),
            forall|a: &Value, b: Value, out: Result<Value, String>|
                f.ensures((a, b), out) ==> text_result_view(out) == model(a@, b@),
        ensures
            (final(self)@, unit_view(r)) == old(self)@.dyadic(model),
            final(self).depth() == old(self).depth(),
    {
        let a = match self.pop(1usize) {
            Ok(a) => a,
            Err(e) => {
                return Err(e);
            },
        };
        let b = match self.pop(2usize) {
            Ok(b) => b,
            Err(e) => {
                return Err(e);
            },
        };
        match f(&a, Value::take(b)) {
            Ok(out) => {
                self.push(out);
                Ok(())
            },
            Err(message) => Err(self.error(message.as_str())),
        }
    }
}

impl Uiua {
    /// Enters a frame and runs it to its end.
    ///
    /// Whether it ends well or not, the frame has left the call stack
    /// afterwards, and so has the entry of the dfn stack that it owned.
    pub(crate) fn exec(&mut self, frame: StackFrame) -> (r: Result<(), UiuaError>)
        ensures
            (final(self)@, unit_view(r)) == old(self)@.exec(old(self).depth(), frame@),
            final(self)@.extends(old(self)@),
            final(self)@.stack.call == old(self)@.stack.call,
            r matches Err(e) ==> e@.trace_len() > 0,
            final(self).depth() == old(self).depth(),
        decreases old(self).depth(), 0nat, 0nat,
    {
        proof {
            exec_restores(self@, self.depth(), frame@);
        }
        let function = share(&frame.function);
        self.push_frame(frame);
        if self.depth == 0 {
            let e = self.error("Maximum nesting depth exceeded");
            return Err(self.unwind(e));
        }
        self.depth = self.depth - 1;
        let ghost d = self.depth();
        let ghost instrs = function@.instrs;
        let ghost start = self@;
        let mut pc: usize = 0;
        while pc < function.instrs.len()
            invariant
                pc <= function.instrs.len(),
                instrs == function@.instrs,
                self.depth() == d,
                d + 1 == old(self).depth(),
                self@.run(d, instrs, pc as nat) == start.run(d, instrs, 0),
                start.run(d, instrs, 0) == old(self)@.exec(old(self).depth(), frame@),
            decreases function.instrs.len() - pc,
        {
            match self.step(&function.instrs[pc]) {
                Err(e) => {
                    let e = self.unwind(e);
                    self.depth = self.depth + 1;
                    proof {
                        exec_restores(old(self)@, old(self).depth(), frame@);
                    }
                    return Err(e);
                },
                Ok(_) => {
                    pc += 1;
                    self.set_pc(pc);
                },
            }
        }
        self.pop_frame();
        self.depth = self.depth + 1;
        Ok(())
    }

    /// Runs one instruction.
    fn step(&mut self, instr: &Instr) -> (r: Result<(), UiuaError>)
        ensures
            (final(self)@, unit_view(r)) == old(self)@.step(old(self).depth(), instr@),
            final(self).depth() == old(self).depth(),
        decreases old(self).depth(), 19nat, 0nat,
    {
        match instr {
            Instr::Push(v) => {
                self.push_ref(share(v));
                Ok(())
            },
            Instr::BeginArray => {
                self.begin_array();
                Ok(())
            },
            Instr::EndArray(span) => self.end_array(*span),
            Instr::Prim(p, span) => {
                self.push_span(*span, Some(*p));
                match self.run_prim(*p) {
                    Err(e) => Err(e),
                    Ok(_) => {
                        self.pop_span();
                        Ok(())
                    },
                }
            },
            Instr::Call(span) => self.call_with_span(*span),
            Instr::DfnVal(index) => self.dfn_val(*index),
            Instr::If(if_true, if_false) => self.branch(if_true, if_false),
        }
    }

    /// Takes a condition from the stack: at one `if_true` is called,
    /// at zero `if_false`; any other value is an error.
    fn branch(&mut self, if_true: &Rc<Function>, if_false: &Rc<Function>) -> (r: Result<
        (),
        UiuaError,
    >)
        ensures
            (final(self)@, unit_view(r)) == old(self)@.branch(
                old(self).depth(),
                if_true@,
                if_false@,
            ),
            final(self).depth() == old(self).depth(),
        decreases old(self).depth(), 18nat, 0nat,
    {
        let value = match self.pop(2usize) {
            Ok(v) => v,
            Err(e) => {
                return Err(e);
            },
        };
        match value.as_nat() {
            None => Err(self.error("Index must be a list of integers")),
            Some(n) => {
                if n == 0 {
                    self.push(Value::from_function(share(if_false)));
                    self.call()
                } else if n == 1 {
                    self.push(Value::from_function(share(if_true)));
                    self.call()
                } else {
                    let message = with_number(
                        "Index ",
                        n as u64,
                        " is out of bounds of length 2 (dimension 1) in shape [2]",
                    );
                    Err(self.error(message.as_str()))
                }
            },
        }
    }

    /// Calls the value on top of the stack, with `call_span` as the place of the call.
    pub(crate) fn call_with_span(&mut self, call_span: usize) -> (r: Result<(), UiuaError>)
        ensures
            (final(self)@, unit_view(r)) == old(self)@.call_with_span(
                old(self).depth(),
                call_span,
            ),
            final(self).depth() == old(self).depth(),
        decreases old(self).depth(), 10nat, 0nat,
    {
        let value = match self.pop("called function") {
            Ok(v) => v,
            Err(e) => {
                return Err(e);
            },
        };
        match value.scalar_function() {
            Some(f) => {
                let mut dfn = false;
                match f.dfn_args {
                    Some(n) => {
                        let n = n as usize;
                        let have = self.stack.value.len();
                        if have < n {
                            return Err(
                                UiuaError::run(
                                    self.span_at(call_span),
                                    with_number(
                                        "not enough arguments for dfn of ",
                                        n as u64,
                                        " values",
                                    ),
                                ),
                            );
                        }
                        let ghost all = self.stack.value@;
                        let args = self.stack.value.split_off(have - n);
                        let args = reverse_values(args);
                        proof {
                            values_view_subrange(all, have - n, have as int);
                            values_view_subrange(all, 0, have - n);
                            values_view_reverse(all.subrange(have - n, have as int));
                        }
                        let ghost before = self.stack.dfn@;
                        self.stack.dfn.push(DfnFrame { function: share(&f), args });
                        assert(dfns_view(self.stack.dfn@) =~= dfns_view(before).push(
                            self.stack.dfn@.last()@,
                        ));
                        dfn = true;
                    },
                    None => {},
                }
                self.exec(StackFrame { function: f, call_span, pc: 0, spans: Vec::new(), dfn })
            },
            None => {
                self.push_ref(value);
                Ok(())
            },
        }
    }

    /// Calls the value on top of the stack. A scalar function runs to its
    /// end; a dfn takes its arguments from the stack first, the top one
    /// as its first. Any other value is put back: calling it changes nothing.
    pub fn call(&mut self) -> (r: Result<(), UiuaError>)
        ensures
            (final(self)@, unit_view(r)) == old(self)@.call(old(self).depth()),
            final(self)@.continues(old(self)@),
            final(self).depth() == old(self).depth(),
        decreases old(self).depth(), 11nat, 0nat,
    {
        proof {
            call_continues(self@, self.depth());
        }
        let call_span = self.span_index();
        self.call_with_span(call_span)
    }

    /// Calls the innermost dfn again.
    pub fn recur(&mut self) -> (r: Result<(), UiuaError>)
        ensures
            (final(self)@, unit_view(r)) == old(self)@.recur(old(self).depth()),
            final(self)@.continues(old(self)@),
            final(self).depth() == old(self).depth(),
        decreases old(self).depth(), 12nat, 0nat,
    {
        proof {
            recur_continues(self@, self.depth());
        }
        let n = self.stack.dfn.len();
        if n == 0 {
            return Err(self.error("Cannot recur outside of dfn"));
        }
        let function = share(&self.stack.dfn[n - 1].function);
        self.push(Value::from_function(function));
        self.call()
    }

    /// Calls the value on top of the stack and catches a break that ends
    /// here: the result says whether there was one.
    pub fn call_catch_break(&mut self) -> (r: Result<bool, UiuaError>)
        ensures
            (final(self)@, flag_view(r)) == old(self)@.call_catch_break(old(self).depth()),
            final(self)@.continues(old(self)@),
            final(self).depth() == old(self).depth(),
        decreases old(self).depth(), 12nat, 0nat,
    {
        proof {
            call_catch_break_continues(self@, self.depth());
        }
        match self.call() {
            Ok(_) => Ok(false),
            Err(e) => match e.break_data() {
                Ok((n, span)) => {
                    if n == 0 {
                        Ok(true)
                    } else {
                        Err(UiuaError::Break(n - 1, span))
                    }
                },
                Err(e) => Err(e),
            },
        }
    }

    /// Calls the value on top of the stack where a break has nothing to
    /// leave: one that ends here is an error with `message`.
    pub fn call_error_on_break(&mut self, message: &str) -> (r: Result<(), UiuaError>)
        ensures
            (final(self)@, unit_view(r)) == old(self)@.call_error_on_break(
                old(self).depth(),
                message@,
            ),
            final(self)@.continues(old(self)@),
            final(self).depth() == old(self).depth(),
        decreases old(self).depth(), 12nat, 0nat,
    {
        proof {
            call_error_on_break_continues(self@, self.depth(), message@);
        }
        match self.call() {
            Ok(_) => Ok(()),
            Err(e) => match e.break_data() {
                Ok((n, span)) => {
                    if n == 0 {
                        Err(UiuaError::run(span, String::from_str(message)))
                    } else {
                        Err(UiuaError::Break(n - 1, span))
                    }
                },
                Err(e) => Err(e),
            },
        }
    }

    /// Calls a function `n` times, or until it breaks.
    fn repeat(&mut self, f: &Rc<Value>, n: usize) -> (r: Result<(), UiuaError>)
        ensures
            (final(self)@, unit_view(r)) == old(self)@.repeat(old(self).depth(), f@, n as nat),
            final(self).depth() == old(self).depth(),
        decreases old(self).depth(), 17nat, n,
    {
        if n == 0 {
            return Ok(());
        }
        self.push_ref(share(f));
        match self.call_catch_break() {
            Err(e) => Err(e),
            Ok(broke) => {
                if broke {
                    Ok(())
                } else {
                    self.repeat(f, n - 1)
                }
            },
        }
    }

    /// Pushes the top value a second time.
    fn dup(&mut self) -> (r: Result<(), UiuaError>)
        ensures
            (final(self)@, unit_view(r)) == old(self)@.dup(),
            final(self).depth() == old(self).depth(),
    {
        let a = match self.pop(1usize) {
            Ok(a) => a,
            Err(e) => {
                return Err(e);
            },
        };
        self.push_ref(share(&a));
        self.push_ref(a);
        Ok(())
    }

    /// Exchanges the two top values.
    fn flip(&mut self) -> (r: Result<(), UiuaError>)
        ensures
            (final(self)@, unit_view(r)) == old(self)@.flip(),
            final(self).depth() == old(self).depth(),
    {
        let a = match self.pop(1usize) {
            Ok(a) => a,
            Err(e) => {
                return Err(e);
            },
        };
        let b = match self.pop(2usize) {
            Ok(b) => b,
            Err(e) => {
                return Err(e);
            },
        };
        self.push_ref(a);
        self.push_ref(b);
        Ok(())
    }

    /// Discards the top value.
    fn discard(&mut self) -> (r: Result<(), UiuaError>)
        ensures
            (final(self)@, unit_view(r)) == old(self)@.discard(),
            final(self).depth() == old(self).depth(),
    {
        match self.pop(1usize) {
            Ok(_) => Ok(()),
            Err(e) => Err(e),
        }
    }

    /// Moves the top value to the antistack.
    fn save(&mut self) -> (r: Result<(), UiuaError>)
        ensures
            (final(self)@, unit_view(r)) == old(self)@.save(),
            final(self).depth() == old(self).depth(),
    {
        let a = match self.pop(1usize) {
            Ok(a) => a,
            Err(e) => {
                return Err(e);
            },
        };
        self.antipush_ref(a);
        Ok(())
    }

    /// Moves the top of the antistack back to the stack.
    fn load(&mut self) -> (r: Result<(), UiuaError>)
        ensures
            (final(self)@, unit_view(r)) == old(self)@.load(),
            final(self).depth() == old(self).depth(),
    {
        let a = match self.antipop(1usize) {
            Ok(a) => a,
            Err(e) => {
                return Err(e);
            },
        };
        self.push_ref(a);
        Ok(())
    }

    /// Requests a break.
    fn request_break(&mut self) -> (r: Result<(), UiuaError>)
        ensures
            (final(self)@, unit_view(r)) == old(self)@.request_break(),
            final(self).depth() == old(self).depth(),
    {
        let a = match self.pop(1usize) {
            Ok(a) => a,
            Err(e) => {
                return Err(e);
            },
        };
        match a.as_nat() {
            None => Err(self.error("Break count must be a natural number")),
            Some(n) => Err(UiuaError::Break(n, self.span())),
        }
    }

    /// The repeat primitive.
    fn repeat_prim(&mut self) -> (r: Result<(), UiuaError>)
        ensures
            (final(self)@, unit_view(r)) == old(self)@.repeat_prim(old(self).depth()),
            final(self).depth() == old(self).depth(),
        decreases old(self).depth(), 18nat, 0nat,
    {
        let f = match self.pop(1usize) {
            Ok(f) => f,
            Err(e) => {
                return Err(e);
            },
        };
        let n = match self.pop(2usize) {
            Ok(n) => n,
            Err(e) => {
                return Err(e);
            },
        };
        match n.as_nat() {
            None => Err(self.error("Repetitions must be a natural number")),
            Some(n) => self.repeat(&f, n),
        }
    }

    /// The dip primitive.
    fn dip(&mut self) -> (r: Result<(), UiuaError>)
        ensures
            (final(self)@, unit_view(r)) == old(self)@.dip(old(self).depth()),
            final(self).depth() == old(self).depth(),
        decreases old(self).depth(), 18nat, 0nat,
    {
        let f = match self.pop(1usize) {
            Ok(f) => f,
            Err(e) => {
                return Err(e);
            },
        };
        let a = match self.pop(2usize) {
            Ok(a) => a,
            Err(e) => {
                return Err(e);
            },
        };
        self.push_ref(f);
        match self.call_error_on_break("break is not allowed in dip") {
            Err(e) => Err(e),
            Ok(_) => {
                self.push_ref(a);
                Ok(())
            },
        }
    }

    /// The position of the first source unit whose path is `path`.
    fn find_file(&self, path: &str) -> (r: Option<usize>)
        ensures
            r is Some == find_file(self@.files, path@, 0) is Some,
            r matches Some(i) ==> i < self@.files.len() && find_file(self@.files, path@, 0)
                == Some(i as int),
    {
        let mut i: usize = 0;
        while i < self.io.files.len()
            invariant
                i <= self.io.files.len(),
                find_file(self@.files, path@, 0) == find_file(self@.files, path@, i as int),
            decreases self.io.files.len() - i,
        {
            if same_text(self.io.files[i].path.as_str(), path) {
                return Some(i);
            }
            i += 1;
        }
        None
    }

    /// The import primitive.
    fn import_prim(&mut self) -> (r: Result<(), UiuaError>)
        ensures
            (final(self)@, unit_view(r)) == old(self)@.import_prim(old(self).depth()),
            final(self).depth() == old(self).depth(),
        decreases old(self).depth(), 18nat, 0nat,
    {
        let path = match self.pop(1usize) {
            Ok(path) => path,
            Err(e) => {
                return Err(e);
            },
        };
        let text = match path.as_text() {
            Some(text) => text,
            None => {
                return Err(self.error("Import path must be a string"));
            },
        };
        match self.find_file(text.as_str()) {
            None => Err(
                UiuaError::Load(text, String::from_str("no source unit is known at this path")),
            ),
            Some(i) => {
                let source = share(&self.io.files[i].source);
                let name = self.io.files[i].path.clone();
                self.import(&source, name.as_str())
            },
        }
    }

    /// Runs a primitive.
    pub(crate) fn run_prim(&mut self, p: Primitive) -> (r: Result<(), UiuaError>)
        ensures
            (final(self)@, unit_view(r)) == old(self)@.run_prim(old(self).depth(), p),
            final(self).depth() == old(self).depth(),
        decreases old(self).depth(), 18nat, 1nat,
    {
        match p {
            Primitive::Noop => Ok(()),
            Primitive::Dup => self.dup(),
            Primitive::Flip => self.flip(),
            Primitive::Pop => self.discard(),
            Primitive::Save => self.save(),
            Primitive::Load => self.load(),
            Primitive::Neg => self.monadic_env(
                negate_value,
                Ghost(|a: ValueView| crate::model::run::negate(a)),
            ),
            Primitive::Not => self.monadic_ref_env(
                complement_value,
                Ghost(|a: ValueView| crate::model::run::complement(a)),
            ),
            Primitive::Add => self.dyadic_env(
                sum_values,
                Ghost(|a: ValueView, b: ValueView| crate::model::run::sum(a, b)),
            ),
            Primitive::Reverse => self.monadic_ref(
                reverse_value,
                Ghost(|a: ValueView| a.reverse()),
            ),
            Primitive::First => self.monadic_ref_env(
                first_value,
                Ghost(|a: ValueView| crate::model::run::first_row(a)),
            ),
            Primitive::Last => self.monadic_ref_env(
                last_value,
                Ghost(|a: ValueView| crate::model::run::last_row(a)),
            ),
            Primitive::Pick => self.dyadic_ref_own_env(
                pick_value,
                Ghost(|a: ValueView, b: ValueView| crate::model::run::picked(a, b)),
            ),
            Primitive::Call => self.call(),
            Primitive::Recur => self.recur(),
            Primitive::Break => self.request_break(),
            Primitive::Repeat => self.repeat_prim(),
            Primitive::Dip => self.dip(),
            Primitive::Io(IoOp::Import) => self.import_prim(),
        }
    }
}

} // verus!
