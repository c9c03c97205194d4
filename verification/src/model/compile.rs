//! What the compiler makes of a word tree: the instructions it emits, and
//! the rewrites it applies to the end of the buffer as it emits them.

use vstd::prelude::*;
use crate::ast::{Func, Modified, Word};
use crate::error::ErrorView;
use crate::function::{FunctionView, IdView, InstrView};
use crate::model::{Step, UiuaView, lookup};
use crate::primitive::Primitive;
use crate::span::{Sp, Span};
use crate::text::parse_number;
use crate::value::ValueView;

verus! {

/// Whether appending `instr` to `buf` completes the choice between two
/// functions by index: the call primitive after a list of two scalar
/// functions, a flip and a pick.
pub open spec fn completes_choice(buf: Seq<InstrView>, instr: InstrView) -> bool {
    let n = buf.len() as int;
    &&& instr matches InstrView::Prim(Primitive::Call, _)
    &&& n >= 6
    &&& buf[n - 6] is BeginArray
    &&& buf[n - 5] matches InstrView::Push(first)
    &&& buf[n - 4] matches InstrView::Push(second)
    &&& buf[n - 3] is EndArray
    &&& buf[n - 2] matches InstrView::Prim(Primitive::Flip, _)
    &&& buf[n - 1] matches InstrView::Prim(Primitive::Pick, _)
    &&& first.scalar_function() is Some
    &&& second.scalar_function() is Some
}

/// Whether two primitives in a row undo each other: both leave as many
/// values as they take, and one is the declared inverse of the other.
pub open spec fn annihilate(top: Primitive, new: Primitive) -> bool {
    &&& top.spec_args() == top.spec_outputs()
    &&& new.spec_args() == new.spec_outputs()
    &&& (top.spec_inverse() == Some(new) || new.spec_inverse() == Some(top))
}

/// The buffer after `instr` is emitted at its end.
///
/// The rewrites, in the order in which they are tried:
/// a completed choice becomes one `If`, the conditional of the language,
/// which calls the function pushed second where the condition is one and
/// the function pushed first where it is zero (words are emitted last to
/// first, so these are the functions written first and second);
/// `Reverse` then `First` becomes `Last`, and `Reverse` then `Last`
/// becomes `First`; two primitives that undo each other both go; `Noop`
/// is dropped. Anything else is appended.
pub open spec fn emit(buf: Seq<InstrView>, instr: InstrView) -> Seq<InstrView> {
    let n = buf.len() as int;
    if completes_choice(buf, instr) {
        buf.subrange(0, n - 6).push(
            InstrView::If(
                buf[n - 4]->Push_0.scalar_function()->0,
                buf[n - 5]->Push_0.scalar_function()->0,
            ),
        )
    } else {
        match instr {
            InstrView::Prim(new, _) => {
                if n > 0 && buf[n - 1] is Prim {
                    let top = buf[n - 1]->Prim_0;
                    let top_span = buf[n - 1]->Prim_1;
                    if top == Primitive::Reverse && new == Primitive::First {
                        buf.drop_last().push(InstrView::Prim(Primitive::Last, top_span))
                    } else if top == Primitive::Reverse && new == Primitive::Last {
                        buf.drop_last().push(InstrView::Prim(Primitive::First, top_span))
                    } else if annihilate(top, new) {
                        buf.drop_last()
                    } else if new == Primitive::Noop {
                        buf
                    } else {
                        buf.push(instr)
                    }
                } else if new == Primitive::Noop {
                    buf
                } else {
                    buf.push(instr)
                }
            },
            _ => buf.push(instr),
        }
    }
}

/// The function that pushing a primitive as a value pushes.
pub open spec fn primitive_value(prim: Primitive, span: usize) -> ValueView {
    ValueView::function(
        FunctionView {
            id: IdView::Primitive(prim),
            instrs: seq![InstrView::Prim(prim, span)],
            dfn_args: None,
        },
    )
}

/// The index of the dfn argument that a name stands for: `a` is the
/// first, `z` the twenty-sixth.
pub open spec fn dfn_index(name: Seq<char>) -> Option<u8> {
    if name.len() == 1 && 'a' <= name[0] <= 'z' {
        Some((name[0] as u32 - 'a' as u32) as u8)
    } else {
        None
    }
}

impl UiuaView {
    /// The state with another list of buffers.
    pub open spec fn with_buffers(self, new_functions: Seq<Seq<InstrView>>) -> UiuaView {
        UiuaView { new_functions, ..self }
    }

    /// A new, empty buffer on top of the others.
    pub open spec fn open_buffer(self) -> UiuaView {
        self.with_buffers(self.new_functions.push(Seq::empty()))
    }

    /// The top buffer; empty where there is none.
    pub open spec fn buffer(self) -> Seq<InstrView> {
        if self.new_functions.len() > 0 {
            self.new_functions.last()
        } else {
            Seq::empty()
        }
    }

    /// The buffers without the top one.
    pub open spec fn close_buffer(self) -> UiuaView {
        if self.new_functions.len() > 0 {
            self.with_buffers(self.new_functions.drop_last())
        } else {
            self
        }
    }

    /// An instruction is emitted into the top buffer.
    pub open spec fn push_instr(self, instr: InstrView) -> UiuaView {
        if self.new_functions.len() > 0 {
            self.with_buffers(
                self.new_functions.drop_last().push(emit(self.new_functions.last(), instr)),
            )
        } else {
            self
        }
    }

    /// A primitive is compiled: in call position it runs, elsewhere it is
    /// pushed as a function of one instruction.
    pub open spec fn primitive(self, prim: Primitive, span: Span, call: bool) -> UiuaView {
        let (s, index) = self.add_span(span);
        if call {
            s.push_instr(InstrView::Prim(prim, index))
        } else {
            s.push_instr(InstrView::Push(primitive_value(prim, index)))
        }
    }

    /// The first `n` of some primitives are compiled, last to first.
    pub open spec fn primitives(
        self,
        prims: Seq<(Primitive, Seq<char>)>,
        n: nat,
        span: Span,
        call: bool,
    ) -> UiuaView
        decreases n,
    {
        if n == 0 || n > prims.len() {
            self
        } else {
            self.primitive(prims[n - 1].0, span, call).primitives(prims, (n - 1) as nat, span, call)
        }
    }

    /// The dfn being compiled takes at least `index + 1` arguments.
    pub open spec fn note_dfn_arg(self, index: u8) -> UiuaView {
        if self.new_dfns.len() > 0 && index < 255 {
            let seen = self.new_dfns.last();
            UiuaView {
                new_dfns: self.new_dfns.drop_last().push(
                    if seen > index {
                        seen
                    } else {
                        (index + 1) as u8
                    },
                ),
                ..self
            }
        } else {
            self
        }
    }

    /// An identifier is compiled. A bound name pushes its global, and
    /// calls it where it is a function in call position. Otherwise a run
    /// of abbreviated primitive names compiles as those primitives, last
    /// to first. Otherwise, inside a dfn, a single lower-case letter is
    /// an argument of the dfn. Anything else is unknown.
    pub open spec fn ident(self, name: Seq<char>, span: Span, call: bool) -> Step<()> {
        match lookup(self.stack.names, name) {
            Some(index) => {
                let value = self.global(index as int);
                let s = self.push_instr(InstrView::Push(value));
                if value.is_function() && call {
                    let (s, at) = s.add_span(span);
                    (s.push_instr(InstrView::Call(at)), Ok(()))
                } else {
                    (s, Ok(()))
                }
            },
            None => match Primitive::spec_from_multiname(name) {
                Some(prims) => (self.primitives(prims, prims.len(), span, call), Ok(())),
                None => match dfn_index(name) {
                    Some(index) if self.new_dfns.len() > 0 => (
                        self.note_dfn_arg(index).push_instr(InstrView::DfnVal(index as usize)),
                        Ok(()),
                    ),
                    _ => (self, Err(ErrorView::Run(span, "unknown identifier "@ + name))),
                },
            },
        }
    }

    /// A function block is compiled. A body that only pushes a function
    /// and calls it stands for that function; any other body becomes a
    /// function of its own.
    pub open spec fn func(self, func: Func) -> Step<()>
        decreases func, 0nat,
    {
        let (s, r) = self.compile_words(func.body@);
        match r {
            Err(e) => (s, Err(e)),
            Ok(instrs) => {
                if instrs.len() == 2 && instrs[1] is Call && (instrs[0] matches InstrView::Push(f)
                    && f.is_function()) {
                    (s.push_instr(instrs[0]), Ok(()))
                } else {
                    (
                        s.push_instr(
                            InstrView::Push(
                                ValueView::function(
                                    FunctionView { id: func.id@, instrs, dfn_args: None },
                                ),
                            ),
                        ),
                        Ok(()),
                    )
                }
            },
        }
    }

    /// A dfn block is compiled: its body, with the number of arguments
    /// that the body names; in call position it is called at once.
    pub open spec fn dfn(self, func: Func, span: Span, call: bool) -> Step<()>
        decreases func, 0nat,
    {
        let s = UiuaView { new_dfns: self.new_dfns.push(0), ..self };
        let (s, r) = s.compile_words(func.body@);
        match r {
            Err(e) => (s, Err(e)),
            Ok(instrs) => {
                let size: u8 = if s.new_dfns.len() > 0 {
                    s.new_dfns.last()
                } else {
                    0
                };
                let s = UiuaView {
                    new_dfns: if s.new_dfns.len() > 0 {
                        s.new_dfns.drop_last()
                    } else {
                        s.new_dfns
                    },
                    ..s
                };
                let (s, at) = s.add_span(span);
                let s = s.push_instr(
                    InstrView::Push(
                        ValueView::function(
                            FunctionView { id: func.id@, instrs, dfn_args: Some(size) },
                        ),
                    ),
                );
                if call {
                    (s.push_instr(InstrView::Call(at)), Ok(()))
                } else {
                    (s, Ok(()))
                }
            },
        }
    }

    /// A modifier with its operands is compiled: the operands as values,
    /// then the modifier, wrapped into a function; in call position that
    /// function is called at once.
    pub open spec fn modified(self, modified: Modified, call: bool) -> Step<()>
        decreases modified, 0nat,
    {
        let s = self.open_buffer();
        let (s, r) = s.words(modified.words@, modified.words@.len(), false);
        match r {
            Err(e) => (s, Err(e)),
            Ok(_) => {
                let s = s.primitive(modified.modifier.value, modified.modifier.span, true);
                let instrs = s.buffer();
                let s = s.close_buffer();
                let s = s.push_instr(
                    InstrView::Push(
                        ValueView::function(
                            FunctionView {
                                id: IdView::Anonymous(modified.modifier.span),
                                instrs,
                                dfn_args: None,
                            },
                        ),
                    ),
                );
                if call {
                    let (s, at) = s.add_span(modified.modifier.span);
                    (s.push_instr(InstrView::Call(at)), Ok(()))
                } else {
                    (s, Ok(()))
                }
            },
        }
    }

    /// A list is compiled: its items between the two array instructions.
    pub open spec fn list(self, items: Seq<Sp<Word>>, span: Span, call: bool) -> Step<()>
        decreases items, items.len() + 1,
    {
        let s = self.push_instr(InstrView::BeginArray);
        let (s, r) = s.words(items, items.len(), call);
        match r {
            Err(e) => (s, Err(e)),
            Ok(_) => {
                let (s, at) = s.add_span(span);
                (s.push_instr(InstrView::EndArray(at)), Ok(()))
            },
        }
    }

    /// One word is compiled.
    pub open spec fn word(self, word: Sp<Word>, call: bool) -> Step<()>
        decreases word, 0nat,
    {
        match word.value {
            Word::Number(n) => match parse_number(n@) {
                Some(v) => (self.push_instr(InstrView::Push(ValueView::number(v))), Ok(())),
                None => (self, Err(ErrorView::Run(word.span, "invalid number "@ + n@))),
            },
            Word::Char(c) => (self.push_instr(InstrView::Push(ValueView::character(c))), Ok(())),
            Word::String(s) => (self.push_instr(InstrView::Push(ValueView::text(s@))), Ok(())),
            Word::Ident(name) => self.ident(name@, word.span, call),
            Word::Strand(items) => self.list(items@, word.span, false),
            Word::Array(items) => self.list(items@, word.span, true),
            Word::Func(func) => self.func(func),
            Word::Dfn(func) => self.dfn(func, word.span, call),
            Word::Primitive(p) => (self.primitive(p, word.span, call), Ok(())),
            Word::Modified(m) => self.modified(*m, call),
            Word::Spaces => (self, Ok(())),
        }
    }

    /// The first `n` of some words are compiled, last to first.
    pub open spec fn words(self, words: Seq<Sp<Word>>, n: nat, call: bool) -> Step<()>
        decreases words, n,
    {
        if n == 0 || n > words.len() {
            (self, Ok(()))
        } else {
            let (s, r) = self.word(words[n - 1], call);
            match r {
                Err(e) => (s, Err(e)),
                Ok(_) => s.words(words, (n - 1) as nat, call),
            }
        }
    }

    /// Some words are compiled into a buffer of their own, in call
    /// position, and the buffer is handed back.
    pub open spec fn compile_words(self, words: Seq<Sp<Word>>) -> Step<Seq<InstrView>>
        decreases words, words.len() + 1,
    {
        let s = self.open_buffer();
        let (s, r) = s.words(words, words.len(), true);
        match r {
            Err(e) => (s, Err(e)),
            Ok(_) => (s.close_buffer(), Ok(s.buffer())),
        }
    }
}

} // verus!
