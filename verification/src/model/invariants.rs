//! What every operation of the model keeps: the tables only grow, a run
//! leaves the activations as it found them, and a well-formed state stays
//! well formed.

use vstd::prelude::*;
use crate::ast::{Binding, Func, Item, Modified, Parsed, Word, functiony, has_import};
use crate::function::{FunctionView, IdView, InstrView};
use crate::model::{
    DfnView,
    FrameView,
    ScopeView,
    UiuaView,
    bind,
    dfn_frames,
    distinct_names,
    find_name,
    find_path,
    initial_names,
    nameable,
};
use crate::model::run::{
    binding_runs,
    call_frame,
    find_file,
    find_import,
    main_function,
    words_run,
};
use crate::primitive::{IoOp, Primitive};
use crate::span::{Sp, Span};
use crate::value::ValueView;

verus! {

/// Compiling a primitive changes nothing but the buffers and the span table.
pub proof fn primitive_compiles(s: UiuaView, prim: Primitive, span: Span, call: bool)
    ensures
        s.primitive(prim, span, call).compiled_from(s),
{
}

/// Compiling some primitives changes nothing but the buffers and the span table.
pub proof fn primitives_compile(
    s: UiuaView,
    prims: Seq<(Primitive, Seq<char>)>,
    n: nat,
    span: Span,
    call: bool,
)
    ensures
        s.primitives(prims, n, span, call).compiled_from(s),
    decreases n,
{
    if n == 0 || n > prims.len() {
    } else {
        let t = s.primitive(prims[n - 1].0, span, call);
        primitive_compiles(s, prims[n - 1].0, span, call);
        primitives_compile(t, prims, (n - 1) as nat, span, call);
    }
}

/// Compiling an identifier changes nothing but the buffers and the span table.
pub proof fn ident_compiles(s: UiuaView, name: Seq<char>, span: Span, call: bool)
    ensures
        s.ident(name, span, call).0.compiled_from(s),
{
    match Primitive::spec_from_multiname(name) {
        Some(prims) => {
            primitives_compile(s, prims, prims.len(), span, call);
        },
        None => {},
    }
}

/// Compiling a function block changes nothing but the buffers and the span table.
pub proof fn func_compiles(s: UiuaView, func: Func)
    ensures
        s.func(func).0.compiled_from(s),
    decreases func, 0nat,
{
    compile_words_compiles(s, func.body@);
}

/// Compiling a dfn block changes nothing but the buffers and the span table.
pub proof fn dfn_compiles(s: UiuaView, func: Func, span: Span, call: bool)
    ensures
        s.dfn(func, span, call).0.compiled_from(s),
    decreases func, 0nat,
{
    let s0 = UiuaView { new_dfns: s.new_dfns.push(0), ..s };
    compile_words_compiles(s0, func.body@);
}

/// Compiling a modifier changes nothing but the buffers and the span table.
pub proof fn modified_compiles(s: UiuaView, modified: Modified, call: bool)
    ensures
        s.modified(modified, call).0.compiled_from(s),
    decreases modified, 0nat,
{
    let s0 = s.open_buffer();
    words_compile(s0, modified.words@, modified.words@.len(), false);
}

/// Compiling a list changes nothing but the buffers and the span table.
pub proof fn list_compiles(s: UiuaView, items: Seq<Sp<Word>>, span: Span, call: bool)
    ensures
        s.list(items, span, call).0.compiled_from(s),
    decreases items, items.len() + 1,
{
    let s0 = s.push_instr(InstrView::BeginArray);
    words_compile(s0, items, items.len(), call);
}

/// Compiling a word changes nothing but the buffers and the span table.
pub proof fn word_compiles(s: UiuaView, word: Sp<Word>, call: bool)
    ensures
        s.word(word, call).0.compiled_from(s),
    decreases word, 0nat,
{
    match word.value {
        Word::Ident(name) => {
            ident_compiles(s, name@, word.span, call);
        },
        Word::Strand(items) => {
            list_compiles(s, items@, word.span, false);
        },
        Word::Array(items) => {
            list_compiles(s, items@, word.span, true);
        },
        Word::Func(func) => {
            func_compiles(s, func);
        },
        Word::Dfn(func) => {
            dfn_compiles(s, func, word.span, call);
        },
        Word::Modified(m) => {
            modified_compiles(s, *m, call);
        },
        _ => {},
    }
}

/// Compiling some words changes nothing but the buffers and the span table.
pub proof fn words_compile(s: UiuaView, words: Seq<Sp<Word>>, n: nat, call: bool)
    ensures
        s.words(words, n, call).0.compiled_from(s),
    decreases words, n,
{
    if n == 0 || n > words.len() {
    } else {
        word_compiles(s, words[n - 1], call);
        let (t, r) = s.word(words[n - 1], call);
        if r is Ok {
            words_compile(t, words, (n - 1) as nat, call);
        }
    }
}

/// Compiling some words into a buffer of their own changes nothing but
/// the buffers and the span table.
pub proof fn compile_words_compiles(s: UiuaView, words: Seq<Sp<Word>>)
    ensures
        s.compile_words(words).0.compiled_from(s),
    decreases words, words.len() + 1,
{
    words_compile(s.open_buffer(), words, words.len(), true);
}

/// What continues a state that continues another continues that other.
pub proof fn continues_trans(a: UiuaView, b: UiuaView, c: UiuaView)
    requires
        b.continues(a),
        c.continues(b),
    ensures
        c.continues(a),
{
}

/// A state proceeds from itself.
pub proof fn proceeds_refl(a: UiuaView)
    ensures
        a.proceeds(a),
{
}

/// What proceeds from a state that proceeds from another proceeds from that other.
pub proof fn proceeds_trans(a: UiuaView, b: UiuaView, c: UiuaView)
    requires
        b.proceeds(a),
        c.proceeds(b),
    ensures
        c.proceeds(a),
{
}

/// A well-formed state stays well formed where the globals only grow
/// and the scopes keep their names and their dfn frames in step.
pub proof fn wf_transfer(s: UiuaView, t: UiuaView)
    requires
        s.wf(),
        s.globals.len() <= t.globals.len(),
        t.stack.names == s.stack.names,
        t.stack.dfn.len() == dfn_frames(t.stack.call),
        t.lower_stacks == s.lower_stacks,
        t.imports == s.imports,
        t.current_imports == s.current_imports,
    ensures
        t.wf(),
{
    reveal(UiuaView::wf);
}

/// A name that is not found is none of the names from the position on
/// at which the search began.
pub proof fn find_name_none(names: Seq<(Seq<char>, nat)>, name: Seq<char>, from: int)
    requires
        0 <= from,
        find_name(names, name, from) is None,
    ensures
        forall|i: int| from <= i < names.len() ==> (#[trigger] names[i]).0 != name,
    decreases names.len() - from,
{
    if from < names.len() {
        find_name_none(names, name, from + 1);
    }
}

/// A path that is not found is none of the paths from the position on
/// at which the search began.
pub proof fn find_path_none(paths: Seq<Seq<char>>, path: Seq<char>, from: int)
    requires
        0 <= from,
        find_path(paths, path, from) is None,
    ensures
        forall|i: int| from <= i < paths.len() ==> (#[trigger] paths[i]) != path,
    decreases paths.len() - from,
{
    if from < paths.len() {
        find_path_none(paths, path, from + 1);
    }
}

/// A path without a kept scope is the path of none of the kept scopes
/// from the position on at which the search began.
pub proof fn find_import_none(imports: Seq<(Seq<char>, ScopeView)>, path: Seq<char>, from: int)
    requires
        0 <= from,
        find_import(imports, path, from) is None,
    ensures
        forall|i: int| from <= i < imports.len() ==> (#[trigger] imports[i]).0 != path,
    decreases imports.len() - from,
{
    if from < imports.len() {
        find_import_none(imports, path, from + 1);
    }
}

/// Only the import primitive is reached by its name, so the names that
/// a scope starts with are one name.
pub proof fn initial_names_distinct()
    ensures
        distinct_names(initial_names()),
        initial_names().len() <= 1,
{
    reveal_with_fuel(nameable, 20);
    assert(nameable(Primitive::count()).len() <= 1);
}

/// Binding a name leaves no name bound twice.
pub proof fn bind_distinct(names: Seq<(Seq<char>, nat)>, name: Seq<char>, index: nat)
    requires
        distinct_names(names),
    ensures
        distinct_names(bind(names, name, index)),
{
    let bound = bind(names, name, index);
    match find_name(names, name, 0) {
        Some(k) => {
            find_name_in_range(names, name, 0);
            let removed = names.remove(k);
            assert forall|i: int| 0 <= i < removed.len() implies (#[trigger] removed[i])
                == names[if i < k {
                i
            } else {
                i + 1
            }] by {}
            assert forall|i: int, j: int|
                #![trigger bound[i], bound[j]]
                0 <= i < j < bound.len() implies bound[i].0 != bound[j].0 by {
                let a = if i < k {
                    i
                } else {
                    i + 1
                };
                assert(bound[i] == names[a]);
                if j < removed.len() {
                    let b = if j < k {
                        j
                    } else {
                        j + 1
                    };
                    assert(bound[j] == names[b]);
                    assert(names[a].0 != names[b].0);
                } else {
                    if a < k {
                        assert(names[a].0 != names[k].0);
                    } else {
                        assert(names[k].0 != names[a].0);
                    }
                }
            }
        },
        None => {
            find_name_none(names, name, 0);
            assert forall|i: int, j: int|
                #![trigger bound[i], bound[j]]
                0 <= i < j < bound.len() implies bound[i].0 != bound[j].0 by {
                assert(bound[i] == names[i]);
                if j < names.len() {
                    assert(bound[j] == names[j]);
                }
            }
        },
    }
}

/// Compiling continues the state.
pub proof fn compiled_continues(a: UiuaView, b: UiuaView)
    requires
        b.compiled_from(a),
    ensures
        b.continues(a),
{
    if a.wf() {
        assert(a.stack.dfn.len() == dfn_frames(a.stack.call)) by {
            reveal(UiuaView::wf);
        }
        wf_transfer(a, b);
    }
}

/// Other values on the stack or the antistack, and other recorded
/// heights, continue the state.
pub proof fn values_continue(s: UiuaView, t: UiuaView)
    requires
        t == (UiuaView {
            stack: ScopeView {
                value: t.stack.value,
                anti: t.stack.anti,
                array: t.stack.array,
                ..s.stack
            },
            ..s
        }),
    ensures
        t.continues(s),
{
    if s.wf() {
        assert(s.stack.dfn.len() == dfn_frames(s.stack.call)) by {
            reveal(UiuaView::wf);
        }
        wf_transfer(s, t);
    }
}

/// Pushing a value continues the state.
pub proof fn push_continues(s: UiuaView, v: ValueView)
    ensures
        s.push(v).continues(s),
{
    values_continue(s, s.push(v));
}

/// Taking a value from the stack continues the state.
pub proof fn pop_continues(s: UiuaView, name: Seq<char>)
    ensures
        s.pop(name).0.continues(s),
{
    values_continue(s, s.pop(name).0);
}

/// Pushing a value onto the antistack continues the state.
pub proof fn antipush_continues(s: UiuaView, v: ValueView)
    ensures
        s.antipush(v).continues(s),
{
    values_continue(s, s.antipush(v));
}

/// Taking a value from the antistack continues the state.
pub proof fn antipop_continues(s: UiuaView, name: Seq<char>)
    ensures
        s.antipop(name).0.continues(s),
{
    values_continue(s, s.antipop(name).0);
}

/// A function of one value continues the state.
pub proof fn monadic_continues(s: UiuaView, f: spec_fn(ValueView) -> Result<ValueView, Seq<char>>)
    ensures
        s.monadic(f).0.continues(s),
{
    values_continue(s, s.monadic(f).0);
}

/// A function of two values continues the state.
pub proof fn dyadic_continues(
    s: UiuaView,
    f: spec_fn(ValueView, ValueView) -> Result<ValueView, Seq<char>>,
)
    ensures
        s.dyadic(f).0.continues(s),
{
    values_continue(s, s.dyadic(f).0);
}

/// The primitives that only move values continue the state.
pub proof fn moves_continue(s: UiuaView)
    ensures
        s.dup().0.continues(s),
        s.flip().0.continues(s),
        s.discard().0.continues(s),
        s.save().0.continues(s),
        s.load().0.continues(s),
        s.request_break().0.continues(s),
{
    values_continue(s, s.dup().0);
    values_continue(s, s.flip().0);
    values_continue(s, s.discard().0);
    values_continue(s, s.save().0);
    values_continue(s, s.load().0);
    values_continue(s, s.request_break().0);
}

/// Pushing an argument of the innermost dfn continues the state.
pub proof fn dfn_val_continues(s: UiuaView, index: usize)
    ensures
        s.dfn_val(index).0.continues(s),
{
    values_continue(s, s.dfn_val(index).0);
}

/// A frame more is a dfn frame more where the frame owns a dfn entry.
pub proof fn dfn_frames_push(call: Seq<FrameView>, frame: FrameView)
    ensures
        dfn_frames(call.push(frame)) == dfn_frames(call) + if frame.dfn {
            1nat
        } else {
            0nat
        },
{
    assert(call.push(frame).drop_last() =~= call);
}

/// Changing the top frame but for its dfn flag keeps the count of dfn frames.
pub proof fn dfn_frames_map(s: UiuaView, f: spec_fn(FrameView) -> FrameView)
    requires
        forall|x: FrameView| (#[trigger] f(x)).dfn == x.dfn,
    ensures
        dfn_frames(s.map_frame(f).stack.call) == dfn_frames(s.stack.call),
        s.wf() ==> s.map_frame(f).wf(),
{
    if s.stack.call.len() > 0 {
        dfn_frames_push(s.stack.call.drop_last(), f(s.stack.call.last()));
    }
    if s.wf() {
        assert(s.stack.dfn.len() == dfn_frames(s.stack.call)) by {
            reveal(UiuaView::wf);
        }
        wf_transfer(s, s.map_frame(f));
    }
}

/// Entering a span keeps everything but the spans of the top frame,
/// and leaving it again gives back the state.
pub proof fn push_span_pending(s: UiuaView, span: usize, prim: Option<Primitive>)
    ensures
        s.push_span(span, prim).continues_pending(s),
        s.push_span(span, prim).pop_span() == s,
{
    let f = |f: FrameView| FrameView { spans: f.spans.push((span, prim)), ..f };
    dfn_frames_map(s, f);
    let t = s.push_span(span, prim);
    if s.stack.call.len() > 0 {
        assert(t.stack.call.drop_last() =~= s.stack.call.drop_last());
        let top = s.stack.call.last();
        assert(top.spans.push((span, prim)).drop_last() =~= top.spans);
        assert(t.pop_span().stack.call =~= s.stack.call);
    }
}

/// Leaving a span keeps everything but the spans of the top frame.
pub proof fn pop_span_pending(s: UiuaView)
    ensures
        s.pop_span().continues_pending(s),
{
    let f = |f: FrameView|
        FrameView {
            spans: if f.spans.len() > 0 {
                f.spans.drop_last()
            } else {
                f.spans
            },
            ..f
        };
    dfn_frames_map(s, f);
    let t = s.pop_span();
    if s.stack.call.len() > 0 {
        assert(t.stack.call.drop_last() =~= s.stack.call.drop_last());
    }
}

/// What continues a state but for spans that stay, after a state that
/// does, does.
pub proof fn pending_trans(a: UiuaView, b: UiuaView, c: UiuaView)
    requires
        b.continues_pending(a),
        c.continues_pending(b),
    ensures
        c.continues_pending(a),
{
}

/// A span that was entered and is left again leaves the state as a
/// continuation, where what happened in between continued the state.
pub proof fn span_left(s: UiuaView, span: usize, prim: Option<Primitive>, t: UiuaView)
    requires
        t.continues(s.push_span(span, prim)),
    ensures
        t.pop_span().continues(s),
        t.continues_pending(s),
{
    let s1 = s.push_span(span, prim);
    push_span_pending(s, span, prim);
    pop_span_pending(t);
    pending_trans(s, s1, t);
    pending_trans(s, t, t.pop_span());
    if s.stack.call.len() > 0 {
        let top = s.stack.call.last();
        assert(top.spans.push((span, prim)).drop_last() =~= top.spans);
        assert(t.pop_span().stack.call =~= s.stack.call);
    }
}

/// Moving the top frame to another instruction keeps everything but that.
pub proof fn set_pc_keeps(s: UiuaView, pc: usize)
    ensures
        s.set_pc(pc).extends(s),
        s.set_pc(pc).stack.call.len() == s.stack.call.len(),
        s.stack.call.len() > 0 ==> s.set_pc(pc).stack.call.drop_last() == s.stack.call.drop_last()
            && s.set_pc(pc).stack.call.last().dfn == s.stack.call.last().dfn,
        s.set_pc(pc).stack.dfn == s.stack.dfn,
        s.set_pc(pc).stack.names == s.stack.names,
        s.set_pc(pc).lower_stacks == s.lower_stacks,
        s.set_pc(pc).current_imports == s.current_imports,
        s.set_pc(pc).globals == s.globals,
        s.wf() ==> s.set_pc(pc).wf(),
{
    let f = |f: FrameView| FrameView { pc, ..f };
    dfn_frames_map(s, f);
    if s.stack.call.len() > 0 {
        assert(s.set_pc(pc).stack.call.drop_last() =~= s.stack.call.drop_last());
    }
}

/// Ending an array literal continues the state; where it fails, a span may stay.
pub proof fn end_array_continues(s: UiuaView, span: usize)
    ensures
        s.end_array(span).0.continues_pending(s),
        s.end_array(span).1 is Ok ==> s.end_array(span).0.continues(s),
{
    if s.stack.array.len() > 0 {
        let start = s.stack.array.last() as int;
        let s1 = s.with_stack(ScopeView { array: s.stack.array.drop_last(), ..s.stack });
        values_continue(s, s1);
        if start <= s1.stack.value.len() {
            let s2 = s1.with_values(s1.stack.value.subrange(0, start));
            values_continue(s, s2);
            let s3 = s2.push_span(span, None);
            let rows = s1.stack.value.subrange(start, s1.stack.value.len() as int).reverse();
            match ValueView::stack(rows) {
                None => {
                    push_span_pending(s2, span, None);
                    pending_trans(s, s2, s3);
                },
                Some(v) => {
                    push_span_pending(s2, span, None);
                    assert(s3.pop_span() == s2);
                    values_continue(s, s2.push(v));
                },
            }
        }
    }
}

/// The top frame leaves: the activations beneath it stay, and the dfn
/// stack is in step again.
pub proof fn pop_frame_pending(s: UiuaView, t: UiuaView)
    requires
        s.stack.call.len() > 0,
        t.continues_pending(s),
    ensures
        t.pop_frame().extends(s),
        t.pop_frame().stack.call == s.stack.call.drop_last(),
        t.pop_frame().stack.dfn == (if s.stack.call.last().dfn && s.stack.dfn.len() > 0 {
            s.stack.dfn.drop_last()
        } else {
            s.stack.dfn
        }),
        t.pop_frame().stack.names == s.stack.names,
        t.pop_frame().lower_stacks == s.lower_stacks,
        t.pop_frame().current_imports == s.current_imports,
        s.wf() ==> t.pop_frame().wf(),
{
    if s.wf() {
        assert(t.wf());
        assert(t.stack.dfn.len() == dfn_frames(t.stack.call)) by {
            reveal(UiuaView::wf);
        }
        wf_transfer(t, t.pop_frame());
    }
}

/// A path that is not being loaded is found last once it is.
pub proof fn find_path_after_push(paths: Seq<Seq<char>>, path: Seq<char>, from: int)
    requires
        0 <= from <= paths.len(),
        find_path(paths, path, from) is None,
    ensures
        find_path(paths.push(path), path, from) == Some(paths.len() as int),
    decreases paths.len() - from,
{
    if from < paths.len() {
        find_path_after_push(paths, path, from + 1);
    }
}

/// A name that is found is found at a position of the bindings.
pub proof fn find_name_in_range(names: Seq<(Seq<char>, nat)>, name: Seq<char>, from: int)
    ensures
        find_name(names, name, from) matches Some(k) ==> from <= k < names.len() && names[k].0
            == name,
    decreases names.len() - from,
{
    if 0 <= from < names.len() && names[from].0 != name {
        find_name_in_range(names, name, from + 1);
    }
}

/// Binding a name keeps the bindings valid where the new index is.
pub proof fn bind_valid(names: Seq<(Seq<char>, nat)>, name: Seq<char>, index: nat, globals: nat)
    requires
        forall|i: int| 0 <= i < names.len() ==> (#[trigger] names[i]).1 < globals,
        index < globals,
    ensures
        forall|i: int|
            0 <= i < bind(names, name, index).len() ==> (#[trigger] bind(names, name, index)[i]).1
                < globals,
{
    match find_name(names, name, 0) {
        Some(k) => {
            find_name_in_range(names, name, 0);
            let removed = names.remove(k);
            assert forall|i: int| 0 <= i < removed.len() implies (#[trigger] removed[i]).1
                < globals by {
                if i < k {
                    assert(removed[i] == names[i]);
                } else {
                    assert(removed[i] == names[i + 1]);
                }
            }
        },
        None => {},
    }
}

/// Defining a global proceeds from the state.
pub proof fn define_proceeds(s: UiuaView, name: Seq<char>, v: ValueView)
    ensures
        s.define(name, v).proceeds(s),
{
    let t = s.define(name, v);
    if s.wf() {
        reveal(UiuaView::wf);
        bind_valid(s.stack.names, name, s.globals.len(), t.globals.len());
        bind_distinct(s.stack.names, name, s.globals.len());
    }
}

/// Pushing the bindings of a scope continues the state.
pub proof fn push_scope_imports_continues(s: UiuaView, scope: ScopeView)
    ensures
        s.push_scope_imports(scope).continues(s),
{
    values_continue(s, s.push_scope_imports(scope));
}

/// Setting the current scope aside for a fresh one keeps a well-formed
/// state well formed.
pub proof fn enter_scope_wf(s: UiuaView)
    ensures
        s.enter_scope().extends(s),
        s.wf() ==> s.enter_scope().wf(),
{
    if s.wf() {
        reveal(UiuaView::wf);
        initial_names_distinct();
        let t = s.enter_scope();
        assert forall|i: int| 0 <= i < t.lower_stacks.len() implies (#[trigger] t.lower_stacks[i]).wf(
            t.globals.len(),
        ) by {
            if i < s.lower_stacks.len() {
                assert(t.lower_stacks[i] == s.lower_stacks[i]);
            }
        }
    }
}

/// A scope ends: where what ran in it proceeded from its beginning, the
/// scope that was current is current again, and the scope that ends is
/// well formed.
pub proof fn leave_scope_restores(s: UiuaView, t: UiuaView)
    requires
        t.proceeds(s.enter_scope()),
    ensures
        t.leave_scope().continues(s),
        t.leave_scope().stack == s.stack,
        s.wf() ==> t.stack.wf(t.globals.len()),
{
    enter_scope_wf(s);
    assert(t.lower_stacks.drop_last() =~= s.lower_stacks);
    if s.wf() {
        reveal(UiuaView::wf);
    }
}

/// Keeping the scope of an import continues the state, where the scope
/// is well formed.
pub proof fn keep_import_continues(s: UiuaView, path: Seq<char>, scope: ScopeView)
    ensures
        s.keep_import(path, scope).extends(s),
        s.keep_import(path, scope).resumes(s),
        s.keep_import(path, scope).stack == s.stack,
        s.keep_import(path, scope).globals == s.globals,
        s.wf() && scope.wf(s.globals.len()) ==> s.keep_import(path, scope).wf(),
{
    let t = s.keep_import(path, scope);
    assert(s.imports.is_prefix_of(t.imports));
    if s.wf() && scope.wf(s.globals.len()) && find_import(s.imports, path, 0) is None {
        reveal(UiuaView::wf);
        find_import_none(s.imports, path, 0);
        assert forall|i: int, j: int|
            #![trigger t.imports[i], t.imports[j]]
            0 <= i < j < t.imports.len() implies t.imports[i].0 != t.imports[j].0 by {
            assert(t.imports[i] == s.imports[i]);
            if j < s.imports.len() {
                assert(t.imports[j] == s.imports[j]);
            }
        }
        assert forall|i: int| 0 <= i < t.imports.len() implies (#[trigger] t.imports[i]).1.wf(
            t.globals.len(),
        ) by {
            if i < s.imports.len() {
                assert(t.imports[i] == s.imports[i]);
            }
        }
    }
}

/// A source unit that begins and ends loading leaves the paths that are
/// being loaded as they were, where its path was not among them.
pub proof fn load_bracket(s: UiuaView, path: Seq<char>, t: UiuaView)
    requires
        find_path(s.current_imports, path, 0) is None,
        t.proceeds(s.begin_load(path)),
    ensures
        t.end_load(path).proceeds(s),
{
    find_path_after_push(s.current_imports, path, 0);
    assert(s.current_imports.push(path).remove(s.current_imports.len() as int)
        =~= s.current_imports);
    let s1 = s.begin_load(path);
    let u = t.end_load(path);
    if s.wf() {
        assert(s1.wf()) by {
            reveal(UiuaView::wf);
            find_path_none(s.current_imports, path, 0);
            let loading = s1.current_imports;
            assert forall|i: int, j: int|
                #![trigger loading[i], loading[j]]
                0 <= i < j < loading.len() implies loading[i] != loading[j] by {
                assert(loading[i] == s.current_imports[i]);
                if j < s.current_imports.len() {
                    assert(loading[j] == s.current_imports[j]);
                }
            }
        }
        assert(t.wf());
        assert(u.wf()) by {
            reveal(UiuaView::wf);
        }
    }
}

/// A frame that enters a well-formed state whose dfn stack is one
/// entry ahead where the frame owns one gives a well-formed state.
pub proof fn push_frame_wf(s: UiuaView, frame: FrameView, before: UiuaView)
    requires
        before.wf(),
        before.globals.len() <= s.globals.len(),
        s.stack.names == before.stack.names,
        s.stack.call == before.stack.call,
        s.lower_stacks == before.lower_stacks,
        s.imports == before.imports,
        s.current_imports == before.current_imports,
        s.stack.dfn.len() == before.stack.dfn.len() + if frame.dfn {
            1nat
        } else {
            0nat
        },
    ensures
        s.push_frame(frame).wf(),
{
    dfn_frames_push(s.stack.call, frame);
    assert(before.stack.dfn.len() == dfn_frames(before.stack.call)) by {
        reveal(UiuaView::wf);
    }
    wf_transfer(before, s.push_frame(frame));
}

/// Calling what is on top of the stack continues the state.
pub proof fn call_continues(s: UiuaView, d: nat)
    ensures
        s.call(d).0.continues(s),
    decreases d, 11nat, 0nat,
{
    call_with_span_continues(s, d, s.span_index());
}

/// Calling what is on top of the stack continues the state.
pub proof fn call_with_span_continues(s: UiuaView, d: nat, call_span: usize)
    ensures
        s.call_with_span(d, call_span).0.continues(s),
    decreases d, 10nat, 0nat,
{
    let (s1, r) = s.pop("called function"@);
    pop_continues(s, "called function"@);
    match r {
        Err(_) => {},
        Ok(v) => match v.scalar_function() {
            Some(f) => match f.dfn_args {
                Some(n) => {
                    let have = s1.stack.value.len() as int;
                    if have >= n {
                        let args = s1.stack.value.subrange(have - n, have).reverse();
                        let s2 = s1.with_values(s1.stack.value.subrange(0, have - n)).with_dfn(
                            s1.stack.dfn.push(DfnView { function: f, args }),
                        );
                        let frame = call_frame(f, call_span, true);
                        exec_restores(s2, d, frame);
                        assert(s2.stack.dfn.drop_last() =~= s1.stack.dfn);
                        let t = s2.exec(d, frame).0;
                        if s.wf() {
                            push_frame_wf(s2, frame, s);
                        }
                    }
                },
                None => {
                    let frame = call_frame(f, call_span, false);
                    exec_restores(s1, d, frame);
                    let t = s1.exec(d, frame).0;
                    if s.wf() {
                        push_frame_wf(s1, frame, s);
                    }
                },
            },
            None => {
                values_continue(s, s.call_with_span(d, call_span).0);
            },
        },
    }
}

/// Running a frame leaves the call stack as it was, and takes the dfn
/// entry that the frame owned.
pub proof fn exec_restores(s: UiuaView, d: nat, frame: FrameView)
    ensures
        s.exec(d, frame).0.extends(s),
        s.exec(d, frame).0.stack.call == s.stack.call,
        s.exec(d, frame).0.stack.dfn == (if frame.dfn && s.stack.dfn.len() > 0 {
            s.stack.dfn.drop_last()
        } else {
            s.stack.dfn
        }),
        s.exec(d, frame).0.stack.names == s.stack.names,
        s.exec(d, frame).0.lower_stacks == s.lower_stacks,
        s.exec(d, frame).0.current_imports == s.current_imports,
        s.push_frame(frame).wf() ==> s.exec(d, frame).0.wf(),
        s.exec(d, frame).1 matches Err(e) ==> e.trace_len() > 0,
    decreases d, 0nat, 0nat,
{
    let s1 = s.push_frame(frame);
    assert(s1.stack.call.drop_last() =~= s.stack.call);
    if d == 0 {
        pop_frame_pending(s1, s1);
    } else {
        run_restores(s1, (d - 1) as nat, frame.function.instrs, 0);
    }
}

/// Running the instructions of the top frame ends with that frame gone
/// and everything beneath it as it was.
pub proof fn run_restores(s: UiuaView, d: nat, instrs: Seq<InstrView>, pc: nat)
    requires
        s.stack.call.len() > 0,
    ensures
        s.run(d, instrs, pc).0.extends(s),
        s.run(d, instrs, pc).0.stack.call == s.stack.call.drop_last(),
        s.run(d, instrs, pc).0.stack.dfn == (if s.stack.call.last().dfn && s.stack.dfn.len() > 0 {
            s.stack.dfn.drop_last()
        } else {
            s.stack.dfn
        }),
        s.run(d, instrs, pc).0.stack.names == s.stack.names,
        s.run(d, instrs, pc).0.lower_stacks == s.lower_stacks,
        s.run(d, instrs, pc).0.current_imports == s.current_imports,
        s.wf() ==> s.run(d, instrs, pc).0.wf(),
        s.run(d, instrs, pc).1 matches Err(e) ==> e.trace_len() > 0,
    decreases d, 20nat, instrs.len() - pc,
{
    if pc >= instrs.len() {
        pop_frame_pending(s, s);
    } else {
        step_continues(s, d, instrs[pc as int]);
        let (s1, r) = s.step(d, instrs[pc as int]);
        match r {
            Err(e) => {
                pop_frame_pending(s, s1);
            },
            Ok(_) => {
                let s2 = s1.set_pc((pc + 1) as usize);
                set_pc_keeps(s1, (pc + 1) as usize);
                run_restores(s2, d, instrs, pc + 1);
                let t = s2.run(d, instrs, pc + 1).0;
                assert(s2.stack.call.drop_last() == s.stack.call.drop_last());
            },
        }
    }
}

/// One instruction continues the state; where it fails, a span may stay.
pub proof fn step_continues(s: UiuaView, d: nat, instr: InstrView)
    ensures
        s.step(d, instr).0.continues_pending(s),
        s.step(d, instr).1 is Ok ==> s.step(d, instr).0.continues(s),
    decreases d, 19nat, 0nat,
{
    match instr {
        InstrView::Push(v) => {
            push_continues(s, v);
        },
        InstrView::BeginArray => {
            values_continue(s, s.begin_array());
        },
        InstrView::EndArray(span) => {
            end_array_continues(s, span);
        },
        InstrView::Prim(p, span) => {
            let s1 = s.push_span(span, Some(p));
            run_prim_continues(s1, d, p);
            span_left(s, span, Some(p), s1.run_prim(d, p).0);
        },
        InstrView::Call(span) => {
            call_with_span_continues(s, d, span);
        },
        InstrView::DfnVal(index) => {
            dfn_val_continues(s, index);
        },
        InstrView::If(if_true, if_false) => {
            branch_continues(s, d, if_true, if_false);
        },
    }
}

/// Choosing between two functions continues the state.
pub proof fn branch_continues(s: UiuaView, d: nat, if_true: FunctionView, if_false: FunctionView)
    ensures
        s.branch(d, if_true, if_false).0.continues(s),
    decreases d, 18nat, 0nat,
{
    let (s1, r) = s.pop(crate::model::run::argument(2));
    pop_continues(s, crate::model::run::argument(2));
    match r {
        Err(_) => {},
        Ok(v) => match v.as_nat() {
            None => {},
            Some(n) => {
                if n == 0 {
                    let s2 = s1.push(ValueView::function(if_false));
                    push_continues(s1, ValueView::function(if_false));
                    call_continues(s2, d);
                    continues_trans(s, s1, s2);
                    continues_trans(s, s2, s2.call(d).0);
                } else if n == 1 {
                    let s2 = s1.push(ValueView::function(if_true));
                    push_continues(s1, ValueView::function(if_true));
                    call_continues(s2, d);
                    continues_trans(s, s1, s2);
                    continues_trans(s, s2, s2.call(d).0);
                }
            },
        },
    }
}

/// Calling the innermost dfn again continues the state.
pub proof fn recur_continues(s: UiuaView, d: nat)
    ensures
        s.recur(d).0.continues(s),
    decreases d, 12nat, 0nat,
{
    if s.stack.dfn.len() > 0 {
        let s1 = s.push(ValueView::function(s.stack.dfn.last().function));
        push_continues(s, ValueView::function(s.stack.dfn.last().function));
        call_continues(s1, d);
        continues_trans(s, s1, s1.call(d).0);
    }
}

/// Calling and catching a break continues the state.
pub proof fn call_catch_break_continues(s: UiuaView, d: nat)
    ensures
        s.call_catch_break(d).0.continues(s),
    decreases d, 12nat, 0nat,
{
    call_continues(s, d);
}

/// Calling where a break is an error continues the state.
pub proof fn call_error_on_break_continues(s: UiuaView, d: nat, message: Seq<char>)
    ensures
        s.call_error_on_break(d, message).0.continues(s),
    decreases d, 12nat, 0nat,
{
    call_continues(s, d);
}

/// Calling a function several times continues the state.
pub proof fn repeat_continues(s: UiuaView, d: nat, f: ValueView, n: nat)
    ensures
        s.repeat(d, f, n).0.continues(s),
    decreases d, 17nat, n,
{
    if n > 0 {
        let s1 = s.push(f);
        push_continues(s, f);
        call_catch_break_continues(s1, d);
        let (s2, r) = s1.call_catch_break(d);
        continues_trans(s, s1, s2);
        match r {
            Ok(broke) => {
                if !broke {
                    repeat_continues(s2, d, f, (n - 1) as nat);
                    continues_trans(s, s2, s2.repeat(d, f, (n - 1) as nat).0);
                }
            },
            Err(_) => {},
        }
    }
}

/// The repeat primitive continues the state.
pub proof fn repeat_prim_continues(s: UiuaView, d: nat)
    ensures
        s.repeat_prim(d).0.continues(s),
    decreases d, 18nat, 0nat,
{
    let (s1, r) = s.pop(crate::model::run::argument(1));
    pop_continues(s, crate::model::run::argument(1));
    match r {
        Err(_) => {},
        Ok(f) => {
            let (s2, r) = s1.pop(crate::model::run::argument(2));
            pop_continues(s1, crate::model::run::argument(2));
            continues_trans(s, s1, s2);
            match r {
                Err(_) => {},
                Ok(n) => match n.as_nat() {
                    None => {},
                    Some(n) => {
                        repeat_continues(s2, d, f, n as nat);
                        continues_trans(s, s2, s2.repeat(d, f, n as nat).0);
                    },
                },
            }
        },
    }
}

/// The dip primitive continues the state.
pub proof fn dip_continues(s: UiuaView, d: nat)
    ensures
        s.dip(d).0.continues(s),
    decreases d, 18nat, 0nat,
{
    let (s1, r) = s.pop(crate::model::run::argument(1));
    pop_continues(s, crate::model::run::argument(1));
    match r {
        Err(_) => {},
        Ok(f) => {
            let (s2, r) = s1.pop(crate::model::run::argument(2));
            pop_continues(s1, crate::model::run::argument(2));
            continues_trans(s, s1, s2);
            match r {
                Err(_) => {},
                Ok(a) => {
                    let s3 = s2.push(f);
                    push_continues(s2, f);
                    continues_trans(s, s2, s3);
                    let message = "break is not allowed in dip"@;
                    call_error_on_break_continues(s3, d, message);
                    let (s4, r) = s3.call_error_on_break(d, message);
                    continues_trans(s, s3, s4);
                    push_continues(s4, a);
                    continues_trans(s, s4, s4.push(a));
                },
            }
        },
    }
}

/// The import primitive continues the state.
pub proof fn import_prim_continues(s: UiuaView, d: nat)
    ensures
        s.import_prim(d).0.continues(s),
    decreases d, 18nat, 0nat,
{
    let (s1, r) = s.pop(crate::model::run::argument(1));
    pop_continues(s, crate::model::run::argument(1));
    match r {
        Err(_) => {},
        Ok(path) => match path.as_text() {
            None => {},
            Some(text) => match find_file(s1.files, text, 0) {
                None => {},
                Some(i) => {
                    let source = s1.files[i].parsed();
                    let name = s1.files[i].path@;
                    import_continues(s1, d, source, name);
                    continues_trans(s, s1, s1.import(d, source, name).0);
                },
            },
        },
    }
}

/// A primitive continues the state.
pub proof fn run_prim_continues(s: UiuaView, d: nat, p: Primitive)
    ensures
        s.run_prim(d, p).0.continues(s),
    decreases d, 18nat, 1nat,
{
    match p {
        Primitive::Noop => {
            values_continue(s, s);
        },
        Primitive::Dup => {
            moves_continue(s);
        },
        Primitive::Flip => {
            moves_continue(s);
        },
        Primitive::Pop => {
            moves_continue(s);
        },
        Primitive::Save => {
            moves_continue(s);
        },
        Primitive::Load => {
            moves_continue(s);
        },
        Primitive::Break => {
            moves_continue(s);
        },
        Primitive::Neg => {
            monadic_continues(s, |a: ValueView| crate::model::run::negate(a));
        },
        Primitive::Not => {
            monadic_continues(s, |a: ValueView| crate::model::run::complement(a));
        },
        Primitive::Reverse => {
            monadic_continues(s, |a: ValueView| crate::model::run::reversed(a));
        },
        Primitive::First => {
            monadic_continues(s, |a: ValueView| crate::model::run::first_row(a));
        },
        Primitive::Last => {
            monadic_continues(s, |a: ValueView| crate::model::run::last_row(a));
        },
        Primitive::Add => {
            dyadic_continues(s, |a: ValueView, b: ValueView| crate::model::run::sum(a, b));
        },
        Primitive::Pick => {
            dyadic_continues(s, |a: ValueView, b: ValueView| crate::model::run::picked(a, b));
        },
        Primitive::Call => {
            call_continues(s, d);
        },
        Primitive::Recur => {
            recur_continues(s, d);
        },
        Primitive::Repeat => {
            repeat_prim_continues(s, d);
        },
        Primitive::Dip => {
            dip_continues(s, d);
        },
        Primitive::Io(IoOp::Import) => {
            import_prim_continues(s, d);
        },
    }
}

/// Running a source unit in a scope of its own leaves the current scope
/// as it was, and the scope handed back is well formed.
pub proof fn load_in_scope_restores(s: UiuaView, d: nat, source: Parsed, path: Seq<char>)
    requires
        find_path(s.current_imports, path, 0) is None,
    ensures
        s.load_in_scope(d, source, path).0.continues(s),
        s.load_in_scope(d, source, path).0.stack == s.stack,
        s.wf() ==> (s.load_in_scope(
            d,
            source,
            path,
        ).1 matches Ok(scope) ==> scope.wf(s.load_in_scope(d, source, path).0.globals.len())),
    decreases d, 15nat, 0nat,
{
    if d > 0 {
        let s1 = s.enter_scope();
        load_path_proceeds(s1, (d - 1) as nat, source, path);
        let (s2, r) = s1.load_impl((d - 1) as nat, source, Some(path));
        leave_scope_restores(s, s2);
    } else {
        values_continue(s, s);
    }
}

/// Importing continues the state.
pub proof fn import_continues(s: UiuaView, d: nat, source: Parsed, path: Seq<char>)
    ensures
        s.import(d, source, path).0.continues(s),
    decreases d, 16nat, 0nat,
{
    if find_path(s.current_imports, path, 0) is Some {
        values_continue(s, s);
    } else {
        match find_import(s.imports, path, 0) {
            Some(i) => {
                push_scope_imports_continues(s, s.imports[i].1);
            },
            None => {
                load_in_scope_restores(s, d, source, path);
                let (s1, r) = s.load_in_scope(d, source, path);
                match r {
                    Err(_) => {
                        assert(s.import(d, source, path).0 == s1);
                    },
                    Ok(scope) => {
                        let s2 = s1.keep_import(path, scope);
                        keep_import_continues(s1, path, scope);
                        let s3 = s2.push_scope_imports(scope);
                        push_scope_imports_continues(s2, scope);
                        assert(s.import(d, source, path).0 == s3);
                        assert(s2.extends(s));
                        assert(s3.extends(s));
                        if s.wf() {
                            assert(s1.wf());
                            assert(s2.wf());
                            assert(s3.wf());
                        }
                    },
                }
            },
        }
    }
}

/// Loading a source unit under a path proceeds from the state, where
/// the path is not being loaded already.
pub proof fn load_path_proceeds(s: UiuaView, d: nat, source: Parsed, p: Seq<char>)
    requires
        find_path(s.current_imports, p, 0) is None,
    ensures
        s.load_impl(d, source, Some(p)).0.proceeds(s),
    decreases d, 31nat, 0nat,
{
    if source.errors@.len() == 0 {
        let s1 = s.begin_load(p);
        items_proceed(s1, d, source.items@, 0, false);
        let s2 = s1.items(d, source.items@, 0, false).0;
        load_bracket(s, p, s2);
        assert(s.load_impl(d, source, Some(p)).0 == s2.end_load(p));
    } else {
        assert(s.load_impl(d, source, Some(p)).0 == s);
        proceeds_refl(s);
    }
}

/// Loading a source unit that has no path proceeds from the state.
pub proof fn load_proceeds(s: UiuaView, d: nat, source: Parsed)
    ensures
        s.load_impl(d, source, None).0.proceeds(s),
    decreases d, 31nat, 0nat,
{
    if source.errors@.len() == 0 {
        items_proceed(s, d, source.items@, 0, false);
        assert(s.load_impl(d, source, None).0 == s.items(d, source.items@, 0, false).0);
    } else {
        assert(s.load_impl(d, source, None).0 == s);
        proceeds_refl(s);
    }
}

/// Running items proceeds from the state.
pub proof fn items_proceed(s: UiuaView, d: nat, items: Seq<Item>, from: nat, in_test: bool)
    ensures
        s.items(d, items, from, in_test).0.proceeds(s),
    decreases d, 30nat, items.len() - from,
{
    if from < items.len() {
        item_proceeds(s, d, items[from as int], in_test);
        let (s1, r) = s.item(d, items[from as int], in_test);
        if r is Ok {
            items_proceed(s1, d, items, from + 1, in_test);
            proceeds_trans(s, s1, s1.items(d, items, from + 1, in_test).0);
        }
    }
}

/// Running items in a scope of their own leaves the current scope as
/// it was, and the scope handed back is well formed.
pub proof fn in_scope_restores(s: UiuaView, d: nat, items: Seq<Item>, in_test: bool)
    ensures
        s.in_scope(d, items, in_test).0.continues(s),
        s.in_scope(d, items, in_test).0.stack == s.stack,
        s.wf() ==> (s.in_scope(
            d,
            items,
            in_test,
        ).1 matches Ok(scope) ==> scope.wf(s.in_scope(d, items, in_test).0.globals.len())),
    decreases d, 28nat, 0nat,
{
    if d > 0 {
        let s1 = s.enter_scope();
        items_proceed(s1, (d - 1) as nat, items, 0, in_test);
        let (s2, r) = s1.items((d - 1) as nat, items, 0, in_test);
        leave_scope_restores(s, s2);
    } else {
        values_continue(s, s);
    }
}

/// Compiling a line and running it proceeds from the state.
pub proof fn line_proceeds(s: UiuaView, d: nat, words: Seq<Sp<Word>>)
    ensures
        ({
            let (s1, r) = s.compile_words(words);
            match r {
                Err(_) => s1.proceeds(s),
                Ok(instrs) => s1.exec_global_instrs(d, instrs).0.proceeds(s),
            }
        }),
    decreases d, 6nat, 0nat,
{
    compile_words_compiles(s, words);
    let (s1, r) = s.compile_words(words);
    compiled_continues(s, s1);
    match r {
        Err(_) => {},
        Ok(instrs) => {
            exec_global_instrs_continues(s1, d, instrs);
            continues_trans(s, s1, s1.exec_global_instrs(d, instrs).0);
        },
    }
}

/// Running an item proceeds from the state.
pub proof fn item_proceeds(s: UiuaView, d: nat, item: Item, in_test: bool)
    ensures
        s.item(d, item, in_test).0.proceeds(s),
    decreases d, 29nat, 0nat,
{
    match item {
        Item::Scoped { items, test } => {
            in_scope_restores(s, d, items@, test);
            assert(s.item(d, item, in_test).0 == s.in_scope(d, items@, test).0);
        },
        Item::Words(words, _) => {
            if words_run(s.mode, in_test) || has_import(words@) {
                line_proceeds(s, d, words@);
            } else {
                proceeds_refl(s);
            }
        },
        Item::Binding(binding, _) => {
            if binding_runs(s.mode, in_test) || has_import(binding.words@) {
                binding_proceeds(s, d, binding);
            } else {
                proceeds_refl(s);
            }
        },
        Item::Newlines => {
            proceeds_refl(s);
        },
        Item::Comment(_) => {
            proceeds_refl(s);
        },
    }
}

/// Items in a scope of their own leave the scope around them as it
/// was: the value stack, the antistack, the open arrays, the dfn frames,
/// the call frames and the names. Only the tables have grown.
pub proof fn scoped_item_keeps_scope(s: UiuaView, d: nat, item: Item, in_test: bool)
    requires
        item is Scoped,
    ensures
        s.item(d, item, in_test).0.stack == s.stack,
        s.item(d, item, in_test).0.continues(s),
{
    match item {
        Item::Scoped { items, test } => {
            in_scope_restores(s, d, items@, test);
        },
        _ => {},
    }
}

/// Running a binding proceeds from the state.
pub proof fn binding_proceeds(s: UiuaView, d: nat, binding: Binding)
    ensures
        s.binding(d, binding).0.proceeds(s),
    decreases d, 27nat, 0nat,
{
    let name = binding.name.value@;
    compile_words_compiles(s, binding.words@);
    let (s1, r) = s.compile_words(binding.words@);
    compiled_continues(s, s1);
    match r {
        Err(_) => {},
        Ok(instrs) => {
            if functiony(name) {
                let v = ValueView::function(
                    FunctionView { id: IdView::Named(name), instrs, dfn_args: None },
                );
                define_proceeds(s1, name, v);
                proceeds_trans(s, s1, s1.define(name, v));
            } else {
                exec_global_instrs_continues(s1, d, instrs);
                let (s2, r) = s1.exec_global_instrs(d, instrs);
                continues_trans(s, s1, s2);
                match r {
                    Err(_) => {},
                    Ok(_) => {
                        if s2.stack.value.len() > 0 {
                            let s3 = s2.with_values(s2.stack.value.drop_last());
                            values_continue(s2, s3);
                            continues_trans(s, s2, s3);
                            define_proceeds(s3, name, s2.stack.value.last());
                            proceeds_trans(s, s3, s3.define(name, s2.stack.value.last()));
                        } else {
                            define_proceeds(s2, name, ValueView::empty());
                            proceeds_trans(s, s2, s2.define(name, ValueView::empty()));
                        }
                    },
                }
            }
        },
    }
}

/// Running the top level of a line continues the state.
pub proof fn exec_global_instrs_continues(s: UiuaView, d: nat, instrs: Seq<InstrView>)
    ensures
        s.exec_global_instrs(d, instrs).0.continues(s),
    decreases d, 5nat, 0nat,
{
    let frame = call_frame(main_function(instrs), 0, false);
    exec_restores(s, d, frame);
    if s.wf() {
        push_frame_wf(s, frame, s);
    }
}

} // verus!
