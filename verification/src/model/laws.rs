//! Laws of the values, the compiler's rewrites and the interpreter.

use vstd::prelude::*;
use crate::ast::Parsed;
use crate::error::ErrorView;
use crate::function::InstrView;
use crate::machine::SourceFile;
use crate::model::{
    FrameView,
    ScopeView,
    UiuaView,
    dfn_frames,
    find_path,
    nameable,
    primitive_frames,
};
use crate::model::compile::{annihilate, completes_choice, emit};
use crate::model::invariants::{
    import_continues,
    load_in_scope_restores,
    push_span_pending,
    step_continues,
};
use crate::model::run::{complement, find_import, first_row, last_row, negate, picked, reversed};
use crate::primitive::Primitive;
use crate::value::{ValueView, fits, join};

verus! {

/// The rows of a value lie within its buffer, one after the other.
pub proof fn rows_fit(v: ValueView, i: int)
    requires
        0 <= i < v.row_count(),
    ensures
        0 <= i * v.row_len() <= (i + 1) * v.row_len() <= v.row_count() * v.row_len()
            <= v.data.len(),
        v.row(i).data.len() == v.row_len(),
{
    let n = v.row_count() as int;
    let len = v.row_len() as int;
    let total = v.data.len() as int;
    assert(n * len <= total) by (nonlinear_arith)
        requires
            n > 0,
            total >= 0,
            len == total / n,
    ;
    assert(0 <= i * len <= (i + 1) * len <= n * len && (i + 1) * len - i * len == len)
        by (nonlinear_arith)
        requires
            0 <= i < n,
            len >= 0,
    ;
}

/// Rows of one length, joined: the buffer has as many elements as
/// there are rows times that length, and each row is found at its place.
pub proof fn join_uniform(rows: Seq<ValueView>, len: nat)
    requires
        forall|j: int| 0 <= j < rows.len() ==> (#[trigger] rows[j]).data.len() == len,
    ensures
        join(rows).len() == rows.len() * len,
        forall|i: int|
            0 <= i < rows.len() ==> #[trigger] join(rows).subrange(i * len, (i + 1) * len)
                == rows[i].data,
    decreases rows.len(),
{
    if rows.len() == 0 {
        assert(rows.len() * len == 0) by (nonlinear_arith)
            requires
                rows.len() == 0,
        ;
    } else {
        let k = rows.len() as int;
        let prev = rows.drop_last();
        join_uniform(prev, len);
        assert((k - 1) * len + len == k * len) by (nonlinear_arith);
        assert forall|i: int| 0 <= i < rows.len() implies #[trigger] join(rows).subrange(
            i * len,
            (i + 1) * len,
        ) == rows[i].data by {
            if i < k - 1 {
                assert(0 <= i * len <= (i + 1) * len <= (k - 1) * len) by (nonlinear_arith)
                    requires
                        0 <= i < k - 1,
                        len >= 0,
                ;
                assert(join(rows).subrange(i * len, (i + 1) * len) =~= join(prev).subrange(
                    i * len,
                    (i + 1) * len,
                ));
                assert(prev[i] == rows[i]);
            } else {
                assert(join(rows).subrange(i * len, (i + 1) * len) =~= rows.last().data);
            }
        }
    }
}

/// The rows of a value, joined, are the buffer up to the last full row.
pub proof fn join_rows(v: ValueView)
    ensures
        join(v.rows()) == v.data.subrange(0, (v.row_count() * v.row_len()) as int),
        join(v.rows()).len() == v.row_count() * v.row_len(),
        v.row_count() * v.row_len() <= v.data.len(),
{
    let n = v.row_count();
    let len = v.row_len();
    if n == 0 {
        assert(n * len == 0) by (nonlinear_arith)
            requires
                n == 0,
        ;
        assert(v.rows() =~= Seq::empty());
        assert(join(v.rows()) =~= v.data.subrange(0, 0));
    } else {
        rows_fit(v, 0);
        assert forall|j: int| 0 <= j < v.rows().len() implies (#[trigger] v.rows()[j]).data.len()
            == len by {
            rows_fit(v, j);
        }
        join_uniform(v.rows(), len);
        let joined = join(v.rows());
        let target = v.data.subrange(0, (n * len) as int);
        assert forall|k: int| 0 <= k < joined.len() implies joined[k] == target[k] by {
            let i = k / (len as int);
            assert(len > 0) by (nonlinear_arith)
                requires
                    n * len > k,
                    k >= 0,
                    n >= 0,
                    len >= 0,
            ;
            assert(i * len <= k < (i + 1) * len && 0 <= i < n) by (nonlinear_arith)
                requires
                    i == k / (len as int),
                    len > 0,
                    0 <= k < n * len,
            ;
            rows_fit(v, i);
            let piece = joined.subrange(i * len, (i + 1) * len);
            assert(piece == v.rows()[i].data);
            assert(piece[k - i * len] == joined[k]);
            assert(v.row(i).data[k - i * len] == v.data[k]);
        }
        assert(joined =~= target);
    }
}

/// The rows of a reversed value are the rows of the value, last to first.
pub proof fn rows_of_reversed(v: ValueView)
    ensures
        v.reverse().rows() == v.rows().reverse(),
        v.reverse().rest() == v.rest(),
        v.reverse().row_len() == v.row_len(),
        v.reverse().data.len() == v.data.len(),
{
    let n = v.row_count();
    let len = v.row_len();
    let r = v.reverse();
    join_rows(v);
    let back = v.rows().reverse();
    assert forall|j: int| 0 <= j < back.len() implies (#[trigger] back[j]).data.len() == len by {
        rows_fit(v, n - 1 - j);
    }
    join_uniform(back, len);
    assert(r.data.len() == v.data.len());
    assert(r.rest() =~= v.rest());
    assert forall|i: int| 0 <= i < n implies r.row(i) == back[i] by {
        rows_fit(v, i);
        rows_fit(r, i);
        assert(r.row(i).data =~= join(back).subrange(i * len, (i + 1) * len));
    }
    assert(r.rows() =~= back);
}

/// Reversing the rows of a value twice gives back the value.
pub proof fn reverse_twice(v: ValueView)
    ensures
        v.reverse().reverse() == v,
{
    rows_of_reversed(v);
    join_rows(v);
    let r = v.reverse();
    assert(r.rows().reverse() =~= v.rows());
    assert(r.reverse().data =~= v.data);
}

/// The first row of a reversed value is the last row of the value.
pub proof fn first_of_reversed(v: ValueView)
    ensures
        v.reverse().first() == v.last(),
{
    rows_of_reversed(v);
    if v.row_count() > 0 {
        assert(v.reverse().rows()[0] == v.rows()[v.row_count() - 1]);
    }
}

/// The last row of a reversed value is the first row of the value.
pub proof fn last_of_reversed(v: ValueView)
    ensures
        v.reverse().last() == v.first(),
{
    rows_of_reversed(v);
    if v.row_count() > 0 {
        assert(v.reverse().rows()[v.row_count() - 1] == v.rows()[0]);
    }
}

/// Negating the numbers of a value twice gives back the value.
pub proof fn negated_twice(v: ValueView)
    requires
        v.negated() is Ok,
    ensures
        v.negated()->Ok_0.negated() == Ok::<ValueView, crate::value::Fault>(v),
{
    let once = v.negated()->Ok_0;
    assert(once.all_numbers());
    assert forall|i: int| 0 <= i < once.data.len() implies fits(-(#[trigger] once.number_at(i))) by {
        assert(fits(-v.number_at(i)));
    }
    let twice = once.negated()->Ok_0;
    assert forall|i: int| 0 <= i < v.data.len() implies twice.data[i] == v.data[i] by {
        assert(v.data[i] is Num);
        assert(fits(-v.number_at(i)));
    }
    assert(twice.data =~= v.data);
}

/// Taking the numbers of a value from one twice gives back the value.
pub proof fn complemented_twice(v: ValueView)
    requires
        v.complemented() is Ok,
    ensures
        v.complemented()->Ok_0.complemented() == Ok::<ValueView, crate::value::Fault>(v),
{
    let once = v.complemented()->Ok_0;
    assert(once.all_numbers());
    assert forall|i: int| 0 <= i < once.data.len() implies fits(
        1 - (#[trigger] once.number_at(i)),
    ) by {
        assert(fits(1 - v.number_at(i)));
        assert(v.data[i] is Num);
    }
    let twice = once.complemented()->Ok_0;
    assert forall|i: int| 0 <= i < v.data.len() implies twice.data[i] == v.data[i] by {
        assert(v.data[i] is Num);
        assert(fits(1 - v.number_at(i)));
    }
    assert(twice.data =~= v.data);
}

/// There are no more nameable primitives than primitives.
pub proof fn nameable_bound(n: nat)
    ensures
        nameable(n).len() <= n,
    decreases n,
{
    if n > 0 {
        nameable_bound((n - 1) as nat);
    }
}

/// A new interpreter is well formed.
pub proof fn initial_wf(files: Seq<SourceFile>)
    ensures
        UiuaView::initial(files).wf(),
{
    reveal(UiuaView::wf);
    nameable_bound(Primitive::count());
    crate::model::invariants::initial_names_distinct();
    let s = UiuaView::initial(files);
    assert(dfn_frames(s.stack.call) == 0);
}

/// How many of some entered spans are those of primitives.
pub open spec fn pending_primitives(entered: Seq<(usize, Option<Primitive>)>) -> nat
    decreases entered.len(),
{
    if entered.len() == 0 {
        0
    } else {
        pending_primitives(entered.drop_last()) + if entered.last().1 is Some {
            1nat
        } else {
            0nat
        }
    }
}

/// A frame adds to the trace of an error one entry for each primitive
/// that it has entered and not left, and one for itself.
pub proof fn trace_grows(s: UiuaView, error: ErrorView, frame: FrameView)
    ensures
        s.trace_error(error, frame).trace_len() == error.trace_len() + pending_primitives(
            frame.spans,
        ) + 1,
{
    primitive_frames_len(s, frame.spans);
}

/// The primitives among some entered spans give one trace entry each.
proof fn primitive_frames_len(s: UiuaView, entered: Seq<(usize, Option<Primitive>)>)
    ensures
        primitive_frames(s.spans, entered).len() == pending_primitives(entered),
    decreases entered.len(),
{
    if entered.len() > 0 {
        primitive_frames_len(s, entered.drop_last());
    }
}

/// Giving up a frame hands back the error with a longer trace: longer
/// by the frame and the primitives it has entered and not left.
pub proof fn unwind_traces(s: UiuaView, error: ErrorView)
    requires
        s.stack.call.len() > 0,
    ensures
        s.unwind(error).1 matches Err(traced) && traced.trace_len() == error.trace_len()
            + pending_primitives(s.stack.call.last().spans) + 1,
{
    trace_grows(s, error, s.stack.call.last());
}

/// Where an instruction of the top frame fails, running the frame
/// hands back the error of the instruction with a longer trace: longer
/// by one entry for the frame that is unwound and one for each
/// primitive that the frame had entered and not left.
pub proof fn failing_frame_is_traced(s: UiuaView, d: nat, instrs: Seq<InstrView>, pc: nat)
    requires
        s.stack.call.len() > 0,
        pc < instrs.len(),
        s.step(d, instrs[pc as int]).1 is Err,
    ensures
        ({
            let (failed, r) = s.step(d, instrs[pc as int]);
            &&& failed.stack.call.len() > 0
            &&& s.run(d, instrs, pc).1 matches Err(traced) && traced.trace_len()
                == r->Err_0.trace_len() + pending_primitives(failed.stack.call.last().spans) + 1
        }),
{
    step_continues(s, d, instrs[pc as int]);
    let (failed, r) = s.step(d, instrs[pc as int]);
    unwind_traces(failed, r->Err_0);
}

/// Calling a value that is no scalar function changes nothing.
pub proof fn calling_a_value_is_identity(s: UiuaView, d: nat, call_span: usize)
    requires
        s.stack.value.len() > 0,
        s.stack.value.last().scalar_function() is None,
    ensures
        s.call_with_span(d, call_span) == (s, Ok::<(), ErrorView>(())),
        s.call(d) == (s, Ok::<(), ErrorView>(())),
{
    assert(s.stack.value.drop_last().push(s.stack.value.last()) =~= s.stack.value);
}

/// The table of inverses is symmetric: a primitive is the declared inverse
/// of its declared inverse.
pub proof fn inverse_is_symmetric(p: Primitive, q: Primitive)
    requires
        p.spec_inverse() == Some(q),
    ensures
        q.spec_inverse() == Some(p),
{
}

/// Two primitives that undo each other, emitted one after the other,
/// leave the buffer as it was: the second takes the first away again.
/// This holds unless the first of the two itself undoes the primitive
/// that the buffer ends in, and so is never appended.
pub proof fn inverse_pair_leaves_buffer(
    buf: Seq<InstrView>,
    p: Primitive,
    q: Primitive,
    at_p: usize,
    at_q: usize,
)
    requires
        annihilate(p, q),
        !(buf.len() > 0 && (buf.last() matches InstrView::Prim(top, _) && annihilate(top, p))),
    ensures
        emit(emit(buf, InstrView::Prim(p, at_p)), InstrView::Prim(q, at_q)) == buf,
{
    if p != Primitive::Noop {
        let once = emit(buf, InstrView::Prim(p, at_p));
        assert(once == buf.push(InstrView::Prim(p, at_p)));
        assert(once.drop_last() =~= buf);
    }
}

/// The function of one value that a primitive applies, for the
/// primitives that apply one.
pub open spec fn monadic_op(p: Primitive) -> Option<spec_fn(ValueView) -> Result<
    ValueView,
    Seq<char>,
>> {
    match p {
        Primitive::Neg => Some(|a: ValueView| negate(a)),
        Primitive::Not => Some(|a: ValueView| complement(a)),
        Primitive::Reverse => Some(|a: ValueView| reversed(a)),
        Primitive::First => Some(|a: ValueView| first_row(a)),
        Primitive::Last => Some(|a: ValueView| last_row(a)),
        _ => None,
    }
}

/// A primitive that applies a function of one value succeeds where the
/// stack holds a value that the function is defined on, and puts
/// what the function makes of it in its place.
pub proof fn monadic_step(s: UiuaView, d: nat, p: Primitive, span: usize)
    requires
        monadic_op(p) is Some,
    ensures
        s.step(d, InstrView::Prim(p, span)).1 is Ok <==> s.stack.value.len() > 0 && monadic_op(
            p,
        )->0(s.stack.value.last()) is Ok,
        s.step(d, InstrView::Prim(p, span)).1 is Ok ==> s.step(d, InstrView::Prim(p, span)).0
            == s.with_values(
            s.stack.value.drop_last().push(monadic_op(p)->0(s.stack.value.last())->Ok_0),
        ),
{
    let s1 = s.push_span(span, Some(p));
    push_span_pending(s, span, Some(p));
    let f = monadic_op(p)->0;
    assert(s1.run_prim(d, p) == s1.monadic(f));
    if s.stack.value.len() > 0 && f(s.stack.value.last()) is Ok {
        let v = f(s.stack.value.last())->Ok_0;
        let s2 = s1.with_values(s1.stack.value.drop_last().push(v));
        assert(s1.monadic(f) == (s2, Ok::<(), ErrorView>(())));
        let t = s.with_values(s.stack.value.drop_last().push(v));
        assert(s2.pop_span().stack.call =~= t.stack.call) by {
            assert(s1.pop_span() == s);
        }
        assert(s2.pop_span() == t);
    }
}

/// Where `Reverse` and then `First` succeed, `Last` alone gives the same state.
pub proof fn reverse_then_first_is_last(s: UiuaView, d: nat, at_reverse: usize, at_first: usize)
    requires
        s.step(d, InstrView::Prim(Primitive::Reverse, at_reverse)).1 is Ok,
        s.step(d, InstrView::Prim(Primitive::Reverse, at_reverse)).0.step(
            d,
            InstrView::Prim(Primitive::First, at_first),
        ).1 is Ok,
    ensures
        s.step(d, InstrView::Prim(Primitive::Last, at_reverse)) == s.step(
            d,
            InstrView::Prim(Primitive::Reverse, at_reverse),
        ).0.step(d, InstrView::Prim(Primitive::First, at_first)),
{
    monadic_step(s, d, Primitive::Reverse, at_reverse);
    let s1 = s.step(d, InstrView::Prim(Primitive::Reverse, at_reverse)).0;
    monadic_step(s1, d, Primitive::First, at_first);
    monadic_step(s, d, Primitive::Last, at_reverse);
    let v = s.stack.value.last();
    first_of_reversed(v);
    let s2 = s1.step(d, InstrView::Prim(Primitive::First, at_first)).0;
    let t = s.step(d, InstrView::Prim(Primitive::Last, at_reverse)).0;
    assert(s1.stack.value.last() == v.reverse());
    assert(s2.stack.value =~= t.stack.value);
}

/// Where `Reverse` and then `Last` succeed, `First` alone gives the same state.
pub proof fn reverse_then_last_is_first(s: UiuaView, d: nat, at_reverse: usize, at_last: usize)
    requires
        s.step(d, InstrView::Prim(Primitive::Reverse, at_reverse)).1 is Ok,
        s.step(d, InstrView::Prim(Primitive::Reverse, at_reverse)).0.step(
            d,
            InstrView::Prim(Primitive::Last, at_last),
        ).1 is Ok,
    ensures
        s.step(d, InstrView::Prim(Primitive::First, at_reverse)) == s.step(
            d,
            InstrView::Prim(Primitive::Reverse, at_reverse),
        ).0.step(d, InstrView::Prim(Primitive::Last, at_last)),
{
    monadic_step(s, d, Primitive::Reverse, at_reverse);
    let s1 = s.step(d, InstrView::Prim(Primitive::Reverse, at_reverse)).0;
    monadic_step(s1, d, Primitive::Last, at_last);
    monadic_step(s, d, Primitive::First, at_reverse);
    let v = s.stack.value.last();
    last_of_reversed(v);
    let s2 = s1.step(d, InstrView::Prim(Primitive::Last, at_last)).0;
    let t = s.step(d, InstrView::Prim(Primitive::First, at_reverse)).0;
    assert(s1.stack.value.last() == v.reverse());
    assert(s2.stack.value =~= t.stack.value);
}

/// `Noop` changes nothing: dropping it changes no run.
pub proof fn noop_changes_nothing(s: UiuaView, d: nat, span: usize)
    ensures
        s.step(d, InstrView::Prim(Primitive::Noop, span)) == (s, Ok::<(), ErrorView>(())),
{
    push_span_pending(s, span, Some(Primitive::Noop));
}

/// `Flip` succeeds where the stack holds two values, and exchanges them.
pub proof fn flip_step(s: UiuaView, d: nat, span: usize)
    ensures
        s.step(d, InstrView::Prim(Primitive::Flip, span)).1 is Ok <==> s.stack.value.len() >= 2,
        s.stack.value.len() >= 2 ==> s.step(d, InstrView::Prim(Primitive::Flip, span)).0
            == s.with_values(
            s.stack.value.drop_last().drop_last().push(s.stack.value.last()).push(
                s.stack.value[s.stack.value.len() - 2],
            ),
        ),
{
    let s1 = s.push_span(span, Some(Primitive::Flip));
    push_span_pending(s, span, Some(Primitive::Flip));
    assert(s1.run_prim(d, Primitive::Flip) == s1.flip());
    if s.stack.value.len() >= 2 {
        let a = s.stack.value.last();
        let b = s.stack.value[s.stack.value.len() - 2];
        let s2 = s1.with_values(s1.stack.value.drop_last().drop_last().push(a).push(b));
        assert(s1.flip() == (s2, Ok::<(), ErrorView>(())));
        let t = s.with_values(s.stack.value.drop_last().drop_last().push(a).push(b));
        assert(s2.pop_span().stack.call =~= t.stack.call) by {
            assert(s1.pop_span() == s);
        }
        assert(s2.pop_span() == t);
    }
}

/// Where two primitives that undo each other succeed one after the
/// other, they leave the state as it was: dropping both changes no run
/// in which they succeed.
pub proof fn inverse_pair_changes_nothing(
    s: UiuaView,
    d: nat,
    p: Primitive,
    q: Primitive,
    at_p: usize,
    at_q: usize,
)
    requires
        annihilate(p, q),
        s.step(d, InstrView::Prim(p, at_p)).1 is Ok,
        s.step(d, InstrView::Prim(p, at_p)).0.step(d, InstrView::Prim(q, at_q)).1 is Ok,
    ensures
        s.step(d, InstrView::Prim(p, at_p)).0.step(d, InstrView::Prim(q, at_q)).0 == s,
{
    let s1 = s.step(d, InstrView::Prim(p, at_p)).0;
    let s2 = s1.step(d, InstrView::Prim(q, at_q)).0;
    match p {
        Primitive::Noop => {
            noop_changes_nothing(s, d, at_p);
            noop_changes_nothing(s, d, at_q);
        },
        Primitive::Flip => {
            flip_step(s, d, at_p);
            flip_step(s1, d, at_q);
            assert(s2.stack.value =~= s.stack.value);
        },
        Primitive::Neg => {
            monadic_step(s, d, p, at_p);
            monadic_step(s1, d, q, at_q);
            negated_twice(s.stack.value.last());
            assert(s2.stack.value =~= s.stack.value);
        },
        Primitive::Not => {
            monadic_step(s, d, p, at_p);
            monadic_step(s1, d, q, at_q);
            complemented_twice(s.stack.value.last());
            assert(s2.stack.value =~= s.stack.value);
        },
        Primitive::Reverse => {
            monadic_step(s, d, p, at_p);
            monadic_step(s1, d, q, at_q);
            reverse_twice(s.stack.value.last());
            assert(s2.stack.value =~= s.stack.value);
        },
        _ => {},
    }
}

/// A cached import is found once its scope is kept.
proof fn find_import_after_push(
    imports: Seq<(Seq<char>, ScopeView)>,
    path: Seq<char>,
    scope: ScopeView,
    from: int,
)
    requires
        0 <= from <= imports.len(),
    ensures
        find_import(imports.push((path, scope)), path, from) is Some,
    decreases imports.len() - from,
{
    if from < imports.len() {
        find_import_after_push(imports, path, scope, from + 1);
    }
}

/// After a source unit has been imported, importing it again only pushes
/// the bindings of the scope that was kept for it: nothing runs again.
pub proof fn import_again_pushes_kept_scope(
    s: UiuaView,
    d: nat,
    source: Parsed,
    path: Seq<char>,
    again_d: nat,
    again_source: Parsed,
)
    requires
        s.import(d, source, path).1 is Ok,
    ensures
        ({
            let t = s.import(d, source, path).0;
            let kept = find_import(t.imports, path, 0);
            &&& kept is Some
            &&& t.import(again_d, again_source, path) == (
                t.push_scope_imports(t.imports[kept->0].1),
                Ok::<(), ErrorView>(()),
            )
        }),
{
    import_continues(s, d, source, path);
    let t = s.import(d, source, path).0;
    assert(find_path(s.current_imports, path, 0) is None);
    match find_import(s.imports, path, 0) {
        Some(i) => {},
        None => {
            load_in_scope_restores(s, d, source, path);
            let (s1, r) = s.load_in_scope(d, source, path);
            let scope = r->Ok_0;
            find_import_after_push(s1.imports, path, scope, 0);
        },
    }
}

/// What some instructions make of a state when they run one after the
/// other, up to the first error.
pub open spec fn steps(s: UiuaView, d: nat, instrs: Seq<InstrView>) -> (UiuaView, Result<
    (),
    ErrorView,
>)
    decreases instrs.len(),
{
    if instrs.len() == 0 {
        (s, Ok(()))
    } else {
        let (t, r) = steps(s, d, instrs.drop_last());
        match r {
            Err(e) => (t, Err(e)),
            Ok(_) => t.step(d, instrs.last()),
        }
    }
}

/// The list of two scalars with one element each has them as its rows.
pub proof fn rows_of_pair(at_zero: ValueView, at_one: ValueView)
    requires
        at_zero.shape.len() == 0,
        at_one.shape.len() == 0,
        at_zero.data.len() == 1,
        at_one.data.len() == 1,
    ensures
        ValueView::stack(seq![at_zero, at_one]) matches Some(list) && list.pick(0) == Some(at_zero)
            && list.pick(1) == Some(at_one) && list.shape == seq![2usize],
{
    reveal_with_fuel(join, 3);
    let rows = seq![at_zero, at_one];
    assert(at_zero.shape =~= at_one.shape);
    assert(ValueView::conforming(rows));
    let list = ValueView::stack(rows)->0;
    assert(rows.drop_last() =~= seq![at_zero]);
    assert(seq![at_zero].drop_last() =~= Seq::<ValueView>::empty());
    assert(join(rows) =~= at_zero.data + at_one.data);
    assert(list.shape =~= seq![2usize]);
    assert(list.row_shape() =~= at_zero.shape);
    assert(list.row_len() == 1);
    assert(list.row(0).data =~= at_zero.data);
    assert(list.row(1).data =~= at_one.data);
}

/// `Pick` succeeds where the stack holds an index and, beneath it, an
/// array with a row at that index, and puts the row in their place.
pub proof fn pick_step(s: UiuaView, d: nat, span: usize)
    requires
        s.stack.value.len() >= 2,
        picked(s.stack.value.last(), s.stack.value[s.stack.value.len() - 2]) is Ok,
    ensures
        s.step(d, InstrView::Prim(Primitive::Pick, span)) == (
            s.with_values(
                s.stack.value.drop_last().drop_last().push(
                    picked(s.stack.value.last(), s.stack.value[s.stack.value.len() - 2])->Ok_0,
                ),
            ),
            Ok::<(), ErrorView>(()),
        ),
{
    let s1 = s.push_span(span, Some(Primitive::Pick));
    push_span_pending(s, span, Some(Primitive::Pick));
    let f = |a: ValueView, b: ValueView| picked(a, b);
    assert(s1.run_prim(d, Primitive::Pick) == s1.dyadic(f));
    let index = s.stack.value.last();
    let array = s.stack.value[s.stack.value.len() - 2];
    let row = picked(index, array)->Ok_0;
    let s2 = s1.with_values(s1.stack.value.drop_last().drop_last().push(row));
    assert(s1.dyadic(f) == (s2, Ok::<(), ErrorView>(())));
    let t = s.with_values(s.stack.value.drop_last().drop_last().push(row));
    assert(s2.pop_span().stack.call =~= t.stack.call) by {
        assert(s1.pop_span() == s);
    }
    assert(s2.pop_span() == t);
}

/// The first four instructions of a choice put the list of the two
/// functions on the stack, the function pushed second as its first row.
pub proof fn choice_builds_list(
    s: UiuaView,
    d: nat,
    first: ValueView,
    second: ValueView,
    at_end: usize,
)
    requires
        s.stack.value.len() < usize::MAX,
        ValueView::stack(seq![second, first]) is Some,
    ensures
        steps(
            s,
            d,
            seq![
                InstrView::BeginArray,
                InstrView::Push(first),
                InstrView::Push(second),
                InstrView::EndArray(at_end),
            ],
        ) == (s.push(ValueView::stack(seq![second, first])->0), Ok::<(), ErrorView>(())),
{
    let i0 = InstrView::BeginArray;
    let i1 = InstrView::Push(first);
    let i2 = InstrView::Push(second);
    let i3 = InstrView::EndArray(at_end);
    let ok = Ok::<(), ErrorView>(());
    let height = s.stack.value.len();
    let none = Seq::<InstrView>::empty();
    assert(steps(s, d, none) == (s, ok));
    steps_push(s, d, none, i0);
    assert(none.push(i0) =~= seq![i0]);
    let s1 = s.begin_array();
    assert(steps(s, d, seq![i0]) == (s1, ok));
    steps_push(s, d, seq![i0], i1);
    assert(seq![i0].push(i1) =~= seq![i0, i1]);
    let s2 = s1.push(first);
    assert(steps(s, d, seq![i0, i1]) == (s2, ok));
    steps_push(s, d, seq![i0, i1], i2);
    assert(seq![i0, i1].push(i2) =~= seq![i0, i1, i2]);
    let s3 = s2.push(second);
    assert(steps(s, d, seq![i0, i1, i2]) == (s3, ok));
    steps_push(s, d, seq![i0, i1, i2], i3);
    assert(seq![i0, i1, i2].push(i3) =~= seq![i0, i1, i2, i3]);
    let list = ValueView::stack(seq![second, first])->0;
    assert(s3.end_array(at_end) == (s.push(list), ok)) by {
        assert(s3.stack.array.last() == height);
        assert(s3.stack.value.subrange(height as int, s3.stack.value.len() as int).reverse()
            =~= seq![second, first]);
        let s3a = s3.with_stack(ScopeView { array: s3.stack.array.drop_last(), ..s3.stack });
        let s3b = s3a.with_values(s3a.stack.value.subrange(0, height as int));
        assert(s3b.stack.value =~= s.stack.value);
        assert(s3b.stack.array =~= s.stack.array);
        assert(s3b == s);
        push_span_pending(s, at_end, None);
    }
}

/// What the instructions of a choice make of a state before the
/// call: with a condition of zero or one on top of the stack, they
/// put in its place the row of the list at that index. The list holds
/// its items last pushed first, so the row at zero is the function that
/// was pushed second, and the row at one the function that was pushed first.
pub proof fn choice_picks_row(
    s: UiuaView,
    d: nat,
    first: ValueView,
    second: ValueView,
    at_end: usize,
    at_flip: usize,
    at_pick: usize,
)
    requires
        s.stack.value.len() > 0,
        s.stack.value.len() < usize::MAX,
        s.stack.value.last().as_nat() is Some,
        s.stack.value.last().as_nat()->0 < 2,
        first.scalar_function() is Some,
        second.scalar_function() is Some,
        first.data.len() == 1,
        second.data.len() == 1,
    ensures
        steps(
            s,
            d,
            seq![
                InstrView::BeginArray,
                InstrView::Push(first),
                InstrView::Push(second),
                InstrView::EndArray(at_end),
                InstrView::Prim(Primitive::Flip, at_flip),
                InstrView::Prim(Primitive::Pick, at_pick),
            ],
        ) == (
            s.with_values(
                s.stack.value.drop_last().push(
                    if s.stack.value.last().as_nat()->0 == 0 {
                        second
                    } else {
                        first
                    },
                ),
            ),
            Ok::<(), ErrorView>(()),
        ),
{
    let i0 = InstrView::BeginArray;
    let i1 = InstrView::Push(first);
    let i2 = InstrView::Push(second);
    let i3 = InstrView::EndArray(at_end);
    let i4 = InstrView::Prim(Primitive::Flip, at_flip);
    let i5 = InstrView::Prim(Primitive::Pick, at_pick);
    let ok = Ok::<(), ErrorView>(());
    let c = s.stack.value.last();
    let n = c.as_nat()->0;
    let rest = s.stack.value.drop_last();
    rows_of_pair(second, first);
    let list = ValueView::stack(seq![second, first])->0;
    choice_builds_list(s, d, first, second, at_end);
    let four = seq![i0, i1, i2, i3];
    let s4 = s.push(list);
    steps_push(s, d, four, i4);
    assert(four.push(i4) =~= seq![i0, i1, i2, i3, i4]);
    let s5 = s.with_values(rest.push(list).push(c));
    assert(s4.step(d, i4) == (s5, ok)) by {
        flip_step(s4, d, at_flip);
        assert(s4.stack.value.drop_last().drop_last() =~= rest);
        assert(s4.stack.value[s4.stack.value.len() - 2] == c);
        assert(s4.with_values(rest.push(list).push(c)) == s5);
    }
    let five = seq![i0, i1, i2, i3, i4];
    steps_push(s, d, five, i5);
    assert(five.push(i5) =~= seq![i0, i1, i2, i3, i4, i5]);
    let row = if n == 0 {
        second
    } else {
        first
    };
    assert(s5.step(d, i5) == (s.with_values(rest.push(row)), ok)) by {
        assert(picked(c, list) == Ok::<ValueView, Seq<char>>(row));
        pick_step(s5, d, at_pick);
        assert(s5.stack.value.drop_last().drop_last() =~= rest);
        assert(s5.with_values(rest.push(row)) == s.with_values(rest.push(row)));
    }
}

/// Running some instructions and then one more is running the one
/// more in the state that the others leave.
pub proof fn steps_push(s: UiuaView, d: nat, instrs: Seq<InstrView>, instr: InstrView)
    ensures
        steps(s, d, instrs.push(instr)) == (match steps(s, d, instrs).1 {
            Err(e) => (steps(s, d, instrs).0, Err::<(), ErrorView>(e)),
            Ok(_) => steps(s, d, instrs).0.step(d, instr),
        }),
{
    assert(instrs.push(instr).drop_last() =~= instrs);
}

/// The rewrites that the compiler applies when it emits an instruction,
/// but for the conditional, keep what the instructions do: where the
/// instructions as written run without error, the instructions as
/// emitted run to the same state.
pub proof fn emit_keeps_meaning(s: UiuaView, d: nat, buf: Seq<InstrView>, instr: InstrView)
    requires
        !completes_choice(buf, instr),
        steps(s, d, buf.push(instr)).1 is Ok,
    ensures
        steps(s, d, emit(buf, instr)) == steps(s, d, buf.push(instr)),
{
    steps_push(s, d, buf, instr);
    let n = buf.len() as int;
    let written = steps(s, d, buf.push(instr));
    let (t1, r1) = steps(s, d, buf);
    let ok = Ok::<(), ErrorView>(());
    assert(r1 == ok) by {
        assert(r1 is Ok);
        assert(r1->Ok_0 == ());
    }
    assert(written == t1.step(d, instr));
    assert(written.1 == ok) by {
        assert(written.1->Ok_0 == ());
    }
    match instr {
        InstrView::Prim(new, at_new) => {
            if n > 0 && buf[n - 1] is Prim {
                let top = buf[n - 1]->Prim_0;
                let at_top = buf[n - 1]->Prim_1;
                let before = buf.drop_last();
                assert(before.push(buf[n - 1]) =~= buf);
                assert(buf[n - 1] == InstrView::Prim(top, at_top));
                steps_push(s, d, before, buf[n - 1]);
                let (t, r) = steps(s, d, before);
                assert(r == ok) by {
                    assert(r is Ok);
                    assert(r->Ok_0 == ());
                }
                assert((t1, r1) == t.step(d, InstrView::Prim(top, at_top)));
                if top == Primitive::Reverse && new == Primitive::First {
                    steps_push(s, d, before, InstrView::Prim(Primitive::Last, at_top));
                    reverse_then_first_is_last(t, d, at_top, at_new);
                    assert(emit(buf, instr) == before.push(InstrView::Prim(Primitive::Last, at_top)));
                } else if top == Primitive::Reverse && new == Primitive::Last {
                    steps_push(s, d, before, InstrView::Prim(Primitive::First, at_top));
                    reverse_then_last_is_first(t, d, at_top, at_new);
                    assert(emit(buf, instr) == before.push(InstrView::Prim(Primitive::First, at_top)));
                } else if annihilate(top, new) {
                    inverse_pair_changes_nothing(t, d, top, new, at_top, at_new);
                    assert(emit(buf, instr) == before);
                    assert(written.0 == t);
                    assert(written == (t, r));
                } else if new == Primitive::Noop {
                    noop_changes_nothing(t1, d, at_new);
                    assert(emit(buf, instr) == buf);
                } else {
                    assert(emit(buf, instr) == buf.push(instr));
                }
            } else if new == Primitive::Noop {
                noop_changes_nothing(t1, d, at_new);
                assert(emit(buf, instr) == buf);
                assert(written == (t1, r1));
            } else {
                assert(emit(buf, instr) == buf.push(instr));
            }
        },
        _ => {
            assert(emit(buf, instr) == buf.push(instr));
        },
    }
}

} // verus!
