use std::rc::Rc;

use uiua::ast::{Binding, Func, Item, Modified, Parsed, Word};
use uiua::compile::emit_into;
use uiua::error::UiuaError;
use uiua::function::{Function, FunctionId, Instr};
use uiua::machine::Uiua;
use uiua::primitive::Primitive;
use uiua::span::{Sp, Span};
use uiua::value::{Elem, Value};

fn at(start: usize) -> Span {
    Span::Code { start, end: start + 1 }
}

fn sp(value: Word, start: usize) -> Sp<Word> {
    Sp { value, span: at(start) }
}

fn number(text: &str, start: usize) -> Sp<Word> {
    sp(Word::Number(text.to_string()), start)
}

fn prim(p: Primitive, start: usize) -> Sp<Word> {
    sp(Word::Primitive(p), start)
}

fn ident(name: &str, start: usize) -> Sp<Word> {
    sp(Word::Ident(name.to_string()), start)
}

fn func(body: Vec<Sp<Word>>, start: usize) -> Sp<Word> {
    sp(Word::Func(Func { id: FunctionId::Anonymous(at(start)), body }), start)
}

fn dfn(body: Vec<Sp<Word>>, start: usize) -> Sp<Word> {
    sp(Word::Dfn(Func { id: FunctionId::Anonymous(at(start)), body }), start)
}

fn push(n: i64) -> Instr {
    Instr::Push(Rc::new(Value::from_number(n)))
}

fn pusher(n: i64) -> Rc<Function> {
    Rc::new(Function { id: FunctionId::Main, instrs: vec![push(n)], dfn_args: None })
}

fn push_function(f: &Rc<Function>) -> Instr {
    Instr::Push(Rc::new(Value::from_function(f.clone())))
}

fn compile(words: Vec<Sp<Word>>) -> Vec<Instr> {
    Uiua::with_stdio().compile_words(&words).unwrap()
}

fn function_of(instr: &Instr) -> Rc<Function> {
    match instr {
        Instr::Push(v) => v.scalar_function().expect("a scalar function"),
        other => panic!("not a push: {:?}", other),
    }
}

fn bind(vm: &mut Uiua, name: &str, words: Vec<Sp<Word>>) {
    let binding = Binding { name: Sp { value: name.to_string(), span: at(0) }, words };
    vm.load_str(&Parsed { items: vec![Item::Binding(binding, None)], errors: vec![] }).unwrap();
}

#[test]
fn words_are_emitted_last_to_first() {
    let instrs = compile(vec![prim(Primitive::Add, 0), number("1", 2), number("2", 4)]);
    // the span table starts with the builtin span, so the first span added has index 1
    assert_eq!(instrs, vec![push(2), push(1), Instr::Prim(Primitive::Add, 1)]);
}

#[test]
fn literals_are_pushed() {
    let instrs = compile(vec![
        sp(Word::String("hi".to_string()), 0),
        sp(Word::Char('c'), 5),
        number("-3", 9),
        sp(Word::Spaces, 11),
    ]);
    assert_eq!(
        instrs,
        vec![
            push(-3),
            Instr::Push(Rc::new(Value::from_char('c'))),
            Instr::Push(Rc::new(Value::from_text("hi"))),
        ]
    );
}

#[test]
fn a_numeral_that_is_none_fails_at_its_span() {
    let mut vm = Uiua::with_stdio();
    let e = vm.compile_words(&vec![number("1x", 3)]).unwrap_err();
    assert_eq!(e, UiuaError::Run(Sp { value: "invalid number 1x".to_string(), span: at(3) }));
}

#[test]
fn an_unknown_identifier_fails_at_its_span() {
    let mut vm = Uiua::with_stdio();
    let e = vm.compile_words(&vec![ident("zz", 4)]).unwrap_err();
    assert_eq!(e, UiuaError::Run(Sp { value: "unknown identifier zz".to_string(), span: at(4) }));
}

#[test]
fn a_letter_outside_of_a_dfn_is_unknown() {
    let mut vm = Uiua::with_stdio();
    let e = vm.compile_words(&vec![ident("a", 0)]).unwrap_err();
    assert_eq!(e, UiuaError::Run(Sp { value: "unknown identifier a".to_string(), span: at(0) }));
}

#[test]
fn a_strand_pushes_its_items_as_values() {
    let instrs = compile(vec![sp(
        Word::Strand(vec![prim(Primitive::Neg, 0), prim(Primitive::Not, 2)]),
        0,
    )]);
    assert_eq!(instrs.len(), 4);
    assert_eq!(instrs[0], Instr::BeginArray);
    let not = function_of(&instrs[1]);
    assert_eq!(not.id, FunctionId::Primitive(Primitive::Not));
    assert_eq!(not.instrs, vec![Instr::Prim(Primitive::Not, 1)]);
    assert_eq!(not.dfn_args, None);
    let neg = function_of(&instrs[2]);
    assert_eq!(neg.instrs, vec![Instr::Prim(Primitive::Neg, 2)]);
    assert_eq!(instrs[3], Instr::EndArray(3));
}

#[test]
fn an_array_runs_its_items() {
    let instrs = compile(vec![sp(Word::Array(vec![prim(Primitive::Neg, 1), number("1", 3)]), 0)]);
    assert_eq!(
        instrs,
        vec![Instr::BeginArray, push(1), Instr::Prim(Primitive::Neg, 1), Instr::EndArray(2)]
    );
}

#[test]
fn a_function_block_becomes_a_function_value() {
    let instrs = compile(vec![func(vec![prim(Primitive::Add, 1), number("1", 3)], 0)]);
    assert_eq!(instrs.len(), 1);
    let f = function_of(&instrs[0]);
    assert_eq!(f.id, FunctionId::Anonymous(at(0)));
    assert_eq!(f.instrs, vec![push(1), Instr::Prim(Primitive::Add, 1)]);
    assert_eq!(f.dfn_args, None);
}

#[test]
fn a_block_that_only_calls_a_function_is_that_function() {
    let mut vm = Uiua::with_stdio();
    bind(&mut vm, "Inc", vec![prim(Primitive::Add, 0), number("1", 2)]);
    let plain = vm.compile_words(&vec![ident("Inc", 0)]).unwrap();
    assert_eq!(plain.len(), 2);
    assert!(matches!(plain[1], Instr::Call(_)));
    let inc = function_of(&plain[0]);
    assert_eq!(inc.id, FunctionId::Named("Inc".to_string()));
    // (Inc) is Inc itself, not a function that calls Inc
    let block = vm.compile_words(&vec![func(vec![ident("Inc", 1)], 0)]).unwrap();
    assert_eq!(block.len(), 1);
    assert!(Rc::ptr_eq(&function_of(&block[0]), &inc));
}

#[test]
fn a_bound_value_is_pushed_and_not_called() {
    let mut vm = Uiua::with_stdio();
    bind(&mut vm, "x", vec![number("5", 0)]);
    let instrs = vm.compile_words(&vec![ident("x", 0)]).unwrap();
    assert_eq!(instrs, vec![push(5)]);
}

#[test]
fn a_bound_function_in_a_strand_is_not_called() {
    let mut vm = Uiua::with_stdio();
    bind(&mut vm, "Inc", vec![prim(Primitive::Add, 0), number("1", 2)]);
    let instrs =
        vm.compile_words(&vec![sp(Word::Strand(vec![ident("Inc", 0), ident("Inc", 4)]), 0)]).unwrap();
    assert_eq!(instrs.len(), 4);
    assert!(!instrs.iter().any(|i| matches!(i, Instr::Call(_))));
}

#[test]
fn a_run_of_abbreviations_compiles_as_its_primitives() {
    // "revfir" is reverse then first in source order, so first is emitted before reverse
    let instrs = compile(vec![ident("negnot", 0)]);
    assert_eq!(instrs, vec![Instr::Prim(Primitive::Not, 1), Instr::Prim(Primitive::Neg, 2)]);
}

#[test]
fn a_dfn_counts_the_arguments_it_names() {
    let instrs = compile(vec![dfn(vec![ident("c", 1), ident("a", 3)], 0)]);
    assert_eq!(instrs.len(), 2);
    let f = function_of(&instrs[0]);
    assert_eq!(f.dfn_args, Some(3));
    assert_eq!(f.instrs, vec![Instr::DfnVal(0), Instr::DfnVal(2)]);
    assert!(matches!(instrs[1], Instr::Call(_)));
}

#[test]
fn a_dfn_that_names_no_argument_takes_none() {
    let instrs = compile(vec![dfn(vec![number("1", 1)], 0)]);
    assert_eq!(function_of(&instrs[0]).dfn_args, Some(0));
}

#[test]
fn the_last_letter_is_the_twenty_sixth_argument() {
    let instrs = compile(vec![dfn(vec![ident("z", 1)], 0)]);
    let f = function_of(&instrs[0]);
    assert_eq!(f.dfn_args, Some(26));
    assert_eq!(f.instrs, vec![Instr::DfnVal(25)]);
}

#[test]
fn a_dfn_in_a_strand_is_not_called() {
    let instrs = compile(vec![sp(Word::Strand(vec![dfn(vec![ident("a", 1)], 0)]), 0)]);
    assert_eq!(instrs.len(), 3);
    assert_eq!(function_of(&instrs[1]).dfn_args, Some(1));
}

#[test]
fn a_modifier_wraps_its_operands_and_itself() {
    let modified = sp(
        Word::Modified(Box::new(Modified {
            modifier: Sp { value: Primitive::Repeat, span: at(0) },
            words: vec![prim(Primitive::Neg, 1)],
        })),
        0,
    );
    let instrs = compile(vec![modified]);
    assert_eq!(instrs.len(), 2);
    let f = function_of(&instrs[0]);
    assert_eq!(f.id, FunctionId::Anonymous(at(0)));
    assert_eq!(f.instrs.len(), 2);
    assert_eq!(function_of(&f.instrs[0]).instrs, vec![Instr::Prim(Primitive::Neg, 1)]);
    assert_eq!(f.instrs[1], Instr::Prim(Primitive::Repeat, 2));
    assert_eq!(instrs[1], Instr::Call(3));
}

#[test]
fn reverse_then_first_becomes_last() {
    // source order "first reverse": reverse is emitted first
    let instrs = compile(vec![prim(Primitive::First, 0), prim(Primitive::Reverse, 2)]);
    assert_eq!(instrs, vec![Instr::Prim(Primitive::Last, 1)]);
}

#[test]
fn reverse_then_last_becomes_first() {
    let instrs = compile(vec![prim(Primitive::Last, 0), prim(Primitive::Reverse, 2)]);
    assert_eq!(instrs, vec![Instr::Prim(Primitive::First, 1)]);
}

#[test]
fn a_primitive_and_its_inverse_leave_nothing() {
    for p in [
        Primitive::Neg,
        Primitive::Not,
        Primitive::Flip,
        Primitive::Reverse,
        Primitive::Noop,
    ] {
        let instrs = compile(vec![prim(p, 0), prim(p, 2)]);
        assert_eq!(instrs, vec![], "{:?}", p);
        let mut buf = vec![push(1)];
        emit_into(&mut buf, Instr::Prim(p, 1));
        emit_into(&mut buf, Instr::Prim(p.inverse().unwrap(), 2));
        assert_eq!(buf, vec![push(1)], "{:?}", p);
    }
}

#[test]
fn save_and_load_do_not_annihilate() {
    let instrs = compile(vec![prim(Primitive::Load, 0), prim(Primitive::Save, 2)]);
    assert_eq!(instrs, vec![Instr::Prim(Primitive::Save, 1), Instr::Prim(Primitive::Load, 2)]);
}

#[test]
fn noop_is_never_emitted() {
    assert_eq!(compile(vec![prim(Primitive::Noop, 0)]), vec![]);
    let instrs = compile(vec![prim(Primitive::Noop, 0), prim(Primitive::Add, 2)]);
    assert_eq!(instrs, vec![Instr::Prim(Primitive::Add, 1)]);
    let instrs = compile(vec![prim(Primitive::Noop, 0), number("1", 2)]);
    assert_eq!(instrs, vec![push(1)]);
}

#[test]
fn rewrites_look_at_the_end_of_the_buffer_only() {
    let mut buf = Vec::new();
    emit_into(&mut buf, Instr::Prim(Primitive::Neg, 1));
    emit_into(&mut buf, push(1));
    emit_into(&mut buf, Instr::Prim(Primitive::Neg, 2));
    assert_eq!(buf, vec![Instr::Prim(Primitive::Neg, 1), push(1), Instr::Prim(Primitive::Neg, 2)]);
}

fn choice(first: &Rc<Function>, second: &Rc<Function>) -> Vec<Instr> {
    vec![
        Instr::BeginArray,
        push_function(first),
        push_function(second),
        Instr::EndArray(1),
        Instr::Prim(Primitive::Flip, 2),
        Instr::Prim(Primitive::Pick, 3),
    ]
}

#[test]
fn a_choice_and_a_call_fuse_into_if() {
    let first = pusher(20);
    let second = pusher(10);
    let mut buf = vec![push(1)];
    buf.extend(choice(&first, &second));
    emit_into(&mut buf, Instr::Prim(Primitive::Call, 4));
    assert_eq!(buf.len(), 2);
    assert_eq!(buf[0], push(1));
    match &buf[1] {
        Instr::If(if_true, if_false) => {
            assert!(Rc::ptr_eq(if_true, &second));
            assert!(Rc::ptr_eq(if_false, &first));
        },
        other => panic!("not fused: {:?}", other),
    }
}

#[test]
fn a_choice_is_fused_by_the_call_primitive_only() {
    let first = pusher(20);
    let second = pusher(10);
    let mut buf = choice(&first, &second);
    emit_into(&mut buf, Instr::Call(4));
    assert_eq!(buf.len(), 7);
    assert_eq!(buf[6], Instr::Call(4));
    let mut buf = choice(&first, &second);
    emit_into(&mut buf, Instr::Prim(Primitive::Dup, 4));
    assert_eq!(buf.len(), 7);
}

#[test]
fn a_choice_between_other_values_is_not_fused() {
    let f = pusher(1);
    let mut buf = vec![
        Instr::BeginArray,
        push_function(&f),
        push(2),
        Instr::EndArray(1),
        Instr::Prim(Primitive::Flip, 2),
        Instr::Prim(Primitive::Pick, 3),
    ];
    emit_into(&mut buf, Instr::Prim(Primitive::Call, 4));
    assert_eq!(buf.len(), 7);
    assert_eq!(buf[6], Instr::Prim(Primitive::Call, 4));
    // a list of functions is no scalar function
    let both = Instr::Push(Rc::new(Value::from_functions(vec![f.clone(), f.clone()])));
    let mut buf = vec![
        Instr::BeginArray,
        both,
        push_function(&f),
        Instr::EndArray(1),
        Instr::Prim(Primitive::Flip, 2),
        Instr::Prim(Primitive::Pick, 3),
    ];
    emit_into(&mut buf, Instr::Prim(Primitive::Call, 4));
    assert_eq!(buf.len(), 7);
}

#[test]
fn a_choice_of_three_is_not_fused() {
    let f = pusher(1);
    let mut buf = vec![
        Instr::BeginArray,
        push_function(&f),
        push_function(&f),
        push_function(&f),
        Instr::EndArray(1),
        Instr::Prim(Primitive::Flip, 2),
        Instr::Prim(Primitive::Pick, 3),
    ];
    emit_into(&mut buf, Instr::Prim(Primitive::Call, 4));
    assert_eq!(buf.len(), 8);
}

#[test]
fn compiling_changes_neither_stack_nor_globals() {
    let mut vm = Uiua::with_stdio();
    vm.push(Value::from_number(1));
    let globals = vm.globals_len();
    vm.compile_words(&vec![prim(Primitive::Add, 0), number("1", 2)]).unwrap();
    assert_eq!(vm.stack_size(), 1);
    assert_eq!(vm.globals_len(), globals);
    let _ = vm.compile_words(&vec![ident("nope", 0)]).unwrap_err();
    assert_eq!(vm.stack_size(), 1);
    assert_eq!(vm.globals_len(), globals);
    assert_eq!(vm.clone_stack()[0].data, vec![Elem::Num(1)]);
}
