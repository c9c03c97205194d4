use std::rc::Rc;

use uiua::ast::{Binding, Func, Item, Modified, Parsed, Word};
use uiua::error::UiuaError;
use uiua::function::{FunctionId, Instr};
use uiua::machine::{IoBackend, SourceFile, Uiua};
use uiua::primitive::{IoOp, Primitive};
use uiua::span::{Sp, Span};
use uiua::value::{Elem, Value};

fn at(start: usize) -> Span {
    Span::Code { start, end: start + 1 }
}

fn sp(value: Word, start: usize) -> Sp<Word> {
    Sp { value, span: at(start) }
}

fn number(text: &str, start: usize) -> Sp<Word> {
    sp(Word::Number(text.to_string()), start)
}

fn prim(p: Primitive, start: usize) -> Sp<Word> {
    sp(Word::Primitive(p), start)
}

fn ident(name: &str, start: usize) -> Sp<Word> {
    sp(Word::Ident(name.to_string()), start)
}

fn func(body: Vec<Sp<Word>>, start: usize) -> Sp<Word> {
    sp(Word::Func(Func { id: FunctionId::Anonymous(at(start)), body }), start)
}

fn dfn(body: Vec<Sp<Word>>, start: usize) -> Sp<Word> {
    sp(Word::Dfn(Func { id: FunctionId::Anonymous(at(start)), body }), start)
}

fn line(words: Vec<Sp<Word>>) -> Parsed {
    Parsed { items: vec![Item::Words(words, None)], errors: vec![] }
}

fn numbers(stack: &[Rc<Value>]) -> Vec<Vec<i64>> {
    stack
        .iter()
        .map(|v| {
            v.data
                .iter()
                .map(|e| match e {
                    Elem::Num(n) => *n,
                    other => panic!("not a number: {:?}", other),
                })
                .collect()
        })
        .collect()
}

fn message(e: &UiuaError) -> String {
    match e {
        UiuaError::Run(m) => m.value.clone(),
        UiuaError::Traced { error, .. } => message(error),
        other => panic!("no message: {:?}", other),
    }
}

#[test]
fn literal_number_is_pushed() {
    let mut vm = Uiua::with_stdio();
    vm.load_str(&line(vec![number("42", 0)])).unwrap();
    assert_eq!(numbers(&vm.clone_stack()), vec![vec![42]]);
}

#[test]
fn add_takes_two_numbers() {
    let mut vm = Uiua::with_stdio();
    let words = vec![prim(Primitive::Add, 0), number("1", 2), number("2", 4)];
    vm.load_str(&line(words)).unwrap();
    assert_eq!(numbers(&vm.clone_stack()), vec![vec![3]]);
}

/// `Call Pick Flip [(10) (20)] c`
fn choice_line(condition: &str) -> Vec<Sp<Word>> {
    vec![
        prim(Primitive::Call, 0),
        prim(Primitive::Pick, 1),
        prim(Primitive::Flip, 2),
        sp(
            Word::Array(vec![func(vec![number("10", 4)], 4), func(vec![number("20", 6)], 6)]),
            3,
        ),
        number(condition, 9),
    ]
}

#[test]
fn choice_without_call_is_not_fused() {
    let mut vm = Uiua::with_stdio();
    let mut words = choice_line("1");
    words.remove(0);
    let instrs = vm.compile_words(&words).unwrap();
    assert!(instrs.len() >= 6);
    assert_eq!(instrs.len(), 7);
    assert!(!instrs.iter().any(|i| matches!(i, Instr::If(..))));
}

#[test]
fn choice_with_call_is_fused() {
    let mut vm = Uiua::with_stdio();
    let instrs = vm.compile_words(&choice_line("1")).unwrap();
    assert_eq!(instrs.len(), 2);
    assert!(matches!(instrs[0], Instr::Push(_)));
    assert!(matches!(instrs[1], Instr::If(..)));
}

#[test]
fn fused_choice_at_one_calls_the_first_written() {
    let mut vm = Uiua::with_stdio();
    vm.load_str(&line(choice_line("1"))).unwrap();
    assert_eq!(numbers(&vm.clone_stack()), vec![vec![10]]);
}

#[test]
fn fused_choice_at_zero_calls_the_second_written() {
    let mut vm = Uiua::with_stdio();
    vm.load_str(&line(choice_line("0"))).unwrap();
    assert_eq!(numbers(&vm.clone_stack()), vec![vec![20]]);
}

#[test]
fn fused_choice_at_two_is_out_of_bounds() {
    let mut vm = Uiua::with_stdio();
    let e = vm.load_str(&line(choice_line("2"))).unwrap_err();
    assert_eq!(
        message(&e),
        "Index 2 is out of bounds of length 2 (dimension 1) in shape [2]"
    );
}

#[test]
fn dfn_takes_its_arguments_from_the_stack() {
    let mut vm = Uiua::with_stdio();
    // words run from the last to the first: the body pushes b, then a, then adds
    let body = vec![prim(Primitive::Add, 1), ident("a", 3), ident("b", 5)];
    let words = vec![dfn(body, 0), number("3", 8), number("4", 10)];
    vm.load_str(&line(words)).unwrap();
    assert_eq!(numbers(&vm.clone_stack()), vec![vec![7]]);
}

#[test]
fn dfn_with_too_few_arguments_fails() {
    let mut vm = Uiua::with_stdio();
    let body = vec![ident("a", 1), ident("b", 3)];
    let words = vec![dfn(body, 0), number("3", 8)];
    let e = vm.load_str(&line(words)).unwrap_err();
    assert_eq!(message(&e), "not enough arguments for dfn of 2 values");
}

fn import_line(path: &str) -> Parsed {
    line(vec![prim(Primitive::Io(IoOp::Import), 0), sp(Word::String(path.to_string()), 7)])
}

#[test]
fn import_cycle_is_detected() {
    let files = vec![
        SourceFile { path: "A.ua".to_string(), source: Rc::new(import_line("B.ua")) },
        SourceFile { path: "B.ua".to_string(), source: Rc::new(import_line("A.ua")) },
    ];
    let mut vm = Uiua::with_backend(IoBackend { files });
    let e = vm.load_str_path(&import_line("B.ua"), "A.ua").unwrap_err();
    let text = message(&e);
    assert!(text.contains("cycle detected importing"), "{}", text);
    assert!(text.contains("A.ua"), "{}", text);
    assert_eq!(text, "cycle detected importing A.ua");
}

#[test]
fn scoped_binding_does_not_leak() {
    let mut vm = Uiua::with_stdio();
    let binding = Binding {
        name: Sp { value: "x".to_string(), span: at(2) },
        words: vec![number("5", 6)],
    };
    let source = Parsed {
        items: vec![Item::Scoped { items: vec![Item::Binding(binding, None)], test: false }],
        errors: vec![],
    };
    vm.load_str(&source).unwrap();
    // the value stays in the globals table
    assert_eq!(vm.globals_len(), 2);
    assert_eq!(*vm.global(1), Value::from_number(5));
    // the name is unknown outside of the scope
    let e = vm.load_str(&line(vec![ident("x", 0)])).unwrap_err();
    assert_eq!(message(&e), "unknown identifier x");
    // and the scope left nothing on the stack around it
    assert_eq!(vm.stack_size(), 0);
    assert_eq!(vm.antistack_size(), 0);
}

#[test]
fn modifier_repeats_a_function() {
    let mut vm = Uiua::with_stdio();
    // repeat (add 1) 3, on 10
    let inc = func(vec![prim(Primitive::Add, 1), number("1", 3)], 0);
    let repeat = sp(
        Word::Modified(Box::new(Modified {
            modifier: Sp { value: Primitive::Repeat, span: at(0) },
            words: vec![inc],
        })),
        0,
    );
    vm.load_str(&line(vec![repeat, number("3", 8), number("10", 10)])).unwrap();
    assert_eq!(numbers(&vm.clone_stack()), vec![vec![13]]);
}

#[test]
fn endless_recursion_reaches_the_depth_limit() {
    let mut vm = Uiua::with_stdio();
    let words = vec![dfn(vec![prim(Primitive::Recur, 1)], 0)];
    let e = vm.load_str(&line(words)).unwrap_err();
    assert_eq!(message(&e), "Maximum nesting depth exceeded");
}
