use std::rc::Rc;

use uiua::ast::{Binding, Func, Item, Modified, Parsed, Word};
use uiua::error::{TraceFrame, UiuaError};
use uiua::function::{Function, FunctionId, Instr};
use uiua::machine::{IoBackend, RunMode, SourceFile, StackArg, Uiua, DEFAULT_DEPTH};
use uiua::primitive::{IoOp, Primitive};
use uiua::span::{Sp, Span};
use uiua::value::{Elem, Value};

fn at(start: usize) -> Span {
    Span::Code { start, end: start + 1 }
}

fn sp(value: Word, start: usize) -> Sp<Word> {
    Sp { value, span: at(start) }
}

fn number(text: &str, start: usize) -> Sp<Word> {
    sp(Word::Number(text.to_string()), start)
}

fn prim(p: Primitive, start: usize) -> Sp<Word> {
    sp(Word::Primitive(p), start)
}

fn ident(name: &str, start: usize) -> Sp<Word> {
    sp(Word::Ident(name.to_string()), start)
}

fn func(body: Vec<Sp<Word>>, start: usize) -> Sp<Word> {
    sp(Word::Func(Func { id: FunctionId::Anonymous(at(start)), body }), start)
}

fn dfn(body: Vec<Sp<Word>>, start: usize) -> Sp<Word> {
    sp(Word::Dfn(Func { id: FunctionId::Anonymous(at(start)), body }), start)
}

fn modified(p: Primitive, words: Vec<Sp<Word>>, start: usize) -> Sp<Word> {
    sp(
        Word::Modified(Box::new(Modified { modifier: Sp { value: p, span: at(start) }, words })),
        start,
    )
}

fn words(words: Vec<Sp<Word>>) -> Item {
    Item::Words(words, None)
}

fn binding(name: &str, words: Vec<Sp<Word>>) -> Item {
    Item::Binding(Binding { name: Sp { value: name.to_string(), span: at(0) }, words }, None)
}

fn unit(items: Vec<Item>) -> Parsed {
    Parsed { items, errors: vec![] }
}

fn line(ws: Vec<Sp<Word>>) -> Parsed {
    unit(vec![words(ws)])
}

fn run(ws: Vec<Sp<Word>>) -> Result<Vec<Rc<Value>>, UiuaError> {
    let mut vm = Uiua::with_stdio();
    vm.load_str(&line(ws))?;
    Ok(vm.clone_stack())
}

fn numbers(stack: &[Rc<Value>]) -> Vec<Vec<i64>> {
    stack
        .iter()
        .map(|v| {
            v.data
                .iter()
                .map(|e| match e {
                    Elem::Num(n) => *n,
                    other => panic!("not a number: {:?}", other),
                })
                .collect()
        })
        .collect()
}

fn message(e: &UiuaError) -> String {
    match e {
        UiuaError::Run(m) => m.value.clone(),
        UiuaError::Traced { error, .. } => message(error),
        other => panic!("no message: {:?}", other),
    }
}

fn trace(e: &UiuaError) -> Vec<TraceFrame> {
    match e {
        UiuaError::Traced { trace, .. } => trace.clone(),
        _ => vec![],
    }
}

fn pusher(n: i64) -> Rc<Function> {
    Rc::new(Function {
        id: FunctionId::Main,
        instrs: vec![Instr::Push(Rc::new(Value::from_number(n)))],
        dfn_args: None,
    })
}

#[test]
fn a_new_interpreter_knows_import_only() {
    let vm = Uiua::with_stdio();
    assert_eq!(vm.globals_len(), 1);
    assert_eq!(vm.stack_size(), 0);
    assert_eq!(vm.antistack_size(), 0);
    assert_eq!(vm.span(), Span::Builtin);
    let import = vm.global(0).scalar_function().unwrap();
    assert_eq!(import.id, FunctionId::Primitive(Primitive::Io(IoOp::Import)));
    assert_eq!(import.instrs, vec![Instr::Prim(Primitive::Io(IoOp::Import), 0)]);
    // no global at this index: the empty list
    assert_eq!(*vm.global(7), Value::empty());
    let other = Uiua::default();
    assert_eq!(other.globals_len(), 1);
    assert_eq!(DEFAULT_DEPTH, 200);
}

#[test]
fn push_and_pop_are_last_in_first_out() {
    let mut vm = Uiua::with_stdio();
    vm.push(Value::from_number(1));
    vm.push_ref(Rc::new(Value::from_number(2)));
    assert_eq!(vm.stack_size(), 2);
    assert_eq!(numbers(&vm.clone_stack()), vec![vec![1], vec![2]]);
    assert_eq!(*vm.pop(1usize).unwrap(), Value::from_number(2));
    assert_eq!(*vm.pop_result().unwrap(), Value::from_number(1));
    assert_eq!(vm.stack_size(), 0);
}

#[test]
fn popping_an_empty_stack_names_what_was_wanted() {
    let mut vm = Uiua::with_stdio();
    let e = vm.pop(1usize).unwrap_err();
    assert_eq!(
        e,
        UiuaError::Run(Sp {
            value: "Stack was empty when evaluating argument 1".to_string(),
            span: Span::Builtin
        })
    );
    assert_eq!(message(&vm.pop(2u8).unwrap_err()), "Stack was empty when evaluating argument 2");
    assert_eq!(message(&vm.pop(-3i32).unwrap_err()), "Stack was empty when evaluating argument -3");
    assert_eq!(message(&vm.pop("index").unwrap_err()), "Stack was empty when evaluating index");
    assert_eq!(message(&vm.pop_result().unwrap_err()), "Stack was empty when evaluating result");
}

#[test]
fn the_antistack_is_a_stack_of_its_own() {
    let mut vm = Uiua::with_stdio();
    vm.antipush(Value::from_number(1));
    vm.antipush_ref(Rc::new(Value::from_number(2)));
    assert_eq!(vm.antistack_size(), 2);
    assert_eq!(vm.stack_size(), 0);
    assert_eq!(*vm.antipop(1usize).unwrap(), Value::from_number(2));
    assert_eq!(*vm.antipop(1usize).unwrap(), Value::from_number(1));
    assert_eq!(
        message(&vm.antipop(1usize).unwrap_err()),
        "Antistack was empty when evaluating argument 1"
    );
    assert_eq!(
        message(&vm.antipop("x").unwrap_err()),
        "Antistack was empty when evaluating x"
    );
}

#[test]
fn argument_names() {
    assert_eq!(1usize.arg_name(), "argument 1");
    assert_eq!(20u8.arg_name(), "argument 20");
    assert_eq!((-1i32).arg_name(), "argument -1");
    assert_eq!(i32::MIN.arg_name(), "argument -2147483648");
    assert_eq!("called function".arg_name(), "called function");
}

#[test]
fn taking_the_stack_empties_it() {
    let mut vm = Uiua::with_stdio();
    vm.push(Value::from_number(1));
    vm.push(Value::from_number(2));
    let taken = vm.take_stack();
    assert_eq!(numbers(&taken), vec![vec![1], vec![2]]);
    assert_eq!(vm.stack_size(), 0);
    assert_eq!(vm.take_stack().len(), 0);
}

#[test]
fn truncating_drops_the_top_values() {
    let mut vm = Uiua::with_stdio();
    for n in 0..5 {
        vm.push(Value::from_number(n));
        vm.antipush(Value::from_number(10 + n));
    }
    vm.truncate_stack(2);
    assert_eq!(numbers(&vm.clone_stack()), vec![vec![0], vec![1]]);
    vm.truncate_stack(7);
    assert_eq!(vm.stack_size(), 2);
    vm.truncate_antistack(1);
    assert_eq!(vm.antistack_size(), 1);
    assert_eq!(*vm.antipop(1usize).unwrap(), Value::from_number(10));
    vm.truncate_stack(0);
    assert_eq!(vm.stack_size(), 0);
}

#[test]
fn errors_carry_the_current_span() {
    let vm = Uiua::with_stdio();
    assert_eq!(
        vm.error("oops"),
        UiuaError::Run(Sp { value: "oops".to_string(), span: Span::Builtin })
    );
}

#[test]
fn dup_flip_and_pop_move_values() {
    let stack = run(vec![prim(Primitive::Dup, 0), number("1", 2)]).unwrap();
    assert_eq!(numbers(&stack), vec![vec![1], vec![1]]);
    let stack = run(vec![prim(Primitive::Flip, 0), number("1", 2), number("2", 4)]).unwrap();
    // 2 is pushed first, then 1; flipped, 2 is on top
    assert_eq!(numbers(&stack), vec![vec![1], vec![2]]);
    let stack = run(vec![prim(Primitive::Pop, 0), number("1", 2), number("2", 4)]).unwrap();
    assert_eq!(numbers(&stack), vec![vec![2]]);
}

#[test]
fn dup_shares_the_value() {
    let mut vm = Uiua::with_stdio();
    vm.load_str(&line(vec![prim(Primitive::Dup, 0), number("1", 2)])).unwrap();
    let stack = vm.take_stack();
    assert!(Rc::ptr_eq(&stack[0], &stack[1]));
}

#[test]
fn save_and_load_move_between_the_stacks() {
    let mut vm = Uiua::with_stdio();
    vm.load_str(&line(vec![prim(Primitive::Save, 0), number("1", 2), number("2", 4)])).unwrap();
    assert_eq!(numbers(&vm.clone_stack()), vec![vec![2]]);
    assert_eq!(vm.antistack_size(), 1);
    vm.load_str(&line(vec![prim(Primitive::Load, 0)])).unwrap();
    assert_eq!(numbers(&vm.clone_stack()), vec![vec![2], vec![1]]);
    assert_eq!(vm.antistack_size(), 0);
    let e = vm.load_str(&line(vec![prim(Primitive::Load, 0)])).unwrap_err();
    assert_eq!(message(&e), "Antistack was empty when evaluating argument 1");
}

#[test]
fn arithmetic_primitives() {
    let stack = run(vec![prim(Primitive::Neg, 0), number("5", 2)]).unwrap();
    assert_eq!(numbers(&stack), vec![vec![-5]]);
    let stack = run(vec![prim(Primitive::Not, 0), number("0", 2)]).unwrap();
    assert_eq!(numbers(&stack), vec![vec![1]]);
    let stack = run(vec![
        prim(Primitive::Add, 0),
        sp(Word::Array(vec![number("1", 2), number("2", 4)]), 1),
        sp(Word::Array(vec![number("10", 7), number("20", 9)]), 6),
    ])
    .unwrap();
    assert_eq!(numbers(&stack), vec![vec![11, 22]]);
}

#[test]
fn arithmetic_failures_are_errors() {
    let e = run(vec![prim(Primitive::Neg, 0), sp(Word::Char('a'), 2)]).unwrap_err();
    assert_eq!(message(&e), "Expected numbers");
    let e = run(vec![prim(Primitive::Neg, 0), number("-9223372036854775808", 2)]).unwrap_err();
    assert_eq!(message(&e), "Number out of range");
    let e = run(vec![
        prim(Primitive::Add, 0),
        number("1", 2),
        sp(Word::Array(vec![number("1", 5)]), 4),
    ])
    .unwrap_err();
    assert_eq!(message(&e), "Shapes do not match");
    let e = run(vec![prim(Primitive::Add, 0), number("1", 2)]).unwrap_err();
    assert_eq!(message(&e), "Stack was empty when evaluating argument 2");
}

#[test]
fn array_literals_keep_source_order() {
    let stack =
        run(vec![sp(Word::Array(vec![number("1", 1), number("2", 3), number("3", 5)]), 0)]).unwrap();
    assert_eq!(*stack[0], Value {
        shape: vec![3],
        data: vec![Elem::Num(1), Elem::Num(2), Elem::Num(3)]
    });
    let stack = run(vec![sp(Word::Strand(vec![number("1", 0), number("2", 2)]), 0)]).unwrap();
    assert_eq!(numbers(&stack), vec![vec![1, 2]]);
    let stack = run(vec![sp(Word::Array(vec![]), 0)]).unwrap();
    assert_eq!(*stack[0], Value::empty());
}

#[test]
fn array_literals_nest() {
    let inner = |a: &str, b: &str, start| {
        sp(Word::Array(vec![number(a, start + 1), number(b, start + 3)]), start)
    };
    let stack = run(vec![sp(Word::Array(vec![inner("1", "2", 1), inner("3", "4", 7)]), 0)]).unwrap();
    assert_eq!(stack[0].shape, vec![2, 2]);
    assert_eq!(numbers(&stack), vec![vec![1, 2, 3, 4]]);
}

#[test]
fn rows_that_do_not_conform_fail_at_the_array() {
    let e = run(vec![sp(
        Word::Array(vec![number("1", 1), sp(Word::Array(vec![number("2", 4)]), 3)]),
        0,
    )])
    .unwrap_err();
    assert_eq!(
        e,
        UiuaError::Traced {
            error: Box::new(UiuaError::Run(Sp {
                value: "Cannot combine arrays of different shapes".to_string(),
                span: at(0),
            })),
            trace: vec![TraceFrame { id: FunctionId::Main, span: Span::Builtin }],
        }
    );
}

#[test]
fn an_array_that_lost_elements_fails() {
    let e = run(vec![
        sp(Word::Array(vec![prim(Primitive::Pop, 1)]), 0),
        number("1", 4),
    ])
    .unwrap_err();
    assert_eq!(message(&e), "Array removed elements");
}

#[test]
fn row_primitives() {
    let list = || sp(Word::Array(vec![number("7", 1), number("8", 3), number("9", 5)]), 0);
    assert_eq!(numbers(&run(vec![prim(Primitive::First, 9), list()]).unwrap()), vec![vec![7]]);
    assert_eq!(numbers(&run(vec![prim(Primitive::Last, 9), list()]).unwrap()), vec![vec![9]]);
    assert_eq!(
        numbers(&run(vec![prim(Primitive::Reverse, 9), list()]).unwrap()),
        vec![vec![9, 8, 7]]
    );
    assert_eq!(
        numbers(&run(vec![prim(Primitive::Pick, 9), number("1", 10), list()]).unwrap()),
        vec![vec![8]]
    );
    // reverse then first is compiled as last
    assert_eq!(
        numbers(&run(vec![prim(Primitive::First, 8), prim(Primitive::Reverse, 9), list()]).unwrap()),
        vec![vec![9]]
    );
}

#[test]
fn row_failures_are_errors() {
    let empty = || sp(Word::Array(vec![]), 0);
    let e = run(vec![prim(Primitive::First, 9), empty()]).unwrap_err();
    assert_eq!(message(&e), "Cannot take first of an empty array");
    let e = run(vec![prim(Primitive::Last, 9), empty()]).unwrap_err();
    assert_eq!(message(&e), "Cannot take last of an empty array");
    let list = || sp(Word::Array(vec![number("7", 1), number("8", 3)]), 0);
    let e = run(vec![prim(Primitive::Pick, 9), number("2", 10), list()]).unwrap_err();
    assert_eq!(message(&e), "Index 2 is out of bounds of length 2 (dimension 1) in shape [2]");
    let e = run(vec![prim(Primitive::Pick, 9), number("-1", 10), list()]).unwrap_err();
    assert_eq!(message(&e), "Index must be a list of integers");
    let table = sp(Word::Array(vec![list(), list(), list()]), 0);
    let e = run(vec![prim(Primitive::Pick, 9), number("5", 10), table]).unwrap_err();
    assert_eq!(message(&e), "Index 5 is out of bounds of length 3 (dimension 1) in shape [3, 2]");
}

#[test]
fn pick_without_call_takes_the_row_at_the_index() {
    // the list holds its items in source order, so index 0 is the function written first
    let list = || sp(Word::Array(vec![func(vec![number("10", 2)], 1), func(vec![number("20", 6)], 5)]), 0);
    for (index, pushes) in [("0", 10), ("1", 20)] {
        let stack =
            run(vec![prim(Primitive::Pick, 9), prim(Primitive::Flip, 10), list(), number(index, 12)])
                .unwrap();
        assert_eq!(stack.len(), 1);
        let f = stack[0].scalar_function().unwrap();
        assert_eq!(f.instrs, vec![Instr::Push(Rc::new(Value::from_number(pushes)))]);
    }
}

#[test]
fn if_calls_its_first_function_at_one_and_its_second_at_zero() {
    let program = |condition: Value| {
        let mut vm = Uiua::with_stdio();
        vm.push(condition);
        let f = Function {
            id: FunctionId::Main,
            instrs: vec![Instr::If(pusher(10), pusher(20))],
            dfn_args: None,
        };
        vm.push(Value::from_function(Rc::new(f)));
        let r = vm.call();
        (vm, r)
    };
    let (vm, r) = program(Value::from_number(1));
    r.unwrap();
    assert_eq!(numbers(&vm.clone_stack()), vec![vec![10]]);
    let (vm, r) = program(Value::from_number(0));
    r.unwrap();
    assert_eq!(numbers(&vm.clone_stack()), vec![vec![20]]);
    let (vm, r) = program(Value::from_number(2));
    assert_eq!(
        message(&r.unwrap_err()),
        "Index 2 is out of bounds of length 2 (dimension 1) in shape [2]"
    );
    assert_eq!(vm.stack_size(), 0);
    let (_, r) = program(Value::from_number(17));
    assert_eq!(
        message(&r.unwrap_err()),
        "Index 17 is out of bounds of length 2 (dimension 1) in shape [2]"
    );
    let (_, r) = program(Value::from_char('x'));
    assert_eq!(message(&r.unwrap_err()), "Index must be a list of integers");
    let mut vm = Uiua::with_stdio();
    let f = Function {
        id: FunctionId::Main,
        instrs: vec![Instr::If(pusher(10), pusher(20))],
        dfn_args: None,
    };
    vm.push(Value::from_function(Rc::new(f)));
    assert_eq!(
        message(&vm.call().unwrap_err()),
        "Stack was empty when evaluating argument 2"
    );
}

#[test]
fn calling_a_function_runs_it() {
    let mut vm = Uiua::with_stdio();
    vm.push(Value::from_function(pusher(3)));
    vm.call().unwrap();
    assert_eq!(numbers(&vm.clone_stack()), vec![vec![3]]);
    assert_eq!(message(&Uiua::with_stdio().call().unwrap_err()),
        "Stack was empty when evaluating called function");
}

#[test]
fn calling_another_value_changes_nothing() {
    let mut vm = Uiua::with_stdio();
    vm.push(Value::from_number(1));
    vm.push(Value::from_number(2));
    vm.push(Value::from_number(3));
    vm.call().unwrap();
    assert_eq!(numbers(&vm.clone_stack()), vec![vec![1], vec![2], vec![3]]);
    // a list of functions is no scalar function
    let mut vm = Uiua::with_stdio();
    vm.push(Value::from_number(1));
    vm.push(Value::from_functions(vec![pusher(1), pusher(2)]));
    vm.call().unwrap();
    assert_eq!(vm.stack_size(), 2);
    assert_eq!(vm.clone_stack()[1].shape, vec![2]);
}

#[test]
fn a_dfn_gets_the_top_value_as_its_first_argument() {
    // {a} 3 4: a is the top value, and b was taken from the stack too
    let stack =
        run(vec![dfn(vec![ident("a", 1), ident("b", 3), ident("a", 5)], 0), number("3", 8), number("4", 10)])
            .unwrap();
    assert_eq!(numbers(&stack), vec![vec![3], vec![4], vec![3]]);
}

#[test]
fn a_dfn_argument_outside_of_a_dfn_is_an_error() {
    let mut vm = Uiua::with_stdio();
    let f = Function { id: FunctionId::Main, instrs: vec![Instr::DfnVal(0)], dfn_args: None };
    vm.push(Value::from_function(Rc::new(f)));
    assert_eq!(message(&vm.call().unwrap_err()), "No dfn argument 0");
    let f = Function { id: FunctionId::Main, instrs: vec![Instr::DfnVal(1)], dfn_args: Some(1) };
    vm.push(Value::from_number(1));
    vm.push(Value::from_function(Rc::new(f)));
    assert_eq!(message(&vm.call().unwrap_err()), "No dfn argument 1");
}

#[test]
fn an_array_end_without_a_beginning_is_an_error() {
    let mut vm = Uiua::with_stdio();
    let f = Function { id: FunctionId::Main, instrs: vec![Instr::EndArray(0)], dfn_args: None };
    vm.push(Value::from_function(Rc::new(f)));
    assert_eq!(message(&vm.call().unwrap_err()), "Array was not begun");
}

#[test]
fn recur_calls_the_dfn_again() {
    // a dfn that counts its argument up to 3: {Call Pick Flip [(recur add 1 a) (a)] ...}
    // is more than is needed here; recursion is shown to end at the depth limit instead
    let mut vm = Uiua::with_stdio().depth_limit(10);
    let e = vm.load_str(&line(vec![dfn(vec![prim(Primitive::Recur, 1)], 0)])).unwrap_err();
    assert_eq!(message(&e), "Maximum nesting depth exceeded");
    // ten activations of the dfn were under way, all but the innermost in
    // their recur, and beneath them the main frame
    let trace = trace(&e);
    assert_eq!(trace.len(), 1 + 9 * 2 + 1);
    assert_eq!(trace[1].id, FunctionId::Primitive(Primitive::Recur));
    assert_eq!(trace[0].id, FunctionId::Anonymous(at(0)));
    assert_eq!(trace.last().unwrap().id, FunctionId::Main);
    // everything was unwound
    vm.load_str(&line(vec![number("1", 0)])).unwrap();
    assert_eq!(numbers(&vm.clone_stack()), vec![vec![1]]);
}

#[test]
fn recur_outside_of_a_dfn_is_an_error() {
    let mut vm = Uiua::with_stdio();
    assert_eq!(message(&vm.recur().unwrap_err()), "Cannot recur outside of dfn");
    let e = run(vec![prim(Primitive::Recur, 0)]).unwrap_err();
    assert_eq!(message(&e), "Cannot recur outside of dfn");
}

#[test]
fn no_activation_fits_a_depth_of_zero() {
    let mut vm = Uiua::with_stdio().depth_limit(0);
    let e = vm.load_str(&line(vec![number("1", 0)])).unwrap_err();
    assert_eq!(message(&e), "Maximum nesting depth exceeded");
    assert_eq!(trace(&e), vec![TraceFrame { id: FunctionId::Main, span: Span::Builtin }]);
    let mut vm = Uiua::with_stdio().depth_limit(1);
    vm.load_str(&line(vec![number("1", 0)])).unwrap();
    let e = vm.load_str(&line(vec![func(vec![number("1", 1)], 0), prim(Primitive::Call, 3)]));
    assert!(e.is_ok());
    let e = vm
        .load_str(&line(vec![prim(Primitive::Call, 3), func(vec![number("1", 1)], 0)]))
        .unwrap_err();
    assert_eq!(message(&e), "Maximum nesting depth exceeded");
}

#[test]
fn a_trace_lists_primitives_and_frames_from_the_inside_out() {
    let mut vm = Uiua::with_stdio();
    // Call (Neg 'a')
    let body = vec![prim(Primitive::Neg, 5), sp(Word::Char('a'), 7)];
    let e = vm.load_str(&line(vec![prim(Primitive::Call, 0), func(body, 4)])).unwrap_err();
    match &e {
        UiuaError::Traced { error, trace } => {
            assert_eq!(
                **error,
                UiuaError::Run(Sp { value: "Expected numbers".to_string(), span: at(5) })
            );
            assert_eq!(
                *trace,
                vec![
                    TraceFrame { id: FunctionId::Primitive(Primitive::Neg), span: at(5) },
                    TraceFrame { id: FunctionId::Anonymous(at(4)), span: at(0) },
                    TraceFrame { id: FunctionId::Primitive(Primitive::Call), span: at(0) },
                    TraceFrame { id: FunctionId::Main, span: Span::Builtin },
                ]
            );
        },
        other => panic!("no trace: {:?}", other),
    }
    // two frames were unwound, and each had entered one primitive
    assert_eq!(trace(&e).len(), 2 + 2);
}

#[test]
fn tracing_an_error_with_a_trace_makes_the_trace_longer() {
    let inner = UiuaError::Run(Sp { value: "x".to_string(), span: Span::Builtin });
    let frame = |n| TraceFrame { id: FunctionId::Named(format!("f{}", n)), span: at(n) };
    let once = inner.traced(vec![frame(1), frame(2)]);
    let twice = once.traced(vec![frame(3)]);
    assert_eq!(
        twice,
        UiuaError::Traced {
            error: Box::new(UiuaError::Run(Sp { value: "x".to_string(), span: Span::Builtin })),
            trace: vec![frame(1), frame(2), frame(3)],
        }
    );
}

#[test]
fn break_data_is_found_beneath_a_trace() {
    let plain = UiuaError::Break(2, at(1));
    assert_eq!(plain.break_data(), Ok((2, at(1))));
    let traced = UiuaError::Break(0, at(1))
        .traced(vec![TraceFrame { id: FunctionId::Main, span: Span::Builtin }]);
    assert_eq!(traced.break_data(), Ok((0, at(1))));
    let other = UiuaError::Run(Sp { value: "x".to_string(), span: at(3) });
    assert_eq!(
        other.break_data(),
        Err(UiuaError::Run(Sp { value: "x".to_string(), span: at(3) }))
    );
    let parse = UiuaError::Parse(vec![]);
    assert_eq!(parse.break_data(), Err(UiuaError::Parse(vec![])));
    let load = UiuaError::Load("a".to_string(), "b".to_string());
    assert_eq!(load.break_data(), Err(UiuaError::Load("a".to_string(), "b".to_string())));
}

fn breaker(levels: &str) -> Rc<Function> {
    let mut vm = Uiua::with_stdio();
    let instrs = vm.compile_words(&vec![prim(Primitive::Break, 0), number(levels, 2)]).unwrap();
    Rc::new(Function { id: FunctionId::Named("B".to_string()), instrs, dfn_args: None })
}

#[test]
fn a_break_is_caught_where_it_ends() {
    let mut vm = Uiua::with_stdio();
    vm.push(Value::from_function(pusher(1)));
    assert_eq!(vm.call_catch_break(), Ok(false));
    vm.push(Value::from_function(breaker("0")));
    assert_eq!(vm.call_catch_break(), Ok(true));
    vm.push(Value::from_function(breaker("2")));
    match vm.call_catch_break() {
        Err(UiuaError::Break(1, _)) => {},
        other => panic!("{:?}", other),
    }
    vm.push(Value::from_function(breaker("-1")));
    assert_eq!(
        message(&vm.call_catch_break().unwrap_err()),
        "Break count must be a natural number"
    );
    assert_eq!(numbers(&vm.clone_stack()), vec![vec![1]]);
}

#[test]
fn a_break_where_nothing_loops_is_an_error() {
    let mut vm = Uiua::with_stdio();
    vm.push(Value::from_function(pusher(1)));
    assert_eq!(vm.call_error_on_break("no"), Ok(()));
    vm.push(Value::from_function(breaker("0")));
    match vm.call_error_on_break("break is not allowed here") {
        Err(UiuaError::Run(m)) => assert_eq!(m.value, "break is not allowed here"),
        other => panic!("{:?}", other),
    }
    vm.push(Value::from_function(breaker("3")));
    match vm.call_error_on_break("no") {
        Err(UiuaError::Break(2, _)) => {},
        other => panic!("{:?}", other),
    }
}

#[test]
fn repeat_stops_at_a_break() {
    // repeat (break 0) 5 leaves the loop at once
    let stack = run(vec![
        modified(Primitive::Repeat, vec![func(vec![prim(Primitive::Break, 2), number("0", 4)], 1)], 0),
        number("5", 8),
        number("7", 10),
    ])
    .unwrap();
    assert_eq!(numbers(&stack), vec![vec![7]]);
    // repeat (break 1) goes on as a break of no more levels
    let e = run(vec![
        modified(Primitive::Repeat, vec![func(vec![prim(Primitive::Break, 2), number("1", 4)], 1)], 0),
        number("5", 8),
    ])
    .unwrap_err();
    assert_eq!(e.break_data().map(|d| d.0), Ok(0));
}

#[test]
fn repeat_wants_a_natural_number() {
    let e = run(vec![
        modified(Primitive::Repeat, vec![func(vec![number("1", 2)], 1)], 0),
        sp(Word::Char('x'), 8),
    ])
    .unwrap_err();
    assert_eq!(message(&e), "Repetitions must be a natural number");
    let stack =
        run(vec![modified(Primitive::Repeat, vec![func(vec![number("1", 2)], 1)], 0), number("0", 8)])
            .unwrap();
    assert_eq!(stack.len(), 0);
    let stack =
        run(vec![modified(Primitive::Repeat, vec![func(vec![number("1", 2)], 1)], 0), number("3", 8)])
            .unwrap();
    assert_eq!(numbers(&stack), vec![vec![1], vec![1], vec![1]]);
}

#[test]
fn dip_calls_beneath_the_top_value() {
    // dip (neg) 1 2: 1 is set aside, 2 is negated, 1 is put back
    let stack = run(vec![
        modified(Primitive::Dip, vec![prim(Primitive::Neg, 1)], 0),
        number("1", 4),
        number("2", 6),
    ])
    .unwrap();
    assert_eq!(numbers(&stack), vec![vec![-2], vec![1]]);
    let e = run(vec![
        modified(Primitive::Dip, vec![func(vec![prim(Primitive::Break, 2), number("0", 4)], 1)], 0),
        number("1", 8),
    ])
    .unwrap_err();
    assert_eq!(message(&e), "break is not allowed in dip");
}

#[test]
fn lines_run_as_the_mode_says() {
    let source = || {
        unit(vec![
            words(vec![number("1", 0)]),
            Item::Scoped { items: vec![words(vec![number("2", 2)])], test: true },
            Item::Newlines,
            Item::Comment("note".to_string()),
        ])
    };
    let count = |mode: RunMode| {
        let mut vm = Uiua::with_stdio().mode(mode);
        vm.load_str(&source()).unwrap();
        vm.clone_stack()
    };
    // the line outside of the test block ran; what a scope leaves on its stack goes with it
    assert_eq!(numbers(&count(RunMode::Normal)), vec![vec![1]]);
    // in test mode the outer line does not run, and the test block leaves nothing outside
    assert_eq!(count(RunMode::Test).len(), 0);
    assert_eq!(numbers(&count(RunMode::Watch)), vec![vec![1]]);
}

#[test]
fn a_test_block_runs_in_test_mode_only() {
    // a test block that fails shows whether it ran
    let source = || unit(vec![Item::Scoped { items: vec![words(vec![prim(Primitive::Pop, 0)])], test: true }]);
    assert!(Uiua::with_stdio().mode(RunMode::Normal).load_str(&source()).is_ok());
    assert!(Uiua::with_stdio().mode(RunMode::Test).load_str(&source()).is_err());
    assert!(Uiua::with_stdio().mode(RunMode::Watch).load_str(&source()).is_err());
}

#[test]
fn a_scoped_item_leaves_the_scope_around_it_alone() {
    let mut vm = Uiua::with_stdio();
    vm.push(Value::from_number(9));
    vm.antipush(Value::from_number(8));
    vm.load_str(&unit(vec![binding("x", vec![number("1", 0)])])).unwrap();
    let inner = vec![
        binding("y", vec![number("5", 0)]),
        words(vec![number("6", 0)]),
        words(vec![prim(Primitive::Save, 0), number("7", 2)]),
    ];
    vm.load_str(&unit(vec![Item::Scoped { items: inner, test: false }])).unwrap();
    assert_eq!(numbers(&vm.clone_stack()), vec![vec![9]]);
    assert_eq!(vm.antistack_size(), 1);
    assert_eq!(*vm.antipop(1usize).unwrap(), Value::from_number(8));
    // the globals have grown by the binding of the scope
    assert_eq!(vm.globals_len(), 3);
    assert_eq!(*vm.global(2), Value::from_number(5));
    // the names are those of before
    assert_eq!(message(&vm.load_str(&line(vec![ident("y", 0)])).unwrap_err()), "unknown identifier y");
    vm.load_str(&line(vec![ident("x", 0)])).unwrap();
    assert_eq!(numbers(&vm.clone_stack()), vec![vec![9], vec![1]]);
}

#[test]
fn bindings_run_as_the_mode_says() {
    let source = || {
        unit(vec![
            binding("x", vec![number("1", 0)]),
            Item::Scoped { items: vec![binding("y", vec![number("2", 2)])], test: true },
        ])
    };
    let globals = |mode: RunMode| {
        let mut vm = Uiua::with_stdio().mode(mode);
        vm.load_str(&source()).unwrap();
        vm.globals_len()
    };
    assert_eq!(globals(RunMode::Normal), 1 + 2);
    assert_eq!(globals(RunMode::Watch), 1 + 2);
    assert_eq!(globals(RunMode::Test), 1 + 1);
}

#[test]
fn a_line_with_import_runs_in_every_mode() {
    let files = || {
        vec![SourceFile {
            path: "lib".to_string(),
            source: Rc::new(unit(vec![binding("x", vec![number("5", 0)])])),
        }]
    };
    // in test mode the binding of the imported unit does not run: it is no test
    for (mode, bindings) in [(RunMode::Normal, 2), (RunMode::Test, 1), (RunMode::Watch, 2)] {
        let mut vm = Uiua::with_backend(IoBackend { files: files() }).mode(mode);
        let import = vec![prim(Primitive::Io(IoOp::Import), 0), sp(Word::String("lib".to_string()), 7)];
        vm.load_str(&unit(vec![
            words(import),
            Item::Scoped { items: vec![], test: true },
        ]))
        .unwrap();
        let stack = vm.clone_stack();
        assert_eq!(stack.len(), 1, "{:?}", mode);
        // import, and x where it was bound
        assert_eq!(stack[0].shape, vec![bindings], "{:?}", mode);
    }
}

#[test]
fn a_binding_takes_the_top_value() {
    let mut vm = Uiua::with_stdio();
    vm.load_str(&unit(vec![
        binding("x", vec![number("1", 0), number("2", 2)]),
        words(vec![ident("x", 0)]),
    ]))
    .unwrap();
    // the words left 2 and 1; 1 was on top and is bound; 2 stays, and x pushes 1
    assert_eq!(numbers(&vm.clone_stack()), vec![vec![2], vec![1]]);
    assert_eq!(*vm.global(1), Value::from_number(1));
}

#[test]
fn a_binding_of_nothing_is_the_empty_list() {
    let mut vm = Uiua::with_stdio();
    vm.load_str(&unit(vec![binding("x", vec![])])).unwrap();
    assert_eq!(*vm.global(1), Value::empty());
}

#[test]
fn a_capitalised_name_binds_a_function_that_does_not_run() {
    let mut vm = Uiua::with_stdio();
    vm.load_str(&unit(vec![binding("Bad", vec![prim(Primitive::Pop, 0)])])).unwrap();
    assert_eq!(vm.stack_size(), 0);
    let f = vm.global(1).scalar_function().unwrap();
    assert_eq!(f.id, FunctionId::Named("Bad".to_string()));
    assert_eq!(f.instrs, vec![Instr::Prim(Primitive::Pop, 1)]);
    let e = vm.load_str(&line(vec![ident("Bad", 5)])).unwrap_err();
    assert_eq!(message(&e), "Stack was empty when evaluating argument 1");
    assert_eq!(
        trace(&e),
        vec![
            TraceFrame { id: FunctionId::Primitive(Primitive::Pop), span: at(0) },
            TraceFrame { id: FunctionId::Named("Bad".to_string()), span: at(5) },
            TraceFrame { id: FunctionId::Main, span: Span::Builtin },
        ]
    );
}

#[test]
fn binding_a_name_again_adds_a_global() {
    let mut vm = Uiua::with_stdio();
    vm.load_str(&unit(vec![
        binding("x", vec![number("1", 0)]),
        binding("y", vec![number("2", 0)]),
        binding("x", vec![number("3", 0)]),
        words(vec![ident("y", 0), ident("x", 2)]),
    ]))
    .unwrap();
    assert_eq!(vm.globals_len(), 4);
    assert_eq!(*vm.global(1), Value::from_number(1));
    assert_eq!(*vm.global(3), Value::from_number(3));
    assert_eq!(numbers(&vm.clone_stack()), vec![vec![3], vec![2]]);
}

#[test]
fn globals_only_grow() {
    let mut vm = Uiua::with_stdio();
    let mut seen = vm.globals_len();
    let first = vm.global(0);
    let sources = vec![
        unit(vec![binding("x", vec![number("1", 0)])]),
        line(vec![ident("x", 0)]),
        line(vec![ident("nope", 0)]),
        unit(vec![Item::Scoped { items: vec![binding("y", vec![number("2", 0)])], test: false }]),
        line(vec![prim(Primitive::Pop, 0), prim(Primitive::Pop, 1), prim(Primitive::Pop, 2)]),
    ];
    for source in &sources {
        let _ = vm.load_str(source);
        assert!(vm.globals_len() >= seen);
        seen = vm.globals_len();
        assert!(Rc::ptr_eq(&vm.global(0), &first));
    }
    assert_eq!(seen, 3);
    assert_eq!(*vm.global(1), Value::from_number(1));
}

#[test]
fn a_scope_hands_back_its_bindings_and_leaves_the_stack() {
    let mut vm = Uiua::with_stdio();
    vm.push(Value::from_number(9));
    vm.antipush(Value::from_number(8));
    let items = vec![binding("x", vec![number("5", 0)]), words(vec![number("6", 0)])];
    let scope = vm.in_scope(&items, false).unwrap();
    // what the items pushed stayed in their scope
    assert_eq!(numbers(&vm.clone_stack()), vec![vec![9]]);
    assert_eq!(vm.antistack_size(), 1);
    assert_eq!(vm.globals_len(), 2);
    assert_eq!(message(&vm.load_str(&line(vec![ident("x", 0)])).unwrap_err()), "unknown identifier x");
    drop(scope);
}

#[test]
fn a_scope_that_fails_is_left() {
    let mut vm = Uiua::with_stdio();
    vm.push(Value::from_number(9));
    vm.load_str(&unit(vec![binding("x", vec![number("1", 0)])])).unwrap();
    let items = vec![words(vec![number("6", 0)]), words(vec![prim(Primitive::Pop, 0), prim(Primitive::Pop, 1)])];
    let e = vm.in_scope(&items, false).unwrap_err();
    assert_eq!(message(&e), "Stack was empty when evaluating argument 1");
    assert_eq!(numbers(&vm.clone_stack()), vec![vec![9]]);
    // the names of the enclosing scope are there again
    vm.load_str(&line(vec![ident("x", 0)])).unwrap();
    assert_eq!(numbers(&vm.clone_stack()), vec![vec![9], vec![1]]);
}

#[test]
fn a_scope_does_not_see_the_names_around_it() {
    let mut vm = Uiua::with_stdio();
    vm.load_str(&unit(vec![binding("x", vec![number("1", 0)])])).unwrap();
    let e = vm.in_scope(&vec![words(vec![ident("x", 3)])], false).unwrap_err();
    assert_eq!(message(&e), "unknown identifier x");
}

#[test]
fn a_scope_takes_one_level_of_depth() {
    let mut vm = Uiua::with_stdio().depth_limit(1);
    // the scope takes the one level, so nothing can run in it
    let e = vm.in_scope(&vec![words(vec![number("1", 0)])], false).unwrap_err();
    assert_eq!(message(&e), "Maximum nesting depth exceeded");
    let mut vm = Uiua::with_stdio().depth_limit(0);
    let e = vm.in_scope(&vec![], false).unwrap_err();
    assert_eq!(message(&e), "Maximum nesting depth exceeded");
    let mut vm = Uiua::with_stdio().depth_limit(2);
    vm.in_scope(&vec![words(vec![number("1", 0)])], false).unwrap();
}

fn library() -> Rc<Parsed> {
    Rc::new(unit(vec![
        binding("x", vec![number("5", 0)]),
        binding("Inc", vec![prim(Primitive::Add, 0), number("1", 2)]),
    ]))
}

fn import_words(path: &str) -> Vec<Sp<Word>> {
    vec![prim(Primitive::Io(IoOp::Import), 0), sp(Word::String(path.to_string()), 7)]
}

#[test]
fn an_import_pushes_the_bindings_as_functions() {
    let files = vec![SourceFile { path: "lib".to_string(), source: library() }];
    let mut vm = Uiua::with_backend(IoBackend { files });
    vm.load_str(&line(import_words("lib"))).unwrap();
    let stack = vm.take_stack();
    assert_eq!(stack.len(), 1);
    assert_eq!(stack[0].shape, vec![3]);
    let functions: Vec<Rc<Function>> = stack[0]
        .data
        .iter()
        .map(|e| match e {
            Elem::Func(f) => f.clone(),
            other => panic!("{:?}", other),
        })
        .collect();
    // oldest binding first: import itself, then x, then Inc
    assert_eq!(functions[0].id, FunctionId::Primitive(Primitive::Io(IoOp::Import)));
    assert_eq!(functions[1].id, FunctionId::Named("x".to_string()));
    assert_eq!(functions[1].instrs, vec![Instr::Push(Rc::new(Value::from_number(5)))]);
    assert_eq!(functions[2].id, FunctionId::Named("Inc".to_string()));
    assert!(Rc::ptr_eq(&functions[2], &vm.global(2).scalar_function().unwrap()));
    // the names did not come along
    assert_eq!(message(&vm.load_str(&line(vec![ident("x", 0)])).unwrap_err()), "unknown identifier x");
}

#[test]
fn a_second_import_runs_nothing_and_pushes_the_same() {
    let files = vec![SourceFile { path: "lib".to_string(), source: library() }];
    let mut vm = Uiua::with_backend(IoBackend { files });
    vm.load_str(&line(import_words("lib"))).unwrap();
    let globals = vm.globals_len();
    assert_eq!(globals, 3);
    vm.load_str(&line(import_words("lib"))).unwrap();
    assert_eq!(vm.globals_len(), globals);
    let stack = vm.take_stack();
    assert_eq!(stack.len(), 2);
    assert_eq!(stack[0], stack[1]);
    // importing by hand finds the kept scope too, whatever source is handed over
    vm.import(&unit(vec![binding("z", vec![number("1", 0)])]), "lib").unwrap();
    assert_eq!(vm.globals_len(), globals);
    assert_eq!(vm.take_stack()[0], stack[0]);
}

#[test]
fn import_failures() {
    let files = vec![
        SourceFile { path: "lib".to_string(), source: library() },
        SourceFile {
            path: "bad".to_string(),
            source: Rc::new(Parsed {
                items: vec![],
                errors: vec![Sp { value: "unexpected token".to_string(), span: at(3) }],
            }),
        },
        SourceFile {
            path: "fails".to_string(),
            source: Rc::new(line(vec![prim(Primitive::Pop, 0)])),
        },
    ];
    let mut vm = Uiua::with_backend(IoBackend { files });
    let e = vm.load_str(&line(import_words("nowhere"))).unwrap_err();
    match &e {
        UiuaError::Traced { error, trace } => {
            assert_eq!(
                **error,
                UiuaError::Load(
                    "nowhere".to_string(),
                    "no source unit is known at this path".to_string()
                )
            );
            assert_eq!(trace.len(), 2);
        },
        other => panic!("{:?}", other),
    }
    let e = vm
        .load_str(&line(vec![prim(Primitive::Io(IoOp::Import), 0), number("1", 7)]))
        .unwrap_err();
    assert_eq!(message(&e), "Import path must be a string");
    let e = vm.load_str(&line(import_words("bad"))).unwrap_err();
    match &e {
        UiuaError::Traced { error, .. } => assert_eq!(
            **error,
            UiuaError::Parse(vec![Sp { value: "unexpected token".to_string(), span: at(3) }])
        ),
        other => panic!("{:?}", other),
    }
    let e = vm.load_str(&line(import_words("fails"))).unwrap_err();
    assert_eq!(message(&e), "Stack was empty when evaluating argument 1");
    // a failed import is not kept: it runs again, and fails again
    let e = vm.load_str(&line(import_words("fails"))).unwrap_err();
    assert_eq!(message(&e), "Stack was empty when evaluating argument 1");
    // and the interpreter is in its outer scope
    vm.load_str(&line(import_words("lib"))).unwrap();
    assert_eq!(vm.stack_size(), 1);
}

#[test]
fn a_unit_cannot_import_itself() {
    let files = vec![SourceFile {
        path: "me".to_string(),
        source: Rc::new(line(import_words("me"))),
    }];
    let mut vm = Uiua::with_backend(IoBackend { files });
    let e = vm.load_str(&line(import_words("me"))).unwrap_err();
    assert_eq!(message(&e), "cycle detected importing me");
    // nothing is being loaded any more: the import fails in the same way again
    let e = vm.load_str(&line(import_words("me"))).unwrap_err();
    assert_eq!(message(&e), "cycle detected importing me");
}

#[test]
fn parse_errors_stop_a_load() {
    let mut vm = Uiua::with_stdio();
    let source = Parsed {
        items: vec![words(vec![number("1", 0)])],
        errors: vec![Sp { value: "bad".to_string(), span: at(1) }],
    };
    assert_eq!(
        vm.load_str(&source),
        Err(UiuaError::Parse(vec![Sp { value: "bad".to_string(), span: at(1) }]))
    );
    assert_eq!(vm.stack_size(), 0);
    assert_eq!(
        vm.load_str_path(&source, "p"),
        Err(UiuaError::Parse(vec![Sp { value: "bad".to_string(), span: at(1) }]))
    );
}

#[test]
fn items_stop_at_the_first_error() {
    let mut vm = Uiua::with_stdio();
    let e = vm
        .load_str(&unit(vec![
            words(vec![number("1", 0)]),
            words(vec![prim(Primitive::Add, 0)]),
            words(vec![number("2", 0)]),
        ]))
        .unwrap_err();
    // add took the 1 and found no second argument
    assert_eq!(message(&e), "Stack was empty when evaluating argument 2");
    assert_eq!(vm.stack_size(), 0);
}

fn run_instrs(instrs: Vec<Instr>) -> Result<Vec<Rc<Value>>, UiuaError> {
    let mut vm = Uiua::with_stdio();
    vm.push(Value::from_function(Rc::new(Function {
        id: FunctionId::Main,
        instrs,
        dfn_args: None,
    })));
    vm.call()?;
    Ok(vm.take_stack())
}

fn push_list(numbers: &[i64]) -> Instr {
    Instr::Push(Rc::new(Value {
        shape: vec![numbers.len()],
        data: numbers.iter().map(|n| Elem::Num(*n)).collect(),
    }))
}

#[test]
fn rewritten_instructions_run_to_the_same_stack() {
    let list = || push_list(&[4, 5, 6]);
    // reverse then first, and last
    assert_eq!(
        run_instrs(vec![list(), Instr::Prim(Primitive::Reverse, 0), Instr::Prim(Primitive::First, 0)])
            .unwrap(),
        run_instrs(vec![list(), Instr::Prim(Primitive::Last, 0)]).unwrap()
    );
    // reverse then last, and first
    assert_eq!(
        run_instrs(vec![list(), Instr::Prim(Primitive::Reverse, 0), Instr::Prim(Primitive::Last, 0)])
            .unwrap(),
        run_instrs(vec![list(), Instr::Prim(Primitive::First, 0)]).unwrap()
    );
    // a primitive and its inverse, and nothing
    for p in [Primitive::Neg, Primitive::Not, Primitive::Reverse, Primitive::Noop] {
        assert_eq!(
            run_instrs(vec![list(), Instr::Prim(p, 0), Instr::Prim(p.inverse().unwrap(), 0)]).unwrap(),
            run_instrs(vec![list()]).unwrap(),
            "{:?}",
            p
        );
    }
    assert_eq!(
        run_instrs(vec![
            list(),
            push_list(&[1]),
            Instr::Prim(Primitive::Flip, 0),
            Instr::Prim(Primitive::Flip, 0)
        ])
        .unwrap(),
        run_instrs(vec![list(), push_list(&[1])]).unwrap()
    );
    // noop, and nothing
    assert_eq!(
        run_instrs(vec![list(), Instr::Prim(Primitive::Noop, 0)]).unwrap(),
        run_instrs(vec![list()]).unwrap()
    );
}

#[test]
fn a_choice_picks_by_row_and_the_conditional_by_truth() {
    // the six instructions of a choice put the row at the condition on the stack:
    // at zero the function pushed second, which the conditional calls at one
    let choice = |condition: i64| {
        vec![
            Instr::Push(Rc::new(Value::from_number(condition))),
            Instr::BeginArray,
            Instr::Push(Rc::new(Value::from_function(pusher(20)))),
            Instr::Push(Rc::new(Value::from_function(pusher(10)))),
            Instr::EndArray(0),
            Instr::Prim(Primitive::Flip, 0),
            Instr::Prim(Primitive::Pick, 0),
        ]
    };
    let picked = run_instrs(choice(0)).unwrap();
    assert_eq!(picked[0].scalar_function().unwrap().instrs, pusher(10).instrs);
    let picked = run_instrs(choice(1)).unwrap();
    assert_eq!(picked[0].scalar_function().unwrap().instrs, pusher(20).instrs);
    // the conditional made of the same two functions
    let fused = |condition: i64| {
        vec![Instr::Push(Rc::new(Value::from_number(condition))), Instr::If(pusher(10), pusher(20))]
    };
    assert_eq!(numbers(&run_instrs(fused(1)).unwrap()), vec![vec![10]]);
    assert_eq!(numbers(&run_instrs(fused(0)).unwrap()), vec![vec![20]]);
}

#[test]
fn the_scope_that_is_handed_back_can_be_pushed() {
    let mut vm = Uiua::with_stdio();
    let scope = vm.in_scope(&vec![binding("x", vec![number("5", 0)])], false).unwrap();
    assert_eq!(vm.stack_size(), 0);
    vm.push_scope_imports(&scope);
    let stack = vm.take_stack();
    assert_eq!(stack.len(), 1);
    assert_eq!(stack[0].shape, vec![2]);
    match &stack[0].data[1] {
        Elem::Func(f) => {
            assert_eq!(f.id, FunctionId::Named("x".to_string()));
            assert_eq!(f.instrs, vec![Instr::Push(Rc::new(Value::from_number(5)))]);
        },
        other => panic!("{:?}", other),
    }
}

#[test]
fn the_span_of_a_failing_primitive_is_the_current_span() {
    let e = run(vec![prim(Primitive::Add, 7), number("1", 9)]).unwrap_err();
    match e {
        UiuaError::Traced { error, .. } => match *error {
            UiuaError::Run(m) => assert_eq!(m.span, at(7)),
            other => panic!("{:?}", other),
        },
        other => panic!("{:?}", other),
    }
}

#[test]
fn a_dfn_frame_leaves_with_its_call_even_when_the_call_fails() {
    let mut vm = Uiua::with_stdio();
    // a dfn of one argument that fails
    let e = vm
        .load_str(&line(vec![dfn(vec![prim(Primitive::Pop, 1), ident("a", 3)], 0), number("1", 6)]))
        .unwrap();
    assert_eq!(e, ());
    let e = vm
        .load_str(&line(vec![
            dfn(vec![prim(Primitive::Pop, 1), prim(Primitive::Pop, 2), ident("a", 3)], 0),
            number("1", 6),
        ]))
        .unwrap_err();
    assert_eq!(message(&e), "Stack was empty when evaluating argument 1");
    // no dfn is under way any more
    assert_eq!(message(&vm.recur().unwrap_err()), "Cannot recur outside of dfn");
}
