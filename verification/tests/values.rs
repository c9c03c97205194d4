use std::rc::Rc;

use uiua::function::{Function, FunctionId, Instr};
use uiua::value::{same_shape, Elem, Fault, Value};

fn list(numbers: &[i64]) -> Value {
    Value { shape: vec![numbers.len()], data: numbers.iter().map(|n| Elem::Num(*n)).collect() }
}

fn table(rows: usize, columns: usize, numbers: &[i64]) -> Value {
    Value { shape: vec![rows, columns], data: numbers.iter().map(|n| Elem::Num(*n)).collect() }
}

fn pusher(n: i64) -> Rc<Function> {
    Rc::new(Function {
        id: FunctionId::Main,
        instrs: vec![Instr::Push(Rc::new(Value::from_number(n)))],
        dfn_args: None,
    })
}

#[test]
fn scalars_have_an_empty_shape_and_one_element() {
    assert_eq!(Value::from_number(7), Value { shape: vec![], data: vec![Elem::Num(7)] });
    assert_eq!(Value::from_char('x'), Value { shape: vec![], data: vec![Elem::Char('x')] });
}

#[test]
fn a_text_is_a_list_of_characters() {
    assert_eq!(
        Value::from_text("hé"),
        Value { shape: vec![2], data: vec![Elem::Char('h'), Elem::Char('é')] }
    );
    assert_eq!(Value::from_text(""), Value { shape: vec![0], data: vec![] });
}

#[test]
fn the_empty_value_is_a_list_without_elements() {
    assert_eq!(Value::empty(), Value { shape: vec![0], data: vec![] });
}

#[test]
fn a_row_shares_the_functions_of_its_array() {
    let f = pusher(1);
    let both = Value::from_functions(vec![f.clone(), pusher(2)]);
    let row = both.first().unwrap();
    assert_eq!(row, Value::from_function(f.clone()));
    match &row.data[0] {
        Elem::Func(g) => assert!(Rc::ptr_eq(g, &f)),
        other => panic!("not a function: {:?}", other),
    }
    // one handle here, one in the list, one in the row
    assert_eq!(Rc::strong_count(&f), 3);
}

#[test]
fn scalar_function_is_told_from_other_values() {
    let f = pusher(1);
    assert!(Value::from_function(f.clone()).is_function());
    assert!(Rc::ptr_eq(&Value::from_function(f.clone()).scalar_function().unwrap(), &f));
    let both = Value::from_functions(vec![f.clone(), f.clone()]);
    assert_eq!(both.shape, vec![2]);
    assert!(both.is_function());
    assert!(both.scalar_function().is_none());
    assert!(!Value::from_number(1).is_function());
    assert!(Value::from_number(1).scalar_function().is_none());
    assert!(!Value::empty().is_function());
}

#[test]
fn as_nat_takes_scalar_naturals_only() {
    assert_eq!(Value::from_number(0).as_nat(), Some(0));
    assert_eq!(Value::from_number(12).as_nat(), Some(12));
    assert_eq!(Value::from_number(-1).as_nat(), None);
    assert_eq!(Value::from_char('1').as_nat(), None);
    assert_eq!(list(&[1]).as_nat(), None);
    assert_eq!(Value::empty().as_nat(), None);
}

#[test]
fn rows_of_a_table() {
    let t = table(2, 3, &[1, 2, 3, 4, 5, 6]);
    assert_eq!(t.row_count(), 2);
    assert_eq!(t.row_len(), 3);
    assert_eq!(t.first(), Some(list(&[1, 2, 3])));
    assert_eq!(t.last(), Some(list(&[4, 5, 6])));
    assert_eq!(t.pick(1), Some(list(&[4, 5, 6])));
    assert_eq!(t.pick(2), None);
}

#[test]
fn rows_of_a_list_are_scalars() {
    let l = list(&[7, 8, 9]);
    assert_eq!(l.first(), Some(Value::from_number(7)));
    assert_eq!(l.last(), Some(Value::from_number(9)));
    assert_eq!(l.pick(1), Some(Value::from_number(8)));
}

#[test]
fn a_scalar_is_its_own_only_row() {
    let s = Value::from_number(5);
    assert_eq!(s.row_count(), 1);
    assert_eq!(s.first(), Some(Value::from_number(5)));
    assert_eq!(s.last(), Some(Value::from_number(5)));
    assert_eq!(s.pick(0), Some(Value::from_number(5)));
    assert_eq!(s.pick(1), None);
}

#[test]
fn an_empty_list_has_no_rows() {
    assert_eq!(Value::empty().row_count(), 0);
    assert_eq!(Value::empty().row_len(), 0);
    assert_eq!(Value::empty().first(), None);
    assert_eq!(Value::empty().last(), None);
    assert_eq!(Value::empty().pick(0), None);
}

#[test]
fn reverse_turns_the_rows_round() {
    assert_eq!(list(&[1, 2, 3]).reverse(), list(&[3, 2, 1]));
    assert_eq!(
        table(3, 2, &[1, 2, 3, 4, 5, 6]).reverse(),
        table(3, 2, &[5, 6, 3, 4, 1, 2])
    );
    assert_eq!(Value::from_number(4).reverse(), Value::from_number(4));
    assert_eq!(Value::empty().reverse(), Value::empty());
}

#[test]
fn reverse_keeps_elements_after_the_last_full_row() {
    // five elements under a shape of two rows: rows of two, and one element left over
    let odd = Value {
        shape: vec![2],
        data: vec![Elem::Num(1), Elem::Num(2), Elem::Num(3), Elem::Num(4), Elem::Num(5)],
    };
    let reversed = odd.reverse();
    assert_eq!(
        reversed.data,
        vec![Elem::Num(3), Elem::Num(4), Elem::Num(1), Elem::Num(2), Elem::Num(5)]
    );
    assert_eq!(reversed.reverse(), odd);
}

#[test]
fn reverse_twice_is_the_value() {
    let t = table(3, 2, &[1, 2, 3, 4, 5, 6]);
    assert_eq!(t.reverse().reverse(), t);
}

#[test]
fn first_of_reversed_is_last() {
    let t = table(3, 2, &[1, 2, 3, 4, 5, 6]);
    assert_eq!(t.reverse().first(), t.last());
    assert_eq!(t.reverse().last(), t.first());
    assert_eq!(Value::empty().reverse().first(), Value::empty().last());
}

#[test]
fn stack_makes_one_array_of_rows() {
    let rows = vec![Rc::new(list(&[1, 2])), Rc::new(list(&[3, 4])), Rc::new(list(&[5, 6]))];
    assert_eq!(Value::stack(&rows), Some(table(3, 2, &[1, 2, 3, 4, 5, 6])));
    let scalars = vec![Rc::new(Value::from_number(1)), Rc::new(Value::from_number(2))];
    assert_eq!(Value::stack(&scalars), Some(list(&[1, 2])));
    assert_eq!(Value::stack(&vec![]), Some(Value::empty()));
}

#[test]
fn stack_refuses_rows_of_different_shapes() {
    let rows = vec![Rc::new(list(&[1, 2])), Rc::new(list(&[3]))];
    assert_eq!(Value::stack(&rows), None);
    let mixed = vec![Rc::new(Value::from_number(1)), Rc::new(list(&[1]))];
    assert_eq!(Value::stack(&mixed), None);
}

#[test]
fn negated_changes_every_sign() {
    assert_eq!(list(&[1, -2, 0]).negated(), Ok(list(&[-1, 2, 0])));
    assert_eq!(Value::from_number(i64::MAX).negated(), Ok(Value::from_number(-i64::MAX)));
    assert_eq!(Value::from_number(i64::MIN).negated(), Err(Fault::OutOfRange));
    assert_eq!(Value::from_char('a').negated(), Err(Fault::NotNumbers));
    // what is not a number is found before what is out of range
    let both = Value { shape: vec![2], data: vec![Elem::Num(i64::MIN), Elem::Char('a')] };
    assert_eq!(both.negated(), Err(Fault::NotNumbers));
}

#[test]
fn negated_twice_is_the_value() {
    let v = list(&[3, -4, i64::MAX]);
    assert_eq!(v.negated().unwrap().negated(), Ok(v));
}

#[test]
fn complemented_takes_from_one() {
    assert_eq!(list(&[0, 1, 5]).complemented(), Ok(list(&[1, 0, -4])));
    assert_eq!(Value::from_number(i64::MIN + 2).complemented(), Ok(Value::from_number(i64::MAX)));
    assert_eq!(Value::from_number(i64::MIN + 1).complemented(), Err(Fault::OutOfRange));
    assert_eq!(Value::from_number(i64::MIN).complemented(), Err(Fault::OutOfRange));
    assert_eq!(Value::from_text("a").complemented(), Err(Fault::NotNumbers));
}

#[test]
fn complemented_twice_is_the_value() {
    let v = list(&[0, 1, -7, i64::MAX]);
    assert_eq!(v.complemented().unwrap().complemented(), Ok(v));
}

#[test]
fn plus_adds_position_by_position() {
    assert_eq!(list(&[1, 2]).plus(&list(&[10, 20])), Ok(list(&[11, 22])));
    assert_eq!(Value::from_number(2).plus(&Value::from_number(3)), Ok(Value::from_number(5)));
    assert_eq!(list(&[1, 2]).plus(&list(&[1])), Err(Fault::Shapes));
    assert_eq!(list(&[1]).plus(&Value::from_number(1)), Err(Fault::Shapes));
    assert_eq!(list(&[1]).plus(&Value::from_text("a")), Err(Fault::NotNumbers));
    assert_eq!(
        Value::from_number(i64::MAX).plus(&Value::from_number(1)),
        Err(Fault::OutOfRange)
    );
    assert_eq!(
        Value::from_number(i64::MIN).plus(&Value::from_number(-1)),
        Err(Fault::OutOfRange)
    );
    assert_eq!(
        Value::from_number(i64::MAX).plus(&Value::from_number(i64::MIN)),
        Ok(Value::from_number(-1))
    );
}

#[test]
fn a_list_of_characters_is_a_text() {
    assert_eq!(Value::from_text("A.ua").as_text(), Some("A.ua".to_string()));
    assert_eq!(Value::from_text("").as_text(), Some(String::new()));
    assert_eq!(Value::empty().as_text(), Some(String::new()));
    // a scalar is no list
    assert_eq!(Value::from_char('A').as_text(), None);
    assert_eq!(list(&[1]).as_text(), None);
    let mixed = Value { shape: vec![2], data: vec![Elem::Char('a'), Elem::Num(1)] };
    assert_eq!(mixed.as_text(), None);
}

#[test]
fn shapes_are_compared_by_their_dimensions() {
    assert!(same_shape(&vec![2, 3], &vec![2, 3]));
    assert!(!same_shape(&vec![2, 3], &vec![3, 2]));
    assert!(!same_shape(&vec![2], &vec![2, 1]));
    assert!(same_shape(&vec![], &vec![]));
}
