use uiua::primitive::{same_text, starts_with, IoOp, Primitive};
use uiua::text::{push_decimal, push_shape, push_signed_decimal, read_number, with_number, with_text};

#[test]
fn every_primitive_is_listed_once() {
    let all = Primitive::all();
    assert_eq!(all.len(), 19);
    for (i, p) in all.iter().enumerate() {
        for q in &all[i + 1..] {
            assert_ne!(p, q);
        }
    }
    assert_eq!(all[0], Primitive::Noop);
    assert_eq!(all[18], Primitive::Io(IoOp::Import));
}

#[test]
fn arities_of_some_primitives() {
    assert_eq!((Primitive::Noop.args(), Primitive::Noop.outputs()), (0, 0));
    assert_eq!((Primitive::Dup.args(), Primitive::Dup.outputs()), (1, 2));
    assert_eq!((Primitive::Flip.args(), Primitive::Flip.outputs()), (2, 2));
    assert_eq!((Primitive::Add.args(), Primitive::Add.outputs()), (2, 1));
    assert_eq!((Primitive::Pick.args(), Primitive::Pick.outputs()), (2, 1));
    assert_eq!((Primitive::Save.args(), Primitive::Save.outputs()), (1, 0));
    assert_eq!((Primitive::Load.args(), Primitive::Load.outputs()), (0, 1));
}

#[test]
fn declared_inverses() {
    assert_eq!(Primitive::Neg.inverse(), Some(Primitive::Neg));
    assert_eq!(Primitive::Not.inverse(), Some(Primitive::Not));
    assert_eq!(Primitive::Reverse.inverse(), Some(Primitive::Reverse));
    assert_eq!(Primitive::Flip.inverse(), Some(Primitive::Flip));
    assert_eq!(Primitive::Noop.inverse(), Some(Primitive::Noop));
    assert_eq!(Primitive::Save.inverse(), Some(Primitive::Load));
    assert_eq!(Primitive::Load.inverse(), Some(Primitive::Save));
    assert_eq!(Primitive::Add.inverse(), None);
    assert_eq!(Primitive::First.inverse(), None);
    assert_eq!(Primitive::Call.inverse(), None);
}

#[test]
fn only_import_is_reached_by_its_name() {
    for p in Primitive::all() {
        let nameable = p.format_name().is_none();
        assert_eq!(nameable, p == Primitive::Io(IoOp::Import), "{:?}", p);
        if let Some(name) = p.format_name() {
            assert_eq!(name, p.name());
        }
    }
    assert_eq!(Primitive::Io(IoOp::Import).name(), "import");
    assert_eq!(Primitive::Reverse.name(), "reverse");
}

#[test]
fn format_names_can_be_abbreviated() {
    assert_eq!(Primitive::from_format_name("reverse"), Some(Primitive::Reverse));
    assert_eq!(Primitive::from_format_name("rev"), Some(Primitive::Reverse));
    assert_eq!(Primitive::from_format_name("fir"), Some(Primitive::First));
    assert_eq!(Primitive::from_format_name("dup"), Some(Primitive::Dup));
    // two letters are too few
    assert_eq!(Primitive::from_format_name("re"), None);
    // "rec" is recur only, "rep" is repeat only
    assert_eq!(Primitive::from_format_name("rec"), Some(Primitive::Recur));
    assert_eq!(Primitive::from_format_name("rep"), Some(Primitive::Repeat));
    // a name in full wins over longer names that begin with it
    assert_eq!(Primitive::from_format_name("not"), Some(Primitive::Not));
    // no primitive
    assert_eq!(Primitive::from_format_name("xyz"), None);
    // import has no format name
    assert_eq!(Primitive::from_format_name("import"), None);
    assert_eq!(Primitive::from_format_name("imp"), None);
}

#[test]
fn a_run_of_abbreviations_is_split_longest_first() {
    let parts = Primitive::from_multiname("revfir").unwrap();
    assert_eq!(
        parts,
        vec![(Primitive::Reverse, "rev".to_string()), (Primitive::First, "fir".to_string())]
    );
    let parts = Primitive::from_multiname("reverse").unwrap();
    assert_eq!(parts, vec![(Primitive::Reverse, "reverse".to_string())]);
    let parts = Primitive::from_multiname("negnotadd").unwrap();
    assert_eq!(
        parts.iter().map(|p| p.0).collect::<Vec<_>>(),
        vec![Primitive::Neg, Primitive::Not, Primitive::Add]
    );
    assert_eq!(Primitive::from_multiname("re"), None);
    assert_eq!(Primitive::from_multiname("revx"), None);
    assert_eq!(Primitive::from_multiname("xyzrev"), None);
    assert_eq!(Primitive::from_multiname(""), None);
}

#[test]
fn prefixes_and_equal_texts() {
    assert!(starts_with("reverse", "rev"));
    assert!(starts_with("reverse", ""));
    assert!(starts_with("reverse", "reverse"));
    assert!(!starts_with("rev", "reverse"));
    assert!(!starts_with("reverse", "rex"));
    assert!(same_text("abc", "abc"));
    assert!(!same_text("abc", "abd"));
    assert!(!same_text("abc", "ab"));
    assert!(same_text("", ""));
}

#[test]
fn decimal_numerals_are_written() {
    let mut out = String::from("n=");
    push_decimal(&mut out, 0);
    assert_eq!(out, "n=0");
    let mut out = String::new();
    push_decimal(&mut out, 10);
    assert_eq!(out, "10");
    let mut out = String::new();
    push_decimal(&mut out, u64::MAX);
    assert_eq!(out, "18446744073709551615");
    let mut out = String::new();
    push_signed_decimal(&mut out, -42);
    assert_eq!(out, "-42");
    let mut out = String::new();
    push_signed_decimal(&mut out, i64::MIN);
    assert_eq!(out, "-9223372036854775808");
    let mut out = String::new();
    push_signed_decimal(&mut out, 7);
    assert_eq!(out, "7");
    assert_eq!(with_number("a", 12, "b"), "a12b");
    assert_eq!(with_text("a", "b"), "ab");
}

#[test]
fn shapes_are_written_between_brackets() {
    let mut out = String::new();
    push_shape(&mut out, &vec![]);
    assert_eq!(out, "[]");
    let mut out = String::new();
    push_shape(&mut out, &vec![2]);
    assert_eq!(out, "[2]");
    let mut out = String::from("shape ");
    push_shape(&mut out, &vec![2, 3, 10]);
    assert_eq!(out, "shape [2, 3, 10]");
}

#[test]
fn numerals_are_read() {
    assert_eq!(read_number("0"), Some(0));
    assert_eq!(read_number("42"), Some(42));
    assert_eq!(read_number("007"), Some(7));
    assert_eq!(read_number("-5"), Some(-5));
    assert_eq!(read_number("-0"), Some(0));
    assert_eq!(read_number("9223372036854775807"), Some(i64::MAX));
    assert_eq!(read_number("9223372036854775808"), None);
    assert_eq!(read_number("-9223372036854775808"), Some(i64::MIN));
    assert_eq!(read_number("-9223372036854775809"), None);
    assert_eq!(read_number("99999999999999999999999"), None);
    assert_eq!(read_number(""), None);
    assert_eq!(read_number("-"), None);
    assert_eq!(read_number("1.5"), None);
    assert_eq!(read_number("12a"), None);
    assert_eq!(read_number("+1"), None);
    assert_eq!(read_number(" 1"), None);
}
