//! What a parser hands over: words, items, and the errors it found.

use vstd::prelude::*;
use crate::function::FunctionId;
use crate::primitive::Primitive;
use crate::span::Sp;

verus! {

/// One word of a line.
#[derive(Debug, PartialEq, Eq)]
pub enum Word {
    /// A numeral, as written. Only numerals of whole numbers that fit in
    /// 64 bits compile; any other is an invalid number.
    Number(String),
    Char(char),
    String(String),
    Ident(String),
    /// Words joined into a list without brackets; they are taken as values.
    Strand(Vec<Sp<Word>>),
    /// Words between brackets; they run, and what they leave forms the list.
    Array(Vec<Sp<Word>>),
    /// A function written in place.
    Func(Func),
    /// A function written in place whose arguments have the names `a`, `b`, `c` and so on.
    Dfn(Func),
    Primitive(Primitive),
    /// A modifier with the functions it applies to.
    Modified(Box<Modified>),
    Spaces,
}

/// The body of a function written in place.
#[derive(Debug, PartialEq, Eq)]
pub struct Func {
    pub id: FunctionId,
    pub body: Vec<Sp<Word>>,
}

/// A modifier and the words that follow it.
#[derive(Debug, PartialEq, Eq)]
pub struct Modified {
    pub modifier: Sp<Primitive>,
    pub words: Vec<Sp<Word>>,
}

/// A name and the words whose value it gets.
#[derive(Debug, PartialEq, Eq)]
pub struct Binding {
    pub name: Sp<String>,
    pub words: Vec<Sp<Word>>,
}

/// One item of a source unit.
#[derive(Debug, PartialEq, Eq)]
pub enum Item {
    /// Items that run in a scope of their own. `test` marks a test block.
    Scoped { items: Vec<Item>, test: bool },
    /// A line of words, with the comment that follows it.
    Words(Vec<Sp<Word>>, Option<String>),
    /// A binding, with the comment that follows it.
    Binding(Binding, Option<String>),
    Newlines,
    Comment(String),
}

/// A parsed source unit.
#[derive(Debug, PartialEq, Eq)]
pub struct Parsed {
    pub items: Vec<Item>,
    pub errors: Vec<Sp<String>>,
}

/// Whether a name stands for a function: it starts with a capital letter.
pub open spec fn functiony(name: Seq<char>) -> bool {
    name.len() > 0 && 'A' <= name[0] <= 'Z'
}

/// Whether a name stands for a function: it starts with a capital letter.
pub fn is_functiony(name: &str) -> (r: bool)
    ensures
        r == functiony(name@),
{
    if name.unicode_len() == 0 {
        false
    } else {
        let c = name.get_char(0);
        'A' <= c && c <= 'Z'
    }
}

/// Whether one of the words is the import primitive.
pub open spec fn has_import(words: Seq<Sp<Word>>) -> bool {
    exists|i: int|
        0 <= i < words.len() && (#[trigger] words[i]).value == Word::Primitive(
            Primitive::Io(crate::primitive::IoOp::Import),
        )
}

/// Whether one of the words is the import primitive.
pub fn words_have_import(words: &Vec<Sp<Word>>) -> (r: bool)
    ensures
        r == has_import(words@),
{
    let mut i: usize = 0;
    while i < words.len()
        invariant
            i <= words.len(),
            forall|j: int|
                0 <= j < i ==> (#[trigger] words@[j]).value != Word::Primitive(
                    Primitive::Io(crate::primitive::IoOp::Import),
                ),
        decreases words.len() - i,
    {
        match &words[i].value {
            Word::Primitive(Primitive::Io(crate::primitive::IoOp::Import)) => {
                return true;
            },
            _ => {},
        }
        i += 1;
    }
    false
}

} // verus!
