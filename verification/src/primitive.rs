//! The built-in operations of the language and what the compiler needs to
//! know of them: names, arities and inverses.

use vstd::prelude::*;
use vstd::string::*;

verus! {

/// Operations that reach outside the interpreter.
#[derive(Clone, Copy, Debug, PartialEq, Eq, Structural)]
pub enum IoOp {
    /// Run another source unit and take its bindings.
    Import,
}

/// A built-in operation.
#[derive(Clone, Copy, Debug, PartialEq, Eq, Structural)]
pub enum Primitive {
    /// Do nothing.
    Noop,
    /// Push the top value a second time.
    Dup,
    /// Exchange the two top values.
    Flip,
    /// Discard the top value.
    Pop,
    /// Move the top value to the antistack.
    Save,
    /// Move the top of the antistack back to the stack.
    Load,
    /// Negate every number.
    Neg,
    /// Replace every number `x` by `1 - x`.
    Not,
    /// Add two arrays of numbers of the same shape.
    Add,
    /// Reverse the rows of an array.
    Reverse,
    /// The first row of an array.
    First,
    /// The last row of an array.
    Last,
    /// The row of an array at an index.
    Pick,
    /// Call the function on top of the stack.
    Call,
    /// Call the innermost dfn again.
    Recur,
    /// Leave a number of enclosing loops.
    Break,
    /// Call a function a number of times.
    Repeat,
    /// Call a function below the top value.
    Dip,
    /// An operation on the world outside.
    Io(IoOp),
}

impl Primitive {
    /// How many primitives there are.
    pub open spec fn count() -> nat {
        19
    }

    /// The primitive at position `i` of the fixed enumeration.
    pub open spec fn spec_nth(i: int) -> Primitive {
        if i == 0 {
            Primitive::Noop
        } else if i == 1 {
            Primitive::Dup
        } else if i == 2 {
            Primitive::Flip
        } else if i == 3 {
            Primitive::Pop
        } else if i == 4 {
            Primitive::Save
        } else if i == 5 {
            Primitive::Load
        } else if i == 6 {
            Primitive::Neg
        } else if i == 7 {
            Primitive::Not
        } else if i == 8 {
            Primitive::Add
        } else if i == 9 {
            Primitive::Reverse
        } else if i == 10 {
            Primitive::First
        } else if i == 11 {
            Primitive::Last
        } else if i == 12 {
            Primitive::Pick
        } else if i == 13 {
            Primitive::Call
        } else if i == 14 {
            Primitive::Recur
        } else if i == 15 {
            Primitive::Break
        } else if i == 16 {
            Primitive::Repeat
        } else if i == 17 {
            Primitive::Dip
        } else {
            Primitive::Io(IoOp::Import)
        }
    }

    /// Every primitive once, in the fixed enumeration order.
    pub open spec fn spec_all() -> Seq<Primitive> {
        Seq::new(Self::count(), |i: int| Self::spec_nth(i))
    }

    /// The position of a primitive in the fixed enumeration.
    pub open spec fn spec_ordinal(self) -> int {
        match self {
            Primitive::Noop => 0,
            Primitive::Dup => 1,
            Primitive::Flip => 2,
            Primitive::Pop => 3,
            Primitive::Save => 4,
            Primitive::Load => 5,
            Primitive::Neg => 6,
            Primitive::Not => 7,
            Primitive::Add => 8,
            Primitive::Reverse => 9,
            Primitive::First => 10,
            Primitive::Last => 11,
            Primitive::Pick => 12,
            Primitive::Call => 13,
            Primitive::Recur => 14,
            Primitive::Break => 15,
            Primitive::Repeat => 16,
            Primitive::Dip => 17,
            Primitive::Io(IoOp::Import) => 18,
        }
    }

    /// How many values the primitive takes from the stack.
    pub open spec fn spec_args(self) -> u8 {
        match self {
            Primitive::Noop => 0,
            Primitive::Dup => 1,
            Primitive::Flip => 2,
            Primitive::Pop => 1,
            Primitive::Save => 1,
            Primitive::Load => 0,
            Primitive::Neg => 1,
            Primitive::Not => 1,
            Primitive::Add => 2,
            Primitive::Reverse => 1,
            Primitive::First => 1,
            Primitive::Last => 1,
            Primitive::Pick => 2,
            Primitive::Call => 1,
            Primitive::Recur => 0,
            Primitive::Break => 1,
            Primitive::Repeat => 2,
            Primitive::Dip => 2,
            Primitive::Io(IoOp::Import) => 1,
        }
    }

    /// How many values the primitive leaves on the stack.
    pub open spec fn spec_outputs(self) -> u8 {
        match self {
            Primitive::Noop => 0,
            Primitive::Dup => 2,
            Primitive::Flip => 2,
            Primitive::Pop => 0,
            Primitive::Save => 0,
            Primitive::Load => 1,
            Primitive::Neg => 1,
            Primitive::Not => 1,
            Primitive::Add => 1,
            Primitive::Reverse => 1,
            Primitive::First => 1,
            Primitive::Last => 1,
            Primitive::Pick => 1,
            Primitive::Call => 0,
            Primitive::Recur => 0,
            Primitive::Break => 0,
            Primitive::Repeat => 0,
            Primitive::Dip => 1,
            Primitive::Io(IoOp::Import) => 1,
        }
    }

    /// The primitive declared to undo this one, if there is one.
    pub open spec fn spec_inverse(self) -> Option<Primitive> {
        match self {
            Primitive::Noop => Some(Primitive::Noop),
            Primitive::Flip => Some(Primitive::Flip),
            Primitive::Save => Some(Primitive::Load),
            Primitive::Load => Some(Primitive::Save),
            Primitive::Neg => Some(Primitive::Neg),
            Primitive::Not => Some(Primitive::Not),
            Primitive::Reverse => Some(Primitive::Reverse),
            _ => None,
        }
    }

    /// The identifier of the primitive.
    pub open spec fn spec_name(self) -> Seq<char> {
        match self {
            Primitive::Noop => "noop"@,
            Primitive::Dup => "duplicate"@,
            Primitive::Flip => "flip"@,
            Primitive::Pop => "pop"@,
            Primitive::Save => "save"@,
            Primitive::Load => "load"@,
            Primitive::Neg => "negate"@,
            Primitive::Not => "not"@,
            Primitive::Add => "add"@,
            Primitive::Reverse => "reverse"@,
            Primitive::First => "first"@,
            Primitive::Last => "last"@,
            Primitive::Pick => "pick"@,
            Primitive::Call => "call"@,
            Primitive::Recur => "recur"@,
            Primitive::Break => "break"@,
            Primitive::Repeat => "repeat"@,
            Primitive::Dip => "dip"@,
            Primitive::Io(IoOp::Import) => "import"@,
        }
    }

    /// Whether source text writes the primitive as a glyph, so that its
    /// name is only a way to type it.
    pub open spec fn spec_has_glyph(self) -> bool {
        !(self is Io)
    }

    /// The name that a formatter replaces by the glyph, for the primitives that have one.
    pub open spec fn spec_format_name(self) -> Option<Seq<char>> {
        if self.spec_has_glyph() {
            Some(self.spec_name())
        } else {
            None
        }
    }

    /// Whether the primitive is reached through an ordinary identifier,
    /// and so gets a binding in every fresh scope.
    pub open spec fn spec_nameable(self) -> bool {
        self.spec_format_name() is None
    }

    /// How many values the primitive takes from the stack.
    pub fn args(&self) -> (r: u8)
        ensures
            r == self.spec_args(),
    {
        match self {
            Primitive::Noop => 0,
            Primitive::Dup => 1,
            Primitive::Flip => 2,
            Primitive::Pop => 1,
            Primitive::Save => 1,
            Primitive::Load => 0,
            Primitive::Neg => 1,
            Primitive::Not => 1,
            Primitive::Add => 2,
            Primitive::Reverse => 1,
            Primitive::First => 1,
            Primitive::Last => 1,
            Primitive::Pick => 2,
            Primitive::Call => 1,
            Primitive::Recur => 0,
            Primitive::Break => 1,
            Primitive::Repeat => 2,
            Primitive::Dip => 2,
            Primitive::Io(IoOp::Import) => 1,
        }
    }

    /// How many values the primitive leaves on the stack.
    pub fn outputs(&self) -> (r: u8)
        ensures
            r == self.spec_outputs(),
    {
        match self {
            Primitive::Noop => 0,
            Primitive::Dup => 2,
            Primitive::Flip => 2,
            Primitive::Pop => 0,
            Primitive::Save => 0,
            Primitive::Load => 1,
            Primitive::Neg => 1,
            Primitive::Not => 1,
            Primitive::Add => 1,
            Primitive::Reverse => 1,
            Primitive::First => 1,
            Primitive::Last => 1,
            Primitive::Pick => 1,
            Primitive::Call => 0,
            Primitive::Recur => 0,
            Primitive::Break => 0,
            Primitive::Repeat => 0,
            Primitive::Dip => 1,
            Primitive::Io(IoOp::Import) => 1,
        }
    }

    /// The primitive declared to undo this one, if there is one.
    pub fn inverse(&self) -> (r: Option<Primitive>)
        ensures
            r == self.spec_inverse(),
    {
        match self {
            Primitive::Noop => Some(Primitive::Noop),
            Primitive::Flip => Some(Primitive::Flip),
            Primitive::Save => Some(Primitive::Load),
            Primitive::Load => Some(Primitive::Save),
            Primitive::Neg => Some(Primitive::Neg),
            Primitive::Not => Some(Primitive::Not),
            Primitive::Reverse => Some(Primitive::Reverse),
            _ => None,
        }
    }

    /// The identifier of the primitive.
    pub fn name(&self) -> (r: &'static str)
        ensures
            r@ == self.spec_name(),
    {
        match self {
            Primitive::Noop => "noop",
            Primitive::Dup => "duplicate",
            Primitive::Flip => "flip",
            Primitive::Pop => "pop",
            Primitive::Save => "save",
            Primitive::Load => "load",
            Primitive::Neg => "negate",
            Primitive::Not => "not",
            Primitive::Add => "add",
            Primitive::Reverse => "reverse",
            Primitive::First => "first",
            Primitive::Last => "last",
            Primitive::Pick => "pick",
            Primitive::Call => "call",
            Primitive::Recur => "recur",
            Primitive::Break => "break",
            Primitive::Repeat => "repeat",
            Primitive::Dip => "dip",
            Primitive::Io(IoOp::Import) => "import",
        }
    }

    /// The name that a formatter replaces by the glyph, for the primitives that have one.
    pub fn format_name(&self) -> (r: Option<&'static str>)
        ensures
            r is Some == self.spec_format_name() is Some,
            r matches Some(s) ==> s@ == self.spec_format_name()->0,
    {
        match self {
            Primitive::Io(_) => None,
            _ => Some(self.name()),
        }
    }

    /// Every primitive once, in the fixed enumeration order.
    pub fn all() -> (r: Vec<Primitive>)
        ensures
            r@ == Self::spec_all(),
    {
        let r = vec![
            Primitive::Noop,
            Primitive::Dup,
            Primitive::Flip,
            Primitive::Pop,
            Primitive::Save,
            Primitive::Load,
            Primitive::Neg,
            Primitive::Not,
            Primitive::Add,
            Primitive::Reverse,
            Primitive::First,
            Primitive::Last,
            Primitive::Pick,
            Primitive::Call,
            Primitive::Recur,
            Primitive::Break,
            Primitive::Repeat,
            Primitive::Dip,
            Primitive::Io(IoOp::Import),
        ];
        assert(r@ =~= Self::spec_all());
        r
    }
}

/// Whether `s` begins with `prefix`.
pub fn starts_with(s: &str, prefix: &str) -> (r: bool)
    ensures
        r == prefix@.is_prefix_of(s@),
{
    let n = prefix.unicode_len();
    if n > s.unicode_len() {
        return false;
    }
    let mut i: usize = 0;
    while i < n
        invariant
            i <= n,
            n == prefix@.len(),
            n <= s@.len(),
            s@.subrange(0, i as int) == prefix@.subrange(0, i as int),
        decreases n - i,
    {
        if s.get_char(i) != prefix.get_char(i) {
            proof {
                if prefix@.is_prefix_of(s@) {
                    assert(s@.subrange(0, n as int)[i as int] == prefix@[i as int]);
                }
            }
            return false;
        }
        assert(s@.subrange(0, i + 1) =~= s@.subrange(0, i as int).push(s@[i as int]));
        assert(prefix@.subrange(0, i + 1) =~= prefix@.subrange(0, i as int).push(
            prefix@[i as int],
        ));
        i += 1;
    }
    assert(prefix@.subrange(0, n as int) =~= prefix@);
    true
}

/// Whether two texts hold the same characters.
pub fn same_text(a: &str, b: &str) -> (r: bool)
    ensures
        r == (a@ == b@),
{
    let r = a.unicode_len() == b.unicode_len() && starts_with(a, b);
    proof {
        if r {
            assert(a@.subrange(0, b@.len() as int) =~= a@);
        }
        if a@ == b@ {
            assert(a@.subrange(0, b@.len() as int) =~= a@);
        }
    }
    r
}

impl Primitive {
    /// Whether `name` is the beginning of the format name of the primitive.
    pub open spec fn spec_abbreviated_by(self, name: Seq<char>) -> bool {
        self.spec_has_glyph() && name.is_prefix_of(self.spec_name())
    }

    /// The position of the first primitive at or after `from` that `name` abbreviates.
    pub open spec fn spec_first_abbreviated(name: Seq<char>, from: int) -> Option<int>
        decreases Self::count() - from,
    {
        if from < 0 || from >= Self::count() {
            None
        } else if Self::spec_nth(from).spec_abbreviated_by(name) {
            Some(from)
        } else {
            Self::spec_first_abbreviated(name, from + 1)
        }
    }

    /// The primitive that a name of at least three characters abbreviates:
    /// the first in the enumeration whose format name begins with it,
    /// provided that the name is that format name in full or abbreviates no other.
    pub open spec fn spec_from_format_name(name: Seq<char>) -> Option<Primitive> {
        if name.len() < 3 {
            None
        } else {
            match Self::spec_first_abbreviated(name, 0) {
                None => None,
                Some(i) => if Self::spec_nth(i).spec_name() == name || Self::spec_first_abbreviated(
                    name,
                    i + 1,
                ) is None {
                    Some(Self::spec_nth(i))
                } else {
                    None
                },
            }
        }
    }

    /// The longest part of `name` that starts at `start`, has at most
    /// `len` and at least three characters, and abbreviates a primitive.
    pub open spec fn spec_longest(name: Seq<char>, start: int, len: int) -> Option<(Primitive, int)>
        decreases len,
    {
        if len < 3 || start < 0 || start + len > name.len() {
            None
        } else {
            match Self::spec_from_format_name(name.subrange(start, start + len)) {
                Some(p) => Some((p, len)),
                None => Self::spec_longest(name, start, len - 1),
            }
        }
    }

    /// The primitives that the rest of `name` from `start` on is made of,
    /// each with the part of the name that stands for it. Each part is
    /// the longest that abbreviates a primitive.
    pub open spec fn spec_parts(name: Seq<char>, start: int) -> Option<Seq<(Primitive, Seq<char>)>>
        decreases name.len() - start,
    {
        if start < 0 || start > name.len() {
            None
        } else if start == name.len() {
            Some(Seq::empty())
        } else {
            match Self::spec_longest(name, start, name.len() - start) {
                None => None,
                Some((p, len)) => if len < 3 || start + len > name.len() {
                    None
                } else {
                    match Self::spec_parts(name, start + len) {
                        None => None,
                        Some(rest) => Some(seq![(p, name.subrange(start, start + len))] + rest),
                    }
                },
            }
        }
    }

    /// The primitives that a run of abbreviated names stands for, first to last.
    pub open spec fn spec_from_multiname(name: Seq<char>) -> Option<Seq<(Primitive, Seq<char>)>> {
        if name.len() < 3 {
            None
        } else {
            Self::spec_parts(name, 0)
        }
    }

    /// Whether `name` is the beginning of the format name of the primitive.
    fn abbreviated_by(&self, name: &str) -> (r: bool)
        ensures
            r == self.spec_abbreviated_by(name@),
    {
        match self.format_name() {
            Some(full) => starts_with(full, name),
            None => false,
        }
    }

    /// The position of the first primitive at or after `from` that `name` abbreviates.
    fn first_abbreviated(all: &Vec<Primitive>, name: &str, from: usize) -> (r: Option<usize>)
        requires
            all@ == Self::spec_all(),
        ensures
            r is Some == Self::spec_first_abbreviated(name@, from as int) is Some,
            r matches Some(i) ==> i == Self::spec_first_abbreviated(name@, from as int)->0 && i
                < Self::count(),
    {
        let mut i: usize = from;
        while i < all.len()
            invariant
                from <= i,
                all@ == Self::spec_all(),
                Self::spec_first_abbreviated(name@, from as int) == Self::spec_first_abbreviated(
                    name@,
                    i as int,
                ),
            decreases all.len() - i,
        {
            if all[i].abbreviated_by(name) {
                return Some(i);
            }
            i += 1;
        }
        None
    }

    /// The primitive that a name of at least three characters abbreviates.
    pub fn from_format_name(name: &str) -> (r: Option<Primitive>)
        ensures
            r == Self::spec_from_format_name(name@),
    {
        if name.unicode_len() < 3 {
            return None;
        }
        let all = Self::all();
        match Self::first_abbreviated(&all, name, 0) {
            None => None,
            Some(i) => {
                let p = all[i];
                if same_text(p.name(), name) {
                    Some(p)
                } else {
                    match Self::first_abbreviated(&all, name, i + 1) {
                        None => Some(p),
                        Some(_) => None,
                    }
                }
            },
        }
    }

    /// The primitives that a run of abbreviated names stands for, first
    /// to last, each with the part of the name that stands for it.
    pub fn from_multiname(name: &str) -> (r: Option<Vec<(Primitive, String)>>)
        ensures
            r is Some == Self::spec_from_multiname(name@) is Some,
            r matches Some(parts) ==> parts@.len() == Self::spec_from_multiname(name@)->0.len()
                && forall|i: int|
                0 <= i < parts@.len() ==> (#[trigger] parts@[i]).0 == Self::spec_from_multiname(
                    name@,
                )->0[i].0 && parts@[i].1@ == Self::spec_from_multiname(name@)->0[i].1,
    {
        let n = name.unicode_len();
        if n < 3 {
            return None;
        }
        let mut parts: Vec<(Primitive, String)> = Vec::new();
        let ghost mut found: Seq<(Primitive, Seq<char>)> = Seq::empty();
        let mut start: usize = 0;
        while start < n
            invariant
                start <= n,
                n == name@.len(),
                parts@.len() == found.len(),
                forall|i: int|
                    0 <= i < parts@.len() ==> (#[trigger] parts@[i]).0 == found[i].0
                        && parts@[i].1@ == found[i].1,
                Self::spec_parts(name@, 0) == match Self::spec_parts(name@, start as int) {
                    None => None,
                    Some(rest) => Some(found + rest),
                },
            decreases n - start,
        {
            let mut len: usize = n - start;
            let mut hit: Option<Primitive> = None;
            while len >= 3 && hit.is_none()
                invariant
                    start + len <= n,
                    n == name@.len(),
                    hit is None ==> Self::spec_longest(name@, start as int, n - start)
                        == Self::spec_longest(name@, start as int, len as int),
                    hit matches Some(p) ==> len >= 3 && Self::spec_longest(
                        name@,
                        start as int,
                        n - start,
                    ) == Some((p, len as int)),
                decreases len + (if hit is None { 1nat } else { 0nat }),
            {
                let part = name.substring_char(start, start + len);
                match Self::from_format_name(part) {
                    Some(p) => {
                        hit = Some(p);
                    },
                    None => {
                        len -= 1;
                    },
                }
            }
            match hit {
                None => {
                    return None;
                },
                Some(p) => {
                    let part = name.substring_char(start, start + len);
                    parts.push((p, String::from_str(part)));
                    proof {
                        let piece = (p, name@.subrange(start as int, start + len));
                        match Self::spec_parts(name@, start + len) {
                            None => {},
                            Some(rest) => {
                                assert(found.push(piece) + rest =~= found + (seq![piece] + rest));
                            },
                        }
                        found = found.push(piece);
                    }
                    start += len;
                },
            }
        }
        proof {
            assert(found + Seq::empty() =~= found);
        }
        Some(parts)
    }
}

} // verus!
