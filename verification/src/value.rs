//! Array values: a shape and a flat buffer of elements, row after row.

use vstd::prelude::*;
use vstd::string::*;
use std::rc::Rc;
use crate::function::{Function, FunctionView, function_view};

verus! {

/// One element of an array.
#[derive(Clone, Debug, PartialEq, Eq)]
pub enum Elem {
    /// A number. Numbers are whole numbers of 64 bits; arithmetic that
    /// leaves that range is an error.
    Num(i64),
    Char(char),
    Func(Rc<Function>),
}

/// An array. A scalar has an empty shape and one element.
#[derive(Clone, Debug, PartialEq, Eq)]
pub struct Value {
    pub shape: Vec<usize>,
    pub data: Vec<Elem>,
}

/// The mathematical model of an [`Elem`].
pub enum ElemView {
    Num(i64),
    Char(char),
    Func(FunctionView),
}

/// The mathematical model of a [`Value`].
pub struct ValueView {
    pub shape: Seq<usize>,
    pub data: Seq<ElemView>,
}

/// The model of an element.
pub open spec fn elem_view(e: Elem) -> ElemView
    decreases e, 0int,
{
    match e {
        Elem::Num(n) => ElemView::Num(n),
        Elem::Char(c) => ElemView::Char(c),
        Elem::Func(f) => ElemView::Func(function_view(*f)),
    }
}

/// The models of a sequence of elements, in order.
pub open spec fn elems_view(elems: Seq<Elem>) -> Seq<ElemView>
    decreases elems, 1int,
{
    Seq::new(
        elems.len(),
        |i: int|
            if 0 <= i < elems.len() {
                elem_view(elems[i])
            } else {
                ElemView::Num(0)
            },
    )
}

/// The model of a value.
pub open spec fn value_view(v: Value) -> ValueView
    decreases v, 2int,
{
    ValueView { shape: v.shape@, data: elems_view(v.data@) }
}

impl View for Elem {
    type V = ElemView;

    open spec fn view(&self) -> ElemView {
        elem_view(*self)
    }
}

impl View for Value {
    type V = ValueView;

    open spec fn view(&self) -> ValueView {
        value_view(*self)
    }
}

/// A second handle to a shared value.
///
/// Trusted: this is `Rc::clone`, which hands out another pointer to the same
/// allocation, so what the new handle points to is what the old one points to.
#[verifier::external_body]
pub(crate) fn share<T>(rc: &Rc<T>) -> (r: Rc<T>)
    ensures
        r == *rc,
{
    Rc::clone(rc)
}

impl ElemView {
    /// The element that holds a character.
    pub open spec fn of_char(c: char) -> ElemView {
        ElemView::Char(c)
    }

    /// The character that the element holds, a space where it holds none.
    pub open spec fn char_or_space(self) -> char {
        match self {
            ElemView::Char(c) => c,
            _ => ' ',
        }
    }
}

impl ValueView {
    /// The scalar that holds one number.
    pub open spec fn number(n: i64) -> ValueView {
        ValueView { shape: Seq::empty(), data: seq![ElemView::Num(n)] }
    }

    /// The scalar that holds one character.
    pub open spec fn character(c: char) -> ValueView {
        ValueView { shape: Seq::empty(), data: seq![ElemView::Char(c)] }
    }

    /// The list of the characters of a text.
    pub open spec fn text(s: Seq<char>) -> ValueView {
        ValueView {
            shape: seq![s.len() as usize],
            data: Seq::new(s.len(), |i: int| ElemView::of_char(s[i])),
        }
    }

    /// The scalar that holds one function.
    pub open spec fn function(f: FunctionView) -> ValueView {
        ValueView { shape: Seq::empty(), data: seq![ElemView::Func(f)] }
    }

    /// The list of some functions.
    pub open spec fn functions(fs: Seq<FunctionView>) -> ValueView {
        ValueView {
            shape: seq![fs.len() as usize],
            data: Seq::new(fs.len(), |i: int| ElemView::Func(fs[i])),
        }
    }

    /// The list without elements: what a binding holds when its expression left nothing.
    pub open spec fn empty() -> ValueView {
        ValueView { shape: seq![0usize], data: Seq::empty() }
    }

    /// Whether the value holds functions. An array is told by its first element.
    pub open spec fn is_function(self) -> bool {
        self.data.len() > 0 && self.data[0] is Func
    }

    /// The function that a scalar function value holds.
    pub open spec fn scalar_function(self) -> Option<FunctionView> {
        if self.shape.len() == 0 && self.data.len() > 0 {
            match self.data[0] {
                ElemView::Func(f) => Some(f),
                _ => None,
            }
        } else {
            None
        }
    }

    /// The natural number that a scalar holds, if it holds one.
    pub open spec fn as_nat(self) -> Option<usize> {
        if self.shape.len() == 0 && self.data.len() > 0 {
            match self.data[0] {
                ElemView::Num(n) => if 0 <= n <= usize::MAX {
                    Some(n as usize)
                } else {
                    None
                },
                _ => None,
            }
        } else {
            None
        }
    }

    /// Whether every element is a character.
    pub open spec fn all_chars(self) -> bool {
        forall|i: int| 0 <= i < self.data.len() ==> (#[trigger] self.data[i]) is Char
    }

    /// The text that a list of characters holds.
    pub open spec fn as_text(self) -> Option<Seq<char>> {
        if self.shape.len() == 1 && self.all_chars() {
            Some(
                Seq::new(self.data.len(), |i: int| self.data[i].char_or_space()),
            )
        } else {
            None
        }
    }

    /// Whether every element is a number.
    pub open spec fn all_numbers(self) -> bool {
        forall|i: int| 0 <= i < self.data.len() ==> (#[trigger] self.data[i]) is Num
    }

    /// The number at a position of the buffer, zero where there is none.
    pub open spec fn number_at(self, i: int) -> int {
        if 0 <= i < self.data.len() {
            match self.data[i] {
                ElemView::Num(n) => n as int,
                _ => 0,
            }
        } else {
            0
        }
    }
}

impl Elem {
    /// The same element again; a function is shared, not copied.
    pub fn share(&self) -> (r: Elem)
        ensures
            r == *self,
    {
        match self {
            Elem::Num(n) => Elem::Num(*n),
            Elem::Char(c) => Elem::Char(*c),
            Elem::Func(f) => Elem::Func(share(f)),
        }
    }
}

/// A copy of a list of dimensions.
pub fn copy_shape(shape: &Vec<usize>) -> (r: Vec<usize>)
    ensures
        r@ == shape@,
{
    let mut r: Vec<usize> = Vec::new();
    let mut i: usize = 0;
    while i < shape.len()
        invariant
            i <= shape.len(),
            r@ == shape@.subrange(0, i as int),
        decreases shape.len() - i,
    {
        r.push(shape[i]);
        assert(r@ =~= shape@.subrange(0, i + 1));
        i += 1;
    }
    assert(r@ =~= shape@);
    r
}

impl Value {
    /// The scalar that holds one number.
    pub fn from_number(n: i64) -> (r: Value)
        ensures
            r@ == ValueView::number(n),
    {
        let r = Value { shape: Vec::new(), data: vec![Elem::Num(n)] };
        assert(r@.data =~= seq![ElemView::Num(n)]);
        r
    }

    /// The scalar that holds one character.
    pub fn from_char(c: char) -> (r: Value)
        ensures
            r@ == ValueView::character(c),
    {
        let r = Value { shape: Vec::new(), data: vec![Elem::Char(c)] };
        assert(r@.data =~= seq![ElemView::Char(c)]);
        r
    }

    /// The list of the characters of a text.
    pub fn from_text(s: &str) -> (r: Value)
        ensures
            r@ == ValueView::text(s@),
    {
        let n = s.unicode_len();
        let mut data: Vec<Elem> = Vec::new();
        let mut i: usize = 0;
        while i < n
            invariant
                i <= n,
                n == s@.len(),
                data@.len() == i,
                forall|j: int| 0 <= j < i ==> data@[j] == Elem::Char(s@[j]),
            decreases n - i,
        {
            data.push(Elem::Char(s.get_char(i)));
            i += 1;
        }
        let r = Value { shape: vec![n], data };
        assert(r@.shape =~= seq![s@.len() as usize]);
        assert forall|j: int| 0 <= j < n implies r@.data[j] == ElemView::Char(s@[j]) by {
            assert(r.data@[j] == Elem::Char(s@[j]));
        }
        assert(r@.data =~= ValueView::text(s@).data);
        r
    }

    /// The scalar that holds one function.
    pub fn from_function(f: Rc<Function>) -> (r: Value)
        ensures
            r@ == ValueView::function(f@),
    {
        let r = Value { shape: Vec::new(), data: vec![Elem::Func(f)] };
        assert(r@.data =~= seq![ElemView::Func(f@)]);
        r
    }

    /// The list without elements.
    pub fn empty() -> (r: Value)
        ensures
            r@ == ValueView::empty(),
    {
        let r = Value { shape: vec![0usize], data: Vec::new() };
        assert(r@.shape =~= seq![0usize]);
        assert(r@.data =~= Seq::empty());
        r
    }

    /// Another value with the same shape and elements; functions are shared.
    pub fn copy(&self) -> (r: Value)
        ensures
            r@ == self@,
    {
        let mut data: Vec<Elem> = Vec::new();
        let mut i: usize = 0;
        while i < self.data.len()
            invariant
                i <= self.data.len(),
                data@ == self.data@.subrange(0, i as int),
            decreases self.data.len() - i,
        {
            data.push(self.data[i].share());
            assert(data@ =~= self.data@.subrange(0, i + 1));
            i += 1;
        }
        assert(data@ =~= self.data@);
        Value { shape: copy_shape(&self.shape), data }
    }

    /// The value behind a shared handle: the value itself where the
    /// handle is the only one, else a copy.
    pub fn take(shared: Rc<Value>) -> (r: Value)
        ensures
            r@ == shared@,
    {
        match Rc::try_unwrap(shared) {
            Ok(v) => v,
            Err(still_shared) => still_shared.copy(),
        }
    }

    /// Whether the value holds functions.
    pub fn is_function(&self) -> (r: bool)
        ensures
            r == self@.is_function(),
    {
        if self.data.len() > 0 {
            match &self.data[0] {
                Elem::Func(_) => true,
                _ => false,
            }
        } else {
            false
        }
    }

    /// The function that a scalar function value holds.
    pub fn scalar_function(&self) -> (r: Option<Rc<Function>>)
        ensures
            r is Some == self@.scalar_function() is Some,
            r matches Some(f) ==> f@ == self@.scalar_function()->0,
    {
        if self.shape.len() == 0 && self.data.len() > 0 {
            match &self.data[0] {
                Elem::Func(f) => Some(share(f)),
                _ => None,
            }
        } else {
            None
        }
    }

    /// The natural number that a scalar holds, if it holds one.
    pub fn as_nat(&self) -> (r: Option<usize>)
        ensures
            r == self@.as_nat(),
    {
        if self.shape.len() == 0 && self.data.len() > 0 {
            match &self.data[0] {
                Elem::Num(n) => {
                    if *n >= 0 && (*n as u64) <= (usize::MAX as u64) {
                        Some(*n as usize)
                    } else {
                        None
                    }
                },
                _ => None,
            }
        } else {
            None
        }
    }
}

/// The models of some shared values, in order.
pub open spec fn values_view(values: Seq<Rc<Value>>) -> Seq<ValueView> {
    Seq::new(values.len(), |i: int| values[i]@)
}

/// The elements of some rows, one row after the other.
pub open spec fn join(rows: Seq<ValueView>) -> Seq<ElemView>
    decreases rows.len(),
{
    if rows.len() == 0 {
        Seq::empty()
    } else {
        join(rows.drop_last()) + rows.last().data
    }
}

/// Why an arithmetic primitive gave no result.
#[derive(Clone, Copy, Debug, PartialEq, Eq, Structural)]
pub enum Fault {
    /// An operand holds something that is not a number.
    NotNumbers,
    /// A result does not fit in 64 bits.
    OutOfRange,
    /// The two operands differ in shape.
    Shapes,
}

/// Whether an integer fits in 64 bits.
pub open spec fn fits(x: int) -> bool {
    i64::MIN <= x <= i64::MAX
}

impl ValueView {
    /// How many rows the array has. A scalar counts as one row.
    pub open spec fn row_count(self) -> nat {
        if self.shape.len() == 0 {
            1
        } else {
            self.shape[0] as nat
        }
    }

    /// How many elements each row has.
    pub open spec fn row_len(self) -> nat {
        if self.row_count() == 0 {
            0
        } else {
            self.data.len() / self.row_count()
        }
    }

    /// The shape of each row.
    pub open spec fn row_shape(self) -> Seq<usize> {
        if self.shape.len() == 0 {
            self.shape
        } else {
            self.shape.drop_first()
        }
    }

    /// The row at index `i`.
    pub open spec fn row(self, i: int) -> ValueView {
        ValueView {
            shape: self.row_shape(),
            data: self.data.subrange(i * self.row_len(), (i + 1) * self.row_len()),
        }
    }

    /// The rows, first to last.
    pub open spec fn rows(self) -> Seq<ValueView> {
        Seq::new(self.row_count(), |i: int| self.row(i))
    }

    /// The elements after the last full row. A value whose shape fits
    /// its buffer has none.
    pub open spec fn rest(self) -> Seq<ElemView> {
        self.data.subrange((self.row_count() * self.row_len()) as int, self.data.len() as int)
    }

    /// The same rows, last to first. Elements after the last full row stay in place.
    pub open spec fn reverse(self) -> ValueView {
        ValueView { shape: self.shape, data: join(self.rows().reverse()) + self.rest() }
    }

    /// The first row, where there is a row.
    pub open spec fn first(self) -> Option<ValueView> {
        if self.row_count() == 0 {
            None
        } else {
            Some(self.row(0))
        }
    }

    /// The last row, where there is a row.
    pub open spec fn last(self) -> Option<ValueView> {
        if self.row_count() == 0 {
            None
        } else {
            Some(self.row(self.row_count() - 1))
        }
    }

    /// The row at index `i`, where there is one.
    pub open spec fn pick(self, i: nat) -> Option<ValueView> {
        if i < self.row_count() {
            Some(self.row(i as int))
        } else {
            None
        }
    }

    /// Whether some values can be the rows of one array: they agree in
    /// shape and in how many elements they hold.
    pub open spec fn conforming(rows: Seq<ValueView>) -> bool {
        forall|i: int|
            0 <= i < rows.len() ==> (#[trigger] rows[i]).shape == rows[0].shape
                && rows[i].data.len() == rows[0].data.len()
    }

    /// The array whose rows are the given values, where they conform.
    pub open spec fn stack(rows: Seq<ValueView>) -> Option<ValueView> {
        if Self::conforming(rows) {
            Some(
                ValueView {
                    shape: seq![rows.len() as usize] + (if rows.len() > 0 {
                        rows[0].shape
                    } else {
                        Seq::empty()
                    }),
                    data: join(rows),
                },
            )
        } else {
            None
        }
    }

    /// Every number negated.
    pub open spec fn negated(self) -> Result<ValueView, Fault> {
        if !self.all_numbers() {
            Err(Fault::NotNumbers)
        } else if !(forall|i: int| 0 <= i < self.data.len() ==> fits(-(#[trigger] self.number_at(i)))) {
            Err(Fault::OutOfRange)
        } else {
            Ok(
                ValueView {
                    shape: self.shape,
                    data: Seq::new(
                        self.data.len(),
                        |i: int| ElemView::Num((-self.number_at(i)) as i64),
                    ),
                },
            )
        }
    }

    /// Every number `x` replaced by `1 - x`.
    pub open spec fn complemented(self) -> Result<ValueView, Fault> {
        if !self.all_numbers() {
            Err(Fault::NotNumbers)
        } else if !(forall|i: int|
            0 <= i < self.data.len() ==> fits(1 - (#[trigger] self.number_at(i)))) {
            Err(Fault::OutOfRange)
        } else {
            Ok(
                ValueView {
                    shape: self.shape,
                    data: Seq::new(
                        self.data.len(),
                        |i: int| ElemView::Num((1 - self.number_at(i)) as i64),
                    ),
                },
            )
        }
    }

    /// The sums of the numbers of two arrays of one shape, position by position.
    pub open spec fn plus(self, other: ValueView) -> Result<ValueView, Fault> {
        if !self.all_numbers() || !other.all_numbers() {
            Err(Fault::NotNumbers)
        } else if self.shape != other.shape || self.data.len() != other.data.len() {
            Err(Fault::Shapes)
        } else if !(forall|i: int|
            0 <= i < self.data.len() ==> fits(
                (#[trigger] self.number_at(i)) + other.number_at(i),
            )) {
            Err(Fault::OutOfRange)
        } else {
            Ok(
                ValueView {
                    shape: self.shape,
                    data: Seq::new(
                        self.data.len(),
                        |i: int| ElemView::Num((self.number_at(i) + other.number_at(i)) as i64),
                    ),
                },
            )
        }
    }
}

/// Whether two lists of dimensions are the same.
pub fn same_shape(a: &Vec<usize>, b: &Vec<usize>) -> (r: bool)
    ensures
        r == (a@ == b@),
{
    if a.len() != b.len() {
        return false;
    }
    let mut i: usize = 0;
    while i < a.len()
        invariant
            i <= a.len(),
            a.len() == b.len(),
            a@.subrange(0, i as int) == b@.subrange(0, i as int),
        decreases a.len() - i,
    {
        if a[i] != b[i] {
            return false;
        }
        assert(a@.subrange(0, i + 1) =~= a@.subrange(0, i as int).push(a@[i as int]));
        assert(b@.subrange(0, i + 1) =~= b@.subrange(0, i as int).push(b@[i as int]));
        i += 1;
    }
    assert(a@ =~= a@.subrange(0, i as int));
    assert(b@ =~= b@.subrange(0, i as int));
    true
}

/// Joining one more row appends its elements.
pub proof fn join_push(rows: Seq<ValueView>, row: ValueView)
    ensures
        join(rows.push(row)) == join(rows) + row.data,
{
    assert(rows.push(row).drop_last() =~= rows);
}

impl Value {
    /// How many rows the array has. A scalar counts as one row.
    pub fn row_count(&self) -> (n: usize)
        ensures
            n == self@.row_count(),
    {
        if self.shape.len() == 0 {
            1
        } else {
            self.shape[0]
        }
    }

    /// How many elements each row has.
    pub fn row_len(&self) -> (n: usize)
        ensures
            n == self@.row_len(),
    {
        let rows = self.row_count();
        if rows == 0 {
            0
        } else {
            self.data.len() / rows
        }
    }

    /// Appends the elements of row `i` to `out`.
    fn push_row(&self, i: usize, out: &mut Vec<Elem>)
        requires
            i < self@.row_count(),
        ensures
            elems_view(final(out)@) == elems_view(old(out)@) + self@.row(i as int).data,
    {
        let len = self.row_len();
        let total = self.data.len();
        let ghost n = self@.row_count();
        assert(self@.data.len() == total);
        assert(i * len + len <= total) by (nonlinear_arith)
            requires
                i < n,
                n > 0,
                len == total as int / n as int,
        ;
        let from: usize = i * len;
        let mut k: usize = 0;
        while k < len
            invariant
                k <= len,
                from + len <= total,
                total == self.data@.len(),
                out@ == old(out)@ + self.data@.subrange(from as int, from + k),
            decreases len - k,
        {
            out.push(self.data[from + k].share());
            assert(out@ =~= old(out)@ + self.data@.subrange(from as int, from + k + 1));
            k += 1;
        }
        assert((i + 1) * len == from + len) by (nonlinear_arith)
            requires
                from == i * len,
        ;
        assert(elems_view(out@) =~= elems_view(old(out)@) + self@.row(i as int).data);
    }

    /// The shape of each row.
    fn row_shape(&self) -> (r: Vec<usize>)
        ensures
            r@ == self@.row_shape(),
    {
        let mut r: Vec<usize> = Vec::new();
        let mut i: usize = 1;
        while i < self.shape.len()
            invariant
                1 <= i,
                i <= self.shape.len() || self.shape.len() == 0,
                self.shape.len() > 0 ==> r@ == self.shape@.subrange(1, i as int),
                self.shape.len() == 0 ==> r@ == Seq::<usize>::empty(),
            decreases self.shape.len() - i,
        {
            r.push(self.shape[i]);
            assert(r@ =~= self.shape@.subrange(1, i + 1));
            i += 1;
        }
        assert(r@ =~= self@.row_shape());
        r
    }

    /// The row at index `i`, where there is one.
    pub fn pick(&self, i: usize) -> (r: Option<Value>)
        ensures
            r is Some == self@.pick(i as nat) is Some,
            r matches Some(v) ==> v@ == self@.pick(i as nat)->0,
    {
        if i < self.row_count() {
            let mut data: Vec<Elem> = Vec::new();
            self.push_row(i, &mut data);
            let r = Value { shape: self.row_shape(), data };
            assert(r@.data =~= self@.row(i as int).data);
            Some(r)
        } else {
            None
        }
    }

    /// The first row, where there is a row.
    pub fn first(&self) -> (r: Option<Value>)
        ensures
            r is Some == self@.first() is Some,
            r matches Some(v) ==> v@ == self@.first()->0,
    {
        self.pick(0)
    }

    /// The last row, where there is a row.
    pub fn last(&self) -> (r: Option<Value>)
        ensures
            r is Some == self@.last() is Some,
            r matches Some(v) ==> v@ == self@.last()->0,
    {
        let n = self.row_count();
        if n == 0 {
            None
        } else {
            self.pick(n - 1)
        }
    }

    /// The same rows, last to first.
    pub fn reverse(&self) -> (r: Value)
        ensures
            r@ == self@.reverse(),
    {
        let n = self.row_count();
        let mut data: Vec<Elem> = Vec::new();
        let mut k: usize = 0;
        let ghost reversed = self@.rows().reverse();
        let ghost reversed_len = join(reversed).len();
        while k < n
            invariant
                k <= n,
                n == self@.row_count(),
                reversed == self@.rows().reverse(),
                elems_view(data@) == join(reversed.subrange(0, k as int)),
            decreases n - k,
        {
            self.push_row(n - 1 - k, &mut data);
            proof {
                join_push(reversed.subrange(0, k as int), reversed[k as int]);
                assert(reversed.subrange(0, k + 1) =~= reversed.subrange(0, k as int).push(
                    reversed[k as int],
                ));
            }
            k += 1;
        }
        assert(reversed.subrange(0, k as int) =~= reversed);
        let len = self.row_len();
        let total = self.data.len();
        assert(n * len <= total) by (nonlinear_arith)
            requires
                len == (if n == 0 {
                    0int
                } else {
                    total as int / n as int
                }),
                0 <= total,
                0 <= n,
        ;
        let full: usize = n * len;
        let mut i: usize = full;
        while i < total
            invariant
                full <= i <= total,
                total == self.data@.len(),
                data@.len() == reversed_len + (i - full),
                reversed_len == join(reversed).len(),
                elems_view(data@) == join(reversed) + self@.data.subrange(full as int, i as int),
            decreases total - i,
        {
            let ghost before = data@;
            data.push(self.data[i].share());
            assert(elems_view(data@) =~= elems_view(before).push(self@.data[i as int]));
            assert(self@.data.subrange(full as int, i + 1) =~= self@.data.subrange(
                full as int,
                i as int,
            ).push(self@.data[i as int]));
            i += 1;
        }
        Value { shape: copy_shape(&self.shape), data }
    }

    /// The array whose rows are the given values, where they conform.
    pub fn stack(rows: &Vec<Rc<Value>>) -> (r: Option<Value>)
        ensures
            r is Some == ValueView::stack(values_view(rows@)) is Some,
            r matches Some(v) ==> v@ == ValueView::stack(values_view(rows@))->0,
    {
        let ghost models = values_view(rows@);
        let mut shape: Vec<usize> = Vec::new();
        shape.push(rows.len());
        let mut data: Vec<Elem> = Vec::new();
        if rows.len() == 0 {
            let r = Value { shape, data };
            assert(r@.shape =~= ValueView::stack(models)->0.shape);
            assert(r@.data =~= Seq::empty());
            return Some(r);
        }
        let mut i: usize = 0;
        while i < rows.len()
            invariant
                i <= rows.len(),
                rows.len() > 0,
                models == values_view(rows@),
                shape@ == seq![rows.len()],
                ValueView::conforming(models.subrange(0, i as int)),
                elems_view(data@) == join(models.subrange(0, i as int)),
            decreases rows.len() - i,
        {
            let row = &rows[i];
            if !same_shape(&row.shape, &rows[0].shape) || row.data.len() != rows[0].data.len() {
                assert(models[i as int] == row@);
                assert(models[0] == rows[0]@);
                return None;
            }
            let mut k: usize = 0;
            while k < row.data.len()
                invariant
                    k <= row.data.len(),
                    elems_view(data@) == join(models.subrange(0, i as int)) + row@.data.subrange(
                        0,
                        k as int,
                    ),
                decreases row.data.len() - k,
            {
                let ghost before = data@;
                data.push(row.data[k].share());
                assert(elems_view(data@) =~= elems_view(before).push(row@.data[k as int]));
                assert(row@.data.subrange(0, k + 1) =~= row@.data.subrange(0, k as int).push(
                    row@.data[k as int],
                ));
                k += 1;
            }
            proof {
                assert(row@.data.subrange(0, k as int) =~= row@.data);
                let next = models.subrange(0, i + 1);
                let prev = models.subrange(0, i as int);
                assert(next =~= prev.push(models[i as int]));
                join_push(prev, models[i as int]);
                assert(models[i as int] == row@);
                assert(models[0] == rows[0]@);
                assert forall|j: int| 0 <= j < next.len() implies (#[trigger] next[j]).shape
                    == next[0].shape && next[j].data.len() == next[0].data.len() by {
                    if j < i {
                        assert(prev[j] == next[j]);
                        if i > 0 {
                            assert(prev[0] == next[0]);
                        }
                    }
                }
            }
            i += 1;
        }
        assert(models.subrange(0, i as int) =~= models);
        let mut k: usize = 0;
        let first = &rows[0];
        while k < first.shape.len()
            invariant
                k <= first.shape.len(),
                shape@ == seq![rows.len()] + first.shape@.subrange(0, k as int),
            decreases first.shape.len() - k,
        {
            shape.push(first.shape[k]);
            assert(shape@ =~= seq![rows.len()] + first.shape@.subrange(0, k + 1));
            k += 1;
        }
        assert(first.shape@.subrange(0, k as int) =~= first.shape@);
        assert(models[0] == first@);
        Some(Value { shape, data })
    }
}

/// The model of what an arithmetic primitive returned.
pub open spec fn outcome_view(r: Result<Value, Fault>) -> Result<ValueView, Fault> {
    match r {
        Ok(v) => Ok(v@),
        Err(e) => Err(e),
    }
}

impl Value {
    /// Whether every element is a number.
    pub fn all_numbers(&self) -> (r: bool)
        ensures
            r == self@.all_numbers(),
    {
        let mut i: usize = 0;
        while i < self.data.len()
            invariant
                i <= self.data.len(),
                forall|j: int| 0 <= j < i ==> (#[trigger] self@.data[j]) is Num,
            decreases self.data.len() - i,
        {
            match &self.data[i] {
                Elem::Num(_) => {},
                _ => {
                    assert(!(self@.data[i as int] is Num));
                    return false;
                },
            }
            i += 1;
        }
        true
    }

    /// The number at a position of the buffer.
    fn number_at(&self, i: usize) -> (n: i64)
        requires
            i < self.data@.len(),
            self@.all_numbers(),
        ensures
            n == self@.number_at(i as int),
            self@.data[i as int] == ElemView::Num(n),
    {
        assert(self@.data[i as int] is Num);
        match &self.data[i] {
            Elem::Num(n) => *n,
            _ => 0,
        }
    }

    /// Every number negated.
    pub fn negated(&self) -> (r: Result<Value, Fault>)
        ensures
            outcome_view(r) == self@.negated(),
    {
        if !self.all_numbers() {
            return Err(Fault::NotNumbers);
        }
        let mut data: Vec<Elem> = Vec::new();
        let mut i: usize = 0;
        while i < self.data.len()
            invariant
                i <= self.data.len(),
                self@.all_numbers(),
                data@.len() == i,
                forall|j: int| 0 <= j < i ==> fits(-(#[trigger] self@.number_at(j))),
                forall|j: int|
                    0 <= j < i ==> (#[trigger] data@[j]) == Elem::Num((-self@.number_at(j)) as i64),
            decreases self.data.len() - i,
        {
            let n = self.number_at(i);
            if n == i64::MIN {
                assert(!fits(-self@.number_at(i as int)));
                return Err(Fault::OutOfRange);
            }
            data.push(Elem::Num(-n));
            i += 1;
        }
        let r = Value { shape: copy_shape(&self.shape), data };
        assert(r@.data =~= self@.negated()->Ok_0.data);
        Ok(r)
    }

    /// Every number `x` replaced by `1 - x`.
    pub fn complemented(&self) -> (r: Result<Value, Fault>)
        ensures
            outcome_view(r) == self@.complemented(),
    {
        if !self.all_numbers() {
            return Err(Fault::NotNumbers);
        }
        let mut data: Vec<Elem> = Vec::new();
        let mut i: usize = 0;
        while i < self.data.len()
            invariant
                i <= self.data.len(),
                self@.all_numbers(),
                data@.len() == i,
                forall|j: int| 0 <= j < i ==> fits(1 - (#[trigger] self@.number_at(j))),
                forall|j: int|
                    0 <= j < i ==> (#[trigger] data@[j]) == Elem::Num(
                        (1 - self@.number_at(j)) as i64,
                    ),
            decreases self.data.len() - i,
        {
            let n = self.number_at(i);
            if n < i64::MIN + 2 {
                assert(!fits(1 - self@.number_at(i as int)));
                return Err(Fault::OutOfRange);
            }
            data.push(Elem::Num(1 - n));
            i += 1;
        }
        let r = Value { shape: copy_shape(&self.shape), data };
        assert(r@.data =~= self@.complemented()->Ok_0.data);
        Ok(r)
    }

    /// The sums of the numbers of two arrays of one shape, position by position.
    pub fn plus(&self, other: &Value) -> (r: Result<Value, Fault>)
        ensures
            outcome_view(r) == self@.plus(other@),
    {
        if !self.all_numbers() || !other.all_numbers() {
            return Err(Fault::NotNumbers);
        }
        if !same_shape(&self.shape, &other.shape) || self.data.len() != other.data.len() {
            return Err(Fault::Shapes);
        }
        let mut data: Vec<Elem> = Vec::new();
        let mut i: usize = 0;
        while i < self.data.len()
            invariant
                i <= self.data.len(),
                self.data.len() == other.data.len(),
                self.shape@ == other.shape@,
                self@.all_numbers(),
                other@.all_numbers(),
                data@.len() == i,
                forall|j: int|
                    0 <= j < i ==> fits((#[trigger] self@.number_at(j)) + other@.number_at(j)),
                forall|j: int|
                    0 <= j < i ==> (#[trigger] data@[j]) == Elem::Num(
                        (self@.number_at(j) + other@.number_at(j)) as i64,
                    ),
            decreases self.data.len() - i,
        {
            let a = self.number_at(i);
            let b = other.number_at(i);
            if (b > 0 && a > i64::MAX - b) || (b < 0 && a < i64::MIN - b) {
                assert(!fits(self@.number_at(i as int) + other@.number_at(i as int)));
                return Err(Fault::OutOfRange);
            }
            data.push(Elem::Num(a + b));
            i += 1;
        }
        let r = Value { shape: copy_shape(&self.shape), data };
        assert(r@.data =~= self@.plus(other@)->Ok_0.data);
        Ok(r)
    }

}

/// The models of some shared functions, in order.
pub open spec fn functions_view(functions: Seq<Rc<Function>>) -> Seq<FunctionView> {
    Seq::new(functions.len(), |i: int| functions[i]@)
}

impl Value {
    /// The list of some functions.
    pub fn from_functions(functions: Vec<Rc<Function>>) -> (r: Value)
        ensures
            r@ == ValueView::functions(functions_view(functions@)),
    {
        let mut data: Vec<Elem> = Vec::new();
        let mut i: usize = 0;
        while i < functions.len()
            invariant
                i <= functions.len(),
                data@.len() == i,
                forall|j: int| 0 <= j < i ==> (#[trigger] data@[j]) == Elem::Func(functions@[j]),
            decreases functions.len() - i,
        {
            data.push(Elem::Func(share(&functions[i])));
            i += 1;
        }
        let r = Value { shape: vec![functions.len()], data };
        assert(r@.shape =~= seq![functions@.len() as usize]);
        assert(r@.data =~= ValueView::functions(functions_view(functions@)).data);
        r
    }

    /// The text that a list of characters holds.
    pub fn as_text(&self) -> (r: Option<String>)
        ensures
            r is Some == self@.as_text() is Some,
            r matches Some(s) ==> Some(s@) == self@.as_text(),
    {
        if self.shape.len() != 1 {
            return None;
        }
        let mut text = String::new();
        let mut i: usize = 0;
        while i < self.data.len()
            invariant
                i <= self.data.len(),
                text@.len() == i,
                forall|j: int| 0 <= j < i ==> (#[trigger] self@.data[j]) == ElemView::Char(text@[j]),
            decreases self.data.len() - i,
        {
            match &self.data[i] {
                Elem::Char(c) => {
                    text.push(*c);
                },
                _ => {
                    assert(!(self@.data[i as int] is Char));
                    return None;
                },
            }
            i += 1;
        }
        assert(self@.all_chars());
        assert(self@.as_text()->0 =~= text@);
        Some(text)
    }

}

/// The models of a part of some values are that part of their models.
pub proof fn values_view_subrange(values: Seq<Rc<Value>>, from: int, to: int)
    requires
        0 <= from <= to <= values.len(),
    ensures
        values_view(values.subrange(from, to)) == values_view(values).subrange(from, to),
{
    assert(values_view(values.subrange(from, to)) =~= values_view(values).subrange(from, to));
}

/// The models of some values in reverse order are their models in reverse order.
pub proof fn values_view_reverse(values: Seq<Rc<Value>>)
    ensures
        values_view(values.reverse()) == values_view(values).reverse(),
{
    assert(values_view(values.reverse()) =~= values_view(values).reverse());
}

/// Reverses a list of shared values.
pub fn reverse_values(values: Vec<Rc<Value>>) -> (r: Vec<Rc<Value>>)
    ensures
        r@ == values@.reverse(),
{
    let mut values = values;
    let ghost all = values@;
    let mut r: Vec<Rc<Value>> = Vec::new();
    while values.len() > 0
        invariant
            values@ == all.subrange(0, values@.len() as int),
            values@.len() <= all.len(),
            r@.len() == all.len() - values@.len(),
            forall|j: int| 0 <= j < r@.len() ==> (#[trigger] r@[j]) == all[all.len() - 1 - j],
        decreases values.len(),
    {
        let ghost n = values@.len();
        match values.pop() {
            Some(v) => {
                r.push(v);
                assert(values@ =~= all.subrange(0, n - 1));
            },
            None => {},
        }
    }
    assert(r@ =~= all.reverse());
    r
}

} // verus!
