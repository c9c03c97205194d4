//! Decimal numerals: how numbers are written in messages and read from source text.

use vstd::prelude::*;
use vstd::string::*;

verus! {

/// Trusted: `String::push` appends the character to the end of the
/// string, and changes nothing else of it.
pub assume_specification[ std::string::String::push ](s: &mut std::string::String, c: char)
    ensures
        final(s)@ == old(s)@.push(c),
;

/// The character that stands for a digit below ten.
pub open spec fn digit_char(d: int) -> char {
    if d == 0 {
        '0'
    } else if d == 1 {
        '1'
    } else if d == 2 {
        '2'
    } else if d == 3 {
        '3'
    } else if d == 4 {
        '4'
    } else if d == 5 {
        '5'
    } else if d == 6 {
        '6'
    } else if d == 7 {
        '7'
    } else if d == 8 {
        '8'
    } else {
        '9'
    }
}

/// The decimal numeral of a natural number, without leading zeros.
pub open spec fn decimal(n: nat) -> Seq<char>
    decreases n,
{
    if n < 10 {
        seq![digit_char(n as int)]
    } else {
        decimal(n / 10).push(digit_char((n % 10) as int))
    }
}

/// The decimal numeral of an integer, with a minus sign where it is negative.
pub open spec fn signed_decimal(i: int) -> Seq<char> {
    if i < 0 {
        seq!['-'] + decimal((-i) as nat)
    } else {
        decimal(i as nat)
    }
}

/// The one-character text of a digit.
fn digit_str(d: u64) -> (s: &'static str)
    requires
        d < 10,
    ensures
        s@ == seq![digit_char(d as int)],
{
    proof {
        reveal_strlit("0");
        reveal_strlit("1");
        reveal_strlit("2");
        reveal_strlit("3");
        reveal_strlit("4");
        reveal_strlit("5");
        reveal_strlit("6");
        reveal_strlit("7");
        reveal_strlit("8");
        reveal_strlit("9");
    }
    let s = if d == 0 {
        "0"
    } else if d == 1 {
        "1"
    } else if d == 2 {
        "2"
    } else if d == 3 {
        "3"
    } else if d == 4 {
        "4"
    } else if d == 5 {
        "5"
    } else if d == 6 {
        "6"
    } else if d == 7 {
        "7"
    } else if d == 8 {
        "8"
    } else {
        "9"
    };
    assert(s@ =~= seq![digit_char(d as int)]);
    s
}

/// Appends the decimal numeral of `n` to `out`.
pub fn push_decimal(out: &mut String, n: u64)
    ensures
        final(out)@ == old(out)@ + decimal(n as nat),
    decreases n,
{
    if n >= 10 {
        push_decimal(out, n / 10);
    }
    out.append(digit_str(n % 10));
    assert(out@ =~= old(out)@ + decimal(n as nat));
}

/// Appends the decimal numeral of `i` to `out`, with a minus sign where it is negative.
pub fn push_signed_decimal(out: &mut String, i: i64)
    ensures
        final(out)@ == old(out)@ + signed_decimal(i as int),
{
    if i < 0 {
        proof {
            reveal_strlit("-");
        }
        out.append("-");
        let magnitude: u64 = if i == i64::MIN {
            9223372036854775808u64
        } else {
            (-i) as u64
        };
        push_decimal(out, magnitude);
        assert(out@ =~= old(out)@ + signed_decimal(i as int));
    } else {
        push_decimal(out, i as u64);
    }
}

/// The text `prefix`, then the decimal numeral of `n`, then `suffix`.
pub fn with_number(prefix: &str, n: u64, suffix: &str) -> (out: String)
    ensures
        out@ == prefix@ + decimal(n as nat) + suffix@,
{
    let mut out = String::from_str(prefix);
    push_decimal(&mut out, n);
    out.append(suffix);
    out
}

/// The text `prefix` followed by `rest`.
pub fn with_text(prefix: &str, rest: &str) -> (out: String)
    ensures
        out@ == prefix@ + rest@,
{
    let mut out = String::from_str(prefix);
    out.append(rest);
    out
}

/// The value of a decimal digit character, if it is one.
pub open spec fn digit_value(c: char) -> Option<int> {
    if c == '0' {
        Some(0)
    } else if c == '1' {
        Some(1)
    } else if c == '2' {
        Some(2)
    } else if c == '3' {
        Some(3)
    } else if c == '4' {
        Some(4)
    } else if c == '5' {
        Some(5)
    } else if c == '6' {
        Some(6)
    } else if c == '7' {
        Some(7)
    } else if c == '8' {
        Some(8)
    } else if c == '9' {
        Some(9)
    } else {
        None
    }
}

/// Whether every character of `s` is a decimal digit.
pub open spec fn all_digits(s: Seq<char>) -> bool {
    forall|i: int| 0 <= i < s.len() ==> (#[trigger] digit_value(s[i])) is Some
}

/// The number that a run of decimal digits denotes.
pub open spec fn digits_value(s: Seq<char>) -> nat
    decreases s.len(),
{
    if s.len() == 0 {
        0
    } else {
        (digits_value(s.drop_last()) * 10 + digit_value(s.last()).unwrap_or(0)) as nat
    }
}

/// The integer that a numeral denotes: at least one decimal digit, with an
/// optional minus sign in front, and a value that fits in 64 bits.
///
/// Numbers are whole numbers here: a numeral with a fraction or an
/// exponent, such as `1.5` or `1e3`, denotes none.
pub open spec fn parse_number(s: Seq<char>) -> Option<i64> {
    if s.len() > 0 && s[0] == '-' {
        let digits = s.subrange(1, s.len() as int);
        if digits.len() > 0 && all_digits(digits) && digits_value(digits) <= 0x8000_0000_0000_0000 {
            Some((-(digits_value(digits) as int)) as i64)
        } else {
            None
        }
    } else if s.len() > 0 && all_digits(s) && digits_value(s) <= 0x7fff_ffff_ffff_ffff {
        Some(digits_value(s) as i64)
    } else {
        None
    }
}

/// The value of a decimal digit character, if it is one.
fn digit_of(c: char) -> (r: Option<u64>)
    ensures
        r is Some == digit_value(c) is Some,
        r matches Some(d) ==> d == digit_value(c)->0,
{
    if c == '0' {
        Some(0)
    } else if c == '1' {
        Some(1)
    } else if c == '2' {
        Some(2)
    } else if c == '3' {
        Some(3)
    } else if c == '4' {
        Some(4)
    } else if c == '5' {
        Some(5)
    } else if c == '6' {
        Some(6)
    } else if c == '7' {
        Some(7)
    } else if c == '8' {
        Some(8)
    } else if c == '9' {
        Some(9)
    } else {
        None
    }
}

/// A longer run of digits denotes a number at least as large.
proof fn digits_value_grows(s: Seq<char>, k: int)
    requires
        0 <= k <= s.len(),
    ensures
        digits_value(s.subrange(0, k)) <= digits_value(s),
    decreases s.len() - k,
{
    if k < s.len() {
        digits_value_grows(s, k + 1);
        let longer = s.subrange(0, k + 1);
        assert(longer.drop_last() =~= s.subrange(0, k));
    } else {
        assert(s.subrange(0, k) =~= s);
    }
}

/// Reads the digits of `s` from position `from` on, up to the bound `limit`.
fn read_digits(s: &str, from: usize, limit: u64) -> (r: Option<u64>)
    requires
        from <= s@.len(),
        0x7fff_ffff_ffff_ffff <= limit <= 0x8000_0000_0000_0000,
    ensures
        ({
            let digits = s@.subrange(from as int, s@.len() as int);
            &&& r is Some == (digits.len() > 0 && all_digits(digits) && digits_value(digits)
                <= limit)
            &&& r matches Some(v) ==> v == digits_value(digits)
        }),
{
    let n = s.unicode_len();
    let ghost digits = s@.subrange(from as int, s@.len() as int);
    if from == n {
        return None;
    }
    let mut i: usize = from;
    let mut acc: u64 = 0;
    while i < n
        invariant
            from <= i <= n,
            n == s@.len(),
            digits == s@.subrange(from as int, s@.len() as int),
            0x7fff_ffff_ffff_ffff <= limit <= 0x8000_0000_0000_0000,
            all_digits(digits.subrange(0, i - from)),
            acc == digits_value(digits.subrange(0, i - from)),
            acc <= limit,
        decreases n - i,
    {
        let c = s.get_char(i);
        let ghost before = digits.subrange(0, i - from);
        let ghost after = digits.subrange(0, i - from + 1);
        assert(after.drop_last() =~= before);
        assert(after.last() == c);
        match digit_of(c) {
            None => {
                assert(digits[i - from] == c);
                assert(!all_digits(digits));
                return None;
            },
            Some(d) => {
                if acc > (limit - d) / 10 {
                    proof {
                        assert(digits_value(after) == acc * 10 + d);
                        assert(acc * 10 + d > limit) by (nonlinear_arith)
                            requires
                                acc > (limit - d) / 10,
                                d < 10,
                                d <= limit,
                        ;
                        digits_value_grows(digits, i - from + 1);
                    }
                    return None;
                }
                assert(acc * 10 + d <= limit) by (nonlinear_arith)
                    requires
                        acc <= (limit - d) / 10,
                        d <= limit,
                ;
                acc = acc * 10 + d;
                assert forall|j: int| 0 <= j < after.len() implies (#[trigger] digit_value(
                    after[j],
                )) is Some by {
                    if j < before.len() {
                        assert(after[j] == before[j]);
                    }
                }
            },
        }
        i += 1;
    }
    assert(digits.subrange(0, i - from) =~= digits);
    Some(acc)
}

/// Reads a numeral. Numbers are whole numbers: a numeral with a
/// fraction or an exponent is none.
pub fn read_number(s: &str) -> (r: Option<i64>)
    ensures
        r == parse_number(s@),
{
    let n = s.unicode_len();
    if n == 0 {
        return None;
    }
    if s.get_char(0) == '-' {
        match read_digits(s, 1, 0x8000_0000_0000_0000) {
            None => None,
            Some(v) => {
                if v == 0x8000_0000_0000_0000 {
                    Some(i64::MIN)
                } else {
                    Some(-(v as i64))
                }
            },
        }
    } else {
        assert(s@.subrange(0, s@.len() as int) =~= s@);
        match read_digits(s, 0, 0x7fff_ffff_ffff_ffff) {
            None => None,
            Some(v) => Some(v as i64),
        }
    }
}

/// The numerals of some dimensions, separated by a comma and a space.
pub open spec fn dimensions(shape: Seq<usize>) -> Seq<char>
    decreases shape.len(),
{
    if shape.len() == 0 {
        Seq::empty()
    } else if shape.len() == 1 {
        decimal(shape[0] as nat)
    } else {
        dimensions(shape.drop_last()) + seq![',', ' '] + decimal(shape.last() as nat)
    }
}

/// A shape as it is written in messages: its dimensions between square brackets.
pub open spec fn shape_text(shape: Seq<usize>) -> Seq<char> {
    seq!['['] + dimensions(shape) + seq![']']
}

/// Appends a shape, as it is written in messages, to `out`.
pub fn push_shape(out: &mut String, shape: &Vec<usize>)
    ensures
        final(out)@ == old(out)@ + shape_text(shape@),
{
    proof {
        reveal_strlit("[");
        reveal_strlit("]");
        reveal_strlit(", ");
    }
    out.append("[");
    let mut i: usize = 0;
    while i < shape.len()
        invariant
            i <= shape.len(),
            out@ == old(out)@ + seq!['['] + dimensions(shape@.subrange(0, i as int)),
        decreases shape.len() - i,
    {
        if i > 0 {
            out.append(", ");
        }
        push_decimal(out, shape[i] as u64);
        proof {
            reveal_strlit(", ");
            let next = shape@.subrange(0, i + 1);
            assert(next.drop_last() =~= shape@.subrange(0, i as int));
            assert(", "@ =~= seq![',', ' ']);
            assert(out@ =~= old(out)@ + seq!['['] + dimensions(next));
        }
        i += 1;
    }
    assert(shape@.subrange(0, i as int) =~= shape@);
    out.append("]");
    assert(out@ =~= old(out)@ + shape_text(shape@));
}

} // verus!
