//! Decimal numbers as text: how the shell reads an exit code or a count, and
//! how it writes the number of a history entry.

use vstd::prelude::*;
use vstd::string::{StrSliceExecFns, StringExecFns};
use crate::text::{push_char, to_chars};

verus! {

/// The value of a decimal digit, if `c` is one.
pub open spec fn digit_value(c: char) -> Option<nat> {
    if c == '0' {
        Some(0)
    } else if c == '1' {
        Some(1)
    } else if c == '2' {
        Some(2)
    } else if c == '3' {
        Some(3)
    } else if c == '4' {
        Some(4)
    } else if c == '5' {
        Some(5)
    } else if c == '6' {
        Some(6)
    } else if c == '7' {
        Some(7)
    } else if c == '8' {
        Some(8)
    } else if c == '9' {
        Some(9)
    } else {
        None
    }
}

/// The digit that stands for `d`, for `d` below ten.
pub open spec fn digit_char(d: nat) -> char {
    if d == 0 {
        '0'
    } else if d == 1 {
        '1'
    } else if d == 2 {
        '2'
    } else if d == 3 {
        '3'
    } else if d == 4 {
        '4'
    } else if d == 5 {
        '5'
    } else if d == 6 {
        '6'
    } else if d == 7 {
        '7'
    } else if d == 8 {
        '8'
    } else {
        '9'
    }
}

/// The value of a text made of decimal digits only; nothing for the empty
/// text or where another character occurs.
pub open spec fn digits_value(s: Seq<char>) -> Option<nat>
    decreases s.len(),
{
    if s.len() == 0 {
        None
    } else {
        match digit_value(s.last()) {
            None => None,
            Some(d) => if s.len() == 1 {
                Some(d)
            } else {
                match digits_value(s.drop_last()) {
                    None => None,
                    Some(v) => Some(v * 10 + d),
                }
            },
        }
    }
}

/// The value of a count: decimal digits, with or without a `+` before them.
pub open spec fn unsigned_value(s: Seq<char>) -> Option<nat> {
    if s.len() > 0 && s[0] == '+' {
        digits_value(s.skip(1))
    } else {
        digits_value(s)
    }
}

/// The value of an integer: decimal digits, with or without a `+` or a `-`
/// before them.
pub open spec fn signed_value(s: Seq<char>) -> Option<int> {
    if s.len() > 0 && s[0] == '-' {
        match digits_value(s.skip(1)) {
            Some(v) => Some(-(v as int)),
            None => None,
        }
    } else {
        match unsigned_value(s) {
            Some(v) => Some(v as int),
            None => None,
        }
    }
}

/// The decimal digits of `n`, without leading zeros.
pub open spec fn decimal(n: nat) -> Seq<char>
    decreases n,
{
    if n < 10 {
        seq![digit_char(n)]
    } else {
        decimal(n / 10).push(digit_char(n % 10))
    }
}

/// `s` with spaces before it, as many as it is shorter than `width`.
pub open spec fn right_justified(s: Seq<char>, width: nat) -> Seq<char> {
    if s.len() < width {
        Seq::new((width - s.len()) as nat, |i: int| ' ') + s
    } else {
        s
    }
}

/// The value of a decimal digit, if `c` is one.
pub fn digit_of(c: char) -> (d: Option<u8>)
    ensures
        match digit_value(c) {
            Some(v) => d == Some(v as u8),
            None => d is None,
        },
{
    if c == '0' {
        Some(0)
    } else if c == '1' {
        Some(1)
    } else if c == '2' {
        Some(2)
    } else if c == '3' {
        Some(3)
    } else if c == '4' {
        Some(4)
    } else if c == '5' {
        Some(5)
    } else if c == '6' {
        Some(6)
    } else if c == '7' {
        Some(7)
    } else if c == '8' {
        Some(8)
    } else if c == '9' {
        Some(9)
    } else {
        None
    }
}

/// The digit that stands for `d`.
pub fn digit_to_char(d: u8) -> (c: char)
    requires
        d < 10,
    ensures
        c == digit_char(d as nat),
{
    if d == 0 {
        '0'
    } else if d == 1 {
        '1'
    } else if d == 2 {
        '2'
    } else if d == 3 {
        '3'
    } else if d == 4 {
        '4'
    } else if d == 5 {
        '5'
    } else if d == 6 {
        '6'
    } else if d == 7 {
        '7'
    } else if d == 8 {
        '8'
    } else {
        '9'
    }
}

/// Reads the digits `v[from..]` as a number no larger than `limit`: nothing
/// where they are no number, and the number, or nothing in its place where
/// it is larger than `limit`.
fn read_digits(v: &Vec<char>, from: usize, limit: u128) -> (r: Option<Option<u128>>)
    requires
        from <= v.len(),
        limit <= 0xffff_ffff_ffff_ffff,
    ensures
        match digits_value(v@.skip(from as int)) {
            None => r is None,
            Some(value) => r == Some(
                if value > limit {
                    None::<u128>
                } else {
                    Some(value as u128)
                },
            ),
        },
{
    if from == v.len() {
        return None;
    }
    let ghost s = v@.skip(from as int);
    let mut acc: u128 = 0;
    let mut over = false;
    let mut i: usize = from;
    while i < v.len()
        invariant
            from <= i <= v.len(),
            from < v.len(),
            s == v@.skip(from as int),
            limit <= 0xffff_ffff_ffff_ffff,
            i == from ==> acc == 0 && !over,
            i > from ==> digits_value(s.take(i - from)) is Some,
            i > from && !over ==> acc == digits_value(s.take(i - from))->0 && acc <= limit,
            i > from && over ==> digits_value(s.take(i - from))->0 > limit,
        decreases v.len() - i,
    {
        let ghost t = s.take(i + 1 - from);
        proof {
            assert(t.drop_last() == s.take(i - from));
            assert(t.last() == v@[i as int]);
        }
        match digit_of(v[i]) {
            None => {
                proof {
                    lemma_digits_none_stays(s, i + 1 - from);
                    assert(s.take(s.len() as int) == s);
                }
                return None;
            },
            Some(d) => {
                if !over {
                    acc = acc * 10 + d as u128;
                    if acc > limit {
                        over = true;
                    }
                }
            },
        }
        i += 1;
    }
    assert(s.take(s.len() as int) == s);
    if over {
        Some(None)
    } else {
        Some(Some(acc))
    }
}

/// A text with a prefix that is no number is no number.
proof fn lemma_digits_none_stays(s: Seq<char>, k: int)
    requires
        0 < k <= s.len(),
        digits_value(s.take(k)) is None,
    ensures
        digits_value(s) is None,
    decreases s.len() - k,
{
    if k < s.len() {
        assert(s.take(k + 1).drop_last() == s.take(k));
        lemma_digits_none_stays(s, k + 1);
    } else {
        assert(s.take(k) == s);
    }
}

/// Reads a count: decimal digits, with or without a `+` before them. A
/// number too large for `usize` is no count.
pub fn parse_usize(s: &str) -> (r: Option<usize>)
    ensures
        match unsigned_value(s@) {
            Some(value) => if value <= usize::MAX {
                r == Some(value as usize)
            } else {
                r is None
            },
            None => r is None,
        },
{
    let v = to_chars(s);
    let from: usize = if v.len() > 0 && v[0] == '+' {
        1
    } else {
        0
    };
    assert(v@.skip(0) == v@);
    match read_digits(&v, from, usize::MAX as u128) {
        Some(Some(value)) => Some(value as usize),
        _ => None,
    }
}

/// Reads an integer: decimal digits, with or without a `+` or a `-` before
/// them. A number outside `i32` is no integer.
pub fn parse_i32(s: &str) -> (r: Option<i32>)
    ensures
        match signed_value(s@) {
            Some(value) => if i32::MIN <= value <= i32::MAX {
                r == Some(value as i32)
            } else {
                r is None
            },
            None => r is None,
        },
{
    let v = to_chars(s);
    let negative = v.len() > 0 && v[0] == '-';
    let from: usize = if v.len() > 0 && (v[0] == '+' || v[0] == '-') {
        1
    } else {
        0
    };
    assert(v@.skip(0) == v@);
    match read_digits(&v, from, 0x8000_0000) {
        None => None,
        Some(None) => None,
        Some(Some(value)) => {
            if negative {
                if value == 0x8000_0000 {
                    Some(i32::MIN)
                } else {
                    Some(-(value as i32))
                }
            } else if value > 0x7fff_ffff {
                None
            } else {
                Some(value as i32)
            }
        },
    }
}

/// Appends the decimal digits of `n` to `out`.
pub fn push_decimal(out: &mut String, n: usize)
    ensures
        final(out)@ == old(out)@ + decimal(n as nat),
    decreases n,
{
    if n >= 10 {
        push_decimal(out, n / 10);
    }
    let d: u8 = (n % 10) as u8;
    push_char(out, digit_to_char(d));
    proof {
        if n >= 10 {
            assert(old(out)@ + decimal(n as nat) == (old(out)@ + decimal((n / 10) as nat)).push(
                digit_char((n % 10) as nat),
            ));
        } else {
            assert(old(out)@ + seq![digit_char(n as nat)] == old(out)@.push(digit_char(n as nat)));
        }
    }
}

/// The decimal digits of `n`.
pub fn decimal_string(n: usize) -> (out: String)
    ensures
        out@ == decimal(n as nat),
{
    let mut out = String::new();
    push_decimal(&mut out, n);
    assert(Seq::<char>::empty() + decimal(n as nat) == decimal(n as nat));
    out
}

/// Appends `n` in decimal to `out`, after as many spaces as the digits are
/// fewer than `width`.
pub fn push_right_justified(out: &mut String, n: usize, width: usize)
    ensures
        final(out)@ == old(out)@ + right_justified(decimal(n as nat), width as nat),
{
    let digits = decimal_string(n);
    let length = digits.as_str().unicode_len();
    let mut k: usize = length;
    assert(old(out)@ + Seq::new(0nat, |i: int| ' ') == old(out)@);
    while k < width
        invariant
            length <= k,
            k <= width || k == length,
            out@ == old(out)@ + Seq::new((k - length) as nat, |i: int| ' '),
        decreases width - k,
    {
        push_char(out, ' ');
        assert(Seq::new((k + 1 - length) as nat, |i: int| ' ') == Seq::new(
            (k - length) as nat,
            |i: int| ' ',
        ).push(' '));
        k += 1;
    }
    let ghost padded = out@;
    out.append(digits.as_str());
    proof {
        if length >= width {
            assert(padded == old(out)@);
        } else {
            assert(out@ == old(out)@ + (Seq::new((width - length) as nat, |i: int| ' ')
                + digits@));
        }
    }
}

} // verus!
