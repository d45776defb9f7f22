//! Character-level helpers for signature text: whitespace removal,
//! hexadecimal digits, and ASCII upper-casing.

use vstd::prelude::*;
use vstd::string::StrSliceExecFns;

verus! {

/// A character with the Unicode `White_Space` property, the set that
/// `char::is_whitespace` recognises.
pub open spec fn is_space_char(c: char) -> bool {
    let u = c as u32;
    ||| u == 0x09
    ||| u == 0x0A
    ||| u == 0x0B
    ||| u == 0x0C
    ||| u == 0x0D
    ||| u == 0x20
    ||| u == 0x85
    ||| u == 0xA0
    ||| u == 0x1680
    ||| (0x2000 <= u && u <= 0x200A)
    ||| u == 0x2028
    ||| u == 0x2029
    ||| u == 0x202F
    ||| u == 0x205F
    ||| u == 0x3000
}

pub fn is_space(c: char) -> (r: bool)
    ensures
        r == is_space_char(c),
{
    let u: u32 = c as u32;
    u == 0x09 || u == 0x0A || u == 0x0B || u == 0x0C || u == 0x0D || u == 0x20 || u == 0x85
        || u == 0xA0 || u == 0x1680 || (0x2000 <= u && u <= 0x200A) || u == 0x2028 || u == 0x2029
        || u == 0x202F || u == 0x205F || u == 0x3000
}

/// `s` with every whitespace character removed; the order of the remaining
/// characters is kept.
pub open spec fn strip_spaces(s: Seq<char>) -> Seq<char>
    decreases s.len(),
{
    if s.len() == 0 {
        Seq::empty()
    } else if is_space_char(s.last()) {
        strip_spaces(s.drop_last())
    } else {
        strip_spaces(s.drop_last()).push(s.last())
    }
}

pub fn strip(s: &str) -> (r: Vec<char>)
    ensures
        r@ == strip_spaces(s@),
{
    let n: usize = s.unicode_len();
    let mut out: Vec<char> = Vec::new();
    let mut i: usize = 0;
    while i < n
        invariant
            i <= n,
            n == s@.len(),
            out@ == strip_spaces(s@.subrange(0, i as int)),
        decreases n - i,
    {
        let c = s.get_char(i);
        if !is_space(c) {
            out.push(c);
        }
        proof {
            let pre = s@.subrange(0, i + 1);
            assert(pre.drop_last() =~= s@.subrange(0, i as int));
            assert(pre.last() == s@[i as int]);
        }
        i += 1;
    }
    proof {
        assert(s@.subrange(0, n as int) =~= s@);
    }
    out
}

/// Whether `c` is one of the characters `0`-`9`, `a`-`f`, `A`-`F`.
pub open spec fn is_hex_digit(c: char) -> bool {
    let u = c as u32;
    (0x30 <= u && u <= 0x39) || (0x61 <= u && u <= 0x66) || (0x41 <= u && u <= 0x46)
}

/// The numeric value of a hexadecimal digit, case-insensitive.
pub open spec fn hex_digit_value(c: char) -> u8
    recommends
        is_hex_digit(c),
{
    let u = c as u32;
    if 0x30 <= u && u <= 0x39 {
        (u - 0x30) as u8
    } else if 0x61 <= u && u <= 0x66 {
        (u - 0x61 + 10) as u8
    } else {
        (u - 0x41 + 10) as u8
    }
}

pub fn hex_digit(c: char) -> (r: Option<u8>)
    ensures
        match r {
            Some(v) => is_hex_digit(c) && v == hex_digit_value(c) && v < 16,
            None => !is_hex_digit(c),
        },
{
    let u: u32 = c as u32;
    if 0x30 <= u && u <= 0x39 {
        Some((u - 0x30) as u8)
    } else if 0x61 <= u && u <= 0x66 {
        Some((u - 0x61 + 10) as u8)
    } else if 0x41 <= u && u <= 0x46 {
        Some((u - 0x41 + 10) as u8)
    } else {
        None
    }
}

/// `c` upper-cased when it is an ASCII lower-case letter, unchanged otherwise.
pub open spec fn upper_char(c: char) -> char {
    let u = c as u32;
    if 0x61 <= u && u <= 0x7A {
        ((u - 0x20) as u8) as char
    } else {
        c
    }
}

pub fn to_upper(c: char) -> (r: char)
    ensures
        r == upper_char(c),
{
    let u: u32 = c as u32;
    if 0x61 <= u && u <= 0x7A {
        ((u - 0x20) as u8) as char
    } else {
        c
    }
}

/// Relies on String::push: appends the character to the end of the string.
#[verifier::external_body]
pub(crate) fn push_char(s: &mut String, c: char)
    ensures
        final(s)@ == old(s)@.push(c),
{
    s.push(c)
}

} // verus!
