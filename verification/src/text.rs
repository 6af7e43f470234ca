//! Character-level executable helpers: classifying and converting single
//! characters, turning strings into character vectors and back, and printing
//! decimal numbers.

use vstd::prelude::*;
use vstd::std_specs::iter::IteratorSpec;
use crate::wire::{
    dec_digits, digit_char, digit_val, hex_char, hex_val, is_digit, is_hex, is_number_char,
    is_scalar_token_char, is_ws,
};

verus! {

/// The characters of a string, in order.
pub fn string_to_chars(s: &str) -> (v: Vec<char>)
    ensures
        v@ == s@,
{
    broadcast use vstd::string::group_string_axioms;

    let mut it = s.chars();
    let mut v: Vec<char> = Vec::new();
    loop
        invariant
            it.obeys_prophetic_iter_laws(),
            v@.len() <= s@.len(),
            it.remaining() == s@.skip(v@.len() as int),
            v@ == s@.take(v@.len() as int),
        ensures
            v@ == s@,
        decreases s@.len() - v@.len(),
    {
        match it.next() {
            Some(c) => {
                proof {
                    assert(s@.skip(v@.len() as int).drop_first() =~= s@.skip(v@.len() + 1int));
                    assert(c == s@[v@.len() as int]);
                    assert(v@.push(c) =~= s@.take(v@.len() + 1int));
                }
                v.push(c);
            },
            None => {
                proof {
                    assert(s@.skip(v@.len() as int).len() == 0);
                    assert(v@ =~= s@);
                }
                break ;
            },
        }
    }
    v
}

/// The string of the given characters, in order.
///
/// Relies on `String: FromIterator<char>`: collecting characters yields the
/// string holding exactly those characters in that order.
#[verifier::external_body]
pub fn chars_to_string(v: &Vec<char>) -> (s: String)
    ensures
        s@ == v@,
{
    v.iter().collect()
}

/// Appends the characters of `s` to `out`.
pub fn append_str_chars(out: &mut Vec<char>, s: &str)
    ensures
        final(out)@ == old(out)@ + s@,
{
    let mut tmp = string_to_chars(s);
    out.append(&mut tmp);
}

/// Whether `c` is JSON whitespace.
pub fn is_ws_char(c: char) -> (r: bool)
    ensures
        r == is_ws(c),
{
    c == ' ' || c == '\n' || c == '\r' || c == '\t'
}

/// The character of a Unicode scalar value.
///
/// Relies on `char::from_u32`: the result is the character whose value is
/// exactly the argument, and it exists if and only if the argument is a
/// scalar value, that is, not a surrogate and at most 0x10FFFF.
#[verifier::external_body]
pub fn char_from_u32(v: u32) -> (r: Option<char>)
    ensures
        (r matches Some(c) ==> c as u32 == v),
        (r is Some <==> (v < 0xD800 || (0xE000 <= v && v <= 0x10FFFF))),
{
    char::from_u32(v)
}

/// Whether `c` can occur in a JSON number.
pub fn is_number_part_char(c: char) -> (r: bool)
    ensures
        r == is_number_char(c),
{
    is_digit_char(c) || c == '.' || c == 'e' || c == 'E' || c == '+' || c == '-'
}

/// Whether a scalar token inside a skipped structure may use `c`.
pub fn is_scalar_part_char(c: char) -> (r: bool)
    ensures
        r == is_scalar_token_char(c),
{
    is_number_part_char(c) || c == 't' || c == 'r' || c == 'u' || c == 'a' || c == 'l' || c == 's'
        || c == 'n' || c == 'f'
}

/// Whether `c` is a decimal digit.
pub fn is_digit_char(c: char) -> (r: bool)
    ensures
        r == is_digit(c),
{
    let u = c as u32;
    0x30 <= u && u <= 0x39
}

/// The value of a decimal digit.
pub fn digit_val_char(c: char) -> (r: u32)
    requires
        is_digit(c),
    ensures
        r == digit_val(c),
{
    (c as u32) - 0x30
}

/// Whether `c` is a hexadecimal digit, in either case.
pub fn is_hex_char(c: char) -> (r: bool)
    ensures
        r == is_hex(c),
{
    let u = c as u32;
    (0x30 <= u && u <= 0x39) || (0x61 <= u && u <= 0x66) || (0x41 <= u && u <= 0x46)
}

/// The value of a hexadecimal digit.
pub fn hex_val_char(c: char) -> (r: u32)
    requires
        is_hex(c),
    ensures
        r == hex_val(c),
{
    let u = c as u32;
    if 0x30 <= u && u <= 0x39 {
        u - 0x30
    } else if 0x61 <= u && u <= 0x66 {
        u - 0x61 + 10
    } else {
        u - 0x41 + 10
    }
}

/// The character of a decimal digit value.
pub fn digit_char_of(d: u8) -> (c: char)
    requires
        d < 10,
    ensures
        c == digit_char(d as nat),
{
    match d {
        0 => '0',
        1 => '1',
        2 => '2',
        3 => '3',
        4 => '4',
        5 => '5',
        6 => '6',
        7 => '7',
        8 => '8',
        _ => '9',
    }
}

/// The lower-case character of a hexadecimal digit value.
pub fn hex_char_of(d: u8) -> (c: char)
    requires
        d < 16,
    ensures
        c == hex_char(d as nat),
{
    if d < 10 {
        digit_char_of(d)
    } else {
        match d {
            10 => 'a',
            11 => 'b',
            12 => 'c',
            13 => 'd',
            14 => 'e',
            _ => 'f',
        }
    }
}

/// The decimal digits of `n`, most significant first.
pub fn u32_dec_chars(n: u32) -> (v: Vec<char>)
    ensures
        v@ == dec_digits(n as nat),
    decreases n,
{
    if n < 10 {
        let mut v: Vec<char> = Vec::new();
        v.push(digit_char_of(n as u8));
        proof {
            assert(v@ =~= dec_digits(n as nat));
        }
        v
    } else {
        let mut v = u32_dec_chars(n / 10);
        v.push(digit_char_of((n % 10) as u8));
        proof {
            assert(v@ =~= dec_digits(n as nat));
        }
        v
    }
}

/// The decimal form of `n`.
pub fn u32_to_dec_string(n: u32) -> (s: String)
    ensures
        s@ == dec_digits(n as nat),
{
    let v = u32_dec_chars(n);
    chars_to_string(&v)
}

/// The decimal digits of an index, most significant first.
pub fn usize_dec_chars(n: usize) -> (v: Vec<char>)
    ensures
        v@ == dec_digits(n as nat),
    decreases n,
{
    if n < 10 {
        let mut v: Vec<char> = Vec::new();
        v.push(digit_char_of(n as u8));
        proof {
            assert(v@ =~= dec_digits(n as nat));
        }
        v
    } else {
        let mut v = usize_dec_chars(n / 10);
        v.push(digit_char_of((n % 10) as u8));
        proof {
            assert(v@ =~= dec_digits(n as nat));
        }
        v
    }
}

/// The decimal form of an index.
pub fn usize_to_dec_string(n: usize) -> (s: String)
    ensures
        s@ == dec_digits(n as nat),
{
    let v = usize_dec_chars(n);
    chars_to_string(&v)
}

} // verus!
