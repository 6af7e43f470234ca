//! The wire format of the quote collection, as mathematics.
//!
//! A quote document is a JSON array of flat records
//! `{"id": <uint>, "quote": <string>, "author": <string>, "source": <string>|null}`.
//! The spec functions here define, over sequences of characters, what the
//! serializer emits and what the parser accepts: string escaping, decimal
//! numbers, the record members in any order, and the surrounding array.
//! String escapes cover the JSON named escapes and every `\uXXXX` form, a
//! surrogate pair standing for one character; raw characters outside the
//! control range stand for themselves. A member with an unknown key is
//! skipped and discarded; a repeated key or a missing required member is
//! malformed.
//!
//! The executable parser and serializer are proved equal to these functions;
//! the round-trip law is proved about them in `laws`.

use vstd::prelude::*;
use crate::models::QuoteView;

verus! {

// ---------------------------------------------------------------------------
// Characters
// ---------------------------------------------------------------------------
/// JSON whitespace.
pub open spec fn is_ws(c: char) -> bool {
    c == ' ' || c == '\n' || c == '\r' || c == '\t'
}

/// A decimal digit.
pub open spec fn is_digit(c: char) -> bool {
    0x30 <= (c as u32) && (c as u32) <= 0x39
}

/// The value of a decimal digit.
pub open spec fn digit_val(c: char) -> nat {
    ((c as u32) - 0x30) as nat
}

/// The character for a decimal digit value below ten.
pub open spec fn digit_char(d: nat) -> char {
    (0x30 + d) as char
}

/// A hexadecimal digit, in either case.
pub open spec fn is_hex(c: char) -> bool {
    is_digit(c) || (0x61 <= (c as u32) && (c as u32) <= 0x66) || (0x41 <= (c as u32) && (c as u32)
        <= 0x46)
}

/// The value of a hexadecimal digit.
pub open spec fn hex_val(c: char) -> nat {
    if is_digit(c) {
        digit_val(c)
    } else if 0x61 <= (c as u32) && (c as u32) <= 0x66 {
        ((c as u32) - 0x61 + 10) as nat
    } else {
        ((c as u32) - 0x41 + 10) as nat
    }
}

/// The lower-case character for a hexadecimal digit value below sixteen.
pub open spec fn hex_char(d: nat) -> char {
    if d < 10 {
        digit_char(d)
    } else {
        (0x61 + (d - 10)) as char
    }
}

/// A character that stands for itself inside a JSON string.
pub open spec fn is_plain(c: char) -> bool {
    c != '"' && c != '\\' && (c as u32) >= 0x20
}

// ---------------------------------------------------------------------------
// Serialization
// ---------------------------------------------------------------------------
/// The escape of one character inside a JSON string: quote, backslash and the
/// common control characters get their named escapes, the remaining control
/// characters a `\u00XX` escape, and every other character stands for itself.
pub open spec fn escape_char(c: char) -> Seq<char> {
    if c == '"' {
        seq!['\\', '"']
    } else if c == '\\' {
        seq!['\\', '\\']
    } else if c == '\n' {
        seq!['\\', 'n']
    } else if c == '\r' {
        seq!['\\', 'r']
    } else if c == '\t' {
        seq!['\\', 't']
    } else if (c as u32) < 0x20 {
        seq!['\\', 'u', '0', '0', hex_char(((c as u32) / 16) as nat), hex_char(
            ((c as u32) % 16) as nat,
        )]
    } else {
        seq![c]
    }
}

/// The escape of a whole string body.
pub open spec fn escape(s: Seq<char>) -> Seq<char>
    decreases s.len(),
{
    if s.len() == 0 {
        Seq::empty()
    } else {
        escape_char(s[0]) + escape(s.drop_first())
    }
}

/// A JSON string: the escaped body between double quotes.
pub open spec fn json_string(s: Seq<char>) -> Seq<char> {
    seq!['"'] + escape(s) + seq!['"']
}

/// The decimal digits of a natural number, most significant first, with no
/// leading zero except for the number zero itself.
pub open spec fn dec_digits(n: nat) -> Seq<char>
    decreases n,
{
    if n < 10 {
        seq![digit_char(n)]
    } else {
        dec_digits(n / 10).push(digit_char(n % 10))
    }
}

/// The serialized `source` member value: a JSON string, or `null` when absent.
pub open spec fn source_json(src: Option<Seq<char>>) -> Seq<char> {
    match src {
        Some(s) => json_string(s),
        None => "null"@,
    }
}

/// The serialized form of one quote record, members in canonical order.
pub open spec fn quote_json(q: QuoteView) -> Seq<char> {
    "{\"id\":"@ + dec_digits(q.id as nat) + ",\"quote\":"@ + json_string(q.text)
        + ",\"author\":"@ + json_string(q.author) + ",\"source\":"@ + source_json(q.source)
        + "}"@
}

/// The serialized elements of a non-empty collection: each record in
/// document order, commas between, and the closing bracket after the last.
pub open spec fn elements_json(qs: Seq<QuoteView>) -> Seq<char>
    decreases qs.len(),
{
    if qs.len() <= 1 {
        quote_json(qs[0]) + seq![']']
    } else {
        quote_json(qs[0]) + (seq![','] + elements_json(qs.drop_first()))
    }
}

/// The serialized form of a whole collection, records in document order.
pub open spec fn quotes_json(qs: Seq<QuoteView>) -> Seq<char> {
    if qs.len() == 0 {
        "[]"@
    } else {
        seq!['['] + elements_json(qs)
    }
}

/// The success body of a quote request.
pub open spec fn quote_response_json(quote: Seq<char>, author: Seq<char>) -> Seq<char> {
    "{\"quote\":"@ + json_string(quote) + ",\"author\":"@ + json_string(author) + "}"@
}

/// The error body common to every failed request.
pub open spec fn error_response_json(error_code: Seq<char>, message: Seq<char>) -> Seq<char> {
    "{\"error_code\":"@ + json_string(error_code) + ",\"message\":"@ + json_string(message)
        + "}"@
}

/// The liveness body.
pub open spec fn health_response_json(status: Seq<char>) -> Seq<char> {
    "{\"status\":"@ + json_string(status) + "}"@
}

// ---------------------------------------------------------------------------
// Parsing
// ---------------------------------------------------------------------------
/// The input with its leading whitespace removed.
pub open spec fn skip_ws(s: Seq<char>) -> Seq<char>
    decreases s.len(),
{
    if s.len() > 0 && is_ws(s[0]) {
        skip_ws(s.drop_first())
    } else {
        s
    }
}

/// Parses a string body after its opening quote, `acc` holding the characters
/// decoded so far; yields the body and the rest after the closing quote.
/// `\uXXXX` escapes are accepted for every scalar value, a surrogate pair
/// standing for one character; a lone surrogate and raw control characters
/// are malformed.
pub open spec fn parse_string_body(s: Seq<char>, acc: Seq<char>) -> Option<(Seq<char>, Seq<char>)>
    decreases s.len(),
{
    if s.len() == 0 {
        None
    } else if s[0] == '"' {
        Some((acc, s.drop_first()))
    } else if s[0] == '\\' {
        if s.len() < 2 {
            None
        } else {
            let e = s[1];
            if e == '"' || e == '\\' || e == '/' {
                parse_string_body(s.skip(2), acc.push(e))
            } else if e == 'n' {
                parse_string_body(s.skip(2), acc.push('\n'))
            } else if e == 'r' {
                parse_string_body(s.skip(2), acc.push('\r'))
            } else if e == 't' {
                parse_string_body(s.skip(2), acc.push('\t'))
            } else if e == 'b' {
                parse_string_body(s.skip(2), acc.push('\u{8}'))
            } else if e == 'f' {
                parse_string_body(s.skip(2), acc.push('\u{c}'))
            } else if e == 'u' {
                if s.len() < 6 {
                    None
                } else if is_hex(s[2]) && is_hex(s[3]) && is_hex(s[4]) && is_hex(s[5]) {
                    let v: nat = hex_val(s[2]) * 4096 + hex_val(s[3]) * 256 + hex_val(s[4]) * 16
                        + hex_val(s[5]);
                    if v < 0xD800 || v > 0xDFFF {
                        parse_string_body(s.skip(6), acc.push(v as char))
                    } else if v < 0xDC00 {
                        // a leading surrogate: its trailing partner must follow
                        if s.len() < 12 {
                            None
                        } else if s[6] == '\\' && s[7] == 'u' && is_hex(s[8]) && is_hex(s[9])
                            && is_hex(s[10]) && is_hex(s[11]) {
                            let w: nat = hex_val(s[8]) * 4096 + hex_val(s[9]) * 256 + hex_val(
                                s[10],
                            ) * 16 + hex_val(s[11]);
                            if 0xDC00 <= w && w <= 0xDFFF {
                                let scalar: nat = (0x10000 + (v - 0xD800) * 0x400 + (w - 0xDC00)) as nat;
                                parse_string_body(s.skip(12), acc.push(scalar as char))
                            } else {
                                None
                            }
                        } else {
                            None
                        }
                    } else {
                        None
                    }
                } else {
                    None
                }
            } else {
                None
            }
        }
    } else if (s[0] as u32) < 0x20 {
        None
    } else {
        parse_string_body(s.drop_first(), acc.push(s[0]))
    }
}

/// Consumes leading decimal digits, folding them onto `acc`; total.
pub open spec fn parse_digits(s: Seq<char>, acc: nat) -> (nat, Seq<char>)
    decreases s.len(),
{
    if s.len() > 0 && is_digit(s[0]) {
        parse_digits(s.drop_first(), acc * 10 + digit_val(s[0]))
    } else {
        (acc, s)
    }
}

/// Parses a JSON unsigned integer: at least one digit, and no leading zero
/// except the number zero itself.
pub open spec fn parse_uint(s: Seq<char>) -> Option<(nat, Seq<char>)> {
    if s.len() == 0 || !is_digit(s[0]) {
        None
    } else if s[0] == '0' {
        Some((0, s.drop_first()))
    } else {
        Some(parse_digits(s, 0))
    }
}

/// A character that can occur in a JSON number.
pub open spec fn is_number_char(c: char) -> bool {
    is_digit(c) || c == '.' || c == 'e' || c == 'E' || c == '+' || c == '-'
}

/// A character that a scalar token inside a skipped structure may use: the
/// number characters and the letters of `true`, `false` and `null`.
pub open spec fn is_scalar_token_char(c: char) -> bool {
    is_number_char(c) || c == 't' || c == 'r' || c == 'u' || c == 'a' || c == 'l' || c == 's' || c
        == 'n' || c == 'f'
}

/// Consumes leading number characters; total.
pub open spec fn skip_number_chars(s: Seq<char>) -> Seq<char>
    decreases s.len(),
{
    if s.len() > 0 && is_number_char(s[0]) {
        skip_number_chars(s.drop_first())
    } else {
        s
    }
}

/// Skips a number lexically: an optional minus sign, then a digit and any
/// run of number characters.
pub open spec fn skip_number(s: Seq<char>) -> Option<Seq<char>> {
    let body = if s.len() > 0 && s[0] == '-' {
        s.drop_first()
    } else {
        s
    };
    if body.len() == 0 || !is_digit(body[0]) {
        None
    } else {
        Some(skip_number_chars(body))
    }
}

/// Skips the remainder of a bracketed structure, `stack` holding the open
/// brackets not yet closed, innermost last: strings are checked exactly,
/// escapes included, and brackets to matching kind and depth; the scalar
/// tokens in between only lexically.
pub open spec fn skip_struct(s: Seq<char>, stack: Seq<char>) -> Option<Seq<char>>
    decreases s.len(),
{
    if s.len() == 0 || stack.len() == 0 {
        None
    } else {
        let c = s[0];
        if c == '"' {
            match parse_string_body(s.drop_first(), Seq::empty()) {
                None => None,
                Some((t, rest)) => {
                    proof {
                        lemma_string_body_len(s.drop_first(), Seq::empty());
                    }
                    skip_struct(rest, stack)
                },
            }
        } else if c == '{' || c == '[' {
            skip_struct(s.drop_first(), stack.push(c))
        } else if c == '}' {
            if stack.last() == '{' {
                if stack.len() == 1 {
                    Some(s.drop_first())
                } else {
                    skip_struct(s.drop_first(), stack.drop_last())
                }
            } else {
                None
            }
        } else if c == ']' {
            if stack.last() == '[' {
                if stack.len() == 1 {
                    Some(s.drop_first())
                } else {
                    skip_struct(s.drop_first(), stack.drop_last())
                }
            } else {
                None
            }
        } else if is_ws(c) || c == ',' || c == ':' || is_scalar_token_char(c) {
            skip_struct(s.drop_first(), stack)
        } else {
            None
        }
    }
}

/// Skips one JSON value, as the value of an unknown member: a string, a
/// number, one of the three literals, or a bracketed structure skipped by
/// [`skip_struct`]; yields the rest after the value.
pub open spec fn skip_json_value(s: Seq<char>) -> Option<Seq<char>> {
    if s.len() == 0 {
        None
    } else {
        let c = s[0];
        if c == '"' {
            match parse_string_body(s.drop_first(), Seq::empty()) {
                None => None,
                Some((t, rest)) => Some(rest),
            }
        } else if c == '{' || c == '[' {
            skip_struct(s.drop_first(), seq![c])
        } else if c == 'n' {
            if s.len() >= 4 && s[1] == 'u' && s[2] == 'l' && s[3] == 'l' {
                Some(s.skip(4))
            } else {
                None
            }
        } else if c == 't' {
            if s.len() >= 4 && s[1] == 'r' && s[2] == 'u' && s[3] == 'e' {
                Some(s.skip(4))
            } else {
                None
            }
        } else if c == 'f' {
            if s.len() >= 5 && s[1] == 'a' && s[2] == 'l' && s[3] == 's' && s[4] == 'e' {
                Some(s.skip(5))
            } else {
                None
            }
        } else if c == '-' || is_digit(c) {
            skip_number(s)
        } else {
            None
        }
    }
}

/// A record in the middle of being parsed: each member not yet seen is `None`.
#[verifier::ext_equal]
pub ghost struct PartialQuote {
    pub id: Option<nat>,
    pub text: Option<Seq<char>>,
    pub author: Option<Seq<char>>,
    pub source: Option<Option<Seq<char>>>,
}

/// The record with no member seen yet.
pub open spec fn empty_partial() -> PartialQuote {
    PartialQuote { id: None, text: None, author: None, source: None }
}

/// Parses one `"key": value` member at the opening quote of its key and
/// records it in `p`. An unknown member is skipped and discarded; a repeated
/// key, a wrongly typed value or an id beyond `u32` is malformed.
pub open spec fn parse_member(s: Seq<char>, p: PartialQuote) -> Option<(PartialQuote, Seq<char>)> {
    if s.len() == 0 || s[0] != '"' {
        None
    } else {
        match parse_string_body(s.drop_first(), Seq::empty()) {
            None => None,
            Some((key, r1)) => {
                let r2 = skip_ws(r1);
                if r2.len() == 0 || r2[0] != ':' {
                    None
                } else {
                    let r3 = skip_ws(r2.drop_first());
                    if key == "id"@ {
                        if p.id is Some {
                            None
                        } else {
                            match parse_uint(r3) {
                                None => None,
                                Some((v, r4)) => if v <= u32::MAX as nat {
                                    Some((PartialQuote { id: Some(v), ..p }, r4))
                                } else {
                                    None
                                },
                            }
                        }
                    } else if key == "quote"@ {
                        if p.text is Some || r3.len() == 0 || r3[0] != '"' {
                            None
                        } else {
                            match parse_string_body(r3.drop_first(), Seq::empty()) {
                                None => None,
                                Some((t, r4)) => Some(
                                    (PartialQuote { text: Some(t), ..p }, r4),
                                ),
                            }
                        }
                    } else if key == "author"@ {
                        if p.author is Some || r3.len() == 0 || r3[0] != '"' {
                            None
                        } else {
                            match parse_string_body(r3.drop_first(), Seq::empty()) {
                                None => None,
                                Some((t, r4)) => Some(
                                    (PartialQuote { author: Some(t), ..p }, r4),
                                ),
                            }
                        }
                    } else if key == "source"@ {
                        if p.source is Some {
                            None
                        } else if r3.len() >= 1 && r3[0] == '"' {
                            match parse_string_body(r3.drop_first(), Seq::empty()) {
                                None => None,
                                Some((t, r4)) => Some(
                                    (PartialQuote { source: Some(Some(t)), ..p }, r4),
                                ),
                            }
                        } else if r3.len() >= 4 && r3[0] == 'n' && r3[1] == 'u' && r3[2] == 'l'
                            && r3[3] == 'l' {
                            Some((PartialQuote { source: Some(None), ..p }, r3.skip(4)))
                        } else {
                            None
                        }
                    } else {
                        match skip_json_value(r3) {
                            None => None,
                            Some(r4) => Some((p, r4)),
                        }
                    }
                }
            },
        }
    }
}

/// Parses the members of a record, the input standing at the opening quote of
/// the next key, and yields the state at the closing brace.
pub open spec fn parse_members(s: Seq<char>, p: PartialQuote) -> Option<(PartialQuote, Seq<char>)>
    decreases s.len(),
{
    match parse_member(s, p) {
        None => None,
        Some((p2, r)) => {
            let r1 = skip_ws(r);
            if r1.len() == 0 {
                None
            } else if r1[0] == ',' {
                proof {
                    lemma_member_len(s, p);
                    lemma_skip_ws_len(r);
                    lemma_skip_ws_len(r1.drop_first());
                }
                parse_members(skip_ws(r1.drop_first()), p2)
            } else if r1[0] == '}' {
                Some((p2, r1.drop_first()))
            } else {
                None
            }
        },
    }
}

/// The finished record, if every required member was seen; a missing `source`
/// member means an absent source.
pub open spec fn finish_quote(p: PartialQuote) -> Option<QuoteView> {
    match (p.id, p.text, p.author) {
        (Some(id), Some(text), Some(author)) => Some(
            QuoteView {
                id: id as u32,
                text,
                author,
                source: match p.source {
                    Some(src) => src,
                    None => None,
                },
            },
        ),
        _ => None,
    }
}

/// Parses one quote record at its opening brace. A record with no members is
/// malformed, since the required members are missing.
pub open spec fn parse_quote_object(s: Seq<char>) -> Option<(QuoteView, Seq<char>)> {
    if s.len() == 0 || s[0] != '{' {
        None
    } else {
        let r = skip_ws(s.drop_first());
        match parse_members(r, empty_partial()) {
            None => None,
            Some((p, rest)) => match finish_quote(p) {
                None => None,
                Some(q) => Some((q, rest)),
            },
        }
    }
}

/// Parses the elements of a non-empty array, the input standing at the
/// opening brace of the next record, and yields the records in document order
/// together with the rest after the closing bracket.
pub open spec fn parse_elements(s: Seq<char>, acc: Seq<QuoteView>) -> Option<
    (Seq<QuoteView>, Seq<char>),
>
    decreases s.len(),
{
    match parse_quote_object(s) {
        None => None,
        Some((q, r)) => {
            let r1 = skip_ws(r);
            if r1.len() == 0 {
                None
            } else if r1[0] == ',' {
                proof {
                    lemma_object_len(s);
                    lemma_skip_ws_len(r);
                    lemma_skip_ws_len(r1.drop_first());
                }
                parse_elements(skip_ws(r1.drop_first()), acc.push(q))
            } else if r1[0] == ']' {
                Some((acc.push(q), r1.drop_first()))
            } else {
                None
            }
        },
    }
}

/// Parses a whole quote document: a JSON array of quote records, possibly
/// empty, with nothing but whitespace around it.
pub open spec fn parse_document(s: Seq<char>) -> Option<Seq<QuoteView>> {
    let r = skip_ws(s);
    if r.len() == 0 || r[0] != '[' {
        None
    } else {
        let r1 = skip_ws(r.drop_first());
        if r1.len() > 0 && r1[0] == ']' {
            if skip_ws(r1.drop_first()).len() == 0 {
                Some(Seq::empty())
            } else {
                None
            }
        } else {
            match parse_elements(r1, Seq::empty()) {
                None => None,
                Some((qs, rest)) => if skip_ws(rest).len() == 0 {
                    Some(qs)
                } else {
                    None
                },
            }
        }
    }
}

/// Parses a document holding a single quote record on its own.
pub open spec fn parse_quote_text(s: Seq<char>) -> Option<QuoteView> {
    match parse_quote_object(skip_ws(s)) {
        None => None,
        Some((q, rest)) => if skip_ws(rest).len() == 0 {
            Some(q)
        } else {
            None
        },
    }
}

// ---------------------------------------------------------------------------
// Bounds of the parsing functions, for termination and composition
// ---------------------------------------------------------------------------
/// Skipping whitespace never lengthens the input.
pub proof fn lemma_skip_ws_len(s: Seq<char>)
    ensures
        skip_ws(s).len() <= s.len(),
    decreases s.len(),
{
    if s.len() > 0 && is_ws(s[0]) {
        lemma_skip_ws_len(s.drop_first());
    }
}

/// A parsed string body ends strictly inside the input.
pub proof fn lemma_string_body_len(s: Seq<char>, acc: Seq<char>)
    ensures
        (parse_string_body(s, acc) matches Some(r) ==> r.1.len() < s.len()),
    decreases s.len(),
{
    if s.len() == 0 {
    } else if s[0] == '"' {
    } else if s[0] == '\\' {
        if s.len() >= 2 {
            let e = s[1];
            if e == '"' || e == '\\' || e == '/' {
                lemma_string_body_len(s.skip(2), acc.push(e));
            } else if e == 'n' {
                lemma_string_body_len(s.skip(2), acc.push('\n'));
            } else if e == 'r' {
                lemma_string_body_len(s.skip(2), acc.push('\r'));
            } else if e == 't' {
                lemma_string_body_len(s.skip(2), acc.push('\t'));
            } else if e == 'b' {
                lemma_string_body_len(s.skip(2), acc.push('\u{8}'));
            } else if e == 'f' {
                lemma_string_body_len(s.skip(2), acc.push('\u{c}'));
            } else if e == 'u' {
                if s.len() >= 6 && is_hex(s[2]) && is_hex(s[3]) && is_hex(s[4]) && is_hex(s[5]) {
                    let v: nat = hex_val(s[2]) * 4096 + hex_val(s[3]) * 256 + hex_val(s[4]) * 16
                        + hex_val(s[5]);
                    if v < 0xD800 || v > 0xDFFF {
                        lemma_string_body_len(s.skip(6), acc.push(v as char));
                    } else if v < 0xDC00 {
                        if s.len() >= 12 && s[6] == '\\' && s[7] == 'u' && is_hex(s[8]) && is_hex(
                            s[9],
                        ) && is_hex(s[10]) && is_hex(s[11]) {
                            let w: nat = hex_val(s[8]) * 4096 + hex_val(s[9]) * 256 + hex_val(
                                s[10],
                            ) * 16 + hex_val(s[11]);
                            if 0xDC00 <= w && w <= 0xDFFF {
                                let scalar: nat = (0x10000 + (v - 0xD800) * 0x400 + (w - 0xDC00)) as nat;
                                lemma_string_body_len(s.skip(12), acc.push(scalar as char));
                            }
                        }
                    }
                }
            }
        }
    } else if (s[0] as u32) < 0x20 {
    } else {
        lemma_string_body_len(s.drop_first(), acc.push(s[0]));
    }
}

/// Consuming digits never lengthens the input.
pub proof fn lemma_digits_len(s: Seq<char>, acc: nat)
    ensures
        parse_digits(s, acc).1.len() <= s.len(),
    decreases s.len(),
{
    if s.len() > 0 && is_digit(s[0]) {
        lemma_digits_len(s.drop_first(), acc * 10 + digit_val(s[0]));
    }
}

/// Folding further digits onto an accumulated value never lowers it.
pub proof fn lemma_digits_value_ge(s: Seq<char>, acc: nat)
    ensures
        parse_digits(s, acc).0 >= acc,
    decreases s.len(),
{
    if s.len() > 0 && is_digit(s[0]) {
        lemma_digits_value_ge(s.drop_first(), acc * 10 + digit_val(s[0]));
    }
}

/// A parsed unsigned integer ends strictly inside the input.
pub proof fn lemma_uint_len(s: Seq<char>)
    ensures
        (parse_uint(s) matches Some(r) ==> r.1.len() < s.len()),
{
    if s.len() > 0 && is_digit(s[0]) && s[0] != '0' {
        assert(parse_digits(s, 0) == parse_digits(s.drop_first(), digit_val(s[0])));
        lemma_digits_len(s.drop_first(), digit_val(s[0]));
    }
}

/// Consuming number characters never lengthens the input.
pub proof fn lemma_number_chars_len(s: Seq<char>)
    ensures
        skip_number_chars(s).len() <= s.len(),
    decreases s.len(),
{
    if s.len() > 0 && is_number_char(s[0]) {
        lemma_number_chars_len(s.drop_first());
    }
}

/// A skipped structure ends strictly inside the input.
pub proof fn lemma_skip_struct_len(s: Seq<char>, stack: Seq<char>)
    ensures
        (skip_struct(s, stack) matches Some(r) ==> r.len() < s.len()),
    decreases s.len(),
{
    if s.len() > 0 && stack.len() > 0 {
        let c = s[0];
        if c == '"' {
            lemma_string_body_len(s.drop_first(), Seq::empty());
            if let Some((t, rest)) = parse_string_body(s.drop_first(), Seq::empty()) {
                lemma_skip_struct_len(rest, stack);
            }
        } else if c == '{' || c == '[' {
            lemma_skip_struct_len(s.drop_first(), stack.push(c));
        } else if c == '}' {
            if stack.last() == '{' && stack.len() > 1 {
                lemma_skip_struct_len(s.drop_first(), stack.drop_last());
            }
        } else if c == ']' {
            if stack.last() == '[' && stack.len() > 1 {
                lemma_skip_struct_len(s.drop_first(), stack.drop_last());
            }
        } else if is_ws(c) || c == ',' || c == ':' || is_scalar_token_char(c) {
            lemma_skip_struct_len(s.drop_first(), stack);
        }
    }
}

/// A skipped value ends strictly inside the input.
pub proof fn lemma_skip_value_len(s: Seq<char>)
    ensures
        (skip_json_value(s) matches Some(r) ==> r.len() < s.len()),
{
    if s.len() > 0 {
        let c = s[0];
        if c == '"' {
            lemma_string_body_len(s.drop_first(), Seq::empty());
        } else if c == '{' || c == '[' {
            lemma_skip_struct_len(s.drop_first(), seq![c]);
        } else if c == '-' || is_digit(c) {
            let body = if s[0] == '-' {
                s.drop_first()
            } else {
                s
            };
            if body.len() > 0 && is_digit(body[0]) {
                lemma_number_chars_len(body.drop_first());
            }
        }
    }
}

/// A parsed member ends strictly inside the input.
pub proof fn lemma_member_len(s: Seq<char>, p: PartialQuote)
    ensures
        (parse_member(s, p) matches Some(r) ==> r.1.len() < s.len()),
{
    if s.len() > 0 && s[0] == '"' {
        lemma_string_body_len(s.drop_first(), Seq::empty());
        if let Some((key, r1)) = parse_string_body(s.drop_first(), Seq::empty()) {
            lemma_skip_ws_len(r1);
            let r2 = skip_ws(r1);
            if r2.len() > 0 && r2[0] == ':' {
                lemma_skip_ws_len(r2.drop_first());
                let r3 = skip_ws(r2.drop_first());
                lemma_uint_len(r3);
                lemma_skip_value_len(r3);
                if r3.len() > 0 && r3[0] == '"' {
                    lemma_string_body_len(r3.drop_first(), Seq::empty());
                }
            }
        }
    }
}

/// The members of a record end strictly inside the input.
pub proof fn lemma_members_len(s: Seq<char>, p: PartialQuote)
    ensures
        (parse_members(s, p) matches Some(r) ==> r.1.len() < s.len()),
    decreases s.len(),
{
    lemma_member_len(s, p);
    if let Some((p2, r)) = parse_member(s, p) {
        let r1 = skip_ws(r);
        lemma_skip_ws_len(r);
        if r1.len() > 0 && r1[0] == ',' {
            lemma_skip_ws_len(r1.drop_first());
            lemma_members_len(skip_ws(r1.drop_first()), p2);
        }
    }
}

/// A parsed record ends strictly inside the input.
pub proof fn lemma_object_len(s: Seq<char>)
    ensures
        (parse_quote_object(s) matches Some(r) ==> r.1.len() < s.len()),
{
    if s.len() > 0 && s[0] == '{' {
        lemma_skip_ws_len(s.drop_first());
        lemma_members_len(skip_ws(s.drop_first()), empty_partial());
    }
}

} // verus!
