//! The executable parser of the wire format, proved equal to the spec
//! grammar of `wire`: each function consumes characters of the input vector
//! from an index and relates its outcome to the corresponding spec function
//! on the remaining suffix.

use vstd::prelude::*;
use crate::models::{Quote, QuoteView};
use crate::text::{
    char_from_u32, chars_to_string, digit_val_char, hex_val_char, is_digit_char, is_hex_char,
    is_number_part_char, is_scalar_part_char, is_ws_char,
};
use crate::wire::{
    empty_partial, finish_quote, is_digit, lemma_digits_value_ge, parse_digits, parse_document,
    parse_elements, parse_member, parse_members, parse_quote_object, parse_quote_text,
    parse_string_body, parse_uint, skip_json_value, skip_number_chars, skip_struct, skip_ws,
    PartialQuote,
};

verus! {

/// Advances past whitespace: afterwards the suffix at the returned index is
/// the whitespace-free suffix of the input at `i`.
fn skip_ws_at(s: &Vec<char>, i: usize) -> (j: usize)
    requires
        i <= s@.len(),
    ensures
        i <= j <= s@.len(),
        s@.skip(j as int) == skip_ws(s@.skip(i as int)),
{
    let n = s.len();
    let mut j: usize = i;
    while j < n && is_ws_char(s[j])
        invariant
            i <= j <= n,
            n == s@.len(),
            skip_ws(s@.skip(i as int)) == skip_ws(s@.skip(j as int)),
        decreases n - j,
    {
        proof {
            assert(s@.skip(j as int)[0] == s@[j as int]);
            assert(s@.skip(j as int).drop_first() =~= s@.skip(j + 1int));
        }
        j = j + 1;
    }
    proof {
        assert(skip_ws(s@.skip(j as int)) == s@.skip(j as int));
    }
    j
}

/// Parses a string body at `i`, the opening quote already consumed, into the
/// string it denotes and the index after the closing quote; a failure names
/// the offending character offset.
#[verifier::rlimit(100)]
#[verifier::spinoff_prover]
fn parse_string_at(s: &Vec<char>, i: usize) -> (r: Result<(String, usize), usize>)
    requires
        i <= s@.len(),
    ensures
        (r matches Ok(t) ==> i <= t.1 <= s@.len() && parse_string_body(
            s@.skip(i as int),
            Seq::empty(),
        ) == Some((t.0@, s@.skip(t.1 as int)))),
        (r is Err ==> parse_string_body(s@.skip(i as int), Seq::empty()) is None),
{
    let n = s.len();
    let mut acc: Vec<char> = Vec::new();
    let mut j: usize = i;
    loop
        invariant
            i <= j <= n,
            n == s@.len(),
            parse_string_body(s@.skip(i as int), Seq::empty()) == parse_string_body(
                s@.skip(j as int),
                acc@,
            ),
        decreases n - j,
    {
        proof {
            assert(s@.skip(j as int).len() == n - j);
        }
        if j >= n {
            return Err(j);
        }
        let c = s[j];
        proof {
            assert(s@.skip(j as int)[0] == c);
            assert(s@.skip(j as int).drop_first() =~= s@.skip(j + 1int));
        }
        if c == '"' {
            let t = chars_to_string(&acc);
            return Ok((t, j + 1));
        } else if c == '\\' {
            if j + 1 >= n {
                return Err(j + 1);
            }
            let e = s[j + 1];
            proof {
                assert(s@.skip(j as int)[1] == e);
                assert(s@.skip(j as int).skip(2) =~= s@.skip(j + 2int));
            }
            if e == '"' || e == '\\' || e == '/' {
                acc.push(e);
                j = j + 2;
            } else if e == 'n' {
                acc.push('\n');
                j = j + 2;
            } else if e == 'r' {
                acc.push('\r');
                j = j + 2;
            } else if e == 't' {
                acc.push('\t');
                j = j + 2;
            } else if e == 'b' {
                acc.push('\u{8}');
                j = j + 2;
            } else if e == 'f' {
                acc.push('\u{c}');
                j = j + 2;
            } else if e == 'u' {
                if n - j < 6 {
                    return Err(j);
                }
                let h0 = s[j + 2];
                let h1 = s[j + 3];
                let h2 = s[j + 4];
                let h3 = s[j + 5];
                proof {
                    assert(s@.skip(j as int)[2] == h0);
                    assert(s@.skip(j as int)[3] == h1);
                    assert(s@.skip(j as int)[4] == h2);
                    assert(s@.skip(j as int)[5] == h3);
                    assert(s@.skip(j as int).skip(6) =~= s@.skip(j + 6int));
                }
                if !(is_hex_char(h0) && is_hex_char(h1) && is_hex_char(h2) && is_hex_char(h3)) {
                    return Err(j + 2);
                }
                let v: u32 = hex_val_char(h0) * 4096 + hex_val_char(h1) * 256 + hex_val_char(h2)
                    * 16 + hex_val_char(h3);
                if v < 0xD800 || v > 0xDFFF {
                    let decoded = char_from_u32(v).unwrap();
                    proof {
                        vstd::utf8::char_u32_cast(decoded, v);
                        assert(decoded == ((v as nat) as char));
                    }
                    acc.push(decoded);
                    j = j + 6;
                } else if v < 0xDC00 {
                    if n - j < 12 {
                        return Err(j);
                    }
                    let e6 = s[j + 6];
                    let e7 = s[j + 7];
                    let g0 = s[j + 8];
                    let g1 = s[j + 9];
                    let g2 = s[j + 10];
                    let g3 = s[j + 11];
                    proof {
                        assert(s@.skip(j as int)[6] == e6);
                        assert(s@.skip(j as int)[7] == e7);
                        assert(s@.skip(j as int)[8] == g0);
                        assert(s@.skip(j as int)[9] == g1);
                        assert(s@.skip(j as int)[10] == g2);
                        assert(s@.skip(j as int)[11] == g3);
                        assert(s@.skip(j as int).skip(12) =~= s@.skip(j + 12int));
                    }
                    if !(e6 == '\\' && e7 == 'u' && is_hex_char(g0) && is_hex_char(g1)
                        && is_hex_char(g2) && is_hex_char(g3)) {
                        return Err(j + 6);
                    }
                    let w: u32 = hex_val_char(g0) * 4096 + hex_val_char(g1) * 256 + hex_val_char(
                        g2,
                    ) * 16 + hex_val_char(g3);
                    if !(0xDC00 <= w && w <= 0xDFFF) {
                        return Err(j + 6);
                    }
                    let scalar: u32 = 0x10000 + (v - 0xD800) * 0x400 + (w - 0xDC00);
                    let decoded = char_from_u32(scalar).unwrap();
                    proof {
                        vstd::utf8::char_u32_cast(decoded, scalar);
                        assert(decoded == ((scalar as nat) as char));
                    }
                    acc.push(decoded);
                    j = j + 12;
                } else {
                    return Err(j);
                }
            } else {
                return Err(j + 1);
            }
        } else if (c as u32) < 0x20 {
            return Err(j);
        } else {
            acc.push(c);
            j = j + 1;
        }
    }
}

/// Parses a JSON unsigned integer at `i` into a `u32`; a well-formed number
/// beyond `u32` is reported as a failure, as the record would be rejected.
fn parse_u32_at(s: &Vec<char>, i: usize) -> (r: Result<(u32, usize), usize>)
    requires
        i <= s@.len(),
    ensures
        (r matches Ok(t) ==> i <= t.1 <= s@.len() && parse_uint(s@.skip(i as int)) == Some(
            ((t.0 as nat), s@.skip(t.1 as int)),
        )),
        (r is Err ==> parse_uint(s@.skip(i as int)) is None || (parse_uint(s@.skip(i as int))
            matches Some(p) && p.0 > u32::MAX as nat)),
{
    let n = s.len();
    proof {
        assert(s@.skip(i as int).len() == n - i);
    }
    if i >= n || !is_digit_char(s[i]) {
        proof {
            if i < n {
                assert(s@.skip(i as int)[0] == s@[i as int]);
            }
        }
        return Err(i);
    }
    proof {
        assert(s@.skip(i as int)[0] == s@[i as int]);
        assert(s@.skip(i as int).drop_first() =~= s@.skip(i + 1int));
    }
    if s[i] == '0' {
        return Ok((0, i + 1));
    }
    let mut acc: u64 = 0;
    let mut j: usize = i;
    loop
        invariant
            i < n,
            i <= j <= n,
            n == s@.len(),
            acc <= u32::MAX as u64,
            is_digit(s@.skip(i as int)[0]),
            s@.skip(i as int)[0] != '0',
            parse_digits(s@.skip(i as int), 0) == parse_digits(s@.skip(j as int), acc as nat),
        ensures
            ({
                let outcome = parse_digits(s@.skip(i as int), 0);
                acc <= u32::MAX as u64 && outcome == ((acc as nat), s@.skip(j as int)) && i <= j
                    <= n
            }),
        decreases n - j,
    {
        proof {
            assert(s@.skip(j as int).len() == n - j);
            if j < n {
                assert(s@.skip(j as int)[0] == s@[j as int]);
                assert(s@.skip(j as int).drop_first() =~= s@.skip(j + 1int));
            }
        }
        if j >= n || !is_digit_char(s[j]) {
            break ;
        }
        let d = digit_val_char(s[j]);
        let next: u64 = acc * 10 + (d as u64);
        if next > u32::MAX as u64 {
            proof {
                lemma_digits_value_ge(s@.skip(j + 1int), next as nat);
            }
            return Err(j);
        }
        acc = next;
        j = j + 1;
    }
    Ok((acc as u32, j))
}

/// Skips the remainder of a bracketed structure whose opening bracket,
/// `first`, was already consumed.
fn skip_struct_at(s: &Vec<char>, i: usize, first: char) -> (r: Result<usize, usize>)
    requires
        i <= s@.len(),
        first == '{' || first == '[',
    ensures
        (r matches Ok(j) ==> i <= j <= s@.len() && skip_struct(s@.skip(i as int), seq![first])
            == Some(s@.skip(j as int))),
        (r is Err ==> skip_struct(s@.skip(i as int), seq![first]) is None),
{
    let n = s.len();
    let mut stack: Vec<char> = Vec::new();
    stack.push(first);
    let mut cur: usize = i;
    proof {
        assert(stack@ =~= seq![first]);
    }
    loop
        invariant
            i <= cur <= n,
            n == s@.len(),
            stack@.len() >= 1,
            skip_struct(s@.skip(i as int), seq![first]) == skip_struct(
                s@.skip(cur as int),
                stack@,
            ),
        decreases n - cur,
    {
        proof {
            assert(s@.skip(cur as int).len() == n - cur);
            if cur < n {
                assert(s@.skip(cur as int)[0] == s@[cur as int]);
                assert(s@.skip(cur as int).drop_first() =~= s@.skip(cur + 1int));
            }
        }
        if cur >= n {
            return Err(cur);
        }
        let c = s[cur];
        if c == '"' {
            match parse_string_at(s, cur + 1) {
                Err(k) => {
                    return Err(k);
                },
                Ok((_, j2)) => {
                    cur = j2;
                },
            }
        } else if c == '{' || c == '[' {
            stack.push(c);
            cur = cur + 1;
        } else if c == '}' {
            let top = stack[stack.len() - 1];
            proof {
                assert(stack@.last() == top);
            }
            if top != '{' {
                return Err(cur);
            }
            if stack.len() == 1 {
                return Ok(cur + 1);
            }
            stack.pop();
            cur = cur + 1;
        } else if c == ']' {
            let top = stack[stack.len() - 1];
            proof {
                assert(stack@.last() == top);
            }
            if top != '[' {
                return Err(cur);
            }
            if stack.len() == 1 {
                return Ok(cur + 1);
            }
            stack.pop();
            cur = cur + 1;
        } else if is_ws_char(c) || c == ',' || c == ':' || is_scalar_part_char(c) {
            cur = cur + 1;
        } else {
            return Err(cur);
        }
    }
}

/// Skips one JSON value at `i`, as the value of an unknown member, yielding
/// the index after it.
fn skip_json_value_at(s: &Vec<char>, i: usize) -> (r: Result<usize, usize>)
    requires
        i <= s@.len(),
    ensures
        (r matches Ok(j) ==> i <= j <= s@.len() && skip_json_value(s@.skip(i as int)) == Some(
            s@.skip(j as int),
        )),
        (r is Err ==> skip_json_value(s@.skip(i as int)) is None),
{
    let n = s.len();
    proof {
        assert(s@.skip(i as int).len() == n - i);
        if i < n {
            assert(s@.skip(i as int)[0] == s@[i as int]);
            assert(s@.skip(i as int).drop_first() =~= s@.skip(i + 1int));
        }
    }
    if i >= n {
        return Err(i);
    }
    let c = s[i];
    if c == '"' {
        match parse_string_at(s, i + 1) {
            Err(k) => Err(k),
            Ok((_, j)) => Ok(j),
        }
    } else if c == '{' || c == '[' {
        skip_struct_at(s, i + 1, c)
    } else if c == 'n' || c == 't' {
        if n - i < 4 {
            return Err(i);
        }
        proof {
            assert(s@.skip(i as int)[1] == s@[i + 1int]);
            assert(s@.skip(i as int)[2] == s@[i + 2int]);
            assert(s@.skip(i as int)[3] == s@[i + 3int]);
            assert(s@.skip(i as int).skip(4) =~= s@.skip(i + 4int));
        }
        if c == 'n' {
            if s[i + 1] == 'u' && s[i + 2] == 'l' && s[i + 3] == 'l' {
                Ok(i + 4)
            } else {
                Err(i)
            }
        } else {
            if s[i + 1] == 'r' && s[i + 2] == 'u' && s[i + 3] == 'e' {
                Ok(i + 4)
            } else {
                Err(i)
            }
        }
    } else if c == 'f' {
        if n - i < 5 {
            return Err(i);
        }
        proof {
            assert(s@.skip(i as int)[1] == s@[i + 1int]);
            assert(s@.skip(i as int)[2] == s@[i + 2int]);
            assert(s@.skip(i as int)[3] == s@[i + 3int]);
            assert(s@.skip(i as int)[4] == s@[i + 4int]);
            assert(s@.skip(i as int).skip(5) =~= s@.skip(i + 5int));
        }
        if s[i + 1] == 'a' && s[i + 2] == 'l' && s[i + 3] == 's' && s[i + 4] == 'e' {
            Ok(i + 5)
        } else {
            Err(i)
        }
    } else if c == '-' || is_digit_char(c) {
        let body_start: usize = if c == '-' {
            i + 1
        } else {
            i
        };
        proof {
            assert(s@.skip(body_start as int).len() == n - body_start);
            if body_start < n {
                assert(s@.skip(body_start as int)[0] == s@[body_start as int]);
            }
        }
        if body_start >= n || !is_digit_char(s[body_start]) {
            return Err(body_start);
        }
        let mut k: usize = body_start;
        loop
            invariant
                body_start <= k <= n,
                n == s@.len(),
                skip_number_chars(s@.skip(body_start as int)) == skip_number_chars(
                    s@.skip(k as int),
                ),
            ensures
                body_start <= k <= n,
                skip_number_chars(s@.skip(body_start as int)) == s@.skip(k as int),
            decreases n - k,
        {
            proof {
                assert(s@.skip(k as int).len() == n - k);
                if k < n {
                    assert(s@.skip(k as int)[0] == s@[k as int]);
                    assert(s@.skip(k as int).drop_first() =~= s@.skip(k + 1int));
                }
            }
            if k >= n || !is_number_part_char(s[k]) {
                break ;
            }
            k = k + 1;
        }
        Ok(k)
    } else {
        Err(i)
    }
}

/// A record in the middle of being parsed, executable side.
struct PartialRecord {
    id: Option<u32>,
    text: Option<String>,
    author: Option<String>,
    source: Option<Option<String>>,
}

impl View for PartialRecord {
    type V = PartialQuote;

    closed spec fn view(&self) -> PartialQuote {
        PartialQuote {
            id: match self.id {
                Some(v) => Some(v as nat),
                None => None,
            },
            text: match self.text {
                Some(t) => Some(t@),
                None => None,
            },
            author: match self.author {
                Some(t) => Some(t@),
                None => None,
            },
            source: match self.source {
                Some(Some(t)) => Some(Some(t@)),
                Some(None) => Some(None),
                None => None,
            },
        }
    }
}

/// Parses one `"key": value` member at `i` and records it.
#[verifier::rlimit(100)]
#[verifier::spinoff_prover]
fn parse_member_at(s: &Vec<char>, i: usize, p: PartialRecord) -> (r: Result<
    (PartialRecord, usize),
    usize,
>)
    requires
        i <= s@.len(),
    ensures
        (r matches Ok(t) ==> i <= t.1 <= s@.len() && parse_member(s@.skip(i as int), p@) == Some(
            (t.0@, s@.skip(t.1 as int)),
        )),
        (r is Err ==> parse_member(s@.skip(i as int), p@) is None),
{
    let ghost pv = p@;
    let n = s.len();
    proof {
        assert(s@.skip(i as int).len() == n - i);
        if i < n {
            assert(s@.skip(i as int)[0] == s@[i as int]);
            assert(s@.skip(i as int).drop_first() =~= s@.skip(i + 1int));
        }
    }
    if i >= n || s[i] != '"' {
        return Err(i);
    }
    let key_parsed = parse_string_at(s, i + 1);
    match key_parsed {
        Err(k) => Err(k),
        Ok((key, j1)) => {
            let j2 = skip_ws_at(s, j1);
            proof {
                if j2 < n {
                    assert(s@.skip(j2 as int)[0] == s@[j2 as int]);
                    assert(s@.skip(j2 as int).drop_first() =~= s@.skip(j2 + 1int));
                }
            }
            if j2 >= n || s[j2] != ':' {
                return Err(j2);
            }
            let j3 = skip_ws_at(s, j2 + 1);
            proof {
                if j3 < n {
                    assert(s@.skip(j3 as int)[0] == s@[j3 as int]);
                    assert(s@.skip(j3 as int).drop_first() =~= s@.skip(j3 + 1int));
                }
            }
            if key == "id".to_owned() {
                if p.id.is_some() {
                    return Err(i);
                }
                match parse_u32_at(s, j3) {
                    Err(k) => Err(k),
                    Ok((v, j4)) => {
                        let p2 = PartialRecord { id: Some(v), ..p };
                        proof {
                            assert(p2@ =~= (PartialQuote { id: Some(v as nat), ..pv }));
                        }
                        Ok((p2, j4))
                    },
                }
            } else if key == "quote".to_owned() {
                if p.text.is_some() || j3 >= n || s[j3] != '"' {
                    return Err(j3);
                }
                match parse_string_at(s, j3 + 1) {
                    Err(k) => Err(k),
                    Ok((t, j4)) => {
                        let ghost tv = t@;
                        let p2 = PartialRecord { text: Some(t), ..p };
                        proof {
                            assert(p2@ =~= (PartialQuote { text: Some(tv), ..pv }));
                        }
                        Ok((p2, j4))
                    },
                }
            } else if key == "author".to_owned() {
                if p.author.is_some() || j3 >= n || s[j3] != '"' {
                    return Err(j3);
                }
                match parse_string_at(s, j3 + 1) {
                    Err(k) => Err(k),
                    Ok((t, j4)) => {
                        let ghost tv = t@;
                        let p2 = PartialRecord { author: Some(t), ..p };
                        proof {
                            assert(p2@ =~= (PartialQuote { author: Some(tv), ..pv }));
                        }
                        Ok((p2, j4))
                    },
                }
            } else if key == "source".to_owned() {
                if p.source.is_some() {
                    return Err(i);
                }
                if j3 < n && s[j3] == '"' {
                    match parse_string_at(s, j3 + 1) {
                        Err(k) => Err(k),
                        Ok((t, j4)) => {
                            let ghost tv = t@;
                            let p2 = PartialRecord { source: Some(Some(t)), ..p };
                            proof {
                                assert(p2@ =~= (PartialQuote { source: Some(Some(tv)), ..pv }));
                            }
                            Ok((p2, j4))
                        },
                    }
                } else if n - j3 >= 4 && s[j3] == 'n' && s[j3 + 1] == 'u' && s[j3 + 2] == 'l' && s[j3
                    + 3] == 'l' {
                    let p2 = PartialRecord { source: Some(None), ..p };
                    proof {
                        assert(s@.skip(j3 as int)[1] == s@[j3 + 1int]);
                        assert(s@.skip(j3 as int)[2] == s@[j3 + 2int]);
                        assert(s@.skip(j3 as int)[3] == s@[j3 + 3int]);
                        assert(s@.skip(j3 as int).skip(4) =~= s@.skip(j3 + 4int));
                        assert(p2@ =~= (PartialQuote { source: Some(None), ..pv }));
                    }
                    Ok((p2, j3 + 4))
                } else {
                    proof {
                        if n - j3 >= 4 {
                            assert(s@.skip(j3 as int)[1] == s@[j3 + 1int]);
                            assert(s@.skip(j3 as int)[2] == s@[j3 + 2int]);
                            assert(s@.skip(j3 as int)[3] == s@[j3 + 3int]);
                        }
                    }
                    Err(j3)
                }
            } else {
                match skip_json_value_at(s, j3) {
                    Err(k) => Err(k),
                    Ok(j4) => Ok((p, j4)),
                }
            }
        },
    }
}

/// Parses the members of a record from the opening quote of its first key to
/// the closing brace.
#[verifier::rlimit(100)]
#[verifier::spinoff_prover]
fn parse_members_at(s: &Vec<char>, i: usize, p: PartialRecord) -> (r: Result<
    (PartialRecord, usize),
    usize,
>)
    requires
        i <= s@.len(),
    ensures
        (r matches Ok(t) ==> i <= t.1 <= s@.len() && parse_members(s@.skip(i as int), p@) == Some(
            (t.0@, s@.skip(t.1 as int)),
        )),
        (r is Err ==> parse_members(s@.skip(i as int), p@) is None),
    decreases s@.len() - i,
{
    let ghost pv = p@;
    let n = s.len();
    match parse_member_at(s, i, p) {
        Err(k) => Err(k),
        Ok((p2, j4)) => {
            let k = skip_ws_at(s, j4);
            proof {
                assert(s@.skip(k as int).len() == n - k);
                if k < n {
                    assert(s@.skip(k as int)[0] == s@[k as int]);
                    assert(s@.skip(k as int).drop_first() =~= s@.skip(k + 1int));
                }
            }
            if k >= n {
                return Err(k);
            }
            let c = s[k];
            if c == ',' {
                let k2 = skip_ws_at(s, k + 1);
                let ghost p2v = p2@;
                proof {
                    assert(parse_members(s@.skip(i as int), pv) == parse_members(
                        s@.skip(k2 as int),
                        p2v,
                    ));
                }
                parse_members_at(s, k2, p2)
            } else if c == '}' {
                Ok((p2, k + 1))
            } else {
                Err(k)
            }
        },
    }
}

/// Parses one quote record at its opening brace.
fn parse_quote_object_at(s: &Vec<char>, i: usize) -> (r: Result<(Quote, usize), usize>)
    requires
        i <= s@.len(),
    ensures
        (r matches Ok(t) ==> i <= t.1 <= s@.len() && parse_quote_object(s@.skip(i as int))
            == Some((t.0@, s@.skip(t.1 as int)))),
        (r is Err ==> parse_quote_object(s@.skip(i as int)) is None),
{
    let n = s.len();
    proof {
        assert(s@.skip(i as int).len() == n - i);
        if i < n {
            assert(s@.skip(i as int)[0] == s@[i as int]);
            assert(s@.skip(i as int).drop_first() =~= s@.skip(i + 1int));
        }
    }
    if i >= n || s[i] != '{' {
        return Err(i);
    }
    let j = skip_ws_at(s, i + 1);
    let start = PartialRecord { id: None, text: None, author: None, source: None };
    proof {
        assert(start@ =~= empty_partial());
    }
    match parse_members_at(s, j, start) {
        Err(k) => Err(k),
        Ok((p, j2)) => {
            let ghost pv = p@;
            let PartialRecord { id, text, author, source } = p;
            match (id, text, author) {
                (Some(idv), Some(t), Some(a)) => {
                    let q = Quote {
                        id: idv,
                        text: t,
                        author: a,
                        source: match source {
                            Some(src) => src,
                            None => None,
                        },
                    };
                    proof {
                        assert(finish_quote(pv) matches Some(qv) && qv =~= q@);
                    }
                    Ok((q, j2))
                },
                _ => Err(j2),
            }
        },
    }
}

/// Parses a document holding a single quote record on its own.
pub fn parse_quote(text_in: &str) -> (r: Option<Quote>)
    ensures
        (r matches Some(q) ==> parse_quote_text(text_in@) == Some(q@)),
        (r is None ==> parse_quote_text(text_in@) is None),
{
    let v = crate::text::string_to_chars(text_in);
    let n = v.len();
    proof {
        assert(v@.skip(0) =~= v@);
    }
    let i = skip_ws_at(&v, 0);
    match parse_quote_object_at(&v, i) {
        Err(_) => None,
        Ok((q, j)) => {
            let k = skip_ws_at(&v, j);
            proof {
                assert(v@.skip(k as int).len() == n - k);
            }
            if k >= n {
                Some(q)
            } else {
                None
            }
        },
    }
}

/// Parses a whole quote document: a JSON array of quote records.
#[verifier::rlimit(100)]
#[verifier::spinoff_prover]
pub fn parse_document_text(text_in: &str) -> (r: Result<Vec<Quote>, usize>)
    ensures
        (r matches Ok(qs) ==> parse_document(text_in@) == Some(qs.deep_view())),
        (r is Err ==> parse_document(text_in@) is None),
{
    let v = crate::text::string_to_chars(text_in);
    let n = v.len();
    proof {
        assert(v@.skip(0) =~= v@);
    }
    let i0 = skip_ws_at(&v, 0);
    proof {
        assert(v@.skip(i0 as int).len() == n - i0);
        if i0 < n {
            assert(v@.skip(i0 as int)[0] == v@[i0 as int]);
            assert(v@.skip(i0 as int).drop_first() =~= v@.skip(i0 + 1int));
        }
    }
    if i0 >= n || v[i0] != '[' {
        return Err(i0);
    }
    let j1 = skip_ws_at(&v, i0 + 1);
    proof {
        assert(v@.skip(j1 as int).len() == n - j1);
        if j1 < n {
            assert(v@.skip(j1 as int)[0] == v@[j1 as int]);
            assert(v@.skip(j1 as int).drop_first() =~= v@.skip(j1 + 1int));
        }
    }
    if j1 < n && v[j1] == ']' {
        let j2 = skip_ws_at(&v, j1 + 1);
        proof {
            assert(v@.skip(j2 as int).len() == n - j2);
        }
        if j2 >= n {
            let qs: Vec<Quote> = Vec::new();
            proof {
                assert(qs.deep_view() =~= Seq::<QuoteView>::empty());
            }
            return Ok(qs);
        } else {
            return Err(j2);
        }
    }
    match parse_elements_at(&v, j1) {
        Err(k) => Err(k),
        Ok((qs, after)) => {
            let j3 = skip_ws_at(&v, after);
            proof {
                assert(v@.skip(j3 as int).len() == n - j3);
            }
            if j3 >= n {
                Ok(qs)
            } else {
                Err(j3)
            }
        },
    }
}

/// Parses the elements of a non-empty array from the opening brace of its
/// first record to the closing bracket.
#[verifier::rlimit(100)]
#[verifier::spinoff_prover]
fn parse_elements_at(v: &Vec<char>, start: usize) -> (r: Result<(Vec<Quote>, usize), usize>)
    requires
        start <= v@.len(),
    ensures
        (r matches Ok(t) ==> start <= t.1 <= v@.len() && parse_elements(
            v@.skip(start as int),
            Seq::empty(),
        ) == Some((t.0.deep_view(), v@.skip(t.1 as int)))),
        (r is Err ==> parse_elements(v@.skip(start as int), Seq::empty()) is None),
{
    let n = v.len();
    let mut acc: Vec<Quote> = Vec::new();
    let mut cur: usize = start;
    let mut after: usize = 0;
    proof {
        assert(acc.deep_view() =~= Seq::<QuoteView>::empty());
    }
    loop
        invariant_except_break
            parse_elements(v@.skip(start as int), Seq::empty()) == parse_elements(
                v@.skip(cur as int),
                acc.deep_view(),
            ),
        invariant
            start <= cur <= n,
            n == v@.len(),
            after <= n,
        ensures
            after <= n,
            start <= after,
            n == v@.len(),
            parse_elements(v@.skip(start as int), Seq::empty()) == Some(
                (acc.deep_view(), v@.skip(after as int)),
            ),
        decreases n - cur,
    {
        let ghost accv = acc.deep_view();
        match parse_quote_object_at(v, cur) {
            Err(k) => {
                return Err(k);
            },
            Ok((q, rr)) => {
                let k = skip_ws_at(v, rr);
                proof {
                    assert(v@.skip(k as int).len() == n - k);
                    if k < n {
                        assert(v@.skip(k as int)[0] == v@[k as int]);
                        assert(v@.skip(k as int).drop_first() =~= v@.skip(k + 1int));
                    }
                }
                if k >= n {
                    return Err(k);
                }
                let c = v[k];
                if c == ',' {
                    let k2 = skip_ws_at(v, k + 1);
                    let ghost qv = q@;
                    acc.push(q);
                    proof {
                        assert(acc.deep_view() =~= accv.push(qv));
                        assert(parse_elements(v@.skip(cur as int), accv) == parse_elements(
                            v@.skip(k2 as int),
                            acc.deep_view(),
                        ));
                    }
                    cur = k2;
                } else if c == ']' {
                    let ghost qv = q@;
                    acc.push(q);
                    proof {
                        assert(acc.deep_view() =~= accv.push(qv));
                    }
                    after = k + 1;
                    break ;
                } else {
                    return Err(k);
                }
            },
        }
    }
    Ok((acc, after))
}

} // verus!
