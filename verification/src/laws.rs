//! The laws of the wire format: what the serializer emits, the parser
//! accepts, and gives back unchanged.

use vstd::prelude::*;
use crate::errors::{app_error_code, app_error_of_service, app_error_status, AppErrorView};
use crate::models::QuoteView;
use crate::service::{spec_find_by_id, ServiceErrorView};
use crate::wire::{
    dec_digits, digit_char, digit_val, elements_json, empty_partial, escape, escape_char,
    hex_char, hex_val, is_digit, is_hex, is_plain, is_ws, json_string, parse_digits,
    parse_document, parse_elements, parse_member, parse_members, parse_quote_object,
    parse_quote_text, parse_string_body, parse_uint, quote_json, quotes_json, skip_ws,
    source_json, finish_quote, PartialQuote,
};

verus! {

/// A string of plain characters is its own escape.
proof fn lemma_escape_plain(t: Seq<char>)
    requires
        forall|i: int| 0 <= i < t.len() ==> is_plain(#[trigger] t[i]),
    ensures
        escape(t) == t,
    decreases t.len(),
{
    if t.len() == 0 {
        assert(escape(t) =~= t);
    } else {
        lemma_escape_plain(t.drop_first());
        assert(escape_char(t[0]) =~= seq![t[0]]);
        assert(escape(t) =~= t);
    }
}

/// Parsing a string body from an escaped string gives the string back:
/// the characters decoded so far grow by exactly the original characters,
/// and the input after the closing quote is untouched.
#[verifier::rlimit(100)]
#[verifier::spinoff_prover]
proof fn lemma_string_round(t: Seq<char>, rest: Seq<char>, acc: Seq<char>)
    ensures
        parse_string_body(escape(t) + seq!['"'] + rest, acc) == Some((acc + t, rest)),
    decreases t.len(),
{
    let s = escape(t) + seq!['"'] + rest;
    if t.len() == 0 {
        assert(s =~= seq!['"'] + rest);
        assert(s[0] == '"');
        assert(s.drop_first() =~= rest);
        assert(acc + t =~= acc);
    } else {
        let c = t[0];
        let t1 = t.drop_first();
        assert(escape(t) == escape_char(c) + escape(t1));
        assert(s =~= escape_char(c) + (escape(t1) + seq!['"'] + rest));
        let s1 = escape(t1) + seq!['"'] + rest;
        lemma_string_round(t1, rest, acc.push(c));
        assert(acc.push(c) + t1 =~= acc + t);
        if c == '"' || c == '\\' {
            assert(escape_char(c) =~= seq!['\\', c]);
            assert(s[0] == '\\' && s[1] == c);
            assert(s.skip(2) =~= s1);
            assert(parse_string_body(s, acc) == parse_string_body(s1, acc.push(c)));
        } else if c == '\n' {
            assert(escape_char(c) =~= seq!['\\', 'n']);
            assert(s[0] == '\\' && s[1] == 'n');
            assert(s.skip(2) =~= s1);
        } else if c == '\r' {
            assert(escape_char(c) =~= seq!['\\', 'r']);
            assert(s[0] == '\\' && s[1] == 'r');
            assert(s.skip(2) =~= s1);
        } else if c == '\t' {
            assert(escape_char(c) =~= seq!['\\', 't']);
            assert(s[0] == '\\' && s[1] == 't');
            assert(s.skip(2) =~= s1);
        } else if (c as u32) < 0x20 {
            let u = c as u32;
            let hi: nat = (u / 16) as nat;
            let lo: nat = (u % 16) as nat;
            assert(escape_char(c) =~= seq!['\\', 'u', '0', '0', hex_char(hi), hex_char(lo)]);
            assert(s[0] == '\\' && s[1] == 'u');
            assert(s[2] == '0' && s[3] == '0' && s[4] == hex_char(hi) && s[5] == hex_char(lo));
            lemma_hex_char_val(hi);
            lemma_hex_char_val(lo);
            assert(hex_val('0') == 0);
            let v: nat = hex_val(s[2]) * 4096 + hex_val(s[3]) * 256 + hex_val(s[4]) * 16 + hex_val(
                s[5],
            );
            assert(v == hi * 16 + lo);
            assert(v == u) by {
                vstd::arithmetic::div_mod::lemma_fundamental_div_mod(u as int, 16);
            }
            assert(v < 0xD800);
            vstd::utf8::char_u32_cast(c, u);
            assert((v as char) == c);
            assert(s.skip(6) =~= s1);
            assert(parse_string_body(s, acc) == parse_string_body(s1, acc.push(c)));
        } else {
            assert(escape_char(c) =~= seq![c]);
            assert(s[0] == c);
            assert(s.drop_first() =~= s1);
            assert(parse_string_body(s, acc) == parse_string_body(s1, acc.push(c)));
        }
    }
}

/// A hexadecimal digit character carries its value, and is one.
proof fn lemma_hex_char_val(d: nat)
    requires
        d < 16,
    ensures
        is_hex(hex_char(d)),
        hex_val(hex_char(d)) == d,
{
}

/// The digits of a number, before other input, fold back to the number.
proof fn lemma_digits_round(n: nat, rest: Seq<char>)
    ensures
        parse_digits(dec_digits(n) + rest, 0) == parse_digits(rest, n),
    decreases n,
{
    let s = dec_digits(n) + rest;
    if n < 10 {
        assert(s =~= seq![digit_char(n)] + rest);
        assert(s[0] == digit_char(n));
        assert(is_digit(digit_char(n)));
        assert(digit_val(digit_char(n)) == n);
        assert(s.drop_first() =~= rest);
    } else {
        let d = digit_char(n % 10);
        let mid = seq![d] + rest;
        assert(s =~= dec_digits(n / 10) + mid);
        lemma_digits_round(n / 10, mid);
        assert(mid[0] == d);
        assert(is_digit(d));
        assert(digit_val(d) == n % 10);
        assert(mid.drop_first() =~= rest);
        assert(parse_digits(mid, n / 10) == parse_digits(rest, (n / 10) * 10 + n % 10));
        assert((n / 10) * 10 + n % 10 == n) by {
            vstd::arithmetic::div_mod::lemma_fundamental_div_mod(n as int, 10);
        }
    }
}

/// The leading digit of a number is a digit, and is zero only for zero.
proof fn lemma_dec_digits_head(n: nat)
    ensures
        dec_digits(n).len() >= 1,
        is_digit(dec_digits(n)[0]),
        (dec_digits(n)[0] == '0') == (n == 0),
    decreases n,
{
    if n < 10 {
        assert(digit_char(n) as u32 == 0x30 + n);
        assert(('0' as u32) == 0x30);
    } else {
        lemma_dec_digits_head(n / 10);
        assert(dec_digits(n)[0] == dec_digits(n / 10)[0]);
        assert(n / 10 != 0);
    }
}

/// The serialized digits of a number, before input that starts with no
/// digit, parse back as a JSON unsigned integer to the number.
proof fn lemma_uint_round(n: nat, rest: Seq<char>)
    requires
        rest.len() == 0 || !is_digit(rest[0]),
    ensures
        parse_uint(dec_digits(n) + rest) == Some((n, rest)),
{
    let s = dec_digits(n) + rest;
    lemma_dec_digits_head(n);
    assert(s[0] == dec_digits(n)[0]);
    if n == 0 {
        assert(dec_digits(0) =~= seq![digit_char(0)]);
        assert(s.drop_first() =~= rest);
    } else {
        lemma_digits_round(n, rest);
        assert(parse_digits(rest, n) == (n, rest));
    }
}

/// Input that does not begin with whitespace is left as it is.
proof fn lemma_skip_ws_noop(s: Seq<char>)
    requires
        s.len() == 0 || !is_ws(s[0]),
    ensures
        skip_ws(s) == s,
{
}

/// A serialized `id` member parses back to its value.
proof fn lemma_member_id(v: nat, rest: Seq<char>, p: PartialQuote)
    requires
        v <= u32::MAX as nat,
        p.id is None,
        rest.len() > 0,
        !is_digit(rest[0]),
    ensures
        parse_member(seq!['"'] + "id"@ + seq!['"', ':'] + dec_digits(v) + rest, p) == Some(
            (PartialQuote { id: Some(v), ..p }, rest),
        ),
{
    reveal_strlit("id");
    let k = "id"@;
    assert(k =~= seq!['i', 'd']);
    let s = seq!['"'] + k + seq!['"', ':'] + dec_digits(v) + rest;
    assert(s[0] == '"');
    assert(forall|i: int| 0 <= i < k.len() ==> is_plain(#[trigger] k[i]));
    lemma_escape_plain(k);
    let r1 = seq![':'] + dec_digits(v) + rest;
    assert(s.drop_first() =~= escape(k) + seq!['"'] + r1);
    lemma_string_round(k, r1, Seq::empty());
    assert(Seq::empty() + k =~= k);
    lemma_skip_ws_noop(r1);
    assert(r1[0] == ':');
    let r3 = dec_digits(v) + rest;
    assert(r1.drop_first() =~= r3);
    lemma_dec_digits_head(v);
    assert(r3[0] == dec_digits(v)[0]);
    lemma_skip_ws_noop(r3);
    lemma_uint_round(v, rest);
}

/// A serialized string-valued member parses back to its string, for the
/// `quote`, `author` and `source` keys alike.
proof fn lemma_member_text(key: Seq<char>, t: Seq<char>, rest: Seq<char>, p: PartialQuote)
    requires
        key == "quote"@ && p.text is None || key == "author"@ && p.author is None || key
            == "source"@ && p.source is None,
    ensures
        key == "quote"@ ==> parse_member(
            seq!['"'] + key + seq!['"', ':'] + json_string(t) + rest,
            p,
        ) == Some((PartialQuote { text: Some(t), ..p }, rest)),
        key == "author"@ ==> parse_member(
            seq!['"'] + key + seq!['"', ':'] + json_string(t) + rest,
            p,
        ) == Some((PartialQuote { author: Some(t), ..p }, rest)),
        key == "source"@ ==> parse_member(
            seq!['"'] + key + seq!['"', ':'] + json_string(t) + rest,
            p,
        ) == Some((PartialQuote { source: Some(Some(t)), ..p }, rest)),
{
    reveal_strlit("id");
    reveal_strlit("quote");
    reveal_strlit("author");
    reveal_strlit("source");
    assert("quote"@ =~= seq!['q', 'u', 'o', 't', 'e']);
    assert("author"@ =~= seq!['a', 'u', 't', 'h', 'o', 'r']);
    assert("source"@ =~= seq!['s', 'o', 'u', 'r', 'c', 'e']);
    assert("id"@ =~= seq!['i', 'd']);
    let s = seq!['"'] + key + seq!['"', ':'] + json_string(t) + rest;
    assert(s[0] == '"');
    assert(forall|i: int| 0 <= i < key.len() ==> is_plain(#[trigger] key[i]));
    lemma_escape_plain(key);
    let r1 = seq![':'] + json_string(t) + rest;
    assert(s.drop_first() =~= escape(key) + seq!['"'] + r1);
    lemma_string_round(key, r1, Seq::empty());
    assert(Seq::empty() + key =~= key);
    lemma_skip_ws_noop(r1);
    assert(r1[0] == ':');
    let r3 = json_string(t) + rest;
    assert(r1.drop_first() =~= r3);
    assert(r3[0] == '"');
    lemma_skip_ws_noop(r3);
    assert(r3.drop_first() =~= escape(t) + seq!['"'] + rest);
    lemma_string_round(t, rest, Seq::empty());
    assert(Seq::empty() + t =~= t);
    assert(key != "id"@);
}

/// A serialized absent source (`null`) parses back to an absent source.
proof fn lemma_member_source_null(rest: Seq<char>, p: PartialQuote)
    requires
        p.source is None,
    ensures
        parse_member(seq!['"'] + "source"@ + seq!['"', ':'] + "null"@ + rest, p) == Some(
            (PartialQuote { source: Some(None), ..p }, rest),
        ),
{
    reveal_strlit("id");
    reveal_strlit("quote");
    reveal_strlit("author");
    reveal_strlit("source");
    reveal_strlit("null");
    let key = "source"@;
    assert(key =~= seq!['s', 'o', 'u', 'r', 'c', 'e']);
    assert("null"@ =~= seq!['n', 'u', 'l', 'l']);
    let s = seq!['"'] + key + seq!['"', ':'] + "null"@ + rest;
    assert(s[0] == '"');
    assert(forall|i: int| 0 <= i < key.len() ==> is_plain(#[trigger] key[i]));
    lemma_escape_plain(key);
    let r1 = seq![':'] + "null"@ + rest;
    assert(s.drop_first() =~= escape(key) + seq!['"'] + r1);
    lemma_string_round(key, r1, Seq::empty());
    assert(Seq::empty() + key =~= key);
    lemma_skip_ws_noop(r1);
    assert(r1[0] == ':');
    let r3 = "null"@ + rest;
    assert(r1.drop_first() =~= r3);
    assert(r3[0] == 'n' && r3[1] == 'u' && r3[2] == 'l' && r3[3] == 'l');
    lemma_skip_ws_noop(r3);
    assert(key != "id"@ && key != "quote"@ && key != "author"@);
    assert(r3.skip(4) =~= rest);
}

/// One member followed by a comma chains into the members that follow.
proof fn lemma_members_step(s: Seq<char>, p: PartialQuote, p2: PartialQuote, s_next: Seq<char>)
    requires
        parse_member(s, p) == Some((p2, seq![','] + s_next)),
        s_next.len() > 0,
        s_next[0] == '"',
    ensures
        parse_members(s, p) == parse_members(s_next, p2),
{
    let r = seq![','] + s_next;
    lemma_skip_ws_noop(r);
    assert(r[0] == ',');
    assert(r.drop_first() =~= s_next);
    lemma_skip_ws_noop(s_next);
}

/// The last member, followed by the closing brace, ends the record.
proof fn lemma_members_last(s: Seq<char>, p: PartialQuote, p2: PartialQuote, rest: Seq<char>)
    requires
        parse_member(s, p) == Some((p2, seq!['}'] + rest)),
    ensures
        parse_members(s, p) == Some((p2, rest)),
{
    lemma_skip_ws_noop(seq!['}'] + rest);
    assert((seq!['}'] + rest)[0] == '}');
    assert((seq!['}'] + rest).drop_first() =~= rest);
}

/// A serialized `id` member, a comma, and further members chain on.
proof fn lemma_members_id_step(v: nat, s_next: Seq<char>, p: PartialQuote)
    requires
        v <= u32::MAX as nat,
        p.id is None,
        s_next.len() > 0,
        s_next[0] == '"',
    ensures
        parse_members(
            (seq!['"'] + "id"@ + seq!['"', ':']) + (dec_digits(v) + (seq![','] + s_next)),
            p,
        ) == parse_members(s_next, (PartialQuote { id: Some(v), ..p })),
{
    let s = (seq!['"'] + "id"@ + seq!['"', ':']) + (dec_digits(v) + (seq![','] + s_next));
    assert(s =~= seq!['"'] + "id"@ + seq!['"', ':'] + dec_digits(v) + (seq![','] + s_next));
    assert((seq![','] + s_next)[0] == ',');
    assert(!is_digit(','));
    lemma_member_id(v, seq![','] + s_next, p);
    lemma_members_step(s, p, PartialQuote { id: Some(v), ..p }, s_next);
}

/// A serialized `quote` or `author` member, a comma, and further members
/// chain on.
proof fn lemma_members_text_step(key: Seq<char>, t: Seq<char>, s_next: Seq<char>, p: PartialQuote)
    requires
        key == "quote"@ && p.text is None || key == "author"@ && p.author is None,
        s_next.len() > 0,
        s_next[0] == '"',
    ensures
        key == "quote"@ ==> parse_members(
            (seq!['"'] + key + seq!['"', ':']) + (json_string(t) + (seq![','] + s_next)),
            p,
        ) == parse_members(s_next, (PartialQuote { text: Some(t), ..p })),
        key == "author"@ ==> parse_members(
            (seq!['"'] + key + seq!['"', ':']) + (json_string(t) + (seq![','] + s_next)),
            p,
        ) == parse_members(s_next, (PartialQuote { author: Some(t), ..p })),
{
    let s = (seq!['"'] + key + seq!['"', ':']) + (json_string(t) + (seq![','] + s_next));
    assert(s =~= seq!['"'] + key + seq!['"', ':'] + json_string(t) + (seq![','] + s_next));
    lemma_member_text(key, t, seq![','] + s_next, p);
    if key == "quote"@ {
        lemma_members_step(s, p, PartialQuote { text: Some(t), ..p }, s_next);
    } else {
        lemma_members_step(s, p, PartialQuote { author: Some(t), ..p }, s_next);
    }
}

/// A serialized `source` member before the closing brace ends the record.
proof fn lemma_members_source_last(src: Option<Seq<char>>, p: PartialQuote, rest: Seq<char>)
    requires
        p.source is None,
    ensures
        parse_members(
            (seq!['"'] + "source"@ + seq!['"', ':']) + (source_json(src) + (seq!['}'] + rest)),
            p,
        ) == Some((PartialQuote { source: Some(src), ..p }, rest)),
{
    let s = (seq!['"'] + "source"@ + seq!['"', ':']) + (source_json(src) + (seq!['}'] + rest));
    match src {
        Some(t) => {
            assert(s =~= seq!['"'] + "source"@ + seq!['"', ':'] + json_string(t) + (seq!['}']
                + rest));
            lemma_member_text("source"@, t, seq!['}'] + rest, p);
            assert(PartialQuote { source: Some(Some(t)), ..p } =~= (PartialQuote {
                source: Some(src),
                ..p
            }));
            lemma_members_last(s, p, PartialQuote { source: Some(src), ..p }, rest);
        },
        None => {
            assert(s =~= seq!['"'] + "source"@ + seq!['"', ':'] + "null"@ + (seq!['}'] + rest));
            lemma_member_source_null(seq!['}'] + rest, p);
            assert(PartialQuote { source: Some(None), ..p } =~= (PartialQuote {
                source: Some(src),
                ..p
            }));
            lemma_members_last(s, p, PartialQuote { source: Some(src), ..p }, rest);
        },
    }
}

/// A serialized quote record, before any further input, parses back to the
/// same record with that input untouched.
#[verifier::rlimit(100)]
#[verifier::spinoff_prover]
proof fn lemma_quote_object_round(q: QuoteView, rest: Seq<char>)
    ensures
        parse_quote_object(quote_json(q) + rest) == Some((q, rest)),
{
    reveal_strlit("{\"id\":");
    reveal_strlit(",\"quote\":");
    reveal_strlit(",\"author\":");
    reveal_strlit(",\"source\":");
    reveal_strlit("}");
    reveal_strlit("id");
    reveal_strlit("quote");
    reveal_strlit("author");
    reveal_strlit("source");
    reveal_strlit("null");
    let w = quote_json(q) + rest;
    let m1 = seq!['"'] + "id"@ + seq!['"', ':'];
    let m2 = seq!['"'] + "quote"@ + seq!['"', ':'];
    let m3 = seq!['"'] + "author"@ + seq!['"', ':'];
    let m4 = seq!['"'] + "source"@ + seq!['"', ':'];
    assert("{\"id\":"@ =~= seq!['{'] + m1);
    assert(",\"quote\":"@ =~= seq![','] + m2);
    assert(",\"author\":"@ =~= seq![','] + m3);
    assert(",\"source\":"@ =~= seq![','] + m4);
    assert("}"@ =~= seq!['}']);
    let d = dec_digits(q.id as nat);
    let jt = json_string(q.text);
    let ja = json_string(q.author);
    let js = source_json(q.source);
    let s4 = m4 + (js + (seq!['}'] + rest));
    let s3 = m3 + (ja + (seq![','] + s4));
    let s2 = m2 + (jt + (seq![','] + s3));
    let s1 = m1 + (d + (seq![','] + s2));
    assert(w =~= seq!['{'] + s1);

    let p0 = empty_partial();
    let p1 = PartialQuote { id: Some(q.id as nat), ..p0 };
    let p2 = PartialQuote { text: Some(q.text), ..p1 };
    let p3 = PartialQuote { author: Some(q.author), ..p2 };
    let p4 = PartialQuote { source: Some(q.source), ..p3 };

    // the chain of members, last first
    lemma_members_source_last(q.source, p3, rest);
    assert(PartialQuote { source: Some(q.source), ..p3 } =~= p4);
    assert(s4[0] == '"');
    lemma_members_text_step("author"@, q.author, s4, p2);
    assert(PartialQuote { author: Some(q.author), ..p2 } =~= p3);
    assert(s3[0] == '"');
    lemma_members_text_step("quote"@, q.text, s3, p1);
    assert(PartialQuote { text: Some(q.text), ..p1 } =~= p2);
    assert(s2[0] == '"');
    lemma_members_id_step(q.id as nat, s2, p0);
    assert(PartialQuote { id: Some(q.id as nat), ..p0 } =~= p1);
    assert(parse_members(s1, p0) == Some((p4, rest)));

    // the record around them
    assert(w[0] == '{');
    assert(w.drop_first() =~= s1);
    assert(s1[0] == '"');
    lemma_skip_ws_noop(s1);
    assert(finish_quote(p4) == Some(q)) by {
        assert((q.id as nat) as u32 == q.id);
        let qv = finish_quote(p4).unwrap();
        assert(qv =~= q);
    }
}

/// Serializing a quote record and parsing the result yields the same record.
///
/// This is the round-trip law of the wire format at the record level: it
/// holds of every record, whatever its text holds, its id included, with the
/// `text` field travelling under the wire key `quote`.
pub proof fn lemma_quote_round_trip(q: QuoteView)
    ensures
        parse_quote_text(quote_json(q)) == Some(q),
{
    reveal_strlit("{\"id\":");
    lemma_quote_object_round(q, Seq::<char>::empty());
    assert(quote_json(q) + Seq::<char>::empty() =~= quote_json(q));
    assert(quote_json(q)[0] == '{');
    lemma_skip_ws_noop(quote_json(q));
    lemma_skip_ws_noop(Seq::<char>::empty());
}

/// The serialized elements of a non-empty collection parse back to exactly
/// those records, appended to what was gathered before.
proof fn lemma_elements_round(qs: Seq<QuoteView>, acc: Seq<QuoteView>)
    requires
        qs.len() > 0,
    ensures
        parse_elements(elements_json(qs), acc) == Some((acc + qs, Seq::<char>::empty())),
    decreases qs.len(),
{
    reveal_strlit("{\"id\":");
    let q0 = qs[0];
    if qs.len() == 1 {
        let s = elements_json(qs);
        assert(s == quote_json(q0) + seq![']']);
        lemma_quote_object_round(q0, seq![']']);
        lemma_skip_ws_noop(seq![']']);
        assert(seq![']'].drop_first() =~= Seq::<char>::empty());
        assert(acc.push(q0) =~= acc + qs);
    } else {
        let tail = qs.drop_first();
        let rest = seq![','] + elements_json(tail);
        assert(elements_json(qs) == quote_json(q0) + rest);
        lemma_quote_object_round(q0, rest);
        lemma_skip_ws_noop(rest);
        assert(rest[0] == ',');
        assert(rest.drop_first() =~= elements_json(tail));
        assert(elements_json(tail)[0] == '{');
        lemma_skip_ws_noop(elements_json(tail));
        lemma_elements_round(tail, acc.push(q0));
        assert(acc.push(q0) + tail =~= acc + qs);
    }
}

/// Serializing a whole collection and parsing the document back yields an
/// equal collection: every record, in document order, none dropped or added.
///
/// This is the round-trip law at the collection level.
pub proof fn lemma_collection_round_trip(qs: Seq<QuoteView>)
    ensures
        parse_document(quotes_json(qs)) == Some(qs),
{
    reveal_strlit("[]");
    reveal_strlit("{\"id\":");
    if qs.len() == 0 {
        let w = "[]"@;
        assert(w =~= seq!['[', ']']);
        lemma_skip_ws_noop(w);
        assert(w[0] == '[');
        assert(w.drop_first() =~= seq![']']);
        lemma_skip_ws_noop(seq![']']);
        assert(seq![']'].drop_first() =~= Seq::<char>::empty());
        lemma_skip_ws_noop(Seq::<char>::empty());
        assert(qs =~= Seq::<QuoteView>::empty());
    } else {
        let w = seq!['['] + elements_json(qs);
        assert(quotes_json(qs) == w);
        lemma_skip_ws_noop(w);
        assert(w[0] == '[');
        assert(w.drop_first() =~= elements_json(qs));
        assert(elements_json(qs)[0] == '{');
        lemma_skip_ws_noop(elements_json(qs));
        lemma_elements_round(qs, Seq::<QuoteView>::empty());
        assert(Seq::<QuoteView>::empty() + qs =~= qs);
        lemma_skip_ws_noop(Seq::<char>::empty());
    }
}

/// A record that carries `id`, `author` and `source` members but no `quote`
/// member fails to parse, whatever the values: a missing required member is
/// never patched over, and no partial record comes back.
pub proof fn lemma_missing_member_rejected(v: u32, author: Seq<char>, src: Option<Seq<char>>)
    ensures
        parse_quote_text(
            "{\"id\":"@ + dec_digits(v as nat) + ",\"author\":"@ + json_string(author)
                + ",\"source\":"@ + source_json(src) + "}"@,
        ) is None,
{
    reveal_strlit("{\"id\":");
    reveal_strlit(",\"author\":");
    reveal_strlit(",\"source\":");
    reveal_strlit("}");
    reveal_strlit("id");
    reveal_strlit("author");
    reveal_strlit("source");
    reveal_strlit("null");
    let w = "{\"id\":"@ + dec_digits(v as nat) + ",\"author\":"@ + json_string(author)
        + ",\"source\":"@ + source_json(src) + "}"@;
    let m1 = seq!['"'] + "id"@ + seq!['"', ':'];
    let m3 = seq!['"'] + "author"@ + seq!['"', ':'];
    let m4 = seq!['"'] + "source"@ + seq!['"', ':'];
    assert("{\"id\":"@ =~= seq!['{'] + m1);
    assert(",\"author\":"@ =~= seq![','] + m3);
    assert(",\"source\":"@ =~= seq![','] + m4);
    assert("}"@ =~= seq!['}']);
    let s4 = m4 + (source_json(src) + (seq!['}'] + Seq::<char>::empty()));
    let s3 = m3 + (json_string(author) + (seq![','] + s4));
    let s1 = m1 + (dec_digits(v as nat) + (seq![','] + s3));
    assert(w =~= seq!['{'] + s1);

    let p0 = empty_partial();
    let p1 = PartialQuote { id: Some(v as nat), ..p0 };
    let p3 = PartialQuote { author: Some(author), ..p1 };
    let p4 = PartialQuote { source: Some(src), ..p3 };

    lemma_members_source_last(src, p3, Seq::<char>::empty());
    assert(PartialQuote { source: Some(src), ..p3 } =~= p4);
    assert(s4[0] == '"');
    lemma_members_text_step("author"@, author, s4, p1);
    assert(PartialQuote { author: Some(author), ..p1 } =~= p3);
    assert(s3[0] == '"');
    lemma_members_id_step(v as nat, s3, p0);
    assert(PartialQuote { id: Some(v as nat), ..p0 } =~= p1);
    assert(parse_members(s1, p0) == Some((p4, Seq::<char>::empty())));

    assert(w[0] == '{');
    lemma_skip_ws_noop(w);
    assert(w.drop_first() =~= s1);
    assert(s1[0] == '"');
    lemma_skip_ws_noop(s1);
    assert(p4.text is None);
    assert(finish_quote(p4) is None);
    assert(parse_quote_object(w) is None);
}

/// An empty collection and an unusable source stay distinguishable on the
/// wire, whatever the messages: a lookup miss maps to 404 under `NOT_FOUND`,
/// while every sourcing failure maps to 500 under `QUOTE_SOURCING_ERROR`.
pub proof fn lemma_miss_and_sourcing_failure_distinct(m: Seq<char>, se: ServiceErrorView)
    ensures
        app_error_status(AppErrorView::NotFound(m)) == 404,
        app_error_status(app_error_of_service(se)) == 500,
        app_error_code(AppErrorView::NotFound(m)) != app_error_code(app_error_of_service(se)),
{
    reveal_strlit("NOT_FOUND");
    reveal_strlit("QUOTE_SOURCING_ERROR");
    assert("NOT_FOUND"@.len() != "QUOTE_SOURCING_ERROR"@.len());
}

/// By-id lookup is deterministic: in any collection where exactly one record
/// carries the requested id, the lookup yields exactly that record.
pub proof fn lemma_find_by_id_unique(qs: Seq<QuoteView>, id: u32, i: int)
    requires
        0 <= i < qs.len(),
        qs[i].id == id,
        forall|j: int| 0 <= j < qs.len() && j != i ==> qs[j].id != id,
    ensures
        spec_find_by_id(qs, id) == Some(qs[i]),
    decreases qs.len(),
{
    if i > 0 {
        assert(qs[0].id != id);
        let tail = qs.drop_first();
        assert(tail[i - 1] == qs[i]);
        assert forall|j: int| 0 <= j < tail.len() && j != i - 1 implies tail[j].id != id by {
            assert(tail[j] == qs[j + 1]);
        }
        lemma_find_by_id_unique(tail, id, i - 1);
    }
}

/// By-id lookup misses exactly when the id is absent: in any collection, the
/// empty one included, an id that no record carries yields nothing.
pub proof fn lemma_find_by_id_absent(qs: Seq<QuoteView>, id: u32)
    requires
        forall|j: int| 0 <= j < qs.len() ==> #[trigger] qs[j].id != id,
    ensures
        spec_find_by_id(qs, id) is None,
    decreases qs.len(),
{
    if qs.len() > 0 {
        let tail = qs.drop_first();
        assert forall|j: int| 0 <= j < tail.len() implies #[trigger] tail[j].id != id by {
            assert(tail[j] == qs[j + 1]);
        }
        lemma_find_by_id_absent(tail, id);
    }
}

} // verus!
