//! The executable serializer of the wire format, proved to emit exactly what
//! the spec functions of `wire` describe.

use vstd::prelude::*;
use crate::models::Quote;
use crate::text::{append_str_chars, chars_to_string, hex_char_of, string_to_chars, u32_dec_chars};
use crate::wire::{
    elements_json, escape, escape_char, json_string, quote_json, quotes_json, source_json,
};

verus! {

/// Escaping a longer string appends the escape of the extra character.
proof fn lemma_escape_push(t: Seq<char>, c: char)
    ensures
        escape(t.push(c)) == escape(t) + escape_char(c),
    decreases t.len(),
{
    if t.len() == 0 {
        assert(t.push(c) =~= seq![c]);
        assert(t.push(c).drop_first() =~= Seq::<char>::empty());
        assert(t.push(c)[0] == c);
        assert(escape(Seq::<char>::empty()) =~= Seq::<char>::empty());
        assert(escape(t.push(c)) =~= escape_char(c) + Seq::<char>::empty());
        assert(escape_char(c) + Seq::<char>::empty() =~= escape_char(c));
        assert(escape(t) =~= Seq::<char>::empty());
        assert(Seq::<char>::empty() + escape_char(c) =~= escape_char(c));
        assert(escape(t.push(c)) =~= escape(t) + escape_char(c));
    } else {
        lemma_escape_push(t.drop_first(), c);
        assert(t.push(c).drop_first() =~= t.drop_first().push(c));
        assert(t.push(c)[0] == t[0]);
        assert(escape(t.push(c)) =~= escape(t) + escape_char(c));
    }
}

/// Appends the escaped body of `s` to `out`.
fn append_escaped(out: &mut Vec<char>, s: &str)
    ensures
        final(out)@ == old(out)@ + escape(s@),
{
    let cs = string_to_chars(s);
    let n = cs.len();
    let mut k: usize = 0;
    proof {
        assert(s@.take(0) =~= Seq::<char>::empty());
        assert(out@ =~= old(out)@ + escape(s@.take(0)));
    }
    while k < n
        invariant
            k <= n,
            n == cs@.len(),
            cs@ == s@,
            out@ == old(out)@ + escape(s@.take(k as int)),
        decreases n - k,
    {
        let ghost taken = s@.take(k as int);
        let c = cs[k];
        if c == '"' {
            out.push('\\');
            out.push('"');
        } else if c == '\\' {
            out.push('\\');
            out.push('\\');
        } else if c == '\n' {
            out.push('\\');
            out.push('n');
        } else if c == '\r' {
            out.push('\\');
            out.push('r');
        } else if c == '\t' {
            out.push('\\');
            out.push('t');
        } else {
            let u = c as u32;
            if u < 0x20 {
                out.push('\\');
                out.push('u');
                out.push('0');
                out.push('0');
                out.push(hex_char_of((u / 16) as u8));
                out.push(hex_char_of((u % 16) as u8));
            } else {
                out.push(c);
            }
        }
        proof {
            lemma_escape_push(taken, c);
            assert(s@.take(k + 1int) =~= taken.push(c));
            assert(out@ =~= old(out)@ + escape(s@.take(k + 1int)));
        }
        k = k + 1;
    }
    proof {
        assert(s@.take(n as int) =~= s@);
    }
}

/// Appends the JSON string form of `s`, quotes and escapes included.
pub(crate) fn append_json_string(out: &mut Vec<char>, s: &str)
    ensures
        final(out)@ == old(out)@ + json_string(s@),
{
    out.push('"');
    append_escaped(out, s);
    out.push('"');
    proof {
        assert(out@ =~= old(out)@ + json_string(s@));
    }
}

impl Quote {
    /// The serialized form of this record: one JSON object with the members
    /// `id`, `quote`, `author` and `source` in that order, `source` being
    /// `null` when absent.
    pub fn to_json(&self) -> (r: String)
        ensures
            r@ == quote_json(self@),
    {
        let mut out: Vec<char> = Vec::new();
        append_str_chars(&mut out, "{\"id\":");
        let mut digits = u32_dec_chars(self.id);
        out.append(&mut digits);
        append_str_chars(&mut out, ",\"quote\":");
        append_json_string(&mut out, self.text.as_str());
        append_str_chars(&mut out, ",\"author\":");
        append_json_string(&mut out, self.author.as_str());
        append_str_chars(&mut out, ",\"source\":");
        match &self.source {
            Some(src) => append_json_string(&mut out, src.as_str()),
            None => append_str_chars(&mut out, "null"),
        }
        append_str_chars(&mut out, "}");
        proof {
            assert(source_json(self@.source) == (match self@.source {
                Some(sv) => json_string(sv),
                None => "null"@,
            }));
            assert(out@ =~= quote_json(self@));
        }
        chars_to_string(&out)
    }
}

/// The serialized form of a whole collection: a JSON array of the records'
/// serialized forms, in document order.
pub fn quotes_to_json(quotes: &[Quote]) -> (r: String)
    ensures
        r@ == quotes_json(quotes.deep_view()),
{
    let ghost views = quotes.deep_view();
    let n = quotes.len();
    if n == 0 {
        proof {
            reveal_strlit("[]");
        }
        return "[]".to_owned();
    }
    let mut out: Vec<char> = Vec::new();
    append_str_chars(&mut out, "[");
    proof {
        reveal_strlit("[");
        assert("["@ =~= seq!['[']);
        assert(views.skip(0) =~= views);
    }
    let mut k: usize = 0;
    while k < n
        invariant
            0 < n,
            n == quotes@.len(),
            k <= n,
            views == quotes.deep_view(),
            k < n ==> out@ + elements_json(views.skip(k as int)) == quotes_json(views),
            k == n ==> out@ == quotes_json(views),
        decreases n - k,
    {
        let ghost before = out@;
        proof {
            assert(views.skip(k as int)[0] == views[k as int]);
        }
        let record_json = quotes[k].to_json();
        append_str_chars(&mut out, record_json.as_str());
        if k + 1 < n {
            out.push(',');
            proof {
                assert(views.skip(k as int).drop_first() =~= views.skip(k + 1int));
                assert(elements_json(views.skip(k as int)) == quote_json(views[k as int]) + (seq![
                    ','
                ] + elements_json(views.skip(k + 1int))));
                assert(out@ + elements_json(views.skip(k + 1int)) =~= before + elements_json(
                    views.skip(k as int),
                ));
            }
        } else {
            out.push(']');
            proof {
                assert(views.skip(k as int).len() == 1);
                assert(elements_json(views.skip(k as int)) == quote_json(views[k as int])
                    + seq![']']);
                assert(out@ =~= before + elements_json(views.skip(k as int)));
            }
        }
        k = k + 1;
    }
    chars_to_string(&out)
}

} // verus!
