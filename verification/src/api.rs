//! The decisions behind each endpoint, free of any transport: given the
//! outcome of loading the collection (and a requested id, where one was
//! given), produce the success body or the classified error. The HTTP layer
//! only performs the read and serializes what these functions return.

use vstd::prelude::*;
use vstd::string::StringExecFns;
use crate::errors::{app_error_of_service, AppError, AppErrorView};
use crate::models::Quote;
use crate::responses::{HealthStatus, QuoteResponse};
use crate::service::{get_quote_by_id, get_random_quote, spec_find_by_id, QuoteServiceError};
use crate::text::{string_to_chars, u32_to_dec_string};
use crate::wire::{dec_digits, is_digit, lemma_digits_value_ge, parse_digits};

verus! {

/// The liveness report: always healthy, touching nothing.
pub fn health_status() -> (r: HealthStatus)
    ensures
        r.status@ == "healthy"@,
{
    HealthStatus { status: "healthy".to_owned() }
}

/// The response to a random-quote request, given the outcome of the load:
/// a sourcing failure is absorbed as such; an empty collection is a lookup
/// miss; otherwise some record of the collection is served.
pub fn random_quote_response(load: Result<Vec<Quote>, QuoteServiceError>) -> (r: Result<
    QuoteResponse,
    AppError,
>)
    ensures
        (load matches Err(se) ==> r matches Err(e) && e@ == app_error_of_service(se@)),
        (load matches Ok(qs) ==> (qs@.len() == 0 ==> (r matches Err(e) && e@
            == AppErrorView::NotFound("No quotes available in the data file."@)))),
        (load matches Ok(qs) ==> (qs@.len() > 0 ==> (r matches Ok(resp) && exists|i: int|
            0 <= i < qs@.len() && resp.quote@ == qs@[i]@.text && resp.author@ == qs@[i]@.author))),
{
    match load {
        Ok(qs) => {
            let sl = qs.as_slice();
            if qs.is_empty() {
                Err(AppError::NotFound("No quotes available in the data file.".to_owned()))
            } else if let Some(picked) = get_random_quote(sl) {
                let resp = QuoteResponse {
                    quote: picked.text.clone(),
                    author: picked.author.clone(),
                };
                proof {
                    let i = choose|i: int| 0 <= i < sl@.len() && picked@ == sl.deep_view()[i];
                    assert(sl.deep_view()[i] == qs@[i]@);
                    assert(resp.quote@ == qs@[i]@.text && resp.author@ == qs@[i]@.author);
                }
                Ok(resp)
            } else {
                Err(AppError::NotFound("Could not select a random quote (unexpected).".to_owned()))
            }
        },
        Err(service_error) => Err(AppError::from(service_error)),
    }
}

/// The response to a by-id request, given the outcome of the load and the
/// requested id: a sourcing failure is absorbed as such; an empty collection
/// and an absent id are lookup misses whose messages name the id; otherwise
/// the first record with the id, in document order, is served.
pub fn quote_by_id_response(load: Result<Vec<Quote>, QuoteServiceError>, id: u32) -> (r: Result<
    QuoteResponse,
    AppError,
>)
    ensures
        (load matches Err(se) ==> r matches Err(e) && e@ == app_error_of_service(se@)),
        (load matches Ok(qs) ==> (qs@.len() == 0 ==> (r matches Err(e) && e@
            == AppErrorView::NotFound(
            "No quotes available in the data file. Cannot find quote with ID: "@ + dec_digits(
                id as nat,
            ) + "."@,
        )))),
        (load matches Ok(qs) ==> ((qs@.len() > 0 && spec_find_by_id(qs.deep_view(), id) is None)
            ==> (r matches Err(e) && e@ == AppErrorView::NotFound(
            "Quote with ID: "@ + dec_digits(id as nat) + " not found."@,
        )))),
        (load matches Ok(qs) ==> (spec_find_by_id(qs.deep_view(), id) matches Some(qv) ==> (r
            matches Ok(resp) && resp.quote@ == qv.text && resp.author@ == qv.author))),
{
    match load {
        Ok(qs) => {
            if qs.is_empty() {
                let mut msg =
                    "No quotes available in the data file. Cannot find quote with ID: ".to_owned();
                msg.append(u32_to_dec_string(id).as_str());
                msg.append(".");
                return Err(AppError::NotFound(msg));
            }
            let sl = qs.as_slice();
            proof {
                assert(sl.deep_view() =~= qs.deep_view());
            }
            match get_quote_by_id(sl, id) {
                Some(found) => Ok(
                    QuoteResponse { quote: found.text.clone(), author: found.author.clone() },
                ),
                None => {
                    let mut msg = "Quote with ID: ".to_owned();
                    msg.append(u32_to_dec_string(id).as_str());
                    msg.append(" not found.");
                    Err(AppError::NotFound(msg))
                },
            }
        },
        Err(service_error) => Err(AppError::from(service_error)),
    }
}

/// Whether the characters are one or more decimal digits.
pub open spec fn all_digits(s: Seq<char>) -> bool {
    s.len() > 0 && forall|i: int| 0 <= i < s.len() ==> is_digit(#[trigger] s[i])
}

/// The number the digits denote.
pub open spec fn digits_value(s: Seq<char>) -> nat {
    parse_digits(s, 0).0
}

/// Reads a request's id parameter: the unsigned integer it denotes, or a
/// malformed-input error naming the parameter, exactly when the text is not
/// one or more decimal digits denoting a number that fits in `u32`.
pub fn parse_id(s: &str) -> (r: Result<u32, AppError>)
    ensures
        (r matches Ok(v) ==> all_digits(s@) && digits_value(s@) == v as nat),
        (r is Ok <==> all_digits(s@) && digits_value(s@) <= u32::MAX as nat),
        (r matches Err(e) ==> e@ == AppErrorView::BadRequest("Invalid quote id: "@ + s@)),
{
    let cs = string_to_chars(s);
    let n = cs.len();
    if n == 0 {
        return Err(bad_id(s));
    }
    let mut acc: u64 = 0;
    let mut k: usize = 0;
    proof {
        assert(s@.skip(0) =~= s@);
    }
    while k < n
        invariant
            k <= n,
            n == cs@.len(),
            cs@ == s@,
            n > 0,
            acc <= u32::MAX as u64,
            forall|i: int| 0 <= i < k ==> is_digit(#[trigger] s@[i]),
            parse_digits(s@, 0) == parse_digits(s@.skip(k as int), acc as nat),
        decreases n - k,
    {
        proof {
            assert(s@.skip(k as int).len() == n - k);
            assert(s@.skip(k as int)[0] == s@[k as int]);
            assert(s@.skip(k as int).drop_first() =~= s@.skip(k + 1int));
        }
        let c = cs[k];
        let u = c as u32;
        if !(0x30 <= u && u <= 0x39) {
            proof {
                assert(!is_digit(s@[k as int]));
            }
            return Err(bad_id(s));
        }
        let d: u64 = (u - 0x30) as u64;
        let next: u64 = acc * 10 + d;
        if next > u32::MAX as u64 {
            proof {
                lemma_digits_value_ge(s@.skip(k + 1int), next as nat);
                if all_digits(s@) {
                    assert(digits_value(s@) >= next as nat);
                }
            }
            return Err(bad_id(s));
        }
        acc = next;
        k = k + 1;
    }
    proof {
        assert(s@.skip(n as int).len() == 0);
        assert(parse_digits(s@.skip(n as int), acc as nat) == ((acc as nat), s@.skip(n as int)));
    }
    Ok(acc as u32)
}

/// The malformed-input error for an id parameter.
fn bad_id(s: &str) -> (e: AppError)
    ensures
        e@ == AppErrorView::BadRequest("Invalid quote id: "@ + s@),
{
    let mut msg = "Invalid quote id: ".to_owned();
    msg.append(s);
    AppError::BadRequest(msg)
}

} // verus!
