//! The response bodies the service produces: liveness, a served quote, and
//! the error body common to every failure, each with its serialized form.

use vstd::prelude::*;
use crate::render::append_json_string;
use crate::text::{append_str_chars, chars_to_string};
use crate::wire::{error_response_json, health_response_json, quote_response_json};

verus! {

/// The liveness report of the service.
#[derive(Debug)]
pub struct HealthStatus {
    /// The current status, e.g. "healthy".
    pub status: String,
}

impl HealthStatus {
    /// The serialized body: `{"status": <status>}`.
    pub fn to_json(&self) -> (r: String)
        ensures
            r@ == health_response_json(self.status@),
    {
        let mut out: Vec<char> = Vec::new();
        append_str_chars(&mut out, "{\"status\":");
        append_json_string(&mut out, self.status.as_str());
        append_str_chars(&mut out, "}");
        proof {
            assert(out@ =~= health_response_json(self.status@));
        }
        chars_to_string(&out)
    }
}

/// A served quote: the text and its author.
#[derive(Debug)]
pub struct QuoteResponse {
    /// The text of the quote.
    pub quote: String,
    /// The author of the quote.
    pub author: String,
}

impl QuoteResponse {
    /// The serialized body: `{"quote": <text>, "author": <author>}`.
    pub fn to_json(&self) -> (r: String)
        ensures
            r@ == quote_response_json(self.quote@, self.author@),
    {
        let mut out: Vec<char> = Vec::new();
        append_str_chars(&mut out, "{\"quote\":");
        append_json_string(&mut out, self.quote.as_str());
        append_str_chars(&mut out, ",\"author\":");
        append_json_string(&mut out, self.author.as_str());
        append_str_chars(&mut out, "}");
        proof {
            assert(out@ =~= quote_response_json(self.quote@, self.author@));
        }
        chars_to_string(&out)
    }
}

/// The standardized error body of the service.
#[derive(Debug)]
pub struct ErrorResponse {
    /// A machine-readable error code.
    pub error_code: String,
    /// A human-readable message describing the error.
    pub message: String,
}

impl ErrorResponse {
    /// The serialized body: `{"error_code": <code>, "message": <message>}`.
    pub fn to_json(&self) -> (r: String)
        ensures
            r@ == error_response_json(self.error_code@, self.message@),
    {
        let mut out: Vec<char> = Vec::new();
        append_str_chars(&mut out, "{\"error_code\":");
        append_json_string(&mut out, self.error_code.as_str());
        append_str_chars(&mut out, ",\"message\":");
        append_json_string(&mut out, self.message.as_str());
        append_str_chars(&mut out, "}");
        proof {
            assert(out@ =~= error_response_json(self.error_code@, self.message@));
        }
        chars_to_string(&out)
    }
}

} // verus!
