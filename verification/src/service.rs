//! The quote service: loading a collection from document text, and selecting
//! a record by id or at random. Failures are classified into the sourcing
//! taxonomy: the source is missing, it cannot be read, or it does not parse.

use vstd::prelude::*;
use vstd::string::StringExecFns;
use rand::Rng;
use crate::models::{Quote, QuoteView};
use crate::parse::parse_document_text;
use crate::text::usize_to_dec_string;
use crate::wire::parse_document;

verus! {

/// The mathematical value of a [`QuoteServiceError`].
pub ghost enum ServiceErrorView {
    FileNotFound(Seq<char>),
    FileReadError(Seq<char>),
    ParseError(Seq<char>),
}

/// A failure while sourcing the quote collection: the data file is missing,
/// it cannot be read, or its text is not a well-formed quote document.
/// Each variant carries its diagnostic detail: the path, or a description of
/// the underlying cause.
#[derive(Debug)]
pub enum QuoteServiceError {
    FileNotFound(String),
    FileReadError(String),
    ParseError(String),
}

impl View for QuoteServiceError {
    type V = ServiceErrorView;

    open spec fn view(&self) -> ServiceErrorView {
        match self {
            QuoteServiceError::FileNotFound(p) => ServiceErrorView::FileNotFound(p@),
            QuoteServiceError::FileReadError(m) => ServiceErrorView::FileReadError(m@),
            QuoteServiceError::ParseError(m) => ServiceErrorView::ParseError(m@),
        }
    }
}

/// The diagnostic line of a sourcing failure.
pub open spec fn service_error_message(e: ServiceErrorView) -> Seq<char> {
    match e {
        ServiceErrorView::FileNotFound(p) => "Quote data file not found at path: "@ + p,
        ServiceErrorView::FileReadError(m) => "Error reading quote data file: "@ + m,
        ServiceErrorView::ParseError(m) => "Error parsing quote data: "@ + m,
    }
}

impl QuoteServiceError {
    /// The diagnostic line of this failure, for server-side logging.
    pub fn display_string(&self) -> (r: String)
        ensures
            r@ == service_error_message(self@),
    {
        match self {
            QuoteServiceError::FileNotFound(p) => {
                let mut s = "Quote data file not found at path: ".to_owned();
                s.append(p.as_str());
                s
            },
            QuoteServiceError::FileReadError(m) => {
                let mut s = "Error reading quote data file: ".to_owned();
                s.append(m.as_str());
                s
            },
            QuoteServiceError::ParseError(m) => {
                let mut s = "Error parsing quote data: ".to_owned();
                s.append(m.as_str());
                s
            },
        }
    }
}

/// Parses the text of a quote document into the collection it holds: all of
/// its records in document order, or a parse failure naming where the text
/// stopped making sense, and no records at all.
pub fn load_quotes_from_content(content: &str) -> (r: Result<Vec<Quote>, QuoteServiceError>)
    ensures
        (r matches Ok(qs) ==> parse_document(content@) == Some(qs.deep_view())),
        (r matches Err(e) ==> parse_document(content@) is None && e@ is ParseError),
{
    match parse_document_text(content) {
        Ok(qs) => Ok(qs),
        Err(pos) => {
            let mut msg = "the quote document is malformed at character offset ".to_owned();
            msg.append(usize_to_dec_string(pos).as_str());
            Err(QuoteServiceError::ParseError(msg))
        },
    }
}

/// The first record with the given id, scanning in document order.
pub open spec fn spec_find_by_id(qs: Seq<QuoteView>, id: u32) -> Option<QuoteView>
    decreases qs.len(),
{
    if qs.len() == 0 {
        None
    } else if qs[0].id == id {
        Some(qs[0])
    } else {
        spec_find_by_id(qs.drop_first(), id)
    }
}

/// Finds a quote by its id: the first record whose `id` matches, in document
/// order, or nothing when no record matches, the empty collection included.
pub fn get_quote_by_id(quotes: &[Quote], id: u32) -> (r: Option<&Quote>)
    ensures
        (r matches Some(q) ==> spec_find_by_id(quotes.deep_view(), id) == Some(q@)),
        (r is None ==> spec_find_by_id(quotes.deep_view(), id) is None),
{
    let ghost views = quotes.deep_view();
    let n = quotes.len();
    let mut k: usize = 0;
    proof {
        assert(views.skip(0) =~= views);
    }
    while k < n
        invariant
            k <= n,
            n == quotes@.len(),
            views == quotes.deep_view(),
            spec_find_by_id(views, id) == spec_find_by_id(views.skip(k as int), id),
        decreases n - k,
    {
        proof {
            assert(views.skip(k as int)[0] == views[k as int]);
            assert(views.skip(k as int).drop_first() =~= views.skip(k + 1int));
        }
        let q = &quotes[k];
        if q.id == id {
            return Some(q);
        }
        k = k + 1;
    }
    proof {
        assert(views.skip(n as int).len() == 0);
    }
    None
}

/// Draws an index below `n`.
///
/// Relies on `rand::Rng::gen_range` over the range `0..n`: the sample always
/// lies in the range, and the call panics only on an empty range, which
/// `n > 0` rules out. Nothing is assumed about the distribution.
#[verifier::external_body]
fn random_index(n: usize) -> (r: usize)
    requires
        n > 0,
    ensures
        r < n,
{
    rand::thread_rng().gen_range(0..n)
}

/// Picks a random quote: nothing when the collection is empty, otherwise
/// some record of the collection, chosen without reading or changing any
/// other state of the service.
pub fn get_random_quote(quotes: &[Quote]) -> (r: Option<&Quote>)
    ensures
        (r is Some <==> quotes@.len() > 0),
        (r matches Some(q) ==> exists|i: int|
            0 <= i < quotes@.len() && q@ == quotes.deep_view()[i]),
{
    if quotes.is_empty() {
        None
    } else {
        let i = random_index(quotes.len());
        let q = &quotes[i];
        proof {
            assert(q@ == quotes.deep_view()[i as int]);
        }
        Some(q)
    }
}

} // verus!
