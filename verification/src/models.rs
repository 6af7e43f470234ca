//! The quote data model: a single record of the collection, together with its
//! mathematical view used by the wire-format and selection contracts.

use vstd::prelude::*;

verus! {

/// The mathematical value of a [`Quote`]: the id as an integer and the text
/// fields as character sequences.
#[verifier::ext_equal]
pub ghost struct QuoteView {
    pub id: u32,
    pub text: Seq<char>,
    pub author: Seq<char>,
    pub source: Option<Seq<char>>,
}

/// One quotation record of the collection.
///
/// `id` is expected unique within a collection but uniqueness is not enforced
/// at load time; by-id lookup returns the first match in document order.
/// On the wire the `text` field is carried under the key `quote`.
#[derive(Debug)]
pub struct Quote {
    /// A unique identifier for the quote.
    pub id: u32,
    /// The text content of the quote. Carried as `quote` on the wire.
    pub text: String,
    /// The author of the quote.
    pub author: String,
    /// An optional source for the quote (e.g., book, speech).
    pub source: Option<String>,
}

impl View for Quote {
    type V = QuoteView;

    open spec fn view(&self) -> QuoteView {
        QuoteView {
            id: self.id,
            text: self.text@,
            author: self.author@,
            source: match self.source {
                Some(s) => Some(s@),
                None => None,
            },
        }
    }
}

impl DeepView for Quote {
    type V = QuoteView;

    open spec fn deep_view(&self) -> QuoteView {
        self.view()
    }
}

impl Quote {
    /// Constructs a new `Quote` from its four fields.
    pub fn new(id: u32, text: String, author: String, source: Option<String>) -> (q: Quote)
        ensures
            q@.id == id,
            q@.text == text@,
            q@.author == author@,
            q@.source == (match source {
                Some(s) => Some(s@),
                None => None::<Seq<char>>,
            }),
    {
        Quote { id, text, author, source }
    }
}

impl Clone for Quote {
    fn clone(&self) -> (q: Quote)
        ensures
            q@ == self@,
    {
        Quote {
            id: self.id,
            text: self.text.clone(),
            author: self.author.clone(),
            source: match &self.source {
                Some(s) => Some(s.clone()),
                None => None,
            },
        }
    }
}

impl PartialEq for Quote {
    fn eq(&self, other: &Quote) -> (r: bool)
        ensures
            r == (self@ == other@),
    {
        let source_eq = match (&self.source, &other.source) {
            (Some(a), Some(b)) => *a == *b,
            (None, None) => true,
            _ => false,
        };
        let r = self.id == other.id && self.text == other.text && self.author == other.author
            && source_eq;
        proof {
            if r {
                assert(self@ =~= other@);
            }
        }
        r
    }
}

impl vstd::std_specs::cmp::PartialEqSpecImpl for Quote {
    open spec fn obeys_eq_spec() -> bool {
        true
    }

    open spec fn eq_spec(&self, other: &Quote) -> bool {
        self@ == other@
    }
}

/// A placeholder data model kept alongside the quote record.
#[derive(Debug)]
pub struct PlaceholderModel {
    pub id: i32,
    pub name: String,
}

} // verus!
