//! The tag provider: its replies, its errors and the trait that providers
//! implement.

use vstd::prelude::*;

use crate::text;

verus! {

/// Errors that can occur during tag generation.
#[derive(Debug, Clone)]
pub enum TagError {
    /// Authentication failed — invalid or missing API key.
    Auth(String),
    /// The provider is temporarily unavailable (5xx, timeout, network error).
    Unavailable(String),
    /// The response could not be parsed as valid JSON.
    Parse(String),
    /// The request was malformed (4xx, bad parameters).
    BadRequest(String),
}

/// What an error says of the call.
pub enum ErrorKind {
    Auth,
    Unavailable,
    Parse,
    BadRequest,
}

/// What an error says of the call.
pub open spec fn error_kind(e: TagError) -> ErrorKind {
    match e {
        TagError::Auth(_) => ErrorKind::Auth,
        TagError::Unavailable(_) => ErrorKind::Unavailable,
        TagError::Parse(_) => ErrorKind::Parse,
        TagError::BadRequest(_) => ErrorKind::BadRequest,
    }
}

/// The words of an error.
pub open spec fn error_detail(e: TagError) -> Seq<char> {
    match e {
        TagError::Auth(m) => m@,
        TagError::Unavailable(m) => m@,
        TagError::Parse(m) => m@,
        TagError::BadRequest(m) => m@,
    }
}

/// The text that an error is shown as.
pub open spec fn error_message(e: TagError) -> Seq<char> {
    match e {
        TagError::Auth(m) => "authentication failed: "@ + m@,
        TagError::Unavailable(m) => "provider unavailable: "@ + m@,
        TagError::Parse(m) => "invalid response format: "@ + m@,
        TagError::BadRequest(m) => "bad request: "@ + m@,
    }
}

impl TagError {
    /// The text that the error is shown as.
    pub fn message(&self) -> (r: String)
        ensures
            r@ == error_message(*self),
    {
        let (prefix, m): (&str, &String) = match self {
            TagError::Auth(m) => ("authentication failed: ", m),
            TagError::Unavailable(m) => ("provider unavailable: ", m),
            TagError::Parse(m) => ("invalid response format: ", m),
            TagError::BadRequest(m) => ("bad request: ", m),
        };
        let mut r: String = text::copy_str(prefix);
        r.append(m.as_str());
        r
    }
}

/// Structured entities extracted from document content.
#[derive(Debug, Clone)]
pub struct Entities {
    /// Person names found in the document.
    pub persons: Vec<String>,
    /// Organization names found in the document.
    pub organizations: Vec<String>,
    /// Years referenced in the document (as strings, e.g., "2023").
    pub years: Vec<String>,
    /// Document/form identifiers (e.g., "1040", "W-2").
    pub doc_id: Vec<String>,
    /// Monetary amounts with currency (e.g., "$45,000", "EUR 1200").
    pub amounts: Vec<String>,
}

/// What a set of entities holds.
#[verifier::ext_equal]
pub struct EntitiesModel {
    pub persons: Seq<Seq<char>>,
    pub organizations: Seq<Seq<char>>,
    pub years: Seq<Seq<char>>,
    pub doc_id: Seq<Seq<char>>,
    pub amounts: Seq<Seq<char>>,
}

impl View for Entities {
    type V = EntitiesModel;

    open spec fn view(&self) -> EntitiesModel {
        EntitiesModel {
            persons: text::texts(self.persons@),
            organizations: text::texts(self.organizations@),
            years: text::texts(self.years@),
            doc_id: text::texts(self.doc_id@),
            amounts: text::texts(self.amounts@),
        }
    }
}

impl Default for Entities {
    fn default() -> (r: Self)
        ensures
            r@ == (EntitiesModel {
                persons: Seq::empty(),
                organizations: Seq::empty(),
                years: Seq::empty(),
                doc_id: Seq::empty(),
                amounts: Seq::empty(),
            }),
    {
        let r = Entities {
            persons: Vec::new(),
            organizations: Vec::new(),
            years: Vec::new(),
            doc_id: Vec::new(),
            amounts: Vec::new(),
        };
        proof {
            assert(r@.persons =~= Seq::empty());
            assert(r@.organizations =~= Seq::empty());
            assert(r@.years =~= Seq::empty());
            assert(r@.doc_id =~= Seq::empty());
            assert(r@.amounts =~= Seq::empty());
        }
        r
    }
}

/// The complete response from a tag provider: topic tags + extracted entities.
#[derive(Debug, Clone)]
pub struct TagResponse {
    /// Topic/type classification tags (e.g., "tax-return", "research-paper").
    pub tags: Vec<String>,
    /// Structured entities extracted from the document.
    pub entities: Entities,
}

/// What a response holds.
#[verifier::ext_equal]
pub struct ResponseModel {
    pub tags: Seq<Seq<char>>,
    pub entities: EntitiesModel,
}

impl View for TagResponse {
    type V = ResponseModel;

    open spec fn view(&self) -> ResponseModel {
        ResponseModel { tags: text::texts(self.tags@), entities: self.entities@ }
    }
}

/// Trait for pluggable tag generation providers.
///
/// Implementations can call remote APIs (DeepSeek, OpenAI) or run local models.
pub trait TagProvider: Send + Sync {
    /// Whether the provider may reply this to a question about a document: any reply,
    /// unless an implementation says more.
    open spec fn may_reply(
        &self,
        filename: Seq<char>,
        text: Seq<char>,
        existing_tags: Seq<Seq<char>>,
        reply: Result<TagResponse, TagError>,
    ) -> bool {
        true
    }

    /// Human-readable name shown in settings UI: that of no provider in particular,
    /// unless an implementation has its own.
    fn name(&self) -> (r: &str)
        default_ensures
            r@ == "provider"@,
    {
        "provider"
    }

    /// Generate tags and extract entities from document text.
    ///
    /// `filename` is the document's filename (strongest signal for classification).
    /// `text` is the extracted text.
    /// `existing_tags` is the user's current tag vocabulary for anchoring.
    fn generate_tags(&self, filename: &str, text: &str, existing_tags: &[String]) -> (r: Result<
        TagResponse,
        TagError,
    >)
        ensures
            self.may_reply(filename@, text@, text::texts(existing_tags@), r),
    ;

    /// Quick health check — is the provider reachable? A provider that does not look
    /// counts as reachable.
    fn health_check(&self) -> (r: Result<(), TagError>)
        default_ensures
            r is Ok,
    {
        Ok(())
    }
}

/// An error is shown with what it is about before its words, and is worth another try
/// only where the provider was not there.
pub proof fn errors_say_what_went_wrong(words: String)
    ensures
        error_message(TagError::Auth(words)) == "authentication failed: "@ + words@,
        error_message(TagError::Unavailable(words)) == "provider unavailable: "@ + words@,
        error_message(TagError::Parse(words)) == "invalid response format: "@ + words@,
        error_message(TagError::BadRequest(words)) == "bad request: "@ + words@,
        error_kind(TagError::Unavailable(words)) == ErrorKind::Unavailable,
        error_kind(TagError::Auth(words)) == ErrorKind::Auth,
        error_kind(TagError::Parse(words)) == ErrorKind::Parse,
        error_kind(TagError::BadRequest(words)) == ErrorKind::BadRequest,
        error_detail(TagError::Auth(words)) == words@,
        error_detail(TagError::Unavailable(words)) == words@,
        error_detail(TagError::Parse(words)) == words@,
        error_detail(TagError::BadRequest(words)) == words@,
{
}

/// A response is seen as all its tags and entities.
pub proof fn responses_are_seen_whole(r: TagResponse)
    ensures
        r@.tags == text::texts(r.tags@),
        r@.entities.persons == text::texts(r.entities.persons@),
        r@.entities.organizations == text::texts(r.entities.organizations@),
        r@.entities.years == text::texts(r.entities.years@),
        r@.entities.doc_id == text::texts(r.entities.doc_id@),
        r@.entities.amounts == text::texts(r.entities.amounts@),
{
}

} // verus!
