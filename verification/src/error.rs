//! What can go wrong in a reconciliation.

use vstd::prelude::*;
use vstd::string::*;

verus! {

/// A failed reconciliation.
#[derive(Debug)]
pub enum ControllerError {
    /// The Kubernetes API refused a request, with its own account of it.
    KubeError(String),
    /// An HTTP exchange failed, with the client's own account of it.
    HttpError(String),
    /// A header value is not visible ASCII.
    ToStrError,
    /// Something that the controller needs is not there.
    MissingField(&'static str),
    /// Anything else.
    Other(String),
}

/// `ControllerError` over mathematical text.
#[verifier::ext_equal]
pub enum ErrorView {
    KubeError(Seq<char>),
    HttpError(Seq<char>),
    ToStrError,
    MissingField(Seq<char>),
    Other(Seq<char>),
}

impl View for ControllerError {
    type V = ErrorView;

    open spec fn view(&self) -> ErrorView {
        match self {
            ControllerError::KubeError(e) => ErrorView::KubeError(e@),
            ControllerError::HttpError(e) => ErrorView::HttpError(e@),
            ControllerError::ToStrError => ErrorView::ToStrError,
            ControllerError::MissingField(field) => ErrorView::MissingField(field@),
            ControllerError::Other(msg) => ErrorView::Other(msg@),
        }
    }
}

impl ErrorView {
    /// The error in words.
    pub open spec fn message(self) -> Seq<char> {
        match self {
            ErrorView::KubeError(e) => "Kubernetes error: "@ + e,
            ErrorView::HttpError(e) => "HTTP error: "@ + e,
            ErrorView::ToStrError => "Header conversion error: "@
                + "failed to convert header to a str"@,
            ErrorView::MissingField(field) => "Missing field: "@ + field,
            ErrorView::Other(msg) => msg,
        }
    }
}

impl ControllerError {
    /// The error in words.
    pub fn message(&self) -> (res: String)
        ensures
            res@ == self@.message(),
    {
        match self {
            ControllerError::KubeError(e) => "Kubernetes error: ".to_owned().concat(e.as_str()),
            ControllerError::HttpError(e) => "HTTP error: ".to_owned().concat(e.as_str()),
            ControllerError::ToStrError => "Header conversion error: ".to_owned().concat(
                "failed to convert header to a str",
            ),
            ControllerError::MissingField(field) => "Missing field: ".to_owned().concat(field),
            ControllerError::Other(msg) => msg.clone(),
        }
    }
}

impl From<&'static str> for ControllerError {
    fn from(s: &'static str) -> (res: ControllerError) {
        ControllerError::MissingField(s)
    }
}

impl vstd::std_specs::convert::FromSpecImpl<&'static str> for ControllerError {
    open spec fn obeys_from_spec() -> bool {
        true
    }

    open spec fn from_spec(s: &'static str) -> ControllerError {
        ControllerError::MissingField(s)
    }
}

impl From<String> for ControllerError {
    fn from(s: String) -> (res: ControllerError) {
        ControllerError::Other(s)
    }
}

impl vstd::std_specs::convert::FromSpecImpl<String> for ControllerError {
    open spec fn obeys_from_spec() -> bool {
        true
    }

    open spec fn from_spec(s: String) -> ControllerError {
        ControllerError::Other(s)
    }
}

/// An error is told in the words of what went wrong, behind words for its kind.
pub proof fn law_message_tells_what_went_wrong(words: Seq<char>)
    ensures
        ErrorView::KubeError(words).message() == "Kubernetes error: "@ + words,
        ErrorView::HttpError(words).message() == "HTTP error: "@ + words,
        ErrorView::MissingField(words).message() == "Missing field: "@ + words,
        ErrorView::Other(words).message() == words,
        ErrorView::ToStrError.message() == "Header conversion error: "@
            + "failed to convert header to a str"@,
{
}

/// An error is seen with its kind and its words.
pub proof fn law_errors_are_seen_as_they_are(error: ControllerError)
    ensures
        match error {
            ControllerError::KubeError(words) => error@ == ErrorView::KubeError(words@),
            ControllerError::HttpError(words) => error@ == ErrorView::HttpError(words@),
            ControllerError::ToStrError => error@ == ErrorView::ToStrError,
            ControllerError::MissingField(words) => error@ == ErrorView::MissingField(words@),
            ControllerError::Other(words) => error@ == ErrorView::Other(words@),
        },
{
}

} // verus!
