//! HTTP exchanges with registries, reduced to what the controller reads and writes.

use vstd::prelude::*;
use vstd::string::*;
use crate::credentials::{CredentialsView, RegistryCredentials};
use crate::text::{ascii_text, bytes_as_chars};

verus! {

/// The longest `WWW-Authenticate` value that is read, in bytes. A URL that is made out of one of
/// this length stays far below the 4 GiB that a `reqwest::Url` can hold.
pub const MAX_HEADER: usize = 0x100_0000;

/// A GET request.
#[derive(Debug)]
pub struct HttpRequest {
    pub url: String,
    /// Names and values of the request's headers.
    pub headers: Vec<(String, String)>,
    /// What the request authenticates with, where it does.
    pub basic_auth: Option<RegistryCredentials>,
}

/// `HttpRequest` over mathematical text.
#[verifier::ext_equal]
pub struct RequestView {
    pub url: Seq<char>,
    pub headers: Seq<(Seq<char>, Seq<char>)>,
    pub basic_auth: Option<CredentialsView>,
}

/// The views of a list of pairs of text.
pub open spec fn pair_views(pairs: Seq<(String, String)>) -> Seq<(Seq<char>, Seq<char>)> {
    pairs.map_values(|p: (String, String)| (p.0@, p.1@))
}

impl View for HttpRequest {
    type V = RequestView;

    open spec fn view(&self) -> RequestView {
        RequestView {
            url: self.url@,
            headers: pair_views(self.headers@),
            basic_auth: self.basic_auth.deep_view(),
        }
    }
}

/// The head of a response: its status, and the first value of each header that is looked at.
#[derive(Debug)]
pub struct HttpResponse {
    status: u16,
    digest: Option<Vec<u8>>,
    challenge: Option<Vec<u8>>,
}

/// `HttpResponse` over mathematical bytes.
#[verifier::ext_equal]
pub struct ResponseView {
    pub status: u16,
    /// The value of `Docker-Content-Digest`.
    pub digest: Option<Seq<u8>>,
    /// The value of `WWW-Authenticate`.
    pub challenge: Option<Seq<u8>>,
}

impl ResponseView {
    /// The status has three digits, and the challenge can be read.
    pub open spec fn well_formed(self) -> bool {
        &&& 100 <= self.status <= 999
        &&& self.challenge matches Some(value) ==> value.len() <= MAX_HEADER
    }

    /// The status asks for authentication.
    pub open spec fn unauthorized(self) -> bool {
        self.status == 401
    }

    /// The status is one of success.
    pub open spec fn success(self) -> bool {
        200 <= self.status < 300
    }
}

/// The view of an optional header value.
pub open spec fn value_view(value: Option<Vec<u8>>) -> Option<Seq<u8>> {
    match value {
        Some(bytes) => Some(bytes@),
        None => None,
    }
}

impl View for HttpResponse {
    type V = ResponseView;

    closed spec fn view(&self) -> ResponseView {
        ResponseView {
            status: self.status,
            digest: value_view(self.digest),
            challenge: value_view(self.challenge),
        }
    }
}

/// A byte that a header value may hold to be read as text.
pub open spec fn visible(b: u8) -> bool {
    32 <= b < 127 || b == 9
}

/// The text of a header value, where all of it is visible ASCII.
pub open spec fn header_text(value: Seq<u8>) -> Option<Seq<char>> {
    if forall|i: int| 0 <= i < value.len() ==> visible(#[trigger] value[i]) {
        Some(bytes_as_chars(value))
    } else {
        None
    }
}

/// The text of a header value, where all of it is visible ASCII.
pub fn header_to_str(value: &Vec<u8>) -> (res: Option<String>)
    ensures
        match res {
            Some(text) => header_text(value@) == Some(text@),
            None => header_text(value@) is None,
        },
{
    let mut i: usize = 0;
    while i < value.len()
        invariant
            i <= value@.len(),
            forall|j: int| 0 <= j < i ==> visible(#[trigger] value@[j]),
        decreases value.len() - i,
    {
        let b: u8 = value[i];
        if !((32 <= b && b < 127) || b == 9) {
            assert(!visible(value@[i as int]));
            return None;
        }
        i += 1;
    }
    Some(ascii_text(value))
}

impl HttpResponse {
    #[verifier::type_invariant]
    closed spec fn inv(self) -> bool {
        self@.well_formed()
    }

    /// A response with this status and these values of `Docker-Content-Digest` and
    /// `WWW-Authenticate`. There is none with a status outside 100 to 999, or with a challenge
    /// longer than `MAX_HEADER`.
    pub fn new(status: u16, digest: Option<Vec<u8>>, challenge: Option<Vec<u8>>) -> (res: Option<
        HttpResponse,
    >)
        ensures
            ({
                let view = ResponseView {
                    status,
                    digest: value_view(digest),
                    challenge: value_view(challenge),
                };
                match res {
                    Some(response) => view.well_formed() && response@ == view,
                    None => !view.well_formed(),
                }
            }),
    {
        if status < 100 || status > 999 {
            return None;
        }
        if let Some(value) = &challenge {
            if value.len() > MAX_HEADER {
                return None;
            }
        }
        Some(HttpResponse { status, digest, challenge })
    }

    /// The status.
    pub fn status(&self) -> (res: u16)
        ensures
            res == self@.status,
            100 <= res <= 999,
    {
        proof {
            use_type_invariant(self);
        }
        self.status
    }

    /// Whether the status asks for authentication.
    pub fn is_unauthorized(&self) -> (res: bool)
        ensures
            res == self@.unauthorized(),
    {
        self.status == 401
    }

    /// Whether the status is one of success.
    pub fn is_success(&self) -> (res: bool)
        ensures
            res == self@.success(),
    {
        200 <= self.status && self.status < 300
    }

    /// The value of `Docker-Content-Digest`.
    pub fn digest(&self) -> (res: Option<&Vec<u8>>)
        ensures
            match res {
                Some(value) => self@.digest == Some(value@),
                None => self@.digest is None,
            },
    {
        self.digest.as_ref()
    }

    /// The value of `WWW-Authenticate`.
    pub fn challenge(&self) -> (res: Option<&Vec<u8>>)
        ensures
            match res {
                Some(value) => self@.challenge == Some(value@) && value@.len() <= MAX_HEADER,
                None => self@.challenge is None,
            },
    {
        proof {
            use_type_invariant(self);
        }
        self.challenge.as_ref()
    }
}

/// The words for a status: its number and what it means.
pub uninterp spec fn status_words(status: u16) -> Seq<char>;

/// `Display` of `reqwest::StatusCode`: the number, a space, and the meaning of the number, all of it
/// a function of the number. `reqwest::StatusCode::from_u16` has a status for every number from 100
/// to 999.
#[verifier::external_body]
pub(crate) fn status_text(status: u16) -> (res: String)
    requires
        100 <= status <= 999,
    ensures
        res@ == status_words(status),
{
    reqwest::StatusCode::from_u16(status).unwrap().to_string()
}

/// A header value is read as text exactly where each of its bytes is a tab or a printable ASCII
/// character, and the text then has the characters of these numbers.
pub proof fn law_header_text_is_its_bytes(value: Seq<u8>)
    ensures
        match header_text(value) {
            Some(text) => {
                &&& text.len() == value.len()
                &&& forall|i: int|
                    0 <= i < value.len() ==> {
                        &&& #[trigger] text[i] as int == value[i] as int
                        &&& value[i] == 0x09 || 0x20 <= value[i] <= 0x7e
                    }
            },
            None => exists|i: int|
                0 <= i < value.len() && #[trigger] value[i] != 0x09 && !(0x20 <= value[i] <= 0x7e),
        },
{
    if header_text(value) is Some {
        let text = header_text(value).unwrap();
        assert forall|i: int| 0 <= i < value.len() implies {
            &&& #[trigger] text[i] as int == value[i] as int
            &&& value[i] == 0x09 || 0x20 <= value[i] <= 0x7e
        } by {
            assert(visible(value[i]));
        }
    } else {
        let i = choose|i: int| 0 <= i < value.len() && !visible(#[trigger] value[i]);
        assert(value[i] != 0x09 && !(0x20 <= value[i] <= 0x7e));
    }
}

/// Authentication is asked for with the status 401 alone; the statuses of success are those from
/// 200 to 299.
pub proof fn law_statuses_mean_what_their_numbers_say(response: ResponseView)
    ensures
        response.unauthorized() <==> response.status == 401,
        response.success() <==> 200 <= response.status <= 299,
{
}

/// Every status of three digits and every digest can be in a response, and every challenge of at
/// most 16 MiB; nothing else is asked of a response.
pub proof fn law_responses_are_taken(response: ResponseView)
    ensures
        response.well_formed() <==> 100 <= response.status <= 999 && (response.challenge
            matches Some(value) ==> value.len() <= 0x100_0000),
{
}

/// A request is seen with the URL, the headers and the credentials that it has, and a header value
/// with its bytes.
pub proof fn law_requests_are_seen_as_they_are(request: HttpRequest, value: Vec<u8>)
    ensures
        request@.url == request.url@,
        request@.headers.len() == request.headers@.len(),
        forall|i: int|
            0 <= i < request.headers@.len() ==> #[trigger] request@.headers[i] == (
                request.headers@[i].0@,
                request.headers@[i].1@,
            ),
        match request.basic_auth {
            Some(creds) => request@.basic_auth == Some(creds@),
            None => request@.basic_auth is None,
        },
        value_view(Some(value)) == Some(value@),
        value_view(None) is None,
{
}

} // verus!
