//! Bearer tokens: how one is asked for, and how it is read from the answer.

use vstd::prelude::*;
use vstd::string::*;
use crate::challenge::{AuthChallenge, ChallengeView};
use crate::credentials::{copy_credentials, CredentialsView, RegistryCredentials};
use crate::error::{ControllerError, ErrorView};
use crate::http::{pair_views, HttpRequest, RequestView, MAX_HEADER};
use crate::json::{json_document, parse_json, Json, JsonView};

verus! {

/// What a body that is no JSON document is called.
pub const UNREADABLE_BODY: &'static str = "error decoding response body";

/// What the lack of a token is called.
pub const NO_TOKEN: &'static str = "No token in auth response";

/// The request for a Docker Hub token to pull `repository`.
pub open spec fn docker_token_request(
    repository: Seq<char>,
    creds: Option<CredentialsView>,
) -> RequestView {
    RequestView {
        url: "https://auth.docker.io/token?service=registry.docker.io&scope=repository:"@
            + repository + ":pull"@,
        headers: seq![],
        basic_auth: creds,
    }
}

/// The request for a Docker Hub token to pull `repository`.
pub fn ask_docker_token(repository: &str, creds: Option<&RegistryCredentials>) -> (res: HttpRequest)
    ensures
        res@ == docker_token_request(repository@, creds.deep_view()),
{
    let res: HttpRequest = HttpRequest {
        url: "https://auth.docker.io/token?service=registry.docker.io&scope=repository:".to_owned()
            .concat(repository).concat(":pull"),
        headers: Vec::new(),
        basic_auth: copy_credentials(creds),
    };
    assert(res@.headers =~= seq![]);
    res
}

/// The parameters that a challenge wants in the query of the token request.
pub open spec fn token_parameters(challenge: ChallengeView) -> Seq<(Seq<char>, Seq<char>)> {
    let service = match challenge.service {
        Some(service) => seq![("service"@, service)],
        None => seq![],
    };
    let scope = match challenge.scope {
        Some(scope) => seq![("scope"@, scope)],
        None => seq![],
    };
    service + scope
}

/// `base` as a URL with `params` behind what its query holds already, or what is wrong with
/// `base`.
pub uninterp spec fn url_with_params(
    base: Seq<char>,
    params: Seq<(Seq<char>, Seq<char>)>,
) -> Result<Seq<char>, Seq<char>>;

/// `reqwest::Url::parse_with_params`: parses `base` and appends `params` to its query, form-encoded
/// and in their order. The URL, or what is wrong with `base`, is a function of the two. The lengths
/// keep the URL below the 4 GiB at which the `url` crate gives up.
#[verifier::external_body]
fn parse_url_with_params(base: &str, params: &Vec<(String, String)>) -> (res: Result<
    String,
    String,
>)
    requires
        base@.len() <= MAX_HEADER,
        params@.len() <= 2,
        forall|i: int|
            0 <= i < params@.len() ==> (#[trigger] params@[i]).0@.len() <= MAX_HEADER
                && params@[i].1@.len() <= MAX_HEADER,
    ensures
        match res {
            Ok(url) => url_with_params(base@, pair_views(params@)) == Ok::<Seq<char>, Seq<char>>(
                url@,
            ),
            Err(e) => url_with_params(base@, pair_views(params@)) == Err::<Seq<char>, Seq<char>>(
                e@,
            ),
        },
{
    match reqwest::Url::parse_with_params(base, params) {
        Ok(url) => Ok(String::from(url)),
        Err(e) => Err(e.to_string()),
    }
}

/// `text` in double quotes, with what cannot be shown escaped.
pub uninterp spec fn debug_text(text: Seq<char>) -> Seq<char>;

/// `Debug` of `str`: `text` in double quotes and escaped, a function of it.
#[verifier::external_body]
fn debug_str(text: &str) -> (res: String)
    ensures
        res@ == debug_text(text@),
{
    format!("{:?}", text)
}

/// What a token request is made of a URL for it, or why there is none.
pub open spec fn token_request_with(
    url: Result<Seq<char>, Seq<char>>,
    shown_realm: Seq<char>,
    creds: Option<CredentialsView>,
) -> Result<RequestView, ErrorView> {
    match url {
        Ok(url) => Ok(RequestView { url, headers: seq![], basic_auth: creds }),
        Err(e) => Err(
            ErrorView::Other("Invalid auth realm URL "@ + shown_realm + ": "@ + e),
        ),
    }
}

/// The token request that a challenge asks for, or why there is none.
pub open spec fn token_request(
    challenge: ChallengeView,
    creds: Option<CredentialsView>,
) -> Result<RequestView, ErrorView> {
    token_request_with(
        url_with_params(challenge.realm, token_parameters(challenge)),
        debug_text(challenge.realm),
        creds,
    )
}

/// The view of a request, or of why there is none.
pub open spec fn request_result(res: Result<HttpRequest, ControllerError>) -> Result<
    RequestView,
    ErrorView,
> {
    match res {
        Ok(request) => Ok(request@),
        Err(e) => Err(e@),
    }
}

/// The view of a text, or of why there is none.
pub open spec fn text_result(res: Result<String, ControllerError>) -> Result<Seq<char>, ErrorView> {
    match res {
        Ok(text) => Ok(text@),
        Err(e) => Err(e@),
    }
}

/// The view of a text, or of the words for why there is none.
pub open spec fn plain_result(res: Result<String, String>) -> Result<Seq<char>, Seq<char>> {
    match res {
        Ok(text) => Ok(text@),
        Err(e) => Err(e@),
    }
}

/// Makes a token request of a URL for it, or an error of why there is none.
pub fn bearer_request(
    url: Result<String, String>,
    shown_realm: &str,
    creds: Option<&RegistryCredentials>,
) -> (res: Result<HttpRequest, ControllerError>)
    ensures
        request_result(res) == token_request_with(
            plain_result(url),
            shown_realm@,
            creds.deep_view(),
        ),
{
    match url {
        Ok(url) => {
            let res: HttpRequest = HttpRequest {
                url,
                headers: Vec::new(),
                basic_auth: copy_credentials(creds),
            };
            assert(res@.headers =~= seq![]);
            Ok(res)
        },
        Err(e) => Err(
            ControllerError::Other(
                "Invalid auth realm URL ".to_owned().concat(shown_realm).concat(": ").concat(
                    e.as_str(),
                ),
            ),
        ),
    }
}

/// The token request that a challenge asks for, or why there is none. No text of the challenge may
/// be longer than `MAX_HEADER`.
pub fn fetch_bearer_token(challenge: &AuthChallenge, creds: Option<&RegistryCredentials>) -> (res:
    Result<HttpRequest, ControllerError>)
    requires
        challenge@.realm.len() <= MAX_HEADER,
        challenge@.service matches Some(service) ==> service.len() <= MAX_HEADER,
        challenge@.scope matches Some(scope) ==> scope.len() <= MAX_HEADER,
    ensures
        request_result(res) == token_request(challenge@, creds.deep_view()),
{
    proof {
        reveal_strlit("service");
        reveal_strlit("scope");
    }
    let mut params: Vec<(String, String)> = Vec::new();
    if let Some(service) = &challenge.service {
        params.push(("service".to_owned(), service.clone()));
    }
    if let Some(scope) = &challenge.scope {
        params.push(("scope".to_owned(), scope.clone()));
    }
    assert(pair_views(params@) =~= token_parameters(challenge@));
    let url: Result<String, String> = parse_url_with_params(challenge.realm.as_str(), &params);
    let shown: String = debug_str(challenge.realm.as_str());
    bearer_request(url, shown.as_str(), creds)
}

/// The token in an answer of Docker Hub.
pub open spec fn docker_token(answer: JsonView) -> Option<Seq<char>> {
    answer.text_at("token"@)
}

/// The token in an answer of any other registry, which may use the name of OAuth.
pub open spec fn bearer_token(answer: JsonView) -> Option<Seq<char>> {
    match answer.text_at("token"@) {
        Some(token) => Some(token),
        None => answer.text_at("access_token"@),
    }
}

/// A token, or the error for want of one.
pub open spec fn token_or_missing(token: Option<Seq<char>>) -> Result<Seq<char>, ErrorView> {
    match token {
        Some(token) => Ok(token),
        None => Err(ErrorView::MissingField(NO_TOKEN@)),
    }
}

/// The token in a body that Docker Hub sent.
pub open spec fn docker_token_in(body: Seq<u8>) -> Result<Seq<char>, ErrorView> {
    match json_document(body) {
        Some(answer) => token_or_missing(docker_token(answer)),
        None => Err(ErrorView::HttpError(UNREADABLE_BODY@)),
    }
}

/// The token in a body that any other registry sent.
pub open spec fn bearer_token_in(body: Seq<u8>) -> Result<Seq<char>, ErrorView> {
    match json_document(body) {
        Some(answer) => token_or_missing(bearer_token(answer)),
        None => Err(ErrorView::HttpError(UNREADABLE_BODY@)),
    }
}

/// The token in an answer of Docker Hub.
pub fn docker_token_from_json(answer: &Json) -> (res: Result<String, ControllerError>)
    ensures
        text_result(res) == token_or_missing(docker_token(answer@)),
{
    match answer.str_at("token") {
        Some(token) => Ok(token.to_owned()),
        None => Err(ControllerError::from(NO_TOKEN)),
    }
}

/// The token in an answer of any other registry.
pub fn bearer_token_from_json(answer: &Json) -> (res: Result<String, ControllerError>)
    ensures
        text_result(res) == token_or_missing(bearer_token(answer@)),
{
    match answer.str_at("token") {
        Some(token) => Ok(token.to_owned()),
        None => match answer.str_at("access_token") {
            Some(token) => Ok(token.to_owned()),
            None => Err(ControllerError::from(NO_TOKEN)),
        },
    }
}

/// The token in a body that Docker Hub sent.
pub fn read_docker_token(body: &[u8]) -> (res: Result<String, ControllerError>)
    ensures
        text_result(res) == docker_token_in(body@),
{
    match parse_json(body) {
        Some(answer) => docker_token_from_json(&answer),
        None => Err(ControllerError::HttpError(UNREADABLE_BODY.to_owned())),
    }
}

/// The token in a body that any other registry sent.
pub fn read_bearer_token(body: &[u8]) -> (res: Result<String, ControllerError>)
    ensures
        text_result(res) == bearer_token_in(body@),
{
    match parse_json(body) {
        Some(answer) => bearer_token_from_json(&answer),
        None => Err(ControllerError::HttpError(UNREADABLE_BODY.to_owned())),
    }
}

/// A Docker Hub token is asked for at Docker Hub's token service, for pulling exactly the
/// repository, with the credentials and nothing else.
pub proof fn law_docker_token_is_for_the_repository(
    repository: Seq<char>,
    creds: Option<CredentialsView>,
)
    ensures
        docker_token_request(repository, creds).url
            == "https://auth.docker.io/token?service=registry.docker.io&scope=repository:"@
            + repository + ":pull"@,
        docker_token_request(repository, creds).headers == Seq::<(Seq<char>, Seq<char>)>::empty(),
        docker_token_request(repository, creds).basic_auth == creds,
{
}

/// A bearer token is asked for at the realm of the challenge, with the service and the scope of the
/// challenge in the query, each where the challenge has it and in this order, and with the
/// credentials; a realm that is no URL is an error that shows it.
pub proof fn law_token_request_is_what_the_challenge_asks_for(
    realm: Seq<char>,
    service: Seq<char>,
    scope: Seq<char>,
    creds: Option<CredentialsView>,
    asked_service: bool,
    asked_scope: bool,
)
    ensures
        ({
            let c = ChallengeView {
                realm,
                service: if asked_service {
                    Some(service)
                } else {
                    None
                },
                scope: if asked_scope {
                    Some(scope)
                } else {
                    None
                },
            };
            let params = if asked_service && asked_scope {
                seq![("service"@, service), ("scope"@, scope)]
            } else if asked_service {
                seq![("service"@, service)]
            } else if asked_scope {
                seq![("scope"@, scope)]
            } else {
                seq![]
            };
            match url_with_params(realm, params) {
                Ok(url) => {
                    &&& token_request(c, creds) matches Ok(request)
                    &&& request.url == url
                    &&& request.headers.len() == 0
                    &&& request.basic_auth == creds
                },
                Err(e) => token_request(c, creds) == Err::<RequestView, ErrorView>(
                    ErrorView::Other(
                        "Invalid auth realm URL "@ + debug_text(realm) + ": "@ + e,
                    ),
                ),
            }
        }),
{
    let c = ChallengeView {
        realm,
        service: if asked_service {
            Some(service)
        } else {
            None
        },
        scope: if asked_scope {
            Some(scope)
        } else {
            None
        },
    };
    let params = if asked_service && asked_scope {
        seq![("service"@, service), ("scope"@, scope)]
    } else if asked_service {
        seq![("service"@, service)]
    } else if asked_scope {
        seq![("scope"@, scope)]
    } else {
        seq![]
    };
    assert(token_parameters(c) =~= params);
}

/// The token in an answer is the text under `token`; registries other than Docker Hub may call it
/// `access_token` where there is no such text. An answer without one, and a body that is no JSON
/// document, are errors.
pub proof fn law_token_is_the_text_under_its_name(body: Seq<u8>)
    ensures
        match json_document(body) {
            Some(answer) => {
                &&& match answer.get("token"@) {
                    Some(JsonView::Text(token)) => {
                        &&& docker_token_in(body) == Ok::<Seq<char>, ErrorView>(token)
                        &&& bearer_token_in(body) == Ok::<Seq<char>, ErrorView>(token)
                    },
                    _ => {
                        &&& docker_token_in(body) == Err::<Seq<char>, ErrorView>(
                            ErrorView::MissingField("No token in auth response"@),
                        )
                        &&& match answer.get("access_token"@) {
                            Some(JsonView::Text(token)) => bearer_token_in(body) == Ok::<
                                Seq<char>,
                                ErrorView,
                            >(token),
                            _ => bearer_token_in(body) == Err::<Seq<char>, ErrorView>(
                                ErrorView::MissingField("No token in auth response"@),
                            ),
                        }
                    },
                }
            },
            None => {
                &&& docker_token_in(body) == Err::<Seq<char>, ErrorView>(
                    ErrorView::HttpError("error decoding response body"@),
                )
                &&& bearer_token_in(body) == Err::<Seq<char>, ErrorView>(
                    ErrorView::HttpError("error decoding response body"@),
                )
            },
        },
{
}

/// What came of something is seen as it is: the value where there is one, and the error otherwise.
pub proof fn law_results_are_seen_as_they_are(
    request: HttpRequest,
    text: String,
    error: ControllerError,
)
    ensures
        request_result(Ok(request)) == Ok::<RequestView, ErrorView>(request@),
        request_result(Err(error)) == Err::<RequestView, ErrorView>(error@),
        text_result(Ok(text)) == Ok::<Seq<char>, ErrorView>(text@),
        text_result(Err(error)) == Err::<Seq<char>, ErrorView>(error@),
        plain_result(Ok(text)) == Ok::<Seq<char>, Seq<char>>(text@),
        plain_result(Err(text)) == Err::<Seq<char>, Seq<char>>(text@),
{
}

/// A token request has the URL that was made for it and the credentials, and no headers; the words
/// for a URL that could not be made tell the realm and why.
pub proof fn law_token_request_has_its_url(
    url: Seq<char>,
    shown_realm: Seq<char>,
    creds: Option<CredentialsView>,
)
    ensures
        token_request_with(Ok(url), shown_realm, creds) matches Ok(request) && request.url == url
            && request.headers.len() == 0 && request.basic_auth == creds,
        token_request_with(Err(url), shown_realm, creds) == Err::<RequestView, ErrorView>(
            ErrorView::Other("Invalid auth realm URL "@ + shown_realm + ": "@ + url),
        ),
{
}

/// The token in an answer is the text under `token`, and for registries other than Docker Hub, where
/// there is no such text, the one under `access_token`.
pub proof fn law_token_in_an_answer(answer: JsonView)
    ensures
        match answer.get("token"@) {
            Some(JsonView::Text(token)) => docker_token(answer) == Some(token) && bearer_token(
                answer,
            ) == Some(token),
            _ => docker_token(answer) is None && match answer.get("access_token"@) {
                Some(JsonView::Text(token)) => bearer_token(answer) == Some(token),
                _ => bearer_token(answer) is None,
            },
        },
        token_or_missing(docker_token(answer)) matches Ok(token) ==> docker_token(answer) == Some(
            token,
        ),
        docker_token(answer) is None ==> token_or_missing(docker_token(answer)) == Err::<
            Seq<char>,
            ErrorView,
        >(ErrorView::MissingField("No token in auth response"@)),
        docker_token(answer) is Some ==> token_or_missing(docker_token(answer)) is Ok,
{
}

/// `fetch_bearer_token` asks with the credentials that it is given, at a URL made of the realm, the
/// service and the scope of the challenge.
pub proof fn law_bearer_token_is_asked_for_with_the_credentials(
    c: &AuthChallenge,
    creds: Option<&RegistryCredentials>,
    res: Result<HttpRequest, ControllerError>,
    service: Seq<char>,
    scope: Seq<char>,
)
    requires
        call_ensures(fetch_bearer_token, (c, creds), res),
        c@.service == Some(service),
        c@.scope == Some(scope),
    ensures
        match url_with_params(c.realm@, seq![("service"@, service), ("scope"@, scope)]) {
            Ok(url) => res matches Ok(request) && request.url@ == url && request.headers@.len()
                == 0 && request.basic_auth.deep_view() == creds.deep_view(),
            Err(e) => res matches Err(error) && error@ == ErrorView::Other(
                "Invalid auth realm URL "@ + debug_text(c.realm@) + ": "@ + e,
            ),
        },
{
    law_token_request_is_what_the_challenge_asks_for(
        c@.realm,
        service,
        scope,
        creds.deep_view(),
        true,
        true,
    );
    if let Ok(request) = res {
        assert(request@.headers.len() == request.headers@.len());
    }
}

} // verus!
