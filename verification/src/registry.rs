//! How the digest of an image is had from its registry.
//!
//! A fetch is a conversation: a `Step` says which request to send next, that the body of the last
//! response is wanted, or what came of it all; `on_response` and `on_body` take the answer and
//! give the next step.

use vstd::prelude::*;
use vstd::string::*;
use crate::challenge::{challenge, lemma_challenge_len, parse_www_authenticate};
use crate::credentials::{copy_credentials, CredentialsView, RegistryCredentials};
use crate::digest::{body_digest, digest_body, MAX_BODY};
use crate::error::{ControllerError, ErrorView};
use crate::http::{
    header_text, header_to_str, pair_views, status_text, status_words, HttpRequest, HttpResponse,
    RequestView, ResponseView,
};
use crate::token::{
    ask_docker_token, bearer_token_in, docker_token_in, docker_token_request, fetch_bearer_token,
    read_bearer_token, read_docker_token, text_result, token_request,
};

verus! {

/// The manifests that Docker Hub is asked for.
pub const DOCKER_ACCEPT_HEADER: &'static str =
    "application/vnd.docker.distribution.manifest.v2+json";

/// The manifests that any other registry is asked for.
pub const MANIFEST_ACCEPT_HEADER: &'static str =
    "application/vnd.docker.distribution.manifest.v2+json,application/vnd.docker.distribution.manifest.list.v2+json,application/vnd.oci.image.manifest.v1+json,application/vnd.oci.image.index.v1+json";

/// An image by its parts.
#[derive(Debug)]
pub struct Target {
    pub registry: String,
    pub repository: String,
    pub tag: String,
}

/// `Target` over mathematical text.
#[verifier::ext_equal]
pub struct TargetView {
    pub registry: Seq<char>,
    pub repository: Seq<char>,
    pub tag: Seq<char>,
}

impl View for Target {
    type V = TargetView;

    open spec fn view(&self) -> TargetView {
        TargetView {
            registry: self.registry@,
            repository: self.repository@,
            tag: self.tag@,
        }
    }
}

/// What a response that is waited for answers.
#[derive(Debug)]
pub enum AwaitResponse {
    /// The request for a Docker Hub token.
    DockerToken { repository: String, tag: String },
    /// The request for a manifest on Docker Hub.
    DockerManifest,
    /// The first request for a manifest, without a token.
    Manifest { target: Target, creds: Option<RegistryCredentials> },
    /// The request for a bearer token.
    BearerToken { target: Target },
    /// The second request for a manifest, with a token.
    AuthorizedManifest { target: Target },
}

/// What a body that is waited for holds.
#[derive(Debug)]
pub enum AwaitBody {
    /// A Docker Hub token.
    DockerToken { repository: String, tag: String },
    /// A bearer token.
    BearerToken { target: Target },
    /// A manifest.
    Manifest,
}

/// What to do next.
#[derive(Debug)]
pub enum Step {
    /// Send the request, and answer with the response.
    Send(AwaitResponse, HttpRequest),
    /// Read the body of the last response, and answer with it.
    ReadBody(AwaitBody),
    /// The digest, or why there is none.
    Done(Result<String, ControllerError>),
}

/// `AwaitResponse` over mathematical text.
#[verifier::ext_equal]
pub enum AwaitResponseView {
    DockerToken { repository: Seq<char>, tag: Seq<char> },
    DockerManifest,
    Manifest { target: TargetView, creds: Option<CredentialsView> },
    BearerToken { target: TargetView },
    AuthorizedManifest { target: TargetView },
}

/// `AwaitBody` over mathematical text.
#[verifier::ext_equal]
pub enum AwaitBodyView {
    DockerToken { repository: Seq<char>, tag: Seq<char> },
    BearerToken { target: TargetView },
    Manifest,
}

/// `Step` over mathematical text.
#[verifier::ext_equal]
pub enum StepView {
    Send(AwaitResponseView, RequestView),
    ReadBody(AwaitBodyView),
    Done(Result<Seq<char>, ErrorView>),
}

impl View for AwaitResponse {
    type V = AwaitResponseView;

    open spec fn view(&self) -> AwaitResponseView {
        match self {
            AwaitResponse::DockerToken { repository, tag } => AwaitResponseView::DockerToken {
                repository: repository@,
                tag: tag@,
            },
            AwaitResponse::DockerManifest => AwaitResponseView::DockerManifest,
            AwaitResponse::Manifest { target, creds } => AwaitResponseView::Manifest {
                target: target@,
                creds: creds.deep_view(),
            },
            AwaitResponse::BearerToken { target } => AwaitResponseView::BearerToken {
                target: target@,
            },
            AwaitResponse::AuthorizedManifest { target } => AwaitResponseView::AuthorizedManifest {
                target: target@,
            },
        }
    }
}

impl View for AwaitBody {
    type V = AwaitBodyView;

    open spec fn view(&self) -> AwaitBodyView {
        match self {
            AwaitBody::DockerToken { repository, tag } => AwaitBodyView::DockerToken {
                repository: repository@,
                tag: tag@,
            },
            AwaitBody::BearerToken { target } => AwaitBodyView::BearerToken { target: target@ },
            AwaitBody::Manifest => AwaitBodyView::Manifest,
        }
    }
}

impl View for Step {
    type V = StepView;

    open spec fn view(&self) -> StepView {
        match self {
            Step::Send(state, request) => StepView::Send(state@, request@),
            Step::ReadBody(state) => StepView::ReadBody(state@),
            Step::Done(res) => StepView::Done(text_result(*res)),
        }
    }
}

/// The view of a response, or of why there is none.
pub open spec fn response_result(reply: Result<HttpResponse, String>) -> Result<
    ResponseView,
    Seq<char>,
> {
    match reply {
        Ok(response) => Ok(response@),
        Err(e) => Err(e@),
    }
}

/// The view of a body, or of why there is none.
pub open spec fn body_result(reply: Result<Vec<u8>, String>) -> Result<Seq<u8>, Seq<char>> {
    match reply {
        Ok(body) => Ok(body@),
        Err(e) => Err(e@),
    }
}

/// The header that carries a bearer token.
pub open spec fn authorization(token: Seq<char>) -> (Seq<char>, Seq<char>) {
    ("Authorization"@, "Bearer "@ + token)
}

/// The request for a manifest on Docker Hub.
pub open spec fn docker_manifest_request(
    repository: Seq<char>,
    tag: Seq<char>,
    token: Seq<char>,
) -> RequestView {
    RequestView {
        url: "https://registry-1.docker.io/v2/"@ + repository + "/manifests/"@ + tag,
        headers: seq![authorization(token), ("Accept"@, DOCKER_ACCEPT_HEADER@)],
        basic_auth: None,
    }
}

/// The request for a manifest on any other registry.
pub open spec fn manifest_request(target: TargetView, token: Option<Seq<char>>) -> RequestView {
    let accept = seq![("Accept"@, MANIFEST_ACCEPT_HEADER@)];
    RequestView {
        url: "https://"@ + target.registry + "/v2/"@ + target.repository + "/manifests/"@
            + target.tag,
        headers: match token {
            Some(token) => accept.push(authorization(token)),
            None => accept,
        },
        basic_auth: None,
    }
}

/// The error for a 401 whose challenge cannot be read.
pub open spec fn no_challenge(registry: Seq<char>) -> ErrorView {
    ErrorView::Other(
        registry + " returned 401 with no parseable WWW-Authenticate challenge"@,
    )
}

/// The error for a manifest that was refused with a status in these words.
pub open spec fn refused(target: TargetView, words: Seq<char>) -> ErrorView {
    ErrorView::Other(
        target.registry + " returned status "@ + words + " for "@ + target.registry + "/"@
            + target.repository + ":"@ + target.tag,
    )
}

/// The error for a token that was refused with a status in these words.
pub open spec fn token_refused(words: Seq<char>) -> ErrorView {
    ErrorView::Other("Token endpoint returned status "@ + words)
}

/// What a response says of the digest: it has the digest in a header, or else the body is hashed.
pub open spec fn digest_or_body(response: ResponseView) -> StepView {
    match response.digest {
        Some(value) => StepView::Done(
            match header_text(value) {
                Some(digest) => Ok(digest),
                None => Err(ErrorView::ToStrError),
            },
        ),
        None => StepView::ReadBody(AwaitBodyView::Manifest),
    }
}

/// What a response with a manifest on a registry other than Docker Hub says of the digest.
pub open spec fn checked_digest(target: TargetView, response: ResponseView) -> StepView {
    if response.success() {
        digest_or_body(response)
    } else {
        StepView::Done(Err(refused(target, status_words(response.status))))
    }
}

/// What a 401 leads to: the token request that its challenge asks for.
pub open spec fn answer_challenge(
    target: TargetView,
    creds: Option<CredentialsView>,
    response: ResponseView,
) -> StepView {
    let parsed = match response.challenge {
        Some(value) => match header_text(value) {
            Some(text) => challenge(text),
            None => None,
        },
        None => None,
    };
    match parsed {
        Some(c) => match token_request(c, creds) {
            Ok(request) => StepView::Send(AwaitResponseView::BearerToken { target }, request),
            Err(e) => StepView::Done(Err(e)),
        },
        None => StepView::Done(Err(no_challenge(target.registry))),
    }
}

/// The step that follows a response.
pub open spec fn after_response(
    state: AwaitResponseView,
    reply: Result<ResponseView, Seq<char>>,
) -> StepView {
    match reply {
        Err(e) => StepView::Done(Err(ErrorView::HttpError(e))),
        Ok(response) => match state {
            AwaitResponseView::DockerToken { repository, tag } => StepView::ReadBody(
                AwaitBodyView::DockerToken { repository, tag },
            ),
            AwaitResponseView::DockerManifest => digest_or_body(response),
            AwaitResponseView::Manifest { target, creds } => if response.unauthorized() {
                answer_challenge(target, creds, response)
            } else {
                checked_digest(target, response)
            },
            AwaitResponseView::BearerToken { target } => if response.success() {
                StepView::ReadBody(AwaitBodyView::BearerToken { target })
            } else {
                StepView::Done(Err(token_refused(status_words(response.status))))
            },
            AwaitResponseView::AuthorizedManifest { target } => checked_digest(target, response),
        },
    }
}

/// The step that follows a body.
pub open spec fn after_body(
    state: AwaitBodyView,
    reply: Result<Seq<u8>, Seq<char>>,
) -> StepView {
    match reply {
        Err(e) => StepView::Done(Err(ErrorView::HttpError(e))),
        Ok(body) => match state {
            AwaitBodyView::DockerToken { repository, tag } => match docker_token_in(body) {
                Ok(token) => StepView::Send(
                    AwaitResponseView::DockerManifest,
                    docker_manifest_request(repository, tag, token),
                ),
                Err(e) => StepView::Done(Err(e)),
            },
            AwaitBodyView::BearerToken { target } => match bearer_token_in(body) {
                Ok(token) => StepView::Send(
                    AwaitResponseView::AuthorizedManifest { target },
                    manifest_request(target, Some(token)),
                ),
                Err(e) => StepView::Done(Err(e)),
            },
            AwaitBodyView::Manifest => StepView::Done(Ok(body_digest(body))),
        },
    }
}

/// The first step of a fetch from Docker Hub.
pub open spec fn dockerhub_start(
    repository: Seq<char>,
    tag: Seq<char>,
    creds: Option<CredentialsView>,
) -> StepView {
    StepView::Send(
        AwaitResponseView::DockerToken { repository, tag },
        docker_token_request(repository, creds),
    )
}

/// The first step of a fetch from any other registry.
pub open spec fn generic_start(target: TargetView, creds: Option<CredentialsView>) -> StepView {
    StepView::Send(AwaitResponseView::Manifest { target, creds }, manifest_request(target, None))
}

/// Starts a fetch from Docker Hub.
pub fn fetch_dockerhub_digest(
    repository: &str,
    tag: &str,
    creds: Option<&RegistryCredentials>,
) -> (res: Step)
    ensures
        res@ == dockerhub_start(repository@, tag@, creds.deep_view()),
{
    Step::Send(
        AwaitResponse::DockerToken { repository: repository.to_owned(), tag: tag.to_owned() },
        ask_docker_token(repository, creds),
    )
}

/// Starts a fetch from any other registry.
pub fn fetch_generic_registry_digest(
    registry: &str,
    repository: &str,
    tag: &str,
    creds: Option<&RegistryCredentials>,
) -> (res: Step)
    ensures
        res@ == generic_start(
            TargetView { registry: registry@, repository: repository@, tag: tag@ },
            creds.deep_view(),
        ),
{
    let target: Target = Target {
        registry: registry.to_owned(),
        repository: repository.to_owned(),
        tag: tag.to_owned(),
    };
    let request: HttpRequest = ask_manifest(&target, None);
    Step::Send(AwaitResponse::Manifest { target, creds: copy_credentials(creds) }, request)
}

/// The request for a manifest on Docker Hub.
fn ask_docker_manifest(repository: &str, tag: &str, token: &str) -> (res: HttpRequest)
    ensures
        res@ == docker_manifest_request(repository@, tag@, token@),
{
    let mut headers: Vec<(String, String)> = Vec::new();
    headers.push(("Authorization".to_owned(), "Bearer ".to_owned().concat(token)));
    headers.push(("Accept".to_owned(), DOCKER_ACCEPT_HEADER.to_owned()));
    assert(pair_views(headers@) =~= seq![
        authorization(token@),
        ("Accept"@, DOCKER_ACCEPT_HEADER@),
    ]);
    HttpRequest {
        url: "https://registry-1.docker.io/v2/".to_owned().concat(repository).concat(
            "/manifests/",
        ).concat(tag),
        headers,
        basic_auth: None,
    }
}

/// The request for a manifest on any other registry.
fn ask_manifest(target: &Target, token: Option<&str>) -> (res: HttpRequest)
    ensures
        res@ == manifest_request(target@, token.deep_view()),
{
    let mut headers: Vec<(String, String)> = Vec::new();
    headers.push(("Accept".to_owned(), MANIFEST_ACCEPT_HEADER.to_owned()));
    if let Some(token) = token {
        headers.push(("Authorization".to_owned(), "Bearer ".to_owned().concat(token)));
    }
    assert(pair_views(headers@) =~= manifest_request(target@, token.deep_view()).headers);
    HttpRequest {
        url: "https://".to_owned().concat(target.registry.as_str()).concat("/v2/").concat(
            target.repository.as_str(),
        ).concat("/manifests/").concat(target.tag.as_str()),
        headers,
        basic_auth: None,
    }
}

/// The error for a manifest that was refused with a status in these words.
pub fn refused_manifest(target: &Target, words: &str) -> (res: ControllerError)
    ensures
        res@ == refused(target@, words@),
{
    ControllerError::Other(
        target.registry.clone().concat(" returned status ").concat(words).concat(" for ").concat(
            target.registry.as_str(),
        ).concat("/").concat(target.repository.as_str()).concat(":").concat(target.tag.as_str()),
    )
}

/// The error for a token that was refused with a status in these words.
pub fn refused_token(words: &str) -> (res: ControllerError)
    ensures
        res@ == token_refused(words@),
{
    ControllerError::Other("Token endpoint returned status ".to_owned().concat(words))
}

fn step_of_digest_header(response: &HttpResponse) -> (res: Step)
    ensures
        res@ == digest_or_body(response@),
{
    match response.digest() {
        Some(value) => match header_to_str(value) {
            Some(digest) => Step::Done(Ok(digest)),
            None => Step::Done(Err(ControllerError::ToStrError)),
        },
        None => Step::ReadBody(AwaitBody::Manifest),
    }
}

fn step_of_manifest(target: &Target, response: &HttpResponse) -> (res: Step)
    ensures
        res@ == checked_digest(target@, response@),
{
    if response.is_success() {
        step_of_digest_header(response)
    } else {
        let words: String = status_text(response.status());
        Step::Done(Err(refused_manifest(target, words.as_str())))
    }
}

fn step_of_challenge(
    target: Target,
    creds: Option<&RegistryCredentials>,
    response: &HttpResponse,
) -> (res: Step)
    ensures
        res@ == answer_challenge(target@, creds.deep_view(), response@),
{
    if let Some(value) = response.challenge() {
        if let Some(text) = header_to_str(value) {
            if let Some(c) = parse_www_authenticate(text.as_str()) {
                proof {
                    assert(text@.len() == value@.len());
                    lemma_challenge_len(text@);
                }
                return match fetch_bearer_token(&c, creds) {
                    Ok(request) => Step::Send(AwaitResponse::BearerToken { target }, request),
                    Err(e) => Step::Done(Err(e)),
                };
            }
        }
    }
    Step::Done(
        Err(
            ControllerError::Other(
                target.registry.concat(
                    " returned 401 with no parseable WWW-Authenticate challenge",
                ),
            ),
        ),
    )
}

/// Takes a response, or the words for why there is none.
pub fn on_response(state: AwaitResponse, reply: Result<HttpResponse, String>) -> (res: Step)
    ensures
        res@ == after_response(state@, response_result(reply)),
{
    let response: HttpResponse = match reply {
        Ok(response) => response,
        Err(e) => {
            return Step::Done(Err(ControllerError::HttpError(e)));
        },
    };
    match state {
        AwaitResponse::DockerToken { repository, tag } => Step::ReadBody(
            AwaitBody::DockerToken { repository, tag },
        ),
        AwaitResponse::DockerManifest => step_of_digest_header(&response),
        AwaitResponse::Manifest { target, creds } => {
            if response.is_unauthorized() {
                step_of_challenge(target, creds.as_ref(), &response)
            } else {
                step_of_manifest(&target, &response)
            }
        },
        AwaitResponse::BearerToken { target } => {
            if response.is_success() {
                Step::ReadBody(AwaitBody::BearerToken { target })
            } else {
                let words: String = status_text(response.status());
                Step::Done(Err(refused_token(words.as_str())))
            }
        },
        AwaitResponse::AuthorizedManifest { target } => step_of_manifest(&target, &response),
    }
}

/// Takes a body, or the words for why there is none. A body has at most `MAX_BODY` bytes.
pub fn on_body(state: AwaitBody, reply: Result<Vec<u8>, String>) -> (res: Step)
    requires
        reply matches Ok(body) ==> body@.len() <= MAX_BODY,
    ensures
        res@ == after_body(state@, body_result(reply)),
{
    let body: Vec<u8> = match reply {
        Ok(body) => body,
        Err(e) => {
            return Step::Done(Err(ControllerError::HttpError(e)));
        },
    };
    match state {
        AwaitBody::DockerToken { repository, tag } => match read_docker_token(body.as_slice()) {
            Ok(token) => Step::Send(
                AwaitResponse::DockerManifest,
                ask_docker_manifest(repository.as_str(), tag.as_str(), token.as_str()),
            ),
            Err(e) => Step::Done(Err(e)),
        },
        AwaitBody::BearerToken { target } => match read_bearer_token(body.as_slice()) {
            Ok(token) => {
                let request: HttpRequest = ask_manifest(&target, Some(token.as_str()));
                Step::Send(AwaitResponse::AuthorizedManifest { target }, request)
            },
            Err(e) => Step::Done(Err(e)),
        },
        AwaitBody::Manifest => Step::Done(Ok(digest_body(body.as_slice()))),
    }
}

/// A manifest is asked for at the registry under the repository and the tag, all three as they are,
/// with the token where there is one, for any kind of manifest, and without credentials. The token
/// changes nothing of the URL.
pub proof fn law_manifest_is_asked_for_by_its_parts(target: TargetView, token: Seq<char>)
    ensures
        ({
            let url = "https://"@ + target.registry + "/v2/"@ + target.repository
                + "/manifests/"@ + target.tag;
            let accept = (
                "Accept"@,
                "application/vnd.docker.distribution.manifest.v2+json,application/vnd.docker.distribution.manifest.list.v2+json,application/vnd.oci.image.manifest.v1+json,application/vnd.oci.image.index.v1+json"@,
            );
            &&& manifest_request(target, None).url == url
            &&& manifest_request(target, None).headers == seq![accept]
            &&& manifest_request(target, None).basic_auth is None
            &&& manifest_request(target, Some(token)).url == url
            &&& manifest_request(target, Some(token)).headers == seq![
                accept,
                ("Authorization"@, "Bearer "@ + token),
            ]
            &&& manifest_request(target, Some(token)).basic_auth is None
        }),
{
    assert(manifest_request(target, Some(token)).headers =~= seq![
        ("Accept"@, MANIFEST_ACCEPT_HEADER@),
        ("Authorization"@, "Bearer "@ + token),
    ]);
}

/// A manifest on Docker Hub is asked for at its registry under the repository and the tag, both as
/// they are, with the token and without credentials.
pub proof fn law_docker_manifest_is_asked_for_by_its_parts(
    repository: Seq<char>,
    tag: Seq<char>,
    token: Seq<char>,
)
    ensures
        ({
            let request = docker_manifest_request(repository, tag, token);
            &&& request.url == "https://registry-1.docker.io/v2/"@ + repository + "/manifests/"@
                + tag
            &&& request.headers == seq![
                ("Authorization"@, "Bearer "@ + token),
                ("Accept"@, "application/vnd.docker.distribution.manifest.v2+json"@),
            ]
            &&& request.basic_auth is None
        }),
{
}

/// A refused manifest is told with its registry, its repository, its tag and the status, a refused
/// token with the status, and a challenge that cannot be read with the registry.
pub proof fn law_refusals_tell_who_refused_what(target: TargetView, words: Seq<char>)
    ensures
        refused(target, words) == ErrorView::Other(
            target.registry + " returned status "@ + words + " for "@ + target.registry + "/"@
                + target.repository + ":"@ + target.tag,
        ),
        token_refused(words) == ErrorView::Other("Token endpoint returned status "@ + words),
        no_challenge(target.registry) == ErrorView::Other(
            target.registry + " returned 401 with no parseable WWW-Authenticate challenge"@,
        ),
{
}

/// The first request of a fetch from Docker Hub is the one for a token to pull the repository, with
/// the credentials, and what is remembered is the repository and the tag.
pub proof fn law_dockerhub_fetch_starts_with_a_token(
    repository: Seq<char>,
    tag: Seq<char>,
    creds: Option<CredentialsView>,
)
    ensures
        dockerhub_start(repository, tag, creds) matches StepView::Send(state, request) && {
            &&& state == AwaitResponseView::DockerToken { repository, tag }
            &&& request.url
                == "https://auth.docker.io/token?service=registry.docker.io&scope=repository:"@
                + repository + ":pull"@
            &&& request.headers.len() == 0
            &&& request.basic_auth == creds
        },
{
}

/// The first request of a fetch from any other registry is the one for the manifest, without a
/// token, and what is remembered is the image and the credentials.
pub proof fn law_generic_fetch_starts_with_the_manifest(
    target: TargetView,
    creds: Option<CredentialsView>,
)
    ensures
        generic_start(target, creds) matches StepView::Send(state, request) && {
            &&& state == AwaitResponseView::Manifest { target, creds }
            &&& request.url == "https://"@ + target.registry + "/v2/"@ + target.repository
                + "/manifests/"@ + target.tag
            &&& request == manifest_request(target, None)
            &&& request.basic_auth is None
        },
{
}

/// What cannot be sent or received ends a fetch, with the words for it.
pub proof fn law_failed_exchanges_end_a_fetch(
    response_state: AwaitResponseView,
    body_state: AwaitBodyView,
    words: Seq<char>,
)
    ensures
        after_response(response_state, Err(words)) == StepView::Done(
            Err(ErrorView::HttpError(words)),
        ),
        after_body(body_state, Err(words)) == StepView::Done(Err(ErrorView::HttpError(words))),
{
}

/// A response with a manifest has the digest in its header, as text, or else in its body, as the
/// body's hash. Docker Hub's counts whatever its status; that of another registry has to have a
/// status of success, the second time as the first, and a 401 the first time is no refusal.
pub proof fn law_manifest_response_gives_the_digest(
    target: TargetView,
    creds: Option<CredentialsView>,
    response: ResponseView,
    body: Seq<u8>,
)
    ensures
        ({
            let by_header = match response.digest {
                Some(value) => match header_text(value) {
                    Some(digest) => StepView::Done(Ok(digest)),
                    None => StepView::Done(Err(ErrorView::ToStrError)),
                },
                None => StepView::ReadBody(AwaitBodyView::Manifest),
            };
            let first = AwaitResponseView::Manifest { target, creds };
            let second = AwaitResponseView::AuthorizedManifest { target };
            let refusal = StepView::Done(
                Err(
                    ErrorView::Other(
                        target.registry + " returned status "@ + status_words(response.status)
                            + " for "@ + target.registry + "/"@ + target.repository + ":"@
                            + target.tag,
                    ),
                ),
            );
            let success = 200 <= response.status <= 299;
            &&& after_response(AwaitResponseView::DockerManifest, Ok(response)) == by_header
            &&& success ==> after_response(first, Ok(response)) == by_header
            &&& success ==> after_response(second, Ok(response)) == by_header
            &&& !success && response.status != 401 ==> after_response(first, Ok(response))
                == refusal
            &&& !success ==> after_response(second, Ok(response)) == refusal
            &&& after_body(AwaitBodyView::Manifest, Ok(body)) == StepView::Done(
                Ok(body_digest(body)),
            )
        }),
{
}

/// A 401 to the first request for a manifest is answered with the token request that its challenge
/// asks for, with the credentials; without a challenge that can be read the fetch ends.
pub proof fn law_challenge_is_answered(
    target: TargetView,
    creds: Option<CredentialsView>,
    response: ResponseView,
)
    requires
        response.status == 401,
    ensures
        ({
            let next = after_response(
                AwaitResponseView::Manifest { target, creds },
                Ok(response),
            );
            let unreadable = StepView::Done(
                Err(
                    ErrorView::Other(
                        target.registry
                            + " returned 401 with no parseable WWW-Authenticate challenge"@,
                    ),
                ),
            );
            match response.challenge {
                Some(value) => match header_text(value) {
                    Some(text) => match challenge(text) {
                        Some(c) => match token_request(c, creds) {
                            Ok(request) => next == StepView::Send(
                                AwaitResponseView::BearerToken { target },
                                request,
                            ),
                            Err(e) => next == StepView::Done(Err(e)),
                        },
                        None => next == unreadable,
                    },
                    None => next == unreadable,
                },
                None => next == unreadable,
            }
        }),
{
}

/// A token that came is used: the manifest of the same image is asked for with it. The answer to a
/// request for a bearer token has to have a status of success; that of Docker Hub is read whatever
/// its status. Without a token the fetch ends.
pub proof fn law_token_is_used_for_the_image(
    target: TargetView,
    response: ResponseView,
    body: Seq<u8>,
)
    ensures
        ({
            let repository = target.repository;
            let tag = target.tag;
            &&& after_response(AwaitResponseView::DockerToken { repository, tag }, Ok(response))
                == StepView::ReadBody(AwaitBodyView::DockerToken { repository, tag })
            &&& after_response(AwaitResponseView::BearerToken { target }, Ok(response)) == if 200
                <= response.status <= 299 {
                StepView::ReadBody(AwaitBodyView::BearerToken { target })
            } else {
                StepView::Done(
                    Err(
                        ErrorView::Other(
                            "Token endpoint returned status "@ + status_words(response.status),
                        ),
                    ),
                )
            }
            &&& match docker_token_in(body) {
                Ok(token) => after_body(AwaitBodyView::DockerToken { repository, tag }, Ok(body))
                    matches StepView::Send(state, request) && {
                    &&& state is DockerManifest
                    &&& request == docker_manifest_request(repository, tag, token)
                    &&& request.url == "https://registry-1.docker.io/v2/"@ + repository
                        + "/manifests/"@ + tag
                    &&& request.headers.contains(("Authorization"@, "Bearer "@ + token))
                    &&& request.basic_auth is None
                },
                Err(e) => after_body(AwaitBodyView::DockerToken { repository, tag }, Ok(body))
                    == StepView::Done(Err(e)),
            }
            &&& match bearer_token_in(body) {
                Ok(token) => after_body(AwaitBodyView::BearerToken { target }, Ok(body)) matches
                    StepView::Send(state, request) && {
                    &&& state == AwaitResponseView::AuthorizedManifest { target }
                    &&& request == manifest_request(target, Some(token))
                    &&& request.url == "https://"@ + target.registry + "/v2/"@
                        + target.repository + "/manifests/"@ + target.tag
                    &&& request.headers.contains(("Authorization"@, "Bearer "@ + token))
                    &&& request.basic_auth is None
                },
                Err(e) => after_body(AwaitBodyView::BearerToken { target }, Ok(body))
                    == StepView::Done(Err(e)),
            }
        }),
{
    if let Ok(token) = docker_token_in(body) {
        let request = docker_manifest_request(target.repository, target.tag, token);
        assert(request.headers[0] == ("Authorization"@, "Bearer "@ + token));
    }
    if let Ok(token) = bearer_token_in(body) {
        let request = manifest_request(target, Some(token));
        assert(request.headers[1] == ("Authorization"@, "Bearer "@ + token));
    }
}

/// Steps and what they wait for are seen as they are, and so are responses, bodies and the words for
/// why there are none.
pub proof fn law_steps_are_seen_as_they_are(
    step: Step,
    target: Target,
    response: HttpResponse,
    body: Vec<u8>,
    words: String,
)
    ensures
        target@.registry == target.registry@,
        target@.repository == target.repository@,
        target@.tag == target.tag@,
        response_result(Ok(response)) == Ok::<ResponseView, Seq<char>>(response@),
        response_result(Err(words)) == Err::<ResponseView, Seq<char>>(words@),
        body_result(Ok(body)) == Ok::<Seq<u8>, Seq<char>>(body@),
        body_result(Err(words)) == Err::<Seq<u8>, Seq<char>>(words@),
        match step {
            Step::Send(state, request) => {
                &&& step@ == StepView::Send(state@, request@)
                &&& match state {
                    AwaitResponse::DockerToken { repository, tag } => state@
                        == (AwaitResponseView::DockerToken {
                        repository: repository@,
                        tag: tag@,
                    }),
                    AwaitResponse::DockerManifest => state@ == AwaitResponseView::DockerManifest,
                    AwaitResponse::Manifest { target, creds: Some(creds) } => state@
                        == (AwaitResponseView::Manifest {
                        target: target@,
                        creds: Some(creds@),
                    }),
                    AwaitResponse::Manifest { target, creds: None } => state@
                        == (AwaitResponseView::Manifest { target: target@, creds: None }),
                    AwaitResponse::BearerToken { target } => state@
                        == (AwaitResponseView::BearerToken { target: target@ }),
                    AwaitResponse::AuthorizedManifest { target } => state@
                        == (AwaitResponseView::AuthorizedManifest { target: target@ }),
                }
            },
            Step::ReadBody(state) => {
                &&& step@ == StepView::ReadBody(state@)
                &&& match state {
                    AwaitBody::DockerToken { repository, tag } => state@
                        == (AwaitBodyView::DockerToken { repository: repository@, tag: tag@ }),
                    AwaitBody::BearerToken { target } => state@ == (AwaitBodyView::BearerToken {
                        target: target@,
                    }),
                    AwaitBody::Manifest => state@ == AwaitBodyView::Manifest,
                }
            },
            Step::Done(Ok(digest)) => step@ == StepView::Done(Ok(digest@)),
            Step::Done(Err(error)) => step@ == StepView::Done(Err(error@)),
        },
{
}

/// `fetch_generic_registry_digest` sends its request to the URL of the manifest: the registry, the
/// repository and the tag as they are. So does `on_body` once there is a token for the image.
pub proof fn law_manifest_requests_go_to_the_image(
    registry: &str,
    repository: &str,
    tag: &str,
    creds: Option<&RegistryCredentials>,
    started: Step,
    target: Target,
    reply: Result<Vec<u8>, String>,
    followed: Step,
)
    requires
        call_ensures(fetch_generic_registry_digest, (registry, repository, tag, creds), started),
        call_ensures(on_body, (AwaitBody::BearerToken { target }, reply), followed),
    ensures
        started matches Step::Send(state, request) && {
            &&& request.url@ == "https://"@ + registry@ + "/v2/"@ + repository@ + "/manifests/"@
                + tag@
            &&& request.basic_auth is None
            &&& state@ == (AwaitResponseView::Manifest {
                target: TargetView { registry: registry@, repository: repository@, tag: tag@ },
                creds: creds.deep_view(),
            })
        },
        followed matches Step::Send(_, request) ==> request.url@ == "https://"@
            + target.registry@ + "/v2/"@ + target.repository@ + "/manifests/"@ + target.tag@,
        reply matches Ok(body) && bearer_token_in(body@) is Ok ==> followed is Send,
{
}

/// `fetch_dockerhub_digest` asks for a token to pull the repository, with the credentials, and
/// `on_body` asks with the token for the manifest of the repository and the tag, both as they are.
pub proof fn law_docker_hub_requests_go_to_the_image(
    repository: &str,
    tag: &str,
    creds: Option<&RegistryCredentials>,
    started: Step,
    kept_repository: String,
    kept_tag: String,
    reply: Result<Vec<u8>, String>,
    followed: Step,
)
    requires
        call_ensures(fetch_dockerhub_digest, (repository, tag, creds), started),
        call_ensures(
            on_body,
            (
                AwaitBody::DockerToken { repository: kept_repository, tag: kept_tag },
                reply,
            ),
            followed,
        ),
    ensures
        started matches Step::Send(state, request) && {
            &&& request.url@
                == "https://auth.docker.io/token?service=registry.docker.io&scope=repository:"@
                + repository@ + ":pull"@
            &&& request.basic_auth.deep_view() == creds.deep_view()
            &&& state@ == (AwaitResponseView::DockerToken { repository: repository@, tag: tag@ })
        },
        followed matches Step::Send(_, request) ==> request.url@
            == "https://registry-1.docker.io/v2/"@ + kept_repository@ + "/manifests/"@ + kept_tag@,
        reply matches Ok(body) && docker_token_in(body@) is Ok ==> followed is Send,
{
}

} // verus!
