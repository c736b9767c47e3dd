//! What a whole search for a digest comes to, whatever secrets hold and registries answer.

use vstd::prelude::*;
use vstd::string::*;
use crate::challenge::{challenge, ChallengeView};
use crate::credentials::{secret_credentials, CredentialsView};
use crate::digest::body_digest;
use crate::error::ErrorView;
use crate::http::{header_text, status_words, RequestView, ResponseView};
use crate::image::{
    bare_name, law_reference_is_read_back, written_reference, written_rest, DOCKER_HUB,
};
use crate::patch::{
    annotations_part, law_rollout_stores_digest_and_restarts, law_stored_digest_is_read_back,
    patched, rollout_body, rollout_patch, store_body, template_part, PatchView, DIGEST_ANNOTATION,
    RESTART_ANNOTATION,
};
use crate::reconcile::{
    after_secret, decision, digest_search, fetch_start, job_of, law_decision_is_about_the_digest,
    law_last_digest_is_that_of_the_annotation, law_patch_does_what_was_decided, leads_to,
    reply_credentials, search, target_of, DecisionView, Deployment, JobView, ProgressView,
};
use crate::registry::{
    after_body, after_response, docker_manifest_request,
    law_docker_manifest_is_asked_for_by_its_parts, law_manifest_is_asked_for_by_its_parts,
    manifest_request, no_challenge, refused, token_refused, AwaitBodyView, AwaitResponseView,
    StepView, TargetView,
};
use crate::token::{
    bearer_token_in, docker_token_in, docker_token_request,
    law_docker_token_is_for_the_repository, token_request,
};

verus! {

/// How registries answer: the response to a request, and the body of that response, or the words
/// for why there is none. No request is sent twice in one conversation.
pub struct World {
    pub send: spec_fn(RequestView) -> Result<ResponseView, Seq<char>>,
    pub body: spec_fn(RequestView) -> Result<Seq<u8>, Seq<char>>,
}

/// The most steps that a conversation still takes.
pub open spec fn steps_left(step: StepView) -> nat {
    match step {
        StepView::Done(_) => 0,
        StepView::ReadBody(AwaitBodyView::Manifest) => 1,
        StepView::Send(AwaitResponseView::DockerManifest, _) => 2,
        StepView::Send(AwaitResponseView::AuthorizedManifest { .. }, _) => 2,
        StepView::ReadBody(_) => 3,
        StepView::Send(AwaitResponseView::DockerToken { .. }, _) => 4,
        StepView::Send(AwaitResponseView::BearerToken { .. }, _) => 4,
        StepView::Send(AwaitResponseView::Manifest { .. }, _) => 5,
    }
}

/// Every answer brings a conversation nearer to its end, which takes at most five answers.
pub proof fn law_conversations_end(
    response_state: AwaitResponseView,
    request: RequestView,
    response: Result<ResponseView, Seq<char>>,
    body_state: AwaitBodyView,
    body: Result<Seq<u8>, Seq<char>>,
)
    ensures
        steps_left(after_response(response_state, response)) < steps_left(
            StepView::Send(response_state, request),
        ) <= 5,
        steps_left(after_body(body_state, body)) < steps_left(StepView::ReadBody(body_state)) <= 3,
{
}

/// How many headers a request has that is answered in `state`.
pub open spec fn header_count(state: AwaitResponseView) -> nat {
    match state {
        AwaitResponseView::DockerToken { .. } => 0,
        AwaitResponseView::BearerToken { .. } => 0,
        AwaitResponseView::Manifest { .. } => 1,
        AwaitResponseView::DockerManifest => 2,
        AwaitResponseView::AuthorizedManifest { .. } => 2,
    }
}

/// No request is sent twice in one conversation: requests that are answered in different states of
/// it have different numbers of headers, and no state comes twice.
pub proof fn law_no_request_is_sent_twice(
    target: TargetView,
    creds: Option<CredentialsView>,
    response_state: AwaitResponseView,
    response: Result<ResponseView, Seq<char>>,
    body_state: AwaitBodyView,
    body: Result<Seq<u8>, Seq<char>>,
)
    ensures
        fetch_start(target, creds) matches StepView::Send(state, request) && request.headers.len()
            == header_count(state),
        after_response(response_state, response) matches StepView::Send(state, request)
            ==> request.headers.len() == header_count(state) && header_count(state)
            != header_count(response_state),
        after_body(body_state, body) matches StepView::Send(state, request) ==> {
            &&& request.headers.len() == header_count(state)
            &&& header_count(state) == 2
            &&& after_response(state, response) !is Send
        },
{
}

/// What a conversation comes to that goes on with `step`, where `last` is the request that was
/// sent last.
pub open spec fn carried_out(world: World, step: StepView, last: RequestView) -> Result<
    Seq<char>,
    ErrorView,
>
    decreases steps_left(step),
{
    match step {
        StepView::Done(res) => res,
        StepView::Send(state, request) => carried_out(
            world,
            after_response(state, (world.send)(request)),
            request,
        ),
        StepView::ReadBody(state) => carried_out(
            world,
            after_body(state, (world.body)(last)),
            last,
        ),
    }
}

/// The digest of a manifest that `response` brought: the one in its header, or else the hash of
/// its body.
pub open spec fn manifest_digest(
    response: ResponseView,
    body: Result<Seq<u8>, Seq<char>>,
) -> Result<Seq<char>, ErrorView> {
    match response.digest {
        Some(value) => match header_text(value) {
            Some(digest) => Ok(digest),
            None => Err(ErrorView::ToStrError),
        },
        None => match body {
            Ok(body) => Ok(body_digest(body)),
            Err(e) => Err(ErrorView::HttpError(e)),
        },
    }
}

/// The digest of an image on Docker Hub: a token is had first, and whatever then comes for a
/// manifest counts.
pub open spec fn dockerhub_digest(
    world: World,
    repository: Seq<char>,
    tag: Seq<char>,
    creds: Option<CredentialsView>,
) -> Result<Seq<char>, ErrorView> {
    let ask_token = docker_token_request(repository, creds);
    match ((world.send)(ask_token), (world.body)(ask_token)) {
        (Err(e), _) => Err(ErrorView::HttpError(e)),
        (Ok(_), Err(e)) => Err(ErrorView::HttpError(e)),
        (Ok(_), Ok(answer)) => match docker_token_in(answer) {
            Err(e) => Err(e),
            Ok(token) => {
                let ask = docker_manifest_request(repository, tag, token);
                match (world.send)(ask) {
                    Err(e) => Err(ErrorView::HttpError(e)),
                    Ok(response) => manifest_digest(response, (world.body)(ask)),
                }
            },
        },
    }
}

/// The digest of a manifest that is asked for with `ask` and has to come with success.
pub open spec fn accepted_digest(world: World, target: TargetView, ask: RequestView) -> Result<
    Seq<char>,
    ErrorView,
> {
    match (world.send)(ask) {
        Err(e) => Err(ErrorView::HttpError(e)),
        Ok(response) => if response.success() {
            manifest_digest(response, (world.body)(ask))
        } else {
            Err(refused(target, status_words(response.status)))
        },
    }
}

/// The bearer token that is asked for with `ask`.
pub open spec fn granted_token(world: World, ask: RequestView) -> Result<Seq<char>, ErrorView> {
    match (world.send)(ask) {
        Err(e) => Err(ErrorView::HttpError(e)),
        Ok(response) => if response.success() {
            match (world.body)(ask) {
                Err(e) => Err(ErrorView::HttpError(e)),
                Ok(answer) => bearer_token_in(answer),
            }
        } else {
            Err(token_refused(status_words(response.status)))
        },
    }
}

/// The bearer token that a 401 asks for.
pub open spec fn challenged_token(
    world: World,
    target: TargetView,
    creds: Option<CredentialsView>,
    response: ResponseView,
) -> Result<Seq<char>, ErrorView> {
    let text = match response.challenge {
        Some(value) => header_text(value),
        None => None,
    };
    let parsed = match text {
        Some(text) => challenge(text),
        None => None,
    };
    match parsed {
        None => Err(no_challenge(target.registry)),
        Some(c) => match token_request(c, creds) {
            Err(e) => Err(e),
            Ok(ask) => granted_token(world, ask),
        },
    }
}

/// The digest of an image on any other registry: the manifest is asked for without a token, and
/// once more with one where the registry wants it.
pub open spec fn generic_digest(
    world: World,
    target: TargetView,
    creds: Option<CredentialsView>,
) -> Result<Seq<char>, ErrorView> {
    let ask = manifest_request(target, None);
    match (world.send)(ask) {
        Ok(response) if response.unauthorized() => match challenged_token(
            world,
            target,
            creds,
            response,
        ) {
            Err(e) => Err(e),
            Ok(token) => accepted_digest(world, target, manifest_request(target, Some(token))),
        },
        _ => accepted_digest(world, target, ask),
    }
}

/// The digest of an image.
pub open spec fn registry_digest(
    world: World,
    target: TargetView,
    creds: Option<CredentialsView>,
) -> Result<Seq<char>, ErrorView> {
    if target.registry == DOCKER_HUB@ || target.registry.len() == 0 {
        dockerhub_digest(world, target.repository, target.tag, creds)
    } else {
        generic_digest(world, target, creds)
    }
}

/// A fetch that is carried out to its end comes to the digest of the image, or to the first thing
/// that went wrong.
pub proof fn law_fetch_comes_to_the_digest(
    world: World,
    target: TargetView,
    creds: Option<CredentialsView>,
    last: RequestView,
)
    ensures
        carried_out(world, fetch_start(target, creds), last) == registry_digest(
            world,
            target,
            creds,
        ),
{
    reveal_with_fuel(carried_out, 6);
}

/// What secrets hold, by namespace and name: the data of a secret, or nothing where it has none or
/// cannot be read. A secret that is read twice in one search holds the same both times.
pub type Secrets = spec_fn(Seq<char>, Seq<char>) -> Option<Seq<(Seq<char>, Seq<u8>)>>;

/// The credentials for `registry` in the first of the secrets `names` that has some.
pub open spec fn found_credentials(
    secrets: Secrets,
    namespace: Seq<char>,
    names: Seq<Seq<char>>,
    registry: Seq<char>,
) -> Option<CredentialsView>
    decreases names.len(),
{
    if names.len() == 0 {
        None
    } else {
        match reply_credentials(secrets(namespace, names[0]), registry) {
            Some(creds) => Some(creds),
            None => found_credentials(secrets, namespace, names.skip(1), registry),
        }
    }
}

/// The most secrets that a search still reads.
pub open spec fn secrets_left(progress: ProgressView) -> nat {
    match progress {
        ProgressView::Fetch(_) => 0,
        ProgressView::ReadSecret(state) => state.rest.len() + 1,
    }
}

/// What a search comes to that goes on with `progress`, where `last` is the request that was sent
/// last.
pub open spec fn searched(
    world: World,
    secrets: Secrets,
    progress: ProgressView,
    last: RequestView,
) -> Result<Seq<char>, ErrorView>
    decreases secrets_left(progress),
{
    match progress {
        ProgressView::Fetch(step) => carried_out(world, step, last),
        ProgressView::ReadSecret(state) => searched(
            world,
            secrets,
            after_secret(state, secrets(state.namespace, state.name)),
            last,
        ),
    }
}

/// The secrets that a search reads that goes on with `progress`, by namespace and name, in the
/// order in which they are read.
pub open spec fn secrets_read(secrets: Secrets, progress: ProgressView) -> Seq<
    (Seq<char>, Seq<char>),
>
    decreases secrets_left(progress),
{
    match progress {
        ProgressView::Fetch(_) => seq![],
        ProgressView::ReadSecret(state) => seq![(state.namespace, state.name)] + secrets_read(
            secrets,
            after_secret(state, secrets(state.namespace, state.name)),
        ),
    }
}

/// A search that is carried out to its end comes to the digest of the image, asked for with the
/// credentials in the first pull secret that has some for its registry, and with none where no
/// secret has.
pub proof fn law_search_comes_to_the_digest(
    world: World,
    secrets: Secrets,
    image: Seq<char>,
    namespace: Seq<char>,
    names: Seq<Seq<char>>,
    last: RequestView,
)
    ensures
        searched(world, secrets, digest_search(image, namespace, names), last) == registry_digest(
            world,
            target_of(image),
            found_credentials(secrets, namespace, names, target_of(image).registry),
        ),
{
    lemma_search(world, secrets, namespace, names, target_of(image), last);
}

proof fn lemma_search(
    world: World,
    secrets: Secrets,
    namespace: Seq<char>,
    names: Seq<Seq<char>>,
    target: TargetView,
    last: RequestView,
)
    ensures
        searched(world, secrets, search(namespace, names, target), last) == registry_digest(
            world,
            target,
            found_credentials(secrets, namespace, names, target.registry),
        ),
    decreases names.len(),
{
    if names.len() == 0 {
        law_fetch_comes_to_the_digest(world, target, None, last);
    } else {
        match reply_credentials(secrets(namespace, names[0]), target.registry) {
            Some(creds) => {
                law_fetch_comes_to_the_digest(world, target, Some(creds), last);
                reveal_with_fuel(searched, 2);
            },
            None => {
                lemma_search(world, secrets, namespace, names.skip(1), target, last);
            },
        }
    }
}

/// The pull secrets are read in their order, up to the first that has credentials for the registry
/// of the image, and to the last where none has.
pub proof fn law_secrets_are_read_in_order(
    secrets: Secrets,
    image: Seq<char>,
    namespace: Seq<char>,
    names: Seq<Seq<char>>,
)
    ensures
        ({
            let read = secrets_read(secrets, digest_search(image, namespace, names));
            let found = |i: int|
                reply_credentials(secrets(namespace, names[i]), target_of(image).registry);
            &&& read.len() <= names.len()
            &&& forall|i: int| 0 <= i < read.len() ==> #[trigger] read[i] == (namespace, names[i])
            &&& forall|i: int| 0 <= i < read.len() - 1 ==> #[trigger] found(i) is None
            &&& read.len() < names.len() ==> read.len() > 0 && found(read.len() - 1) is Some
        }),
{
    lemma_secrets_read(secrets, namespace, names, target_of(image));
}

proof fn lemma_secrets_read(
    secrets: Secrets,
    namespace: Seq<char>,
    names: Seq<Seq<char>>,
    target: TargetView,
)
    ensures
        ({
            let read = secrets_read(secrets, search(namespace, names, target));
            let found = |i: int| reply_credentials(secrets(namespace, names[i]), target.registry);
            &&& read.len() <= names.len()
            &&& forall|i: int| 0 <= i < read.len() ==> #[trigger] read[i] == (namespace, names[i])
            &&& forall|i: int| 0 <= i < read.len() - 1 ==> #[trigger] found(i) is None
            &&& read.len() < names.len() ==> read.len() > 0 && found(read.len() - 1) is Some
        }),
    decreases names.len(),
{
    reveal_with_fuel(secrets_read, 2);
    if names.len() > 0 && reply_credentials(
        secrets(namespace, names[0]),
        target.registry,
    ) is None {
        let rest = names.skip(1);
        lemma_secrets_read(secrets, namespace, rest, target);
        let later = secrets_read(secrets, search(namespace, rest, target));
        let read = secrets_read(secrets, search(namespace, names, target));
        let found_later = |i: int|
            reply_credentials(secrets(namespace, rest[i]), target.registry);
        let found = |i: int| reply_credentials(secrets(namespace, names[i]), target.registry);
        assert(read == seq![(namespace, names[0])] + later);
        assert forall|i: int| 0 <= i < read.len() implies #[trigger] read[i] == (
            namespace,
            names[i],
        ) by {
            if i > 0 {
                assert(read[i] == later[i - 1]);
            }
        }
        assert forall|i: int| 0 <= i < read.len() - 1 implies #[trigger] found(i) is None by {
            if i > 0 {
                assert(found_later(i - 1) is None);
            }
        }
        if read.len() < names.len() {
            assert(found_later(later.len() - 1) is Some);
        }
    }
}

/// Credentials are shown to nobody but those who grant tokens: requests for manifests carry none,
/// and a token request carries those that the fetch was started with, all of them, or none where
/// there are none.
pub proof fn law_credentials_go_to_token_endpoints(
    target: TargetView,
    creds: Option<CredentialsView>,
    response_state: AwaitResponseView,
    response: Result<ResponseView, Seq<char>>,
    body_state: AwaitBodyView,
    body: Result<Seq<u8>, Seq<char>>,
)
    ensures
        fetch_start(target, creds) matches StepView::Send(state, request) && (
        request.basic_auth is Some ==> state is DockerToken && request.basic_auth == creds) && (
        state is DockerToken ==> request.basic_auth == creds) && (state is Manifest ==> state
            == (AwaitResponseView::Manifest { target, creds })),
        after_response(response_state, response) matches StepView::Send(state, request) ==> state
            is BearerToken && (response_state matches AwaitResponseView::Manifest { creds, .. }
            && request.basic_auth == creds),
        after_body(body_state, body) matches StepView::Send(_, request) ==> request.basic_auth
            is None,
{
}

/// A request has an `Authorization` header.
pub open spec fn authorized(request: RequestView) -> bool {
    exists|i: int|
        0 <= i < request.headers.len() && (#[trigger] request.headers[i]).0 == "Authorization"@
}

/// A token is shown to nobody but the registry of the image that it was had for: the only requests
/// with an `Authorization` header are those for the image's manifest there.
pub proof fn law_tokens_go_to_the_registry(
    target: TargetView,
    creds: Option<CredentialsView>,
    response_state: AwaitResponseView,
    response: Result<ResponseView, Seq<char>>,
    body_state: AwaitBodyView,
    body: Result<Seq<u8>, Seq<char>>,
)
    ensures
        fetch_start(target, creds) matches StepView::Send(_, request) && !authorized(request),
        after_response(response_state, response) matches StepView::Send(_, request)
            ==> !authorized(request),
        after_body(body_state, body) matches StepView::Send(_, request) ==> match body_state {
            AwaitBodyView::DockerToken { repository, tag } => request.url
                == docker_manifest_request(repository, tag, seq![]).url,
            AwaitBodyView::BearerToken { target } => request.url == manifest_request(
                target,
                None,
            ).url,
            AwaitBodyView::Manifest => false,
        },
{
    reveal_strlit("Authorization");
    reveal_strlit("Accept");
    assert("Authorization"@.len() != "Accept"@.len());
}

/// A reconciliation settles a Deployment: once the patch that a digest led to is applied, the same
/// digest leads to nothing, whatever was seen before.
pub proof fn law_reconciliation_settles(
    before: Option<Seq<char>>,
    digest: Seq<char>,
    restarted_at: Seq<char>,
    template_restarted_at: Seq<char>,
)
    ensures
        ({
            let after = match decision(before, Ok(digest)) {
                DecisionView::Rollout(d) => patched(
                    before,
                    annotations_part(rollout_body(d, restarted_at, template_restarted_at)),
                    DIGEST_ANNOTATION@,
                ),
                DecisionView::Store(d) => patched(
                    before,
                    annotations_part(store_body(d)),
                    DIGEST_ANNOTATION@,
                ),
                _ => before,
            };
            &&& after == Some(digest)
            &&& decision(after, Ok(digest)) == DecisionView::Unchanged
        }),
{
    law_stored_digest_is_read_back(digest, before, DIGEST_ANNOTATION@);
    law_rollout_stores_digest_and_restarts(
        digest,
        restarted_at,
        template_restarted_at,
        before,
        DIGEST_ANNOTATION@,
    );
}

/// The patch that a digest leads to is of the Deployment that the job is about, and settles it:
/// once it is applied, the same digest leads to no patch.
pub proof fn law_decided_patch_settles(
    job: JobView,
    digest: Seq<char>,
    patch: Option<PatchView>,
    later: Option<PatchView>,
)
    requires
        leads_to(job, decision(job.last_digest, Ok(digest)), patch),
    ensures
        ({
            let after = match patch {
                Some(p) => patched(job.last_digest, annotations_part(p.body), DIGEST_ANNOTATION@),
                None => job.last_digest,
            };
            let settled = JobView { last_digest: after, ..job };
            &&& patch matches Some(p) ==> p.namespace == job.namespace && p.name == job.name
            &&& patch is None <==> job.last_digest == Some(digest)
            &&& after == Some(digest)
            &&& leads_to(settled, decision(after, Ok(digest)), later) <==> later is None
        }),
{
    law_stored_digest_is_read_back(digest, job.last_digest, DIGEST_ANNOTATION@);
    if let Some(p) = patch {
        if decision(job.last_digest, Ok(digest)) is Rollout {
            let (restarted_at, template_restarted_at) = choose|
                restarted_at: Seq<char>,
                template_restarted_at: Seq<char>,
            |
                p == #[trigger] rollout_patch(
                    job.namespace,
                    job.name,
                    digest,
                    restarted_at,
                    template_restarted_at,
                );
            law_rollout_stores_digest_and_restarts(
                digest,
                restarted_at,
                template_restarted_at,
                job.last_digest,
                DIGEST_ANNOTATION@,
            );
        }
    }
}

/// Pods are restarted exactly where a digest was seen before and another one is seen now; without a
/// digest nothing is done.
pub proof fn law_restart_only_on_change(
    before: Option<Seq<char>>,
    outcome: Result<Seq<char>, ErrorView>,
)
    ensures
        decision(before, outcome) is Rollout <==> (before matches Some(last) && outcome matches Ok(
            digest,
        ) && last != digest),
        decision(before, outcome) is Store <==> (before is None && outcome is Ok),
        outcome is Err ==> decision(before, outcome) is Failed,
{
}

/// The credentials that a search finds are those in the first secret that has some for the registry,
/// wherever it stands among the pull secrets; it finds none where no secret has.
pub proof fn law_search_finds_the_first_credentials(
    secrets: Secrets,
    namespace: Seq<char>,
    names: Seq<Seq<char>>,
    registry: Seq<char>,
    i: int,
    data: Seq<(Seq<char>, Seq<u8>)>,
)
    requires
        0 <= i <= names.len(),
        forall|j: int|
            0 <= j < i ==> (secrets(namespace, #[trigger] names[j]) matches Some(other)
                ==> secret_credentials(other, registry) is None),
        i < names.len() ==> secrets(namespace, names[i]) == Some(data) && secret_credentials(
            data,
            registry,
        ) is Some,
    ensures
        found_credentials(secrets, namespace, names, registry) == if i < names.len() {
            secret_credentials(data, registry)
        } else {
            None
        },
    decreases i,
{
    if i > 0 {
        let rest = names.skip(1);
        assert(secrets(namespace, names[0]) matches Some(other) ==> secret_credentials(
            other,
            registry,
        ) is None);
        assert forall|j: int| 0 <= j < i - 1 implies (secrets(namespace, #[trigger] rest[j])
            matches Some(other) ==> secret_credentials(other, registry) is None) by {
            assert(rest[j] == names[j + 1]);
        }
        if i < names.len() {
            assert(rest[i - 1] == names[i]);
        }
        law_search_finds_the_first_credentials(secrets, namespace, rest, registry, i - 1, data);
    }
}

/// The search for an image, by its reference as it is written, comes to what a fetch of its
/// repository and its tag from its registry comes to, with the credentials that the pull secrets
/// hold for that registry.
pub proof fn law_written_image_comes_to_its_digest(
    world: World,
    secrets: Secrets,
    registry: Option<Seq<char>>,
    repository: Seq<char>,
    tag: Option<Seq<char>>,
    namespace: Seq<char>,
    names: Seq<Seq<char>>,
    last: RequestView,
)
    requires
        match tag {
            Some(tag) => !tag.contains(':'),
            None => !repository.contains(':'),
        },
        match registry {
            Some(registry) => !registry.contains('/') && (written_rest(repository, tag).contains(
                '/',
            ) || registry.contains('.') || registry.contains(':')),
            None => bare_name(written_rest(repository, tag)),
        },
    ensures
        ({
            let target = TargetView {
                registry: match registry {
                    Some(registry) => registry,
                    None => "docker.io"@,
                },
                repository,
                tag: match tag {
                    Some(tag) => tag,
                    None => "latest"@,
                },
            };
            searched(
                world,
                secrets,
                digest_search(written_reference(registry, repository, tag), namespace, names),
                last,
            ) == carried_out(
                world,
                fetch_start(
                    target,
                    found_credentials(secrets, namespace, names, target.registry),
                ),
                last,
            )
        }),
{
    let image = written_reference(registry, repository, tag);
    law_reference_is_read_back(registry, repository, tag);
    law_search_comes_to_the_digest(world, secrets, image, namespace, names, last);
    let target = target_of(image);
    law_fetch_comes_to_the_digest(
        world,
        target,
        found_credentials(secrets, namespace, names, target.registry),
        last,
    );
}

/// What a fetch comes to where `ask` was the last request and `response` came for it: the text of
/// the digest header, or else the hash of the body.
pub open spec fn digest_in(world: World, ask: RequestView, response: ResponseView) -> Result<
    Seq<char>,
    ErrorView,
> {
    match response.digest {
        Some(value) => match header_text(value) {
            Some(digest) => Ok(digest),
            None => Err(ErrorView::ToStrError),
        },
        None => match (world.body)(ask) {
            Ok(body) => Ok(body_digest(body)),
            Err(e) => Err(ErrorView::HttpError(e)),
        },
    }
}

/// A registry that answers the request for a manifest at once is asked nothing else: the digest is
/// the one in its answer. The credentials do not matter.
pub proof fn law_open_registry_gives_the_digest(
    world: World,
    target: TargetView,
    creds: Option<CredentialsView>,
    response: ResponseView,
    last: RequestView,
)
    requires
        target.registry != "docker.io"@,
        target.registry.len() > 0,
        (world.send)(
            RequestView {
                url: "https://"@ + target.registry + "/v2/"@ + target.repository + "/manifests/"@
                    + target.tag,
                headers: seq![
                    (
                        "Accept"@,
                        "application/vnd.docker.distribution.manifest.v2+json,application/vnd.docker.distribution.manifest.list.v2+json,application/vnd.oci.image.manifest.v1+json,application/vnd.oci.image.index.v1+json"@,
                    ),
                ],
                basic_auth: None,
            },
        ) == Ok::<ResponseView, Seq<char>>(response),
        200 <= response.status <= 299,
    ensures
        carried_out(world, fetch_start(target, creds), last) == digest_in(
            world,
            RequestView {
                url: "https://"@ + target.registry + "/v2/"@ + target.repository + "/manifests/"@
                    + target.tag,
                headers: seq![
                    (
                        "Accept"@,
                        "application/vnd.docker.distribution.manifest.v2+json,application/vnd.docker.distribution.manifest.list.v2+json,application/vnd.oci.image.manifest.v1+json,application/vnd.oci.image.index.v1+json"@,
                    ),
                ],
                basic_auth: None,
            },
            response,
        ),
{
    law_manifest_is_asked_for_by_its_parts(target, seq![]);
    law_fetch_comes_to_the_digest(world, target, creds, last);
    let ask = RequestView {
        url: "https://"@ + target.registry + "/v2/"@ + target.repository + "/manifests/"@
            + target.tag,
        headers: seq![
            (
                "Accept"@,
                "application/vnd.docker.distribution.manifest.v2+json,application/vnd.docker.distribution.manifest.list.v2+json,application/vnd.oci.image.manifest.v1+json,application/vnd.oci.image.index.v1+json"@,
            ),
        ],
        basic_auth: None,
    };
    assert(manifest_request(target, None) =~= ask);
}

/// A registry that asks for a token with a 401 gets one from the realm that its challenge names, and
/// is then asked for the same manifest with it: the digest is the one in the second answer.
pub proof fn law_guarded_registry_gives_the_digest(
    world: World,
    target: TargetView,
    creds: Option<CredentialsView>,
    first: ResponseView,
    text: Seq<char>,
    c: ChallengeView,
    ask_token: RequestView,
    granted: ResponseView,
    answer: Seq<u8>,
    token: Seq<char>,
    response: ResponseView,
    last: RequestView,
)
    requires
        target.registry != "docker.io"@,
        target.registry.len() > 0,
        (world.send)(manifest_request(target, None)) == Ok::<ResponseView, Seq<char>>(first),
        first.status == 401,
        first.challenge matches Some(value) && header_text(value) == Some(text),
        challenge(text) == Some(c),
        token_request(c, creds) == Ok::<RequestView, ErrorView>(ask_token),
        (world.send)(ask_token) == Ok::<ResponseView, Seq<char>>(granted),
        200 <= granted.status <= 299,
        (world.body)(ask_token) == Ok::<Seq<u8>, Seq<char>>(answer),
        bearer_token_in(answer) == Ok::<Seq<char>, ErrorView>(token),
        (world.send)(
            RequestView {
                url: "https://"@ + target.registry + "/v2/"@ + target.repository + "/manifests/"@
                    + target.tag,
                headers: seq![
                    (
                        "Accept"@,
                        "application/vnd.docker.distribution.manifest.v2+json,application/vnd.docker.distribution.manifest.list.v2+json,application/vnd.oci.image.manifest.v1+json,application/vnd.oci.image.index.v1+json"@,
                    ),
                    ("Authorization"@, "Bearer "@ + token),
                ],
                basic_auth: None,
            },
        ) == Ok::<ResponseView, Seq<char>>(response),
        200 <= response.status <= 299,
    ensures
        carried_out(world, fetch_start(target, creds), last) == digest_in(
            world,
            manifest_request(target, Some(token)),
            response,
        ),
{
    law_manifest_is_asked_for_by_its_parts(target, token);
    law_fetch_comes_to_the_digest(world, target, creds, last);
    let again = RequestView {
        url: "https://"@ + target.registry + "/v2/"@ + target.repository + "/manifests/"@
            + target.tag,
        headers: seq![
            (
                "Accept"@,
                "application/vnd.docker.distribution.manifest.v2+json,application/vnd.docker.distribution.manifest.list.v2+json,application/vnd.oci.image.manifest.v1+json,application/vnd.oci.image.index.v1+json"@,
            ),
            ("Authorization"@, "Bearer "@ + token),
        ],
        basic_auth: None,
    };
    assert(manifest_request(target, Some(token)) =~= again);
}

/// Docker Hub is asked for a token to pull the repository, with the credentials, and then for the
/// manifest of the tag with it: the digest is the one in the second answer.
pub proof fn law_docker_hub_gives_the_digest(
    world: World,
    target: TargetView,
    creds: Option<CredentialsView>,
    granted: ResponseView,
    answer: Seq<u8>,
    token: Seq<char>,
    response: ResponseView,
    last: RequestView,
)
    requires
        target.registry == "docker.io"@ || target.registry.len() == 0,
        ({
            let ask_token = RequestView {
                url: "https://auth.docker.io/token?service=registry.docker.io&scope=repository:"@
                    + target.repository + ":pull"@,
                headers: seq![],
                basic_auth: creds,
            };
            &&& (world.send)(ask_token) == Ok::<ResponseView, Seq<char>>(granted)
            &&& (world.body)(ask_token) == Ok::<Seq<u8>, Seq<char>>(answer)
        }),
        docker_token_in(answer) == Ok::<Seq<char>, ErrorView>(token),
        (world.send)(
            RequestView {
                url: "https://registry-1.docker.io/v2/"@ + target.repository + "/manifests/"@
                    + target.tag,
                headers: seq![
                    ("Authorization"@, "Bearer "@ + token),
                    ("Accept"@, "application/vnd.docker.distribution.manifest.v2+json"@),
                ],
                basic_auth: None,
            },
        ) == Ok::<ResponseView, Seq<char>>(response),
    ensures
        carried_out(world, fetch_start(target, creds), last) == digest_in(
            world,
            docker_manifest_request(target.repository, target.tag, token),
            response,
        ),
{
    law_docker_token_is_for_the_repository(target.repository, creds);
    law_docker_manifest_is_asked_for_by_its_parts(target.repository, target.tag, token);
    law_fetch_comes_to_the_digest(world, target, creds, last);
    let ask_token = RequestView {
        url: "https://auth.docker.io/token?service=registry.docker.io&scope=repository:"@
            + target.repository + ":pull"@,
        headers: seq![],
        basic_auth: creds,
    };
    assert(docker_token_request(target.repository, creds) =~= ask_token);
    let ask = RequestView {
        url: "https://registry-1.docker.io/v2/"@ + target.repository + "/manifests/"@ + target.tag,
        headers: seq![
            ("Authorization"@, "Bearer "@ + token),
            ("Accept"@, "application/vnd.docker.distribution.manifest.v2+json"@),
        ],
        basic_auth: None,
    };
    assert(docker_manifest_request(target.repository, target.tag, token) =~= ask);
}

/// A Deployment whose annotation holds another digest than the one that its image has now is rolled
/// out: the patch is of that Deployment, stores the new digest and changes the restart annotation of
/// its pods' template. With the same digest there is no patch, and without the annotation the digest
/// is stored and the pods are left alone.
pub proof fn law_changed_digest_restarts_the_deployment(
    deployment: Deployment,
    job: JobView,
    i: int,
    digest: Seq<char>,
    patch: Option<PatchView>,
)
    requires
        job_of(deployment) == Ok::<JobView, ErrorView>(job),
        forall|i: int, j: int|
            0 <= i < j < deployment.annotations@.len() ==> (
            #[trigger] deployment.annotations@[i]).0@ != (#[trigger] deployment.annotations@[j]).0@,
        leads_to(job, decision(job.last_digest, Ok(digest)), patch),
    ensures
        0 <= i < deployment.annotations@.len() && deployment.annotations@[i].0@
            == "io.v0l.rollout/last-digest"@ && deployment.annotations@[i].1@ != digest ==> (patch
            matches Some(p) && {
            &&& p.name == deployment.name@
            &&& deployment.namespace matches Some(namespace) ==> p.namespace == namespace@
            &&& deployment.namespace is None ==> p.namespace == "default"@
            &&& patched(None, annotations_part(p.body), "io.v0l.rollout/last-digest"@) == Some(
                digest,
            )
            &&& patched(None, template_part(p.body), "kubectl.kubernetes.io/restartedAt"@) is Some
        }),
        0 <= i < deployment.annotations@.len() && deployment.annotations@[i].0@
            == "io.v0l.rollout/last-digest"@ && deployment.annotations@[i].1@ == digest ==> patch
            is None,
        (forall|j: int|
            0 <= j < deployment.annotations@.len() ==> (#[trigger] deployment.annotations@[j]).0@
                != "io.v0l.rollout/last-digest"@) ==> (patch matches Some(p) && {
            &&& p.name == deployment.name@
            &&& patched(None, annotations_part(p.body), "io.v0l.rollout/last-digest"@) == Some(
                digest,
            )
            &&& p.body.get("spec"@) is None
        }),
{
    law_last_digest_is_that_of_the_annotation(deployment, i);
    law_patch_does_what_was_decided(job, digest, ErrorView::ToStrError, patch);
    law_stored_digest_is_read_back(digest, None, DIGEST_ANNOTATION@);
    law_decision_is_about_the_digest(job.last_digest, digest, ErrorView::ToStrError);
    if let Some(p) = patch {
        if decision(job.last_digest, Ok(digest)) is Rollout {
            let (restarted_at, template_restarted_at) = choose|
                restarted_at: Seq<char>,
                template_restarted_at: Seq<char>,
            |
                p.body == #[trigger] rollout_body(digest, restarted_at, template_restarted_at);
            law_rollout_stores_digest_and_restarts(
                digest,
                restarted_at,
                template_restarted_at,
                None,
                DIGEST_ANNOTATION@,
            );
            law_rollout_stores_digest_and_restarts(
                digest,
                restarted_at,
                template_restarted_at,
                None,
                RESTART_ANNOTATION@,
            );
        }
    }
}

} // verus!
