//! One reconciliation of a Deployment: what is looked up, and what is done about it.
//!
//! `reconcile` examines the Deployment, `fetch_image_digest` starts the search for the digest of
//! its image, `resolve_pull_secret_credentials` goes through its pull secrets, `conclude` says what
//! the digest leads to, and `patch_of` gives the patch for it.

use vstd::prelude::*;
use vstd::string::*;
use crate::credentials::{
    credentials_from_secret, secret_credentials, secret_view, CredentialsView,
    RegistryCredentials, SecretData,
};
use crate::error::{ControllerError, ErrorView};
use crate::http::pair_views;
use crate::image::{
    bare_name, image_reference, law_reference_is_read_back, parse_image_reference,
    written_reference, written_rest, DOCKER_HUB,
};
use crate::patch::{
    clock_reading, rollout_body, rollout_patch, rolls_out_now, store_body, store_patch,
    trigger_rollout, update_digest_annotation, utc_timestamp, PatchRequest, PatchView,
    DIGEST_ANNOTATION,
};
use crate::registry::{
    dockerhub_start, fetch_dockerhub_digest, fetch_generic_registry_digest, generic_start,
    AwaitResponseView, Step, StepView, Target, TargetView,
};
use crate::text::same;
use crate::token::text_result;

verus! {

/// The label that a Deployment has to have, with the value `true`, to be looked at.
pub const ROLLOUT_LABEL: &'static str = "io.v0l.rollout";

/// The seconds after which a reconciled Deployment is looked at again.
pub const REQUEUE_SECS: u64 = 300;

/// The seconds after which a Deployment whose reconciliation failed is looked at again.
pub const ERROR_REQUEUE_SECS: u64 = 60;

/// What the controller reads of a Deployment.
#[derive(Debug)]
pub struct Deployment {
    pub name: String,
    pub namespace: Option<String>,
    pub annotations: Vec<(String, String)>,
    pub spec: Option<DeploymentSpec>,
}

/// What the controller reads of a Deployment's specification.
#[derive(Debug)]
pub struct DeploymentSpec {
    /// The specification in the pods' template.
    pub pod: Option<PodSpec>,
}

/// What the controller reads of the specification of pods.
#[derive(Debug)]
pub struct PodSpec {
    pub containers: Vec<Container>,
    /// The names of the secrets that images are pulled with.
    pub image_pull_secrets: Option<Vec<String>>,
}

/// What the controller reads of a container.
#[derive(Debug)]
pub struct Container {
    pub image: Option<String>,
}

/// The views of a list of texts.
pub open spec fn string_views(texts: Seq<String>) -> Seq<Seq<char>> {
    texts.map_values(|t: String| t@)
}

/// What `key` stands for in a list of annotations.
pub open spec fn annotation(
    annotations: Seq<(Seq<char>, Seq<char>)>,
    key: Seq<char>,
) -> Option<Seq<char>>
    decreases annotations.len(),
{
    if annotations.len() == 0 {
        None
    } else if annotations[0].0 == key {
        Some(annotations[0].1)
    } else {
        annotation(annotations.skip(1), key)
    }
}

/// What a reconciliation is about.
#[derive(Debug)]
pub struct Job {
    pub name: String,
    pub namespace: String,
    /// The image of the first container.
    pub image: String,
    pub pull_secrets: Vec<String>,
    /// The digest that was seen last.
    pub last_digest: Option<String>,
}

/// `Job` over mathematical text.
#[verifier::ext_equal]
pub struct JobView {
    pub name: Seq<char>,
    pub namespace: Seq<char>,
    pub image: Seq<char>,
    pub pull_secrets: Seq<Seq<char>>,
    pub last_digest: Option<Seq<char>>,
}

impl View for Job {
    type V = JobView;

    open spec fn view(&self) -> JobView {
        JobView {
            name: self.name@,
            namespace: self.namespace@,
            image: self.image@,
            pull_secrets: string_views(self.pull_secrets@),
            last_digest: self.last_digest.deep_view(),
        }
    }
}

/// The namespace of a Deployment.
pub open spec fn namespace_of(deployment: Deployment) -> Seq<char> {
    match deployment.namespace {
        Some(namespace) => namespace@,
        None => "default"@,
    }
}

/// The names of the pull secrets of pods.
pub open spec fn pull_secrets_of(pod: PodSpec) -> Seq<Seq<char>> {
    match pod.image_pull_secrets {
        Some(names) => string_views(names@),
        None => seq![],
    }
}

/// What the reconciliation of a Deployment is about, or what the Deployment lacks for one.
pub open spec fn job_of(deployment: Deployment) -> Result<JobView, ErrorView> {
    match deployment.spec {
        None => Err(ErrorView::MissingField("Deployment missing spec"@)),
        Some(spec) => match spec.pod {
            None => Err(ErrorView::MissingField("Deployment template missing spec"@)),
            Some(pod) => if pod.containers@.len() == 0 {
                Err(ErrorView::MissingField("Deployment has no containers"@))
            } else {
                match pod.containers@[0].image {
                    None => Err(ErrorView::MissingField("Container missing image"@)),
                    Some(image) => Ok(
                        JobView {
                            name: deployment.name@,
                            namespace: namespace_of(deployment),
                            image: image@,
                            pull_secrets: pull_secrets_of(pod),
                            last_digest: annotation(
                                pair_views(deployment.annotations@),
                                DIGEST_ANNOTATION@,
                            ),
                        },
                    ),
                }
            },
        },
    }
}

/// The view of a job, or of why there is none.
pub open spec fn job_result(res: Result<Job, ControllerError>) -> Result<JobView, ErrorView> {
    match res {
        Ok(job) => Ok(job@),
        Err(e) => Err(e@),
    }
}

/// What `key` stands for in a list of annotations.
fn get_annotation(annotations: &Vec<(String, String)>, key: &str) -> (res: Option<String>)
    ensures
        res.deep_view() == annotation(pair_views(annotations@), key@),
{
    let ghost all = pair_views(annotations@);
    let mut i: usize = 0;
    assert(all.skip(0) =~= all);
    while i < annotations.len()
        invariant
            i <= annotations@.len(),
            all == pair_views(annotations@),
            annotation(all, key@) == annotation(all.skip(i as int), key@),
        decreases annotations.len() - i,
    {
        assert(all.skip(i as int)[0] == (annotations@[i as int].0@, annotations@[i as int].1@));
        assert(all.skip(i as int).skip(1) =~= all.skip(i + 1));
        if same(annotations[i].0.as_str(), key) {
            return Some(annotations[i].1.clone());
        }
        i += 1;
    }
    None
}

/// A copy of a list of texts.
fn copy_strings(texts: &Vec<String>) -> (res: Vec<String>)
    ensures
        string_views(res@) == string_views(texts@),
{
    let mut res: Vec<String> = Vec::new();
    let mut i: usize = 0;
    while i < texts.len()
        invariant
            i <= texts@.len(),
            res@.len() == i,
            forall|j: int| 0 <= j < i ==> (#[trigger] res@[j])@ == texts@[j]@,
        decreases texts.len() - i,
    {
        res.push(texts[i].clone());
        i += 1;
    }
    assert(string_views(res@) =~= string_views(texts@));
    res
}

/// Examines a Deployment: what its reconciliation is about, or what it lacks for one.
pub fn reconcile(deployment: &Deployment) -> (res: Result<Job, ControllerError>)
    ensures
        job_result(res) == job_of(*deployment),
{
    let namespace: String = match &deployment.namespace {
        Some(namespace) => namespace.clone(),
        None => "default".to_owned(),
    };
    let spec_part: &DeploymentSpec = match &deployment.spec {
        Some(spec_part) => spec_part,
        None => {
            return Err(ControllerError::from("Deployment missing spec"));
        },
    };
    let pod: &PodSpec = match &spec_part.pod {
        Some(pod) => pod,
        None => {
            return Err(ControllerError::from("Deployment template missing spec"));
        },
    };
    if pod.containers.len() == 0 {
        return Err(ControllerError::from("Deployment has no containers"));
    }
    let image: &String = match &pod.containers[0].image {
        Some(image) => image,
        None => {
            return Err(ControllerError::from("Container missing image"));
        },
    };
    let pull_secrets: Vec<String> = match &pod.image_pull_secrets {
        Some(names) => copy_strings(names),
        None => Vec::new(),
    };
    assert(string_views(pull_secrets@) =~= pull_secrets_of(*pod));
    Ok(
        Job {
            name: deployment.name.clone(),
            namespace,
            image: image.clone(),
            pull_secrets,
            last_digest: get_annotation(&deployment.annotations, DIGEST_ANNOTATION),
        },
    )
}

/// A search for credentials that waits for the secret `name`.
#[derive(Debug)]
pub struct SecretSearch {
    pub namespace: String,
    pub name: String,
    /// The secrets that come after it.
    pub rest: Vec<String>,
    /// The image that the credentials are for.
    pub target: Target,
}

/// `SecretSearch` over mathematical text.
#[verifier::ext_equal]
pub struct SearchView {
    pub namespace: Seq<char>,
    pub name: Seq<char>,
    pub rest: Seq<Seq<char>>,
    pub target: TargetView,
}

impl View for SecretSearch {
    type V = SearchView;

    open spec fn view(&self) -> SearchView {
        SearchView {
            namespace: self.namespace@,
            name: self.name@,
            rest: string_views(self.rest@),
            target: self.target@,
        }
    }
}

/// How far the search for a digest is.
#[derive(Debug)]
pub enum Progress {
    /// Read a secret, and answer with its data.
    ReadSecret(SecretSearch),
    /// Ask the registry.
    Fetch(Step),
}

/// `Progress` over mathematical text.
#[verifier::ext_equal]
pub enum ProgressView {
    ReadSecret(SearchView),
    Fetch(StepView),
}

impl View for Progress {
    type V = ProgressView;

    open spec fn view(&self) -> ProgressView {
        match self {
            Progress::ReadSecret(search) => ProgressView::ReadSecret(search@),
            Progress::Fetch(step) => ProgressView::Fetch(step@),
        }
    }
}

/// The first step of a fetch from the registry that holds an image.
pub open spec fn fetch_start(target: TargetView, creds: Option<CredentialsView>) -> StepView {
    if target.registry == DOCKER_HUB@ || target.registry.len() == 0 {
        dockerhub_start(target.repository, target.tag, creds)
    } else {
        generic_start(target, creds)
    }
}

/// Goes through the secrets `names`, and to the registry without credentials when there are none.
pub open spec fn search(
    namespace: Seq<char>,
    names: Seq<Seq<char>>,
    target: TargetView,
) -> ProgressView {
    if names.len() == 0 {
        ProgressView::Fetch(fetch_start(target, None))
    } else {
        ProgressView::ReadSecret(
            SearchView { namespace, name: names[0], rest: names.skip(1), target },
        )
    }
}

/// The parts of an image reference.
pub open spec fn target_of(image: Seq<char>) -> TargetView {
    let (registry, repository, tag) = image_reference(image);
    TargetView { registry, repository, tag }
}

/// How the search for the digest of `image` starts.
pub open spec fn digest_search(
    image: Seq<char>,
    namespace: Seq<char>,
    pull_secrets: Seq<Seq<char>>,
) -> ProgressView {
    search(namespace, pull_secrets, target_of(image))
}

/// What came of reading a secret: its data, nothing where it has none, or why it cannot be read.
pub open spec fn secret_reply(reply: Result<Option<SecretData>, String>) -> Option<
    Seq<(Seq<char>, Seq<u8>)>,
> {
    match reply {
        Ok(Some(data)) => Some(secret_view(data)),
        _ => None,
    }
}

/// The credentials for `registry` in the data of a secret, where there is data.
pub open spec fn reply_credentials(
    reply: Option<Seq<(Seq<char>, Seq<u8>)>>,
    registry: Seq<char>,
) -> Option<CredentialsView> {
    match reply {
        Some(data) => secret_credentials(data, registry),
        None => None,
    }
}

/// What follows the data of a secret: the registry is asked with the credentials in it, or the
/// next secret is read.
pub open spec fn after_secret(
    state: SearchView,
    reply: Option<Seq<(Seq<char>, Seq<u8>)>>,
) -> ProgressView {
    match reply_credentials(reply, state.target.registry) {
        Some(creds) => ProgressView::Fetch(fetch_start(state.target, Some(creds))),
        None => search(state.namespace, state.rest, state.target),
    }
}

fn start_fetch(target: &Target, creds: Option<&RegistryCredentials>) -> (res: Step)
    ensures
        res@ == fetch_start(target@, creds.deep_view()),
{
    if same(target.registry.as_str(), DOCKER_HUB) || target.registry.as_str().is_empty() {
        fetch_dockerhub_digest(target.repository.as_str(), target.tag.as_str(), creds)
    } else {
        fetch_generic_registry_digest(
            target.registry.as_str(),
            target.repository.as_str(),
            target.tag.as_str(),
            creds,
        )
    }
}

fn search_secrets(namespace: String, names: Vec<String>, target: Target) -> (res: Progress)
    ensures
        res@ == search(namespace@, string_views(names@), target@),
{
    if names.len() == 0 {
        return Progress::Fetch(start_fetch(&target, None));
    }
    let mut rest: Vec<String> = names;
    let name: String = rest.remove(0);
    assert(string_views(rest@) =~= string_views(names@).skip(1));
    Progress::ReadSecret(SecretSearch { namespace, name, rest, target })
}

/// Starts the search for the digest of `image`: through the pull secrets first, and then at the
/// registry.
pub fn fetch_image_digest(image: &str, namespace: &str, pull_secret_names: &Vec<String>) -> (res:
    Progress)
    ensures
        res@ == digest_search(image@, namespace@, string_views(pull_secret_names@)),
{
    match parse_image_reference(image) {
        Ok((registry, repository, tag)) => {
            let target: Target = Target { registry, repository, tag };
            assert(target@ =~= target_of(image@));
            search_secrets(namespace.to_owned(), copy_strings(pull_secret_names), target)
        },
        Err(e) => Progress::Fetch(Step::Done(Err(e))),
    }
}

/// Takes the data of the secret that a search waits for. A secret that cannot be read, has no data
/// or has no credentials for the registry is passed over.
pub fn resolve_pull_secret_credentials(
    state: SecretSearch,
    reply: Result<Option<SecretData>, String>,
) -> (res: Progress)
    ensures
        res@ == after_secret(state@, secret_reply(reply)),
{
    if let Ok(Some(data)) = &reply {
        let found: Option<RegistryCredentials> = credentials_from_secret(
            data,
            state.target.registry.as_str(),
        );
        if let Some(creds) = &found {
            return Progress::Fetch(start_fetch(&state.target, Some(creds)));
        }
    }
    search_secrets(state.namespace, state.rest, state.target)
}

/// What is done about a digest.
#[derive(Debug)]
pub enum Decision {
    /// The digest has changed: store it, and restart the pods.
    Rollout(String),
    /// There was no digest before: store it.
    Store(String),
    /// The digest is the one that was seen last.
    Unchanged,
    /// There is no digest.
    Failed(ControllerError),
}

/// `Decision` over mathematical text.
#[verifier::ext_equal]
pub enum DecisionView {
    Rollout(Seq<char>),
    Store(Seq<char>),
    Unchanged,
    Failed(ErrorView),
}

impl View for Decision {
    type V = DecisionView;

    open spec fn view(&self) -> DecisionView {
        match self {
            Decision::Rollout(digest) => DecisionView::Rollout(digest@),
            Decision::Store(digest) => DecisionView::Store(digest@),
            Decision::Unchanged => DecisionView::Unchanged,
            Decision::Failed(e) => DecisionView::Failed(e@),
        }
    }
}

/// What is done about a digest, where the one that was seen last is `last`.
pub open spec fn decision(
    last: Option<Seq<char>>,
    outcome: Result<Seq<char>, ErrorView>,
) -> DecisionView {
    match outcome {
        Err(e) => DecisionView::Failed(e),
        Ok(digest) => match last {
            None => DecisionView::Store(digest),
            Some(last) => if last == digest {
                DecisionView::Unchanged
            } else {
                DecisionView::Rollout(digest)
            },
        },
    }
}

/// Says what is done about a digest, where the one that was seen last is `last`.
pub fn conclude(last: Option<&str>, outcome: Result<String, ControllerError>) -> (res: Decision)
    ensures
        res@ == decision(last.deep_view(), text_result(outcome)),
{
    match outcome {
        Err(e) => Decision::Failed(e),
        Ok(digest) => match last {
            None => Decision::Store(digest),
            Some(last) => {
                if same(last, digest.as_str()) {
                    Decision::Unchanged
                } else {
                    Decision::Rollout(digest)
                }
            },
        },
    }
}

/// `patch` is what a decision leads to for the Deployment of a job: a rollout now, the storing of a
/// digest, or no patch at all.
pub open spec fn leads_to(
    job: JobView,
    decision: DecisionView,
    patch: Option<PatchView>,
) -> bool {
    match decision {
        DecisionView::Rollout(digest) => patch matches Some(p) && rolls_out_now(
            p,
            job.namespace,
            job.name,
            digest,
        ),
        DecisionView::Store(digest) => patch == Some(
            store_patch(job.namespace, job.name, digest),
        ),
        DecisionView::Unchanged => patch is None,
        DecisionView::Failed(_) => patch is None,
    }
}

/// The patch that a decision leads to for the Deployment of a job.
pub fn patch_of(job: &Job, decision: &Decision) -> (res: Option<PatchRequest>)
    ensures
        leads_to(job@, decision@, res.deep_view()),
{
    match decision {
        Decision::Rollout(digest) => Some(
            trigger_rollout(job.namespace.as_str(), job.name.as_str(), digest.as_str()),
        ),
        Decision::Store(digest) => Some(
            update_digest_annotation(job.namespace.as_str(), job.name.as_str(), digest.as_str()),
        ),
        Decision::Unchanged => None,
        Decision::Failed(_) => None,
    }
}

/// Takes what came of the patch that a decision led to, or `Ok` where it led to none: the seconds
/// after which the Deployment is looked at again, or the failure of the reconciliation.
pub fn finish(reply: Result<(), String>) -> (res: Result<u64, ControllerError>)
    ensures
        match reply {
            Ok(_) => res == Ok::<u64, ControllerError>(REQUEUE_SECS) && REQUEUE_SECS == 300,
            Err(e) => res matches Err(err) && err@ == ErrorView::KubeError(e@),
        },
{
    match reply {
        Ok(_) => Ok(REQUEUE_SECS),
        Err(e) => Err(ControllerError::KubeError(e)),
    }
}

/// The seconds after which a Deployment whose reconciliation failed is looked at again, whatever
/// the failure.
pub fn error_policy(_error: &ControllerError) -> (res: u64)
    ensures
        res == ERROR_REQUEUE_SECS,
        res == 60,
{
    ERROR_REQUEUE_SECS
}

/// The label selector for the Deployments that are looked at.
pub fn watched_labels() -> (res: String)
    ensures
        res@ == ROLLOUT_LABEL@ + "=true"@,
        res@ == "io.v0l.rollout=true"@,
{
    proof {
        reveal_strlit("io.v0l.rollout");
        reveal_strlit("=true");
        reveal_strlit("io.v0l.rollout=true");
        assert("io.v0l.rollout"@ + "=true"@ =~= "io.v0l.rollout=true"@);
    }
    ROLLOUT_LABEL.to_owned().concat("=true")
}

/// A Deployment with an image has a job: the Deployment's name, its namespace or else `default`, the
/// image of its first container, whatever other containers there are, and its pull secrets in
/// their order.
pub proof fn law_job_is_that_of_the_deployment(
    deployment: Deployment,
    spec_part: DeploymentSpec,
    pod: PodSpec,
    image: String,
)
    requires
        deployment.spec == Some(spec_part),
        spec_part.pod == Some(pod),
        pod.containers@.len() > 0,
        pod.containers@[0].image == Some(image),
    ensures
        job_of(deployment) matches Ok(job) && {
            &&& job.name == deployment.name@
            &&& match deployment.namespace {
                Some(namespace) => job.namespace == namespace@,
                None => job.namespace == "default"@,
            }
            &&& job.image == image@
            &&& match pod.image_pull_secrets {
                Some(names) => job.pull_secrets.len() == names@.len() && forall|i: int|
                    0 <= i < names@.len() ==> #[trigger] job.pull_secrets[i] == names@[i]@,
                None => job.pull_secrets.len() == 0,
            }
        },
{
}

/// The digest that was seen last is what the Deployment's annotation `io.v0l.rollout/last-digest`
/// holds, whatever annotations stand before or behind it; there is none exactly where no annotation
/// has that name.
pub proof fn law_last_digest_is_that_of_the_annotation(deployment: Deployment, i: int)
    requires
        forall|i: int, j: int|
            0 <= i < j < deployment.annotations@.len() ==> (
            #[trigger] deployment.annotations@[i]).0@ != (#[trigger] deployment.annotations@[j]).0@,
    ensures
        job_of(deployment) matches Ok(job) ==> {
            &&& 0 <= i < deployment.annotations@.len() && deployment.annotations@[i].0@
                == "io.v0l.rollout/last-digest"@ ==> job.last_digest == Some(
                deployment.annotations@[i].1@,
            )
            &&& job.last_digest is None ==> forall|j: int|
                0 <= j < deployment.annotations@.len() ==> (
                #[trigger] deployment.annotations@[j]).0@ != "io.v0l.rollout/last-digest"@
            &&& job.last_digest matches Some(digest) ==> exists|j: int|
                0 <= j < deployment.annotations@.len() && (
                #[trigger] deployment.annotations@[j]).0@ == "io.v0l.rollout/last-digest"@
                    && deployment.annotations@[j].1@ == digest
        },
{
    let all = pair_views(deployment.annotations@);
    assert forall|i: int, j: int| 0 <= i < j < all.len() implies (#[trigger] all[i]).0 != (
    #[trigger] all[j]).0 by {
        assert(deployment.annotations@[i].0@ != deployment.annotations@[j].0@);
    }
    lemma_annotation(all, DIGEST_ANNOTATION@);
    if let Ok(job) = job_of(deployment) {
        if 0 <= i < all.len() {
            assert(all[i] == (deployment.annotations@[i].0@, deployment.annotations@[i].1@));
        }
        if job.last_digest is None {
            assert forall|j: int| 0 <= j < deployment.annotations@.len() implies (
            #[trigger] deployment.annotations@[j]).0@ != DIGEST_ANNOTATION@ by {
                assert(all[j].0 == deployment.annotations@[j].0@);
            }
        }
        if let Some(digest) = job.last_digest {
            let j = choose|j: int|
                0 <= j < all.len() && #[trigger] all[j] == (DIGEST_ANNOTATION@, digest);
            assert(deployment.annotations@[j].0@ == all[j].0);
        }
    }
}

proof fn lemma_annotation(annotations: Seq<(Seq<char>, Seq<char>)>, key: Seq<char>)
    requires
        forall|i: int, j: int|
            0 <= i < j < annotations.len() ==> (#[trigger] annotations[i]).0 != (
            #[trigger] annotations[j]).0,
    ensures
        forall|i: int|
            0 <= i < annotations.len() && (#[trigger] annotations[i]).0 == key ==> annotation(
                annotations,
                key,
            ) == Some(annotations[i].1),
        annotation(annotations, key) matches Some(value) ==> exists|i: int|
            0 <= i < annotations.len() && #[trigger] annotations[i] == (key, value),
    decreases annotations.len(),
{
    if annotations.len() > 0 {
        let rest = annotations.skip(1);
        assert forall|i: int, j: int| 0 <= i < j < rest.len() implies (#[trigger] rest[i]).0 != (
        #[trigger] rest[j]).0 by {
            assert(rest[i] == annotations[i + 1]);
            assert(rest[j] == annotations[j + 1]);
        }
        lemma_annotation(rest, key);
        assert forall|i: int|
            0 <= i < annotations.len() && (#[trigger] annotations[i]).0 == key implies annotation(
            annotations,
            key,
        ) == Some(annotations[i].1) by {
            if i > 0 {
                assert(rest[i - 1] == annotations[i]);
                assert(annotations[0].0 != annotations[i].0);
            }
        }
        if let Some(value) = annotation(annotations, key) {
            if annotations[0].0 == key {
                assert(annotations[0] == (key, value));
            } else {
                let i = choose|i: int| 0 <= i < rest.len() && #[trigger] rest[i] == (key, value);
                assert(annotations[i + 1] == (key, value));
            }
        }
    }
}

/// A Deployment without an image has no job, and the first thing that is missing on the way to the
/// image says why.
pub proof fn law_missing_parts_are_named(deployment: Deployment)
    ensures
        match deployment.spec {
            None => job_of(deployment) == Err::<JobView, ErrorView>(
                ErrorView::MissingField("Deployment missing spec"@),
            ),
            Some(spec_part) => match spec_part.pod {
                None => job_of(deployment) == Err::<JobView, ErrorView>(
                    ErrorView::MissingField("Deployment template missing spec"@),
                ),
                Some(pod) => {
                    &&& pod.containers@.len() == 0 ==> job_of(deployment) == Err::<
                        JobView,
                        ErrorView,
                    >(ErrorView::MissingField("Deployment has no containers"@))
                    &&& pod.containers@.len() > 0 && pod.containers@[0].image is None ==> job_of(
                        deployment,
                    ) == Err::<JobView, ErrorView>(
                        ErrorView::MissingField("Container missing image"@),
                    )
                },
            },
        },
{
}

/// The search for the digest of an image is about the registry, the repository and the tag that the
/// reference is read in, and starts with the first pull secret in the namespace, or at the registry
/// without credentials where there is none.
pub proof fn law_search_is_about_the_image(
    image: Seq<char>,
    namespace: Seq<char>,
    names: Seq<Seq<char>>,
)
    ensures
        ({
            let (registry, repository, tag) = image_reference(image);
            let target = TargetView { registry, repository, tag };
            &&& target_of(image) == target
            &&& names.len() > 0 ==> digest_search(image, namespace, names)
                == ProgressView::ReadSecret(
                SearchView { namespace, name: names[0], rest: names.skip(1), target },
            )
            &&& names.len() == 0 ==> digest_search(image, namespace, names) == ProgressView::Fetch(
                fetch_start(target, None),
            )
        }),
{
}

/// A fetch goes to Docker Hub for the registry `docker.io` and for the empty one, and to the
/// registry itself for any other, each for the image and with the credentials.
pub proof fn law_fetch_goes_to_the_registry(target: TargetView, creds: Option<CredentialsView>)
    ensures
        target.registry == "docker.io"@ || target.registry.len() == 0 ==> fetch_start(target, creds)
            == dockerhub_start(target.repository, target.tag, creds),
        target.registry != "docker.io"@ && target.registry.len() > 0 ==> fetch_start(target, creds)
            == generic_start(target, creds),
{
}

/// The first request for an image, by its reference as it is written: for an image on Docker Hub the
/// one for a token to pull its repository, and for any other image the one for its manifest, at its
/// registry and under its repository and its tag. The tag of an image on Docker Hub is kept for the
/// request that follows the token.
pub proof fn law_written_image_is_asked_for(
    registry: Option<Seq<char>>,
    repository: Seq<char>,
    tag: Option<Seq<char>>,
    namespace: Seq<char>,
)
    requires
        match tag {
            Some(tag) => !tag.contains(':'),
            None => !repository.contains(':'),
        },
        match registry {
            Some(registry) => !registry.contains('/') && (written_rest(repository, tag).contains(
                '/',
            ) || registry.contains('.') || registry.contains(':')),
            None => bare_name(written_rest(repository, tag)),
        },
    ensures
        ({
            let image = written_reference(registry, repository, tag);
            let named_tag = match tag {
                Some(tag) => tag,
                None => "latest"@,
            };
            digest_search(image, namespace, seq![]) matches ProgressView::Fetch(StepView::Send(state, request))
                && match registry {
                Some(host) if host != "docker.io"@ && host.len() > 0 => request.url == "https://"@
                    + host + "/v2/"@ + repository + "/manifests/"@ + named_tag,
                _ => {
                    &&& request.url
                        == "https://auth.docker.io/token?service=registry.docker.io&scope=repository:"@
                        + repository + ":pull"@
                    &&& state == AwaitResponseView::DockerToken { repository, tag: named_tag }
                },
            }
        }),
{
    law_reference_is_read_back(registry, repository, tag);
}

/// The data of a secret counts where it could be read and is there, whatever it holds.
pub proof fn law_secret_reply_is_the_data(reply: Result<Option<SecretData>, String>)
    ensures
        match reply {
            Ok(Some(data)) => secret_reply(reply) matches Some(entries) && entries.len()
                == data@.len() && forall|i: int|
                0 <= i < data@.len() ==> #[trigger] entries[i] == (data@[i].0@, data@[i].1@),
            _ => secret_reply(reply) is None,
        },
{
}

/// The credentials in a secret start the fetch, for the image that is searched for; a secret that
/// has none for its registry, or that could not be read, leads to the next one in the same
/// namespace, and to the registry without credentials behind the last.
pub proof fn law_secret_is_used_or_passed_over(
    state: SearchView,
    reply: Option<Seq<(Seq<char>, Seq<u8>)>>,
)
    ensures
        ({
            let found = match reply {
                Some(data) => secret_credentials(data, state.target.registry),
                None => None,
            };
            match found {
                Some(creds) => after_secret(state, reply) == ProgressView::Fetch(
                    fetch_start(state.target, Some(creds)),
                ),
                None => if state.rest.len() == 0 {
                    after_secret(state, reply) == ProgressView::Fetch(
                        fetch_start(state.target, None),
                    )
                } else {
                    after_secret(state, reply) == ProgressView::ReadSecret(
                        SearchView {
                            namespace: state.namespace,
                            name: state.rest[0],
                            rest: state.rest.skip(1),
                            target: state.target,
                        },
                    )
                },
            }
        }),
{
}

/// A digest leads to a rollout of it where another was seen last, to its being stored where none
/// was, and to nothing where it was seen last itself; a failure stays the failure that it is.
pub proof fn law_decision_is_about_the_digest(
    last: Option<Seq<char>>,
    digest: Seq<char>,
    error: ErrorView,
)
    ensures
        last is None ==> decision(last, Ok(digest)) == DecisionView::Store(digest),
        last == Some(digest) ==> decision(last, Ok(digest)) == DecisionView::Unchanged,
        last is Some && last != Some(digest) ==> decision(last, Ok(digest))
            == DecisionView::Rollout(digest),
        decision(last, Err(error)) == DecisionView::Failed(error),
{
}

/// What a decision does to the Deployment of the job. A rollout stores the digest and changes the
/// restart annotation of the pods' template, to a reading of the clock; the storing of a digest
/// stores it and has nothing about the pods; any other decision has no patch.
pub proof fn law_patch_does_what_was_decided(
    job: JobView,
    digest: Seq<char>,
    error: ErrorView,
    patch: Option<PatchView>,
)
    ensures
        leads_to(job, DecisionView::Rollout(digest), patch) ==> (patch matches Some(p) && {
            &&& p.namespace == job.namespace
            &&& p.name == job.name
            &&& p.field_manager == "k8s-rollout-controller"@
            &&& exists|restarted_at: Seq<char>, template_restarted_at: Seq<char>|
                {
                    &&& clock_reading(restarted_at) && utc_timestamp(restarted_at)
                    &&& clock_reading(template_restarted_at) && utc_timestamp(
                        template_restarted_at,
                    )
                    &&& p.body == #[trigger] rollout_body(
                        digest,
                        restarted_at,
                        template_restarted_at,
                    )
                }
        }),
        leads_to(job, DecisionView::Store(digest), patch) ==> (patch matches Some(p) && {
            &&& p.namespace == job.namespace
            &&& p.name == job.name
            &&& p.field_manager == "k8s-rollout-controller"@
            &&& p.body == store_body(digest)
        }),
        leads_to(job, DecisionView::Unchanged, patch) ==> patch is None,
        leads_to(job, DecisionView::Failed(error), patch) ==> patch is None,
{
    if let Some(p) = patch {
        if rolls_out_now(p, job.namespace, job.name, digest) {
            let (restarted_at, template_restarted_at) = choose|
                restarted_at: Seq<char>,
                template_restarted_at: Seq<char>,
            |
                {
                    &&& clock_reading(restarted_at) && utc_timestamp(restarted_at)
                    &&& clock_reading(template_restarted_at) && utc_timestamp(
                        template_restarted_at,
                    )
                    &&& p == #[trigger] rollout_patch(
                        job.namespace,
                        job.name,
                        digest,
                        restarted_at,
                        template_restarted_at,
                    )
                };
            assert(p.body == rollout_body(digest, restarted_at, template_restarted_at));
        }
    }
}

/// Jobs, searches, decisions and what came of them are seen as they are.
pub proof fn law_reconciliations_are_seen_as_they_are(
    job: Job,
    error: ControllerError,
    search_state: SecretSearch,
    step: Step,
    decided: Decision,
)
    ensures
        job@.name == job.name@,
        job@.namespace == job.namespace@,
        job@.image == job.image@,
        job@.pull_secrets.len() == job.pull_secrets@.len(),
        forall|i: int|
            0 <= i < job.pull_secrets@.len() ==> #[trigger] job@.pull_secrets[i]
                == job.pull_secrets@[i]@,
        match job.last_digest {
            Some(digest) => job@.last_digest == Some(digest@),
            None => job@.last_digest is None,
        },
        job_result(Ok(job)) == Ok::<JobView, ErrorView>(job@),
        job_result(Err(error)) == Err::<JobView, ErrorView>(error@),
        search_state@.namespace == search_state.namespace@,
        search_state@.name == search_state.name@,
        search_state@.rest.len() == search_state.rest@.len(),
        forall|i: int|
            0 <= i < search_state.rest@.len() ==> #[trigger] search_state@.rest[i]
                == search_state.rest@[i]@,
        search_state@.target == search_state.target@,
        Progress::ReadSecret(search_state)@ == ProgressView::ReadSecret(search_state@),
        Progress::Fetch(step)@ == ProgressView::Fetch(step@),
        match decided {
            Decision::Rollout(digest) => decided@ == DecisionView::Rollout(digest@),
            Decision::Store(digest) => decided@ == DecisionView::Store(digest@),
            Decision::Unchanged => decided@ == DecisionView::Unchanged,
            Decision::Failed(error) => decided@ == DecisionView::Failed(error@),
        },
{
}

/// When a Deployment is looked at again: five minutes after it was reconciled, whether or not there
/// was a patch, and a minute after a failure, whatever the failure. A patch that was refused is a
/// failure that tells the words for it.
pub proof fn law_deployments_are_looked_at_again(
    reply: Result<(), String>,
    finished: Result<u64, ControllerError>,
    error: &ControllerError,
    seconds: u64,
)
    requires
        call_ensures(finish, (reply,), finished),
        call_ensures(error_policy, (error,), seconds),
    ensures
        match reply {
            Ok(_) => finished == Ok::<u64, ControllerError>(300),
            Err(words) => finished matches Err(e) && e@ == ErrorView::KubeError(words@),
        },
        seconds == 60,
{
}

/// The Deployments that are looked at are those with the label `io.v0l.rollout` and the value `true`.
pub proof fn law_labelled_deployments_are_watched(labels: String)
    requires
        call_ensures(watched_labels, (), labels),
    ensures
        labels@ == "io.v0l.rollout=true"@,
{
}

/// `reconcile` reads the last digest from the Deployment's annotation, and `conclude` decides by it:
/// a Deployment whose annotation holds another digest than the one that is found now is rolled out
/// with that, one whose annotation holds the same is left alone, and one without the annotation has
/// the digest stored.
pub proof fn law_reconciling_compares_with_the_annotation(
    deployment: &Deployment,
    res: Result<Job, ControllerError>,
    job: Job,
    last: Option<&str>,
    found: String,
    decided: Decision,
    i: int,
)
    requires
        call_ensures(reconcile, (deployment,), res),
        res == Ok::<Job, ControllerError>(job),
        last.deep_view() == job.last_digest.deep_view(),
        call_ensures(conclude, (last, Ok(found)), decided),
        forall|i: int, j: int|
            0 <= i < j < deployment.annotations@.len() ==> (
            #[trigger] deployment.annotations@[i]).0@ != (#[trigger] deployment.annotations@[j]).0@,
    ensures
        job.name@ == deployment.name@,
        match deployment.namespace {
            Some(namespace) => job.namespace@ == namespace@,
            None => job.namespace@ == "default"@,
        },
        0 <= i < deployment.annotations@.len() && deployment.annotations@[i].0@
            == "io.v0l.rollout/last-digest"@ ==> {
            &&& job.last_digest matches Some(digest) && digest@ == deployment.annotations@[i].1@
            &&& deployment.annotations@[i].1@ != found@ ==> decided@ == DecisionView::Rollout(
                found@,
            )
            &&& deployment.annotations@[i].1@ == found@ ==> decided@ == DecisionView::Unchanged
        },
        (forall|j: int|
            0 <= j < deployment.annotations@.len() ==> (#[trigger] deployment.annotations@[j]).0@
                != "io.v0l.rollout/last-digest"@) ==> job.last_digest is None && decided@
            == DecisionView::Store(found@),
{
    law_last_digest_is_that_of_the_annotation(*deployment, i);
}

/// `fetch_image_digest` asks, where there are no pull secrets, for the image as it is written, and
/// keeps the parts of the image where there are.
pub proof fn law_fetching_is_about_the_written_image(
    image: &str,
    namespace: &str,
    names: &Vec<String>,
    progress: Progress,
    registry: Option<Seq<char>>,
    repository: Seq<char>,
    tag: Option<Seq<char>>,
)
    requires
        call_ensures(fetch_image_digest, (image, namespace, names), progress),
        image@ == written_reference(registry, repository, tag),
        match tag {
            Some(tag) => !tag.contains(':'),
            None => !repository.contains(':'),
        },
        match registry {
            Some(registry) => !registry.contains('/') && (written_rest(repository, tag).contains(
                '/',
            ) || registry.contains('.') || registry.contains(':')),
            None => bare_name(written_rest(repository, tag)),
        },
    ensures
        ({
            let named_tag = match tag {
                Some(tag) => tag,
                None => "latest"@,
            };
            match progress {
                Progress::ReadSecret(state) => {
                    &&& names@.len() > 0
                    &&& state.namespace@ == namespace@
                    &&& state.name@ == names@[0]@
                    &&& state.rest@.len() == names@.len() - 1
                    &&& state.target.registry@ == match registry {
                        Some(registry) => registry,
                        None => "docker.io"@,
                    }
                    &&& state.target.repository@ == repository
                    &&& state.target.tag@ == named_tag
                },
                Progress::Fetch(Step::Send(state, request)) => {
                    &&& names@.len() == 0
                    &&& match registry {
                        Some(host) if host != "docker.io"@ && host.len() > 0 => request.url@
                            == "https://"@ + host + "/v2/"@ + repository + "/manifests/"@
                            + named_tag,
                        _ => {
                            &&& request.url@
                                == "https://auth.docker.io/token?service=registry.docker.io&scope=repository:"@
                                + repository + ":pull"@
                            &&& state@ == (AwaitResponseView::DockerToken {
                                repository,
                                tag: named_tag,
                            })
                        },
                    }
                },
                _ => false,
            }
        }),
{
    law_reference_is_read_back(registry, repository, tag);
    law_search_is_about_the_image(image@, namespace@, string_views(names@));
    if let Progress::ReadSecret(state) = progress {
        assert(state@.rest.len() == state.rest@.len());
    }
}

/// `resolve_pull_secret_credentials` starts the fetch with the credentials that the secret has for the
/// registry of the image, and otherwise goes on to the next secret of the same search.
pub proof fn law_resolving_uses_the_secret(
    state: SecretSearch,
    data: SecretData,
    progress: Progress,
)
    requires
        call_ensures(
            resolve_pull_secret_credentials,
            (state, Ok(Some(data))),
            progress,
        ),
    ensures
        match secret_credentials(secret_view(data), state.target.registry@) {
            Some(creds) => progress@ == ProgressView::Fetch(
                fetch_start(state.target@, Some(creds)),
            ),
            None => if state.rest@.len() == 0 {
                progress@ == ProgressView::Fetch(fetch_start(state.target@, None))
            } else {
                progress matches Progress::ReadSecret(next) && {
                    &&& next.namespace@ == state.namespace@
                    &&& next.name@ == state.rest@[0]@
                    &&& next.rest@.len() == state.rest@.len() - 1
                    &&& next.target@ == state.target@
                }
            },
        },
{
    law_secret_is_used_or_passed_over(state@, Some(secret_view(data)));
    if let Progress::ReadSecret(next) = progress {
        assert(next@.rest.len() == next.rest@.len());
    }
    assert(state@.rest.len() == state.rest@.len());
}

} // verus!
