use rollout_controller::credentials::SecretData;
use rollout_controller::error::ControllerError;
use rollout_controller::http::HttpRequest;
use rollout_controller::patch::{
    rollout_at, update_digest_annotation, DIGEST_ANNOTATION, RESTART_ANNOTATION,
};
use rollout_controller::reconcile::{
    conclude, error_policy, fetch_image_digest, finish, patch_of, reconcile,
    resolve_pull_secret_credentials, watched_labels, Container, Decision, Deployment, DeploymentSpec, PodSpec, Progress,
    SecretSearch,
};
use rollout_controller::registry::Step;

fn deployment(images: &[Option<&str>]) -> Deployment {
    Deployment {
        name: "app".to_string(),
        namespace: Some("ns".to_string()),
        annotations: vec![
            ("a".to_string(), "b".to_string()),
            (DIGEST_ANNOTATION.to_string(), "sha256:old".to_string()),
        ],
        spec: Some(DeploymentSpec {
            pod: Some(PodSpec {
                containers: images
                    .iter()
                    .map(|i| Container {
                        image: i.map(|s| s.to_string()),
                    })
                    .collect(),
                image_pull_secrets: Some(vec!["one".to_string(), "two".to_string()]),
            }),
        }),
    }
}

fn secret(registry: &str, user: &str) -> SecretData {
    let config = format!(
        r#"{{"auths": {{"{}": {{"username": "{}", "password": "p"}}}}}}"#,
        registry, user
    );
    vec![(".dockerconfigjson".to_string(), config.into_bytes())]
}

fn reading(progress: Progress) -> SecretSearch {
    match progress {
        Progress::ReadSecret(search) => search,
        other => panic!("{:?}", other),
    }
}

fn fetching(progress: Progress) -> HttpRequest {
    match progress {
        Progress::Fetch(Step::Send(_, request)) => request,
        other => panic!("{:?}", other),
    }
}

fn names(list: &[&str]) -> Vec<String> {
    list.iter().map(|s| s.to_string()).collect()
}

#[test]
fn the_first_container_counts() {
    let job = reconcile(&deployment(&[Some("nginx"), Some("redis")])).unwrap();
    assert_eq!(job.name, "app");
    assert_eq!(job.namespace, "ns");
    assert_eq!(job.image, "nginx");
    assert_eq!(job.pull_secrets, ["one", "two"]);
    assert_eq!(job.last_digest.as_deref(), Some("sha256:old"));
}

#[test]
fn what_may_be_missing_has_a_default() {
    let mut d = deployment(&[Some("nginx")]);
    d.namespace = None;
    d.annotations.clear();
    d.spec.as_mut().unwrap().pod.as_mut().unwrap().image_pull_secrets = None;
    let job = reconcile(&d).unwrap();
    assert_eq!(job.namespace, "default");
    assert!(job.pull_secrets.is_empty());
    assert!(job.last_digest.is_none());
}

#[test]
fn what_must_not_be_missing_is_an_error() {
    let message = |d: &Deployment| reconcile(d).unwrap_err().message();
    let mut d = deployment(&[None, Some("nginx")]);
    assert_eq!(message(&d), "Missing field: Container missing image");
    d = deployment(&[]);
    assert_eq!(message(&d), "Missing field: Deployment has no containers");
    d.spec.as_mut().unwrap().pod = None;
    assert_eq!(message(&d), "Missing field: Deployment template missing spec");
    d.spec = None;
    assert_eq!(message(&d), "Missing field: Deployment missing spec");
}

#[test]
fn without_secrets_the_registry_is_asked_at_once() {
    let request = fetching(fetch_image_digest("nginx", "ns", &vec![]));
    assert!(request.url.starts_with("https://auth.docker.io/token?"));
    assert!(request.basic_auth.is_none());
    let request = fetching(fetch_image_digest("/a/b", "ns", &vec![]));
    assert!(request.url.ends_with("&scope=repository:a/b:pull"));
    let request = fetching(fetch_image_digest("ghcr.io/a/b:c", "ns", &vec![]));
    assert_eq!(request.url, "https://ghcr.io/v2/a/b/manifests/c");
}

#[test]
fn secrets_are_read_in_their_order() {
    let search = reading(fetch_image_digest("nginx", "ns", &names(&["one", "two", "three"])));
    assert_eq!((search.namespace.as_str(), search.name.as_str()), ("ns", "one"));
    let search = reading(resolve_pull_secret_credentials(
        search,
        Err("forbidden".to_string()),
    ));
    assert_eq!(search.name, "two");
    let search = reading(resolve_pull_secret_credentials(search, Ok(None)));
    assert_eq!(search.name, "three");
    let request = fetching(resolve_pull_secret_credentials(
        search,
        Ok(Some(secret("ghcr.io", "x"))),
    ));
    assert!(request.basic_auth.is_none());
}

#[test]
fn the_first_secret_with_credentials_ends_the_search() {
    let search = reading(fetch_image_digest("nginx", "ns", &names(&["one", "two"])));
    let request = fetching(resolve_pull_secret_credentials(
        search,
        Ok(Some(secret("https://index.docker.io/v1/", "alice"))),
    ));
    assert_eq!(request.basic_auth.unwrap().username, "alice");
}

#[test]
fn a_changed_digest_is_rolled_out() {
    assert!(matches!(
        conclude(Some("a"), Ok("b".to_string())),
        Decision::Rollout(d) if d == "b"
    ));
    assert!(matches!(
        conclude(None, Ok("b".to_string())),
        Decision::Store(d) if d == "b"
    ));
    assert!(matches!(conclude(Some("b"), Ok("b".to_string())), Decision::Unchanged));
    for last in [None, Some("a")] {
        assert!(matches!(
            conclude(last, Err(ControllerError::from("x"))),
            Decision::Failed(e) if e.message() == "Missing field: x"
        ));
    }
}

#[test]
fn a_patched_deployment_is_settled() {
    for patch in [
        update_digest_annotation("ns", "app", "b"),
        rollout_at("ns", "app", "b", "t", "t"),
    ] {
        let stored = patch
            .body
            .get("metadata")
            .unwrap()
            .get("annotations")
            .unwrap()
            .str_at(DIGEST_ANNOTATION);
        assert!(matches!(conclude(stored, Ok("b".to_string())), Decision::Unchanged));
    }
}

#[test]
fn a_decision_leads_to_the_patch_of_its_deployment() {
    let job = reconcile(&deployment(&[Some("nginx")])).unwrap();
    for (decision, restarts) in [
        (Decision::Rollout("sha256:new".to_string()), true),
        (Decision::Store("sha256:new".to_string()), false),
    ] {
        let patch = patch_of(&job, &decision).unwrap();
        assert_eq!(patch.namespace, "ns");
        assert_eq!(patch.name, "app");
        assert_eq!(patch.field_manager, "k8s-rollout-controller");
        let annotations = patch.body.get("metadata").unwrap().get("annotations").unwrap();
        assert_eq!(annotations.str_at(DIGEST_ANNOTATION), Some("sha256:new"));
        assert_eq!(annotations.str_at(RESTART_ANNOTATION).is_some(), restarts);
        assert_eq!(patch.body.get("spec").is_some(), restarts);
    }
    assert!(patch_of(&job, &Decision::Unchanged).is_none());
    assert!(patch_of(&job, &Decision::Failed(ControllerError::ToStrError)).is_none());
}

#[test]
fn a_reconciliation_with_the_same_digest_patches_nothing() {
    let mut d = deployment(&[Some("nginx")]);
    for last in [Some("sha256:old"), None] {
        d.annotations.clear();
        if let Some(last) = last {
            d.annotations.push((DIGEST_ANNOTATION.to_string(), last.to_string()));
        }
        let job = reconcile(&d).unwrap();
        let decision = conclude(job.last_digest.as_deref(), Ok("sha256:new".to_string()));
        let patch = patch_of(&job, &decision).unwrap();
        let stored = patch
            .body
            .get("metadata")
            .unwrap()
            .get("annotations")
            .unwrap()
            .str_at(DIGEST_ANNOTATION)
            .unwrap();
        d.annotations = vec![(DIGEST_ANNOTATION.to_string(), stored.to_string())];
        let job = reconcile(&d).unwrap();
        let decision = conclude(job.last_digest.as_deref(), Ok("sha256:new".to_string()));
        assert!(patch_of(&job, &decision).is_none());
    }
}

#[test]
fn deployments_are_looked_at_again() {
    assert_eq!(finish(Ok(())).unwrap(), 300);
    assert_eq!(
        finish(Err("conflict".to_string())).unwrap_err().message(),
        "Kubernetes error: conflict"
    );
    assert_eq!(error_policy(&ControllerError::ToStrError), 60);
}

#[test]
fn labelled_deployments_are_watched() {
    assert_eq!(watched_labels(), "io.v0l.rollout=true");
}
