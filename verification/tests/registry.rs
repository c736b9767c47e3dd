use rollout_controller::credentials::{credentials_from_decoded, RegistryCredentials};
use rollout_controller::http::{HttpRequest, HttpResponse};
use rollout_controller::json::Json;
use rollout_controller::registry::{
    fetch_dockerhub_digest, fetch_generic_registry_digest, on_body, on_response, refused_manifest,
    refused_token,
    AwaitBody, AwaitResponse, Step, Target, MANIFEST_ACCEPT_HEADER,
};

fn creds() -> RegistryCredentials {
    credentials_from_decoded(Some(b"u:p".to_vec()), &Json::Null).unwrap()
}

fn head(status: u16, digest: Option<&str>, challenge: Option<&str>) -> Result<HttpResponse, String> {
    Ok(HttpResponse::new(
        status,
        digest.map(|d| d.as_bytes().to_vec()),
        challenge.map(|c| c.as_bytes().to_vec()),
    )
    .unwrap())
}

fn sent(step: Step) -> (AwaitResponse, HttpRequest) {
    match step {
        Step::Send(state, request) => (state, request),
        other => panic!("{:?}", other),
    }
}

fn awaited(step: Step) -> AwaitBody {
    match step {
        Step::ReadBody(state) => state,
        other => panic!("{:?}", other),
    }
}

fn done(step: Step) -> Result<String, String> {
    match step {
        Step::Done(res) => res.map_err(|e| e.message()),
        other => panic!("{:?}", other),
    }
}

fn header<'a>(request: &'a HttpRequest, name: &str) -> Option<&'a str> {
    request
        .headers
        .iter()
        .find(|(n, _)| n == name)
        .map(|(_, v)| v.as_str())
}

fn generic() -> (AwaitResponse, HttpRequest) {
    sent(fetch_generic_registry_digest("ghcr.io", "a/b", "v1", Some(&creds())))
}

const CHALLENGE: &str = r#"Bearer realm="https://ghcr.io/token",service="ghcr.io""#;

#[test]
fn docker_hub_gives_a_token_and_then_the_digest() {
    let (state, request) = sent(fetch_dockerhub_digest("nginx", "1.27", Some(&creds())));
    assert!(request.url.starts_with("https://auth.docker.io/token?"));
    assert!(request.basic_auth.is_some());
    let state = awaited(on_response(state, head(500, None, None)));
    let (state, request) = sent(on_body(state, Ok(br#"{"token": "t"}"#.to_vec())));
    assert_eq!(
        request.url,
        "https://registry-1.docker.io/v2/nginx/manifests/1.27"
    );
    assert_eq!(header(&request, "Authorization"), Some("Bearer t"));
    assert_eq!(
        header(&request, "Accept"),
        Some("application/vnd.docker.distribution.manifest.v2+json")
    );
    assert!(request.basic_auth.is_none());
    let step = on_response(state, head(404, Some("sha256:abc"), None));
    assert_eq!(done(step), Ok("sha256:abc".to_string()));
}

#[test]
fn docker_hub_manifests_without_a_digest_are_hashed() {
    let (state, _) = sent(fetch_dockerhub_digest("nginx", "1.27", None));
    let state = awaited(on_response(state, head(200, None, None)));
    let (state, _) = sent(on_body(state, Ok(br#"{"token": "t"}"#.to_vec())));
    let state = awaited(on_response(state, head(200, None, None)));
    let step = on_body(state, Ok(b"hello world".to_vec()));
    assert_eq!(
        done(step),
        Ok("sha256:b94d27b9934d3e08a52e52d7da7dabfac484efe37a5380ee9088f7ace2efcde9".to_string())
    );
}

#[test]
fn docker_hub_without_a_token_gives_no_digest() {
    let (state, _) = sent(fetch_dockerhub_digest("nginx", "1.27", None));
    let state = awaited(on_response(state, head(401, None, None)));
    let step = on_body(state, Ok(b"{}".to_vec()));
    assert_eq!(
        done(step),
        Err("Missing field: No token in auth response".to_string())
    );
}

#[test]
fn other_registries_are_asked_without_a_token_first() {
    let (state, request) = generic();
    assert_eq!(request.url, "https://ghcr.io/v2/a/b/manifests/v1");
    assert_eq!(header(&request, "Accept"), Some(MANIFEST_ACCEPT_HEADER));
    assert_eq!(
        MANIFEST_ACCEPT_HEADER.split(',').collect::<Vec<_>>(),
        [
            "application/vnd.docker.distribution.manifest.v2+json",
            "application/vnd.docker.distribution.manifest.list.v2+json",
            "application/vnd.oci.image.manifest.v1+json",
            "application/vnd.oci.image.index.v1+json",
        ]
    );
    assert!(header(&request, "Authorization").is_none());
    assert!(request.basic_auth.is_none());
    let step = on_response(state, head(200, Some("sha256:abc"), None));
    assert_eq!(done(step), Ok("sha256:abc".to_string()));
}

#[test]
fn a_challenge_is_answered_and_the_manifest_asked_for_again() {
    let (state, first) = generic();
    let (state, request) = sent(on_response(state, head(401, None, Some(CHALLENGE))));
    assert_eq!(request.url, "https://ghcr.io/token?service=ghcr.io");
    assert_eq!(request.basic_auth.unwrap().password, "p");
    let state = awaited(on_response(state, head(200, None, None)));
    let (state, again) = sent(on_body(state, Ok(br#"{"access_token": "t"}"#.to_vec())));
    assert_eq!(again.url, first.url);
    assert_eq!(header(&again, "Authorization"), Some("Bearer t"));
    assert_eq!(header(&again, "Accept"), Some(MANIFEST_ACCEPT_HEADER));
    assert!(again.basic_auth.is_none());
    let state = awaited(on_response(state, head(299, None, None)));
    assert!(done(on_body(state, Ok(vec![]))).unwrap().starts_with("sha256:e3b0"));
}

#[test]
fn a_second_challenge_is_a_refusal() {
    let (state, _) = generic();
    let (state, _) = sent(on_response(state, head(401, None, Some(CHALLENGE))));
    let state = awaited(on_response(state, head(200, None, None)));
    let (state, _) = sent(on_body(state, Ok(br#"{"token": "t"}"#.to_vec())));
    let step = on_response(state, head(401, Some("sha256:abc"), Some(CHALLENGE)));
    assert_eq!(
        done(step),
        Err("ghcr.io returned status 401 Unauthorized for ghcr.io/a/b:v1".to_string())
    );
}

#[test]
fn unreadable_challenges_are_errors() {
    for challenge in [None, Some("Basic realm=x"), Some("Bearer realm=\"\u{e9}\"")] {
        let (state, _) = generic();
        assert_eq!(
            done(on_response(state, head(401, None, challenge))),
            Err(
                "ghcr.io returned 401 with no parseable WWW-Authenticate challenge".to_string()
            )
        );
    }
    let (state, _) = generic();
    assert_eq!(
        done(on_response(state, head(401, None, Some("Bearer realm=x")))),
        Err("Invalid auth realm URL \"x\": relative URL without a base".to_string())
    );
}

#[test]
fn refusals_are_put_in_words() {
    let (state, _) = generic();
    assert_eq!(
        done(on_response(state, head(404, Some("sha256:abc"), None))),
        Err("ghcr.io returned status 404 Not Found for ghcr.io/a/b:v1".to_string())
    );
    let (state, _) = generic();
    assert_eq!(
        done(on_response(state, head(799, None, None))),
        Err(
            "ghcr.io returned status 799 <unknown status code> for ghcr.io/a/b:v1".to_string()
        )
    );
    let (state, _) = generic();
    let (state, _) = sent(on_response(state, head(401, None, Some(CHALLENGE))));
    assert_eq!(
        done(on_response(state, head(403, None, None))),
        Err("Token endpoint returned status 403 Forbidden".to_string())
    );
    let target = Target {
        registry: "r".to_string(),
        repository: "n".to_string(),
        tag: "t".to_string(),
    };
    assert_eq!(
        refused_manifest(&target, "w").message(),
        "r returned status w for r/n:t"
    );
}

#[test]
fn unreadable_digests_are_errors() {
    let (state, _) = generic();
    assert_eq!(
        done(on_response(state, head(200, Some("sha256:\u{e9}"), None))),
        Err("Header conversion error: failed to convert header to a str".to_string())
    );
}

#[test]
fn failed_exchanges_are_errors() {
    let (state, _) = generic();
    assert_eq!(
        done(on_response(state, Err("down".to_string()))),
        Err("HTTP error: down".to_string())
    );
    assert_eq!(
        done(on_body(AwaitBody::Manifest, Err("cut".to_string()))),
        Err("HTTP error: cut".to_string())
    );
}

#[test]
fn refused_tokens_are_put_in_words() {
    assert_eq!(
        refused_token("418 I'm a teapot").message(),
        "Token endpoint returned status 418 I'm a teapot"
    );
}

#[test]
fn no_request_is_sent_twice() {
    let (state, first) = generic();
    let (state, second) = sent(on_response(state, head(401, None, Some(CHALLENGE))));
    let state = awaited(on_response(state, head(200, None, None)));
    let (_, third) = sent(on_body(state, Ok(br#"{"token": "t"}"#.to_vec())));
    assert_eq!(first.headers.len(), 1);
    assert_eq!(second.headers.len(), 0);
    assert_eq!(third.headers.len(), 2);
}
