use rollout_controller::challenge::AuthChallenge;
use rollout_controller::credentials::{credentials_from_decoded, RegistryCredentials};
use rollout_controller::json::Json;
use rollout_controller::token::{
    ask_docker_token, bearer_request, bearer_token_from_json, docker_token_from_json,
    fetch_bearer_token, read_bearer_token, read_docker_token,
};

fn creds() -> RegistryCredentials {
    credentials_from_decoded(Some(b"u:p".to_vec()), &Json::Null).unwrap()
}

fn challenge(realm: &str, service: Option<&str>, scope: Option<&str>) -> AuthChallenge {
    AuthChallenge {
        realm: realm.to_string(),
        service: service.map(|s| s.to_string()),
        scope: scope.map(|s| s.to_string()),
    }
}

#[test]
fn docker_hub_is_asked_for_a_token_to_pull() {
    let request = ask_docker_token("library/nginx", None);
    assert_eq!(
        request.url,
        "https://auth.docker.io/token?service=registry.docker.io&scope=repository:library/nginx:pull"
    );
    assert!(request.headers.is_empty());
    assert!(request.basic_auth.is_none());
    let c = creds();
    let auth = ask_docker_token("a", Some(&c)).basic_auth.unwrap();
    assert_eq!((auth.username.as_str(), auth.password.as_str()), ("u", "p"));
}

#[test]
fn challenges_are_answered_at_their_realm() {
    let c = challenge(
        "https://ghcr.io/token",
        Some("ghcr.io"),
        Some("repository:librenz/foo:pull"),
    );
    let request = fetch_bearer_token(&c, Some(&creds())).unwrap();
    assert_eq!(
        request.url,
        "https://ghcr.io/token?service=ghcr.io&scope=repository%3Alibrenz%2Ffoo%3Apull"
    );
    assert!(request.headers.is_empty());
    assert_eq!(request.basic_auth.unwrap().username, "u");
}

#[test]
fn the_query_of_a_realm_is_kept() {
    let url = |c: AuthChallenge| fetch_bearer_token(&c, None).unwrap().url;
    assert_eq!(
        url(challenge("https://r.io/t?a=b", None, Some("x y"))),
        "https://r.io/t?a=b&scope=x+y"
    );
    assert_eq!(url(challenge("https://r.io", Some("s"), None)), "https://r.io/?service=s");
    assert_eq!(url(challenge("https://r.io/t", None, None)), "https://r.io/t?");
}

#[test]
fn a_realm_has_to_be_a_url() {
    let e = fetch_bearer_token(&challenge("no \"url\"\n", None, None), None).unwrap_err();
    assert_eq!(
        e.message(),
        "Invalid auth realm URL \"no \\\"url\\\"\\n\": relative URL without a base"
    );
}

#[test]
fn requests_are_made_of_a_url_or_its_error() {
    let request = bearer_request(Ok("https://x/".to_string()), "\"x\"", None).unwrap();
    assert_eq!(request.url, "https://x/");
    assert!(request.basic_auth.is_none());
    let e = bearer_request(Err("bad".to_string()), "\"x\"", None).unwrap_err();
    assert_eq!(e.message(), "Invalid auth realm URL \"x\": bad");
}

#[test]
fn tokens_are_read_from_json() {
    assert_eq!(read_docker_token(br#"{"token": "t"}"#).unwrap(), "t");
    assert_eq!(read_bearer_token(br#"{"token": "t"}"#).unwrap(), "t");
    assert_eq!(read_bearer_token(br#"{"access_token": "a"}"#).unwrap(), "a");
    assert_eq!(
        read_bearer_token(br#"{"access_token": "a", "token": "t"}"#).unwrap(),
        "t"
    );
    assert_eq!(
        read_bearer_token(br#"{"access_token": "a", "token": 1}"#).unwrap(),
        "a"
    );
}

#[test]
fn answers_without_a_token_are_refused() {
    let missing = "Missing field: No token in auth response";
    assert_eq!(
        read_docker_token(br#"{"access_token": "a"}"#).unwrap_err().message(),
        missing
    );
    assert_eq!(read_bearer_token(b"[]").unwrap_err().message(), missing);
    assert_eq!(docker_token_from_json(&Json::Null).unwrap_err().message(), missing);
    assert_eq!(bearer_token_from_json(&Json::Null).unwrap_err().message(), missing);
    let unreadable = "HTTP error: error decoding response body";
    assert_eq!(read_docker_token(b"<html>").unwrap_err().message(), unreadable);
    assert_eq!(read_bearer_token(b"").unwrap_err().message(), unreadable);
}
