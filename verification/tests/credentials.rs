use base64::engine::general_purpose::STANDARD;
use base64::Engine;
use rollout_controller::credentials::{
    credentials_from_config, credentials_from_decoded, credentials_from_secret,
    extract_credentials_from_auth_entry, find_config, registry_key_matches,
};
use rollout_controller::json::{parse_json, Json};

fn entry(fields: &[(&str, &str)]) -> Json {
    Json::Object(
        fields
            .iter()
            .map(|(k, v)| (k.to_string(), Json::Text(v.to_string())))
            .collect(),
    )
}

#[test]
fn registry_key_matches_handles_aliases_and_paths() {
    assert!(registry_key_matches("ghcr.io", "ghcr.io"));
    assert!(registry_key_matches("https://ghcr.io", "ghcr.io"));
    assert!(registry_key_matches("https://index.docker.io/v1/", "docker.io"));
    assert!(registry_key_matches("docker.io", "index.docker.io"));
    assert!(!registry_key_matches("ghcr.io", "gcr.io"));
    assert!(!registry_key_matches("quay.io", "ghcr.io"));
}

#[test]
fn extract_credentials_decodes_base64_auth() {
    let entry = entry(&[("auth", &STANDARD.encode("alice:s3cret"))]);
    let creds = extract_credentials_from_auth_entry(&entry).unwrap();
    assert_eq!(creds.username, "alice");
    assert_eq!(creds.password, "s3cret");
}

#[test]
fn extract_credentials_falls_back_to_username_password() {
    let entry = entry(&[("username", "bob"), ("password", "pw")]);
    let creds = extract_credentials_from_auth_entry(&entry).unwrap();
    assert_eq!(creds.username, "bob");
    assert_eq!(creds.password, "pw");
}

#[test]
fn extract_credentials_handles_password_with_colon() {
    let entry = entry(&[("auth", &STANDARD.encode("user:pa:ss"))]);
    let creds = extract_credentials_from_auth_entry(&entry).unwrap();
    assert_eq!(creds.username, "user");
    assert_eq!(creds.password, "pa:ss");
}

#[test]
fn keys_may_have_schemes_paths_and_any_case() {
    assert!(registry_key_matches("  http://GHCR.io/v2/x ", "ghcr.IO"));
    assert!(registry_key_matches("https://https://http://ghcr.io", "ghcr.io"));
    assert!(!registry_key_matches("http://https://ghcr.io", "ghcr.io"));
    assert!(!registry_key_matches("HTTPS://ghcr.io", "ghcr.io"));
}

#[test]
fn neither_a_path_nor_white_space_changes_the_host() {
    for host in ["ghcr.io", ""] {
        for path in ["/", "/v2/", "/v2/ \t", "/ ", " \u{a0}"] {
            for scheme in ["", "https://", "http://"] {
                let key = format!("{}{}{}", scheme, host, path);
                assert_eq!(
                    registry_key_matches(&key, "ghcr.io"),
                    host == "ghcr.io",
                    "{:?}",
                    key
                );
            }
        }
    }
    assert!(registry_key_matches("/v2/ ", ""));
    assert!(registry_key_matches("https:///v2/", ""));
}

#[test]
fn the_empty_registry_is_docker_hub() {
    assert!(registry_key_matches("registry-1.docker.io", ""));
    assert!(registry_key_matches("", ""));
    assert!(!registry_key_matches("ghcr.io", ""));
    assert!(!registry_key_matches("docker.io", "ghcr.io"));
}

#[test]
fn auth_goes_before_username_and_password() {
    let both = entry(&[
        ("auth", &STANDARD.encode("a:b")),
        ("username", "bob"),
        ("password", "pw"),
    ]);
    assert_eq!(
        extract_credentials_from_auth_entry(&both).unwrap().username,
        "a"
    );
}

#[test]
fn unusable_auth_is_passed_over() {
    let not_utf8 = STANDARD.encode([0xff, 0x3a, 0x41]);
    let no_colon = STANDARD.encode("alice");
    for auth in ["", "%%%", "YTpi=", "YTp=", no_colon.as_str(), not_utf8.as_str()] {
        let e = entry(&[("auth", auth), ("username", "bob"), ("password", "pw")]);
        assert_eq!(
            extract_credentials_from_auth_entry(&e).unwrap().username,
            "bob"
        );
    }
}

#[test]
fn incomplete_entries_have_no_credentials() {
    assert!(extract_credentials_from_auth_entry(&entry(&[("username", "bob")])).is_none());
    assert!(extract_credentials_from_auth_entry(&entry(&[("password", "pw")])).is_none());
    assert!(extract_credentials_from_auth_entry(&Json::Null).is_none());
    let number = Json::Object(vec![("auth".to_string(), Json::Number("1".to_string()))]);
    assert!(extract_credentials_from_auth_entry(&number).is_none());
}

#[test]
fn decoded_bytes_are_split_at_the_first_colon() {
    let creds = credentials_from_decoded(Some(b"u:p:q".to_vec()), &Json::Null).unwrap();
    assert_eq!(creds.username, "u");
    assert_eq!(creds.password, "p:q");
    assert!(credentials_from_decoded(Some(vec![0x80, 0x3a]), &Json::Null).is_none());
    assert!(credentials_from_decoded(None, &Json::Null).is_none());
}

#[test]
fn the_first_matching_entry_with_credentials_counts() {
    let config = parse_json(
        br#"{"auths": {
            "https://ghcr.io/z": {"username": "third", "password": "p"},
            "ghcr.io": {"username": "incomplete"},
            "http://ghcr.io": {"username": "second", "password": "p"},
            "docker.io": {"username": "other", "password": "p"}
        }}"#,
    )
    .unwrap();
    let creds = credentials_from_config(&config, "ghcr.io").unwrap();
    assert_eq!(creds.username, "second");
    assert!(credentials_from_config(&config, "quay.io").is_none());
    assert!(credentials_from_config(&Json::Null, "ghcr.io").is_none());
}

#[test]
fn secrets_hold_their_configuration_under_two_keys() {
    let config = |user: &str| {
        format!(
            r#"{{"auths": {{"ghcr.io": {{"username": "{}", "password": "p"}}}}}}"#,
            user
        )
        .into_bytes()
    };
    let old = vec![("config.json".to_string(), config("old"))];
    let both = vec![
        ("config.json".to_string(), config("old")),
        (".dockerconfigjson".to_string(), config("new")),
    ];
    let broken = vec![
        ("config.json".to_string(), config("old")),
        (".dockerconfigjson".to_string(), b"{".to_vec()),
    ];
    let neither = vec![("tls.crt".to_string(), config("x"))];
    assert_eq!(find_config(&old), Some(&config("old")));
    assert_eq!(find_config(&both), Some(&config("new")));
    assert_eq!(find_config(&broken), Some(&b"{".to_vec()));
    assert_eq!(find_config(&neither), None);
    let user = |data| credentials_from_secret(&data, "ghcr.io").map(|c| c.username);
    assert_eq!(user(old).as_deref(), Some("old"));
    assert_eq!(user(both).as_deref(), Some("new"));
    assert_eq!(user(broken), None);
    assert_eq!(user(neither), None);
}

#[test]
fn credentials_are_cloned_whole() {
    let creds = credentials_from_decoded(Some(b"u:p".to_vec()), &Json::Null).unwrap();
    let copy = creds.clone();
    assert_eq!(copy.username, "u");
    assert_eq!(copy.password, "p");
}
