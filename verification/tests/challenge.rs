use rollout_controller::challenge::parse_www_authenticate;

#[test]
fn parse_www_authenticate_extracts_bearer_params() {
    let header = r#"Bearer realm="https://ghcr.io/token",service="ghcr.io",scope="repository:librenz/foo:pull""#;
    let challenge = parse_www_authenticate(header).expect("parse should succeed");
    assert_eq!(challenge.realm, "https://ghcr.io/token");
    assert_eq!(challenge.service.as_deref(), Some("ghcr.io"));
    assert_eq!(
        challenge.scope.as_deref(),
        Some("repository:librenz/foo:pull")
    );
}

#[test]
fn parse_www_authenticate_rejects_basic() {
    assert!(parse_www_authenticate(r#"Basic realm="foo""#).is_none());
}

#[test]
fn a_challenge_needs_a_realm() {
    assert!(parse_www_authenticate(r#"Bearer service="ghcr.io""#).is_none());
    assert!(parse_www_authenticate("Bearer").is_none());
    assert!(parse_www_authenticate("").is_none());
}

#[test]
fn the_scheme_may_be_in_lower_case_only_as_a_whole() {
    let c = parse_www_authenticate("bearer realm=x").unwrap();
    assert_eq!(c.realm, "x");
    assert!(c.service.is_none());
    assert!(c.scope.is_none());
    assert!(parse_www_authenticate("BEARER realm=x").is_none());
}

#[test]
fn the_last_of_equal_keys_counts() {
    let c = parse_www_authenticate(r#"Bearer realm="a", realm="b""#).unwrap();
    assert_eq!(c.realm, "b");
}

#[test]
fn white_space_and_unknown_parameters_are_passed_over() {
    let c = parse_www_authenticate(
        "  Bearer   realm = \"a=b\" ,\tfoo, error=\"x\" , scope=\u{a0}\"\"s\"\" ",
    )
    .unwrap();
    assert_eq!(c.realm, "a=b");
    assert_eq!(c.scope.as_deref(), Some("s"));
    assert!(c.service.is_none());
}

#[test]
fn a_comma_ends_a_parameter_even_in_quotes() {
    let c = parse_www_authenticate(r#"Bearer realm="r",scope="repository:a:pull,push""#).unwrap();
    assert_eq!(c.scope.as_deref(), Some("repository:a:pull"));
}

#[test]
fn parameters_are_read_back_in_any_order() {
    let params = [r#"realm="r""#, r#"service="s x""#, r#"scope="a:b=c""#, r#"error="e""#];
    let mut orders = 0;
    for a in 0..4 {
        for b in 0..4 {
            for c in 0..4 {
                for d in 0..4 {
                    if [b, c, d].contains(&a) || [c, d].contains(&b) || c == d {
                        continue;
                    }
                    orders += 1;
                    for scheme in ["Bearer", "bearer"] {
                        let header = format!(
                            "{} {},{},{},{}",
                            scheme, params[a], params[b], params[c], params[d]
                        );
                        let challenge = parse_www_authenticate(&header).unwrap();
                        assert_eq!(challenge.realm, "r");
                        assert_eq!(challenge.service.as_deref(), Some("s x"));
                        assert_eq!(challenge.scope.as_deref(), Some("a:b=c"));
                    }
                }
            }
        }
    }
    assert_eq!(orders, 24);
}

#[test]
fn parameters_that_are_not_written_are_not_read() {
    let challenge = parse_www_authenticate(r#"Bearer error="e",realm="""#).unwrap();
    assert_eq!(challenge.realm, "");
    assert_eq!(challenge.service, None);
    assert_eq!(challenge.scope, None);
}
