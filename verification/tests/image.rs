use rollout_controller::image::parse_image_reference;

#[test]
fn parse_image_reference_handles_common_forms() {
    assert_eq!(
        parse_image_reference("nginx").unwrap(),
        ("docker.io".into(), "nginx".into(), "latest".into())
    );
    assert_eq!(
        parse_image_reference("nginx:1.27").unwrap(),
        ("docker.io".into(), "nginx".into(), "1.27".into())
    );
    assert_eq!(
        parse_image_reference("library/nginx:1.27").unwrap(),
        ("docker.io".into(), "library/nginx".into(), "1.27".into())
    );
    assert_eq!(
        parse_image_reference("ghcr.io/librenz/runcontainers/frontend:latest").unwrap(),
        (
            "ghcr.io".into(),
            "librenz/runcontainers/frontend".into(),
            "latest".into()
        )
    );
}

fn parts(image: &str) -> (String, String, String) {
    parse_image_reference(image).unwrap()
}

fn expected(registry: &str, repository: &str, tag: &str) -> (String, String, String) {
    (registry.to_string(), repository.to_string(), tag.to_string())
}

#[test]
fn a_dot_or_a_port_makes_a_registry() {
    assert_eq!(parts("quay.io/foo:1"), expected("quay.io", "foo", "1"));
    assert_eq!(
        parts("localhost:5000/foo"),
        expected("localhost:5000", "foo", "latest")
    );
    assert_eq!(
        parts("localhost/foo:2"),
        expected("docker.io", "localhost/foo", "2")
    );
}

#[test]
fn two_slashes_make_a_registry() {
    assert_eq!(parts("a/b/c:d"), expected("a", "b/c", "d"));
    assert_eq!(parts("/b/c"), expected("", "b/c", "latest"));
}

#[test]
fn the_tag_stands_behind_the_last_colon() {
    assert_eq!(
        parts("nginx@sha256:abc"),
        expected("docker.io", "nginx@sha256", "abc")
    );
    assert_eq!(parts("a:b:c"), expected("docker.io", "a:b", "c"));
    assert_eq!(parts("nginx:"), expected("docker.io", "nginx", ""));
    assert_eq!(parts(""), expected("docker.io", "", "latest"));
    assert_eq!(parts("größe:ä"), expected("docker.io", "größe", "ä"));
}

#[test]
fn a_full_reference_is_read_back() {
    let (registry, repository, tag) = parts("ghcr.io/owner/app:v1");
    assert_eq!(
        format!("{}/{}:{}", registry, repository, tag),
        "ghcr.io/owner/app:v1"
    );
}
