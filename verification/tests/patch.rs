use rollout_controller::json::Json;
use rollout_controller::patch::{
    rollout_at, trigger_rollout, update_digest_annotation, PatchRequest, DIGEST_ANNOTATION,
    RESTART_ANNOTATION,
};

fn annotations(json: &Json) -> &Json {
    json.get("metadata").unwrap().get("annotations").unwrap()
}

fn template(patch: &PatchRequest) -> &Json {
    annotations(patch.body.get("spec").unwrap().get("template").unwrap())
}

fn len(json: &Json) -> usize {
    json.as_object().unwrap().len()
}

#[test]
fn storing_a_digest_changes_nothing_else() {
    let patch = update_digest_annotation("ns", "app", "sha256:abc");
    assert_eq!(patch.namespace, "ns");
    assert_eq!(patch.name, "app");
    assert_eq!(patch.field_manager, "k8s-rollout-controller");
    assert_eq!(len(&patch.body), 1);
    assert_eq!(len(annotations(&patch.body)), 1);
    assert_eq!(
        annotations(&patch.body).str_at("io.v0l.rollout/last-digest"),
        Some("sha256:abc")
    );
}

#[test]
fn a_rollout_stores_the_digest_and_the_time_of_the_restart() {
    let patch = rollout_at("ns", "app", "sha256:abc", "t1", "t2");
    assert_eq!(patch.namespace, "ns");
    assert_eq!(patch.name, "app");
    assert_eq!(patch.field_manager, "k8s-rollout-controller");
    assert_eq!(len(&patch.body), 2);
    assert_eq!(len(annotations(&patch.body)), 2);
    assert_eq!(
        annotations(&patch.body).str_at(DIGEST_ANNOTATION),
        Some("sha256:abc")
    );
    assert_eq!(
        annotations(&patch.body).str_at("kubectl.kubernetes.io/restartedAt"),
        Some("t1")
    );
    assert_eq!(len(template(&patch)), 1);
    assert_eq!(template(&patch).str_at(RESTART_ANNOTATION), Some("t2"));
}

#[test]
fn a_rollout_happens_now() {
    let before = chrono::Utc::now();
    let patch = trigger_rollout("ns", "app", "sha256:abc");
    let after = chrono::Utc::now();
    assert_eq!(
        annotations(&patch.body).str_at(DIGEST_ANNOTATION),
        Some("sha256:abc")
    );
    for text in [
        annotations(&patch.body).str_at(RESTART_ANNOTATION).unwrap(),
        template(&patch).str_at(RESTART_ANNOTATION).unwrap(),
    ] {
        let (date, rest) = text.split_once('T').unwrap();
        let shape = |s: &str| s.replace(|c: char| c.is_ascii_digit(), "9");
        assert_eq!(shape(date), "9999-99-99");
        let time = rest.strip_suffix("+00:00").unwrap();
        assert!([
            "99:99:99",
            "99:99:99.999",
            "99:99:99.999999",
            "99:99:99.999999999",
        ]
        .contains(&shape(time).as_str()));
        let time = chrono::DateTime::parse_from_rfc3339(text).unwrap();
        assert!(before <= time && time <= after);
    }
}
