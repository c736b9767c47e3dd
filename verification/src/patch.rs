//! Patches of a Deployment.

use vstd::prelude::*;
use vstd::string::*;
use crate::json::{Json, JsonView};
use crate::text::text_less;

verus! {

/// The annotation that holds the digest that was seen last.
pub const DIGEST_ANNOTATION: &'static str = "io.v0l.rollout/last-digest";

/// The annotation whose change makes Kubernetes restart a Deployment's pods.
pub const RESTART_ANNOTATION: &'static str = "kubectl.kubernetes.io/restartedAt";

/// The name under which the controller changes fields.
pub const FIELD_MANAGER: &'static str = "k8s-rollout-controller";

/// A JSON merge patch of one Deployment.
#[derive(Debug)]
pub struct PatchRequest {
    pub namespace: String,
    pub name: String,
    pub field_manager: String,
    pub body: Json,
}

/// `PatchRequest` over mathematical text.
#[verifier::ext_equal]
pub struct PatchView {
    pub namespace: Seq<char>,
    pub name: Seq<char>,
    pub field_manager: Seq<char>,
    pub body: JsonView,
}

impl View for PatchRequest {
    type V = PatchView;

    open spec fn view(&self) -> PatchView {
        PatchView {
            namespace: self.namespace@,
            name: self.name@,
            field_manager: self.field_manager@,
            body: self.body@,
        }
    }
}

impl DeepView for PatchRequest {
    type V = PatchView;

    open spec fn deep_view(&self) -> PatchView {
        self@
    }
}

/// An object with one entry.
pub open spec fn object1(key: Seq<char>, value: JsonView) -> JsonView {
    JsonView::Object(seq![(key, value)])
}

/// An object with two entries.
pub open spec fn object2(
    key1: Seq<char>,
    value1: JsonView,
    key2: Seq<char>,
    value2: JsonView,
) -> JsonView {
    JsonView::Object(seq![(key1, value1), (key2, value2)])
}

/// The patch that stores `digest`, and nothing else.
pub open spec fn store_body(digest: Seq<char>) -> JsonView {
    object1(
        "metadata"@,
        object1("annotations"@, object1(DIGEST_ANNOTATION@, JsonView::Text(digest))),
    )
}

/// The patch that stores `digest` and `restarted_at`, and restarts the pods by storing
/// `template_restarted_at` in their template.
pub open spec fn rollout_body(
    digest: Seq<char>,
    restarted_at: Seq<char>,
    template_restarted_at: Seq<char>,
) -> JsonView {
    object2(
        "metadata"@,
        object1(
            "annotations"@,
            object2(
                DIGEST_ANNOTATION@,
                JsonView::Text(digest),
                RESTART_ANNOTATION@,
                JsonView::Text(restarted_at),
            ),
        ),
        "spec"@,
        object1(
            "template"@,
            object1(
                "metadata"@,
                object1(
                    "annotations"@,
                    object1(RESTART_ANNOTATION@, JsonView::Text(template_restarted_at)),
                ),
            ),
        ),
    )
}

/// The patch of a Deployment that stores `digest`.
pub open spec fn store_patch(
    namespace: Seq<char>,
    name: Seq<char>,
    digest: Seq<char>,
) -> PatchView {
    PatchView { namespace, name, field_manager: FIELD_MANAGER@, body: store_body(digest) }
}

/// The patch of a Deployment that stores `digest` and restarts its pods.
pub open spec fn rollout_patch(
    namespace: Seq<char>,
    name: Seq<char>,
    digest: Seq<char>,
    restarted_at: Seq<char>,
    template_restarted_at: Seq<char>,
) -> PatchView {
    PatchView {
        namespace,
        name,
        field_manager: FIELD_MANAGER@,
        body: rollout_body(digest, restarted_at, template_restarted_at),
    }
}

fn make_object1(key: &str, value: Json) -> (res: Json)
    ensures
        res@ == object1(key@, value@),
{
    let mut entries: Vec<(String, Json)> = Vec::new();
    entries.push((key.to_owned(), value));
    let res: Json = Json::Object(entries);
    assert(res@->Object_0 =~= seq![(key@, value@)]);
    res
}

fn make_object2(key1: &str, value1: Json, key2: &str, value2: Json) -> (res: Json)
    ensures
        res@ == object2(key1@, value1@, key2@, value2@),
{
    let mut entries: Vec<(String, Json)> = Vec::new();
    entries.push((key1.to_owned(), value1));
    entries.push((key2.to_owned(), value2));
    let res: Json = Json::Object(entries);
    assert(res@->Object_0 =~= seq![(key1@, value1@), (key2@, value2@)]);
    res
}

/// The patch that stores `digest` in a Deployment's annotations.
pub fn update_digest_annotation(namespace: &str, name: &str, digest: &str) -> (res: PatchRequest)
    ensures
        res@ == store_patch(namespace@, name@, digest@),
{
    let annotations: Json = make_object1(DIGEST_ANNOTATION, Json::Text(digest.to_owned()));
    PatchRequest {
        namespace: namespace.to_owned(),
        name: name.to_owned(),
        field_manager: FIELD_MANAGER.to_owned(),
        body: make_object1("metadata", make_object1("annotations", annotations)),
    }
}

/// The patch that stores `digest` in a Deployment's annotations and restarts its pods, with the
/// time of the restart for the Deployment and for its pods.
pub fn rollout_at(
    namespace: &str,
    name: &str,
    digest: &str,
    restarted_at: &str,
    template_restarted_at: &str,
) -> (res: PatchRequest)
    ensures
        res@ == rollout_patch(namespace@, name@, digest@, restarted_at@, template_restarted_at@),
{
    let annotations: Json = make_object2(
        DIGEST_ANNOTATION,
        Json::Text(digest.to_owned()),
        RESTART_ANNOTATION,
        Json::Text(restarted_at.to_owned()),
    );
    let template: Json = make_object1(
        "metadata",
        make_object1(
            "annotations",
            make_object1(RESTART_ANNOTATION, Json::Text(template_restarted_at.to_owned())),
        ),
    );
    PatchRequest {
        namespace: namespace.to_owned(),
        name: name.to_owned(),
        field_manager: FIELD_MANAGER.to_owned(),
        body: make_object2(
            "metadata",
            make_object1("annotations", annotations),
            "spec",
            make_object1("template", template),
        ),
    }
}

/// A decimal digit.
pub open spec fn digit(c: char) -> bool {
    '0' <= c <= '9'
}

/// A text of decimal digits and nothing else.
pub open spec fn digits(text: Seq<char>) -> bool {
    forall|i: int| 0 <= i < text.len() ==> digit(#[trigger] text[i])
}

/// A date in the notation of RFC 3339: a year, a month and a day, with `-` between them. A year has
/// four digits, or a `+` and more than four.
pub open spec fn date_notation(text: Seq<char>) -> bool {
    exists|year: Seq<char>, month: Seq<char>, day: Seq<char>|
        {
            &&& digits(year) && year.len() == 4 || year.len() > 5 && year[0] == '+' && digits(
                year.skip(1),
            )
            &&& digits(month) && month.len() == 2
            &&& digits(day) && day.len() == 2
            &&& text == #[trigger] (year + seq!['-'] + month + seq!['-'] + day)
        }
}

/// A time of day in the notation of RFC 3339: hours, minutes and seconds, with `:` between them,
/// and behind a `.` three, six or nine digits of a fraction, where there is one.
pub open spec fn time_notation(text: Seq<char>) -> bool {
    exists|hour: Seq<char>, minute: Seq<char>, second: Seq<char>, fraction: Seq<char>|
        {
            &&& digits(hour) && hour.len() == 2
            &&& digits(minute) && minute.len() == 2
            &&& digits(second) && second.len() == 2
            &&& fraction.len() == 0 || fraction[0] == '.' && digits(fraction.skip(1)) && (
            fraction.len() == 4 || fraction.len() == 7 || fraction.len() == 10)
            &&& text == #[trigger] (hour + seq![':'] + minute + seq![':'] + second + fraction)
        }
}

/// A point in time in the notation of RFC 3339, in UTC: a date, a `T`, a time and the offset.
pub open spec fn utc_timestamp(text: Seq<char>) -> bool {
    exists|date: Seq<char>, time: Seq<char>|
        {
            &&& #[trigger] date_notation(date)
            &&& #[trigger] time_notation(time)
            &&& text == date + seq!['T'] + time + "+00:00"@
        }
}

/// `chrono::Utc::now` and `to_rfc3339` of what it gives: the time by the machine's clock, in UTC.
/// Which time it is, nothing says. `Utc::now` panics where the clock stands before 1970.
#[verifier::external_body]
fn now_rfc3339() -> (res: String)
    ensures
        utc_timestamp(res@),
{
    chrono::Utc::now().to_rfc3339()
}

/// `text` is what a reading of the clock may give: a possible result of `now_rfc3339`. No text is
/// known to be one but those that a call has given.
pub closed spec fn clock_reading(text: Seq<char>) -> bool {
    exists|reading: String|
        reading@ == text && #[trigger] call_ensures(now_rfc3339, (), reading)
}

/// `patch` stores `digest` in a Deployment's annotations and restarts its pods, with readings of
/// the clock for the time of the restart.
pub open spec fn rolls_out_now(
    patch: PatchView,
    namespace: Seq<char>,
    name: Seq<char>,
    digest: Seq<char>,
) -> bool {
    exists|restarted_at: Seq<char>, template_restarted_at: Seq<char>|
        {
            &&& clock_reading(restarted_at) && utc_timestamp(restarted_at)
            &&& clock_reading(template_restarted_at) && utc_timestamp(template_restarted_at)
            &&& patch == #[trigger] rollout_patch(
                namespace,
                name,
                digest,
                restarted_at,
                template_restarted_at,
            )
        }
}

/// The patch that stores `new_digest` in a Deployment's annotations and restarts its pods now. The
/// clock is read once for the Deployment and once for its pods.
pub fn trigger_rollout(namespace: &str, name: &str, new_digest: &str) -> (res: PatchRequest)
    ensures
        rolls_out_now(res@, namespace@, name@, new_digest@),
{
    let restarted_at: String = now_rfc3339();
    let template_restarted_at: String = now_rfc3339();
    assert(clock_reading(restarted_at@) && clock_reading(template_restarted_at@));
    rollout_at(
        namespace,
        name,
        new_digest,
        restarted_at.as_str(),
        template_restarted_at.as_str(),
    )
}

/// The text that a member of an object is under a JSON merge patch of the object, where the member
/// was `before`: a member of the patch replaces it, a null takes it away, and what the patch does
/// not name stays.
pub open spec fn patched(before: Option<Seq<char>>, patch: JsonView, key: Seq<char>) -> Option<
    Seq<char>,
> {
    match patch.get(key) {
        Some(value) => value.text(),
        None => before,
    }
}

/// The part of a patch that is about a Deployment's annotations, or `Null` where the patch names
/// none. (A null in the patch itself would take all of them away; the patches here hold none.)
pub open spec fn annotations_part(patch: JsonView) -> JsonView {
    match patch.get("metadata"@) {
        Some(metadata) => match metadata.get("annotations"@) {
            Some(annotations) => annotations,
            None => JsonView::Null,
        },
        None => JsonView::Null,
    }
}

/// The part of a patch that is about the annotations of the pods' template.
pub open spec fn template_part(patch: JsonView) -> JsonView {
    match patch.get("spec"@) {
        Some(spec) => match spec.get("template"@) {
            Some(template) => annotations_part(template),
            None => JsonView::Null,
        },
        None => JsonView::Null,
    }
}

/// Storing a digest stores exactly it: the annotation then holds the digest, every other
/// annotation keeps its value, and the pods' template stays as it is.
pub proof fn law_stored_digest_is_read_back(
    digest: Seq<char>,
    before: Option<Seq<char>>,
    key: Seq<char>,
)
    ensures
        store_body(digest).well_formed(),
        patched(before, annotations_part(store_body(digest)), key) == if key
            == DIGEST_ANNOTATION@ {
            Some(digest)
        } else {
            before
        },
        store_body(digest).get("spec"@) is None,
        patched(before, template_part(store_body(digest)), key) == before,
{
    lemma_keys();
    let annotations = object1(DIGEST_ANNOTATION@, JsonView::Text(digest));
    let metadata = object1("annotations"@, annotations);
    lemma_object1(DIGEST_ANNOTATION@, JsonView::Text(digest));
    lemma_object1("annotations"@, annotations);
    lemma_object1("metadata"@, metadata);
}

/// A rollout stores the digest and the time of the restart in the Deployment's annotations and the
/// time of the restart in the template's, and every other annotation keeps its value.
pub proof fn law_rollout_stores_digest_and_restarts(
    digest: Seq<char>,
    restarted_at: Seq<char>,
    template_restarted_at: Seq<char>,
    before: Option<Seq<char>>,
    key: Seq<char>,
)
    ensures
        ({
            let patch = rollout_body(digest, restarted_at, template_restarted_at);
            &&& patch.well_formed()
            &&& patched(before, annotations_part(patch), key) == if key == DIGEST_ANNOTATION@ {
                Some(digest)
            } else if key == RESTART_ANNOTATION@ {
                Some(restarted_at)
            } else {
                before
            }
            &&& patched(before, template_part(patch), key) == if key == RESTART_ANNOTATION@ {
                Some(template_restarted_at)
            } else {
                before
            }
        }),
{
    lemma_keys();
    let restart = object1(RESTART_ANNOTATION@, JsonView::Text(template_restarted_at));
    let template_metadata = object1("annotations"@, restart);
    let template = object1("metadata"@, template_metadata);
    let spec_part = object1("template"@, template);
    lemma_object1(RESTART_ANNOTATION@, JsonView::Text(template_restarted_at));
    lemma_object1("annotations"@, restart);
    lemma_object1("metadata"@, template_metadata);
    lemma_object1("template"@, template);
    let annotations = object2(
        DIGEST_ANNOTATION@,
        JsonView::Text(digest),
        RESTART_ANNOTATION@,
        JsonView::Text(restarted_at),
    );
    let metadata = object1("annotations"@, annotations);
    lemma_object2(
        DIGEST_ANNOTATION@,
        JsonView::Text(digest),
        RESTART_ANNOTATION@,
        JsonView::Text(restarted_at),
    );
    lemma_object1("annotations"@, annotations);
    lemma_object2("metadata"@, metadata, "spec"@, spec_part);
}

proof fn lemma_keys()
    ensures
        text_less(DIGEST_ANNOTATION@, RESTART_ANNOTATION@),
        DIGEST_ANNOTATION@ != RESTART_ANNOTATION@,
        text_less("metadata"@, "spec"@),
        "metadata"@ != "spec"@,
{
    reveal_strlit("io.v0l.rollout/last-digest");
    reveal_strlit("kubectl.kubernetes.io/restartedAt");
    reveal_strlit("metadata");
    reveal_strlit("spec");
    assert(DIGEST_ANNOTATION@[0] == 'i');
    assert(RESTART_ANNOTATION@[0] == 'k');
    assert("metadata"@[0] == 'm');
    assert("spec"@[0] == 's');
}

proof fn lemma_object1(key: Seq<char>, value: JsonView)
    requires
        value.well_formed(),
    ensures
        object1(key, value).well_formed(),
        forall|k: Seq<char>|
            #[trigger] object1(key, value).get(k) == if k == key {
                Some(value)
            } else {
                None
            },
{
    let entries = seq![(key, value)];
    assert(entries.skip(1) =~= seq![]);
    reveal_with_fuel(crate::json::entry, 3);
}

proof fn lemma_object2(key1: Seq<char>, value1: JsonView, key2: Seq<char>, value2: JsonView)
    requires
        text_less(key1, key2),
        key1 != key2,
        value1.well_formed(),
        value2.well_formed(),
    ensures
        object2(key1, value1, key2, value2).well_formed(),
        forall|k: Seq<char>|
            #[trigger] object2(key1, value1, key2, value2).get(k) == if k == key1 {
                Some(value1)
            } else if k == key2 {
                Some(value2)
            } else {
                None
            },
{
    let entries = seq![(key1, value1), (key2, value2)];
    assert(entries.skip(1) =~= seq![(key2, value2)]);
    assert(entries.skip(1).skip(1) =~= seq![]);
    reveal_with_fuel(crate::json::entry, 4);
}

/// A patch is of the Deployment that it is made for, in the name of the controller, and holds what
/// it is made to store.
pub proof fn law_patch_is_of_the_deployment(
    namespace: Seq<char>,
    name: Seq<char>,
    digest: Seq<char>,
    restarted_at: Seq<char>,
    template_restarted_at: Seq<char>,
)
    ensures
        store_patch(namespace, name, digest) == (PatchView {
            namespace,
            name,
            field_manager: "k8s-rollout-controller"@,
            body: store_body(digest),
        }),
        rollout_patch(namespace, name, digest, restarted_at, template_restarted_at) == (PatchView {
            namespace,
            name,
            field_manager: "k8s-rollout-controller"@,
            body: rollout_body(digest, restarted_at, template_restarted_at),
        }),
{
}

/// `value` is an object with the keys `keys`, each once, and no other.
pub open spec fn has_just(value: JsonView, keys: Seq<Seq<char>>) -> bool {
    value matches JsonView::Object(entries) && entries.map_values(
        |e: (Seq<char>, JsonView)| e.0,
    ) == keys
}

/// The patch that stores a digest names one annotation and nothing else, on any level.
pub proof fn law_storing_touches_one_annotation(digest: Seq<char>)
    ensures
        ({
            let patch = store_body(digest);
            &&& has_just(patch, seq!["metadata"@])
            &&& patch.get("metadata"@) matches Some(metadata)
            &&& has_just(metadata, seq!["annotations"@])
            &&& metadata.get("annotations"@) matches Some(annotations)
            &&& has_just(annotations, seq!["io.v0l.rollout/last-digest"@])
            &&& annotations.get("io.v0l.rollout/last-digest"@) == Some(JsonView::Text(digest))
        }),
{
    let annotations = object1(DIGEST_ANNOTATION@, JsonView::Text(digest));
    let metadata = object1("annotations"@, annotations);
    lemma_just1(DIGEST_ANNOTATION@, JsonView::Text(digest));
    lemma_just1("annotations"@, annotations);
    lemma_just1("metadata"@, metadata);
}

/// The patch of a rollout names two annotations of the Deployment and one of its pods' template,
/// and nothing else, on any level: no field of the Deployment but its annotations is touched.
pub proof fn law_rollout_touches_annotations_only(
    digest: Seq<char>,
    restarted_at: Seq<char>,
    template_restarted_at: Seq<char>,
)
    ensures
        ({
            let patch = rollout_body(digest, restarted_at, template_restarted_at);
            &&& has_just(patch, seq!["metadata"@, "spec"@])
            &&& patch.get("metadata"@) matches Some(metadata)
            &&& has_just(metadata, seq!["annotations"@])
            &&& metadata.get("annotations"@) matches Some(annotations)
            &&& has_just(
                annotations,
                seq!["io.v0l.rollout/last-digest"@, "kubectl.kubernetes.io/restartedAt"@],
            )
            &&& annotations.get("io.v0l.rollout/last-digest"@) == Some(JsonView::Text(digest))
            &&& annotations.get("kubectl.kubernetes.io/restartedAt"@) == Some(
                JsonView::Text(restarted_at),
            )
            &&& patch.get("spec"@) matches Some(spec_part)
            &&& has_just(spec_part, seq!["template"@])
            &&& spec_part.get("template"@) matches Some(template)
            &&& has_just(template, seq!["metadata"@])
            &&& template.get("metadata"@) matches Some(pods_metadata)
            &&& has_just(pods_metadata, seq!["annotations"@])
            &&& pods_metadata.get("annotations"@) matches Some(pods_annotations)
            &&& has_just(pods_annotations, seq!["kubectl.kubernetes.io/restartedAt"@])
            &&& pods_annotations.get("kubectl.kubernetes.io/restartedAt"@) == Some(
                JsonView::Text(template_restarted_at),
            )
        }),
{
    lemma_keys();
    let restart = object1(RESTART_ANNOTATION@, JsonView::Text(template_restarted_at));
    let template_metadata = object1("annotations"@, restart);
    let template = object1("metadata"@, template_metadata);
    let pods_part = object1("template"@, template);
    lemma_just1(RESTART_ANNOTATION@, JsonView::Text(template_restarted_at));
    lemma_just1("annotations"@, restart);
    lemma_just1("metadata"@, template_metadata);
    lemma_just1("template"@, template);
    let annotations = object2(
        DIGEST_ANNOTATION@,
        JsonView::Text(digest),
        RESTART_ANNOTATION@,
        JsonView::Text(restarted_at),
    );
    let metadata = object1("annotations"@, annotations);
    lemma_just2(
        DIGEST_ANNOTATION@,
        JsonView::Text(digest),
        RESTART_ANNOTATION@,
        JsonView::Text(restarted_at),
    );
    lemma_just1("annotations"@, annotations);
    lemma_just2("metadata"@, metadata, "spec"@, pods_part);
}

proof fn lemma_just1(key: Seq<char>, value: JsonView)
    ensures
        has_just(object1(key, value), seq![key]),
        object1(key, value).get(key) == Some(value),
{
    let entries = seq![(key, value)];
    assert(entries.map_values(|e: (Seq<char>, JsonView)| e.0) =~= seq![key]);
}

proof fn lemma_just2(key1: Seq<char>, value1: JsonView, key2: Seq<char>, value2: JsonView)
    requires
        key1 != key2,
    ensures
        has_just(object2(key1, value1, key2, value2), seq![key1, key2]),
        object2(key1, value1, key2, value2).get(key1) == Some(value1),
        object2(key1, value1, key2, value2).get(key2) == Some(value2),
{
    let entries = seq![(key1, value1), (key2, value2)];
    assert(entries.map_values(|e: (Seq<char>, JsonView)| e.0) =~= seq![key1, key2]);
    assert(entries.skip(1) =~= seq![(key2, value2)]);
    reveal_with_fuel(crate::json::entry, 3);
}

/// A patch is seen with its Deployment, its field manager and its body.
pub proof fn law_patches_are_seen_as_they_are(patch: PatchRequest)
    ensures
        patch@.namespace == patch.namespace@,
        patch@.name == patch.name@,
        patch@.field_manager == patch.field_manager@,
        patch@.body == patch.body@,
        patch.deep_view() == patch@,
{
}

/// `trigger_rollout` and `update_digest_annotation` make patches of the Deployment that they are
/// called for, which store the digest that they are called with; the first changes the restart
/// annotation of the pods' template, and the second has nothing about the pods.
pub proof fn law_patches_store_the_digest(
    namespace: &str,
    name: &str,
    digest: &str,
    rollout: PatchRequest,
    storing: PatchRequest,
)
    requires
        call_ensures(trigger_rollout, (namespace, name, digest), rollout),
        call_ensures(update_digest_annotation, (namespace, name, digest), storing),
    ensures
        rollout.namespace@ == namespace@ && storing.namespace@ == namespace@,
        rollout.name@ == name@ && storing.name@ == name@,
        rollout.field_manager@ == "k8s-rollout-controller"@,
        storing.field_manager@ == "k8s-rollout-controller"@,
        exists|restarted_at: Seq<char>, template_restarted_at: Seq<char>|
            {
                &&& clock_reading(restarted_at) && utc_timestamp(restarted_at)
                &&& clock_reading(template_restarted_at) && utc_timestamp(template_restarted_at)
                &&& rollout.body@ == #[trigger] rollout_body(
                    digest@,
                    restarted_at,
                    template_restarted_at,
                )
            },
        storing.body@ == store_body(digest@),
{
    let (restarted_at, template_restarted_at) = choose|
        restarted_at: Seq<char>,
        template_restarted_at: Seq<char>,
    |
        {
            &&& clock_reading(restarted_at) && utc_timestamp(restarted_at)
            &&& clock_reading(template_restarted_at) && utc_timestamp(template_restarted_at)
            &&& rollout@ == #[trigger] rollout_patch(
                namespace@,
                name@,
                digest@,
                restarted_at,
                template_restarted_at,
            )
        };
    assert(rollout.body@ == rollout_body(digest@, restarted_at, template_restarted_at));
}

} // verus!
