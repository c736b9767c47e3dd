//! Image references of the form `[registry/]repository[:tag]`.

use vstd::prelude::*;
use vstd::string::*;
use crate::error::ControllerError;
use crate::text::{
    contains_char, cut, cut_last, law_cut_is_undone, lemma_cut_at, lemma_cut_last_at, rsplit_once,
    split_once,
};

verus! {

/// The registry of an image reference that names none.
pub const DOCKER_HUB: &'static str = "docker.io";

/// The tag of an image reference that names none.
pub const DEFAULT_TAG: &'static str = "latest";

/// Whether the part of a reference before its first slash names a registry, where `rest` is the
/// part behind that slash: a host has a dot or a port, and what has a namespace behind it is
/// taken for a host.
pub open spec fn names_registry(head: Seq<char>, rest: Seq<char>) -> bool {
    rest.contains('/') || head.contains('.') || head.contains(':')
}

/// The registry of `image`, and the rest of the reference.
pub open spec fn registry_and_rest(image: Seq<char>) -> (Seq<char>, Seq<char>) {
    match cut(image, '/') {
        Some((head, rest)) if names_registry(head, rest) => (head, rest),
        _ => (DOCKER_HUB@, image),
    }
}

/// The repository of a reference without its registry, and the tag.
pub open spec fn repository_and_tag(rest: Seq<char>) -> (Seq<char>, Seq<char>) {
    match cut_last(rest, ':') {
        Some((repository, tag)) => (repository, tag),
        None => (rest, DEFAULT_TAG@),
    }
}

/// The registry, the repository and the tag of `image`.
pub open spec fn image_reference(image: Seq<char>) -> (Seq<char>, Seq<char>, Seq<char>) {
    let (registry, rest) = registry_and_rest(image);
    let (repository, tag) = repository_and_tag(rest);
    (registry, repository, tag)
}

/// The registry, the repository and the tag of `image`. Every text is a reference.
pub fn parse_image_reference(image: &str) -> (res: Result<
    (String, String, String),
    ControllerError,
>)
    ensures
        res matches Ok((registry, repository, tag)) && (registry@, repository@, tag@)
            == image_reference(image@),
{
    let (registry, rest): (&str, &str) = match split_once(image, '/') {
        Some((head, rest)) => {
            if contains_char(rest, '/') || contains_char(head, '.') || contains_char(head, ':') {
                (head, rest)
            } else {
                (DOCKER_HUB, image)
            }
        },
        None => (DOCKER_HUB, image),
    };
    let (repository, tag): (&str, &str) = match rsplit_once(rest, ':') {
        Some((repository, tag)) => (repository, tag),
        None => (rest, DEFAULT_TAG),
    };
    Ok((registry.to_owned(), repository.to_owned(), tag.to_owned()))
}

/// A reference written out in full is read back in its parts: the registry must be one that is
/// taken for a registry, and the tag ends at the reference's end.
pub proof fn law_full_reference_is_read_back(
    registry: Seq<char>,
    repository: Seq<char>,
    tag: Seq<char>,
)
    requires
        !registry.contains('/'),
        names_registry(registry, repository + seq![':'] + tag),
        !tag.contains(':'),
    ensures
        image_reference(registry + seq!['/'] + repository + seq![':'] + tag) == (
            registry,
            repository,
            tag,
        ),
{
    let rest = repository + seq![':'] + tag;
    let image = registry + seq!['/'] + repository + seq![':'] + tag;
    lemma_cut_at(registry, '/', rest);
    assert(image =~= registry + seq!['/'] + rest);
    lemma_cut_last_at(repository, ':', tag);
}

/// A reference without a tag gets the tag `latest`, and keeps everything else.
pub proof fn law_missing_tag_is_latest(image: Seq<char>)
    requires
        !registry_and_rest(image).1.contains(':'),
    ensures
        image_reference(image) == (
            registry_and_rest(image).0,
            registry_and_rest(image).1,
            DEFAULT_TAG@,
        ),
{
    registry_and_rest(image).1.index_of_last_ensures(':');
}

/// A reference without a slash, and one whose only slash stands behind a name without a dot or a
/// colon, is one of Docker Hub; the whole of it is the repository and the tag.
pub proof fn law_bare_names_are_on_docker_hub(image: Seq<char>)
    requires
        cut(image, '/') matches Some((head, rest)) ==> !names_registry(head, rest),
    ensures
        image_reference(image).0 == DOCKER_HUB@,
        registry_and_rest(image).1 == image,
{
}

/// Nothing of a reference is lost: its parts, put together again, are the reference, up to the
/// registry and the tag that stand for missing ones.
pub proof fn law_parts_make_up_the_reference(image: Seq<char>)
    ensures
        ({
            let (registry, rest) = registry_and_rest(image);
            let (_, repository, tag) = image_reference(image);
            &&& (registry == DOCKER_HUB@ && rest == image) || image == registry + seq!['/'] + rest
            &&& (tag == DEFAULT_TAG@ && rest == repository && !rest.contains(':')) || rest
                == repository + seq![':'] + tag
        }),
{
    let rest = registry_and_rest(image).1;
    image.index_of_first_ensures('/');
    rest.index_of_last_ensures(':');
    if let Some((head, tail)) = cut(image, '/') {
        assert(image =~= head + seq!['/'] + tail);
    }
    if let Some((repository, tag)) = cut_last(rest, ':') {
        assert(rest =~= repository + seq![':'] + tag);
    }
}

/// What is written behind the registry of a reference: the repository, and the tag where there is
/// one.
pub open spec fn written_rest(repository: Seq<char>, tag: Option<Seq<char>>) -> Seq<char> {
    match tag {
        Some(tag) => repository + seq![':'] + tag,
        None => repository,
    }
}

/// A reference as it is written, perhaps without a registry and perhaps without a tag.
pub open spec fn written_reference(
    registry: Option<Seq<char>>,
    repository: Seq<char>,
    tag: Option<Seq<char>>,
) -> Seq<char> {
    match registry {
        Some(registry) => registry + seq!['/'] + written_rest(repository, tag),
        None => written_rest(repository, tag),
    }
}

/// `text` has at most one slash, and neither a dot nor a colon before it.
pub open spec fn bare_name(text: Seq<char>) -> bool {
    forall|i: int|
        0 <= i < text.len() && #[trigger] text[i] == '/' ==> {
            &&& !text.skip(i + 1).contains('/')
            &&& !text.take(i).contains('.')
            &&& !text.take(i).contains(':')
        }
}

/// A reference is read back in the parts that it is written with. A registry that is not written is
/// Docker Hub, and a tag that is not written is `latest`. The first part of a reference is its
/// registry where a second slash follows or where it has a dot or a colon, and the tag is what
/// stands behind the last colon of the rest. Every text is a reference that is written like this.
pub proof fn law_reference_is_read_back(
    registry: Option<Seq<char>>,
    repository: Seq<char>,
    tag: Option<Seq<char>>,
)
    requires
        match tag {
            Some(tag) => !tag.contains(':'),
            None => !repository.contains(':'),
        },
        match registry {
            Some(registry) => !registry.contains('/') && (written_rest(repository, tag).contains(
                '/',
            ) || registry.contains('.') || registry.contains(':')),
            None => bare_name(written_rest(repository, tag)),
        },
    ensures
        image_reference(written_reference(registry, repository, tag)) == (
            match registry {
                Some(registry) => registry,
                None => "docker.io"@,
            },
            repository,
            match tag {
                Some(tag) => tag,
                None => "latest"@,
            },
        ),
{
    let rest = written_rest(repository, tag);
    law_cut_is_undone(repository, ':');
    if let Some(tag) = tag {
        lemma_cut_last_at(repository, ':', tag);
    } else {
        if let Some((head, tail)) = cut_last(repository, ':') {
            assert(repository[head.len() as int] == ':');
        }
    }
    law_cut_is_undone(rest, '/');
    if let Some(registry) = registry {
        lemma_cut_at(registry, '/', rest);
    } else {
        if let Some((head, tail)) = cut(rest, '/') {
            let i = head.len() as int;
            assert(rest[i] == '/');
            assert(rest.take(i) =~= head);
            assert(rest.skip(i + 1) =~= tail);
        }
    }
}

/// Every text is a reference that is written with, or without, a registry and a tag, in the parts
/// that it is read in.
pub proof fn law_every_text_is_a_reference(image: Seq<char>)
    ensures
        exists|registry: Option<Seq<char>>, repository: Seq<char>, tag: Option<Seq<char>>|
            {
                &&& image == #[trigger] written_reference(registry, repository, tag)
                &&& image_reference(image).1 == repository
                &&& match tag {
                    Some(tag) => image_reference(image).2 == tag && !tag.contains(':'),
                    None => image_reference(image).2 == "latest"@ && !repository.contains(':'),
                }
                &&& match registry {
                    Some(registry) => image_reference(image).0 == registry && !registry.contains(
                        '/',
                    ) && (written_rest(repository, tag).contains('/') || registry.contains('.')
                        || registry.contains(':')),
                    None => image_reference(image).0 == "docker.io"@ && bare_name(
                        written_rest(repository, tag),
                    ),
                }
            },
{
    let (registry, rest) = registry_and_rest(image);
    let parts = image_reference(image);
    law_cut_is_undone(image, '/');
    law_cut_is_undone(rest, ':');
    let tag = if cut_last(rest, ':') is Some {
        Some(parts.2)
    } else {
        None
    };
    assert(written_rest(parts.1, tag) == rest);
    let named = cut(image, '/') matches Some((head, tail)) && names_registry(head, tail);
    if named {
        assert(image == written_reference(Some(registry), parts.1, tag));
    } else {
        assert(bare_name(image)) by {
            assert forall|i: int| 0 <= i < image.len() && #[trigger] image[i] == '/' implies {
                &&& !image.skip(i + 1).contains('/')
                &&& !image.take(i).contains('.')
                &&& !image.take(i).contains(':')
            } by {
                assert(image.contains('/'));
                let (head, tail) = cut(image, '/').unwrap();
                if i > head.len() {
                    assert(tail[i - head.len() - 1] == '/');
                }
                if i < head.len() {
                    assert(head[i] == '/');
                }
                assert(image.take(i) =~= head);
                assert(image.skip(i + 1) =~= tail);
            }
        }
        assert(image == written_reference(None, parts.1, tag));
    }
}

/// `parse_image_reference` gives the parts that a reference is written with, `docker.io` for a
/// registry that is not written and `latest` for a tag that is not.
pub proof fn law_parsing_gives_the_written_parts(
    image: &str,
    res: Result<(String, String, String), ControllerError>,
    registry: Option<Seq<char>>,
    repository: Seq<char>,
    tag: Option<Seq<char>>,
)
    requires
        call_ensures(parse_image_reference, (image,), res),
        image@ == written_reference(registry, repository, tag),
        match tag {
            Some(tag) => !tag.contains(':'),
            None => !repository.contains(':'),
        },
        match registry {
            Some(registry) => !registry.contains('/') && (written_rest(repository, tag).contains(
                '/',
            ) || registry.contains('.') || registry.contains(':')),
            None => bare_name(written_rest(repository, tag)),
        },
    ensures
        res matches Ok(parts) && {
            &&& match registry {
                Some(registry) => parts.0@ == registry,
                None => parts.0@ == "docker.io"@,
            }
            &&& parts.1@ == repository
            &&& match tag {
                Some(tag) => parts.2@ == tag,
                None => parts.2@ == "latest"@,
            }
        },
{
    law_reference_is_read_back(registry, repository, tag);
}

} // verus!
