//! Registry credentials in the secrets that a pod pulls its images with.

use vstd::prelude::*;
use vstd::string::*;
use vstd::utf8::{
    decode_utf8, decode_utf8_encode_utf8, encode_utf8, encode_utf8_decode_utf8,
    encode_utf8_valid_utf8, valid_utf8,
};
use crate::base64_text::{decode, decoded, encoded, law_base64_is_undone};
use crate::json::{json_document, parse_json, Json, JsonView};
use crate::text::{
    ascii_lower, cut, eq_ignore_ascii_case, law_case_is_that_of_ascii, law_cut_is_undone,
    law_prefixes_are_stripped, law_white_space_is_trimmed, lemma_cut_at, lemma_leading_is_suffix,
    lemma_leading_of_concat, lemma_trailing_is_prefix, lemma_trailing_of_concat,
    lemma_trimmed_away, repeated, same, same_ignoring_case, split_once, strip_prefixes, trim,
    trimmed, utf8_text, white_space, without_leading, without_prefixes, without_trailing, Trim,
};

verus! {

/// A user name and a password for a registry.
#[derive(Debug)]
pub struct RegistryCredentials {
    pub username: String,
    pub password: String,
}

/// `RegistryCredentials` over mathematical text.
#[verifier::ext_equal]
pub struct CredentialsView {
    pub username: Seq<char>,
    pub password: Seq<char>,
}

impl View for RegistryCredentials {
    type V = CredentialsView;

    open spec fn view(&self) -> CredentialsView {
        CredentialsView { username: self.username@, password: self.password@ }
    }
}

impl DeepView for RegistryCredentials {
    type V = CredentialsView;

    open spec fn deep_view(&self) -> CredentialsView {
        self@
    }
}

impl Clone for RegistryCredentials {
    fn clone(&self) -> (res: RegistryCredentials)
        ensures
            res@ == self@,
    {
        RegistryCredentials { username: self.username.clone(), password: self.password.clone() }
    }
}

/// A copy of optional credentials.
pub(crate) fn copy_credentials(creds: Option<&RegistryCredentials>) -> (res: Option<
    RegistryCredentials,
>)
    ensures
        res.deep_view() == creds.deep_view(),
{
    match creds {
        Some(c) => Some(c.clone()),
        None => None,
    }
}

/// The host that a key of a Docker configuration names: a key may have a scheme before the host
/// and a path behind it.
pub open spec fn key_host(key: Seq<char>) -> Seq<char> {
    let rest = without_prefixes(without_prefixes(trimmed(key), "https://"@), "http://"@);
    match cut(rest, '/') {
        Some((host, _)) => host,
        None => rest,
    }
}

/// `host` is one of the names of Docker Hub.
pub open spec fn docker_hub_alias(host: Seq<char>) -> bool {
    ||| same_ignoring_case(host, "docker.io"@)
    ||| same_ignoring_case(host, "index.docker.io"@)
    ||| same_ignoring_case(host, "registry-1.docker.io"@)
}

/// A key of a Docker configuration is about `registry`: it names its host, or both are Docker
/// Hub, which an empty registry stands for too.
pub open spec fn key_matches(key: Seq<char>, registry: Seq<char>) -> bool {
    ||| same_ignoring_case(key_host(key), registry)
    ||| docker_hub_alias(key_host(key)) && (registry.len() == 0 || docker_hub_alias(registry))
}

/// Whether `host` is one of the names of Docker Hub.
fn is_docker_hub_alias(host: &str) -> (res: bool)
    ensures
        res == docker_hub_alias(host@),
{
    eq_ignore_ascii_case(host, "docker.io") || eq_ignore_ascii_case(host, "index.docker.io")
        || eq_ignore_ascii_case(host, "registry-1.docker.io")
}

/// Whether a key of a Docker configuration is about `registry`.
pub fn registry_key_matches(key: &str, registry: &str) -> (res: bool)
    ensures
        res == key_matches(key@, registry@),
{
    let rest: &str = strip_prefixes(strip_prefixes(trim(key), "https://"), "http://");
    let host: &str = match split_once(rest, '/') {
        Some((host, _)) => host,
        None => rest,
    };
    if eq_ignore_ascii_case(host, registry) {
        return true;
    }
    is_docker_hub_alias(host) && (registry.is_empty() || is_docker_hub_alias(registry))
}

/// The credentials in the decoded `auth` of an entry: UTF-8 text of the form `user:password`.
pub open spec fn decoded_credentials(bytes: Seq<u8>) -> Option<CredentialsView> {
    if valid_utf8(bytes) {
        match cut(decode_utf8(bytes), ':') {
            Some((username, password)) => Some(CredentialsView { username, password }),
            None => None,
        }
    } else {
        None
    }
}

/// The credentials in the fields `username` and `password` of an entry.
pub open spec fn plain_credentials(entry: JsonView) -> Option<CredentialsView> {
    match (entry.text_at("username"@), entry.text_at("password"@)) {
        (Some(username), Some(password)) => Some(CredentialsView { username, password }),
        _ => None,
    }
}

/// The credentials in an entry whose `auth`, where it has one, encodes `decoded`. Those in `auth`
/// go first.
pub open spec fn credentials_with(
    decoded: Option<Seq<u8>>,
    entry: JsonView,
) -> Option<CredentialsView> {
    match decoded {
        Some(bytes) if decoded_credentials(bytes) is Some => decoded_credentials(bytes),
        _ => plain_credentials(entry),
    }
}

/// What the `auth` of an entry encodes.
pub open spec fn decoded_auth(entry: JsonView) -> Option<Seq<u8>> {
    match entry.text_at("auth"@) {
        Some(auth) if auth.len() > 0 => decoded(auth),
        _ => None,
    }
}

/// The credentials in an entry of a Docker configuration.
pub open spec fn entry_credentials(entry: JsonView) -> Option<CredentialsView> {
    credentials_with(decoded_auth(entry), entry)
}

/// The credentials in an entry whose `auth`, where it has one, encodes `decoded`.
pub fn credentials_from_decoded(decoded: Option<Vec<u8>>, entry: &Json) -> (res: Option<
    RegistryCredentials,
>)
    ensures
        res.deep_view() == credentials_with(decoded.deep_view(), entry@),
{
    if let Some(bytes) = decoded {
        assert(bytes.deep_view() =~= bytes@);
        if let Some(text) = utf8_text(bytes) {
            if let Some((username, password)) = split_once(text.as_str(), ':') {
                return Some(
                    RegistryCredentials {
                        username: username.to_owned(),
                        password: password.to_owned(),
                    },
                );
            }
        }
    }
    match (entry.str_at("username"), entry.str_at("password")) {
        (Some(username), Some(password)) => Some(
            RegistryCredentials { username: username.to_owned(), password: password.to_owned() },
        ),
        _ => None,
    }
}

/// The credentials in an entry of a Docker configuration.
pub fn extract_credentials_from_auth_entry(entry: &Json) -> (res: Option<RegistryCredentials>)
    ensures
        res.deep_view() == entry_credentials(entry@),
{
    let decoded: Option<Vec<u8>> = match entry.str_at("auth") {
        Some(auth) => {
            if auth.is_empty() {
                None
            } else {
                match decode(auth) {
                    Some(bytes) => {
                        assert(bytes.deep_view() =~= bytes@);
                        Some(bytes)
                    },
                    None => None,
                }
            }
        },
        None => None,
    };
    credentials_from_decoded(decoded, entry)
}

/// The credentials in the first of `entries` that is about `registry` and has some.
pub open spec fn first_credentials(
    entries: Seq<(Seq<char>, JsonView)>,
    registry: Seq<char>,
) -> Option<CredentialsView>
    decreases entries.len(),
{
    if entries.len() == 0 {
        None
    } else if key_matches(entries[0].0, registry) && entry_credentials(entries[0].1) is Some {
        entry_credentials(entries[0].1)
    } else {
        first_credentials(entries.skip(1), registry)
    }
}

/// The credentials for `registry` in a Docker configuration.
pub open spec fn config_credentials(
    config: JsonView,
    registry: Seq<char>,
) -> Option<CredentialsView> {
    match config.get("auths"@) {
        Some(auths) => match auths.entries() {
            Some(entries) => first_credentials(entries, registry),
            None => None,
        },
        None => None,
    }
}

/// The credentials for `registry` in a Docker configuration.
pub fn credentials_from_config(config: &Json, registry: &str) -> (res: Option<RegistryCredentials>)
    ensures
        res.deep_view() == config_credentials(config@, registry@),
{
    let auths: &Json = match config.get("auths") {
        Some(auths) => auths,
        None => {
            return None;
        },
    };
    let entries: &Vec<(String, Json)> = match auths.as_object() {
        Some(entries) => entries,
        None => {
            return None;
        },
    };
    let ghost all = Seq::new(entries@.len(), |i: int| (entries@[i].0@, entries@[i].1@));
    let mut i: usize = 0;
    assert(all.skip(0) =~= all);
    while i < entries.len()
        invariant
            i <= entries@.len(),
            all == Seq::new(entries@.len(), |i: int| (entries@[i].0@, entries@[i].1@)),
            config_credentials(config@, registry@) == first_credentials(
                all.skip(i as int),
                registry@,
            ),
        decreases entries.len() - i,
    {
        assert(all.skip(i as int)[0] == (entries@[i as int].0@, entries@[i as int].1@));
        assert(all.skip(i as int).skip(1) =~= all.skip(i + 1));
        if registry_key_matches(entries[i].0.as_str(), registry) {
            let found: Option<RegistryCredentials> = extract_credentials_from_auth_entry(
                &entries[i].1,
            );
            if found.is_some() {
                return found;
            }
        }
        i += 1;
    }
    None
}

/// The data of a secret, by key.
pub type SecretData = Vec<(String, Vec<u8>)>;

/// `SecretData` over mathematical text and bytes.
pub open spec fn secret_view(data: SecretData) -> Seq<(Seq<char>, Seq<u8>)> {
    Seq::new(data@.len(), |i: int| (data@[i].0@, data@[i].1@))
}

/// What `key` stands for in the data of a secret.
pub open spec fn secret_value(data: Seq<(Seq<char>, Seq<u8>)>, key: Seq<char>) -> Option<Seq<u8>>
    decreases data.len(),
{
    if data.len() == 0 {
        None
    } else if data[0].0 == key {
        Some(data[0].1)
    } else {
        secret_value(data.skip(1), key)
    }
}

/// The Docker configuration in a secret: under its current key, else under its old one.
pub open spec fn secret_config(data: Seq<(Seq<char>, Seq<u8>)>) -> Option<Seq<u8>> {
    match secret_value(data, ".dockerconfigjson"@) {
        Some(bytes) => Some(bytes),
        None => secret_value(data, "config.json"@),
    }
}

/// The credentials for `registry` in a secret.
pub open spec fn secret_credentials(
    data: Seq<(Seq<char>, Seq<u8>)>,
    registry: Seq<char>,
) -> Option<CredentialsView> {
    match secret_config(data) {
        Some(bytes) => match json_document(bytes) {
            Some(config) => config_credentials(config, registry),
            None => None,
        },
        None => None,
    }
}

/// What `key` stands for in the data of a secret.
fn secret_get<'a>(data: &'a SecretData, key: &str) -> (res: Option<&'a Vec<u8>>)
    ensures
        match res {
            Some(bytes) => secret_value(secret_view(*data), key@) == Some(bytes@),
            None => secret_value(secret_view(*data), key@) is None,
        },
{
    let ghost all = secret_view(*data);
    let mut i: usize = 0;
    assert(all.skip(0) =~= all);
    while i < data.len()
        invariant
            i <= data@.len(),
            all == secret_view(*data),
            secret_value(all, key@) == secret_value(all.skip(i as int), key@),
        decreases data.len() - i,
    {
        assert(all.skip(i as int)[0] == (data@[i as int].0@, data@[i as int].1@));
        assert(all.skip(i as int).skip(1) =~= all.skip(i + 1));
        if same(data[i].0.as_str(), key) {
            return Some(&data[i].1);
        }
        i += 1;
    }
    None
}

/// The Docker configuration in a secret: under its current key, else under its old one.
pub fn find_config(data: &SecretData) -> (res: Option<&Vec<u8>>)
    ensures
        match res {
            Some(bytes) => secret_config(secret_view(*data)) == Some(bytes@),
            None => secret_config(secret_view(*data)) is None,
        },
{
    match secret_get(data, ".dockerconfigjson") {
        Some(bytes) => Some(bytes),
        None => secret_get(data, "config.json"),
    }
}

/// The credentials for `registry` in a secret.
pub fn credentials_from_secret(data: &SecretData, registry: &str) -> (res: Option<
    RegistryCredentials,
>)
    ensures
        res.deep_view() == secret_credentials(secret_view(*data), registry@),
{
    let bytes: &Vec<u8> = match find_config(data) {
        Some(bytes) => bytes,
        None => {
            return None;
        },
    };
    match parse_json(bytes.as_slice()) {
        Some(config) => credentials_from_config(&config, registry),
        None => None,
    }
}

/// The names of Docker Hub are interchangeable: a key with any of them is about a registry with
/// any of them, and about the empty registry.
pub proof fn law_docker_hub_aliases_are_interchangeable(key: Seq<char>, registry: Seq<char>)
    requires
        docker_hub_alias(key_host(key)),
        registry.len() == 0 || docker_hub_alias(registry),
    ensures
        key_matches(key, registry),
{
}

/// The case of ASCII letters in the name of a registry does not matter.
pub proof fn law_registry_case_does_not_matter(key: Seq<char>, a: Seq<char>, b: Seq<char>)
    requires
        same_ignoring_case(a, b),
    ensures
        key_matches(key, a) == key_matches(key, b),
{
    lemma_same_swaps(key_host(key), a, b);
    lemma_same_swaps("docker.io"@, a, b);
    lemma_same_swaps("index.docker.io"@, a, b);
    lemma_same_swaps("registry-1.docker.io"@, a, b);
}

proof fn lemma_same_swaps(x: Seq<char>, a: Seq<char>, b: Seq<char>)
    requires
        same_ignoring_case(a, b),
    ensures
        same_ignoring_case(x, a) == same_ignoring_case(x, b),
        same_ignoring_case(a, x) == same_ignoring_case(b, x),
{
    if same_ignoring_case(x, a) {
        assert forall|i: int| 0 <= i < x.len() implies ascii_lower(#[trigger] x[i]) == ascii_lower(
            b[i],
        ) by {
            assert(ascii_lower(a[i]) == ascii_lower(b[i]));
        }
    }
    if same_ignoring_case(x, b) {
        assert forall|i: int| 0 <= i < x.len() implies ascii_lower(#[trigger] x[i]) == ascii_lower(
            a[i],
        ) by {
            assert(ascii_lower(a[i]) == ascii_lower(b[i]));
        }
    }
    if same_ignoring_case(a, x) {
        assert forall|i: int| 0 <= i < b.len() implies ascii_lower(#[trigger] b[i]) == ascii_lower(
            x[i],
        ) by {
            assert(ascii_lower(a[i]) == ascii_lower(b[i]));
            assert(ascii_lower(a[i]) == ascii_lower(x[i]));
        }
    }
    if same_ignoring_case(b, x) {
        assert forall|i: int| 0 <= i < a.len() implies ascii_lower(#[trigger] a[i]) == ascii_lower(
            x[i],
        ) by {
            assert(ascii_lower(a[i]) == ascii_lower(b[i]));
            assert(ascii_lower(b[i]) == ascii_lower(x[i]));
        }
    }
}

/// A scheme before the rest of a key does not matter: the host stays the same. The one exception is
/// `http://` before a rest with `https://`, which makes a host of `https:`. White space between the
/// scheme and what follows belongs to the host.
pub proof fn law_scheme_does_not_matter(rest: Seq<char>)
    requires
        rest.len() > 0 && white_space(rest[0]) ==> trimmed(rest).len() == 0,
    ensures
        key_host("https://"@ + rest) == key_host(rest),
        key_host("http://"@ + rest) == if "https://"@.is_prefix_of(trimmed(rest)) {
            "https:"@
        } else {
            key_host(rest)
        },
{
    reveal_strlit("https://");
    reveal_strlit("http://");
    reveal_strlit("https:");
    let https = "https://"@;
    let http = "http://"@;
    let t = trimmed(rest);
    lemma_trimmed_behind(https, rest);
    lemma_trimmed_behind(http, rest);
    assert(https =~= (https + t).subrange(0, 8));
    assert((https + t).skip(8) =~= t);
    assert(without_prefixes(https + t, https) == without_prefixes(t, https));
    assert(http =~= (http + t).subrange(0, 7));
    assert((http + t).skip(7) =~= t);
    if https.is_prefix_of(http + t) {
        assert((http + t).subrange(0, 8)[4] == 's');
    }
    assert(without_prefixes(http + t, https) == http + t);
    assert(without_prefixes(http + t, http) == without_prefixes(t, http));
    if https.is_prefix_of(t) {
        lemma_prefix_chars(https, t);
        if http.is_prefix_of(t) {
            lemma_prefix_chars(http, t);
            assert(t[4] == https[4] && t[4] == http[4]);
        }
        assert(without_prefixes(t, http) == t);
        assert(!"https:"@.contains('/'));
        lemma_cut_at("https:"@, '/', t.skip(7));
        assert(t =~= "https:"@ + seq!['/'] + t.skip(7));
    }
}

/// A path behind the host of a key does not matter, nor does white space before the host or behind
/// the path. White space between the host and the path belongs to the host, and a scheme is not a
/// host.
pub proof fn law_path_does_not_matter(host: Seq<char>, path: Seq<char>)
    requires
        !host.contains('/'),
        host.len() > 0 && white_space(host.last()) ==> trimmed(host).len() == 0,
        trimmed(host) == "https:"@ || trimmed(host) == "http:"@ ==> path.len() == 0 || path[0]
            != '/',
    ensures
        key_host(host) == trimmed(host),
        key_host(host + "/"@ + path) == key_host(host),
        !"https://"@.is_prefix_of(trimmed(host)),
        !"https://"@.is_prefix_of(trimmed(host + "/"@ + path)),
{
    reveal_strlit("/");
    let ws = Trim::WhiteSpace;
    let h = without_leading(host, ws);
    let p = without_trailing(path, ws);
    let slash = seq!['/'];
    assert("/"@ =~= slash);
    let key = host + "/"@ + path;
    assert(key =~= host + (slash + path));
    lemma_leading_is_suffix(host, ws);
    lemma_trailing_is_prefix(path, ws);
    lemma_trimmed_away(h, ws);
    assert(trimmed(host) == h);
    assert(!h.contains('/')) by {
        if h.contains('/') {
            let i = choose|i: int| 0 <= i < h.len() && h[i] == '/';
            assert(host[i + (host.len() - h.len())] == '/');
        }
    }
    lemma_leading_of_concat(host, slash + path, ws);
    assert((slash + path)[0] == '/');
    assert(without_leading(key, ws) =~= h + (slash + path));
    lemma_trailing_of_concat(h + slash, path, ws);
    assert(h + (slash + path) =~= h + slash + path);
    assert((h + slash).last() == '/');
    assert(trimmed(key) =~= h + slash + p) by {
        if p.len() == 0 {
            assert(without_trailing(h + slash, ws) == h + slash);
        }
    }
    assert(h + slash + p =~= h + (slash + p));
    lemma_no_scheme(h, seq![]);
    assert(h + seq![] =~= h);
    assert((slash + p).len() >= 2 ==> (slash + p)[1] == p[0]);
    lemma_no_scheme(h, slash + p);
    lemma_cut_at(h, '/', p);
    h.index_of_first_ensures('/');
}

/// A scheme before the host of a key and a path behind it do not matter for which registry it is
/// about.
pub proof fn law_scheme_and_path_do_not_matter(
    host: Seq<char>,
    path: Seq<char>,
    registry: Seq<char>,
)
    requires
        !host.contains('/'),
        host.len() > 0 ==> !white_space(host[0]) && !white_space(host.last()),
        host == "https:"@ || host == "http:"@ ==> path.len() == 0 || path[0] != '/',
    ensures
        key_host(host) == host,
        key_matches("https://"@ + host, registry) == key_matches(host, registry),
        key_matches("http://"@ + host, registry) == key_matches(host, registry),
        key_matches(host + "/"@ + path, registry) == key_matches(host, registry),
        key_matches("https://"@ + host + "/"@ + path, registry) == key_matches(host, registry),
        key_matches("http://"@ + host + "/"@ + path, registry) == key_matches(host, registry),
{
    reveal_strlit("/");
    let tail = host + "/"@ + path;
    assert(trimmed(host) == host);
    law_path_does_not_matter(host, path);
    law_scheme_does_not_matter(host);
    assert(tail[0] == if host.len() > 0 {
        host[0]
    } else {
        '/'
    });
    law_scheme_does_not_matter(tail);
    assert("https://"@ + host + "/"@ + path =~= "https://"@ + tail);
    assert("http://"@ + host + "/"@ + path =~= "http://"@ + tail);
}

/// Trimming a key with a scheme trims what is behind the scheme.
proof fn lemma_trimmed_behind(scheme: Seq<char>, rest: Seq<char>)
    requires
        scheme.len() > 0,
        !white_space(scheme[0]),
        !white_space(scheme.last()),
        rest.len() > 0 && white_space(rest[0]) ==> trimmed(rest).len() == 0,
    ensures
        trimmed(scheme + rest) == scheme + trimmed(rest),
{
    let ws = Trim::WhiteSpace;
    assert((scheme + rest)[0] == scheme[0]);
    lemma_trailing_of_concat(scheme, rest, ws);
    if rest.len() > 0 && white_space(rest[0]) {
        let t = without_leading(rest, ws);
        lemma_leading_is_suffix(rest, ws);
        lemma_trimmed_away(rest, ws);
        lemma_trimmed_away(t, ws);
        if t.len() > 0 {
            assert(ws.has(t[0]));
        }
    }
    assert(trimmed(rest) == without_trailing(rest, ws));
    assert(scheme + trimmed(rest) =~= if trimmed(rest).len() > 0 {
        scheme + trimmed(rest)
    } else {
        scheme
    });
}

/// A text starts with the characters of its prefix.
proof fn lemma_prefix_chars(prefix: Seq<char>, s: Seq<char>)
    requires
        prefix.is_prefix_of(s),
    ensures
        forall|i: int| 0 <= i < prefix.len() ==> s[i] == prefix[i],
{
    assert forall|i: int| 0 <= i < prefix.len() implies s[i] == prefix[i] by {
        assert(s.subrange(0, prefix.len() as int)[i] == prefix[i]);
    }
}

/// A host with a path behind it has no scheme before it.
proof fn lemma_no_scheme(host: Seq<char>, rest: Seq<char>)
    requires
        !host.contains('/'),
        rest.len() > 0 ==> rest[0] == '/',
        host == "https:"@ || host == "http:"@ ==> rest.len() < 2 || rest[1] != '/',
    ensures
        !"https://"@.is_prefix_of(host + rest),
        !"http://"@.is_prefix_of(host + rest),
{
    reveal_strlit("https://");
    reveal_strlit("http://");
    reveal_strlit("https:");
    reveal_strlit("http:");
    lemma_not_behind_slash("https://"@, host, rest, 6);
    lemma_not_behind_slash("http://"@, host, rest, 5);
    assert("https://"@.take(6) =~= "https:"@);
    assert("http://"@.take(5) =~= "http:"@);
}

/// A scheme whose first slash is its character `at` starts a text only where the text's host is
/// the scheme up to there.
proof fn lemma_not_behind_slash(scheme: Seq<char>, host: Seq<char>, rest: Seq<char>, at: int)
    requires
        !host.contains('/'),
        rest.len() > 0 ==> rest[0] == '/',
        0 <= at,
        scheme.len() == at + 2,
        scheme[at] == '/',
        scheme[at + 1] == '/',
        forall|i: int| 0 <= i < at ==> scheme[i] != '/',
    ensures
        scheme.is_prefix_of(host + rest) ==> host == scheme.take(at) && rest.len() >= 2 && rest[1]
            == '/',
{
    let s = host + rest;
    if scheme.is_prefix_of(s) {
        lemma_prefix_chars(scheme, s);
        if host.len() > at {
            assert(host[at] == s[at]);
            assert(host.contains('/'));
        }
        assert(rest.len() > 0);
        if host.len() < at {
            assert(s[host.len() as int] == rest[0]);
        }
        assert(rest[1] == s[at + 1]);
        assert(host =~= scheme.take(at)) by {
            assert forall|i: int| 0 <= i < at implies host[i] == scheme[i] by {
                assert(host[i] == s[i]);
            }
        }
    }
}

/// A user name without a colon and any password, colons or not, are read back from the `auth` that
/// they were encoded in, whatever else the entry holds.
pub proof fn law_encoded_credentials_are_read_back(
    entry: JsonView,
    username: Seq<char>,
    password: Seq<char>,
)
    requires
        !username.contains(':'),
        entry.text_at("auth"@) == Some(
            encoded(encode_utf8(username + seq![':'] + password)),
        ),
    ensures
        entry_credentials(entry) == Some(CredentialsView { username, password }),
{
    let text = username + seq![':'] + password;
    encode_utf8_valid_utf8(text);
    encode_utf8_decode_utf8(text);
    lemma_cut_at(username, ':', password);
    law_base64_is_undone(encode_utf8(text));
    if encode_utf8(text).len() == 0 {
        assert(decode_utf8(encode_utf8(text)) == Seq::<char>::empty());
        assert(text.len() > 0);
    }
}

/// An entry whose `auth` is missing, or holds no credentials, has those in its `username` and
/// `password`.
pub proof fn law_unusable_auth_is_passed_over(entry: JsonView)
    requires
        decoded_auth(entry) matches Some(bytes) ==> decoded_credentials(bytes) is None,
    ensures
        entry_credentials(entry) == plain_credentials(entry),
{
}

/// Entry `i` of a Docker configuration is about `registry` and has credentials.
pub open spec fn usable(
    entries: Seq<(Seq<char>, JsonView)>,
    i: int,
    registry: Seq<char>,
) -> bool {
    key_matches(entries[i].0, registry) && entry_credentials(entries[i].1) is Some
}

/// The credentials that are taken from a Docker configuration are those of its first entry that is
/// about the registry and has some; none are taken exactly where there is no such entry.
pub proof fn law_first_usable_entry_wins(
    entries: Seq<(Seq<char>, JsonView)>,
    registry: Seq<char>,
)
    ensures
        match first_credentials(entries, registry) {
            Some(creds) => exists|i: int|
                0 <= i < entries.len() && #[trigger] usable(entries, i, registry)
                    && entry_credentials(entries[i].1) == Some(creds) && forall|j: int|
                    0 <= j < i ==> !#[trigger] usable(entries, j, registry),
            None => forall|j: int|
                0 <= j < entries.len() ==> !#[trigger] usable(entries, j, registry),
        },
    decreases entries.len(),
{
    if entries.len() > 0 {
        if usable(entries, 0, registry) {
        } else {
            let rest = entries.skip(1);
            law_first_usable_entry_wins(rest, registry);
            assert forall|j: int| 0 <= j < rest.len() implies #[trigger] usable(rest, j, registry)
                == usable(entries, j + 1, registry) by {
                assert(rest[j] == entries[j + 1]);
            }
            assert forall|j: int| 1 <= j < entries.len() implies #[trigger] usable(
                entries,
                j,
                registry,
            ) == usable(rest, j - 1, registry) by {
                assert(rest[j - 1] == entries[j]);
            }
            if let Some(creds) = first_credentials(rest, registry) {
                let i = choose|i: int|
                    0 <= i < rest.len() && #[trigger] usable(rest, i, registry)
                        && entry_credentials(rest[i].1) == Some(creds) && forall|j: int|
                        0 <= j < i ==> !#[trigger] usable(rest, j, registry);
                assert(usable(entries, i + 1, registry));
                assert(rest[i] == entries[i + 1]);
            }
        }
    }
}

/// Which registry a key is about. A key is, between white space, `https://` any number of times,
/// `http://` any number of times, a host without a slash, and a rest that starts with a slash where
/// there is one. It is about the registry of that name, whatever the case of ASCII letters, and the
/// three names of Docker Hub and the empty one stand for each other; it is about no other.
pub proof fn law_key_is_about_the_registry_of_its_host(
    before: Seq<char>,
    m: nat,
    n: nat,
    host: Seq<char>,
    rest: Seq<char>,
    after: Seq<char>,
    registry: Seq<char>,
)
    requires
        ({
            let inner = repeated("http://"@, n) + (host + rest);
            let core = repeated("https://"@, m) + inner;
            &&& forall|i: int| 0 <= i < before.len() ==> white_space(#[trigger] before[i])
            &&& forall|i: int| 0 <= i < after.len() ==> white_space(#[trigger] after[i])
            &&& core.len() > 0 ==> !white_space(core[0]) && !white_space(core.last())
            &&& !host.contains('/')
            &&& rest.len() > 0 ==> rest[0] == '/'
            &&& !"https://"@.is_prefix_of(inner)
            &&& !"http://"@.is_prefix_of(host + rest)
        }),
    ensures
        ({
            let key = before + (repeated("https://"@, m) + (repeated("http://"@, n) + (host
                + rest))) + after;
            &&& key_host(key) == host
            &&& key_matches(key, registry) <==> {
                ||| same_ignoring_case(host, registry)
                ||| (same_ignoring_case(host, "docker.io"@) || same_ignoring_case(
                    host,
                    "index.docker.io"@,
                ) || same_ignoring_case(host, "registry-1.docker.io"@)) && (registry.len() == 0
                    || same_ignoring_case(registry, "docker.io"@) || same_ignoring_case(
                    registry,
                    "index.docker.io"@,
                ) || same_ignoring_case(registry, "registry-1.docker.io"@))
            }
        }),
{
    reveal_strlit("https://");
    reveal_strlit("http://");
    let inner = repeated("http://"@, n) + (host + rest);
    let core = repeated("https://"@, m) + inner;
    law_white_space_is_trimmed(before, core, after);
    law_prefixes_are_stripped("https://"@, m, inner);
    law_prefixes_are_stripped("http://"@, n, host + rest);
    if rest.len() > 0 {
        lemma_cut_at(host, '/', rest.skip(1));
        assert(host + rest =~= host + seq!['/'] + rest.skip(1));
    } else {
        assert(host + rest =~= host);
        host.index_of_first_ensures('/');
    }
}

/// A key that is the name of a registry is about it, whatever characters but a slash the name has;
/// and so is every key whose host is the name.
pub proof fn law_registry_is_its_own_key(key: Seq<char>, registry: Seq<char>)
    ensures
        !registry.contains('/') && (registry.len() > 0 ==> !white_space(registry[0])
            && !white_space(registry.last())) ==> key_matches(registry, registry),
        same_ignoring_case(key_host(key), registry) ==> key_matches(key, registry),
{
    if !registry.contains('/') && (registry.len() > 0 ==> !white_space(registry[0])
        && !white_space(registry.last())) {
        lemma_no_scheme(registry, seq![]);
        assert(registry + seq![] =~= registry);
        assert(trimmed(registry) == registry);
        registry.index_of_first_ensures('/');
        law_case_is_that_of_ascii(registry, registry);
    }
}

/// An entry that encodes no user name and password in its `auth` has those in its `username` and
/// `password`, and none where one of them is missing or no text.
pub proof fn law_plain_credentials_are_read_back(entry: JsonView)
    requires
        forall|username: Seq<char>, password: Seq<char>|
            entry.get("auth"@) != Some(
                JsonView::Text(
                    encoded(#[trigger] encode_utf8(username + seq![':'] + password)),
                ),
            ),
    ensures
        match (entry.get("username"@), entry.get("password"@)) {
            (Some(JsonView::Text(username)), Some(JsonView::Text(password))) => entry_credentials(
                entry,
            ) == Some(CredentialsView { username, password }),
            _ => entry_credentials(entry) is None,
        },
{
    if let Some(auth) = entry.text_at("auth"@) {
        if let Some(bytes) = decoded(auth) {
            if let Some(c) = decoded_credentials(bytes) {
                let text = decode_utf8(bytes);
                law_cut_is_undone(text, ':');
                assert(text == c.username + seq![':'] + c.password);
                decode_utf8_encode_utf8(bytes);
                assert(encode_utf8(c.username + seq![':'] + c.password) == bytes);
                law_base64_is_undone(bytes);
                assert(encoded(bytes) == auth);
            }
        }
    }
}

/// The credentials for a registry in a Docker configuration are those of the first entry under
/// `auths` that is about the registry and has some, wherever it stands.
pub proof fn law_config_gives_the_first_credentials(
    config: JsonView,
    entries: Seq<(Seq<char>, JsonView)>,
    i: int,
    registry: Seq<char>,
)
    requires
        config.get("auths"@) == Some(JsonView::Object(entries)),
        0 <= i < entries.len(),
        key_matches(entries[i].0, registry),
        entry_credentials(entries[i].1) is Some,
        forall|j: int|
            0 <= j < i ==> !key_matches((#[trigger] entries[j]).0, registry) || entry_credentials(
                entries[j].1,
            ) is None,
    ensures
        config_credentials(config, registry) == entry_credentials(entries[i].1),
{
    law_first_usable_entry_wins(entries, registry);
    assert(usable(entries, i, registry));
    assert forall|j: int| 0 <= j < i implies !#[trigger] usable(entries, j, registry) by {
        assert(!key_matches(entries[j].0, registry) || entry_credentials(entries[j].1) is None);
    }
}

/// A Docker configuration without an object under `auths`, or with no entry there that is about a
/// registry and has credentials, has none for it.
pub proof fn law_config_invents_no_credentials(config: JsonView, registry: Seq<char>)
    requires
        config.get("auths"@) matches Some(JsonView::Object(entries)) ==> forall|j: int|
            0 <= j < entries.len() ==> !key_matches((#[trigger] entries[j]).0, registry)
                || entry_credentials(entries[j].1) is None,
    ensures
        config_credentials(config, registry) is None,
{
    if let Some(JsonView::Object(entries)) = config.get("auths"@) {
        law_first_usable_entry_wins(entries, registry);
        assert forall|j: int| 0 <= j < entries.len() implies !#[trigger] usable(
            entries,
            j,
            registry,
        ) by {
            assert(!key_matches(entries[j].0, registry) || entry_credentials(entries[j].1) is None);
        }
    }
}

/// The data of a secret has no key twice.
pub open spec fn distinct_keys(data: Seq<(Seq<char>, Seq<u8>)>) -> bool {
    forall|i: int, j: int|
        0 <= i < j < data.len() ==> (#[trigger] data[i]).0 != (#[trigger] data[j]).0
}

/// The Docker configuration of a secret is what it holds under `.dockerconfigjson`, wherever that
/// stands, or else under `config.json`; a secret with neither has none.
pub proof fn law_secret_holds_its_config(data: Seq<(Seq<char>, Seq<u8>)>, bytes: Seq<u8>)
    requires
        distinct_keys(data),
    ensures
        data.contains((".dockerconfigjson"@, bytes)) ==> secret_config(data) == Some(bytes),
        data.contains(("config.json"@, bytes)) && (forall|i: int|
            0 <= i < data.len() ==> (#[trigger] data[i]).0 != ".dockerconfigjson"@)
            ==> secret_config(data) == Some(bytes),
        (forall|i: int|
            0 <= i < data.len() ==> (#[trigger] data[i]).0 != ".dockerconfigjson"@ && data[i].0
                != "config.json"@) ==> secret_config(data) is None,
{
    lemma_secret_value(data, ".dockerconfigjson"@, bytes);
    lemma_secret_value(data, "config.json"@, bytes);
}

proof fn lemma_secret_value(data: Seq<(Seq<char>, Seq<u8>)>, key: Seq<char>, bytes: Seq<u8>)
    requires
        distinct_keys(data),
    ensures
        data.contains((key, bytes)) ==> secret_value(data, key) == Some(bytes),
        (forall|i: int| 0 <= i < data.len() ==> (#[trigger] data[i]).0 != key) ==> secret_value(
            data,
            key,
        ) is None,
    decreases data.len(),
{
    if data.len() > 0 {
        let rest = data.skip(1);
        assert forall|i: int, j: int| 0 <= i < j < rest.len() implies (#[trigger] rest[i]).0 != (
        #[trigger] rest[j]).0 by {
            assert(rest[i] == data[i + 1]);
            assert(rest[j] == data[j + 1]);
        }
        lemma_secret_value(rest, key, bytes);
        if data.contains((key, bytes)) {
            let i = choose|i: int| 0 <= i < data.len() && data[i] == (key, bytes);
            if i > 0 {
                assert(rest[i - 1] == (key, bytes));
                assert(data[0].0 != data[i].0);
            }
        }
        if forall|i: int| 0 <= i < data.len() ==> (#[trigger] data[i]).0 != key {
            assert forall|i: int| 0 <= i < rest.len() implies (#[trigger] rest[i]).0 != key by {
                assert(rest[i] == data[i + 1]);
            }
        }
    }
}

/// A secret has the credentials of its Docker configuration, where it has one that is a JSON
/// document, and none otherwise.
pub proof fn law_secret_has_the_credentials_of_its_config(
    data: Seq<(Seq<char>, Seq<u8>)>,
    registry: Seq<char>,
)
    ensures
        match secret_config(data) {
            Some(bytes) => match json_document(bytes) {
                Some(config) => secret_credentials(data, registry) == config_credentials(
                    config,
                    registry,
                ),
                None => secret_credentials(data, registry) is None,
            },
            None => secret_credentials(data, registry) is None,
        },
{
}

/// A pull secret is used for the registry that it is made for: with a Docker configuration whose
/// entry for the registry encodes a user name and a password, it has these, whatever other keys
/// and entries about other registries it holds.
pub proof fn law_pull_secret_is_used(
    data: Seq<(Seq<char>, Seq<u8>)>,
    bytes: Seq<u8>,
    config: JsonView,
    entries: Seq<(Seq<char>, JsonView)>,
    i: int,
    registry: Seq<char>,
    username: Seq<char>,
    password: Seq<char>,
)
    requires
        distinct_keys(data),
        data.contains((".dockerconfigjson"@, bytes)),
        json_document(bytes) == Some(config),
        config.get("auths"@) == Some(JsonView::Object(entries)),
        0 <= i < entries.len(),
        same_ignoring_case(key_host(entries[i].0), registry),
        !username.contains(':'),
        entries[i].1.get("auth"@) == Some(
            JsonView::Text(encoded(encode_utf8(username + seq![':'] + password))),
        ),
        forall|j: int| 0 <= j < i ==> !key_matches((#[trigger] entries[j]).0, registry),
    ensures
        secret_credentials(data, registry) == Some(CredentialsView { username, password }),
{
    law_secret_holds_its_config(data, bytes);
    law_registry_is_its_own_key(entries[i].0, registry);
    law_encoded_credentials_are_read_back(entries[i].1, username, password);
    law_config_gives_the_first_credentials(config, entries, i, registry);
}

/// Credentials are seen with their user name and their password.
pub proof fn law_credentials_are_seen_as_they_are(creds: RegistryCredentials)
    ensures
        creds@.username == creds.username@,
        creds@.password == creds.password@,
        creds.deep_view() == creds@,
{
}

/// Bytes that encode a user name without a colon, a colon and a password are these credentials,
/// whatever the entry holds; other bytes, and none, leave it to the entry's `username` and
/// `password`.
pub proof fn law_decoded_credentials_go_first(
    bytes: Seq<u8>,
    entry: JsonView,
    username: Seq<char>,
    password: Seq<char>,
)
    ensures
        !username.contains(':') ==> credentials_with(
            Some(encode_utf8(username + seq![':'] + password)),
            entry,
        ) == Some(CredentialsView { username, password }),
        (forall|u: Seq<char>, p: Seq<char>| bytes != #[trigger] encode_utf8(u + seq![':'] + p))
            ==> credentials_with(Some(bytes), entry) == credentials_with(None, entry),
        match (entry.get("username"@), entry.get("password"@)) {
            (Some(JsonView::Text(u)), Some(JsonView::Text(p))) => credentials_with(None, entry)
                == Some(CredentialsView { username: u, password: p }),
            _ => credentials_with(None, entry) is None,
        },
{
    let text = username + seq![':'] + password;
    encode_utf8_valid_utf8(text);
    encode_utf8_decode_utf8(text);
    if !username.contains(':') {
        lemma_cut_at(username, ':', password);
    }
    if let Some(c) = decoded_credentials(bytes) {
        law_cut_is_undone(decode_utf8(bytes), ':');
        decode_utf8_encode_utf8(bytes);
        assert(encode_utf8(c.username + seq![':'] + c.password) == bytes);
    }
}

/// `registry_key_matches` for a key that is just a host: whether the host is the registry, whatever
/// the case of ASCII letters, or both are Docker Hub.
pub proof fn law_host_matches_its_registry(key: &str, registry: &str, res: bool)
    requires
        call_ensures(registry_key_matches, (key, registry), res),
        !key@.contains('/'),
        key@.len() > 0 ==> !white_space(key@[0]) && !white_space(key@.last()),
    ensures
        res <==> {
            ||| same_ignoring_case(key@, registry@)
            ||| (same_ignoring_case(key@, "docker.io"@) || same_ignoring_case(
                key@,
                "index.docker.io"@,
            ) || same_ignoring_case(key@, "registry-1.docker.io"@)) && (registry@.len() == 0
                || same_ignoring_case(registry@, "docker.io"@) || same_ignoring_case(
                registry@,
                "index.docker.io"@,
            ) || same_ignoring_case(registry@, "registry-1.docker.io"@))
        },
        key@ == registry@ ==> res,
{
    let none: Seq<char> = seq![];
    lemma_no_scheme(key@, none);
    assert(key@ + none =~= key@);
    assert(repeated("http://"@, 0) + key@ =~= key@);
    assert(repeated("https://"@, 0) + key@ =~= key@);
    assert(none + key@ + none =~= key@);
    law_key_is_about_the_registry_of_its_host(none, 0, 0, key@, none, none, registry@);
    law_case_is_that_of_ascii(key@, registry@);
}

/// `extract_credentials_from_auth_entry` gives the user name and the password that the `auth` of the
/// entry encodes.
pub proof fn law_extraction_gives_the_encoded_credentials(
    entry: &Json,
    res: Option<RegistryCredentials>,
    username: Seq<char>,
    password: Seq<char>,
)
    requires
        call_ensures(extract_credentials_from_auth_entry, (entry,), res),
        !username.contains(':'),
        entry@.get("auth"@) == Some(
            JsonView::Text(encoded(encode_utf8(username + seq![':'] + password))),
        ),
    ensures
        res matches Some(creds) && creds.username@ == username && creds.password@ == password,
{
    law_encoded_credentials_are_read_back(entry@, username, password);
}

} // verus!
