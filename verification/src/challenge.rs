//! Bearer challenges of a `WWW-Authenticate` header.

use vstd::prelude::*;
use vstd::string::*;
use crate::text::{
    cut, joined, law_joined_texts_are_taken_apart, law_quotes_are_trimmed,
    law_white_space_is_trimmed, lemma_cut_at, lemma_first_piece, lemma_leading_is_suffix,
    lemma_leading_of_concat, lemma_one_piece, lemma_pieces_len, lemma_trailing_is_prefix,
    lemma_trimmed_away, lemma_without_leading_len, lemma_without_trailing_len, pieces, same, split,
    split_once, strip_prefix, trim, trim_leading, trimmed, unquote, unquoted, views, white_space,
    without_leading, without_trailing, Trim,
};

verus! {

/// Where a bearer token is to be had, and for what.
#[derive(Debug)]
pub struct AuthChallenge {
    pub realm: String,
    pub service: Option<String>,
    pub scope: Option<String>,
}

/// `AuthChallenge` over mathematical text.
#[verifier::ext_equal]
pub struct ChallengeView {
    pub realm: Seq<char>,
    pub service: Option<Seq<char>>,
    pub scope: Option<Seq<char>>,
}

impl View for AuthChallenge {
    type V = ChallengeView;

    open spec fn view(&self) -> ChallengeView {
        ChallengeView {
            realm: self.realm@,
            service: self.service.deep_view(),
            scope: self.scope.deep_view(),
        }
    }
}

/// What stands behind the scheme of a header that holds a bearer challenge.
pub open spec fn bearer_parameters(header: Seq<char>) -> Option<Seq<char>> {
    let h = trimmed(header);
    if "Bearer"@.is_prefix_of(h) || "bearer"@.is_prefix_of(h) {
        Some(without_leading(h.skip(6), Trim::WhiteSpace))
    } else {
        None
    }
}

/// The key and the value of one parameter, `key=value` with the value perhaps in quotes.
pub open spec fn parameter(piece: Seq<char>) -> Option<(Seq<char>, Seq<char>)> {
    match cut(trimmed(piece), '=') {
        Some((key, value)) => Some((trimmed(key), unquoted(trimmed(value)))),
        None => None,
    }
}

/// The value of the last of `params` whose key is `name`.
pub open spec fn last_value(params: Seq<Seq<char>>, name: Seq<char>) -> Option<Seq<char>>
    decreases params.len(),
{
    if params.len() == 0 {
        None
    } else {
        match parameter(params.last()) {
            Some((key, value)) if key == name => Some(value),
            _ => last_value(params.drop_last(), name),
        }
    }
}

/// The bearer challenge that `header` holds: it names at least a realm.
pub open spec fn challenge(header: Seq<char>) -> Option<ChallengeView> {
    match bearer_parameters(header) {
        Some(rest) => {
            let params = pieces(rest, ',');
            match last_value(params, "realm"@) {
                Some(realm) => Some(
                    ChallengeView {
                        realm,
                        service: last_value(params, "service"@),
                        scope: last_value(params, "scope"@),
                    },
                ),
                None => None,
            }
        },
        None => None,
    }
}

/// Reads the bearer challenge of a `WWW-Authenticate` header.
pub fn parse_www_authenticate(header: &str) -> (res: Option<AuthChallenge>)
    ensures
        match res {
            Some(c) => challenge(header@) == Some(c@),
            None => challenge(header@) is None,
        },
{
    proof {
        lemma_literals();
    }
    let header_text: &str = trim(header);
    let behind: &str = match strip_prefix(header_text, "Bearer") {
        Some(behind) => behind,
        None => match strip_prefix(header_text, "bearer") {
            Some(behind) => behind,
            None => {
                return None;
            },
        },
    };
    let rest: &str = trim_leading(behind, Trim::WhiteSpace);
    let parts: Vec<&str> = split(rest, ',');
    let ghost params = views(parts@);

    let mut realm: Option<String> = None;
    let mut service: Option<String> = None;
    let mut scope: Option<String> = None;
    let mut i: usize = 0;
    while i < parts.len()
        invariant
            i <= parts@.len(),
            params == views(parts@),
            "realm"@ != "service"@,
            "realm"@ != "scope"@,
            "service"@ != "scope"@,
            realm.deep_view() == last_value(params.take(i as int), "realm"@),
            service.deep_view() == last_value(params.take(i as int), "service"@),
            scope.deep_view() == last_value(params.take(i as int), "scope"@),
        decreases parts.len() - i,
    {
        proof {
            assert(params.take(i + 1).drop_last() =~= params.take(i as int));
            assert(params.take(i + 1).last() == parts@[i as int]@);
        }
        if let Some((k, v)) = split_once(trim(parts[i]), '=') {
            let key: &str = trim(k);
            let value: &str = unquote(trim(v));
            if same(key, "realm") {
                realm = Some(value.to_owned());
            } else if same(key, "service") {
                service = Some(value.to_owned());
            } else if same(key, "scope") {
                scope = Some(value.to_owned());
            }
        }
        i += 1;
    }
    assert(params.take(parts@.len() as int) =~= params);
    match realm {
        Some(realm) => Some(AuthChallenge { realm, service, scope }),
        None => None,
    }
}

/// A parameter as registries write it, with its value in quotes.
pub open spec fn written_parameter(key: Seq<char>, value: Seq<char>) -> Seq<char> {
    key + seq!['=', '"'] + value + seq!['"']
}

/// Parameters as registries write them, with commas between them.
pub open spec fn written_parameters(params: Seq<(Seq<char>, Seq<char>)>) -> Seq<char>
    decreases params.len(),
{
    if params.len() == 0 {
        seq![]
    } else if params.len() == 1 {
        written_parameter(params[0].0, params[0].1)
    } else {
        written_parameter(params[0].0, params[0].1) + seq![','] + written_parameters(
            params.skip(1),
        )
    }
}

/// A key that can stand before a value: it has no comma and no equals sign, and no white space at
/// either end.
pub open spec fn plain_key(key: Seq<char>) -> bool {
    &&& !key.contains(',')
    &&& !key.contains('=')
    &&& key.len() > 0 ==> !white_space(key[0]) && !white_space(key.last())
}

/// A value that can stand between quotes: it has no comma, and no quote at either end.
pub open spec fn quotable(value: Seq<char>) -> bool {
    &&& !value.contains(',')
    &&& value.len() > 0 ==> value[0] != '"' && value.last() != '"'
}

/// `name` stands for `value` among `params`, or for nothing, and never for two things.
pub open spec fn stands_for(
    params: Seq<(Seq<char>, Seq<char>)>,
    name: Seq<char>,
    value: Option<Seq<char>>,
) -> bool {
    &&& value matches Some(v) ==> params.contains((name, v))
    &&& forall|i: int|
        0 <= i < params.len() && (#[trigger] params[i]).0 == name ==> value == Some(params[i].1)
}

/// A challenge as registries write it is read back whole, in whatever order its parameters stand
/// and whatever other parameters stand among them.
pub proof fn law_written_challenge_is_read_back(
    scheme: Seq<char>,
    params: Seq<(Seq<char>, Seq<char>)>,
    c: ChallengeView,
)
    requires
        scheme == "Bearer"@ || scheme == "bearer"@,
        forall|i: int|
            0 <= i < params.len() ==> plain_key((#[trigger] params[i]).0) && quotable(params[i].1),
        stands_for(params, "realm"@, Some(c.realm)),
        stands_for(params, "service"@, c.service),
        stands_for(params, "scope"@, c.scope),
    ensures
        challenge(scheme + seq![' '] + written_parameters(params)) == Some(c),
{
    lemma_literals();
    let rest = written_parameters(params);
    let header = scheme + seq![' '] + rest;
    lemma_written_parameters(params);
    assert(header[0] == scheme[0]);
    assert(header.last() == rest.last());
    assert(trimmed(header) == header);
    assert(scheme =~= header.subrange(0, 6));
    assert(header.skip(6)[0] == ' ');
    assert(header.skip(6).skip(1) =~= rest);
    assert(without_leading(header.skip(6), Trim::WhiteSpace) == without_leading(
        rest,
        Trim::WhiteSpace,
    ));
    assert(bearer_parameters(header) == Some(rest));
    let parts = pieces(rest, ',');
    lemma_value_read_back(params, parts, "realm"@, Some(c.realm));
    lemma_value_read_back(params, parts, "service"@, c.service);
    lemma_value_read_back(params, parts, "scope"@, c.scope);
}

/// Written parameters are taken apart again.
proof fn lemma_written_parameters(params: Seq<(Seq<char>, Seq<char>)>)
    requires
        params.len() > 0,
        forall|i: int|
            0 <= i < params.len() ==> plain_key((#[trigger] params[i]).0) && quotable(params[i].1),
    ensures
        ({
            let rest = written_parameters(params);
            let parts = pieces(rest, ',');
            &&& rest.len() > 0
            &&& !white_space(rest[0])
            &&& rest.last() == '"'
            &&& parts.len() == params.len()
            &&& forall|i: int|
                0 <= i < params.len() ==> parameter(#[trigger] parts[i]) == Some(params[i])
        }),
    decreases params.len(),
{
    let first = written_parameter(params[0].0, params[0].1);
    lemma_written_parameter(params[0].0, params[0].1);
    if params.len() == 1 {
        lemma_one_piece(first, ',');
    } else {
        let others = params.skip(1);
        assert forall|i: int| 0 <= i < others.len() implies plain_key((#[trigger] others[i]).0)
            && quotable(others[i].1) by {
            assert(others[i] == params[i + 1]);
        }
        lemma_written_parameters(others);
        let tail = written_parameters(others);
        lemma_first_piece(first, ',', tail);
        let parts = pieces(written_parameters(params), ',');
        assert forall|i: int| 0 <= i < params.len() implies parameter(#[trigger] parts[i]) == Some(
            params[i],
        ) by {
            if i > 0 {
                assert(parts[i] == pieces(tail, ',')[i - 1]);
                assert(params[i] == others[i - 1]);
            }
        }
    }
}

/// A name that stands for one value is read as that value.
proof fn lemma_value_read_back(
    params: Seq<(Seq<char>, Seq<char>)>,
    parts: Seq<Seq<char>>,
    name: Seq<char>,
    value: Option<Seq<char>>,
)
    requires
        parts.len() == params.len(),
        forall|i: int| 0 <= i < params.len() ==> parameter(#[trigger] parts[i]) == Some(params[i]),
        stands_for(params, name, value),
    ensures
        last_value(parts, name) == value,
    decreases params.len(),
{
    if params.len() > 0 {
        let n = params.len() - 1;
        assert(parts.last() == parts[n]);
        assert(parameter(parts[n]) == Some(params[n]));
        if params[n].0 != name {
            let fewer = params.drop_last();
            if let Some(v) = value {
                let i = choose|i: int| 0 <= i < params.len() && params[i] == (name, v);
                assert(fewer[i] == (name, v));
            }
            assert forall|i: int| 0 <= i < fewer.len() && (#[trigger] fewer[i]).0 == name implies
                value == Some(fewer[i].1) by {
                assert(fewer[i] == params[i]);
            }
            assert forall|i: int| 0 <= i < fewer.len() implies parameter(
                #[trigger] parts.drop_last()[i],
            ) == Some(fewer[i]) by {
                assert(parts.drop_last()[i] == parts[i]);
            }
            lemma_value_read_back(fewer, parts.drop_last(), name, value);
        }
    }
}

/// What the literals of a challenge are made of.
proof fn lemma_literals()
    ensures
        "Bearer"@ == seq!['B', 'e', 'a', 'r', 'e', 'r'],
        "bearer"@ == seq!['b', 'e', 'a', 'r', 'e', 'r'],
        "realm"@ != "service"@,
        "realm"@ != "scope"@,
        "service"@ != "scope"@,
{
    reveal_strlit("Bearer");
    reveal_strlit("bearer");
    reveal_strlit("realm");
    reveal_strlit("service");
    reveal_strlit("scope");
    assert("realm"@[0] != "service"@[0]);
    assert("realm"@[0] != "scope"@[0]);
    assert("service"@.len() != "scope"@.len());
}

/// A header whose bearer parameters name no realm holds no challenge.
pub proof fn law_realm_is_needed(header: Seq<char>)
    requires
        bearer_parameters(header) matches Some(rest) ==> forall|i: int|
            0 <= i < pieces(rest, ',').len() ==> (parameter(#[trigger] pieces(rest, ',')[i])
                matches Some((key, _)) ==> key != "realm"@),
    ensures
        challenge(header) is None,
{
    if let Some(rest) = bearer_parameters(header) {
        lemma_no_value(pieces(rest, ','), "realm"@);
    }
}

proof fn lemma_no_value(params: Seq<Seq<char>>, name: Seq<char>)
    requires
        forall|i: int|
            0 <= i < params.len() ==> (parameter(#[trigger] params[i]) matches Some((key, _))
                ==> key != name),
    ensures
        last_value(params, name) is None,
    decreases params.len(),
{
    if params.len() > 0 {
        assert(params.last() == params[params.len() - 1]);
        assert forall|i: int| 0 <= i < params.drop_last().len() implies (parameter(
            #[trigger] params.drop_last()[i],
        ) matches Some((key, _)) ==> key != name) by {
            assert(params.drop_last()[i] == params[i]);
        }
        lemma_no_value(params.drop_last(), name);
    }
}

/// A header of another scheme holds no bearer challenge.
pub proof fn law_other_schemes_are_refused(header: Seq<char>)
    requires
        !"Bearer"@.is_prefix_of(trimmed(header)),
        !"bearer"@.is_prefix_of(trimmed(header)),
    ensures
        challenge(header) is None,
{
}

proof fn lemma_written_parameter(key: Seq<char>, value: Seq<char>)
    requires
        plain_key(key),
        quotable(value),
    ensures
        parameter(written_parameter(key, value)) == Some((key, value)),
        !written_parameter(key, value).contains(','),
        !white_space(written_parameter(key, value)[0]),
        written_parameter(key, value).last() == '"',
{
    let piece = written_parameter(key, value);
    let quoted = seq!['"'] + value + seq!['"'];
    assert(piece[0] == if key.len() > 0 {
        key[0]
    } else {
        '='
    });
    assert(piece.last() == '"');
    assert(trimmed(piece) == piece);
    assert(piece =~= key + seq!['='] + quoted);
    lemma_cut_at(key, '=', quoted);
    assert(trimmed(key) == key);
    assert(quoted[0] == '"' && quoted.last() == '"');
    assert(trimmed(quoted) == quoted);
    let open = quoted.skip(1);
    assert(open =~= value + seq!['"']);
    if value.len() == 0 {
        assert(open.skip(1) =~= value);
        assert(without_leading(quoted, Trim::DoubleQuote) == without_leading(
            open,
            Trim::DoubleQuote,
        ));
        assert(without_leading(open, Trim::DoubleQuote) == without_leading(
            value,
            Trim::DoubleQuote,
        ));
    } else {
        assert(open[0] == value[0]);
        assert(without_leading(quoted, Trim::DoubleQuote) == without_leading(
            open,
            Trim::DoubleQuote,
        ));
        assert(without_leading(open, Trim::DoubleQuote) == open);
        assert(open.drop_last() =~= value);
        assert(without_trailing(open, Trim::DoubleQuote) == without_trailing(
            value,
            Trim::DoubleQuote,
        ));
    }
    assert forall|i: int| 0 <= i < piece.len() implies piece[i] != ',' by {
        if i < key.len() {
            assert(piece[i] == key[i]);
        } else if key.len() + 2 <= i < piece.len() - 1 {
            assert(piece[i] == value[i - key.len() - 2]);
        }
    }
}

/// No text of a challenge is longer than the header that it came in.
pub proof fn lemma_challenge_len(header: Seq<char>)
    ensures
        challenge(header) matches Some(c) ==> {
            &&& c.realm.len() <= header.len()
            &&& c.service matches Some(service) ==> service.len() <= header.len()
            &&& c.scope matches Some(scope) ==> scope.len() <= header.len()
        },
{
    lemma_without_leading_len(header, Trim::WhiteSpace);
    lemma_without_trailing_len(without_leading(header, Trim::WhiteSpace), Trim::WhiteSpace);
    let h = trimmed(header);
    if let Some(rest) = bearer_parameters(header) {
        lemma_literals();
        lemma_without_leading_len(h.skip(6), Trim::WhiteSpace);
        lemma_pieces_len(rest, ',');
        lemma_last_value_len(pieces(rest, ','), "realm"@, rest.len());
        lemma_last_value_len(pieces(rest, ','), "service"@, rest.len());
        lemma_last_value_len(pieces(rest, ','), "scope"@, rest.len());
    }
}

proof fn lemma_last_value_len(params: Seq<Seq<char>>, name: Seq<char>, bound: nat)
    requires
        forall|i: int| 0 <= i < params.len() ==> (#[trigger] params[i]).len() <= bound,
    ensures
        last_value(params, name) matches Some(value) ==> value.len() <= bound,
    decreases params.len(),
{
    if params.len() > 0 {
        let piece = params.last();
        assert(piece == params[params.len() - 1]);
        lemma_trimmed_len(piece);
        trimmed(piece).index_of_first_ensures('=');
        if let Some((key, value)) = cut(trimmed(piece), '=') {
            lemma_trimmed_len(value);
            lemma_without_leading_len(trimmed(value), Trim::DoubleQuote);
            lemma_without_trailing_len(
                without_leading(trimmed(value), Trim::DoubleQuote),
                Trim::DoubleQuote,
            );
        }
        assert forall|i: int| 0 <= i < params.drop_last().len() implies (
        #[trigger] params.drop_last()[i]).len() <= bound by {
            assert(params.drop_last()[i] == params[i]);
        }
        lemma_last_value_len(params.drop_last(), name, bound);
    }
}

proof fn lemma_trimmed_len(s: Seq<char>)
    ensures
        trimmed(s).len() <= s.len(),
{
    lemma_without_leading_len(s, Trim::WhiteSpace);
    lemma_without_trailing_len(without_leading(s, Trim::WhiteSpace), Trim::WhiteSpace);
}

/// All of `s` is white space.
pub open spec fn blank(s: Seq<char>) -> bool {
    forall|i: int| 0 <= i < s.len() ==> white_space(#[trigger] s[i])
}

/// All of `s` is double quotes.
pub open spec fn quotes(s: Seq<char>) -> bool {
    forall|i: int| 0 <= i < s.len() ==> #[trigger] s[i] == '"'
}

/// A parameter in all that it is written with: white space wherever it may stand, and quotes round
/// the value.
pub struct ParameterText {
    pub before: Seq<char>,
    pub key: Seq<char>,
    pub behind_key: Seq<char>,
    pub before_value: Seq<char>,
    pub opening: Seq<char>,
    pub value: Seq<char>,
    pub closing: Seq<char>,
    pub after: Seq<char>,
}

impl ParameterText {
    /// The value with its quotes.
    pub open spec fn quoted(self) -> Seq<char> {
        self.opening + self.value + self.closing
    }

    /// The whole text.
    pub open spec fn text(self) -> Seq<char> {
        self.before + self.key + self.behind_key + seq!['='] + self.before_value + self.quoted()
            + self.after
    }

    /// White space and quotes are that, the key has no white space at its ends and no equals sign,
    /// and neither the value nor the value with its quotes could have more taken away.
    pub open spec fn well_formed(self) -> bool {
        &&& blank(self.before) && blank(self.behind_key) && blank(self.before_value) && blank(
            self.after,
        )
        &&& quotes(self.opening) && quotes(self.closing)
        &&& !self.key.contains('=')
        &&& self.key.len() > 0 ==> !white_space(self.key[0]) && !white_space(self.key.last())
        &&& self.value.len() > 0 ==> self.value[0] != '"' && self.value.last() != '"'
        &&& self.quoted().len() > 0 ==> !white_space(self.quoted()[0]) && !white_space(
            self.quoted().last(),
        )
    }
}

/// `pieces` are written as `params` say: each is a parameter, or has no equals sign.
pub open spec fn written_as(
    pieces: Seq<Seq<char>>,
    params: Seq<Option<ParameterText>>,
) -> bool {
    &&& pieces.len() == params.len()
    &&& forall|i: int|
        0 <= i < pieces.len() ==> match #[trigger] params[i] {
            Some(p) => p.well_formed() && pieces[i] == p.text(),
            None => !pieces[i].contains('='),
        }
}

/// Parameter `i` is one whose key is `name`.
pub open spec fn names(params: Seq<Option<ParameterText>>, i: int, name: Seq<char>) -> bool {
    params[i] matches Some(p) && p.key == name
}

/// `value` is that of the last of `params` whose key is `name`; there is none where no key is.
pub open spec fn said_last(
    params: Seq<Option<ParameterText>>,
    name: Seq<char>,
    value: Option<Seq<char>>,
) -> bool {
    match value {
        Some(value) => exists|i: int|
            0 <= i < params.len() && #[trigger] names(params, i, name) && params[i]->0.value
                == value && forall|j: int|
                i < j < params.len() ==> !#[trigger] names(params, j, name),
        None => forall|j: int| 0 <= j < params.len() ==> !#[trigger] names(params, j, name),
    }
}

/// What a header with the scheme `Bearer` or `bearer` says, however it is written: what its last
/// parameters of the names `realm`, `service` and `scope` say. White space round anything and
/// quotes round values do not count, nor do other parameters or pieces without an equals sign.
/// Without a realm there is no challenge.
pub proof fn law_challenge_is_what_the_parameters_say(
    before: Seq<char>,
    scheme: Seq<char>,
    gap: Seq<char>,
    texts: Seq<Seq<char>>,
    params: Seq<Option<ParameterText>>,
    after: Seq<char>,
    realm: Option<Seq<char>>,
    service: Option<Seq<char>>,
    scope: Option<Seq<char>>,
)
    requires
        blank(before) && blank(gap) && blank(after),
        scheme == "Bearer"@ || scheme == "bearer"@,
        texts.len() > 0,
        written_as(texts, params),
        forall|i: int| 0 <= i < texts.len() ==> !(#[trigger] texts[i]).contains(','),
        joined(texts, ',').len() > 0 ==> !white_space(joined(texts, ',')[0]) && !white_space(
            joined(texts, ',').last(),
        ),
        said_last(params, "realm"@, realm),
        said_last(params, "service"@, service),
        said_last(params, "scope"@, scope),
    ensures
        challenge(before + (scheme + gap + joined(texts, ',')) + after) == match realm {
            Some(realm) => Some(ChallengeView { realm, service, scope }),
            None => None,
        },
{
    lemma_literals();
    let rest = joined(texts, ',');
    let s = scheme + gap + rest;
    let header = before + s + after;
    let h = if rest.len() > 0 {
        s
    } else {
        scheme
    };
    if rest.len() > 0 {
        assert(s[0] == scheme[0]);
        assert(s.last() == rest.last());
        law_white_space_is_trimmed(before, s, after);
    } else {
        assert(blank(gap + after)) by {
            assert forall|i: int| 0 <= i < (gap + after).len() implies white_space(
                #[trigger] (gap + after)[i],
            ) by {
                if i < gap.len() {
                    assert((gap + after)[i] == gap[i]);
                } else {
                    assert((gap + after)[i] == after[i - gap.len()]);
                }
            }
        }
        law_white_space_is_trimmed(before, scheme, gap + after);
        assert(header =~= before + scheme + (gap + after));
    }
    assert(trimmed(header) == h);
    assert(scheme =~= h.subrange(0, 6));
    if rest.len() > 0 {
        assert(h.skip(6) =~= gap + rest);
        lemma_trimmed_away(gap, Trim::WhiteSpace);
        lemma_leading_of_concat(gap, rest, Trim::WhiteSpace);
    } else {
        assert(h.skip(6) =~= rest);
    }
    assert(bearer_parameters(header) == Some(rest));
    law_joined_texts_are_taken_apart(texts, ',');
    lemma_said_last(texts, params, "realm"@, realm);
    lemma_said_last(texts, params, "service"@, service);
    lemma_said_last(texts, params, "scope"@, scope);
}

proof fn lemma_parameter_text(p: ParameterText)
    requires
        p.well_formed(),
    ensures
        parameter(p.text()) == Some((p.key, p.value)),
{
    let a = if p.key.len() > 0 {
        p.key + p.behind_key
    } else {
        seq![]
    };
    let b = if p.quoted().len() > 0 {
        p.before_value + p.quoted()
    } else {
        seq![]
    };
    let front = if p.key.len() > 0 {
        p.before
    } else {
        p.before + p.behind_key
    };
    let back = if p.quoted().len() > 0 {
        p.after
    } else {
        p.before_value + p.after
    };
    let s = a + seq!['='] + b;
    assert(p.text() =~= front + s + back);
    assert forall|i: int| 0 <= i < front.len() implies white_space(#[trigger] front[i]) by {
        if i < p.before.len() {
            assert(front[i] == p.before[i]);
        } else {
            assert(front[i] == p.behind_key[i - p.before.len()]);
        }
    }
    assert forall|i: int| 0 <= i < back.len() implies white_space(#[trigger] back[i]) by {
        if p.quoted().len() == 0 {
            if i < p.before_value.len() {
                assert(back[i] == p.before_value[i]);
            } else {
                assert(back[i] == p.after[i - p.before_value.len()]);
            }
        }
    }
    assert(s[0] == if p.key.len() > 0 {
        p.key[0]
    } else {
        '='
    });
    assert(s.last() == if p.quoted().len() > 0 {
        p.quoted().last()
    } else {
        '='
    });
    law_white_space_is_trimmed(front, s, back);
    assert(!a.contains('=')) by {
        if a.contains('=') {
            let i = choose|i: int| 0 <= i < a.len() && a[i] == '=';
            if i < p.key.len() {
                assert(p.key[i] == '=');
            } else {
                assert(white_space(p.behind_key[i - p.key.len()]));
            }
        }
    }
    lemma_cut_at(a, '=', b);
    let none: Seq<char> = seq![];
    if p.key.len() > 0 {
        law_white_space_is_trimmed(none, p.key, p.behind_key);
        assert(none + p.key + p.behind_key =~= a);
    } else {
        assert(trimmed(a) =~= p.key);
    }
    if p.quoted().len() > 0 {
        law_white_space_is_trimmed(p.before_value, p.quoted(), none);
        assert(p.before_value + p.quoted() + none =~= b);
    } else {
        assert(trimmed(b) =~= p.quoted());
    }
    law_quotes_are_trimmed(p.opening, p.value, p.closing);
}

proof fn lemma_said_last(
    texts: Seq<Seq<char>>,
    params: Seq<Option<ParameterText>>,
    name: Seq<char>,
    value: Option<Seq<char>>,
)
    requires
        written_as(texts, params),
        said_last(params, name, value),
    ensures
        last_value(texts, name) == value,
    decreases texts.len(),
{
    if texts.len() > 0 {
        let n = texts.len() - 1;
        assert(texts.last() == texts[n]);
        match params[n] {
            Some(p) => {
                lemma_parameter_text(p);
            },
            None => {
                lemma_trimmed_chars(texts[n], '=');
                trimmed(texts[n]).index_of_first_ensures('=');
            },
        }
        if names(params, n, name) {
            if let Some(v) = value {
                let i = choose|i: int|
                    0 <= i < params.len() && #[trigger] names(params, i, name)
                        && params[i]->0.value == v && forall|j: int|
                        i < j < params.len() ==> !#[trigger] names(params, j, name);
                assert(i == n);
            }
        } else {
            let fewer = params.drop_last();
            assert forall|j: int| 0 <= j < fewer.len() implies #[trigger] names(fewer, j, name)
                == names(params, j, name) by {}
            assert forall|i: int| 0 <= i < fewer.len() implies match #[trigger] fewer[i] {
                Some(p) => p.well_formed() && texts.drop_last()[i] == p.text(),
                None => !texts.drop_last()[i].contains('='),
            } by {
                assert(fewer[i] == params[i]);
            }
            if let Some(v) = value {
                let i = choose|i: int|
                    0 <= i < params.len() && #[trigger] names(params, i, name)
                        && params[i]->0.value == v && forall|j: int|
                        i < j < params.len() ==> !#[trigger] names(params, j, name);
                assert(names(fewer, i, name));
            } else {
                assert forall|j: int| 0 <= j < fewer.len() implies !#[trigger] names(
                    fewer,
                    j,
                    name,
                ) by {
                    assert(!names(params, j, name));
                }
            }
            lemma_said_last(texts.drop_last(), fewer, name, value);
        }
    }
}

/// Trimming brings no new character.
proof fn lemma_trimmed_chars(s: Seq<char>, c: char)
    requires
        !s.contains(c),
    ensures
        !trimmed(s).contains(c),
{
    let t = without_leading(s, Trim::WhiteSpace);
    lemma_leading_is_suffix(s, Trim::WhiteSpace);
    lemma_trailing_is_prefix(t, Trim::WhiteSpace);
    if trimmed(s).contains(c) {
        let i = choose|i: int| 0 <= i < trimmed(s).len() && trimmed(s)[i] == c;
        assert(t[i] == c);
        assert(s[i + (s.len() - t.len())] == c);
    }
}

/// A challenge is seen with its realm, its service and its scope.
pub proof fn law_challenges_are_seen_as_they_are(c: AuthChallenge)
    ensures
        c@.realm == c.realm@,
        match c.service {
            Some(service) => c@.service == Some(service@),
            None => c@.service is None,
        },
        match c.scope {
            Some(scope) => c@.scope == Some(scope@),
            None => c@.scope is None,
        },
{
}

/// `parse_www_authenticate` gives what the parameters of a header with the scheme `Bearer` or
/// `bearer` say, in whatever order they stand and whatever others stand among them.
pub proof fn law_parsing_gives_what_is_written(
    header: &str,
    res: Option<AuthChallenge>,
    scheme: Seq<char>,
    params: Seq<(Seq<char>, Seq<char>)>,
    realm: Seq<char>,
    service: Option<Seq<char>>,
    scope: Option<Seq<char>>,
)
    requires
        call_ensures(parse_www_authenticate, (header,), res),
        header@ == scheme + seq![' '] + written_parameters(params),
        scheme == "Bearer"@ || scheme == "bearer"@,
        forall|i: int|
            0 <= i < params.len() ==> plain_key((#[trigger] params[i]).0) && quotable(params[i].1),
        stands_for(params, "realm"@, Some(realm)),
        stands_for(params, "service"@, service),
        stands_for(params, "scope"@, scope),
    ensures
        res matches Some(c) && {
            &&& c.realm@ == realm
            &&& c.service.deep_view() == service
            &&& c.scope.deep_view() == scope
        },
{
    law_written_challenge_is_read_back(scheme, params, ChallengeView { realm, service, scope });
}

} // verus!
