//! Text handling on characters: searching, splitting, trimming and comparing.
//!
//! Specifications speak of `Seq<char>`, the view of both `str` and `String`.

use vstd::prelude::*;
use vstd::string::*;
use vstd::utf8::{
    decode_utf8, encode_utf8, encode_utf8_decode_utf8, encode_utf8_valid_utf8, is_ascii_chars,
    is_ascii_chars_encode_utf8, valid_utf8,
};

verus! {

/// A set of characters that is trimmed from the ends of a text.
#[derive(Clone, Copy, PartialEq, Eq, Structural)]
pub enum Trim {
    /// The Unicode property `White_Space`.
    WhiteSpace,
    /// The double quote.
    DoubleQuote,
}

impl Trim {
    /// Whether `c` is in the set.
    pub open spec fn has(self, c: char) -> bool {
        match self {
            Trim::WhiteSpace => white_space(c),
            Trim::DoubleQuote => c == '"',
        }
    }

    /// Whether `c` is in the set.
    pub fn contains(self, c: char) -> (res: bool)
        ensures
            res == self.has(c),
    {
        match self {
            Trim::WhiteSpace => is_white_space(c),
            Trim::DoubleQuote => c == '"',
        }
    }
}

/// The Unicode property `White_Space`.
pub open spec fn white_space(c: char) -> bool {
    ||| '\u{9}' <= c <= '\u{d}'
    ||| c == '\u{20}'
    ||| c == '\u{85}'
    ||| c == '\u{a0}'
    ||| c == '\u{1680}'
    ||| '\u{2000}' <= c <= '\u{200a}'
    ||| c == '\u{2028}'
    ||| c == '\u{2029}'
    ||| c == '\u{202f}'
    ||| c == '\u{205f}'
    ||| c == '\u{3000}'
}

/// `s` without the leading characters that are in `set`.
pub open spec fn without_leading(s: Seq<char>, set: Trim) -> Seq<char>
    decreases s.len(),
{
    if s.len() > 0 && set.has(s[0]) {
        without_leading(s.skip(1), set)
    } else {
        s
    }
}

/// `s` without the trailing characters that are in `set`.
pub open spec fn without_trailing(s: Seq<char>, set: Trim) -> Seq<char>
    decreases s.len(),
{
    if s.len() > 0 && set.has(s.last()) {
        without_trailing(s.drop_last(), set)
    } else {
        s
    }
}

/// `s` without white space at either end.
pub open spec fn trimmed(s: Seq<char>) -> Seq<char> {
    without_trailing(without_leading(s, Trim::WhiteSpace), Trim::WhiteSpace)
}

/// `s` without double quotes at either end.
pub open spec fn unquoted(s: Seq<char>) -> Seq<char> {
    without_trailing(without_leading(s, Trim::DoubleQuote), Trim::DoubleQuote)
}

/// What stands before the first `c` in `s`, and what stands after it.
pub open spec fn cut(s: Seq<char>, c: char) -> Option<(Seq<char>, Seq<char>)> {
    match s.index_of_first(c) {
        Some(i) => Some((s.take(i), s.skip(i + 1))),
        None => None,
    }
}

/// What stands before the last `c` in `s`, and what stands after it.
pub open spec fn cut_last(s: Seq<char>, c: char) -> Option<(Seq<char>, Seq<char>)> {
    match s.index_of_last(c) {
        Some(i) => Some((s.take(i), s.skip(i + 1))),
        None => None,
    }
}

/// The pieces of `s` between the occurrences of `c`.
pub open spec fn pieces(s: Seq<char>, c: char) -> Seq<Seq<char>>
    decreases s.len(),
{
    match cut(s, c) {
        Some((head, rest)) => {
            proof {
                s.index_of_first_ensures(c);
            }
            seq![head] + pieces(rest, c)
        },
        None => seq![s],
    }
}

/// `s` without `prefix`, as often as it stands at the front.
pub open spec fn without_prefixes(s: Seq<char>, prefix: Seq<char>) -> Seq<char>
    decreases s.len(),
{
    if 0 < prefix.len() && prefix.is_prefix_of(s) {
        without_prefixes(s.skip(prefix.len() as int), prefix)
    } else {
        s
    }
}

/// The lower-case form of an ASCII letter; any other character itself.
pub open spec fn ascii_lower(c: char) -> char {
    if 'A' <= c <= 'Z' {
        (c as u32 + 32) as char
    } else {
        c
    }
}

/// `a` and `b` are the same up to the case of ASCII letters.
pub open spec fn same_ignoring_case(a: Seq<char>, b: Seq<char>) -> bool {
    &&& a.len() == b.len()
    &&& forall|i: int| 0 <= i < a.len() ==> ascii_lower(#[trigger] a[i]) == ascii_lower(b[i])
}

/// `a` comes before `b` in the order of code points.
pub open spec fn text_less(a: Seq<char>, b: Seq<char>) -> bool
    decreases a.len(),
{
    if b.len() == 0 {
        false
    } else if a.len() == 0 {
        true
    } else {
        a[0] < b[0] || (a[0] == b[0] && text_less(a.skip(1), b.skip(1)))
    }
}

/// The views of a sequence of texts.
pub open spec fn views(texts: Seq<&str>) -> Seq<Seq<char>> {
    texts.map_values(|t: &str| t@)
}

/// The characters of `s`.
pub fn chars_of(s: &str) -> (res: Vec<char>)
    ensures
        res@ == s@,
{
    let mut res: Vec<char> = Vec::new();
    for c in it: s.chars()
        invariant
            res@ == s@.take(it.index()),
            it.seq() == s@,
    {
        res.push(c);
    }
    res
}

/// Each byte as the character of that number.
pub open spec fn bytes_as_chars(bytes: Seq<u8>) -> Seq<char> {
    Seq::new(bytes.len(), |i: int| bytes[i] as char)
}

/// `String::from_utf8`: the text that `bytes` encode in UTF-8, where they do.
#[verifier::external_body]
pub(crate) fn utf8_text(bytes: Vec<u8>) -> (res: Option<String>)
    ensures
        match res {
            Some(text) => valid_utf8(bytes@) && text@ == decode_utf8(bytes@),
            None => !valid_utf8(bytes@),
        },
{
    String::from_utf8(bytes).ok()
}

/// The text that ASCII bytes are.
pub fn ascii_text(bytes: &Vec<u8>) -> (res: String)
    requires
        forall|i: int| 0 <= i < bytes@.len() ==> #[trigger] bytes@[i] < 128,
    ensures
        res@ == bytes_as_chars(bytes@),
{
    proof {
        let chars = bytes_as_chars(bytes@);
        assert(is_ascii_chars(chars));
        is_ascii_chars_encode_utf8(chars);
        assert(encode_utf8(chars) =~= bytes@);
        encode_utf8_valid_utf8(chars);
        encode_utf8_decode_utf8(chars);
    }
    utf8_text(bytes.clone()).unwrap()
}

/// Whether `c` is white space.
pub fn is_white_space(c: char) -> (res: bool)
    ensures
        res == white_space(c),
{
    ('\u{9}' <= c && c <= '\u{d}') || c == '\u{20}' || c == '\u{85}' || c == '\u{a0}' || c
        == '\u{1680}' || ('\u{2000}' <= c && c <= '\u{200a}') || c == '\u{2028}' || c == '\u{2029}'
        || c == '\u{202f}' || c == '\u{205f}' || c == '\u{3000}'
}

/// `s` without the leading characters that are in `set`.
pub fn trim_leading(s: &str, set: Trim) -> (res: &str)
    ensures
        res@ == without_leading(s@, set),
{
    let cs: Vec<char> = chars_of(s);
    let mut i: usize = 0;
    assert(s@.skip(0) =~= s@);
    while i < cs.len() && set.contains(cs[i])
        invariant
            i <= cs@.len(),
            cs@ == s@,
            without_leading(s@.skip(i as int), set) == without_leading(s@, set),
        decreases cs.len() - i,
    {
        assert(s@.skip(i as int).skip(1) =~= s@.skip(i + 1));
        i += 1;
    }
    assert(s@.subrange(i as int, s@.len() as int) =~= s@.skip(i as int));
    s.substring_char(i, cs.len())
}

/// `s` without the trailing characters that are in `set`.
pub fn trim_trailing(s: &str, set: Trim) -> (res: &str)
    ensures
        res@ == without_trailing(s@, set),
{
    let cs: Vec<char> = chars_of(s);
    let mut i: usize = cs.len();
    assert(s@.take(s@.len() as int) =~= s@);
    while i > 0 && set.contains(cs[i - 1])
        invariant
            i <= cs@.len(),
            cs@ == s@,
            without_trailing(s@.take(i as int), set) == without_trailing(s@, set),
        decreases i,
    {
        assert(s@.take(i as int).drop_last() =~= s@.take(i - 1));
        i -= 1;
    }
    assert(s@.subrange(0, i as int) =~= s@.take(i as int));
    s.substring_char(0, i)
}

/// `s` without white space at either end.
pub fn trim(s: &str) -> (res: &str)
    ensures
        res@ == trimmed(s@),
{
    trim_trailing(trim_leading(s, Trim::WhiteSpace), Trim::WhiteSpace)
}

/// `s` without double quotes at either end.
pub fn unquote(s: &str) -> (res: &str)
    ensures
        res@ == unquoted(s@),
{
    trim_trailing(trim_leading(s, Trim::DoubleQuote), Trim::DoubleQuote)
}

/// Splits `s` at the first `c`.
pub fn split_once(s: &str, c: char) -> (res: Option<(&str, &str)>)
    ensures
        match res {
            Some((head, rest)) => cut(s@, c) == Some((head@, rest@)),
            None => cut(s@, c) is None,
        },
{
    let cs: Vec<char> = chars_of(s);
    let mut i: usize = 0;
    proof {
        s@.index_of_first_ensures(c);
    }
    while i < cs.len()
        invariant
            i <= cs@.len(),
            cs@ == s@,
            forall|j: int| 0 <= j < i ==> s@[j] != c,
            match s@.index_of_first(c) {
                Some(index) => 0 <= index < s@.len() && s@[index] == c && forall|j: int|
                    0 <= j < index < s@.len() ==> s@[j] != c,
                None => !s@.contains(c),
            },
        decreases cs.len() - i,
    {
        if cs[i] == c {
            assert(s@.contains(c));
            assert(s@.index_of_first(c) == Some(i as int));
            assert(s@.subrange(0, i as int) =~= s@.take(i as int));
            assert(s@.subrange(i + 1, s@.len() as int) =~= s@.skip(i + 1));
            return Some((s.substring_char(0, i), s.substring_char(i + 1, cs.len())));
        }
        i += 1;
    }
    None
}

/// Splits `s` at the last `c`.
pub fn rsplit_once(s: &str, c: char) -> (res: Option<(&str, &str)>)
    ensures
        match res {
            Some((head, rest)) => cut_last(s@, c) == Some((head@, rest@)),
            None => cut_last(s@, c) is None,
        },
{
    let cs: Vec<char> = chars_of(s);
    let mut i: usize = cs.len();
    proof {
        s@.index_of_last_ensures(c);
    }
    while i > 0
        invariant
            i <= cs@.len(),
            cs@ == s@,
            forall|j: int| i <= j < s@.len() ==> s@[j] != c,
            match s@.index_of_last(c) {
                Some(index) => 0 <= index < s@.len() && s@[index] == c && forall|j: int|
                    0 <= index < j < s@.len() ==> s@[j] != c,
                None => !s@.contains(c),
            },
        decreases i,
    {
        i -= 1;
        if cs[i] == c {
            assert(s@.contains(c));
            assert(s@.index_of_last(c) == Some(i as int));
            assert(s@.subrange(0, i as int) =~= s@.take(i as int));
            assert(s@.subrange(i + 1, s@.len() as int) =~= s@.skip(i + 1));
            return Some((s.substring_char(0, i), s.substring_char(i + 1, cs.len())));
        }
    }
    None
}

/// Splits `s` at every `c`.
pub fn split(s: &str, c: char) -> (res: Vec<&str>)
    ensures
        views(res@) == pieces(s@, c),
{
    let mut res: Vec<&str> = Vec::new();
    let mut rest: &str = s;
    loop
        invariant
            views(res@) + pieces(rest@, c) == pieces(s@, c),
        decreases rest@.len(),
    {
        let ghost before = res@;
        match split_once(rest, c) {
            Some((head, tail)) => {
                proof {
                    rest@.index_of_first_ensures(c);
                }
                res.push(head);
                assert(views(res@) =~= views(before) + seq![head@]);
                assert(views(res@) + pieces(tail@, c) =~= views(before) + (seq![head@] + pieces(
                    tail@,
                    c,
                )));
                rest = tail;
            },
            None => {
                res.push(rest);
                assert(views(res@) =~= views(before) + pieces(rest@, c));
                return res;
            },
        }
    }
}

/// `s` behind `prefix`, where `s` starts with it.
pub fn strip_prefix<'a>(s: &'a str, prefix: &str) -> (res: Option<&'a str>)
    ensures
        match res {
            Some(rest) => prefix@.is_prefix_of(s@) && rest@ == s@.skip(prefix@.len() as int),
            None => !prefix@.is_prefix_of(s@),
        },
{
    let cs: Vec<char> = chars_of(s);
    let ps: Vec<char> = chars_of(prefix);
    if cs.len() < ps.len() {
        return None;
    }
    let mut i: usize = 0;
    while i < ps.len()
        invariant
            i <= ps@.len() <= cs@.len(),
            cs@ == s@,
            ps@ == prefix@,
            forall|j: int| 0 <= j < i ==> ps@[j] == cs@[j],
        decreases ps.len() - i,
    {
        if cs[i] != ps[i] {
            assert(s@.subrange(0, prefix@.len() as int)[i as int] != prefix@[i as int]);
            return None;
        }
        i += 1;
    }
    assert(s@.subrange(ps@.len() as int, s@.len() as int) =~= s@.skip(prefix@.len() as int));
    Some(s.substring_char(ps.len(), cs.len()))
}

/// `s` without `prefix`, as often as it stands at the front.
pub fn strip_prefixes<'a>(s: &'a str, prefix: &str) -> (res: &'a str)
    ensures
        res@ == without_prefixes(s@, prefix@),
{
    if prefix.is_empty() {
        return s;
    }
    let mut rest: &'a str = s;
    loop
        invariant
            prefix@.len() > 0,
            without_prefixes(rest@, prefix@) == without_prefixes(s@, prefix@),
        decreases rest@.len(),
    {
        match strip_prefix(rest, prefix) {
            Some(shorter) => {
                rest = shorter;
            },
            None => {
                return rest;
            },
        }
    }
}

/// Whether `c` occurs in `s`.
pub fn contains_char(s: &str, c: char) -> (res: bool)
    ensures
        res == s@.contains(c),
{
    proof {
        s@.index_of_first_ensures(c);
    }
    split_once(s, c).is_some()
}

/// Whether `a` and `b` are the same text.
pub fn same(a: &str, b: &str) -> (res: bool)
    ensures
        res == (a@ == b@),
{
    let xs: Vec<char> = chars_of(a);
    let ys: Vec<char> = chars_of(b);
    if xs.len() != ys.len() {
        return false;
    }
    let mut i: usize = 0;
    while i < xs.len()
        invariant
            i <= xs@.len() == ys@.len(),
            xs@ == a@,
            ys@ == b@,
            forall|j: int| 0 <= j < i ==> xs@[j] == ys@[j],
        decreases xs.len() - i,
    {
        if xs[i] != ys[i] {
            return false;
        }
        i += 1;
    }
    assert(a@ =~= b@);
    true
}

/// The lower-case form of an ASCII letter; any other character itself.
pub fn to_ascii_lower(c: char) -> (res: char)
    ensures
        res == ascii_lower(c),
{
    if 'A' <= c && c <= 'Z' {
        (c as u8 + 32) as char
    } else {
        c
    }
}

/// Whether `a` and `b` are the same up to the case of ASCII letters.
pub fn eq_ignore_ascii_case(a: &str, b: &str) -> (res: bool)
    ensures
        res == same_ignoring_case(a@, b@),
{
    let xs: Vec<char> = chars_of(a);
    let ys: Vec<char> = chars_of(b);
    if xs.len() != ys.len() {
        return false;
    }
    let mut i: usize = 0;
    while i < xs.len()
        invariant
            i <= xs@.len() == ys@.len(),
            xs@ == a@,
            ys@ == b@,
            forall|j: int| 0 <= j < i ==> ascii_lower(#[trigger] a@[j]) == ascii_lower(b@[j]),
        decreases xs.len() - i,
    {
        if to_ascii_lower(xs[i]) != to_ascii_lower(ys[i]) {
            assert(ascii_lower(a@[i as int]) != ascii_lower(b@[i as int]));
            return false;
        }
        i += 1;
    }
    true
}

/// A text is cut at the first of a character where the part before it holds none.
pub proof fn lemma_cut_at(head: Seq<char>, c: char, rest: Seq<char>)
    requires
        !head.contains(c),
    ensures
        cut(head + seq![c] + rest, c) == Some((head, rest)),
{
    let s = head + seq![c] + rest;
    s.index_of_first_ensures(c);
    assert(s[head.len() as int] == c);
    assert(s.contains(c));
    let i = s.index_of_first(c).unwrap();
    if i < head.len() {
        assert(head[i] == c);
    }
    assert(s.take(i) =~= head);
    assert(s.skip(i + 1) =~= rest);
}

/// A text is cut at the last of a character where the part behind it holds none.
pub proof fn lemma_cut_last_at(head: Seq<char>, c: char, rest: Seq<char>)
    requires
        !rest.contains(c),
    ensures
        cut_last(head + seq![c] + rest, c) == Some((head, rest)),
{
    let s = head + seq![c] + rest;
    s.index_of_last_ensures(c);
    assert(s[head.len() as int] == c);
    assert(s.contains(c));
    let i = s.index_of_last(c).unwrap();
    if i > head.len() {
        assert(rest[i - head.len() - 1] == c);
    }
    assert(s.take(i) =~= head);
    assert(s.skip(i + 1) =~= rest);
}

/// No text comes before itself.
pub proof fn lemma_text_less_irreflexive(a: Seq<char>)
    ensures
        !text_less(a, a),
    decreases a.len(),
{
    if a.len() > 0 {
        lemma_text_less_irreflexive(a.skip(1));
    }
}

/// A text without `c` is one piece.
pub proof fn lemma_one_piece(s: Seq<char>, c: char)
    requires
        !s.contains(c),
    ensures
        cut(s, c) is None,
        pieces(s, c) == seq![s],
{
    s.index_of_first_ensures(c);
}

/// What stands before a first `c` is the first piece.
pub proof fn lemma_first_piece(head: Seq<char>, c: char, rest: Seq<char>)
    requires
        !head.contains(c),
    ensures
        pieces(head + seq![c] + rest, c) == seq![head] + pieces(rest, c),
{
    lemma_cut_at(head, c, rest);
}

/// Trimming makes no text longer.
pub proof fn lemma_without_leading_len(s: Seq<char>, set: Trim)
    ensures
        without_leading(s, set).len() <= s.len(),
    decreases s.len(),
{
    if s.len() > 0 && set.has(s[0]) {
        lemma_without_leading_len(s.skip(1), set);
    }
}

/// Trimming makes no text longer.
pub proof fn lemma_without_trailing_len(s: Seq<char>, set: Trim)
    ensures
        without_trailing(s, set).len() <= s.len(),
    decreases s.len(),
{
    if s.len() > 0 && set.has(s.last()) {
        lemma_without_trailing_len(s.drop_last(), set);
    }
}

/// Trimming takes away all of a text exactly where all of its characters are in the set.
pub proof fn lemma_trimmed_away(s: Seq<char>, set: Trim)
    ensures
        without_leading(s, set).len() == 0 <==> without_trailing(s, set).len() == 0,
        without_leading(s, set).len() == 0 <==> forall|i: int|
            0 <= i < s.len() ==> set.has(#[trigger] s[i]),
{
    lemma_leading_all(s, set);
    lemma_trailing_all(s, set);
}

proof fn lemma_leading_all(s: Seq<char>, set: Trim)
    ensures
        without_leading(s, set).len() == 0 <==> forall|i: int|
            0 <= i < s.len() ==> set.has(#[trigger] s[i]),
    decreases s.len(),
{
    if s.len() > 0 {
        let rest = s.skip(1);
        lemma_leading_all(rest, set);
        if forall|i: int| 0 <= i < s.len() ==> set.has(#[trigger] s[i]) {
            assert forall|i: int| 0 <= i < rest.len() implies set.has(#[trigger] rest[i]) by {
                assert(rest[i] == s[i + 1]);
            }
        }
        if set.has(s[0]) && (forall|i: int| 0 <= i < rest.len() ==> set.has(#[trigger] rest[i])) {
            assert forall|i: int| 0 <= i < s.len() implies set.has(#[trigger] s[i]) by {
                if i > 0 {
                    assert(s[i] == rest[i - 1]);
                }
            }
        }
    }
}

proof fn lemma_trailing_all(s: Seq<char>, set: Trim)
    ensures
        without_trailing(s, set).len() == 0 <==> forall|i: int|
            0 <= i < s.len() ==> set.has(#[trigger] s[i]),
    decreases s.len(),
{
    if s.len() > 0 {
        let rest = s.drop_last();
        lemma_trailing_all(rest, set);
        assert(s.last() == s[s.len() - 1]);
        if forall|i: int| 0 <= i < s.len() ==> set.has(#[trigger] s[i]) {
            assert forall|i: int| 0 <= i < rest.len() implies set.has(#[trigger] rest[i]) by {
                assert(rest[i] == s[i]);
            }
        }
        if set.has(s.last()) && (forall|i: int|
            0 <= i < rest.len() ==> set.has(#[trigger] rest[i])) {
            assert forall|i: int| 0 <= i < s.len() implies set.has(#[trigger] s[i]) by {
                if i < s.len() - 1 {
                    assert(s[i] == rest[i]);
                }
            }
        }
    }
}

/// Trimming the front of `a + b` trims the front of `a`, and goes on in `b` where nothing is left
/// of `a`.
pub proof fn lemma_leading_of_concat(a: Seq<char>, b: Seq<char>, set: Trim)
    ensures
        without_leading(a + b, set) == if without_leading(a, set).len() > 0 {
            without_leading(a, set) + b
        } else {
            without_leading(b, set)
        },
    decreases a.len(),
{
    if a.len() == 0 {
        assert(a + b =~= b);
    } else if set.has(a[0]) {
        assert((a + b)[0] == a[0]);
        assert((a + b).skip(1) =~= a.skip(1) + b);
        lemma_leading_of_concat(a.skip(1), b, set);
    } else {
        assert((a + b)[0] == a[0]);
    }
}

/// Trimming the end of `a + b` trims the end of `b`, and goes on in `a` where nothing is left of
/// `b`.
pub proof fn lemma_trailing_of_concat(a: Seq<char>, b: Seq<char>, set: Trim)
    ensures
        without_trailing(a + b, set) == if without_trailing(b, set).len() > 0 {
            a + without_trailing(b, set)
        } else {
            without_trailing(a, set)
        },
    decreases b.len(),
{
    if b.len() == 0 {
        assert(a + b =~= a);
    } else if set.has(b.last()) {
        assert((a + b).last() == b.last());
        assert((a + b).drop_last() =~= a + b.drop_last());
        lemma_trailing_of_concat(a, b.drop_last(), set);
    } else {
        assert((a + b).last() == b.last());
    }
}

/// What is left after trimming the end stood at the front.
pub proof fn lemma_trailing_is_prefix(s: Seq<char>, set: Trim)
    ensures
        without_trailing(s, set).len() <= s.len(),
        forall|i: int|
            0 <= i < without_trailing(s, set).len() ==> (#[trigger] without_trailing(s, set)[i])
                == s[i],
    decreases s.len(),
{
    if s.len() > 0 && set.has(s.last()) {
        lemma_trailing_is_prefix(s.drop_last(), set);
    }
}

/// What is left after trimming the front does not start with a character of the set, ends like the
/// text, and has no character that the text has not.
pub proof fn lemma_leading_is_suffix(s: Seq<char>, set: Trim)
    ensures
        ({
            let t = without_leading(s, set);
            &&& t.len() <= s.len()
            &&& t == s.skip(s.len() - t.len())
            &&& t.len() > 0 ==> !set.has(t[0]) && t.last() == s.last()
        }),
    decreases s.len(),
{
    if s.len() > 0 && set.has(s[0]) {
        lemma_leading_is_suffix(s.skip(1), set);
        let t = without_leading(s, set);
        assert(s.skip(1).skip(s.skip(1).len() - t.len()) =~= s.skip(s.len() - t.len()));
    } else {
        assert(s.skip(0) =~= s);
    }
}

/// No piece of a text is longer than the text.
pub proof fn lemma_pieces_len(s: Seq<char>, c: char)
    ensures
        forall|i: int| 0 <= i < pieces(s, c).len() ==> (#[trigger] pieces(s, c)[i]).len() <= s.len(),
    decreases s.len(),
{
    s.index_of_first_ensures(c);
    if let Some((head, rest)) = cut(s, c) {
        lemma_pieces_len(rest, c);
        assert forall|i: int| 0 <= i < pieces(s, c).len() implies (#[trigger] pieces(s, c)[i]).len()
            <= s.len() by {
            if i > 0 {
                assert(pieces(s, c)[i] == pieces(rest, c)[i - 1]);
            }
        }
    }
}

/// A text is cut at a character that the part before it lacks, and nothing else of it is lost; a
/// text that is not cut lacks the character.
pub proof fn law_cut_is_undone(s: Seq<char>, c: char)
    ensures
        match cut(s, c) {
            Some((head, rest)) => s == head + seq![c] + rest && !head.contains(c),
            None => !s.contains(c),
        },
        match cut_last(s, c) {
            Some((head, rest)) => s == head + seq![c] + rest && !rest.contains(c),
            None => !s.contains(c),
        },
{
    s.index_of_first_ensures(c);
    s.index_of_last_ensures(c);
    if let Some((head, rest)) = cut(s, c) {
        assert(s =~= head + seq![c] + rest);
    }
    if let Some((head, rest)) = cut_last(s, c) {
        assert(s =~= head + seq![c] + rest);
    }
}

/// Texts with `c` between them.
pub open spec fn joined(texts: Seq<Seq<char>>, c: char) -> Seq<char>
    decreases texts.len(),
{
    if texts.len() == 0 {
        seq![]
    } else if texts.len() == 1 {
        texts[0]
    } else {
        texts[0] + seq![c] + joined(texts.skip(1), c)
    }
}

/// Texts that are joined by a character that none of them has are taken apart again.
pub proof fn law_joined_texts_are_taken_apart(texts: Seq<Seq<char>>, c: char)
    requires
        texts.len() > 0,
        forall|i: int| 0 <= i < texts.len() ==> !(#[trigger] texts[i]).contains(c),
    ensures
        pieces(joined(texts, c), c) == texts,
    decreases texts.len(),
{
    if texts.len() == 1 {
        lemma_one_piece(texts[0], c);
        assert(seq![texts[0]] =~= texts);
    } else {
        let rest = texts.skip(1);
        assert forall|i: int| 0 <= i < rest.len() implies !(#[trigger] rest[i]).contains(c) by {
            assert(rest[i] == texts[i + 1]);
        }
        law_joined_texts_are_taken_apart(rest, c);
        lemma_first_piece(texts[0], c, joined(rest, c));
        assert(seq![texts[0]] + rest =~= texts);
    }
}

/// Trimming takes away what is in the set at both ends, and nothing else.
pub proof fn law_trimming_leaves_the_middle(
    before: Seq<char>,
    s: Seq<char>,
    after: Seq<char>,
    set: Trim,
)
    requires
        forall|i: int| 0 <= i < before.len() ==> set.has(#[trigger] before[i]),
        forall|i: int| 0 <= i < after.len() ==> set.has(#[trigger] after[i]),
        s.len() > 0 ==> !set.has(s[0]) && !set.has(s.last()),
    ensures
        without_trailing(without_leading(before + s + after, set), set) == s,
{
    lemma_trimmed_away(before, set);
    lemma_trimmed_away(after, set);
    assert(before + s + after =~= before + (s + after));
    lemma_leading_of_concat(before, s + after, set);
    lemma_leading_of_concat(s, after, set);
    lemma_trailing_of_concat(s, after, set);
    if s.len() == 0 {
        assert(without_leading(after, set) =~= s);
    }
}

/// White space at both ends is trimmed away, and nothing else.
pub proof fn law_white_space_is_trimmed(before: Seq<char>, s: Seq<char>, after: Seq<char>)
    requires
        forall|i: int| 0 <= i < before.len() ==> white_space(#[trigger] before[i]),
        forall|i: int| 0 <= i < after.len() ==> white_space(#[trigger] after[i]),
        s.len() > 0 ==> !white_space(s[0]) && !white_space(s.last()),
    ensures
        trimmed(before + s + after) == s,
{
    law_trimming_leaves_the_middle(before, s, after, Trim::WhiteSpace);
}

/// Double quotes at both ends are taken away, and nothing else.
pub proof fn law_quotes_are_trimmed(before: Seq<char>, s: Seq<char>, after: Seq<char>)
    requires
        forall|i: int| 0 <= i < before.len() ==> #[trigger] before[i] == '"',
        forall|i: int| 0 <= i < after.len() ==> #[trigger] after[i] == '"',
        s.len() > 0 ==> s[0] != '"' && s.last() != '"',
    ensures
        unquoted(before + s + after) == s,
{
    law_trimming_leaves_the_middle(before, s, after, Trim::DoubleQuote);
}

/// Two texts are the same up to case exactly where each character of one is that of the other, or
/// the one is an ASCII capital and the other its small letter.
pub proof fn law_case_is_that_of_ascii(a: Seq<char>, b: Seq<char>)
    ensures
        same_ignoring_case(a, b) <==> {
            &&& a.len() == b.len()
            &&& forall|i: int|
                0 <= i < a.len() ==> {
                    ||| #[trigger] a[i] == b[i]
                    ||| 'A' <= a[i] <= 'Z' && b[i] as int == a[i] as int + 32
                    ||| 'A' <= b[i] <= 'Z' && a[i] as int == b[i] as int + 32
                }
        },
        same_ignoring_case(a, a),
        same_ignoring_case(a, b) == same_ignoring_case(b, a),
{
    if same_ignoring_case(b, a) {
        assert forall|i: int| 0 <= i < a.len() implies ascii_lower(#[trigger] a[i]) == ascii_lower(
            b[i],
        ) by {
            assert(ascii_lower(b[i]) == ascii_lower(a[i]));
        }
    }
    if a.len() == b.len() && forall|i: int|
        0 <= i < a.len() ==> {
            ||| #[trigger] a[i] == b[i]
            ||| 'A' <= a[i] <= 'Z' && b[i] as int == a[i] as int + 32
            ||| 'A' <= b[i] <= 'Z' && a[i] as int == b[i] as int + 32
        } {
        assert forall|i: int| 0 <= i < a.len() implies ascii_lower(#[trigger] a[i]) == ascii_lower(
            b[i],
        ) by {}
    }
    if same_ignoring_case(a, b) {
        assert forall|i: int| 0 <= i < a.len() implies {
            ||| #[trigger] a[i] == b[i]
            ||| 'A' <= a[i] <= 'Z' && b[i] as int == a[i] as int + 32
            ||| 'A' <= b[i] <= 'Z' && a[i] as int == b[i] as int + 32
        } by {
            assert(ascii_lower(a[i]) == ascii_lower(b[i]));
        }
        assert forall|i: int| 0 <= i < b.len() implies ascii_lower(#[trigger] b[i]) == ascii_lower(
            a[i],
        ) by {
            assert(ascii_lower(a[i]) == ascii_lower(b[i]));
        }
    }
}

/// A text `n` times over.
pub open spec fn repeated(s: Seq<char>, n: nat) -> Seq<char>
    decreases n,
{
    if n == 0 {
        seq![]
    } else {
        s + repeated(s, (n - 1) as nat)
    }
}

/// A prefix is stripped as often as it stands at the front, and nothing else is.
pub proof fn law_prefixes_are_stripped(prefix: Seq<char>, n: nat, s: Seq<char>)
    requires
        prefix.len() > 0,
        !prefix.is_prefix_of(s),
    ensures
        without_prefixes(repeated(prefix, n) + s, prefix) == s,
    decreases n,
{
    if n == 0 {
        assert(repeated(prefix, 0) + s =~= s);
    } else {
        let rest = repeated(prefix, (n - 1) as nat) + s;
        assert(repeated(prefix, n) + s =~= prefix + rest);
        assert(prefix =~= (prefix + rest).subrange(0, prefix.len() as int));
        assert((prefix + rest).skip(prefix.len() as int) =~= rest);
        law_prefixes_are_stripped(prefix, (n - 1) as nat, s);
    }
}

} // verus!
