//! Bytes as base64 text, with the standard alphabet and padding.

use vstd::prelude::*;
use vstd::string::*;
use base64::Engine;

verus! {

/// The character for a number below 64.
pub open spec fn symbol(n: int) -> char {
    if n < 26 {
        (65 + n) as char
    } else if n < 52 {
        (97 + n - 26) as char
    } else if n < 62 {
        (48 + n - 52) as char
    } else if n == 62 {
        '+'
    } else {
        '/'
    }
}

/// The four characters for up to three bytes; `count` is how many there are, and those that are
/// missing are 0.
pub open spec fn group(count: nat, a: int, b: int, c: int) -> Seq<char> {
    seq![
        symbol(a / 4),
        symbol(a % 4 * 16 + b / 16),
        if count > 1 {
            symbol(b % 16 * 4 + c / 64)
        } else {
            '='
        },
        if count > 2 {
            symbol(c % 64)
        } else {
            '='
        },
    ]
}

/// The base64 text of `bytes`.
pub open spec fn encoded(bytes: Seq<u8>) -> Seq<char>
    decreases bytes.len(),
{
    if bytes.len() == 0 {
        seq![]
    } else if bytes.len() == 1 {
        group(1, bytes[0] as int, 0, 0)
    } else if bytes.len() == 2 {
        group(2, bytes[0] as int, bytes[1] as int, 0)
    } else {
        group(3, bytes[0] as int, bytes[1] as int, bytes[2] as int) + encoded(bytes.skip(3))
    }
}

/// The bytes whose base64 text is `text`, where there are such bytes.
pub open spec fn decoded(text: Seq<char>) -> Option<Seq<u8>> {
    if exists|bytes: Seq<u8>| #[trigger] encoded(bytes) == text {
        Some(choose|bytes: Seq<u8>| #[trigger] encoded(bytes) == text)
    } else {
        None
    }
}

/// `base64::DecodeError`.
#[verifier::external_type_specification]
#[verifier::external_body]
pub struct ExDecodeError(base64::DecodeError);

/// `base64::Engine::decode` of `STANDARD`: undoes the encoding. The padding has to be there and the
/// bits that are left over in the last character have to be 0, so that a text is accepted exactly
/// where it is the base64 text of some bytes.
#[verifier::external_body]
fn decode_standard(text: &str) -> (res: Result<Vec<u8>, base64::DecodeError>)
    ensures
        match res {
            Ok(bytes) => encoded(bytes@) == text@,
            Err(_) => forall|bytes: Seq<u8>| #[trigger] encoded(bytes) != text@,
        },
{
    base64::engine::general_purpose::STANDARD.decode(text)
}

/// The bytes whose base64 text is `text`, where there are such bytes.
pub fn decode(text: &str) -> (res: Option<Vec<u8>>)
    ensures
        match res {
            Some(bytes) => decoded(text@) == Some(bytes@),
            None => decoded(text@) is None,
        },
{
    match decode_standard(text) {
        Ok(bytes) => {
            proof {
                law_base64_is_undone(bytes@);
            }
            Some(bytes)
        },
        Err(_) => None,
    }
}

/// Decoding gives back the bytes that were encoded.
pub proof fn law_base64_is_undone(bytes: Seq<u8>)
    ensures
        decoded(encoded(bytes)) == Some(bytes),
{
    let text = encoded(bytes);
    let found = choose|other: Seq<u8>| #[trigger] encoded(other) == text;
    assert(encoded(found) == text);
    lemma_encoded_injective(found, bytes);
}

proof fn lemma_symbol(m: int, n: int)
    requires
        0 <= m < 64,
        0 <= n < 64,
    ensures
        symbol(m) == symbol(n) ==> m == n,
        symbol(m) != '=',
{
}

proof fn lemma_group(m: nat, a: u8, b: u8, c: u8, n: nat, x: u8, y: u8, z: u8)
    requires
        1 <= m <= 3,
        1 <= n <= 3,
        m < 2 ==> b == 0,
        m < 3 ==> c == 0,
        n < 2 ==> y == 0,
        n < 3 ==> z == 0,
        group(m, a as int, b as int, c as int) == group(n, x as int, y as int, z as int),
    ensures
        m == n,
        a == x,
        b == y,
        c == z,
{
    let g = group(m, a as int, b as int, c as int);
    let h = group(n, x as int, y as int, z as int);
    assert(g[0] == h[0] && g[1] == h[1] && g[2] == h[2] && g[3] == h[3]);
    lemma_symbol(a as int / 4, x as int / 4);
    lemma_symbol(a as int % 4 * 16 + b as int / 16, x as int % 4 * 16 + y as int / 16);
    lemma_symbol(b as int % 16 * 4 + c as int / 64, y as int % 16 * 4 + z as int / 64);
    lemma_symbol(y as int % 16 * 4 + z as int / 64, b as int % 16 * 4 + c as int / 64);
    lemma_symbol(c as int % 64, z as int % 64);
    lemma_symbol(z as int % 64, c as int % 64);
}

proof fn lemma_encoded_len(bytes: Seq<u8>)
    ensures
        bytes.len() > 0 ==> encoded(bytes).len() >= 4,
        bytes.len() > 3 ==> encoded(bytes).len() >= 8,
        encoded(bytes).len() == (bytes.len() + 2) / 3 * 4,
    decreases bytes.len(),
{
    if bytes.len() > 2 {
        lemma_encoded_len(bytes.skip(3));
    }
}

/// Three bytes, with 0 for those that `bytes` lacks.
spec fn padded(bytes: Seq<u8>, i: int) -> u8 {
    if i < bytes.len() {
        bytes[i]
    } else {
        0
    }
}

/// The text of no bytes but `bytes` is the text of `bytes`.
proof fn lemma_encoded_injective(a: Seq<u8>, b: Seq<u8>)
    requires
        encoded(a) == encoded(b),
    ensures
        a == b,
    decreases a.len(),
{
    lemma_encoded_len(a);
    lemma_encoded_len(b);
    if a.len() > 0 {
        let m = if a.len() < 3 {
            a.len()
        } else {
            3
        };
        let n = if b.len() < 3 {
            b.len()
        } else {
            3
        };
        let g = group(m, padded(a, 0) as int, padded(a, 1) as int, padded(a, 2) as int);
        let h = group(n, padded(b, 0) as int, padded(b, 1) as int, padded(b, 2) as int);
        assert(encoded(a).take(4) =~= g);
        assert(encoded(b).take(4) =~= h);
        lemma_group(
            m,
            padded(a, 0),
            padded(a, 1),
            padded(a, 2),
            n,
            padded(b, 0),
            padded(b, 1),
            padded(b, 2),
        );
        if m == 3 {
            assert(encoded(a).skip(4) =~= encoded(a.skip(3)));
            assert(encoded(b).skip(4) =~= encoded(b.skip(3)));
            lemma_encoded_injective(a.skip(3), b.skip(3));
            assert forall|i: int| 0 <= i < a.len() implies a[i] == b[i] by {
                if i >= 3 {
                    assert(a[i] == a.skip(3)[i - 3]);
                    assert(b[i] == b.skip(3)[i - 3]);
                } else {
                    assert(padded(a, 0) == a[0] && padded(a, 1) == a[1] && padded(a, 2) == a[2]);
                    assert(padded(b, 0) == b[0] && padded(b, 1) == b[1] && padded(b, 2) == b[2]);
                }
            }
            assert(a.len() == b.len()) by {
                assert(a.skip(3).len() == b.skip(3).len());
            }
        }
        assert(a =~= b);
    }
}

/// What is decoded from a text has that text; a text that is not decoded is that of no bytes.
pub proof fn law_base64_is_done_again(text: Seq<char>)
    ensures
        match decoded(text) {
            Some(bytes) => encoded(bytes) == text,
            None => forall|bytes: Seq<u8>| #[trigger] encoded(bytes) != text,
        },
{
}

} // verus!
