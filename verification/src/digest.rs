//! Content digests of the form `sha256:<hex>`.

use vstd::prelude::*;
use vstd::string::*;
use sha2::Digest;
use crate::text::{ascii_text, bytes_as_chars};

verus! {

/// The most bytes that can be hashed: their length in bits has to fit in 64 bits.
pub const MAX_BODY: u64 = 0x1fff_ffff_ffff_ffff;

/// The SHA-256 hash of `bytes`.
pub uninterp spec fn sha256_hash(bytes: Seq<u8>) -> Seq<u8>;

/// `sha2::Sha256::digest`: the hash, 32 bytes that are a function of `bytes`.
#[verifier::external_body]
fn sha256(bytes: &[u8]) -> (res: Vec<u8>)
    requires
        bytes@.len() <= MAX_BODY,
    ensures
        res@ == sha256_hash(bytes@),
        res@.len() == 32,
{
    sha2::Sha256::digest(bytes).to_vec()
}

/// The number of the lower-case hexadecimal digit for a number below sixteen.
pub open spec fn hex_digit(n: u8) -> u8 {
    if n < 10 {
        (48 + n) as u8
    } else {
        (87 + n) as u8
    }
}

/// Two hexadecimal digits for each byte, the high one first.
pub open spec fn hex(bytes: Seq<u8>) -> Seq<char> {
    Seq::new(
        2 * bytes.len(),
        |i: int|
            hex_digit(
                if i % 2 == 0 {
                    bytes[i / 2] / 16
                } else {
                    bytes[i / 2] % 16
                },
            ) as char,
    )
}

/// A digest made of a hash.
pub open spec fn digest_of_hash(hash: Seq<u8>) -> Seq<char> {
    "sha256:"@ + hex(hash)
}

/// The digest of a manifest that is `body`.
pub open spec fn body_digest(body: Seq<u8>) -> Seq<char> {
    digest_of_hash(sha256_hash(body))
}

fn to_hex_digit(n: u8) -> (res: u8)
    requires
        n < 16,
    ensures
        res == hex_digit(n),
        res < 128,
{
    if n < 10 {
        48 + n
    } else {
        87 + n
    }
}

/// A digest made of a hash.
pub fn hash_to_digest(hash: &[u8]) -> (res: String)
    ensures
        res@ == digest_of_hash(hash@),
{
    let mut digits: Vec<u8> = Vec::new();
    let mut i: usize = 0;
    while i < hash.len()
        invariant
            i <= hash@.len(),
            digits@.len() == 2 * i,
            forall|j: int| 0 <= j < 2 * i ==> #[trigger] digits@[j] < 128,
            forall|j: int|
                0 <= j < 2 * i ==> #[trigger] digits@[j] == hex_digit(
                    if j % 2 == 0 {
                        hash@[j / 2] / 16
                    } else {
                        hash@[j / 2] % 16
                    },
                ),
        decreases hash.len() - i,
    {
        digits.push(to_hex_digit(hash[i] / 16));
        digits.push(to_hex_digit(hash[i] % 16));
        i += 1;
    }
    assert(bytes_as_chars(digits@) =~= hex(hash@));
    "sha256:".to_owned().concat(ascii_text(&digits).as_str())
}

/// The digest of a manifest that is `body`.
pub fn digest_body(body: &[u8]) -> (res: String)
    requires
        body@.len() <= MAX_BODY,
    ensures
        res@ == body_digest(body@),
        res@.len() == 71,
{
    proof {
        reveal_strlit("sha256:");
    }
    let hash: Vec<u8> = sha256(body);
    hash_to_digest(hash.as_slice())
}

/// Digests of different hashes differ.
pub proof fn law_digests_tell_hashes_apart(a: Seq<u8>, b: Seq<u8>)
    requires
        digest_of_hash(a) == digest_of_hash(b),
    ensures
        a == b,
{
    reveal_strlit("sha256:");
    let x = digest_of_hash(a);
    let y = digest_of_hash(b);
    assert(x.len() == 7 + 2 * a.len());
    assert(y.len() == 7 + 2 * b.len());
    assert forall|i: int| 0 <= i < a.len() implies a[i] == b[i] by {
        assert(x[7 + 2 * i] == hex(a)[2 * i]);
        assert(y[7 + 2 * i] == hex(b)[2 * i]);
        assert(x[7 + (2 * i + 1)] == hex(a)[2 * i + 1]);
        assert(y[7 + (2 * i + 1)] == hex(b)[2 * i + 1]);
        assert((2 * i) / 2 == i && (2 * i + 1) / 2 == i);
        assert((2 * i) % 2 == 0 && (2 * i + 1) % 2 == 1);
        lemma_hex_digit_injective(a[i] / 16, b[i] / 16);
        lemma_hex_digit_injective(a[i] % 16, b[i] % 16);
    }
    assert(a =~= b);
}

proof fn lemma_hex_digit_injective(m: u8, n: u8)
    requires
        m < 16,
        n < 16,
    ensures
        hex_digit(m) as char == hex_digit(n) as char ==> m == n,
{
}

/// `c` is the lower-case hexadecimal digit for `n`.
pub open spec fn hex_digit_of(c: char, n: int) -> bool {
    ||| '0' <= c <= '9' && n == c as int - '0' as int
    ||| 'a' <= c <= 'f' && n == c as int - 'a' as int + 10
}

/// The digest of a body is `sha256:` and then, for each byte of the body's hash in order, the two
/// lower-case hexadecimal digits whose number it is, the high one first, and nothing else.
pub proof fn law_body_digest_is_its_hash_in_hex(body: Seq<u8>)
    ensures
        ({
            let hash = sha256_hash(body);
            let digest = body_digest(body);
            &&& digest == digest_of_hash(hash)
            &&& digest.len() == 7 + 2 * hash.len()
            &&& digest.take(7) == "sha256:"@
            &&& forall|i: int|
                0 <= i < hash.len() ==> {
                    &&& hex_digit_of(digest[7 + 2 * i], (#[trigger] hash[i]) as int / 16)
                    &&& hex_digit_of(digest[8 + 2 * i], hash[i] as int % 16)
                }
        }),
{
    law_digest_is_the_hash_in_hex(sha256_hash(body));
}

/// The digest of a hash is `sha256:` and then two lower-case hexadecimal digits for each byte, the
/// high one first, and nothing else.
pub proof fn law_digest_is_the_hash_in_hex(hash: Seq<u8>)
    ensures
        ({
            let digest = digest_of_hash(hash);
            &&& digest.len() == 7 + 2 * hash.len()
            &&& digest.take(7) == "sha256:"@
            &&& forall|i: int|
                0 <= i < hash.len() ==> {
                    &&& hex_digit_of(digest[7 + 2 * i], (#[trigger] hash[i]) as int / 16)
                    &&& hex_digit_of(digest[8 + 2 * i], hash[i] as int % 16)
                }
        }),
{
    reveal_strlit("sha256:");
    let digest = digest_of_hash(hash);
    assert(digest.take(7) =~= "sha256:"@);
    assert forall|i: int| 0 <= i < hash.len() implies {
        &&& hex_digit_of(digest[7 + 2 * i], (#[trigger] hash[i]) as int / 16)
        &&& hex_digit_of(digest[8 + 2 * i], hash[i] as int % 16)
    } by {
        assert(digest[7 + 2 * i] == hex(hash)[2 * i]);
        assert(digest[8 + 2 * i] == hex(hash)[2 * i + 1]);
        assert((2 * i) / 2 == i && (2 * i + 1) / 2 == i);
        assert((2 * i) % 2 == 0 && (2 * i + 1) % 2 == 1);
        lemma_hex_digit(hash[i] / 16);
        lemma_hex_digit(hash[i] % 16);
    }
}

proof fn lemma_hex_digit(n: u8)
    requires
        n < 16,
    ensures
        hex_digit_of(hex_digit(n) as char, n as int),
{
}

} // verus!
