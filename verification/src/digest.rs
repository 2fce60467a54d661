//! Content keys for prepared areas: the SHA-256 digest of a request's
//! canonical description, written as 64 lowercase hexadecimal digits.

use vstd::prelude::*;

use sha2::Digest;
use vstd::string::StringSliceAdditionalSpecFns;

verus! {

/// The SHA-256 digest of `bytes`.
pub uninterp spec fn sha256_of(bytes: Seq<u8>) -> Seq<u8>;

/// `sha2::Sha256::digest`: the digest of `bytes`, which is 32 bytes long
/// (the hash's output size in the crate's source).
#[verifier::external_body]
fn sha256_digest(bytes: &[u8]) -> (r: Vec<u8>)
    ensures
        r@ == sha256_of(bytes@),
        r.len() == 32,
{
    sha2::Sha256::digest(bytes).to_vec()
}

/// The lowercase hexadecimal digit of `n` (below 16).
pub open spec fn hex_digit(n: int) -> char {
    if n < 10 {
        (48 + n) as char
    } else {
        (87 + n) as char
    }
}

/// Bytes as hexadecimal text, two digits per byte, high nibble first.
pub open spec fn hex_text(d: Seq<u8>) -> Seq<char>
    decreases d.len(),
{
    if d.len() == 0 {
        Seq::empty()
    } else {
        hex_text(d.drop_last()) + seq![hex_digit((d.last() / 16) as int), hex_digit((d.last() % 16) as int)]
    }
}

/// A lowercase hexadecimal digit.
pub open spec fn is_lower_hex(c: char) -> bool {
    ('0' <= c && c <= '9') || ('a' <= c && c <= 'f')
}

/// A prepared-area cache key: 64 lowercase hexadecimal digits.
pub open spec fn is_cache_key(s: Seq<char>) -> bool {
    s.len() == 64 && forall|i: int| 0 <= i < s.len() ==> #[trigger] is_lower_hex(s[i])
}

fn hex_char(n: u8) -> (r: char)
    requires
        n < 16,
    ensures
        r == hex_digit(n as int),
        is_lower_hex(r),
{
    if n < 10 {
        ((48 + n) as char)
    } else {
        ((87 + n) as char)
    }
}

proof fn lemma_hex_text_shape(d: Seq<u8>)
    ensures
        hex_text(d).len() == 2 * d.len(),
        forall|i: int| 0 <= i < hex_text(d).len() ==> #[trigger] is_lower_hex(hex_text(d)[i]),
    decreases d.len(),
{
    if d.len() > 0 {
        lemma_hex_text_shape(d.drop_last());
        let hi = d.last() / 16;
        let lo = d.last() % 16;
        assert(is_lower_hex(hex_digit(hi as int)));
        assert(is_lower_hex(hex_digit(lo as int)));
        let prev = hex_text(d.drop_last());
        assert forall|i: int| 0 <= i < hex_text(d).len() implies #[trigger] is_lower_hex(
            hex_text(d)[i],
        ) by {
            if i < prev.len() {
                assert(hex_text(d)[i] == prev[i]);
            }
        }
    }
}

/// The hexadecimal text of a 32-byte digest is a cache key: every key the
/// server derives is one that the cache-key check accepts.
pub proof fn lemma_digest_hex_is_cache_key(d: Seq<u8>)
    requires
        d.len() == 32,
    ensures
        is_cache_key(hex_text(d)),
{
    lemma_hex_text_shape(d);
}

/// The SHA-256 digest of `bytes` in lowercase hexadecimal.
pub fn sha256_hex(bytes: &[u8]) -> (r: String)
    ensures
        r@ == hex_text(sha256_of(bytes@)),
        is_cache_key(r@),
{
    let hash = sha256_digest(bytes);
    let mut r = String::new();
    let mut i: usize = 0;
    while i < hash.len()
        invariant
            i <= hash.len(),
            r@ == hex_text(hash@.take(i as int)),
        decreases hash.len() - i,
    {
        let b = hash[i];
        crate::text::push_char(&mut r, hex_char(b / 16));
        crate::text::push_char(&mut r, hex_char(b % 16));
        assert(hash@.take(i + 1).drop_last() =~= hash@.take(i as int));
        i = i + 1;
        assert(r@ =~= hex_text(hash@.take(i as int)));
    }
    assert(hash@.take(hash.len() as int) =~= hash@);
    proof {
        lemma_digest_hex_is_cache_key(hash@);
    }
    r
}

/// The cache key of a prepared area: the digest of the canonical JSON text
/// describing the request.
pub fn cache_key_for_payload(payload: &str) -> (r: String)
    ensures
        r@ == hex_text(sha256_of(payload.spec_bytes())),
        is_cache_key(r@),
{
    sha256_hex(payload.as_bytes())
}

} // verus!
