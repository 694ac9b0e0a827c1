//! Content digests: SHA-256 from the `sha2` crate, written as lowercase
//! hexadecimal by the `hex` crate.
use vstd::prelude::*;

verus! {

/// The SHA-256 digest of `data`.
pub uninterp spec fn spec_sha256(data: Seq<u8>) -> Seq<u8>;

/// The lowercase hexadecimal digit for `n`, which is below sixteen.
pub open spec fn hex_digit(n: u8) -> char {
    if n < 10 {
        ((n + 48) as u8) as char
    } else {
        ((n + 87) as u8) as char
    }
}

/// Two lowercase hexadecimal digits per byte, high nibble first.
pub open spec fn hex_of(b: Seq<u8>) -> Seq<char>
    decreases b.len(),
{
    if b.len() == 0 {
        Seq::empty()
    } else {
        hex_of(b.drop_last()) + seq![hex_digit(b.last() / 16), hex_digit(b.last() % 16)]
    }
}

/// Whether `c` is a lowercase hexadecimal digit.
pub open spec fn is_hex_digit(c: char) -> bool {
    ('0' <= c <= '9') || ('a' <= c <= 'f')
}

/// Every character of `hex_of(b)` is a lowercase hexadecimal digit.
pub proof fn lemma_hex_digits(b: Seq<u8>)
    ensures
        forall|i: int| 0 <= i < hex_of(b).len() ==> is_hex_digit(#[trigger] hex_of(b)[i]),
    decreases b.len(),
{
    if b.len() > 0 {
        lemma_hex_digits(b.drop_last());
        let hi = b.last() / 16;
        let lo = b.last() % 16;
        assert(is_hex_digit(hex_digit(hi)));
        assert(is_hex_digit(hex_digit(lo)));
        let prev = hex_of(b.drop_last());
        assert forall|i: int| 0 <= i < hex_of(b).len() implies is_hex_digit(#[trigger] hex_of(b)[i]) by {
            if i < prev.len() {
                assert(hex_of(b)[i] == prev[i]);
            }
        }
    }
}

/// `sha2::Sha256::digest(data)`: the 32-byte SHA-256 digest of `data`.
#[verifier::external_body]
pub(crate) fn sha256(data: &[u8]) -> (r: Vec<u8>)
    ensures
        r@ == spec_sha256(data@),
        r@.len() == 32,
{
    <sha2::Sha256 as sha2::Digest>::digest(data).to_vec()
}

/// `hex::encode(data)`: each byte as two lowercase hexadecimal digits.
#[verifier::external_body]
pub(crate) fn hex_encode(data: &[u8]) -> (r: String)
    ensures
        r@ == hex_of(data@),
{
    hex::encode(data)
}

/// A SHA-256 computation in progress, fed piece by piece: it holds a
/// `sha2::Sha256` hasher, whose state is seen only through the bytes fed
/// to it (`streamed_bytes`).
#[verifier::external_body]
pub struct Sha256Stream {
    inner: sha2::Sha256,
}

/// The bytes fed so far to a running SHA-256 computation.
pub uninterp spec fn streamed_bytes(s: Sha256Stream) -> Seq<u8>;

impl Sha256Stream {
    /// `sha2::Sha256::new()`: a computation that has been fed nothing.
    #[verifier::external_body]
    pub(crate) fn new() -> (r: Sha256Stream)
        ensures
            streamed_bytes(r) == Seq::<u8>::empty(),
    {
        Sha256Stream { inner: <sha2::Sha256 as sha2::Digest>::new() }
    }

    /// `Digest::update`: feeds `data` after everything fed before.
    #[verifier::external_body]
    pub(crate) fn update(&mut self, data: &[u8])
        ensures
            streamed_bytes(*final(self)) == streamed_bytes(*old(self)) + data@,
    {
        sha2::Digest::update(&mut self.inner, data)
    }

    /// `Digest::finalize`: the 32-byte SHA-256 digest of everything fed.
    #[verifier::external_body]
    pub(crate) fn finalize(self) -> (r: Vec<u8>)
        ensures
            r@ == spec_sha256(streamed_bytes(self)),
            r@.len() == 32,
    {
        sha2::Digest::finalize(self.inner).to_vec()
    }
}

/// The SHA-256 digest of `data` in lowercase hexadecimal.
pub fn sha256_hex(data: &[u8]) -> (r: String)
    ensures
        r@ == hex_of(spec_sha256(data@)),
{
    let digest = sha256(data);
    hex_encode(digest.as_slice())
}

/// The digest under which a secret token is stored: the SHA-256 of its
/// UTF-8 bytes, in hexadecimal. Tokens themselves are never stored.
pub fn token_hash(token: &str) -> (r: String)
    ensures
        r@ == hex_of(spec_sha256(vstd::utf8::encode_utf8(token@))),
{
    sha256_hex(token.as_bytes())
}

} // verus!
