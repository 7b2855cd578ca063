//! Digests and encodings computed by outside crates.
use vstd::prelude::*;
use base64::Engine;
use sha2::Digest;

verus! {

/// What `sha2::Sha256` yields for the input bytes: a function of the input alone.
pub uninterp spec fn sha256(data: Seq<u8>) -> Seq<u8>;

/// What the standard base64 engine (`base64::engine::general_purpose::STANDARD`)
/// encodes the input bytes to: a function of the input alone.
pub uninterp spec fn base64_standard(data: Seq<u8>) -> Seq<char>;

/// Whether the standard base64 engine accepts the text for decoding.
pub uninterp spec fn base64_standard_decodes(text: Seq<char>) -> bool;

/// `sha2::Sha256` (`new`, `update`, `finalize`): the digest is named `sha256`
/// of the input, and it is 32 bytes long, as SHA-256 digests are.
#[verifier::external_body]
pub(crate) fn sha256_digest(data: &[u8]) -> (r: Vec<u8>)
    ensures
        r@ == sha256(data@),
        r@.len() == 32,
{
    let mut hasher = sha2::Sha256::new();
    hasher.update(data);
    hasher.finalize().to_vec()
}

/// `Engine::encode` of `STANDARD`: the text is named `base64_standard` of the
/// input, and the same engine decodes it again without error. The crate panics
/// only when the encoded length overflows `usize`, which `requires` rules out.
#[verifier::external_body]
pub(crate) fn base64_encode(data: &[u8]) -> (r: String)
    requires
        data@.len() <= usize::MAX / 2,
    ensures
        r@ == base64_standard(data@),
        base64_standard_decodes(r@),
{
    base64::engine::general_purpose::STANDARD.encode(data)
}

/// `Engine::decode` of `STANDARD`: whether it returned `Ok` for the text, named
/// `base64_standard_decodes`; the decoded bytes are not handed out.
#[verifier::external_body]
pub(crate) fn base64_decodes(text: &str) -> (r: bool)
    ensures
        r == base64_standard_decodes(text@),
{
    base64::engine::general_purpose::STANDARD.decode(text).is_ok()
}

} // verus!
