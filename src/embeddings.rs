//! The wire-format types of embedding responses in base64 form.

use vstd::prelude::*;

verus! {

/// An embeddings response whose vectors are base64 text.
#[derive(Debug, Clone)]
pub struct Base64EmbeddingsResponse {
    pub object: String,
    pub data: Vec<Base64EmbeddingData>,
    pub model: String,
    pub usage: EmbeddingsUsage,
}

/// One embedding vector as base64 text of its little-endian bytes.
#[derive(Debug, Clone)]
pub struct Base64EmbeddingData {
    pub object: String,
    pub embedding: String,
    pub index: usize,
}

#[derive(Debug, Clone, Default)]
pub struct EmbeddingsUsage {
    pub prompt_tokens: u32,
    pub total_tokens: u32,
}

/// The standard, padded base64 text of `bytes`.
pub uninterp spec fn base64_of(bytes: Seq<u8>) -> Seq<char>;

/// The length of padded base64 text for `n` bytes: four characters for each
/// group of three bytes or fewer.
pub open spec fn padded_len(n: nat) -> nat {
    4 * ((n + 2) / 3)
}

/// Relies on `base64::engine::general_purpose::STANDARD.encode`: the standard
/// alphabet with padding, so four characters per started group of three bytes.
/// It panics where that length does not fit in `usize`.
#[verifier::external_body]
fn encode_standard(bytes: &Vec<u8>) -> (r: String)
    requires
        padded_len(bytes@.len()) <= usize::MAX,
    ensures
        r@ == base64_of(bytes@),
        r@.len() == padded_len(bytes@.len()),
{
    base64::Engine::encode(&base64::engine::general_purpose::STANDARD, bytes)
}

impl Base64EmbeddingData {
    /// The base64 form of an embedding vector given by its little-endian bytes.
    pub fn from_le_bytes(object: String, bytes: &Vec<u8>, index: usize) -> (r: Self)
        requires
            padded_len(bytes@.len()) <= usize::MAX,
        ensures
            r.object == object,
            r.embedding@ == base64_of(bytes@),
            r.index == index,
    {
        Base64EmbeddingData { object, embedding: encode_standard(bytes), index }
    }
}

} // verus!
