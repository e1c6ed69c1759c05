use vstd::prelude::*;
use base64::Engine;

verus! {

/// Why a text is not the standard base64 form of any bytes.
#[derive(Debug, Clone, Copy, PartialEq, Eq, Structural)]
pub enum Base64Fault {
    /// A symbol outside the alphabet, or padding before the end: where, and which byte.
    InvalidByte(usize, u8),
    /// The number of symbols cannot be right for any input.
    InvalidLength(usize),
    /// The last symbol carries bits that no encoder leaves set: where, and which byte.
    InvalidLastSymbol(usize, u8),
    /// The padding is missing or not the canonical one.
    InvalidPadding,
}

/// What the standard base64 decoder makes of a text: the bytes, or the fault it reports.
pub uninterp spec fn base64_decoded(text: Seq<char>) -> Result<Seq<u8>, Base64Fault>;

/// The standard, padded base64 text of a sequence of bytes.
pub uninterp spec fn base64_encoded(bytes: Seq<u8>) -> Seq<char>;

/// Decodes a text with `base64::Engine::decode` of the crate's standard engine
/// (standard alphabet, canonical padding required). Nothing is proved of the
/// decoder: the contract only gives its answer the name `base64_decoded`,
/// with the decoder's four kinds of error kept apart.
#[verifier::external_body]
pub(crate) fn base64_decode(text: &str) -> (result: Result<Vec<u8>, Base64Fault>)
    ensures
        match result {
            Ok(bytes) => base64_decoded(text@) == Ok::<Seq<u8>, Base64Fault>(bytes@),
            Err(fault) => base64_decoded(text@) == Err::<Seq<u8>, Base64Fault>(fault),
        },
{
    match base64::prelude::BASE64_STANDARD.decode(text) {
        Ok(bytes) => Ok(bytes),
        Err(base64::DecodeError::InvalidByte(at, byte)) => Err(Base64Fault::InvalidByte(at, byte)),
        Err(base64::DecodeError::InvalidLength(len)) => Err(Base64Fault::InvalidLength(len)),
        Err(base64::DecodeError::InvalidLastSymbol(at, byte)) => Err(
            Base64Fault::InvalidLastSymbol(at, byte),
        ),
        Err(base64::DecodeError::InvalidPadding) => Err(Base64Fault::InvalidPadding),
    }
}

/// Encodes bytes with `base64::Engine::encode` of the crate's standard engine.
/// Nothing is proved of the encoder: the contract only gives its answer the
/// name `base64_encoded`. The encoder stops the program when the length of the
/// text would not fit `usize`, so such inputs are left out.
#[verifier::external_body]
pub(crate) fn base64_encode(bytes: &[u8]) -> (text: String)
    requires
        bytes@.len() / 3 * 4 + 4 <= usize::MAX,
    ensures
        text@ == base64_encoded(bytes@),
{
    base64::prelude::BASE64_STANDARD.encode(bytes)
}

} // verus!
