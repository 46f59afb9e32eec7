//! Text encodings used by the HTTP Basic authentication scheme: standard
//! Base64 (RFC 4648, with padding) and UTF-8.

use vstd::prelude::*;
use vstd::string::StringSliceAdditionalSpecFns;
use vstd::utf8::{encode_utf8, is_ascii_chars, valid_utf8};
use base64::Engine as _;

verus! {

/// What `STANDARD.decode_slice` of the `base64` crate produces from `input`
/// into an output buffer of `out_len` bytes: the decoded bytes, or `None`
/// where it reports an error (input that is not canonical padded Base64, or
/// an output buffer too small for the decoded bytes).
pub uninterp spec fn base64_decode_slice_result(input: Seq<u8>, out_len: nat) -> Option<Seq<u8>>;

/// What `STANDARD.encode` of the `base64` crate produces from `input`.
pub uninterp spec fn base64_encode_result(input: Seq<u8>) -> Seq<char>;

/// Trusted: `base64::engine::general_purpose::STANDARD.decode_slice`.
/// Claims that its result is the named result of the input and the buffer
/// length, that on success the decoded bytes are the first `n` bytes of the
/// buffer and that the bytes after them are untouched; the buffer keeps its
/// length. What the buffer holds after an error is left unsaid.
#[verifier::external_body]
pub(crate) fn base64_decode_slice(input: &[u8], output: &mut [u8]) -> (r: Result<usize, ()>)
    ensures
        final(output)@.len() == old(output)@.len(),
        match r {
            Ok(n) => {
                &&& n <= old(output)@.len()
                &&& base64_decode_slice_result(input@, old(output)@.len()) == Some(final(output)@.take(n as int))
                &&& final(output)@.skip(n as int) == old(output)@.skip(n as int)
            },
            Err(_) => base64_decode_slice_result(input@, old(output)@.len()) is None,
        },
{
    base64::engine::general_purpose::STANDARD.decode_slice(input, output).map_err(|_| ())
}

/// Trusted: `base64::engine::general_purpose::STANDARD.encode`. Claims that
/// its result is the named result of the input, that it is written in the
/// ASCII characters of the standard alphabet, and that `decode_slice` of the
/// same engine gives the input back into any buffer at least as long as the
/// documented estimate for that encoding, three bytes per started group of
/// three input bytes. It panics when the encoded length overflows `usize`,
/// which the precondition rules out.
#[verifier::external_body]
pub(crate) fn base64_encode(input: &[u8]) -> (r: String)
    requires
        input@.len() <= usize::MAX / 2,
    ensures
        r@ == base64_encode_result(input@),
        is_ascii_chars(r@),
        forall|out_len: nat|
            out_len >= 3 * ((input@.len() + 2) / 3) ==> #[trigger] base64_decode_slice_result(
                encode_utf8(r@),
                out_len,
            ) == Some(input@),
{
    base64::engine::general_purpose::STANDARD.encode(input)
}

/// Trusted: `core::str::from_utf8`. Claims what its documentation says: it
/// succeeds exactly on valid UTF-8, and the text then has exactly these bytes.
#[verifier::external_body]
pub(crate) fn str_from_utf8(bytes: &[u8]) -> (r: Option<&str>)
    ensures
        r is Some <==> valid_utf8(bytes@),
        r matches Some(s) ==> s.spec_bytes() == bytes@,
{
    core::str::from_utf8(bytes).ok()
}

} // verus!
