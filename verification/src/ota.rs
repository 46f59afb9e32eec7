//! Over-the-air update from the build host: credentials, the request, and
//! how its outcome is judged.

use vstd::prelude::*;
use vstd::string::{StringExecFns, StringSliceAdditionalSpecFns};
use vstd::utf8::{
    encode_utf8, encode_utf8_valid_utf8, is_ascii_chars, is_ascii_chars_concat, is_ascii_chars_encode_utf8,
};
use crate::auth::{basic_credentials, has_basic_prefix, split_credentials};
use crate::codec::{base64_decode_slice_result, base64_encode, base64_encode_result};
use crate::text::{contains, contains_spec, occurs_at, trim, trim_spec};

verus! {

/// The credentials used for the upload: the content of the credentials file
/// (`user:pass`), or `admin:admin` when it could not be read, trimmed of
/// surrounding whitespace.
pub fn ota_credentials(file: Option<String>) -> (r: String)
    ensures
        r@ == trim_spec(
            match file {
                Some(f) => f@,
                None => "admin:admin"@,
            },
        ),
{
    match file {
        Some(f) => trim(f.as_str()),
        None => trim("admin:admin"),
    }
}

/// The `Authorization` header value for the credentials: `Basic ` and the
/// standard Base64 of their UTF-8 bytes. The device reads back from it
/// exactly the credentials split at their first colon, as long as they fit
/// its 128-byte decoding buffer.
pub fn ota_auth_header(credentials: &str) -> (r: String)
    requires
        credentials.spec_bytes().len() <= usize::MAX / 2,
    ensures
        r@ == "Basic "@ + base64_encode_result(credentials.spec_bytes()),
        credentials.spec_bytes().len() <= 126 ==> basic_credentials(Some(encode_utf8(r@)))
            == split_credentials(credentials.spec_bytes()),
{
    let encoded = base64_encode(credentials.as_bytes());
    let scheme = "Basic ";
    proof {
        reveal_strlit("Basic ");
    }
    let mut r = String::from_str(scheme);
    r.append(encoded.as_str());
    proof {
        let d = credentials.spec_bytes();
        let enc = encoded@;
        assert(is_ascii_chars(scheme@));
        is_ascii_chars_concat(r@, scheme@, enc);
        is_ascii_chars_encode_utf8(r@);
        is_ascii_chars_encode_utf8(enc);
        let raw = encode_utf8(r@);
        assert(has_basic_prefix(raw));
        assert(raw.skip(6) =~= encode_utf8(enc));
        encode_utf8_valid_utf8(credentials@);
        if d.len() <= 126 {
            assert(128 >= 3 * ((d.len() + 2) / 3));
            assert(base64_decode_slice_result(encode_utf8(enc), 128) == Some(d));
        }
    }
    r
}

/// The update endpoint of the device at `ip`: `http://<ip>/api/update`.
pub fn ota_url(ip: &str) -> (r: String)
    ensures
        r@ == "http://"@ + ip@ + "/api/update"@,
{
    let mut r = String::from_str("http://");
    r.append(ip);
    r.append("/api/update");
    r
}

/// What the upload request returned.
pub enum OtaReply {
    /// The device answered with this HTTP status.
    Response(u16),
    /// The connection could not be made or broke: whether the connection
    /// failed, and the transport error's message if it has one.
    Transport {
        /// The error is of kind "connection failed".
        connection_failed: bool,
        /// The error's message.
        message: Option<String>,
    },
    /// Any other request error.
    Failed,
}

/// How an upload ended.
#[derive(Debug, Clone, Copy, PartialEq, Eq, Structural)]
pub enum OtaOutcome {
    /// The device accepted the firmware (HTTP 200).
    Uploaded,
    /// The device reset the connection after accepting the firmware, which
    /// it does when it reboots before the answer is flushed.
    DeviceReset,
    /// The device answered with another status.
    Rejected(u16),
    /// The request failed.
    Failed,
}

/// The transport error is the device's reset after accepting the upload:
/// a failed connection, or a message that mentions a reset connection.
pub open spec fn reset_by_device(connection_failed: bool, message: Option<Seq<char>>) -> bool {
    connection_failed || (message matches Some(m) && (contains_spec(m, "Connection reset"@)
        || contains_spec(m, "os error 104"@)))
}

/// Judges the outcome of an upload request.
pub fn ota_outcome(reply: &OtaReply) -> (r: OtaOutcome)
    ensures
        match reply {
            OtaReply::Response(status) => r == if *status == 200 {
                OtaOutcome::Uploaded
            } else {
                OtaOutcome::Rejected(*status)
            },
            OtaReply::Transport { connection_failed, message } => r == if reset_by_device(
                *connection_failed,
                match message {
                    Some(m) => Some(m@),
                    None => None,
                },
            ) {
                OtaOutcome::DeviceReset
            } else {
                OtaOutcome::Failed
            },
            OtaReply::Failed => r == OtaOutcome::Failed,
        },
{
    match reply {
        OtaReply::Response(status) => if *status == 200 {
            OtaOutcome::Uploaded
        } else {
            OtaOutcome::Rejected(*status)
        },
        OtaReply::Transport { connection_failed, message } => {
            let reset = if *connection_failed {
                true
            } else {
                match message {
                    Some(m) => contains(m.as_str(), "Connection reset") || contains(m.as_str(), "os error 104"),
                    None => false,
                }
            };
            if reset {
                OtaOutcome::DeviceReset
            } else {
                OtaOutcome::Failed
            }
        },
        OtaReply::Failed => OtaOutcome::Failed,
    }
}

/// A transport error counts as the device's reset when its connection
/// failed, or when its message mentions a reset connection or Linux's
/// `os error 104`, each on its own and whatever else the message says; a
/// message that mentions neither, from a connection that did not fail, is
/// a failure.
pub proof fn lemma_reset_recognised(connection_failed: bool, message: Seq<char>, before: Seq<char>, after: Seq<char>)
    ensures
        connection_failed ==> reset_by_device(connection_failed, Some(message)),
        connection_failed ==> reset_by_device(connection_failed, None),
        reset_by_device(false, Some(before + "Connection reset"@ + after)),
        reset_by_device(false, Some(before + "os error 104"@ + after)),
        !reset_by_device(false, None),
        !(exists|i: int| 0 <= i && i + "Connection reset"@.len() <= message.len() && #[trigger] message.subrange(
            i,
            i + "Connection reset"@.len(),
        ) == "Connection reset"@) && !(exists|i: int| 0 <= i && i + "os error 104"@.len() <= message.len()
            && #[trigger] message.subrange(i, i + "os error 104"@.len()) == "os error 104"@) ==> !reset_by_device(
            false,
            Some(message),
        ),
{
    let a = before + "Connection reset"@ + after;
    assert(a.subrange(before.len() as int, (before.len() + "Connection reset"@.len()) as int) =~= "Connection reset"@);
    assert(occurs_at(a, "Connection reset"@, before.len() as int));
    let b = before + "os error 104"@ + after;
    assert(b.subrange(before.len() as int, (before.len() + "os error 104"@.len()) as int) =~= "os error 104"@);
    assert(occurs_at(b, "os error 104"@, before.len() as int));
}

} // verus!
