//! `POST /api/update`: admitting a firmware upload and cutting it into
//! erase blocks for the update partition.

use vstd::prelude::*;
use vstd::string::StringSliceAdditionalSpecFns;
use crate::auth::{AdminUser, NotAdmin};
use crate::config::ACTIVE_SIZE;

verus! {

/// Size of a flash erase block, the unit in which firmware is written.
pub const ERASE_SIZE: usize = 4096;

/// Handles `POST /api/update`.
pub struct FirmwareUpdateService;

/// `POST` in ASCII.
pub open spec fn post_method() -> Seq<u8> {
    seq![0x50u8, 0x4f, 0x53, 0x54]
}

impl FirmwareUpdateService {
    /// The method test made before anything is read: a method other than
    /// `POST` is refused with 405 `Method Not Allowed`.
    pub fn check_method(method: &str) -> (r: Result<(), (u16, &'static str)>)
        ensures
            method.spec_bytes() == post_method() <==> r is Ok,
            r matches Err(e) ==> e.0 == 405 && e.1@ == "Method Not Allowed"@,
    {
        let m = method.as_bytes();
        if m.len() == 4 && m[0] == 0x50 && m[1] == 0x4f && m[2] == 0x53 && m[3] == 0x54 {
            assert(m@ =~= post_method());
            Ok(())
        } else {
            assert(m@ != post_method());
            Err((405, "Method Not Allowed"))
        }
    }

    /// Whether an upload may proceed: a method other than `POST` is refused
    /// with 405 `Method Not Allowed`, a request without admin credentials
    /// with 403 `Forbidden`.
    pub fn authorize(method: &str, admin: &Result<AdminUser, NotAdmin>) -> (r: Result<(), (u16, &'static str)>)
        ensures
            method.spec_bytes() != post_method() ==> (r matches Err(e) && e.0 == 405 && e.1@ == "Method Not Allowed"@),
            method.spec_bytes() == post_method() && admin is Err ==> (r matches Err(e) && e.0 == 403 && e.1@ == "Forbidden"@),
            method.spec_bytes() == post_method() && admin is Ok ==> r is Ok,
    {
        let m = method.as_bytes();
        let is_post = m.len() == 4 && m[0] == 0x50 && m[1] == 0x4f && m[2] == 0x53 && m[3] == 0x54;
        if !is_post {
            assert(m@ != post_method());
            return Err((405, "Method Not Allowed"));
        }
        assert(m@ =~= post_method());
        match admin {
            Ok(_) => Ok(()),
            Err(_) => Err((403, "Forbidden")),
        }
    }

    /// The answer once the upload has been written: 200 `{"ok":true}`, or
    /// 500 with the failure's message.
    pub fn finish(result: Result<(), &'static str>) -> (r: (u16, &'static str))
        ensures
            result is Ok ==> r.0 == 200 && r.1@ == "{\"ok\":true}"@,
            result matches Err(m) ==> r.0 == 500 && r.1 == m,
    {
        match result {
            Ok(()) => (200, "{\"ok\":true}"),
            Err(m) => (500, m),
        }
    }
}

/// Checks the announced length of an upload: it must be non-empty and fit
/// the active partition.
pub fn check_firmware_size(content_length: usize) -> (r: Result<(), &'static str>)
    ensures
        r is Ok <==> 0 < content_length <= ACTIVE_SIZE,
        r matches Err(m) ==> m@ == "Invalid firmware size"@,
{
    if content_length == 0 || content_length > ACTIVE_SIZE as usize {
        Err("Invalid firmware size")
    } else {
        Ok(())
    }
}

/// The erase blocks of an upload of `len` bytes, in order: block `k` starts
/// at offset `4096 * k` and takes `min(4096, len - 4096 * k)` bytes.
pub open spec fn firmware_chunk(len: int, k: int) -> (usize, usize) {
    let rest = len - 4096 * k;
    ((4096 * k) as usize, (if rest < 4096 { rest } else { 4096 }) as usize)
}

/// The erase blocks an upload of `content_length` bytes is written in: each
/// block of the request body is written, padded, at its offset.
pub fn firmware_chunks(content_length: usize) -> (r: Vec<(usize, usize)>)
    requires
        0 < content_length <= ACTIVE_SIZE,
    ensures
        r@.len() == (content_length + 4095) / 4096,
        forall|k: int| 0 <= k < r@.len() ==> #[trigger] r@[k] == firmware_chunk(content_length as int, k),
{
    let mut chunks: Vec<(usize, usize)> = Vec::new();
    let mut offset: usize = 0;
    let mut remaining = content_length;
    while remaining > 0
        invariant
            0 < content_length <= ACTIVE_SIZE,
            offset == 4096 * chunks@.len(),
            remaining + offset == content_length || (remaining == 0 && offset >= content_length),
            remaining > 0 ==> remaining + offset == content_length,
            remaining == 0 ==> offset < content_length + 4096 && offset >= content_length,
            forall|k: int| 0 <= k < chunks@.len() ==> #[trigger] chunks@[k] == firmware_chunk(content_length as int, k),
        decreases remaining,
    {
        let chunk_size = if remaining < ERASE_SIZE { remaining } else { ERASE_SIZE };
        chunks.push((offset, chunk_size));
        offset = offset + ERASE_SIZE;
        remaining = remaining - chunk_size;
    }
    assert(chunks@.len() == (content_length + 4095) / 4096) by (nonlinear_arith)
        requires
            offset == 4096 * chunks@.len(),
            offset < content_length + 4096,
            offset >= content_length,
            content_length > 0,
    ;
    chunks
}

/// The erase blocks of an accepted upload cover it exactly: consecutive,
/// each inside the upload, all full but the last, which ends at `len`.
pub proof fn lemma_chunks_tile_upload(len: int, k: int)
    requires
        0 < len <= ACTIVE_SIZE,
        0 <= k < (len + 4095) / 4096,
    ensures
        firmware_chunk(len, k).0 == 4096 * k,
        0 < firmware_chunk(len, k).1 <= 4096,
        firmware_chunk(len, k).0 + firmware_chunk(len, k).1 <= len,
        k + 1 < (len + 4095) / 4096 ==> firmware_chunk(len, k).1 == 4096,
        k + 1 == (len + 4095) / 4096 ==> firmware_chunk(len, k).0 + firmware_chunk(len, k).1 == len,
{
    assert(4096 * k < len && (k + 1 < (len + 4095) / 4096 ==> 4096 * (k + 1) < len) && (k + 1 == (len + 4095) / 4096 ==> len <= 4096 * (k + 1))) by (nonlinear_arith)
        requires
            0 < len,
            0 <= k < (len + 4095) / 4096,
    ;
}

/// Fills the part of the block buffer after `chunk_size` with `0xFF`, the
/// erased state of flash, leaving the first `chunk_size` bytes.
pub fn pad_chunk(buf: &mut [u8; 4096], chunk_size: usize)
    requires
        chunk_size <= 4096,
    ensures
        forall|i: int| 0 <= i < chunk_size ==> #[trigger] final(buf)@[i] == old(buf)@[i],
        forall|i: int| chunk_size <= i < 4096 ==> #[trigger] final(buf)@[i] == 0xFF,
{
    let mut i = chunk_size;
    while i < 4096
        invariant
            chunk_size <= i <= 4096,
            buf@.len() == 4096,
            forall|j: int| 0 <= j < chunk_size ==> #[trigger] buf@[j] == old(buf)@[j],
            forall|j: int| chunk_size <= j < i ==> #[trigger] buf@[j] == 0xFF,
        decreases 4096 - i,
    {
        buf[i] = 0xFF;
        i = i + 1;
    }
}

} // verus!
