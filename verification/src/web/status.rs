//! `GET /api/status`: firmware version and first-login flag.

use vstd::prelude::*;

verus! {

/// Answer to a status query.
#[derive(Debug, Clone, Copy)]
pub struct StatusResponse {
    /// Firmware version.
    pub version: &'static str,
    /// The device's IPv4 address.
    pub ip: [u8; 4],
    /// Whether the default admin password has not been changed yet.
    pub first_login: bool,
}

/// The status of the device at `ip`, for what reading `admin/first_login`
/// into a 1-byte buffer returned: first login exactly when one byte was read
/// and it is `1`.
pub fn status_response(read: Result<usize, ()>, flag: u8, ip: [u8; 4]) -> (r: StatusResponse)
    ensures
        r.version@ == "1.0.0"@,
        r.ip == ip,
        r.first_login == (read matches Ok(n) && n == 1 && flag == 0x31),
{
    let first_login = match read {
        Ok(n) => n == 1 && flag == 0x31,
        Err(_) => false,
    };
    StatusResponse { version: "1.0.0", ip, first_login }
}

} // verus!
