//! HTTP Basic authentication of PDU users: reading the `Authorization`
//! header, checking a password against the stored hash, and the admin gate.

use vstd::prelude::*;
use vstd::string::StringSliceAdditionalSpecFns;
use vstd::utf8::*;
use vstd::slice::slice_subrange;
use crate::codec::{base64_decode_slice, base64_decode_slice_result, str_from_utf8};
use crate::storage::{
    admin_suffix, default_admin_name, hash_password, long_key_bytes, ports_suffix, pw_suffix, seed_transactions,
    sha256, user_admin_key, user_key_bytes, user_ports_key, user_pw_key,
};

verus! {

/// Reasons why authentication can fail.
#[derive(Debug, Clone, Copy, PartialEq, Eq, Structural)]
pub enum AuthError {
    /// No `Authorization` header present.
    Missing,
    /// Header value is not valid Base64 or UTF-8.
    InvalidEncoding,
    /// Username/password pair does not match stored credentials.
    InvalidCredentials,
    /// Flash storage returned an unexpected error.
    StorageError,
}

impl AuthError {
    /// HTTP status of the rejection: 401 Unauthorized, whatever the reason.
    pub fn status(&self) -> (r: u16)
        ensures
            r == 401,
    {
        401
    }

    /// Body of the rejection.
    pub fn body(&self) -> (r: &'static str)
        ensures
            r@ == "Unauthorized"@,
    {
        "Unauthorized"
    }
}

/// Returned when an authenticated-but-non-admin user tries to access an admin route.
#[derive(Debug, Clone, Copy, PartialEq, Eq, Structural)]
pub struct NotAdmin;

impl NotAdmin {
    /// HTTP status of the rejection: 403.
    pub fn status(&self) -> (r: u16)
        ensures
            r == 403,
    {
        403
    }

    /// Body of the rejection.
    pub fn body(&self) -> (r: &'static str)
        ensures
            r@ == "Forbidden"@,
    {
        "Forbidden"
    }
}

/// An authenticated PDU user.
#[derive(Debug)]
pub struct AuthUser {
    /// Login name, at most 32 bytes of UTF-8.
    pub username: String,
    /// Whether the user may use the admin routes.
    pub is_admin: bool,
    /// Bitmask of permitted relay ports (bit N = port N allowed).
    pub allowed_ports: u8,
}

/// An authenticated user known to be an admin.
#[derive(Debug)]
pub struct AdminUser(pub AuthUser);

/// ASCII lower-casing of one byte, as `u8::to_ascii_lowercase`.
pub open spec fn ascii_lower(b: u8) -> u8 {
    if 0x41 <= b <= 0x5a {
        (b + 32) as u8
    } else {
        b
    }
}

/// `basic ` in ASCII.
pub open spec fn basic_scheme() -> Seq<u8> {
    seq![0x62u8, 0x61, 0x73, 0x69, 0x63, 0x20]
}

/// The header value starts with `Basic ` in any ASCII case.
pub open spec fn has_basic_prefix(raw: Seq<u8>) -> bool {
    &&& raw.len() >= 6
    &&& forall|q: int| 0 <= q < 6 ==> ascii_lower(#[trigger] raw[q]) == basic_scheme()[q]
}

/// Index of the first `b` in `s` at or after `i`.
pub open spec fn first_index_of(s: Seq<u8>, b: u8, i: int) -> Option<int>
    decreases s.len() - i,
{
    if i < 0 || i >= s.len() {
        None
    } else if s[i] == b {
        Some(i)
    } else {
        first_index_of(s, b, i + 1)
    }
}

/// `username:password` split at its first colon; without a colon the
/// credentials are badly encoded.
pub open spec fn split_credentials(d: Seq<u8>) -> Result<(Seq<u8>, Seq<u8>), AuthError> {
    match first_index_of(d, 0x3a, 0) {
        None => Err(AuthError::InvalidEncoding),
        Some(i) => Ok((d.take(i), d.skip(i + 1))),
    }
}

/// Size of the buffer that receives the decoded credentials.
pub const CREDENTIALS_BUFFER_SIZE: usize = 128;

/// The username and password bytes carried by an `Authorization` header
/// value: `Basic ` (any ASCII case), then Base64 of `username:password`,
/// decoded into a 128-byte buffer; the text must be UTF-8 and is split at its
/// first colon.
pub open spec fn basic_credentials(header: Option<Seq<u8>>) -> Result<(Seq<u8>, Seq<u8>), AuthError> {
    match header {
        None => Err(AuthError::Missing),
        Some(raw) => if !has_basic_prefix(raw) {
            Err(AuthError::InvalidEncoding)
        } else {
            match base64_decode_slice_result(raw.skip(6), 128) {
                None => Err(AuthError::InvalidEncoding),
                Some(d) => if !valid_utf8(d) {
                    Err(AuthError::InvalidEncoding)
                } else {
                    split_credentials(d)
                },
            }
        },
    }
}

/// The view of an optional header value.
pub open spec fn header_view(header: Option<&[u8]>) -> Option<Seq<u8>> {
    match header {
        Some(h) => Some(h@),
        None => None,
    }
}

/// Credentials submitted with a request.
pub struct Credentials {
    /// Text before the first colon.
    pub username: String,
    /// Text after the first colon.
    pub password: String,
}

proof fn lemma_boundary_after_ascii(bytes: Seq<u8>, i: int)
    requires
        valid_utf8(bytes),
        0 <= i < bytes.len(),
        is_char_boundary(bytes, i),
        bytes[i] <= 0x7f,
    ensures
        is_char_boundary(bytes, i + 1),
    decreases bytes.len(),
{
    reveal_with_fuel(is_char_boundary, 2);
    let l = length_of_first_scalar(bytes);
    let pop = pop_first_scalar(bytes);
    assert(valid_first_scalar(bytes));
    assert(valid_utf8(pop));
    assert(1 <= l <= bytes.len());
    assert(pop.len() == bytes.len() - l);
    if i == 0 {
        assert(l == 1);
    } else {
        assert(is_char_boundary(pop, i - l));
        assert(i - l >= 0);
        assert(pop[i - l] == bytes[i]);
        lemma_boundary_after_ascii(pop, i - l);
    }
}

/// Reads HTTP Basic credentials from the value of the `Authorization`
/// header (`None` when the request has none).
#[verifier::loop_isolation(false)]
pub fn parse_basic_auth(header: Option<&[u8]>) -> (r: Result<Credentials, AuthError>)
    ensures
        match r {
            Ok(c) => basic_credentials(header_view(header)) == Ok::<(Seq<u8>, Seq<u8>), AuthError>(
                (encode_utf8(c.username@), encode_utf8(c.password@)),
            ),
            Err(e) => basic_credentials(header_view(header)) == Err::<(Seq<u8>, Seq<u8>), AuthError>(e),
        },
{
    let raw = match header {
        None => return Err(AuthError::Missing),
        Some(h) => h,
    };
    let prefix: [u8; 6] = [0x62, 0x61, 0x73, 0x69, 0x63, 0x20];
    assert(prefix@ =~= basic_scheme());
    if raw.len() < 6 {
        return Err(AuthError::InvalidEncoding);
    }
    let mut k: usize = 0;
    while k < 6
        invariant
            k <= 6,
            raw@.len() >= 6,
            prefix@ == basic_scheme(),
            forall|q: int| 0 <= q < k ==> ascii_lower(#[trigger] raw@[q]) == prefix@[q],
        decreases 6 - k,
    {
        let b = raw[k];
        let lower = if 0x41 <= b && b <= 0x5a { b + 32 } else { b };
        if lower != prefix[k] {
            assert(ascii_lower(raw@[k as int]) != basic_scheme()[k as int]);
            return Err(AuthError::InvalidEncoding);
        }
        k = k + 1;
    }
    assert(has_basic_prefix(raw@));
    let b64 = slice_subrange(raw, 6, raw.len());
    assert(b64@ == raw@.skip(6));
    let mut decoded = [0u8; 128];
    let n = match base64_decode_slice(b64, &mut decoded) {
        Ok(n) => n,
        Err(_) => return Err(AuthError::InvalidEncoding),
    };
    let d = slice_subrange(&decoded, 0, n);
    let text = match str_from_utf8(d) {
        Some(t) => t,
        None => return Err(AuthError::InvalidEncoding),
    };
    let mut i: usize = 0;
    while i < d.len()
        invariant
            i <= d@.len(),
            first_index_of(d@, 0x3a, 0) == first_index_of(d@, 0x3a, i as int),
        decreases d@.len() - i,
    {
        if d[i] == 0x3a {
            break;
        }
        i = i + 1;
    }
    if i == d.len() {
        return Err(AuthError::InvalidEncoding);
    }
    assert(first_index_of(d@, 0x3a, 0) == Some(i as int));
    let ghost bytes = text.spec_bytes();
    assert(valid_utf8(bytes));
    assert(bytes[i as int] == 0x3a);
    proof {
        is_char_boundary_iff_not_is_continuation_byte(bytes, i as int);
        lemma_boundary_after_ascii(bytes, i as int);
    }
    let (user, rest) = text.split_at(i);
    let (_, pass) = text.split_at(i + 1);
    proof {
        valid_utf8_split(bytes, i as int);
        valid_utf8_split(bytes, i + 1);
        decode_utf8_encode_utf8(user.spec_bytes());
        decode_utf8_encode_utf8(pass.spec_bytes());
        assert(user.spec_bytes() =~= d@.take(i as int));
        assert(pass.spec_bytes() =~= d@.skip(i + 1));
    }
    Ok(Credentials { username: user.to_owned(), password: pass.to_owned() })
}

/// The store keys a login reads for one user.
pub struct LoginKeys {
    /// `u/<name>/pw`
    pub password: heapless::Vec<u8, 64>,
    /// `u/<name>/admin`
    pub admin: heapless::Vec<u8, 64>,
    /// `u/<name>/ports`
    pub ports: heapless::Vec<u8, 64>,
}

/// Longest username whose keys fit a 64-byte store key (`u/<name>/ports`).
pub const MAX_KEY_USERNAME: usize = 56;

/// The keys a login reads for `username`; a name too long for a store key
/// is refused as badly encoded before anything is read.
pub fn login_keys(username: &str) -> (r: Result<LoginKeys, AuthError>)
    ensures
        username.spec_bytes().len() <= 56 <==> r is Ok,
        r matches Err(e) ==> e == AuthError::InvalidEncoding,
        r matches Ok(k) ==> {
            &&& long_key_bytes(k.password) == user_key_bytes(username.spec_bytes(), pw_suffix())
            &&& long_key_bytes(k.admin) == user_key_bytes(username.spec_bytes(), admin_suffix())
            &&& long_key_bytes(k.ports) == user_key_bytes(username.spec_bytes(), ports_suffix())
        },
{
    if username.as_bytes().len() > MAX_KEY_USERNAME {
        return Err(AuthError::InvalidEncoding);
    }
    Ok(LoginKeys {
        password: user_pw_key(username),
        admin: user_admin_key(username),
        ports: user_ports_key(username),
    })
}

/// What the store returned for the records of one user: each read's result
/// (the length of the stored value, or a failure) and the read buffer
/// afterwards.
pub struct UserRecord {
    /// Reading `u/<name>/pw` into a 32-byte buffer.
    pub password_read: Result<usize, ()>,
    /// That buffer after the read.
    pub password_hash: [u8; 32],
    /// Reading `u/<name>/admin` into a 1-byte buffer.
    pub admin_read: Result<usize, ()>,
    /// That buffer's byte after the read.
    pub admin_flag: u8,
    /// Reading `u/<name>/ports` into a 1-byte buffer.
    pub ports_read: Result<usize, ()>,
    /// That buffer's byte after the read.
    pub port_mask: u8,
}

/// The outcome of checking a password against a user's stored records: the
/// admin flag and port mask, or why the request is refused. A password hash
/// that cannot be read into its 32-byte buffer (absent, or longer), that
/// reads as fewer than 32 bytes, or that does not equal the
/// SHA-256 of the password, refuses the credentials; an unreadable admin flag
/// or port mask is a storage error; a username longer than 32 bytes is
/// refused as badly encoded.
pub open spec fn authentication(username: Seq<u8>, password: Seq<u8>, rec: UserRecord) -> Result<(bool, u8), AuthError> {
    if !(rec.password_read matches Ok(n) && n == 32) {
        Err(AuthError::InvalidCredentials)
    } else if rec.admin_read is Err || rec.ports_read is Err {
        Err(AuthError::StorageError)
    } else if rec.password_hash@ != sha256(password) {
        Err(AuthError::InvalidCredentials)
    } else if username.len() > 32 {
        Err(AuthError::InvalidEncoding)
    } else {
        Ok((rec.admin_flag == 0x31, rec.port_mask))
    }
}

/// Checks submitted credentials against the user's stored records.
#[verifier::loop_isolation(false)]
pub fn authenticate(username: &str, password: &str, record: &UserRecord) -> (r: Result<AuthUser, AuthError>)
    ensures
        match r {
            Ok(u) => {
                &&& authentication(username.spec_bytes(), password.spec_bytes(), *record) == Ok::<(bool, u8), AuthError>(
                    (u.is_admin, u.allowed_ports),
                )
                &&& u.username@ == username@
            },
            Err(e) => authentication(username.spec_bytes(), password.spec_bytes(), *record) == Err::<(bool, u8), AuthError>(e),
        },
{
    let pw_hash = hash_password(password);
    match record.password_read {
        Ok(n) => {
            if n != 32 {
                return Err(AuthError::InvalidCredentials);
            }
        },
        Err(_) => return Err(AuthError::InvalidCredentials),
    }
    if record.admin_read.is_err() || record.ports_read.is_err() {
        return Err(AuthError::StorageError);
    }
    let mut k: usize = 0;
    while k < 32
        invariant
            k <= 32,
            pw_hash@.len() == 32,
            record.password_hash@.len() == 32,
            forall|q: int| 0 <= q < k ==> #[trigger] record.password_hash@[q] == pw_hash@[q],
        decreases 32 - k,
    {
        if record.password_hash[k] != pw_hash[k] {
            assert(record.password_hash@[k as int] != pw_hash@[k as int]);
            return Err(AuthError::InvalidCredentials);
        }
        k = k + 1;
    }
    assert(record.password_hash@ =~= pw_hash@);
    if username.as_bytes().len() > 32 {
        return Err(AuthError::InvalidEncoding);
    }
    Ok(AuthUser {
        username: username.to_owned(),
        is_admin: record.admin_flag == 0x31,
        allowed_ports: record.port_mask,
    })
}

/// Admits an authenticated admin; any failed authentication, and any
/// non-admin user, is refused with [`NotAdmin`].
pub fn require_admin(user: Result<AuthUser, AuthError>) -> (r: Result<AdminUser, NotAdmin>)
    ensures
        match r {
            Ok(a) => user matches Ok(u) && u.is_admin && a.0 == u,
            Err(_) => !(user matches Ok(u) && u.is_admin),
        },
{
    match user {
        Ok(u) => if u.is_admin {
            Ok(AdminUser(u))
        } else {
            Err(NotAdmin)
        },
        Err(_) => Err(NotAdmin),
    }
}

/// On a freshly seeded store the default account logs in as `admin` with
/// password `admin`, with admin rights and all eight ports: the seed writes
/// its records under the keys a login reads, and a login that reads them
/// back succeeds with exactly those rights.
pub proof fn lemma_seeded_admin_logs_in(rec: UserRecord)
    requires
        rec.password_read == Ok::<usize, ()>(32),
        rec.password_hash@ == seed_transactions()[2][2].1,
        rec.admin_read is Ok,
        rec.admin_flag == seed_transactions()[2][0].1[0],
        rec.ports_read is Ok,
        rec.port_mask == seed_transactions()[2][1].1[0],
    ensures
        seed_transactions()[2][0].0 == user_key_bytes(default_admin_name(), admin_suffix()),
        seed_transactions()[2][1].0 == user_key_bytes(default_admin_name(), ports_suffix()),
        seed_transactions()[2][2].0 == user_key_bytes(default_admin_name(), pw_suffix()),
        authentication(default_admin_name(), default_admin_name(), rec) == Ok::<(bool, u8), AuthError>((true, 0xFFu8)),
{
}

} // verus!
