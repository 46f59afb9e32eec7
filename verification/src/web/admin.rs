//! Admin API: port names, passwords, user accounts.

use vstd::prelude::*;
use vstd::string::StringSliceAdditionalSpecFns;
use vstd::utf8::{encode_utf8, encode_utf8_decode_utf8, encode_utf8_valid_utf8, valid_utf8};
use vstd::slice::{slice_subrange, slice_to_vec};
use crate::auth::{authentication, AuthUser, UserRecord};
use crate::codec::str_from_utf8;
use crate::bytes::bytes_lt;
use crate::storage::{
    apply_ops, distinct_keys, lemma_bytes_lt_differ, lemma_commit_keeps_others, lemma_commit_sets_keys,
    leaves, puts, store_read, admin_suffix, hash_password, key_admin_first_login, ops_view, ordered_ops, KvOp, lemma_user_keys_ascending, long_key_as_slice, port_name_key,
    port_name_key_bytes, ports_suffix, pw_suffix, sha256, short_key_as_slice, user_admin_key,
    user_key_bytes, user_ports_key, user_pw_key, writes_view, ordered_transaction, KvWrite,
};

verus! {

/// Body of a successful admin request: `{"ok":true}`.
#[derive(Debug, Clone, Copy, PartialEq, Eq, Structural)]
pub struct OkResponse {
    /// Always `true`.
    pub ok: bool,
}

/// A refused admin request: HTTP status and message.
#[derive(Debug, Clone, Copy, PartialEq, Eq)]
pub struct ApiError {
    /// HTTP status code.
    pub status: u16,
    /// Plain-text message.
    pub message: &'static str,
}

/// The success answer.
pub fn api_ok() -> (r: OkResponse)
    ensures
        r.ok,
{
    OkResponse { ok: true }
}

/// A refusal with the given status and message.
pub fn api_err(status: u16, message: &'static str) -> (r: ApiError)
    ensures
        r.status == status,
        r.message == message,
{
    ApiError { status, message }
}

/// The answer when a write to the store fails: 500 `Write error`.
pub fn write_error() -> (r: ApiError)
    ensures
        r.status == 500,
        r.message@ == "Write error"@,
{
    api_err(500, "Write error")
}

/// The answer when committing a transaction fails: 500 `Commit error`.
pub fn commit_error() -> (r: ApiError)
    ensures
        r.status == 500,
        r.message@ == "Commit error"@,
{
    api_err(500, "Commit error")
}

/// Request body of a port rename.
pub struct PortNameBody {
    /// New name (at most 32 bytes).
    pub name: String,
}

/// Answer to a port name query.
pub struct PortNameResponse {
    /// Stored name, empty when none could be read.
    pub name: String,
}

/// The transaction that renames a port: a name longer than 32 bytes is
/// refused with 400 `Name too long`, a port of 8 or more with 400
/// `Invalid port`; otherwise one write of the name's bytes under
/// `p/<port>/name`.
pub fn port_name_write(port: u8, body: &PortNameBody) -> (r: Result<Vec<KvWrite>, ApiError>)
    ensures
        encode_utf8(body.name@).len() > 32 ==> (r matches Err(e) && e.status == 400 && e.message@ == "Name too long"@),
        encode_utf8(body.name@).len() <= 32 && port >= 8 ==> (r matches Err(e) && e.status == 400 && e.message@
            == "Invalid port"@),
        encode_utf8(body.name@).len() <= 32 && port < 8 ==> (r matches Ok(t) && writes_view(t@) == seq![
            (port_name_key_bytes(port), encode_utf8(body.name@)),
        ]),
{
    if body.name.as_str().as_bytes().len() > 32 {
        return Err(api_err(400, "Name too long"));
    }
    if port >= 8 {
        return Err(api_err(400, "Invalid port"));
    }
    let key = port_name_key(port);
    let mut t: Vec<KvWrite> = Vec::new();
    t.push(KvWrite { key: slice_to_vec(short_key_as_slice(&key)), value: slice_to_vec(body.name.as_str().as_bytes()) });
    assert(writes_view(t@) =~= seq![(port_name_key_bytes(port), encode_utf8(body.name@))]);
    Ok(t)
}

/// The port name shown for what a read of `p/<port>/name` into a 32-byte
/// buffer returned: the UTF-8 text of the bytes read, or the empty name when
/// the read failed or the bytes are not UTF-8.
pub open spec fn port_name_shown(read: Result<usize, ()>, buf: Seq<u8>) -> Seq<u8> {
    match read {
        Ok(n) => if valid_utf8(buf.take(n as int)) {
            buf.take(n as int)
        } else {
            Seq::empty()
        },
        Err(_) => Seq::empty(),
    }
}

/// The stored name of a port from the outcome of reading it.
pub fn port_name_from_read(read: Result<usize, ()>, buf: &[u8; 32]) -> (r: PortNameResponse)
    requires
        read matches Ok(n) ==> n <= 32,
    ensures
        encode_utf8(r.name@) == port_name_shown(read, buf@),
{
    let name = match read {
        Ok(n) => match str_from_utf8(slice_subrange(buf, 0, n)) {
            Some(s) => {
                proof {
                    vstd::utf8::decode_utf8_encode_utf8(s.spec_bytes());
                }
                s.to_owned()
            },
            None => String::new(),
        },
        Err(_) => String::new(),
    };
    proof {
        if port_name_shown(read, buf@) == Seq::<u8>::empty() {
            assert(encode_utf8(Seq::<char>::empty()) =~= Seq::<u8>::empty());
        }
    }
    PortNameResponse { name }
}

/// Request body of a password change.
pub struct ChangePasswordBody {
    /// Current password.
    pub old: String,
    /// New password.
    pub new: String,
}

/// The transaction of a password change: the first-login flag
/// `admin/first_login` is deleted, then the SHA-256 of the new password is
/// written under `u/<name>/pw`.
pub open spec fn password_change_ops(username: Seq<u8>, new: Seq<u8>) -> Seq<(Seq<u8>, Option<Seq<u8>>)> {
    seq![(key_admin_first_login(), None), (user_key_bytes(username, pw_suffix()), Some(sha256(new)))]
}

/// The outcome of a password change for what reading the user's stored hash
/// into a 32-byte buffer returned: a failed read (no record, or one longer
/// than the buffer) is 500 `Storage error`; a read of other than 32 bytes, or
/// a hash that differs from the SHA-256 of the old password, is 401
/// `Invalid credentials`; otherwise the password change transaction.
pub open spec fn password_change_outcome(
    username: Seq<u8>,
    old: Seq<u8>,
    new: Seq<u8>,
    read: Result<usize, ()>,
    stored: Seq<u8>,
) -> Result<Seq<(Seq<u8>, Option<Seq<u8>>)>, (u16, Seq<char>)> {
    match read {
        Err(_) => Err((500u16, "Storage error"@)),
        Ok(n) => if n != 32 || stored != sha256(old) {
            Err((401u16, "Invalid credentials"@))
        } else {
            Ok(password_change_ops(username, new))
        },
    }
}

/// Decides a password change.
#[verifier::loop_isolation(false)]
pub fn password_change(
    user: &AuthUser,
    body: &ChangePasswordBody,
    read: Result<usize, ()>,
    stored: &[u8; 32],
) -> (r: Result<Vec<KvOp>, ApiError>)
    requires
        encode_utf8(user.username@).len() <= 59,
    ensures
        match password_change_outcome(
            encode_utf8(user.username@),
            encode_utf8(body.old@),
            encode_utf8(body.new@),
            read,
            stored@,
        ) {
            Ok(w) => r matches Ok(t) && ops_view(t@) == w,
            Err(e) => r matches Err(a) && a.status == e.0 && a.message@ == e.1,
        },
{
    let old_hash = hash_password(body.old.as_str());
    match read {
        Err(_) => return Err(api_err(500, "Storage error")),
        Ok(n) => {
            if n != 32 {
                return Err(api_err(401, "Invalid credentials"));
            }
        },
    }
    let mut k: usize = 0;
    while k < 32
        invariant
            k <= 32,
            old_hash@.len() == 32,
            stored@.len() == 32,
            forall|q: int| 0 <= q < k ==> #[trigger] stored@[q] == old_hash@[q],
        decreases 32 - k,
    {
        if stored[k] != old_hash[k] {
            assert(stored@[k as int] != old_hash@[k as int]);
            return Err(api_err(401, "Invalid credentials"));
        }
        k = k + 1;
    }
    assert(stored@ =~= old_hash@);
    let new_hash = hash_password(body.new.as_str());
    let key = user_pw_key(user.username.as_str());
    let first_login: [u8; 17] = [
        0x61, 0x64, 0x6d, 0x69, 0x6e, 0x2f, 0x66, 0x69, 0x72, 0x73, 0x74, 0x5f, 0x6c, 0x6f, 0x67, 0x69, 0x6e,
    ];
    assert(first_login@ =~= key_admin_first_login());
    let mut t: Vec<KvOp> = Vec::new();
    t.push(KvOp::Delete(slice_to_vec(&first_login)));
    t.push(KvOp::Put(KvWrite { key: slice_to_vec(long_key_as_slice(&key)), value: slice_to_vec(&new_hash) }));
    assert(ops_view(t@) =~= password_change_ops(encode_utf8(user.username@), encode_utf8(body.new@)));
    Ok(t)
}

/// Request body of an account creation.
pub struct CreateUserBody {
    /// Login name (at most 32 bytes, the longest a login accepts).
    pub username: String,
    /// Password.
    pub password: String,
    /// Bitmask of permitted ports.
    pub ports: u8,
    /// Whether the account is an admin.
    pub admin: bool,
}

/// The transaction that creates (or overwrites) an account: admin flag
/// (`1` or `0`), port mask, SHA-256 of the password, in key order.
pub open spec fn create_user_transaction(username: Seq<u8>, password: Seq<u8>, ports: u8, admin: bool) -> Seq<(Seq<u8>, Seq<u8>)> {
    seq![
        (user_key_bytes(username, admin_suffix()), seq![if admin { 0x31u8 } else { 0x30u8 }]),
        (user_key_bytes(username, ports_suffix()), seq![ports]),
        (user_key_bytes(username, pw_suffix()), sha256(password)),
    ]
}

/// The writes that create an account.
pub fn create_user_writes(body: &CreateUserBody) -> (r: Vec<KvWrite>)
    requires
        encode_utf8(body.username@).len() <= 32,
    ensures
        writes_view(r@) == create_user_transaction(
            encode_utf8(body.username@),
            encode_utf8(body.password@),
            body.ports,
            body.admin,
        ),
{
    let name = body.username.as_str();
    let pw_hash = hash_password(body.password.as_str());
    let admin_key = user_admin_key(name);
    let ports_key = user_ports_key(name);
    let pw_key = user_pw_key(name);
    let flag: [u8; 1] = [if body.admin { 0x31 } else { 0x30 }];
    assert(flag@ =~= seq![if body.admin { 0x31u8 } else { 0x30u8 }]);
    let mask: [u8; 1] = [body.ports];
    assert(mask@ =~= seq![body.ports]);
    let mut t: Vec<KvWrite> = Vec::new();
    t.push(KvWrite { key: slice_to_vec(long_key_as_slice(&admin_key)), value: slice_to_vec(&flag) });
    t.push(KvWrite { key: slice_to_vec(long_key_as_slice(&ports_key)), value: slice_to_vec(&mask) });
    t.push(KvWrite { key: slice_to_vec(long_key_as_slice(&pw_key)), value: slice_to_vec(&pw_hash) });
    assert(writes_view(t@) =~= create_user_transaction(
        encode_utf8(body.username@),
        encode_utf8(body.password@),
        body.ports,
        body.admin,
    ));
    t
}

/// Request body of a port-mask change.
#[derive(Debug, Clone, Copy, PartialEq, Eq, Structural)]
pub struct SetPortsBody {
    /// New bitmask of permitted ports.
    pub ports: u8,
}

/// The write that sets an account's port mask.
pub fn set_user_ports_writes(username: &str, body: SetPortsBody) -> (r: Vec<KvWrite>)
    requires
        username.spec_bytes().len() <= 56,
    ensures
        writes_view(r@) == seq![(user_key_bytes(username.spec_bytes(), ports_suffix()), seq![body.ports])],
{
    let ports_key = user_ports_key(username);
    let mask: [u8; 1] = [body.ports];
    assert(mask@ =~= seq![body.ports]);
    let mut t: Vec<KvWrite> = Vec::new();
    t.push(KvWrite { key: slice_to_vec(long_key_as_slice(&ports_key)), value: slice_to_vec(&mask) });
    assert(writes_view(t@) =~= seq![(user_key_bytes(username.spec_bytes(), ports_suffix()), seq![body.ports])]);
    t
}

/// The transaction that disables an account: admin flag `0`, no ports, and
/// an all-zero password hash, in key order.
pub open spec fn delete_user_transaction(username: Seq<u8>) -> Seq<(Seq<u8>, Seq<u8>)> {
    seq![
        (user_key_bytes(username, admin_suffix()), seq![0x30u8]),
        (user_key_bytes(username, ports_suffix()), seq![0u8]),
        (user_key_bytes(username, pw_suffix()), Seq::new(32, |i: int| 0u8)),
    ]
}

/// The writes that disable an account.
pub fn delete_user_writes(username: &str) -> (r: Vec<KvWrite>)
    requires
        username.spec_bytes().len() <= 56,
    ensures
        writes_view(r@) == delete_user_transaction(username.spec_bytes()),
{
    let admin_key = user_admin_key(username);
    let ports_key = user_ports_key(username);
    let pw_key = user_pw_key(username);
    let flag: [u8; 1] = [0x30];
    let mask: [u8; 1] = [0];
    let zeros: [u8; 32] = [0; 32];
    assert(flag@ =~= seq![0x30u8]);
    assert(mask@ =~= seq![0u8]);
    let mut t: Vec<KvWrite> = Vec::new();
    t.push(KvWrite { key: slice_to_vec(long_key_as_slice(&admin_key)), value: slice_to_vec(&flag) });
    t.push(KvWrite { key: slice_to_vec(long_key_as_slice(&ports_key)), value: slice_to_vec(&mask) });
    t.push(KvWrite { key: slice_to_vec(long_key_as_slice(&pw_key)), value: slice_to_vec(&zeros) });
    assert(zeros@ =~= Seq::new(32, |i: int| 0u8));
    assert(writes_view(t@) =~= delete_user_transaction(username.spec_bytes()));
    t
}

/// Account transactions name their keys in the order the store requires.
pub proof fn lemma_account_transactions_ordered(username: Seq<u8>, password: Seq<u8>, ports: u8, admin: bool)
    ensures
        ordered_transaction(create_user_transaction(username, password, ports, admin)),
        ordered_transaction(delete_user_transaction(username)),
        ordered_ops(password_change_ops(username, password)),
{
    lemma_user_keys_ascending(username);
    assert(ordered_transaction(create_user_transaction(username, password, ports, admin)));
    assert(ordered_transaction(delete_user_transaction(username)));
    let t = password_change_ops(username, password);
    let keys = Seq::new(t.len(), |i: int| t[i].0);
    assert(key_admin_first_login().subrange(0, 0) =~= user_key_bytes(username, pw_suffix()).subrange(0, 0));
    assert(bytes_lt(keys[0], keys[1]));
}

/// After a password change, the user logs in with the new password, and the
/// first-login flag is gone: the change deletes `admin/first_login` and
/// writes the new hash under the key a login reads, and a login that reads
/// it back (with readable admin flag and port mask) succeeds.
pub proof fn lemma_login_after_password_change(
    username: Seq<u8>,
    old: Seq<u8>,
    new: Seq<u8>,
    read: Result<usize, ()>,
    stored: Seq<u8>,
    rec: UserRecord,
)
    requires
        username.len() <= 32,
        password_change_outcome(username, old, new, read, stored) is Ok,
        rec.password_read == Ok::<usize, ()>(32),
        Some(rec.password_hash@) == password_change_outcome(username, old, new, read, stored)->Ok_0[1].1,
        rec.admin_read is Ok,
        rec.ports_read is Ok,
    ensures
        password_change_outcome(username, old, new, read, stored)->Ok_0[0] == (key_admin_first_login(), None::<Seq<u8>>),
        password_change_outcome(username, old, new, read, stored)->Ok_0[1].0 == user_key_bytes(username, pw_suffix()),
        authentication(username, new, rec) is Ok,
{
}

/// A created account logs in with its password and gets the admin flag and
/// port mask it was created with, when a login reads back what the creation
/// wrote.
pub proof fn lemma_login_after_create_user(username: Seq<u8>, password: Seq<u8>, ports: u8, admin: bool, rec: UserRecord)
    requires
        username.len() <= 32,
        rec.password_read == Ok::<usize, ()>(32),
        rec.password_hash@ == create_user_transaction(username, password, ports, admin)[2].1,
        rec.admin_read == Ok::<usize, ()>(1),
        rec.admin_flag == create_user_transaction(username, password, ports, admin)[0].1[0],
        rec.ports_read == Ok::<usize, ()>(1),
        rec.port_mask == create_user_transaction(username, password, ports, admin)[1].1[0],
    ensures
        authentication(username, password, rec) == Ok::<(bool, u8), crate::auth::AuthError>((admin, ports)),
{
}

/// A disabled account keeps no rights: whatever password is presented, a
/// login that reads back what the deletion wrote yields neither admin rights
/// nor any port.
pub proof fn lemma_deleted_user_has_no_rights(username: Seq<u8>, password: Seq<u8>, rec: UserRecord)
    requires
        rec.admin_flag == delete_user_transaction(username)[0].1[0],
        rec.port_mask == delete_user_transaction(username)[1].1[0],
    ensures
        authentication(username, password, rec) matches Ok(r) ==> r == (false, 0u8),
{
}

/// A port renamed through the API reads back under its new name: after the
/// rename's transaction is committed, reading `p/<port>/name` into the
/// 32-byte buffer yields the name's bytes, and the name shown for that read
/// is the new name and no other.
pub proof fn lemma_port_name_read_after_write(
    store: Map<Seq<u8>, Seq<u8>>,
    port: u8,
    name: Seq<char>,
    buf: Seq<u8>,
)
    requires
        port < 8,
        encode_utf8(name).len() <= 32,
        buf.len() == 32,
    ensures
        ({
            let after = apply_ops(store, puts(seq![(port_name_key_bytes(port), encode_utf8(name))]));
            let n = encode_utf8(name).len();
            &&& store_read(after, port_name_key_bytes(port), 32) == Ok::<Seq<u8>, ()>(encode_utf8(name))
            &&& port_name_shown(Ok(n as usize), encode_utf8(name) + buf.skip(n as int)) == encode_utf8(name)
            &&& forall|shown: Seq<char>| encode_utf8(shown) == port_name_shown(
                Ok(n as usize),
                encode_utf8(name) + buf.skip(n as int),
            ) ==> shown == name
        }),
{
    let t = puts(seq![(port_name_key_bytes(port), encode_utf8(name))]);
    lemma_commit_sets_keys(store, t);
    assert(leaves(apply_ops(store, t), t[0].0, t[0].1));
    let bytes = encode_utf8(name);
    let n = bytes.len();
    assert((bytes + buf.skip(n as int)).take(n as int) =~= bytes);
    encode_utf8_valid_utf8(name);
    assert forall|shown: Seq<char>| encode_utf8(shown) == port_name_shown(Ok(n as usize), bytes + buf.skip(n as int)) implies shown == name by {
        encode_utf8_decode_utf8(shown);
        encode_utf8_decode_utf8(name);
    }
}

/// The keys of the account transactions are distinct.
pub proof fn lemma_account_keys_distinct(username: Seq<u8>, password: Seq<u8>, ports: u8, admin: bool)
    ensures
        distinct_keys(puts(create_user_transaction(username, password, ports, admin))),
        distinct_keys(puts(delete_user_transaction(username))),
        distinct_keys(password_change_ops(username, password)),
{
    lemma_user_keys_ascending(username);
    let a = user_key_bytes(username, admin_suffix());
    let p = user_key_bytes(username, ports_suffix());
    let w = user_key_bytes(username, pw_suffix());
    lemma_bytes_lt_differ(a, p);
    lemma_bytes_lt_differ(p, w);
    assert(a[username.len() as int + 3] == 0x61u8 && w[username.len() as int + 3] == 0x70u8);
    assert(a != w);
    assert(key_admin_first_login()[0] == 0x61u8 && w[0] == 0x75u8);
    let c = puts(create_user_transaction(username, password, ports, admin));
    assert forall|i: int, j: int| 0 <= i < j < c.len() implies #[trigger] c[i].0 != #[trigger] c[j].0 by {}
    let d = puts(delete_user_transaction(username));
    assert forall|i: int, j: int| 0 <= i < j < d.len() implies #[trigger] d[i].0 != #[trigger] d[j].0 by {}
}

/// A committed password change leaves the SHA-256 of the new password under
/// the user's password key and no first-login flag, so the status no longer
/// reports a first login (a read of the flag fails); every other key of the
/// store, other users' records among them, is as it was.
pub proof fn lemma_password_change_commit(
    store: Map<Seq<u8>, Seq<u8>>,
    username: Seq<u8>,
    new: Seq<u8>,
    other: Seq<u8>,
)
    requires
        other != key_admin_first_login(),
        other != user_key_bytes(username, pw_suffix()),
    ensures
        ({
            let after = apply_ops(store, password_change_ops(username, new));
            &&& after.dom().contains(user_key_bytes(username, pw_suffix()))
            &&& after[user_key_bytes(username, pw_suffix())] == sha256(new)
            &&& !after.dom().contains(key_admin_first_login())
            &&& store_read(after, key_admin_first_login(), 1) is Err
            &&& after.dom().contains(other) == store.dom().contains(other)
            &&& store.dom().contains(other) ==> after[other] == store[other]
        }),
{
    let t = password_change_ops(username, new);
    lemma_account_keys_distinct(username, new, 0, false);
    lemma_commit_sets_keys(store, t);
    assert(leaves(apply_ops(store, t), t[0].0, t[0].1));
    assert(leaves(apply_ops(store, t), t[1].0, t[1].1));
    lemma_commit_keeps_others(store, t, other);
}

/// A committed account creation leaves the account's records as a login
/// reads them: the admin flag and port mask each read back as one byte, and
/// the SHA-256 of the password under the password key.
pub proof fn lemma_create_user_commit(
    store: Map<Seq<u8>, Seq<u8>>,
    username: Seq<u8>,
    password: Seq<u8>,
    ports: u8,
    admin: bool,
)
    ensures
        ({
            let after = apply_ops(store, puts(create_user_transaction(username, password, ports, admin)));
            &&& store_read(after, user_key_bytes(username, admin_suffix()), 1) == Ok::<Seq<u8>, ()>(
                seq![if admin { 0x31u8 } else { 0x30u8 }],
            )
            &&& store_read(after, user_key_bytes(username, ports_suffix()), 1) == Ok::<Seq<u8>, ()>(seq![ports])
            &&& after.dom().contains(user_key_bytes(username, pw_suffix()))
            &&& after[user_key_bytes(username, pw_suffix())] == sha256(password)
        }),
{
    let t = puts(create_user_transaction(username, password, ports, admin));
    lemma_account_keys_distinct(username, password, ports, admin);
    lemma_commit_sets_keys(store, t);
    assert(leaves(apply_ops(store, t), t[0].0, t[0].1));
    assert(leaves(apply_ops(store, t), t[1].0, t[1].1));
    assert(leaves(apply_ops(store, t), t[2].0, t[2].1));
}

/// A committed account deletion leaves the admin flag `0`, an empty port
/// mask and an all-zero password hash, each readable by a login.
pub proof fn lemma_delete_user_commit(store: Map<Seq<u8>, Seq<u8>>, username: Seq<u8>)
    ensures
        ({
            let after = apply_ops(store, puts(delete_user_transaction(username)));
            &&& store_read(after, user_key_bytes(username, admin_suffix()), 1) == Ok::<Seq<u8>, ()>(seq![0x30u8])
            &&& store_read(after, user_key_bytes(username, ports_suffix()), 1) == Ok::<Seq<u8>, ()>(seq![0u8])
            &&& store_read(after, user_key_bytes(username, pw_suffix()), 32) == Ok::<Seq<u8>, ()>(
                Seq::new(32, |i: int| 0u8),
            )
        }),
{
    let t = puts(delete_user_transaction(username));
    lemma_account_keys_distinct(username, Seq::empty(), 0, false);
    lemma_commit_sets_keys(store, t);
    assert(leaves(apply_ops(store, t), t[0].0, t[0].1));
    assert(leaves(apply_ops(store, t), t[1].0, t[1].1));
    assert(leaves(apply_ops(store, t), t[2].0, t[2].1));
}

} // verus!
