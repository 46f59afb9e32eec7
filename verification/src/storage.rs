//! The key-value schema of the configuration store: password hashing, key
//! construction, the default records, and the mapping of store pages onto
//! flash.

use vstd::prelude::*;
use vstd::string::StringSliceAdditionalSpecFns;
use vstd::slice::slice_to_vec;
use vstd::utf8::is_ascii_chars_encode_utf8;
use crate::bytes::{bytes_lt, strictly_ascending};
use sha2::Digest as _;

verus! {

/// The SHA-256 digest of `data`, as the `sha2` crate computes it.
pub uninterp spec fn sha256(data: Seq<u8>) -> Seq<u8>;

/// Trusted: `<sha2::Sha256 as Digest>::digest`. Claims that the 32-byte
/// result is the named SHA-256 digest of the input.
#[verifier::external_body]
fn sha256_digest(data: &[u8]) -> (r: [u8; 32])
    ensures
        r@ == sha256(data@),
{
    sha2::Sha256::digest(data).into()
}

/// SHA-256 hash of a password's UTF-8 bytes.
pub fn hash_password(password: &str) -> (r: [u8; 32])
    ensures
        r@ == sha256(password.spec_bytes()),
{
    sha256_digest(password.as_bytes())
}

/// What a 16-byte `heapless::Vec` of bytes holds.
pub uninterp spec fn short_key_bytes(v: heapless::Vec<u8, 16>) -> Seq<u8>;

/// What a 64-byte `heapless::Vec` of bytes holds.
pub uninterp spec fn long_key_bytes(v: heapless::Vec<u8, 64>) -> Seq<u8>;

/// Declares `heapless::Vec`, the fixed-capacity vector that holds store keys.
#[verifier::external_type_specification]
#[verifier::external_body]
#[verifier::reject_recursive_types(T)]
pub struct ExHeaplessVec<T, const N: usize>(heapless::Vec<T, N>);

/// Trusted: `heapless::Vec::<u8, 16>::new`, which returns an empty vector.
#[verifier::external_body]
fn short_key_new() -> (v: heapless::Vec<u8, 16>)
    ensures
        short_key_bytes(v) == Seq::<u8>::empty(),
{
    heapless::Vec::new()
}

/// Trusted: `heapless::Vec::<u8, 16>::extend_from_slice`, which appends the
/// slice when the result fits in 16 bytes and otherwise changes nothing and
/// fails.
#[verifier::external_body]
fn short_key_extend(v: &mut heapless::Vec<u8, 16>, s: &[u8]) -> (r: Result<(), ()>)
    ensures
        short_key_bytes(*old(v)).len() + s@.len() <= 16 ==> r is Ok && short_key_bytes(*final(v))
            == short_key_bytes(*old(v)) + s@,
        short_key_bytes(*old(v)).len() + s@.len() > 16 ==> r is Err && short_key_bytes(*final(v))
            == short_key_bytes(*old(v)),
{
    v.extend_from_slice(s)
}

/// Trusted: `heapless::Vec::<u8, 16>::push`, which appends the byte when
/// fewer than 16 are held and otherwise changes nothing and hands it back.
#[verifier::external_body]
fn short_key_push(v: &mut heapless::Vec<u8, 16>, b: u8) -> (r: Result<(), u8>)
    ensures
        short_key_bytes(*old(v)).len() < 16 ==> r is Ok && short_key_bytes(*final(v))
            == short_key_bytes(*old(v)).push(b),
        short_key_bytes(*old(v)).len() >= 16 ==> (r matches Err(x) && x == b) && short_key_bytes(*final(v))
            == short_key_bytes(*old(v)),
{
    v.push(b)
}

/// Trusted: `heapless::Vec::<u8, 16>::as_slice`, which views the held bytes.
#[verifier::external_body]
pub(crate) fn short_key_as_slice(v: &heapless::Vec<u8, 16>) -> (r: &[u8])
    ensures
        r@ == short_key_bytes(*v),
{
    v.as_slice()
}

/// Trusted: `heapless::Vec::<u8, 64>::new`, which returns an empty vector.
#[verifier::external_body]
fn long_key_new() -> (v: heapless::Vec<u8, 64>)
    ensures
        long_key_bytes(v) == Seq::<u8>::empty(),
{
    heapless::Vec::new()
}

/// Trusted: `heapless::Vec::<u8, 64>::extend_from_slice`, which appends the
/// slice when the result fits in 64 bytes and otherwise changes nothing and
/// fails.
#[verifier::external_body]
fn long_key_extend(v: &mut heapless::Vec<u8, 64>, s: &[u8]) -> (r: Result<(), ()>)
    ensures
        long_key_bytes(*old(v)).len() + s@.len() <= 64 ==> r is Ok && long_key_bytes(*final(v))
            == long_key_bytes(*old(v)) + s@,
        long_key_bytes(*old(v)).len() + s@.len() > 64 ==> r is Err && long_key_bytes(*final(v))
            == long_key_bytes(*old(v)),
{
    v.extend_from_slice(s)
}

/// Trusted: `heapless::Vec::<u8, 64>::as_slice`, which views the held bytes.
#[verifier::external_body]
pub(crate) fn long_key_as_slice(v: &heapless::Vec<u8, 64>) -> (r: &[u8])
    ensures
        r@ == long_key_bytes(*v),
{
    v.as_slice()
}

/// `init`: marks the store as initialised.
pub open spec fn key_init() -> Seq<u8> {
    seq![0x69u8, 0x6e, 0x69, 0x74]
}

/// `admin/first_login`: present with `1` until the first password change.
pub open spec fn key_admin_first_login() -> Seq<u8> {
    seq![0x61u8, 0x64, 0x6d, 0x69, 0x6e, 0x2f, 0x66, 0x69, 0x72, 0x73, 0x74, 0x5f, 0x6c, 0x6f, 0x67, 0x69, 0x6e]
}

/// The byte `'0' + port`, wrapping past 255.
pub open spec fn port_digit(port: u8) -> u8 {
    if port <= 207 {
        (0x30 + port) as u8
    } else {
        (port - 208) as u8
    }
}

/// `p/<port>/name`, the digit being `'0' + port`.
pub open spec fn port_name_key_bytes(port: u8) -> Seq<u8> {
    seq![0x70u8, 0x2f, port_digit(port), 0x2f, 0x6e, 0x61, 0x6d, 0x65]
}

/// `/admin`
pub open spec fn admin_suffix() -> Seq<u8> {
    seq![0x2fu8, 0x61, 0x64, 0x6d, 0x69, 0x6e]
}

/// `/ports`
pub open spec fn ports_suffix() -> Seq<u8> {
    seq![0x2fu8, 0x70, 0x6f, 0x72, 0x74, 0x73]
}

/// `/pw`
pub open spec fn pw_suffix() -> Seq<u8> {
    seq![0x2fu8, 0x70, 0x77]
}

/// `u/<username><suffix>`.
pub open spec fn user_key_bytes(username: Seq<u8>, suffix: Seq<u8>) -> Seq<u8> {
    seq![0x75u8, 0x2f] + username + suffix
}

/// Builds the port name key `p/<port>/name`; the port's digit wraps past
/// byte 255 as the firmware's release build computes it.
pub fn port_name_key(port: u8) -> (v: heapless::Vec<u8, 16>)
    ensures
        short_key_bytes(v) == port_name_key_bytes(port),
{
    let mut v = short_key_new();
    let head: [u8; 2] = [0x70, 0x2f];
    let tail: [u8; 5] = [0x2f, 0x6e, 0x61, 0x6d, 0x65];
    let digit = if port <= 207 { 0x30 + port } else { port - 208 };
    let _ = short_key_extend(&mut v, &head);
    let _ = short_key_push(&mut v, digit);
    let _ = short_key_extend(&mut v, &tail);
    assert(short_key_bytes(v) =~= port_name_key_bytes(port));
    v
}

fn user_key(username: &str, suffix: &[u8]) -> (v: heapless::Vec<u8, 64>)
    requires
        username.spec_bytes().len() + 2 + suffix@.len() <= 64,
    ensures
        long_key_bytes(v) == user_key_bytes(username.spec_bytes(), suffix@),
{
    let mut v = long_key_new();
    let head: [u8; 2] = [0x75, 0x2f];
    let _ = long_key_extend(&mut v, &head);
    let _ = long_key_extend(&mut v, username.as_bytes());
    let _ = long_key_extend(&mut v, suffix);
    assert(long_key_bytes(v) =~= user_key_bytes(username.spec_bytes(), suffix@));
    v
}

/// Builds the user admin flag key `u/<username>/admin`.
pub fn user_admin_key(username: &str) -> (v: heapless::Vec<u8, 64>)
    requires
        username.spec_bytes().len() <= 56,
    ensures
        long_key_bytes(v) == user_key_bytes(username.spec_bytes(), admin_suffix()),
{
    let suffix: [u8; 6] = [0x2f, 0x61, 0x64, 0x6d, 0x69, 0x6e];
    assert(suffix@ =~= admin_suffix());
    user_key(username, &suffix)
}

/// Builds the user ports bitmask key `u/<username>/ports`.
pub fn user_ports_key(username: &str) -> (v: heapless::Vec<u8, 64>)
    requires
        username.spec_bytes().len() <= 56,
    ensures
        long_key_bytes(v) == user_key_bytes(username.spec_bytes(), ports_suffix()),
{
    let suffix: [u8; 6] = [0x2f, 0x70, 0x6f, 0x72, 0x74, 0x73];
    assert(suffix@ =~= ports_suffix());
    user_key(username, &suffix)
}

/// Builds the user password hash key `u/<username>/pw`.
pub fn user_pw_key(username: &str) -> (v: heapless::Vec<u8, 64>)
    requires
        username.spec_bytes().len() <= 59,
    ensures
        long_key_bytes(v) == user_key_bytes(username.spec_bytes(), pw_suffix()),
{
    let suffix: [u8; 3] = [0x2f, 0x70, 0x77];
    assert(suffix@ =~= pw_suffix());
    user_key(username, &suffix)
}

/// Address at which flash offsets start.
pub const FLASH_BASE: u32 = 0x10000000;
/// Offset of the store region from the start of flash.
pub const CONFIG_OFFSET: u32 = 0x87000;

/// Number of pages the store may use.
pub fn page_count() -> (r: usize)
    ensures
        r == 64,
{
    crate::config::EKV_PAGE_COUNT
}

/// Flash offset of store page `page`.
pub fn page_offset(page: usize) -> (r: u32)
    requires
        page < 64,
    ensures
        r == CONFIG_OFFSET + page * 4096,
        crate::config::CONFIG_START - FLASH_BASE <= r,
        r + 4096 <= crate::config::CONFIG_START - FLASH_BASE + crate::config::CONFIG_SIZE,
{
    let page_size = crate::config::EKV_PAGE_SIZE as u32;
    assert(page_size == 4096);
    CONFIG_OFFSET + (page as u32) * page_size
}

/// The flash range `[from, to)` that erasing store page `page` clears.
pub fn erase_range(page: usize) -> (r: (u32, u32))
    requires
        page < 64,
    ensures
        r.0 == CONFIG_OFFSET + page * 4096,
        r.1 == r.0 + 4096,
{
    let offset = page_offset(page);
    (offset, offset + crate::config::EKV_PAGE_SIZE as u32)
}

/// Flash offset of byte `offset` of store page `page`.
pub fn flash_offset(page: usize, offset: usize) -> (r: u32)
    requires
        page < 64,
        offset <= 4096,
    ensures
        r == CONFIG_OFFSET + page * 4096 + offset,
{
    page_offset(page) + offset as u32
}

/// One write of a transaction: the key and the value stored under it.
#[derive(Debug)]
pub struct KvWrite {
    /// Key bytes.
    pub key: Vec<u8>,
    /// Value bytes.
    pub value: Vec<u8>,
}

/// One operation of a write transaction.
#[derive(Debug)]
pub enum KvOp {
    /// Store the value under the key.
    Put(KvWrite),
    /// Delete the key; nothing happens when it is absent.
    Delete(Vec<u8>),
}

/// An operation as its key and the value it leaves there (`None`: deleted).
pub open spec fn op_view(o: KvOp) -> (Seq<u8>, Option<Seq<u8>>) {
    match o {
        KvOp::Put(w) => (w.key@, Some(w.value@)),
        KvOp::Delete(k) => (k@, None),
    }
}

/// The operations of a transaction, in order.
pub open spec fn ops_view(t: Seq<KvOp>) -> Seq<(Seq<u8>, Option<Seq<u8>>)> {
    Seq::new(t.len(), |i: int| op_view(t[i]))
}

/// The operations name their keys in strictly ascending order, as the store
/// requires.
pub open spec fn ordered_ops(t: Seq<(Seq<u8>, Option<Seq<u8>>)>) -> bool {
    strictly_ascending(Seq::new(t.len(), |i: int| t[i].0))
}

/// The keys and values of a transaction, in order.
pub open spec fn writes_view(t: Seq<KvWrite>) -> Seq<(Seq<u8>, Seq<u8>)> {
    Seq::new(t.len(), |i: int| (t[i].key@, t[i].value@))
}

/// The keys of a transaction, in order.
pub open spec fn write_keys(t: Seq<(Seq<u8>, Seq<u8>)>) -> Seq<Seq<u8>> {
    Seq::new(t.len(), |i: int| t[i].0)
}

/// The store requires the keys of a write transaction in strictly ascending
/// lexicographic order.
pub open spec fn ordered_transaction(t: Seq<(Seq<u8>, Seq<u8>)>) -> bool {
    strictly_ascending(write_keys(t))
}

/// `admin`, the name of the account seeded on a fresh store.
pub open spec fn default_admin_name() -> Seq<u8> {
    seq![0x61u8, 0x64, 0x6d, 0x69, 0x6e]
}

/// `Port <n>`, the default name of port `n`.
pub open spec fn default_port_name(n: u8) -> Seq<u8> {
    seq![0x50u8, 0x6f, 0x72, 0x74, 0x20, (0x30 + n) as u8]
}

/// The records written to a freshly formatted store, as three transactions:
/// the first-login flag and the initialisation mark; the names of ports 0 to
/// 7; the `admin` account (admin flag, all eight ports, SHA-256 of `admin`).
pub open spec fn seed_transactions() -> Seq<Seq<(Seq<u8>, Seq<u8>)>> {
    seq![
        seq![(key_admin_first_login(), seq![0x31u8]), (key_init(), seq![0x31u8])],
        Seq::new(8, |i: int| (port_name_key_bytes(i as u8), default_port_name(i as u8))),
        seq![
            (user_key_bytes(default_admin_name(), admin_suffix()), seq![0x31u8]),
            (user_key_bytes(default_admin_name(), ports_suffix()), seq![0xFFu8]),
            (user_key_bytes(default_admin_name(), pw_suffix()), sha256(default_admin_name())),
        ],
    ]
}

fn admin_name() -> (r: &'static str)
    ensures
        r.spec_bytes() == default_admin_name(),
{
    let r = "admin";
    proof {
        reveal_strlit("admin");
        is_ascii_chars_encode_utf8(r@);
        assert(r.spec_bytes() =~= default_admin_name());
    }
    r
}

fn kv(key: &[u8], value: &[u8]) -> (w: KvWrite)
    ensures
        w.key@ == key@,
        w.value@ == value@,
{
    KvWrite { key: slice_to_vec(key), value: slice_to_vec(value) }
}

/// The default records of a freshly formatted store, as the transactions
/// that write them, each listing its keys in ascending order.
pub fn seed_defaults() -> (r: Vec<Vec<KvWrite>>)
    ensures
        r@.len() == 3,
        forall|t: int| 0 <= t < 3 ==> writes_view(#[trigger] r@[t]@) == seed_transactions()[t],
{
    let one: [u8; 1] = [0x31];
    let first_login: [u8; 17] = [
        0x61, 0x64, 0x6d, 0x69, 0x6e, 0x2f, 0x66, 0x69, 0x72, 0x73, 0x74, 0x5f, 0x6c, 0x6f, 0x67, 0x69, 0x6e,
    ];
    let init: [u8; 4] = [0x69, 0x6e, 0x69, 0x74];
    assert(one@ =~= seq![0x31u8]);
    assert(first_login@ =~= key_admin_first_login());
    assert(init@ =~= key_init());
    let mut t0: Vec<KvWrite> = Vec::new();
    t0.push(kv(&first_login, &one));
    t0.push(kv(&init, &one));
    assert(writes_view(t0@) =~= seed_transactions()[0]);

    let mut t1: Vec<KvWrite> = Vec::new();
    let mut i: u8 = 0;
    while i < 8
        invariant
            i <= 8,
            writes_view(t1@) =~= seed_transactions()[1].take(i as int),
        decreases 8 - i,
    {
        let key = port_name_key(i);
        let name: [u8; 6] = [0x50, 0x6f, 0x72, 0x74, 0x20, 0x30 + i];
        assert(name@ =~= default_port_name(i));
        let ghost before = t1@;
        t1.push(kv(short_key_as_slice(&key), &name));
        proof {
            let entry = seed_transactions()[1][i as int];
            assert(entry == (port_name_key_bytes(i), default_port_name(i)));
            assert(seed_transactions()[1].take(i + 1) =~= seed_transactions()[1].take(i as int).push(entry));
            assert(writes_view(t1@) =~= writes_view(before).push(entry));
        }
        i = i + 1;
    }
    assert(seed_transactions()[1].take(8) =~= seed_transactions()[1]);

    let admin = admin_name();
    let all_ports: [u8; 1] = [0xFF];
    let admin_key = user_admin_key(admin);
    let ports_key = user_ports_key(admin);
    let pw_key = user_pw_key(admin);
    let pw_hash = hash_password(admin);
    assert(all_ports@ =~= seq![0xFFu8]);
    let mut t2: Vec<KvWrite> = Vec::new();
    t2.push(kv(long_key_as_slice(&admin_key), &one));
    t2.push(kv(long_key_as_slice(&ports_key), &all_ports));
    t2.push(kv(long_key_as_slice(&pw_key), &pw_hash));
    assert(writes_view(t2@) =~= seed_transactions()[2]);

    let mut r: Vec<Vec<KvWrite>> = Vec::new();
    r.push(t0);
    r.push(t1);
    r.push(t2);
    r
}

/// The three keys of an account sort as `u/<name>/admin` < `u/<name>/ports`
/// < `u/<name>/pw`, whatever the name.
pub proof fn lemma_user_keys_ascending(username: Seq<u8>)
    ensures
        bytes_lt(user_key_bytes(username, admin_suffix()), user_key_bytes(username, ports_suffix())),
        bytes_lt(user_key_bytes(username, ports_suffix()), user_key_bytes(username, pw_suffix())),
{
    let a = user_key_bytes(username, admin_suffix());
    let p = user_key_bytes(username, ports_suffix());
    let w = user_key_bytes(username, pw_suffix());
    let n = username.len() as int;
    assert(a.subrange(0, n + 3) =~= p.subrange(0, n + 3));
    assert(a[n + 3] == 0x61 && p[n + 3] == 0x70);
    assert(p.subrange(0, n + 4) =~= w.subrange(0, n + 4));
    assert(p[n + 4] == 0x6f && w[n + 4] == 0x77);
}

/// Every transaction of the default records lists its keys in strictly
/// ascending order, as the store requires.
pub proof fn lemma_seed_transactions_ordered()
    ensures
        forall|t: int| 0 <= t < 3 ==> ordered_transaction(#[trigger] seed_transactions()[t]),
{
    let t0 = seed_transactions()[0];
    assert(key_admin_first_login().subrange(0, 0) =~= key_init().subrange(0, 0));
    assert(bytes_lt(write_keys(t0)[0], write_keys(t0)[1]));
    assert(ordered_transaction(t0));
    let t1 = seed_transactions()[1];
    assert forall|i: int| 0 <= i < write_keys(t1).len() - 1 implies #[trigger] bytes_lt(
        write_keys(t1)[i],
        write_keys(t1)[i + 1],
    ) by {
        let a = port_name_key_bytes(i as u8);
        let b = port_name_key_bytes((i + 1) as u8);
        assert(a.subrange(0, 2) =~= b.subrange(0, 2));
    }
    assert(ordered_transaction(t1));
    let t2 = seed_transactions()[2];
    lemma_user_keys_ascending(default_admin_name());
    assert(ordered_transaction(t2));
}

/// Distinct usernames get distinct keys, for each kind of account record.
pub proof fn lemma_user_key_injective(a: Seq<u8>, b: Seq<u8>, suffix: Seq<u8>)
    requires
        user_key_bytes(a, suffix) == user_key_bytes(b, suffix),
    ensures
        a == b,
{
    let ka = user_key_bytes(a, suffix);
    assert(a =~= ka.subrange(2, ka.len() - suffix.len()));
    assert(b =~= ka.subrange(2, ka.len() - suffix.len()));
}

/// A transaction's writes as operations.
pub open spec fn puts(t: Seq<(Seq<u8>, Seq<u8>)>) -> Seq<(Seq<u8>, Option<Seq<u8>>)> {
    Seq::new(t.len(), |i: int| (t[i].0, Some(t[i].1)))
}

/// The store's contents (each present key and its value) after a committed
/// transaction, its operations applied in order: a write sets the key's
/// value, a deletion removes the key.
pub open spec fn apply_ops(store: Map<Seq<u8>, Seq<u8>>, t: Seq<(Seq<u8>, Option<Seq<u8>>)>) -> Map<Seq<u8>, Seq<u8>>
    decreases t.len(),
{
    if t.len() == 0 {
        store
    } else {
        let before = apply_ops(store, t.drop_last());
        match t.last().1 {
            Some(v) => before.insert(t.last().0, v),
            None => before.remove(t.last().0),
        }
    }
}

/// Reading `key` into a buffer of `cap` bytes: the stored value, or a
/// failure when the key is absent or its value does not fit the buffer.
pub open spec fn store_read(store: Map<Seq<u8>, Seq<u8>>, key: Seq<u8>, cap: nat) -> Result<Seq<u8>, ()> {
    if store.dom().contains(key) && store[key].len() <= cap {
        Ok(store[key])
    } else {
        Err(())
    }
}

/// No key appears twice in the transaction.
pub open spec fn distinct_keys(t: Seq<(Seq<u8>, Option<Seq<u8>>)>) -> bool {
    forall|i: int, j: int| 0 <= i < j < t.len() ==> #[trigger] t[i].0 != #[trigger] t[j].0
}

/// What a committed transaction leaves at one of its keys: the value it
/// wrote, or nothing where it deleted the key.
pub open spec fn leaves(store: Map<Seq<u8>, Seq<u8>>, key: Seq<u8>, op: Option<Seq<u8>>) -> bool {
    match op {
        Some(v) => store.dom().contains(key) && store[key] == v,
        None => !store.dom().contains(key),
    }
}

/// A committed transaction with distinct keys leaves each of its keys as
/// it says: written with its value, or deleted.
pub proof fn lemma_commit_sets_keys(store: Map<Seq<u8>, Seq<u8>>, t: Seq<(Seq<u8>, Option<Seq<u8>>)>)
    requires
        distinct_keys(t),
    ensures
        forall|i: int| 0 <= i < t.len() ==> leaves(apply_ops(store, t), #[trigger] t[i].0, t[i].1),
    decreases t.len(),
{
    if t.len() > 0 {
        let rest = t.drop_last();
        assert(distinct_keys(rest)) by {
            assert forall|i: int, j: int| 0 <= i < j < rest.len() implies #[trigger] rest[i].0 != #[trigger] rest[j].0 by {
                assert(rest[i] == t[i] && rest[j] == t[j]);
            }
        }
        lemma_commit_sets_keys(store, rest);
        assert forall|i: int| 0 <= i < t.len() implies leaves(apply_ops(store, t), #[trigger] t[i].0, t[i].1) by {
            if i < t.len() - 1 {
                assert(rest[i] == t[i]);
                assert(t[i].0 != t[t.len() - 1].0);
            }
        }
    }
}

/// A committed transaction leaves every key it does not name as it was.
pub proof fn lemma_commit_keeps_others(store: Map<Seq<u8>, Seq<u8>>, t: Seq<(Seq<u8>, Option<Seq<u8>>)>, key: Seq<u8>)
    requires
        forall|i: int| 0 <= i < t.len() ==> #[trigger] t[i].0 != key,
    ensures
        apply_ops(store, t).dom().contains(key) == store.dom().contains(key),
        store.dom().contains(key) ==> apply_ops(store, t)[key] == store[key],
    decreases t.len(),
{
    if t.len() > 0 {
        let rest = t.drop_last();
        assert forall|i: int| 0 <= i < rest.len() implies #[trigger] rest[i].0 != key by {
            assert(rest[i] == t[i]);
        }
        lemma_commit_keeps_others(store, rest, key);
        assert(t[t.len() - 1].0 != key);
    }
}

/// Two byte strings in strict order differ.
pub proof fn lemma_bytes_lt_differ(a: Seq<u8>, b: Seq<u8>)
    requires
        bytes_lt(a, b),
    ensures
        a != b,
{
    let k = choose|k: int|
        0 <= k <= a.len() && k <= b.len() && a.subrange(0, k) == b.subrange(0, k) && (
        (k == a.len() && k < b.len()) || (k < a.len() && k < b.len() && a[k] < b[k]));
    if a == b {
        assert(false);
    }
}

/// The default port names are written under eight distinct keys.
pub proof fn lemma_port_keys_distinct(p: u8, q: u8)
    requires
        p < 8,
        q < 8,
        p != q,
    ensures
        port_name_key_bytes(p) != port_name_key_bytes(q),
{
    assert(port_name_key_bytes(p)[2] != port_name_key_bytes(q)[2]);
}

/// After formatting and seeding, port `p` reads back (into the 32-byte
/// buffer its name is read into) as `Port p`.
pub proof fn lemma_seeded_port_name(p: u8)
    requires
        p < 8,
    ensures
        ({
            let seeded = apply_ops(
                apply_ops(apply_ops(Map::empty(), puts(seed_transactions()[0])), puts(seed_transactions()[1])),
                puts(seed_transactions()[2]),
            );
            store_read(seeded, port_name_key_bytes(p), 32) == Ok::<Seq<u8>, ()>(default_port_name(p))
        }),
{
    let s0 = apply_ops(Map::empty(), puts(seed_transactions()[0]));
    let t1 = puts(seed_transactions()[1]);
    let t2 = puts(seed_transactions()[2]);
    let key = port_name_key_bytes(p);
    assert(distinct_keys(t1)) by {
        assert forall|i: int, j: int| 0 <= i < j < t1.len() implies #[trigger] t1[i].0 != #[trigger] t1[j].0 by {
            lemma_port_keys_distinct(i as u8, j as u8);
        }
    }
    lemma_commit_sets_keys(s0, t1);
    assert(t1[p as int].0 == key);
    let s1 = apply_ops(s0, t1);
    assert(leaves(s1, t1[p as int].0, t1[p as int].1));
    assert forall|i: int| 0 <= i < t2.len() implies #[trigger] t2[i].0 != key by {
        assert(t2[i].0[0] == 0x75u8);
        assert(key[0] == 0x70u8);
    }
    lemma_commit_keeps_others(s1, t2, key);
}

} // verus!
