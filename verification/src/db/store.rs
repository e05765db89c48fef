//! A versioned key-value store on top of a sled database.
//!
//! Every write is kept under a composite key: the user key, the big-endian bytes of
//! `u64::MAX - height` (so that later heights sort first), and a flag byte, `0` for an
//! insertion and `1` for a deletion. A read at some height scans the composite keys of the
//! user key from that height down and takes the first one it meets.
use crate::digits::{digits, push_digits, push_str};
use crate::text::string_from_chars;
use vstd::prelude::*;

verus! {

#[verifier::external_type_specification]
#[verifier::external_body]
pub struct ExSledDb(sled::Db);

#[verifier::external_type_specification]
#[verifier::external_body]
pub struct ExSledBatch(sled::Batch);

/// The writes a batch holds: for each key, the value it sets (`Some`) or a removal (`None`).
pub uninterp spec fn batch_writes(b: sled::Batch) -> Map<Seq<u8>, Option<Seq<u8>>>;

/// Why a database operation failed.
#[derive(Debug, PartialEq)]
pub enum DbError {
    /// The database reported an error; its message.
    Sled(String),
    /// A commit named another height than the one after the latest.
    HeightMismatch { expected: u64, found: u64 },
    /// The database holds a value that this store never writes.
    DisallowedValue,
}

/// A change to commit.
pub enum DbChange {
    /// Set `key` to `value`.
    Insert { key: Vec<u8>, value: Vec<u8> },
    /// Remove `key`.
    Delete { key: Vec<u8> },
}

/// The model of a change: its key, and the value it sets or `None` for a removal.
pub open spec fn change_model(c: DbChange) -> (Seq<u8>, Option<Seq<u8>>) {
    match c {
        DbChange::Insert { key, value } => (key@, Some(value@)),
        DbChange::Delete { key } => (key@, None),
    }
}

/// The big-endian bytes of `x`.
pub open spec fn be64(x: u64) -> Seq<u8> {
    seq![
        ((x >> 56u64) & 0xffu64) as u8,
        ((x >> 48u64) & 0xffu64) as u8,
        ((x >> 40u64) & 0xffu64) as u8,
        ((x >> 32u64) & 0xffu64) as u8,
        ((x >> 24u64) & 0xffu64) as u8,
        ((x >> 16u64) & 0xffu64) as u8,
        ((x >> 8u64) & 0xffu64) as u8,
        (x & 0xffu64) as u8,
    ]
}

/// The number that big-endian bytes stand for.
pub open spec fn be_value(b: Seq<u8>) -> int
    decreases b.len(),
{
    if b.len() == 0 {
        0
    } else {
        be_value(b.drop_last()) * 256 + b.last()
    }
}

/// The key under which the latest committed height is kept: `__latest_height__`.
pub open spec fn latest_key() -> Seq<u8> {
    seq![0x5fu8, 0x5f, 0x6c, 0x61, 0x74, 0x65, 0x73, 0x74, 0x5f, 0x68, 0x65, 0x69, 0x67, 0x68, 0x74, 0x5f, 0x5f]
}

/// The flag byte of a change: `0` for an insertion, `1` for a deletion.
pub open spec fn flag_of(value: Option<Seq<u8>>) -> u8 {
    if value is Some { 0 } else { 1 }
}

/// The composite key of a write of `key` at `height` with flag `flag`.
pub open spec fn composite_key(key: Seq<u8>, height: u64, flag: u8) -> Seq<u8> {
    key + be64((u64::MAX - height) as u64) + seq![flag]
}

/// A batch's writes before anything is added.
pub open spec fn no_writes() -> Map<Seq<u8>, Option<Seq<u8>>> {
    Map::empty()
}

/// The writes of a list of changes at `height`, later changes replacing earlier ones with
/// the same composite key. A removal is kept as an empty value under its own flag.
pub open spec fn change_writes(height: u64, cs: Seq<DbChange>) -> Map<Seq<u8>, Option<Seq<u8>>>
    decreases cs.len(),
{
    if cs.len() == 0 {
        Map::empty()
    } else {
        let (k, v) = change_model(cs.last());
        change_writes(height, cs.drop_last()).insert(
            composite_key(k, height, flag_of(v)),
            Some(
                match v {
                    Some(x) => x,
                    None => Seq::empty(),
                },
            ),
        )
    }
}

/// The writes of a commit at `height`: those of its changes, then the new latest height.
pub open spec fn commit_writes(height: u64, cs: Seq<DbChange>) -> Map<Seq<u8>, Option<Seq<u8>>> {
    change_writes(height, cs).insert(latest_key(), Some(be64(height)))
}

/// The height a commit must name after the latest committed height, if any.
pub open spec fn expected_height(latest: Option<u64>) -> int {
    match latest {
        Some(h) => h + 1,
        None => 0,
    }
}

/// The latest height as stored: absent, or eight big-endian bytes.
pub open spec fn stored_height(stored: Option<Seq<u8>>) -> Result<Option<u64>, DbError> {
    match stored {
        None => Ok(None),
        Some(b) => if b.len() == 8 {
            Ok(Some(be_value(b) as u64))
        } else {
            Err(DbError::DisallowedValue)
        },
    }
}

/// What a read of `key` at `height` gives from the entries a scan met, in order: the first
/// composite key of `key` whose height is at or below `height` decides, an insertion with
/// its value and a deletion with nothing; entries with other flags are passed over; the scan
/// ends at the first entry outside `key`.
pub open spec fn select_version(key: Seq<u8>, height: u64, es: Seq<(Seq<u8>, Seq<u8>)>) -> Result<
    Option<Seq<u8>>,
    DbError,
>
    decreases es.len(),
{
    if es.len() == 0 {
        Ok(None)
    } else {
        let k = es[0].0;
        let n = key.len();
        if !(k.len() >= n && k.subrange(0, n as int) == key) {
            Ok(None)
        } else if k.len() < n + 9 {
            Err(DbError::DisallowedValue)
        } else {
            let version = u64::MAX - be_value(k.subrange(n as int, n + 8int));
            let flag = k[n + 8int];
            if version <= height && flag == 0 {
                Ok(Some(es[0].1))
            } else if version <= height && flag == 1 {
                Ok(None)
            } else {
                select_version(key, height, es.drop_first())
            }
        }
    }
}

/// The model of a read result.
pub open spec fn read_model(r: Result<Option<Vec<u8>>, DbError>) -> Result<Option<Seq<u8>>, DbError> {
    match r {
        Ok(Some(v)) => Ok(Some(v@)),
        Ok(None) => Ok(None),
        Err(e) => Err(e),
    }
}

/// Whether byte string `a` sorts strictly before `b`: at their first difference, or by being
/// a proper prefix of it.
pub open spec fn bytes_lt(a: Seq<u8>, b: Seq<u8>) -> bool
    decreases a.len(),
{
    if a.len() == 0 {
        b.len() > 0
    } else if b.len() == 0 {
        false
    } else if a[0] != b[0] {
        a[0] < b[0]
    } else {
        bytes_lt(a.drop_first(), b.drop_first())
    }
}

/// Whether byte string `a` sorts at or before `b`.
pub open spec fn bytes_le(a: Seq<u8>, b: Seq<u8>) -> bool {
    a == b || bytes_lt(a, b)
}

/// Whether `es` is what a scan of the keys from `start` to `end`, both included, can yield:
/// keys within the bounds, in strictly ascending order.
pub open spec fn scan_within(es: Seq<(Seq<u8>, Seq<u8>)>, start: Seq<u8>, end: Seq<u8>) -> bool {
    &&& forall|i: int| 0 <= i < es.len() ==> bytes_le(start, #[trigger] es[i].0) && bytes_le(es[i].0, end)
    &&& forall|i: int, j: int| 0 <= i < j < es.len() ==> bytes_lt(#[trigger] es[i].0, #[trigger] es[j].0)
}

/// The models of scanned entries.
pub open spec fn entries_model(es: Seq<(Vec<u8>, Vec<u8>)>) -> Seq<(Seq<u8>, Seq<u8>)> {
    es.map_values(|e: (Vec<u8>, Vec<u8>)| (e.0@, e.1@))
}

/// Calls `sled::open`.
/// Claimed of the outcome, which depends on the disk: an error is a database error.
#[verifier::external_body]
fn open_db(path: &str) -> (r: Result<sled::Db, DbError>)
    ensures
        r matches Err(e) ==> e is Sled,
{
    sled::open(path).map_err(|e| DbError::Sled(e.to_string()))
}

/// Calls `sled::Tree::get` on the database's default tree.
/// Claimed of the outcome, which depends on what the database holds: an error is a
/// database error.
#[verifier::external_body]
fn db_get(db: &sled::Db, key: &[u8]) -> (r: Result<Option<Vec<u8>>, DbError>)
    ensures
        r matches Err(e) ==> e is Sled,
{
    match db.get(key) {
        Ok(v) => Ok(v.map(|x| x.to_vec())),
        Err(e) => Err(DbError::Sled(e.to_string())),
    }
}

/// Calls `sled::Db::clone`, which gives another handle on the same database.
/// Nothing is claimed of the result.
#[verifier::external_body]
fn db_clone(db: &sled::Db) -> (r: sled::Db) {
    db.clone()
}

/// Calls `sled::Tree::range` over the keys from `start` to `end`, both included, and
/// collects the entries it yields, stopping at the first error.
/// Claimed of the outcome, which depends on what the database holds: an error is a
/// database error; the entries have keys within the bounds, in strictly ascending byte order.
#[verifier::external_body]
fn db_range(db: &sled::Db, start: Vec<u8>, end: Vec<u8>) -> (r: Result<Vec<(Vec<u8>, Vec<u8>)>, DbError>)
    ensures
        r matches Err(e) ==> e is Sled,
        r matches Ok(es) ==> scan_within(entries_model(es@), start@, end@),
{
    db.range(start..=end).map(|e| e.map(|(k, v)| (k.to_vec(), v.to_vec()))).collect::<Result<Vec<_>, _>>().map_err(
        |e| DbError::Sled(e.to_string()),
    )
}

/// Calls `sled::Tree::apply_batch`.
/// Claimed of the outcome, which depends on the disk: an error is a database error.
#[verifier::external_body]
fn db_apply_batch(db: &sled::Db, batch: sled::Batch) -> (r: Result<(), DbError>)
    ensures
        r matches Err(e) ==> e is Sled,
{
    db.apply_batch(batch).map_err(|e| DbError::Sled(e.to_string()))
}

/// Calls `sled::Batch::default`.
/// Claimed: the batch holds no writes.
#[verifier::external_body]
fn new_batch() -> (r: sled::Batch)
    ensures
        batch_writes(r) == no_writes(),
{
    sled::Batch::default()
}

/// Calls `sled::Batch::insert`.
/// Claimed: the batch then sets `key` to `value`, replacing any earlier write of `key`, and
/// holds its other writes as before.
#[verifier::external_body]
fn batch_insert(batch: &mut sled::Batch, key: Vec<u8>, value: Vec<u8>)
    ensures
        batch_writes(*final(batch)) == batch_writes(*old(batch)).insert(key@, Some(value@)),
{
    batch.insert(key, value)
}

/// Appends the bytes of `src`.
fn append_bytes(out: &mut Vec<u8>, src: &[u8])
    ensures
        final(out)@ == old(out)@ + src@,
{
    let mut i: usize = 0;
    while i < src.len()
        invariant
            i <= src@.len(),
            out@ == old(out)@ + src@.take(i as int),
        decreases src@.len() - i,
    {
        out.push(src[i]);
        proof {
            assert(src@.take(i + 1) =~= src@.take(i as int).push(src@[i as int]));
        }
        i = i + 1;
    }
    proof {
        assert(src@.take(i as int) =~= src@);
    }
}

/// Appends the big-endian bytes of `x`.
fn push_be64(out: &mut Vec<u8>, x: u64)
    ensures
        final(out)@ == old(out)@ + be64(x),
{
    out.push(((x >> 56u64) & 0xffu64) as u8);
    out.push(((x >> 48u64) & 0xffu64) as u8);
    out.push(((x >> 40u64) & 0xffu64) as u8);
    out.push(((x >> 32u64) & 0xffu64) as u8);
    out.push(((x >> 24u64) & 0xffu64) as u8);
    out.push(((x >> 16u64) & 0xffu64) as u8);
    out.push(((x >> 8u64) & 0xffu64) as u8);
    out.push((x & 0xffu64) as u8);
    proof {
        assert(final(out)@ =~= old(out)@ + be64(x));
    }
}

/// 256 to the power `n`.
pub open spec fn pow256(n: nat) -> nat
    decreases n,
{
    if n == 0 {
        1
    } else {
        256 * pow256((n - 1) as nat)
    }
}

proof fn lemma_pow256_step(n: nat)
    requires
        n < 8,
    ensures
        pow256(n + 1) == 256 * pow256(n),
        pow256(n + 1) <= 0x1_0000_0000_0000_0000,
{
    reveal_with_fuel(pow256, 9);
}

/// The number that the eight big-endian bytes at `pos` stand for.
fn read_be64(b: &[u8], pos: usize) -> (r: u64)
    requires
        pos + 8 <= b@.len(),
    ensures
        r == be_value(b@.subrange(pos as int, pos + 8)),
{
    let mut v: u64 = 0;
    let mut i: usize = pos;
    let len = b.len();
    let end = pos + 8;
    proof {
        assert(b@.subrange(pos as int, pos as int) =~= Seq::<u8>::empty());
    }
    while i < end
        invariant
            end == pos + 8,
            pos <= i <= end <= b@.len(),
            v == be_value(b@.subrange(pos as int, i as int)),
            v < pow256((i - pos) as nat),
        decreases end - i,
    {
        proof {
            assert(b@.subrange(pos as int, i + 1).drop_last() =~= b@.subrange(pos as int, i as int));
            lemma_pow256_step((i - pos) as nat);
            let p = pow256((i - pos) as nat);
            let d = b@[i as int];
            assert(v * 256 + d < p * 256) by (nonlinear_arith)
                requires
                    v < p,
                    d < 256,
            ;
        }
        v = v * 256 + b[i] as u64;
        i = i + 1;
    }
    v
}

/// The key under which the latest committed height is kept.
pub fn latest_height_key() -> (r: Vec<u8>)
    ensures
        r@ == latest_key(),
{
    let r: Vec<u8> = vec![0x5fu8, 0x5f, 0x6c, 0x61, 0x74, 0x65, 0x73, 0x74, 0x5f, 0x68, 0x65, 0x69, 0x67, 0x68, 0x74, 0x5f, 0x5f];
    proof {
        assert(r@ =~= latest_key());
    }
    r
}

/// The composite key of a write of `key` at `height` with flag `flag`.
pub fn make_composite_key(key: &[u8], height: u64, flag: u8) -> (r: Vec<u8>)
    ensures
        r@ == composite_key(key@, height, flag),
{
    let mut r: Vec<u8> = Vec::new();
    append_bytes(&mut r, key);
    push_be64(&mut r, u64::MAX - height);
    r.push(flag);
    proof {
        assert(r@ =~= composite_key(key@, height, flag));
    }
    r
}

/// The latest committed height from what is stored under the latest-height key: none when
/// nothing is, and an error when the stored value is not eight bytes long.
pub fn decode_stored_height(stored: Option<Vec<u8>>) -> (r: Result<Option<u64>, DbError>)
    ensures
        r == stored_height(
            match stored {
                Some(b) => Some(b@),
                None => None,
            },
        ),
{
    match stored {
        None => Ok(None),
        Some(b) => {
            if b.len() == 8 {
                proof {
                    assert(b@.subrange(0, 8) =~= b@);
                }
                Ok(Some(read_be64(b.as_slice(), 0)))
            } else {
                Err(DbError::DisallowedValue)
            }
        },
    }
}

/// Why a commit at height `next` after the latest committed height `latest` is refused, if it
/// is: no height can follow the largest one, and otherwise the height must follow the latest.
pub open spec fn commit_refusal(latest: Option<u64>, next: u64) -> Option<DbError> {
    if latest == Some(u64::MAX) {
        Some(DbError::DisallowedValue)
    } else if next != expected_height(latest) {
        Some(DbError::HeightMismatch { expected: expected_height(latest) as u64, found: next })
    } else {
        None
    }
}

/// The batch that commits `changes` at height `next`, after the latest committed height
/// `latest` (none for an empty store). No height follows the largest one; otherwise the height
/// must follow the latest one, and the commit is refused with the height it should have named.
pub fn commit_batch(latest: Option<u64>, next: u64, changes: Vec<DbChange>) -> (r: Result<sled::Batch, DbError>)
    ensures
        r is Ok <==> commit_refusal(latest, next) is None,
        r matches Err(e) ==> commit_refusal(latest, next) == Some(e),
        r matches Ok(b) ==> batch_writes(b) == commit_writes(next, changes@),
{
    if latest == Some(u64::MAX) {
        return Err(DbError::DisallowedValue);
    }
    match latest {
        Some(height) => {
            if next != height + 1 {
                return Err(DbError::HeightMismatch { expected: height + 1, found: next });
            }
        },
        None => {
            if next != 0 {
                return Err(DbError::HeightMismatch { expected: 0, found: next });
            }
        },
    }
    let mut batch = new_batch();
    let mut i: usize = 0;
    proof {
        assert(changes@.take(0) =~= Seq::<DbChange>::empty());
    }
    while i < changes.len()
        invariant
            i <= changes@.len(),
            batch_writes(batch) == change_writes(next, changes@.take(i as int)),
        decreases changes@.len() - i,
    {
        let ghost before = changes@.take(i as int);
        proof {
            assert(changes@.take(i + 1).drop_last() =~= before);
            assert(changes@.take(i + 1).last() == changes@[i as int]);
        }
        match &changes[i] {
            DbChange::Insert { key, value } => {
                let k = make_composite_key(key.as_slice(), next, 0);
                let v = vstd::slice::slice_to_vec(value.as_slice());
                batch_insert(&mut batch, k, v);
            },
            DbChange::Delete { key } => {
                let k = make_composite_key(key.as_slice(), next, 1);
                let v: Vec<u8> = Vec::new();
                proof {
                    assert(v@ =~= Seq::<u8>::empty());
                }
                batch_insert(&mut batch, k, v);
            },
        }
        i = i + 1;
    }
    proof {
        assert(changes@.take(i as int) =~= changes@);
    }
    let mut height_bytes: Vec<u8> = Vec::new();
    push_be64(&mut height_bytes, next);
    proof {
        assert(height_bytes@ =~= be64(next));
    }
    batch_insert(&mut batch, latest_height_key(), height_bytes);
    Ok(batch)
}

/// The last composite key a read of `key` scans: its oldest possible one.
pub open spec fn scan_end(key: Seq<u8>) -> Seq<u8> {
    key + seq![0xffu8, 0xff, 0xff, 0xff, 0xff, 0xff, 0xff, 0xff, 0xff]
}

/// The first and last composite keys a read of `key` at `height` scans: from the key's
/// writes at `height` down to its oldest ones.
pub fn range_bounds(key: &[u8], height: u64) -> (r: (Vec<u8>, Vec<u8>))
    ensures
        r.0@ == composite_key(key@, height, 0),
        r.1@ == scan_end(key@),
{
    let start = make_composite_key(key, height, 0);
    let mut end: Vec<u8> = Vec::new();
    append_bytes(&mut end, key);
    let mut j: usize = 0;
    while j < 9
        invariant
            j <= 9,
            end@ == key@ + Seq::new(j as nat, |x: int| 0xffu8),
        decreases 9 - j,
    {
        end.push(0xff);
        proof {
            assert(key@ + Seq::new((j + 1) as nat, |x: int| 0xffu8) =~= (key@ + Seq::new(j as nat, |x: int| 0xffu8)).push(0xffu8));
        }
        j = j + 1;
    }
    proof {
        assert(end@ =~= key@ + seq![0xffu8, 0xff, 0xff, 0xff, 0xff, 0xff, 0xff, 0xff, 0xff]);
    }
    (start, end)
}

/// Whether `k` starts with `key`.
fn starts_with(k: &[u8], key: &[u8]) -> (r: bool)
    ensures
        r == (k@.len() >= key@.len() && k@.subrange(0, key@.len() as int) == key@),
{
    if k.len() < key.len() {
        return false;
    }
    let mut i: usize = 0;
    while i < key.len()
        invariant
            i <= key@.len() <= k@.len(),
            forall|j: int| 0 <= j < i ==> k@[j] == key@[j],
        decreases key@.len() - i,
    {
        if k[i] != key[i] {
            proof {
                assert(k@.subrange(0, key@.len() as int)[i as int] != key@[i as int]);
            }
            return false;
        }
        i = i + 1;
    }
    proof {
        assert(k@.subrange(0, key@.len() as int) =~= key@);
    }
    true
}

/// The value of `key` at `height` from the entries a scan met, in order, as
/// [`select_version`] describes it.
pub fn select_entry(key: &[u8], height: u64, entries: &Vec<(Vec<u8>, Vec<u8>)>) -> (r: Result<Option<Vec<u8>>, DbError>)
    ensures
        read_model(r) == select_version(key@, height, entries_model(entries@)),
{
    let ghost es = entries_model(entries@);
    let mut i: usize = 0;
    proof {
        assert(es.skip(0) =~= es);
    }
    while i < entries.len()
        invariant
            i <= entries@.len(),
            es == entries_model(entries@),
            es.len() == entries@.len(),
            select_version(key@, height, es) == select_version(key@, height, es.skip(i as int)),
        decreases entries@.len() - i,
    {
        let k = &entries[i].0;
        proof {
            assert(es.skip(i as int)[0] == es[i as int]);
            assert(es[i as int] == (entries@[i as int].0@, entries@[i as int].1@));
            assert(es.skip(i as int).drop_first() =~= es.skip(i + 1));
        }
        if !starts_with(k.as_slice(), key) {
            return Ok(None);
        }
        let n = key.len();
        if k.len() - n < 9 {
            return Err(DbError::DisallowedValue);
        }
        let inverted = read_be64(k.as_slice(), n);
        let version = u64::MAX - inverted;
        let flag = k[n + 8];
        if version <= height && flag == 0 {
            let v = vstd::slice::slice_to_vec(entries[i].1.as_slice());
            return Ok(Some(v));
        } else if version <= height && flag == 1 {
            return Ok(None);
        }
        i = i + 1;
    }
    proof {
        assert(es.skip(i as int) =~= Seq::<(Seq<u8>, Seq<u8>)>::empty());
    }
    Ok(None)
}

/// The height to read at, from what is stored under the latest-height key: the latest
/// committed height, zero before any commit, or the error of a malformed stored value.
pub open spec fn latest_height_of(stored: Option<Seq<u8>>) -> Result<u64, DbError> {
    match stored_height(stored) {
        Ok(Some(h)) => Ok(h),
        Ok(None) => Ok(0),
        Err(e) => Err(e),
    }
}

/// The model of what a read of the database gave.
pub open spec fn stored_model(stored: Option<Vec<u8>>) -> Option<Seq<u8>> {
    match stored {
        Some(b) => Some(b@),
        None => None,
    }
}

/// The height to read at, from what is stored under the latest-height key.
pub fn latest_height(stored: Option<Vec<u8>>) -> (r: Result<u64, DbError>)
    ensures
        r == latest_height_of(stored_model(stored)),
{
    match decode_stored_height(stored) {
        Ok(Some(h)) => Ok(h),
        Ok(None) => Ok(0),
        Err(e) => Err(e),
    }
}

/// A versioned key-value store kept in a sled database.
pub struct Sled {
    db: sled::Db,
    applied: Ghost<Seq<Map<Seq<u8>, Option<Seq<u8>>>>>,
}

impl Sled {
    /// The writes of each commit this store has made, oldest first.
    pub closed spec fn applied(&self) -> Seq<Map<Seq<u8>, Option<Seq<u8>>>> {
        self.applied@
    }

    /// Opens the store at `path`.
    pub fn new(path: &str) -> (r: Result<Sled, DbError>)
        ensures
            r matches Err(e) ==> e is Sled,
            r matches Ok(s) ==> s.applied() == Seq::<Map<Seq<u8>, Option<Seq<u8>>>>::empty(),
    {
        match open_db(path) {
            Ok(db) => Ok(Sled { db, applied: Ghost(Seq::empty()) }),
            Err(e) => Err(e),
        }
    }

    /// A view of the state at the latest committed height, or at height zero before any
    /// commit: the height is what [`latest_height`] makes of what the database holds under
    /// the latest-height key.
    pub fn load_latest_state(&self) -> (r: Result<ViewableState, DbError>)
        ensures
            match r {
                Ok(v) => exists|stored: Option<Seq<u8>>|
                    latest_height_of(stored) == Ok::<u64, DbError>(v.read_height()),
                Err(e) => e is Sled || exists|stored: Option<Seq<u8>>|
                    latest_height_of(stored) == Err::<u64, DbError>(e),
            },
    {
        let key = latest_height_key();
        let stored = match db_get(&self.db, key.as_slice()) {
            Ok(s) => s,
            Err(e) => return Err(e),
        };
        let ghost sm = stored_model(stored);
        let height = match latest_height(stored) {
            Ok(h) => h,
            Err(e) => return Err(e),
        };
        let v = ViewableState::new(height, db_clone(&self.db));
        proof {
            assert(latest_height_of(sm) == Ok::<u64, DbError>(v.read_height()));
        }
        Ok(v)
    }

    /// A view of the state at `height`.
    pub fn load_state_at(&self, height: u64) -> (r: Result<ViewableState, DbError>)
        ensures
            r matches Ok(v) && v.read_height() == height,
    {
        Ok(ViewableState::new(height, db_clone(&self.db)))
    }

    /// Commits `changes` at height `next_expected_height`, which must follow the latest
    /// committed height (or be zero for the first commit). The writes go to the database in
    /// one atomic batch, as [`commit_batch`] builds it.
    pub fn commit_changes(&mut self, next_expected_height: u64, changes: Vec<DbChange>) -> (r: Result<(), DbError>)
        ensures
            match r {
                Ok(()) => final(self).applied() == old(self).applied().push(
                    commit_writes(next_expected_height, changes@),
                ) && exists|stored: Option<Seq<u8>>|
                    #[trigger] stored_height(stored) matches Ok(latest) && commit_refusal(latest, next_expected_height)
                        is None,
                Err(e) => final(self).applied() == old(self).applied() && (e is Sled || exists|
                    stored: Option<Seq<u8>>,
                | match #[trigger] stored_height(stored) {
                    Ok(latest) => commit_refusal(latest, next_expected_height) == Some(e),
                    Err(se) => se == e,
                }),
            },
            r matches Err(DbError::HeightMismatch { expected, found }) ==> found == next_expected_height
                && expected != found,
    {
        let key = latest_height_key();
        let stored = match db_get(&self.db, key.as_slice()) {
            Ok(s) => s,
            Err(e) => return Err(e),
        };
        let ghost sm = stored_model(stored);
        let latest = match decode_stored_height(stored) {
            Ok(l) => l,
            Err(e) => {
                proof {
                    assert(stored_height(sm) == Err::<Option<u64>, DbError>(e));
                }
                return Err(e);
            },
        };
        let ghost writes = commit_writes(next_expected_height, changes@);
        let batch = match commit_batch(latest, next_expected_height, changes) {
            Ok(b) => b,
            Err(e) => {
                proof {
                    assert(stored_height(sm) == Ok::<Option<u64>, DbError>(latest));
                }
                return Err(e);
            },
        };
        let ghost written = batch_writes(batch);
        let r = db_apply_batch(&self.db, batch);
        if r.is_ok() {
            proof {
                self.applied@ = self.applied@.push(written);
                assert(stored_height(sm) == Ok::<Option<u64>, DbError>(latest));
            }
        }
        r
    }
}

/// The state of a store as of one height.
pub struct ViewableState {
    /// The height this view reads at.
    pub height: u64,
    db: sled::Db,
}

impl ViewableState {
    /// The height this view reads at.
    pub closed spec fn read_height(&self) -> u64 {
        self.height
    }

    /// A view of `db` at `height`.
    pub fn new(height: u64, db: sled::Db) -> (r: ViewableState)
        ensures
            r.read_height() == height,
    {
        ViewableState { height, db }
    }

    /// The value of `key` as of this view's height: that of its latest write at or below
    /// the height, none if that write was a deletion or there is none. The scan covers the
    /// range that [`range_bounds`] gives, and [`select_entry`] decides on what it met.
    pub fn get(&self, key: &[u8]) -> (r: Result<Option<Vec<u8>>, DbError>)
        ensures
            r matches Err(DbError::Sled(_)) || exists|es: Seq<(Seq<u8>, Seq<u8>)>|
                scan_within(es, composite_key(key@, self.read_height(), 0), scan_end(key@))
                    && read_model(r) == select_version(key@, self.read_height(), es),
    {
        let (start, end) = range_bounds(key, self.height);
        let entries = match db_range(&self.db, start, end) {
            Ok(es) => es,
            Err(e) => return Err(e),
        };
        let r = select_entry(key, self.height, &entries);
        proof {
            assert(read_model(r) == select_version(key@, self.read_height(), entries_model(entries@)));
        }
        r
    }
}

impl crate::db::State for ViewableState {
    /// A value, or its absence, that the latest version of `key` at or below the view's
    /// height may hold; or the message of a database error or of a malformed version.
    open spec fn may_answer(&self, key: Seq<u8>, r: Result<Option<Vec<u8>>, String>) -> bool {
        match r {
            Ok(v) => exists|es: Seq<(Seq<u8>, Seq<u8>)>|
                read_model(Ok::<Option<Vec<u8>>, DbError>(v)) == select_version(key, self.read_height(), es),
            Err(m) => exists|e: DbError|
                m@ == error_message(e) && (e is Sled || exists|es: Seq<(Seq<u8>, Seq<u8>)>|
                    select_version(key, self.read_height(), es) == Err::<Option<Seq<u8>>, DbError>(e)),
        }
    }

    fn get(&self, key: &[u8]) -> (r: Result<Option<Vec<u8>>, String>) {
        match ViewableState::get(self, key) {
            Ok(v) => Ok(v),
            Err(e) => {
                let m = e.message();
                proof {
                    assert(m@ == error_message(e));
                }
                Err(m)
            },
        }
    }
}

/// The message of an error.
pub open spec fn error_message(e: DbError) -> Seq<char> {
    match e {
        DbError::Sled(m) => m@,
        DbError::HeightMismatch { expected, found } => "Height mismatch: expected "@ + digits(expected as nat, 10)
            + ", found "@ + digits(found as nat, 10),
        DbError::DisallowedValue => "Disallowed value"@,
    }
}

impl DbError {
    /// The error's message.
    pub fn message(&self) -> (r: String)
        ensures
            r@ == error_message(*self),
    {
        match self {
            DbError::Sled(m) => m.clone(),
            DbError::HeightMismatch { expected, found } => {
                let mut cs: Vec<char> = Vec::new();
                push_str(&mut cs, "Height mismatch: expected ");
                push_digits(&mut cs, *expected as u128, 10);
                push_str(&mut cs, ", found ");
                push_digits(&mut cs, *found as u128, 10);
                string_from_chars(&cs)
            },
            DbError::DisallowedValue => "Disallowed value".to_owned(),
        }
    }
}

} // verus!
