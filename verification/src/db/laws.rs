//! What commits write and what reads give back of it.
use crate::db::store::{
    be64, be_value, bytes_le, bytes_lt, scan_end, scan_within, change_model, change_writes, commit_writes, composite_key, flag_of, latest_key,
    select_version,
};
use vstd::prelude::*;

verus! {

/// The value a write stores: the inserted bytes, or nothing for a deletion.
pub open spec fn stored_value(v: Option<Seq<u8>>) -> Seq<u8> {
    match v {
        Some(x) => x,
        None => Seq::empty(),
    }
}

/// The entries that the writes `vs` of `key` leave in the database, in the order given:
/// each a height and the value written (`None` for a deletion).
pub open spec fn version_entries(key: Seq<u8>, vs: Seq<(u64, Option<Seq<u8>>)>) -> Seq<(Seq<u8>, Seq<u8>)> {
    vs.map_values(|e: (u64, Option<Seq<u8>>)| (composite_key(key, e.0, flag_of(e.1)), stored_value(e.1)))
}

/// The index of the first write in `vs` at or below `height`.
pub open spec fn first_at_or_below(vs: Seq<(u64, Option<Seq<u8>>)>, height: u64) -> Option<int>
    decreases vs.len(),
{
    if vs.len() == 0 {
        None
    } else if vs[0].0 <= height {
        Some(0)
    } else {
        match first_at_or_below(vs.drop_first(), height) {
            Some(i) => Some(i + 1),
            None => None,
        }
    }
}

/// The eight big-endian bytes of a number stand for that number.
pub proof fn lemma_be64_value(x: u64)
    ensures
        be_value(be64(x)) == x,
{
    let b = be64(x);
    reveal_with_fuel(be_value, 9);
    assert(((x >> 56u64) & 0xffu64) < 256) by (bit_vector);
    assert(((x >> 48u64) & 0xffu64) < 256) by (bit_vector);
    assert(((x >> 40u64) & 0xffu64) < 256) by (bit_vector);
    assert(((x >> 32u64) & 0xffu64) < 256) by (bit_vector);
    assert(((x >> 24u64) & 0xffu64) < 256) by (bit_vector);
    assert(((x >> 16u64) & 0xffu64) < 256) by (bit_vector);
    assert(((x >> 8u64) & 0xffu64) < 256) by (bit_vector);
    assert((x & 0xffu64) < 256) by (bit_vector);
    assert(x == ((((((((x >> 56u64) & 0xffu64) * 256 + ((x >> 48u64) & 0xffu64)) * 256 + ((x >> 40u64)
        & 0xffu64)) * 256 + ((x >> 32u64) & 0xffu64)) * 256 + ((x >> 24u64) & 0xffu64)) * 256 + ((x
        >> 16u64) & 0xffu64)) * 256 + ((x >> 8u64) & 0xffu64)) * 256 + (x & 0xffu64)) by (bit_vector);
    let b7 = b.drop_last();
    let b6 = b7.drop_last();
    let b5 = b6.drop_last();
    let b4 = b5.drop_last();
    let b3 = b4.drop_last();
    let b2 = b3.drop_last();
    let b1 = b2.drop_last();
    let b0 = b1.drop_last();
    assert(b0 =~= Seq::<u8>::empty());
    assert(be_value(b1) == b[0]);
    assert(be_value(b2) == be_value(b1) * 256 + b[1]);
    assert(be_value(b3) == be_value(b2) * 256 + b[2]);
    assert(be_value(b4) == be_value(b3) * 256 + b[3]);
    assert(be_value(b5) == be_value(b4) * 256 + b[4]);
    assert(be_value(b6) == be_value(b5) * 256 + b[5]);
    assert(be_value(b7) == be_value(b6) * 256 + b[6]);
    assert(be_value(b) == be_value(b7) * 256 + b[7]);
}

/// The pieces of a composite key: the user key, the height bytes and the flag.
pub proof fn lemma_composite_key_parts(key: Seq<u8>, height: u64, flag: u8)
    ensures
        ({
            let k = composite_key(key, height, flag);
            let n = key.len();
            &&& k.len() == n + 9
            &&& k.subrange(0, n as int) == key
            &&& k.subrange(n as int, n + 8int) == be64((u64::MAX - height) as u64)
            &&& k[n + 8int] == flag
            &&& u64::MAX - be_value(k.subrange(n as int, n + 8int)) == height
        }),
{
    let k = composite_key(key, height, flag);
    let n = key.len();
    assert(k.subrange(0, n as int) =~= key);
    assert(k.subrange(n as int, n + 8int) =~= be64((u64::MAX - height) as u64));
    lemma_be64_value((u64::MAX - height) as u64);
}

/// A read of `key` at `height` gives back the latest write of `key` at or below `height`: the
/// value it inserted, or nothing if it was a deletion or there is no such write. The writes
/// are those a scan meets, which come latest first (the order their composite keys sort in).
pub proof fn lemma_read_latest_write(key: Seq<u8>, height: u64, vs: Seq<(u64, Option<Seq<u8>>)>)
    requires
        forall|i: int, j: int| 0 <= i < j < vs.len() ==> vs[i].0 > vs[j].0,
    ensures
        select_version(key, height, version_entries(key, vs)) == Ok::<Option<Seq<u8>>, crate::db::store::DbError>(
            match first_at_or_below(vs, height) {
                Some(j) => vs[j].1,
                None => None,
            },
        ),
        match first_at_or_below(vs, height) {
            Some(j) => 0 <= j < vs.len() && vs[j].0 <= height && forall|i: int|
                0 <= i < vs.len() && vs[i].0 <= height ==> vs[i].0 <= vs[j].0,
            None => forall|i: int| 0 <= i < vs.len() ==> vs[i].0 > height,
        },
    decreases vs.len(),
{
    let es = version_entries(key, vs);
    if vs.len() > 0 {
        let rest = vs.drop_first();
        assert forall|i: int, j: int| 0 <= i < j < rest.len() implies rest[i].0 > rest[j].0 by {
            assert(rest[i] == vs[i + 1]);
            assert(rest[j] == vs[j + 1]);
        }
        lemma_read_latest_write(key, height, rest);
        assert(es.drop_first() =~= version_entries(key, rest));
        lemma_composite_key_parts(key, vs[0].0, flag_of(vs[0].1));
        assert(es[0] == (composite_key(key, vs[0].0, flag_of(vs[0].1)), stored_value(vs[0].1)));
        if vs[0].0 > height {
            match first_at_or_below(rest, height) {
                Some(j) => {
                    assert(vs[j + 1] == rest[j]);
                    assert forall|i: int| 0 <= i < vs.len() && (#[trigger] vs[i]).0 <= height implies vs[i].0 <= vs[j + 1].0 by {
                        if i > 0 {
                            assert(vs[i] == rest[i - 1]);
                        }
                    }
                },
                None => {
                    assert forall|i: int| 0 <= i < vs.len() implies vs[i].0 > height by {
                        if i > 0 {
                            assert(vs[i] == rest[i - 1]);
                        }
                    }
                },
            }
        } else {
            assert forall|i: int| 0 <= i < vs.len() && (#[trigger] vs[i]).0 <= height implies vs[i].0 <= vs[0].0 by {
                if i > 0 {
                    assert(vs[0].0 > vs[i].0);
                }
            }
        }
    }
}

/// A commit at `height` writes each change under its composite key (the last change of a
/// composite key winning), an insertion with its value and a deletion with an empty value, and
/// records `height` as the latest height.
pub proof fn lemma_commit_writes_change(height: u64, cs: Seq<crate::db::store::DbChange>, i: int)
    requires
        0 <= i < cs.len(),
        forall|j: int|
            i < j < cs.len() ==> composite_key(change_model(cs[j]).0, height, flag_of(change_model(cs[j]).1))
                != composite_key(change_model(cs[i]).0, height, flag_of(change_model(cs[i]).1)),
    ensures
        ({
            let (k, v) = change_model(cs[i]);
            let ck = composite_key(k, height, flag_of(v));
            &&& commit_writes(height, cs).dom().contains(ck)
            &&& commit_writes(height, cs)[ck] == Some(stored_value(v))
        }),
        commit_writes(height, cs)[latest_key()] == Some(be64(height)),
{
    let (k, v) = change_model(cs[i]);
    let ck = composite_key(k, height, flag_of(v));
    lemma_change_writes(height, cs, i);
    lemma_composite_key_parts(k, height, flag_of(v));
    assert(ck.last() == flag_of(v));
    assert(latest_key().last() == 0x5fu8);
    assert(ck != latest_key());
}

/// The writes of the changes alone, as [`lemma_commit_writes_change`] states them.
proof fn lemma_change_writes(height: u64, cs: Seq<crate::db::store::DbChange>, i: int)
    requires
        0 <= i < cs.len(),
        forall|j: int|
            i < j < cs.len() ==> composite_key(change_model(cs[j]).0, height, flag_of(change_model(cs[j]).1))
                != composite_key(change_model(cs[i]).0, height, flag_of(change_model(cs[i]).1)),
    ensures
        ({
            let (k, v) = change_model(cs[i]);
            let ck = composite_key(k, height, flag_of(v));
            &&& change_writes(height, cs).dom().contains(ck)
            &&& change_writes(height, cs)[ck] == Some(stored_value(v))
        }),
    decreases cs.len(),
{
    if i < cs.len() - 1 {
        let front = cs.drop_last();
        assert(front[i] == cs[i]);
        assert forall|j: int| i < j < front.len() implies composite_key(change_model(front[j]).0, height, flag_of(change_model(front[j]).1))
            != composite_key(change_model(front[i]).0, height, flag_of(change_model(front[i]).1)) by {
            assert(front[j] == cs[j]);
        }
        lemma_change_writes(height, front, i);
        assert(cs.last() == cs[cs.len() - 1]);
    } else {
        let (k, v) = change_model(cs[i]);
        assert(stored_value(v) == match v {
            Some(x) => x,
            None => Seq::<u8>::empty(),
        });
    }
}

/// Every write of a commit at `height` is a version at `height` (of some key, with some flag),
/// apart from the record of the latest height.
pub proof fn lemma_commit_writes_only_its_height(height: u64, cs: Seq<crate::db::store::DbChange>, ck: Seq<u8>)
    requires
        commit_writes(height, cs).dom().contains(ck),
    ensures
        ck == latest_key() || exists|k: Seq<u8>, f: u8| ck == composite_key(k, height, f),
{
    if ck != latest_key() {
        lemma_change_writes_only_its_height(height, cs, ck);
    }
}

/// The writes of the changes alone, as [`lemma_commit_writes_only_its_height`] states them.
proof fn lemma_change_writes_only_its_height(height: u64, cs: Seq<crate::db::store::DbChange>, ck: Seq<u8>)
    requires
        change_writes(height, cs).dom().contains(ck),
    ensures
        exists|k: Seq<u8>, f: u8| ck == composite_key(k, height, f),
    decreases cs.len(),
{
    let (k, v) = change_model(cs.last());
    if ck == composite_key(k, height, flag_of(v)) {
    } else {
        lemma_change_writes_only_its_height(height, cs.drop_last(), ck);
    }
}

/// A read at `height` is not changed by versions of its key above `height`, wherever a scan
/// meets them before the others: committing a later height never changes what an earlier
/// height reads of a key.
pub proof fn lemma_later_versions_unread(
    key: Seq<u8>,
    height: u64,
    later: Seq<(Seq<u8>, Seq<u8>)>,
    earlier: Seq<(Seq<u8>, Seq<u8>)>,
)
    requires
        forall|i: int| 0 <= i < later.len() ==> exists|v: u64, f: u8| v > height && #[trigger] later[i].0 == composite_key(key, v, f),
    ensures
        select_version(key, height, later + earlier) == select_version(key, height, earlier),
    decreases later.len(),
{
    if later.len() > 0 {
        let (v, f) = choose|v: u64, f: u8| v > height && later[0].0 == composite_key(key, v, f);
        lemma_composite_key_parts(key, v, f);
        let rest = later.drop_first();
        assert forall|i: int| 0 <= i < rest.len() implies exists|v: u64, f: u8| v > height && #[trigger] rest[i].0 == composite_key(key, v, f) by {
            assert(rest[i] == later[i + 1]);
        }
        lemma_later_versions_unread(key, height, rest, earlier);
        assert((later + earlier).drop_first() =~= rest + earlier);
        assert((later + earlier)[0] == later[0]);
    }
}

/// Byte strings that agree before index `k` and differ there sort by that byte.
proof fn lemma_lt_at(a: Seq<u8>, b: Seq<u8>, k: int)
    requires
        0 <= k < a.len(),
        k < b.len(),
        forall|i: int| 0 <= i < k ==> a[i] == b[i],
        a[k] < b[k],
    ensures
        bytes_lt(a, b),
    decreases k,
{
    if k > 0 {
        assert(a[0] == b[0]);
        let (a1, b1) = (a.drop_first(), b.drop_first());
        assert forall|i: int| 0 <= i < k - 1 implies a1[i] == b1[i] by {
            assert(a[i + 1] == b[i + 1]);
        }
        lemma_lt_at(a1, b1, k - 1);
    }
}

/// A byte string never sorts before one it sorts after, nor before itself.
proof fn lemma_lt_asymmetric(a: Seq<u8>, b: Seq<u8>)
    requires
        bytes_lt(a, b),
    ensures
        !bytes_lt(b, a),
        a != b,
    decreases a.len(),
{
    if a.len() > 0 && b.len() > 0 && a[0] == b[0] {
        lemma_lt_asymmetric(a.drop_first(), b.drop_first());
        if a == b {
            assert(a.drop_first() == b.drop_first());
        }
    }
}

/// Big-endian byte strings of one length that stand for the same number are equal.
proof fn lemma_be_value_injective(a: Seq<u8>, b: Seq<u8>)
    requires
        a.len() == b.len(),
        be_value(a) == be_value(b),
    ensures
        a == b,
    decreases a.len(),
{
    if a.len() > 0 {
        let (a1, b1) = (a.drop_last(), b.drop_last());
        lemma_be_value_bound(a1);
        lemma_be_value_bound(b1);
        assert(be_value(a1) == be_value(b1) && a.last() == b.last()) by (nonlinear_arith)
            requires
                be_value(a1) * 256 + a.last() == be_value(b1) * 256 + b.last(),
                0 <= a.last() < 256,
                0 <= b.last() < 256,
                be_value(a1) >= 0,
                be_value(b1) >= 0,
        ;
        lemma_be_value_injective(a1, b1);
        assert(a =~= a1.push(a.last()));
        assert(b =~= b1.push(b.last()));
    }
}

/// The number big-endian bytes stand for is not negative.
proof fn lemma_be_value_bound(a: Seq<u8>)
    ensures
        be_value(a) >= 0,
    decreases a.len(),
{
    if a.len() > 0 {
        lemma_be_value_bound(a.drop_last());
    }
}

/// Of two big-endian byte strings of one length, the one standing for the smaller number has
/// the smaller byte where they first differ.
proof fn lemma_be_value_order(a: Seq<u8>, b: Seq<u8>)
    requires
        a.len() == b.len(),
        be_value(a) < be_value(b),
    ensures
        exists|k: int| 0 <= k < a.len() && (forall|i: int| 0 <= i < k ==> a[i] == b[i]) && #[trigger] a[k] < b[k],
    decreases a.len(),
{
    let (a1, b1) = (a.drop_last(), b.drop_last());
    let n = a.len() - 1;
    lemma_be_value_bound(a1);
    lemma_be_value_bound(b1);
    if be_value(a1) < be_value(b1) {
        lemma_be_value_order(a1, b1);
        let k = choose|k: int| 0 <= k < a1.len() && (forall|i: int| 0 <= i < k ==> a1[i] == b1[i]) && #[trigger] a1[k] < b1[k];
        assert(a[k] == a1[k] && b[k] == b1[k]);
        assert(forall|i: int| 0 <= i < k ==> a[i] == a1[i] && b[i] == b1[i]);
    } else if be_value(a1) == be_value(b1) {
        lemma_be_value_injective(a1, b1);
        assert(a.last() < b.last());
        assert(forall|i: int| 0 <= i < n ==> a[i] == a1[i] && b[i] == b1[i]);
        assert(a[n] < b[n]);
    } else {
        assert(false) by (nonlinear_arith)
            requires
                be_value(a1) > be_value(b1),
                be_value(a1) * 256 + a.last() < be_value(b1) * 256 + b.last(),
                0 <= a.last() < 256,
                0 <= b.last() < 256,
        ;
    }
}

/// A version of `key` above `height` sorts before the first key a read at `height` scans.
proof fn lemma_later_version_before_scan(key: Seq<u8>, height: u64, v: u64, f: u8)
    requires
        v > height,
    ensures
        bytes_lt(composite_key(key, v, f), composite_key(key, height, 0)),
{
    let (x, y) = ((u64::MAX - v) as u64, (u64::MAX - height) as u64);
    lemma_be64_value(x);
    lemma_be64_value(y);
    lemma_be_value_order(be64(x), be64(y));
    let k = choose|k: int| 0 <= k < be64(x).len() && (forall|i: int| 0 <= i < k ==> be64(x)[i] == be64(y)[i]) && #[trigger] be64(x)[k] < be64(y)[k];
    let (a, b) = (composite_key(key, v, f), composite_key(key, height, 0));
    let n = key.len() as int;
    assert forall|i: int| 0 <= i < n + k implies a[i] == b[i] by {
        if i >= n {
            assert(a[i] == be64(x)[i - n]);
            assert(b[i] == be64(y)[i - n]);
        }
    }
    assert(a[n + k] == be64(x)[k]);
    assert(b[n + k] == be64(y)[k]);
    lemma_lt_at(a, b, n + k);
}

/// A read at `height` never meets a version of its key above `height`: every key a scan from
/// the read's first composite key yields sorts at or after it, and every later version sorts
/// before it.
pub proof fn lemma_scan_holds_no_later_version(key: Seq<u8>, height: u64, es: Seq<(Seq<u8>, Seq<u8>)>)
    requires
        scan_within(es, composite_key(key, height, 0), scan_end(key)),
    ensures
        forall|i: int, v: u64, f: u8| 0 <= i < es.len() && v > height ==> #[trigger] es[i].0 != #[trigger] composite_key(key, v, f),
{
    assert forall|i: int, v: u64, f: u8| 0 <= i < es.len() && v > height implies #[trigger] es[i].0 != #[trigger] composite_key(
        key,
        v,
        f,
    ) by {
        lemma_later_version_before_scan(key, height, v, f);
        let start = composite_key(key, height, 0);
        if es[i].0 == composite_key(key, v, f) {
            assert(bytes_le(start, es[i].0));
            lemma_lt_asymmetric(composite_key(key, v, f), start);
        }
    }
}

} // verus!
