use ixc_schema::db::store::{make_composite_key, select_entry, DbChange, DbError, Sled};
use ixc_schema::db::tracer::{KeyTrace, StateTracer};
use ixc_schema::db::State;
use ixc_schema::snapshot::{ByteSeq, SnapshotState, StateChange, Store, OverlayValue};
use ixc_schema::uint_map::{UIntMap, UIntMapError};
use std::collections::HashMap;
use std::time::{SystemTime, UNIX_EPOCH};

fn fresh_path(name: &str) -> String {
    let nanos = SystemTime::now().duration_since(UNIX_EPOCH).unwrap().as_nanos();
    format!("/tmp/ixc_schema_{}_{}", name, nanos)
}

#[test]
fn test_all() {
    let mut sled = Sled::new(&fresh_path("all")).unwrap();
    sled.commit_changes(
        0,
        vec![
            DbChange::Insert { key: b"abc".to_vec(), value: b"def".to_vec() },
            DbChange::Insert { key: b"123".to_vec(), value: b"ghi".to_vec() },
        ],
    )
    .unwrap();

    sled.commit_changes(1, vec![DbChange::Delete { key: b"123".to_vec() }]).unwrap();

    let view = sled.load_state_at(0).unwrap();
    assert_eq!(view.get(b"abc").unwrap(), Some(b"def".to_vec()));
    assert_eq!(view.get(b"123").unwrap(), Some(b"ghi".to_vec()));

    let view = sled.load_state_at(1).unwrap();
    assert_eq!(view.get(b"123").unwrap(), None);
    assert_eq!(view.get(b"abc").unwrap(), Some(b"def".to_vec()));
}

#[test]
fn test_state() {
    let mut db = Sled::new(&fresh_path("state")).unwrap();
    db.commit_changes(0, vec![DbChange::Insert { key: b"cookies".to_vec(), value: vec![] }]).unwrap();

    let state = db.load_latest_state().unwrap();

    let mut tracer = StateTracer::new(state);
    tracer.get(b"cookies").unwrap();
    tracer.get(b"not found").unwrap();

    let traces = tracer.into_traces();
    assert_eq!(traces.len(), 2);
    assert_eq!(
        traces,
        vec![KeyTrace::Found { key: b"cookies".to_vec() }, KeyTrace::NotFound { key: b"not found".to_vec() }]
    );
}

#[test]
fn commit_heights_must_follow_each_other() {
    let mut db = Sled::new(&fresh_path("heights")).unwrap();
    assert_eq!(db.commit_changes(1, vec![]), Err(DbError::HeightMismatch { expected: 0, found: 1 }));
    db.commit_changes(0, vec![]).unwrap();
    assert_eq!(db.commit_changes(0, vec![]), Err(DbError::HeightMismatch { expected: 1, found: 0 }));
    assert_eq!(db.commit_changes(5, vec![]), Err(DbError::HeightMismatch { expected: 1, found: 5 }));
    db.commit_changes(1, vec![]).unwrap();
    assert_eq!(db.load_latest_state().unwrap().height, 1);
}

#[test]
fn reads_see_the_latest_write_at_or_below_their_height() {
    let mut db = Sled::new(&fresh_path("versions")).unwrap();
    db.commit_changes(0, vec![DbChange::Insert { key: b"k".to_vec(), value: b"v0".to_vec() }]).unwrap();
    db.commit_changes(1, vec![]).unwrap();
    db.commit_changes(2, vec![DbChange::Insert { key: b"k".to_vec(), value: b"v2".to_vec() }]).unwrap();
    db.commit_changes(3, vec![DbChange::Delete { key: b"k".to_vec() }]).unwrap();
    db.commit_changes(4, vec![DbChange::Insert { key: b"k".to_vec(), value: b"v4".to_vec() }]).unwrap();
    let expect: [Option<&[u8]>; 6] = [Some(b"v0"), Some(b"v0"), Some(b"v2"), None, Some(b"v4"), Some(b"v4")];
    for (h, e) in expect.iter().enumerate() {
        let view = db.load_state_at(h as u64).unwrap();
        assert_eq!(view.get(b"k").unwrap(), e.map(|x| x.to_vec()), "height {}", h);
    }
    assert_eq!(db.load_latest_state().unwrap().get(b"k").unwrap(), Some(b"v4".to_vec()));
    assert_eq!(db.load_state_at(4).unwrap().get(b"other").unwrap(), None);
}

#[test]
fn latest_state_of_an_empty_store_is_height_zero() {
    let db = Sled::new(&fresh_path("empty")).unwrap();
    let view = db.load_latest_state().unwrap();
    assert_eq!(view.height, 0);
    assert_eq!(view.get(b"x").unwrap(), None);
}

#[test]
fn db_error_messages() {
    assert_eq!(
        DbError::HeightMismatch { expected: 12, found: 0 }.message(),
        "Height mismatch: expected 12, found 0"
    );
    assert_eq!(DbError::DisallowedValue.message(), "Disallowed value");
    assert_eq!(DbError::Sled("io".to_string()).message(), "io");
}

struct MemStore(HashMap<Vec<u8>, Vec<u8>>);

impl Store for MemStore {
    // The store's contents as the proofs speak of them; nothing reads them at run time.
    fn stored(&self, _key: ByteSeq) -> Option<ByteSeq> {
        unreachable!()
    }
    fn get(&self, key: &[u8]) -> Option<Vec<u8>> {
        self.0.get(key).cloned()
    }
    fn commit(&mut self) -> Result<(), ()> {
        Ok(())
    }
}

#[test]
fn test_flow() {
    let mut state = HashMap::new();
    state.insert(b"alice".to_vec(), b"1ixc".to_vec());
    state.insert(b"bob".to_vec(), b"2ixc".to_vec());
    state.insert(b"charlie_grant".to_vec(), b"10ixc".to_vec());

    let mut snapshot_state = SnapshotState::new(MemStore(HashMap::new()));

    snapshot_state.set(b"begin_block".to_vec(), b"begin_block".to_vec());

    let _before_ante_handler_snapshot = snapshot_state.snapshot();

    snapshot_state.set(b"ante_handler".to_vec(), b"ante".to_vec());
    snapshot_state.set(b"bob".to_vec(), b"0ixc".to_vec());
    snapshot_state.delete(b"charlie_grant");

    let before_tx_exec_snapshot = snapshot_state.snapshot();
    snapshot_state.set(b"alice".to_vec(), b"3ixc".to_vec());

    snapshot_state.revert_to_snapshot(before_tx_exec_snapshot).unwrap();

    let expected_changes = vec![
        StateChange::Update { key: b"begin_block".to_vec(), value: b"begin_block".to_vec(), previous_value: None },
        StateChange::Update { key: b"ante_handler".to_vec(), value: b"ante".to_vec(), previous_value: None },
        StateChange::Update { key: b"bob".to_vec(), value: b"0ixc".to_vec(), previous_value: None },
    ];

    assert_eq!(snapshot_state.state_changes(), expected_changes);
}

#[test]
fn snapshot_reads_and_reverts() {
    let mut store = HashMap::new();
    store.insert(b"a".to_vec(), b"1".to_vec());
    let mut s = SnapshotState::new(MemStore(store));
    assert_eq!(s.get(b"a"), Some(b"1".to_vec()));
    assert_eq!(s.get(b"a"), Some(b"1".to_vec()));
    assert_eq!(s.get(b"b"), None);
    s.set(b"a".to_vec(), b"2".to_vec());
    let snap = s.snapshot();
    s.set(b"a".to_vec(), b"3".to_vec());
    s.delete(b"a");
    assert_eq!(s.get(b"a"), None);
    s.revert_to_snapshot(snap).unwrap();
    assert_eq!(s.get(b"a"), Some(b"1".to_vec()));
    let changes = s.state_changes();
    assert!(changes.is_empty());
}

#[test]
fn delete_logs_the_previous_value() {
    let mut s = SnapshotState::new(MemStore(HashMap::new()));
    s.set(b"x".to_vec(), b"1".to_vec());
    s.set(b"x".to_vec(), b"2".to_vec());
    s.delete(b"x");
    assert_eq!(
        s.state_changes(),
        vec![
            StateChange::Update { key: b"x".to_vec(), value: b"1".to_vec(), previous_value: None },
            StateChange::Update {
                key: b"x".to_vec(),
                value: b"2".to_vec(),
                previous_value: Some(OverlayValue::Updated(b"1".to_vec()))
            },
            StateChange::Delete { key: b"x".to_vec(), old_value: Some(b"2".to_vec()) },
        ]
    );
}

#[test]
fn uint_map_add_and_sub() {
    let mut m: UIntMap<u128> = UIntMap::new();
    assert_eq!(m.get(b"alice"), 0);
    assert_eq!(m.add(b"alice", 100), Ok(100));
    assert_eq!(m.add(b"alice", 50), Ok(150));
    assert_eq!(m.safe_sub(b"alice", 151), Err(UIntMapError::Underflow));
    assert_eq!(m.get(b"alice"), 150);
    assert_eq!(m.safe_sub(b"alice", 150), Ok(0));
    assert_eq!(m.add(b"bob", u128::MAX), Ok(u128::MAX));
    assert_eq!(m.add(b"bob", 1), Err(UIntMapError::Overflow));
    assert_eq!(m.get(b"bob"), u128::MAX);
    assert_eq!(m.get(b"alice"), 0);
}

#[test]
fn later_commits_leave_earlier_reads_alone() {
    let mut db = Sled::new(&fresh_path("immutable")).unwrap();
    db.commit_changes(0, vec![DbChange::Insert { key: b"k".to_vec(), value: b"a".to_vec() }]).unwrap();
    let before = db.load_state_at(0).unwrap().get(b"k").unwrap();
    db.commit_changes(1, vec![DbChange::Insert { key: b"k".to_vec(), value: b"b".to_vec() }]).unwrap();
    db.commit_changes(2, vec![DbChange::Delete { key: b"k".to_vec() }]).unwrap();
    assert_eq!(db.load_state_at(0).unwrap().get(b"k").unwrap(), before);
    assert_eq!(before, Some(b"a".to_vec()));

    let earlier = vec![(make_composite_key(b"k", 0, 0), b"a".to_vec())];
    let mut scanned = vec![
        (make_composite_key(b"k", 2, 1), Vec::new()),
        (make_composite_key(b"k", 1, 0), b"b".to_vec()),
    ];
    scanned.extend(earlier.clone());
    assert_eq!(select_entry(b"k", 0, &scanned), select_entry(b"k", 0, &earlier));
    assert_eq!(select_entry(b"k", 1, &scanned), Ok(Some(b"b".to_vec())));
    assert_eq!(select_entry(b"k", 2, &scanned), Ok(None));
}
