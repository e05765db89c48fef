use ixc_schema::tx_store::{EventData, TxError, VersionedMultiStore};

#[test]
fn nested_frames_commit_and_rollback() {
    let mut vs = VersionedMultiStore::new();
    let mut tx = vs.new_transaction();
    assert_eq!(tx.kv_get(1, None, b"k"), Ok(None));
    tx.kv_set(1, None, b"k", b"v1").unwrap();
    assert_eq!(tx.kv_get(1, None, b"k"), Ok(Some(b"v1".to_vec())));

    tx.begin_tx().unwrap();
    tx.kv_set(1, None, b"k", b"v2").unwrap();
    assert_eq!(tx.kv_get(1, None, b"k"), Ok(Some(b"v2".to_vec())));
    tx.rollback_tx().unwrap();
    assert_eq!(tx.kv_get(1, None, b"k"), Ok(Some(b"v1".to_vec())));

    tx.begin_tx().unwrap();
    tx.kv_set(2, None, b"x", b"y").unwrap();
    tx.emit_event(2, 7, b"evt").unwrap();
    tx.commit_tx().unwrap();
    assert_eq!(tx.kv_get(2, None, b"x"), Ok(Some(b"y".to_vec())));

    let events = vs.commit(tx).unwrap().to_vec();
    assert_eq!(events, vec![EventData { sender: 2, type_selector: 7, data: b"evt".to_vec() }]);

    let tx2 = vs.new_transaction();
    assert_eq!(tx2.kv_get(1, None, b"k"), Ok(Some(b"v1".to_vec())));
    assert_eq!(tx2.kv_get(2, None, b"x"), Ok(Some(b"y".to_vec())));
}

#[test]
fn account_storage_and_empty_stacks() {
    let vs = VersionedMultiStore::new();
    let mut tx = vs.new_transaction();
    tx.kv_set(5, None, b"a", b"1").unwrap();
    tx.create_account_storage(5).unwrap();
    assert_eq!(tx.kv_get(5, None, b"a"), Ok(None));
    tx.kv_set(5, None, b"a", b"2").unwrap();
    tx.kv_delete(5, None, b"a").unwrap();
    assert_eq!(tx.kv_get(5, None, b"a"), Ok(None));
    tx.kv_set(6, None, b"b", b"3").unwrap();
    tx.delete_account_storage(6).unwrap();
    assert_eq!(tx.kv_get(6, None, b"b"), Ok(None));

    assert_eq!(tx.commit_tx(), Err(TxError::FatalExecutionError));
    assert_eq!(tx.kv_get(5, None, b"a"), Err(TxError::FatalExecutionError));
    assert_eq!(tx.begin_tx(), Err(TxError::FatalExecutionError));
    assert_eq!(tx.rollback_tx(), Ok(()));
}

#[test]
fn commit_needs_exactly_one_frame() {
    let mut vs = VersionedMultiStore::new();
    let mut tx = vs.new_transaction();
    tx.begin_tx().unwrap();
    assert!(vs.commit(tx).is_err());
    let mut tx = vs.new_transaction();
    tx.kv_set(1, None, b"k", b"v").unwrap();
    assert!(vs.commit(tx).is_ok());
    let tx = vs.new_transaction();
    assert_eq!(tx.kv_get(1, None, b"k"), Ok(Some(b"v".to_vec())));
}
