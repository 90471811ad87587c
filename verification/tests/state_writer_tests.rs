use dozer_core::Database;
use dozer_core::Epoch;
use dozer_core::ExecutionError;
use dozer_core::Field;
use dozer_core::FieldDefinition;
use dozer_core::FieldType;
use dozer_core::NodeHandle;
use dozer_core::Operation;
use dozer_core::PortHandle;
use dozer_core::Record;
use dozer_core::Schema;
use dozer_core::StateOptions;
use dozer_core::StateWriter;
use dozer_core::Transaction;
use dozer_core::decode_checkpoint_value;
use dozer_core::SOURCE_ID_IDENTIFIER;

const PORT: PortHandle = 0;

fn key_schema() -> Schema {
    Schema::new(
        vec![
            FieldDefinition { name: "id".to_string(), typ: FieldType::UInt, nullable: false },
            FieldDefinition { name: "value".to_string(), typ: FieldType::UInt, nullable: false },
        ],
        vec![0],
    )
}

fn rec(id: u64, value: u64) -> Record {
    Record::new(vec![Field::UInt(id), Field::UInt(value)])
}

fn writer(retrieve_deletes: bool, retrieve_updates: bool) -> (StateWriter, Database) {
    let mut tx = Transaction::new();
    let meta_db = tx.create_database();
    let db = tx.create_database();
    let opts = StateOptions {
        db,
        retrieve_old_record_for_deletes: retrieve_deletes,
        retrieve_old_record_for_updates: retrieve_updates,
    };
    let sw = StateWriter::new(
        meta_db,
        vec![(PORT, opts)],
        tx,
        None,
        vec![(PORT, key_schema())],
        vec![],
    );
    (sw, db)
}

#[test]
fn stateless_port_passes_operation_through() {
    let mut tx = Transaction::new();
    let meta_db = tx.create_database();
    let mut sw = StateWriter::new(meta_db, vec![], tx, None, vec![], vec![]);
    let op = Operation::Insert { new: rec(1, 100) };
    let out = sw.store_op(op.clone(), PORT).unwrap();
    assert_eq!(out, op);
    let op2 = Operation::Delete { old: rec(7, 9) };
    let out2 = sw.store_op(op2.clone(), 42).unwrap();
    assert_eq!(out2, op2);
}

#[test]
fn delete_with_retrieve_old_returns_last_written_record() {
    let (mut sw, _db) = writer(true, false);
    sw.store_op(Operation::Insert { new: rec(1, 100) }, PORT).unwrap();
    // The caller supplies a stale copy with a different non-key field.
    let out = sw.store_op(Operation::Delete { old: rec(1, 999) }, PORT).unwrap();
    assert_eq!(out, Operation::Delete { old: rec(1, 100) });
}

#[test]
fn delete_without_retrieve_old_keeps_caller_value() {
    let (mut sw, _db) = writer(false, false);
    sw.store_op(Operation::Insert { new: rec(1, 100) }, PORT).unwrap();
    let out = sw.store_op(Operation::Delete { old: rec(1, 999) }, PORT).unwrap();
    assert_eq!(out, Operation::Delete { old: rec(1, 999) });
}

#[test]
fn update_without_retrieve_old_keeps_caller_old() {
    let (mut sw, _db) = writer(false, false);
    sw.store_op(Operation::Insert { new: rec(1, 100) }, PORT).unwrap();
    let out = sw
        .store_op(Operation::Update { old: rec(1, 555), new: rec(1, 200) }, PORT)
        .unwrap();
    assert_eq!(out, Operation::Update { old: rec(1, 555), new: rec(1, 200) });
}

#[test]
fn update_with_retrieve_old_returns_stored_record() {
    let (mut sw, _db) = writer(false, true);
    sw.store_op(Operation::Insert { new: rec(1, 100) }, PORT).unwrap();
    let out = sw
        .store_op(Operation::Update { old: rec(1, 555), new: rec(1, 200) }, PORT)
        .unwrap();
    assert_eq!(out, Operation::Update { old: rec(1, 100), new: rec(1, 200) });
}

#[test]
fn mandatory_retrieve_on_missing_key_is_record_not_found() {
    let (mut sw, _db) = writer(true, true);
    let del = sw.store_op(Operation::Delete { old: rec(5, 0) }, PORT);
    assert_eq!(del, Err(ExecutionError::RecordNotFound));
    let upd = sw.store_op(Operation::Update { old: rec(5, 0), new: rec(5, 1) }, PORT);
    assert_eq!(upd, Err(ExecutionError::RecordNotFound));
}

#[test]
fn undecodable_stored_value_is_serialization_error() {
    let (mut sw, db) = writer(true, false);
    sw.store_op(Operation::Insert { new: rec(1, 100) }, PORT).unwrap();
    // Clobber the stored value with bytes that are no record encoding.
    let key = rec(1, 100).get_key(&vec![0]);
    sw.tx.put(db, key, vec![0xff, 0xff]);
    let out = sw.store_op(Operation::Delete { old: rec(1, 100) }, PORT);
    assert_eq!(out, Err(ExecutionError::SerializationError));
}

#[test]
fn missing_output_schema_is_invalid_port() {
    let mut tx = Transaction::new();
    let meta_db = tx.create_database();
    let db = tx.create_database();
    let opts = StateOptions {
        db,
        retrieve_old_record_for_deletes: false,
        retrieve_old_record_for_updates: false,
    };
    let mut sw = StateWriter::new(meta_db, vec![(PORT, opts)], tx, None, vec![], vec![]);
    let out = sw.store_op(Operation::Insert { new: rec(1, 1) }, PORT);
    assert_eq!(out, Err(ExecutionError::InvalidPortHandle(PORT)));
}

#[test]
fn schema_map_is_complete_only_when_every_port_reported() {
    let mut tx = Transaction::new();
    let meta_db = tx.create_database();
    let sw = StateWriter::new(
        meta_db,
        vec![],
        tx,
        Some(vec![1, 2]),
        vec![],
        vec![(1, key_schema())],
    );
    assert!(sw.get_all_input_schemas().is_none());

    let mut tx2 = Transaction::new();
    let meta_db2 = tx2.create_database();
    let sw2 = StateWriter::new(
        meta_db2,
        vec![],
        tx2,
        Some(vec![1, 2]),
        vec![],
        vec![(1, key_schema()), (2, key_schema())],
    );
    let first = sw2.get_all_input_schemas().expect("all ports reported");
    let second = sw2.get_all_input_schemas().expect("still complete");
    assert_eq!(first, second);
    assert_eq!(first.len(), 2);
    assert_eq!(first[0].0, 1);
    assert_eq!(first[1].0, 2);
}

#[test]
fn no_declared_input_ports_means_no_schema_map() {
    let mut tx = Transaction::new();
    let meta_db = tx.create_database();
    let sw = StateWriter::new(meta_db, vec![], tx, None, vec![], vec![(1, key_schema())]);
    assert!(sw.get_all_input_schemas().is_none());
}

#[test]
fn checkpoint_entry_round_trips_through_metadata_table() {
    let (mut sw, _db) = writer(false, false);
    let source = NodeHandle::new(Some(1), b"src".to_vec());
    let epoch = Epoch::from(1, source.clone(), 5, 3);
    sw.store_commit_info(&epoch).unwrap();

    let mut key = vec![SOURCE_ID_IDENTIFIER];
    key.extend(source.to_bytes());
    let meta_db = Database { id: 0 };
    let stored = sw.tx.get(meta_db, &key).expect("entry persisted");
    assert_eq!(stored.len(), 16);
    assert_eq!(decode_checkpoint_value(&stored), Some((5, 3)));
}

#[test]
fn later_checkpoint_entry_overwrites_earlier_one_for_same_source() {
    let (mut sw, _db) = writer(false, false);
    let source = NodeHandle::new(None, b"s".to_vec());
    sw.store_commit_info(&Epoch::from(1, source.clone(), 5, 3)).unwrap();
    sw.store_commit_info(&Epoch::from(2, source.clone(), 9, 4)).unwrap();
    let mut key = vec![SOURCE_ID_IDENTIFIER];
    key.extend(source.to_bytes());
    let stored = sw.tx.get(Database { id: 0 }, &key).unwrap();
    assert_eq!(decode_checkpoint_value(&stored), Some((9, 4)));
}

#[test]
fn checkpoint_value_is_not_parsed_at_wrong_length() {
    assert_eq!(decode_checkpoint_value(&vec![0u8; 15]), None);
    assert_eq!(decode_checkpoint_value(&vec![0u8; 17]), None);
}
