use crossbeam::channel::unbounded;

use dozer_core::ChannelManager;
use dozer_core::Database;
use dozer_core::Epoch;
use dozer_core::EpochManager;
use dozer_core::ExecutionError;
use dozer_core::ExecutorOperation;
use dozer_core::Field;
use dozer_core::FieldDefinition;
use dozer_core::FieldType;
use dozer_core::NodeHandle;
use dozer_core::OpSender;
use dozer_core::Operation;
use dozer_core::PortHandle;
use dozer_core::ProcessorChannelManager;
use dozer_core::Record;
use dozer_core::Schema;
use dozer_core::SharedEpochManager;
use dozer_core::SourceChannelManager;
use dozer_core::StateOptions;
use dozer_core::StateWriter;
use dozer_core::Transaction;
use dozer_core::decode_checkpoint_value;
use dozer_core::SOURCE_ID_IDENTIFIER;

const PORT: PortHandle = 0;

fn key_schema() -> Schema {
    Schema::new(
        vec![
            FieldDefinition { name: "id".to_string(), typ: FieldType::UInt, nullable: false },
            FieldDefinition { name: "value".to_string(), typ: FieldType::UInt, nullable: false },
        ],
        vec![0],
    )
}

fn rec(id: u64, value: u64) -> Record {
    Record::new(vec![Field::UInt(id), Field::UInt(value)])
}

fn state_writer(retrieve_deletes: bool) -> StateWriter {
    let mut tx = Transaction::new();
    let meta_db = tx.create_database();
    let db = tx.create_database();
    let opts = StateOptions {
        db,
        retrieve_old_record_for_deletes: retrieve_deletes,
        retrieve_old_record_for_updates: false,
    };
    StateWriter::new(meta_db, vec![(PORT, opts)], tx, None, vec![(PORT, key_schema())], vec![])
}

fn node(name: &[u8]) -> NodeHandle {
    NodeHandle::new(Some(1), name.to_vec())
}

#[test]
fn single_source_forced_commit_end_to_end() {
    let (s, r) = unbounded::<ExecutorOperation>();
    let senders = vec![(PORT, vec![OpSender::new(s)])];
    let em = SharedEpochManager::new(EpochManager::new(1, 100));
    let source = node(b"source");
    let mut scm = SourceChannelManager::new(source.clone(), senders, state_writer(false), true, em);

    let fwd1 = scm
        .send_and_trigger_commit_if_needed(1, 1, Operation::Insert { new: rec(1, 10) }, PORT, false)
        .unwrap();
    assert!(!fwd1);
    let fwd2 = scm
        .send_and_trigger_commit_if_needed(1, 2, Operation::Insert { new: rec(2, 20) }, PORT, true)
        .unwrap();
    // The forced cut is reported back once the barrier releases, which it
    // does immediately with a single live source.
    assert!(fwd2);

    // Both inserts are durably stored under their keys in the bound table.
    let data_db = Database { id: 1 };
    let key1 = rec(1, 10).get_key(&vec![0]);
    let key2 = rec(2, 20).get_key(&vec![0]);
    assert!(scm.manager.state_writer.tx.get(data_db, &key1).is_some());
    assert!(scm.manager.state_writer.tx.get(data_db, &key2).is_some());

    // The source's position was persisted under its identity key.
    let mut meta_key = vec![SOURCE_ID_IDENTIFIER];
    meta_key.extend(source.to_bytes());
    let stored = scm.manager.state_writer.tx.get(Database { id: 0 }, &meta_key).unwrap();
    assert_eq!(decode_checkpoint_value(&stored), Some((1, 2)));

    // Downstream sees the two inserts, then a commit with epoch id 1
    // carrying the source's last position.
    assert_eq!(r.try_recv().unwrap(), ExecutorOperation::Insert { new: rec(1, 10) });
    assert_eq!(r.try_recv().unwrap(), ExecutorOperation::Insert { new: rec(2, 20) });
    match r.try_recv().unwrap() {
        ExecutorOperation::Commit { epoch_details } => {
            assert_eq!(epoch_details.id, 1);
            assert_eq!(epoch_details.details.len(), 1);
            assert_eq!(epoch_details.details[0].0, source);
            assert_eq!(epoch_details.details[0].1, (1, 2));
        },
        other => panic!("expected a commit signal, got {:?}", other),
    }
    assert!(r.try_recv().is_err());
}

#[test]
fn delete_on_retrieve_old_table_end_to_end() {
    let (s, r) = unbounded::<ExecutorOperation>();
    let senders = vec![(PORT, vec![OpSender::new(s)])];
    let mut cm = ChannelManager::new(node(b"n"), senders, state_writer(true), true);

    cm.send_op(Operation::Insert { new: rec(1, 77) }, PORT).unwrap();
    // The delete carries a stale old value; the table is configured to
    // re-fetch, so downstream sees the stored record.
    cm.send_op(Operation::Delete { old: rec(1, 0) }, PORT).unwrap();

    assert_eq!(r.try_recv().unwrap(), ExecutorOperation::Insert { new: rec(1, 77) });
    assert_eq!(r.try_recv().unwrap(), ExecutorOperation::Delete { old: rec(1, 77) });

    // The key is gone afterward, and a second delete fails as a protocol
    // violation.
    let key1 = rec(1, 0).get_key(&vec![0]);
    assert!(cm.state_writer.tx.get(Database { id: 1 }, &key1).is_none());
    let again = cm.send_op(Operation::Delete { old: rec(1, 0) }, PORT);
    assert_eq!(again, Err(ExecutionError::RecordNotFound));
}

#[test]
fn send_to_unknown_port_is_invalid_port() {
    let (s, _r) = unbounded::<ExecutorOperation>();
    let senders = vec![(PORT, vec![OpSender::new(s)])];
    let mut cm = ChannelManager::new(node(b"n"), senders, state_writer(false), false);
    let out = cm.send_op(Operation::Insert { new: rec(1, 1) }, 9);
    assert_eq!(out, Err(ExecutionError::InvalidPortHandle(9)));
}

#[test]
fn send_on_disconnected_channel_is_internal_error() {
    let (s, r) = unbounded::<ExecutorOperation>();
    drop(r);
    let senders = vec![(PORT, vec![OpSender::new(s)])];
    let mut cm = ChannelManager::new(node(b"n"), senders, state_writer(false), false);
    let out = cm.send_op(Operation::Insert { new: rec(1, 1) }, PORT);
    assert_eq!(out, Err(ExecutionError::InternalError));
}

#[test]
fn operation_is_duplicated_to_every_consumer_of_a_port() {
    let (s1, r1) = unbounded::<ExecutorOperation>();
    let (s2, r2) = unbounded::<ExecutorOperation>();
    let senders = vec![(PORT, vec![OpSender::new(s1), OpSender::new(s2)])];
    let mut cm = ChannelManager::new(node(b"n"), senders, state_writer(false), false);
    cm.send_op(Operation::Insert { new: rec(3, 30) }, PORT).unwrap();
    assert_eq!(r1.try_recv().unwrap(), ExecutorOperation::Insert { new: rec(3, 30) });
    assert_eq!(r2.try_recv().unwrap(), ExecutorOperation::Insert { new: rec(3, 30) });
}

#[test]
fn terminate_reaches_every_consumer_of_every_port() {
    let (s1, r1) = unbounded::<ExecutorOperation>();
    let (s2, r2) = unbounded::<ExecutorOperation>();
    let senders = vec![(0, vec![OpSender::new(s1)]), (1, vec![OpSender::new(s2)])];
    let em = SharedEpochManager::new(EpochManager::new(1, 100));
    let mut scm = SourceChannelManager::new(node(b"s"), senders, state_writer(false), false, em);
    scm.terminate().unwrap();
    assert_eq!(r1.try_recv().unwrap(), ExecutorOperation::Terminate);
    assert_eq!(r2.try_recv().unwrap(), ExecutorOperation::Terminate);
}

#[test]
fn processor_relays_commit_and_terminate_downstream() {
    let (s, r) = unbounded::<ExecutorOperation>();
    let senders = vec![(PORT, vec![OpSender::new(s)])];
    let mut pcm = ProcessorChannelManager::new(node(b"p"), senders, state_writer(false), true);

    pcm.send(Operation::Insert { new: rec(1, 5) }, PORT).unwrap();
    let upstream_epoch = Epoch::from(3, node(b"upstream-source"), 8, 2);
    pcm.store_and_send_commit(&upstream_epoch).unwrap();
    pcm.send_term_and_wait().unwrap();

    assert_eq!(r.try_recv().unwrap(), ExecutorOperation::Insert { new: rec(1, 5) });
    match r.try_recv().unwrap() {
        ExecutorOperation::Commit { epoch_details } => {
            assert_eq!(epoch_details.id, 3);
            assert_eq!(epoch_details.details[0].1, (8, 2));
        },
        other => panic!("expected the relayed commit, got {:?}", other),
    }
    assert_eq!(r.try_recv().unwrap(), ExecutorOperation::Terminate);
}

#[test]
fn heartbeat_without_force_does_not_cut() {
    let (s, r) = unbounded::<ExecutorOperation>();
    let senders = vec![(PORT, vec![OpSender::new(s)])];
    let em = SharedEpochManager::new(EpochManager::new(1, 100));
    let mut scm = SourceChannelManager::new(node(b"s"), senders, state_writer(false), false, em);
    let forced = scm.trigger_commit_if_needed(false).unwrap();
    assert!(!forced);
    assert!(r.try_recv().is_err());
}
