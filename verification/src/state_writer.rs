//! The per-node state writer: it mutates a node's durable tables in
//! lock-step with the operations the node forwards, persists checkpoint
//! positions on commit, and reports when schema propagation is complete.

use vstd::prelude::*;

use crate::bytes::push_u64_be_bytes;
use crate::bytes::spec_u64_from_be_bytes;
use crate::bytes::spec_u64_to_be_bytes;
use crate::bytes::u64_from_be_bytes;
use crate::codec::decode_record;
use crate::codec::encode_record;
use crate::codec::lemma_record_bytes_round_trip;
use crate::codec::spec_decode_record;
use crate::codec::spec_record_bytes;
use crate::codec::spec_record_key;
use crate::codec::spec_record_wf;
use crate::storage::Transaction;
use crate::types::Database;
use crate::types::Epoch;
use crate::types::ExecutionError;
use crate::types::FieldV;
use crate::types::NodeHandleV;
use crate::types::Operation;
use crate::types::OperationV;
use crate::types::PortHandle;
use crate::types::Record;
use crate::types::Schema;
use crate::types::StateOptions;
use crate::types::spec_node_handle_bytes;

verus! {

/// The marker byte that opens every persisted checkpoint key; the source
/// identity's byte encoding follows it.
pub const SOURCE_ID_IDENTIFIER: u8 = 0;

/// First-match lookup in an association list keyed by port.
pub open spec fn spec_alist_get<T>(s: Seq<(PortHandle, T)>, port: PortHandle) -> Option<T>
    decreases s.len(),
{
    if s.len() == 0 {
        Option::None
    } else if s.first().0 == port {
        Option::Some(s.first().1)
    } else {
        spec_alist_get(s.drop_first(), port)
    }
}

pub proof fn lemma_alist_get_first_match<T>(s: Seq<(PortHandle, T)>, port: PortHandle, i: int)
    requires
        0 <= i < s.len(),
        s[i].0 == port,
        forall|j: int| 0 <= j < i ==> (#[trigger] s[j]).0 != port,
    ensures
        spec_alist_get(s, port) == Option::Some(s[i].1),
    decreases s.len(),
{
    if i == 0 {
        assert(s.first() == s[0]);
    } else {
        assert(s.first() == s[0] && s[0].0 != port);
        let s1 = s.drop_first();
        assert(forall|j: int| 0 <= j < i - 1 ==> (#[trigger] s1[j]).0 != port);
        assert(s1[i - 1] == s[i]);
        lemma_alist_get_first_match(s1, port, i - 1);
    }
}

pub proof fn lemma_alist_get_no_match<T>(s: Seq<(PortHandle, T)>, port: PortHandle)
    requires
        forall|j: int| 0 <= j < s.len() ==> (#[trigger] s[j]).0 != port,
    ensures
        spec_alist_get(s, port) is None,
    decreases s.len(),
{
    if s.len() > 0 {
        assert(s.first() == s[0]);
        let s1 = s.drop_first();
        assert(forall|j: int| 0 <= j < s1.len() ==> (#[trigger] s1[j]).0 != port);
        lemma_alist_get_no_match(s1, port);
    }
}

/// Scans `entries` for the first entry bound to `port`.
fn alist_get<T>(entries: &Vec<(PortHandle, T)>, port: PortHandle) -> (r: Option<&T>)
    ensures
        match r {
            Option::Some(v) => spec_alist_get(entries@, port) == Option::Some(*v) && exists|i: int|
                0 <= i < entries@.len() && entries@[i] == (port, *v),
            Option::None => spec_alist_get(entries@, port) is None,
        },
{
    let mut i: usize = 0;
    while i < entries.len()
        invariant
            i <= entries@.len(),
            forall|j: int| 0 <= j < i ==> (#[trigger] entries@[j]).0 != port,
        decreases entries@.len() - i,
    {
        if entries[i].0 == port {
            proof {
                lemma_alist_get_first_match(entries@, port, i as int);
            }
            assert(entries@[i as int] == (port, entries@[i as int].1));
            return Option::Some(&entries[i].1);
        }
        i += 1;
    }
    proof {
        lemma_alist_get_no_match(entries@, port);
    }
    Option::None
}

/// The persisted key of one source's checkpoint entry: the metadata marker
/// byte followed by the source identity's byte encoding.
pub open spec fn spec_commit_key(h: NodeHandleV) -> Seq<u8> {
    seq![SOURCE_ID_IDENTIFIER] + spec_node_handle_bytes(h)
}

/// The persisted value of one checkpoint entry: big-endian transaction id,
/// then big-endian sequence number, sixteen bytes in all.
pub open spec fn spec_checkpoint_value(txid: u64, seq_in_tx: u64) -> Seq<u8> {
    spec_u64_to_be_bytes(txid) + spec_u64_to_be_bytes(seq_in_tx)
}

/// The metadata table after one checkpoint entry per `(source, position)`
/// pair has been merged in, later entries overwriting earlier ones for the
/// same source.
pub open spec fn spec_apply_commit_details(
    m: Map<Seq<u8>, Seq<u8>>,
    details: Seq<(NodeHandleV, (u64, u64))>,
) -> Map<Seq<u8>, Seq<u8>>
    decreases details.len(),
{
    if details.len() == 0 {
        m
    } else {
        spec_apply_commit_details(m, details.drop_last()).insert(
            spec_commit_key(details.last().0),
            spec_checkpoint_value(details.last().1.0, details.last().1.1),
        )
    }
}

/// Reads a persisted checkpoint value back as `(txid, seq_in_tx)`; the value
/// must be exactly sixteen bytes.
pub fn decode_checkpoint_value(v: &Vec<u8>) -> (r: Option<(u64, u64)>)
    ensures
        v@.len() == 16 ==> r == Option::Some(
            (
                spec_u64_from_be_bytes(v@.subrange(0, 8)),
                spec_u64_from_be_bytes(v@.subrange(8, 16)),
            ),
        ),
        v@.len() != 16 ==> r is None,
{
    if v.len() == 16 {
        let a = u64_from_be_bytes(v, 0);
        let b = u64_from_be_bytes(v, 8);
        Option::Some((a, b))
    } else {
        Option::None
    }
}

/// A checkpoint entry written for position `(txid, seq_in_tx)` reads back as
/// exactly that position, as two big-endian eight-byte fields.
pub proof fn lemma_checkpoint_value_round_trip(txid: u64, seq_in_tx: u64)
    ensures
        spec_checkpoint_value(txid, seq_in_tx).len() == 16,
        spec_u64_from_be_bytes(spec_checkpoint_value(txid, seq_in_tx).subrange(0, 8)) == txid,
        spec_u64_from_be_bytes(spec_checkpoint_value(txid, seq_in_tx).subrange(8, 16))
            == seq_in_tx,
{
    let s = spec_checkpoint_value(txid, seq_in_tx);
    assert(s.subrange(0, 8) =~= spec_u64_to_be_bytes(txid));
    assert(s.subrange(8, 16) =~= spec_u64_to_be_bytes(seq_in_tx));
    crate::bytes::lemma_u64_be_bytes_round_trip(txid);
    crate::bytes::lemma_u64_be_bytes_round_trip(seq_in_tx);
}

/// What `store_op` does, stated over the mathematical values: the resulting
/// table state and the operation handed back, or the error.
pub open spec fn spec_store_op(
    tx: Seq<Map<Seq<u8>, Seq<u8>>>,
    dbs: Seq<(PortHandle, StateOptions)>,
    schemas: Seq<(PortHandle, Schema)>,
    op: OperationV,
    port: PortHandle,
) -> Result<(Seq<Map<Seq<u8>, Seq<u8>>>, OperationV), ExecutionError> {
    match spec_alist_get(dbs, port) {
        Option::None => Result::Ok((tx, op)),
        Option::Some(opts) => match spec_alist_get(schemas, port) {
            Option::None => Result::Err(ExecutionError::InvalidPortHandle(port)),
            Option::Some(schema) => {
                let pi = schema.primary_index@;
                let db = opts.db.id as int;
                match op {
                    OperationV::Insert { new } => {
                        let key = spec_record_key(new, pi);
                        Result::Ok(
                            (
                                tx.update(db, tx[db].insert(key, spec_record_bytes(new))),
                                OperationV::Insert { new },
                            ),
                        )
                    },
                    OperationV::Delete { old } => {
                        let key = spec_record_key(old, pi);
                        if opts.retrieve_old_record_for_deletes {
                            if tx[db].contains_key(key) {
                                match spec_decode_record(tx[db][key]) {
                                    Option::Some(stored) => Result::Ok(
                                        (
                                            tx.update(db, tx[db].remove(key)),
                                            OperationV::Delete { old: stored },
                                        ),
                                    ),
                                    Option::None => Result::Err(ExecutionError::SerializationError),
                                }
                            } else {
                                Result::Err(ExecutionError::RecordNotFound)
                            }
                        } else {
                            Result::Ok(
                                (tx.update(db, tx[db].remove(key)), OperationV::Delete { old }),
                            )
                        }
                    },
                    OperationV::Update { old, new } => {
                        let key = spec_record_key(old, pi);
                        let key_new = spec_record_key(new, pi);
                        let written = tx.update(db, tx[db].insert(key_new, spec_record_bytes(new)));
                        if opts.retrieve_old_record_for_updates {
                            if tx[db].contains_key(key) {
                                match spec_decode_record(tx[db][key]) {
                                    Option::Some(stored) => Result::Ok(
                                        (written, OperationV::Update { old: stored, new }),
                                    ),
                                    Option::None => Result::Err(ExecutionError::SerializationError),
                                }
                            } else {
                                Result::Err(ExecutionError::RecordNotFound)
                            }
                        } else {
                            Result::Ok((written, OperationV::Update { old, new }))
                        }
                    },
                }
            },
        },
    }
}

/// The primary-index positions a `store_op` call reads stay inside the
/// records it is given; an index past the end of a record is a
/// programming error in the operator graph.
pub open spec fn spec_store_op_keys_ok(
    dbs: Seq<(PortHandle, StateOptions)>,
    schemas: Seq<(PortHandle, Schema)>,
    op: OperationV,
    port: PortHandle,
) -> bool {
    match spec_alist_get(dbs, port) {
        Option::None => true,
        Option::Some(_) => match spec_alist_get(schemas, port) {
            Option::None => true,
            Option::Some(schema) => {
                let pi = schema.primary_index@;
                match op {
                    OperationV::Insert { new } => forall|i: int| 0 <= i < pi.len() ==> (
                    #[trigger] pi[i]) < new.len(),
                    OperationV::Delete { old } => forall|i: int| 0 <= i < pi.len() ==> (
                    #[trigger] pi[i]) < old.len(),
                    OperationV::Update { old, new } => (forall|i: int| 0 <= i < pi.len() ==> (
                    #[trigger] pi[i]) < old.len()) && (forall|i: int| 0 <= i < pi.len() ==> (
                    #[trigger] pi[i]) < new.len()),
                }
            },
        },
    }
}

/// Every declared input port has reported a schema.
pub open spec fn spec_schemas_complete(
    input_ports: Option<Seq<PortHandle>>,
    input_schemas: Seq<(PortHandle, Schema)>,
) -> bool {
    match input_ports {
        Option::Some(ports) => forall|i: int| 0 <= i < ports.len() ==> spec_alist_get(
            input_schemas, #[trigger] ports[i]) is Some,
        Option::None => false,
    }
}

/// Per-node writer of durable state: the bound tables per output port, the
/// schemas exchanged with each port, and the shared write transaction.
pub struct StateWriter {
    pub meta_db: Database,
    pub dbs: Vec<(PortHandle, StateOptions)>,
    pub output_schemas: Vec<(PortHandle, Schema)>,
    pub input_schemas: Vec<(PortHandle, Schema)>,
    pub input_ports: Option<Vec<PortHandle>>,
    pub tx: Transaction,
}

impl StateWriter {
    /// The declared input ports, as a mathematical value.
    pub open spec fn input_ports_view(self) -> Option<Seq<PortHandle>> {
        match self.input_ports {
            Option::Some(v) => Option::Some(v@),
            Option::None => Option::None,
        }
    }

    /// The transaction is coherent and every table handle the writer may
    /// touch exists in it.
    pub open spec fn wf(self) -> bool {
        &&& self.tx.wf()
        &&& self.meta_db.id < self.tx@.len()
        &&& forall|i: int| 0 <= i < self.dbs@.len() ==> (#[trigger] self.dbs@[i]).1.db.id
            < self.tx@.len()
    }

    /// The configuration fields are those of `other`; only the transaction
    /// contents may differ.
    pub open spec fn same_config(self, other: StateWriter) -> bool {
        &&& self.meta_db == other.meta_db
        &&& self.dbs@ == other.dbs@
        &&& self.output_schemas@ == other.output_schemas@
        &&& self.input_schemas@ == other.input_schemas@
        &&& self.input_ports_view() == other.input_ports_view()
    }

    pub fn new(
        meta_db: Database,
        dbs: Vec<(PortHandle, StateOptions)>,
        tx: Transaction,
        input_ports: Option<Vec<PortHandle>>,
        output_schemas: Vec<(PortHandle, Schema)>,
        input_schemas: Vec<(PortHandle, Schema)>,
    ) -> (r: Self)
        ensures
            r.meta_db == meta_db,
            r.dbs == dbs,
            r.output_schemas == output_schemas,
            r.input_schemas == input_schemas,
            r.input_ports == input_ports,
            r.tx == tx,
    {
        Self { meta_db, dbs, output_schemas, input_schemas, tx, input_ports }
    }

    /// Applies one operation to the table bound to `port` and hands back the
    /// operation to forward. On a stateless port (no bound table) the
    /// operation passes through unchanged. A mandatory retrieve-old replaces
    /// the caller-supplied `old` with the record currently stored under its
    /// key, and fails with a not-found error if nothing is stored there.
    pub fn store_op(&mut self, op: Operation, port: PortHandle) -> (r: Result<
        Operation,
        ExecutionError,
    >)
        requires
            old(self).wf(),
            spec_store_op_keys_ok(old(self).dbs@, old(self).output_schemas@, op@, port),
        ensures
            final(self).wf(),
            final(self).same_config(*old(self)),
            final(self).tx.committed() == old(self).tx.committed(),
            match spec_store_op(old(self).tx@, old(self).dbs@, old(self).output_schemas@, op@,
                port) {
                Result::Ok(t) => r matches Result::Ok(ro) && ro@ == t.1 && final(self).tx@ == t.0,
                Result::Err(e) => r == Result::Err::<Operation, ExecutionError>(e) && final(
                    self).tx@ == old(self).tx@,
            },
    {
        let opts: StateOptions = match alist_get(&self.dbs, port) {
            Option::None => {
                return Result::Ok(op);
            },
            Option::Some(o) => *o,
        };
        proof {
            let i = choose|i: int| 0 <= i < self.dbs@.len() && self.dbs@[i] == (port, opts);
            assert(self.dbs@[i].1.db.id < self.tx@.len());
        }
        let ghost tx0 = self.tx@;
        match alist_get(&self.output_schemas, port) {
            Option::None => Result::Err(ExecutionError::InvalidPortHandle(port)),
            Option::Some(schema) => {
                match op {
                    Operation::Insert { new } => {
                        let key = new.get_key(&schema.primary_index);
                        let value = encode_record(&new);
                        self.tx.put(opts.db, key, value);
                        Result::Ok(Operation::Insert { new })
                    },
                    Operation::Delete { old } => {
                        let key = old.get_key(&schema.primary_index);
                        let old2: Record = if opts.retrieve_old_record_for_deletes {
                            match self.tx.get(opts.db, &key) {
                                Option::None => {
                                    return Result::Err(ExecutionError::RecordNotFound);
                                },
                                Option::Some(bytes) => match decode_record(&bytes) {
                                    Option::None => {
                                        return Result::Err(ExecutionError::SerializationError);
                                    },
                                    Option::Some(rec) => rec,
                                },
                            }
                        } else {
                            old
                        };
                        self.tx.del(opts.db, &key);
                        Result::Ok(Operation::Delete { old: old2 })
                    },
                    Operation::Update { old, new } => {
                        let key = old.get_key(&schema.primary_index);
                        let key_new = new.get_key(&schema.primary_index);
                        let old2: Record = if opts.retrieve_old_record_for_updates {
                            match self.tx.get(opts.db, &key) {
                                Option::None => {
                                    return Result::Err(ExecutionError::RecordNotFound);
                                },
                                Option::Some(bytes) => match decode_record(&bytes) {
                                    Option::None => {
                                        return Result::Err(ExecutionError::SerializationError);
                                    },
                                    Option::Some(rec) => rec,
                                },
                            }
                        } else {
                            old
                        };
                        let value = encode_record(&new);
                        self.tx.put(opts.db, key_new, value);
                        Result::Ok(Operation::Update { old: old2, new })
                    },
                }
            },
        }
    }

    /// Persists one checkpoint entry per source position on the epoch, then
    /// commits the transaction and opens the next one: state written after
    /// this call is never part of the committed epoch.
    pub fn store_commit_info(&mut self, epoch_details: &Epoch) -> (r: Result<(), ExecutionError>)
        requires
            old(self).wf(),
        ensures
            final(self).wf(),
            final(self).same_config(*old(self)),
            r == Result::Ok::<(), ExecutionError>(()),
            final(self).tx@ == old(self).tx@.update(old(self).meta_db.id as int,
                spec_apply_commit_details(old(self).tx@[old(self).meta_db.id as int],
                epoch_details@.details)),
            final(self).tx.committed() == final(self).tx@,
    {
        let ghost tx0 = old(self).tx@;
        let ghost mid = old(self).meta_db.id as int;
        let mut i: usize = 0;
        proof {
            assert(epoch_details@.details.subrange(0, 0) =~= Seq::<(NodeHandleV, (u64,
            u64))>::empty());
            assert(tx0.update(mid, spec_apply_commit_details(tx0[mid],
                epoch_details@.details.subrange(0, 0))) =~= tx0);
        }
        while i < epoch_details.details.len()
            invariant
                i <= epoch_details.details@.len(),
                self.wf(),
                self.same_config(*old(self)),
                old(self).wf(),
                mid == old(self).meta_db.id as int,
                tx0 == old(self).tx@,
                self.tx.committed() == old(self).tx.committed(),
                self.tx@ == tx0.update(mid, spec_apply_commit_details(tx0[mid],
                    epoch_details@.details.subrange(0, i as int))),
            decreases epoch_details.details@.len() - i,
        {
            let entry = &epoch_details.details[i];
            let mut full_key: Vec<u8> = Vec::new();
            full_key.push(SOURCE_ID_IDENTIFIER);
            let mut nb = entry.0.to_bytes();
            full_key.append(&mut nb);
            let mut value: Vec<u8> = Vec::new();
            push_u64_be_bytes(&mut value, entry.1.0);
            push_u64_be_bytes(&mut value, entry.1.1);
            proof {
                assert(epoch_details@.details[i as int] == (entry.0@, entry.1));
                assert(full_key@ =~= spec_commit_key(entry.0@));
                assert(value@ =~= spec_checkpoint_value(entry.1.0, entry.1.1));
            }
            let ghost pre = self.tx@;
            self.tx.put(self.meta_db, full_key, value);
            proof {
                let sub1 = epoch_details@.details.subrange(0, i + 1);
                assert(sub1.drop_last() =~= epoch_details@.details.subrange(0, i as int));
                assert(sub1.last() == epoch_details@.details[i as int]);
                assert(pre[mid] == spec_apply_commit_details(tx0[mid],
                    epoch_details@.details.subrange(0, i as int)));
                assert(self.tx@ =~= tx0.update(mid, spec_apply_commit_details(tx0[mid], sub1)));
            }
            i += 1;
        }
        proof {
            assert(epoch_details@.details.subrange(0, epoch_details@.details.len() as int)
                =~= epoch_details@.details);
        }
        self.tx.commit_and_renew();
        Result::Ok(())
    }

    /// The accumulated input-port schema map, and only once every declared
    /// input port has reported one; `None` while propagation is incomplete
    /// or no input ports were declared.
    pub fn get_all_input_schemas(&self) -> (r: Option<Vec<(PortHandle, Schema)>>)
        ensures
            r is Some <==> spec_schemas_complete(self.input_ports_view(), self.input_schemas@),
            r matches Option::Some(v) ==> v@.len() == self.input_schemas@.len() && (forall|i: int|
                0 <= i < v@.len() ==> (#[trigger] v@[i]).0 == self.input_schemas@[i].0
                && v@[i].1@ == self.input_schemas@[i].1@),
    {
        let ports: &Vec<PortHandle> = match &self.input_ports {
            Option::Some(ports) => ports,
            Option::None => {
                return Option::None;
            },
        };
        let mut i: usize = 0;
        while i < ports.len()
            invariant
                i <= ports@.len(),
                self.input_ports matches Option::Some(p) && p@ == ports@,
                forall|j: int| 0 <= j < i ==> spec_alist_get(self.input_schemas@, (
                #[trigger] ports@[j])) is Some,
            decreases ports@.len() - i,
        {
            match alist_get(&self.input_schemas, ports[i]) {
                Option::None => {
                    return Option::None;
                },
                Option::Some(_) => {},
            }
            i += 1;
        }
        let mut out: Vec<(PortHandle, Schema)> = Vec::new();
        let mut j: usize = 0;
        while j < self.input_schemas.len()
            invariant
                j <= self.input_schemas@.len(),
                out@.len() == j,
                forall|k: int| 0 <= k < j ==> (#[trigger] out@[k]).0 == self.input_schemas@[k].0
                    && out@[k].1@ == self.input_schemas@[k].1@,
            decreases self.input_schemas@.len() - j,
        {
            let entry = &self.input_schemas[j];
            out.push((entry.0, entry.1.clone()));
            j += 1;
        }
        Option::Some(out)
    }
}

/// On a stateless port, storing an operation is the identity: the state is
/// untouched and the operation comes back unchanged.
pub proof fn lemma_store_op_stateless_passthrough(
    tx: Seq<Map<Seq<u8>, Seq<u8>>>,
    dbs: Seq<(PortHandle, StateOptions)>,
    schemas: Seq<(PortHandle, Schema)>,
    op: OperationV,
    port: PortHandle,
)
    requires
        spec_alist_get(dbs, port) is None,
    ensures
        spec_store_op(tx, dbs, schemas, op, port) == Result::Ok::<_, ExecutionError>((tx, op)),
{
}

/// A delete on a table configured with retrieve-old hands back the record
/// last written under the key, whatever field values the caller supplied in
/// `old`, and removes the key.
pub proof fn lemma_delete_retrieves_last_written(
    tx: Seq<Map<Seq<u8>, Seq<u8>>>,
    dbs: Seq<(PortHandle, StateOptions)>,
    schemas: Seq<(PortHandle, Schema)>,
    old_rec: Seq<FieldV>,
    stored: Seq<FieldV>,
    port: PortHandle,
)
    requires
        spec_alist_get(dbs, port) matches Option::Some(opts) && opts.retrieve_old_record_for_deletes
            && opts.db.id < tx.len(),
        spec_alist_get(schemas, port) is Some,
        spec_record_wf(stored),
        ({
            let opts = spec_alist_get(dbs, port).unwrap();
            let schema = spec_alist_get(schemas, port).unwrap();
            let key = spec_record_key(old_rec, schema.primary_index@);
            tx[opts.db.id as int].contains_key(key) && tx[opts.db.id as int][key]
                == spec_record_bytes(stored)
        }),
    ensures
        ({
            let opts = spec_alist_get(dbs, port).unwrap();
            let schema = spec_alist_get(schemas, port).unwrap();
            let key = spec_record_key(old_rec, schema.primary_index@);
            spec_store_op(tx, dbs, schemas, OperationV::Delete { old: old_rec }, port)
                == Result::Ok::<_, ExecutionError>(
                (
                    tx.update(opts.db.id as int, tx[opts.db.id as int].remove(key)),
                    OperationV::Delete { old: stored },
                ),
            )
        }),
{
    lemma_record_bytes_round_trip(stored);
}

/// An update on a table not configured with retrieve-old hands back exactly
/// the caller-supplied `old`.
pub proof fn lemma_update_keeps_caller_old(
    tx: Seq<Map<Seq<u8>, Seq<u8>>>,
    dbs: Seq<(PortHandle, StateOptions)>,
    schemas: Seq<(PortHandle, Schema)>,
    old_rec: Seq<FieldV>,
    new_rec: Seq<FieldV>,
    port: PortHandle,
)
    requires
        spec_alist_get(dbs, port) matches Option::Some(opts)
            && !opts.retrieve_old_record_for_updates,
        spec_alist_get(schemas, port) is Some,
    ensures
        ({
            let opts = spec_alist_get(dbs, port).unwrap();
            let schema = spec_alist_get(schemas, port).unwrap();
            let key_new = spec_record_key(new_rec, schema.primary_index@);
            spec_store_op(tx, dbs, schemas, OperationV::Update { old: old_rec, new: new_rec },
                port) == Result::Ok::<_, ExecutionError>(
                (
                    tx.update(opts.db.id as int, tx[opts.db.id as int].insert(key_new,
                    spec_record_bytes(new_rec))),
                    OperationV::Update { old: old_rec, new: new_rec },
                ),
            )
        }),
{
}

/// The completed schema map is a function of the reported schemas alone:
/// any two values meeting `get_all_input_schemas`' contract agree entry by
/// entry, so repeated calls after completion keep returning the same map.
pub proof fn lemma_schema_map_determined(
    s: Seq<(PortHandle, Schema)>,
    v1: Seq<(PortHandle, Schema)>,
    v2: Seq<(PortHandle, Schema)>,
)
    requires
        v1.len() == s.len(),
        forall|i: int| 0 <= i < v1.len() ==> (#[trigger] v1[i]).0 == s[i].0 && v1[i].1@ == s[i].1@,
        v2.len() == s.len(),
        forall|i: int| 0 <= i < v2.len() ==> (#[trigger] v2[i]).0 == s[i].0 && v2[i].1@ == s[i].1@,
    ensures
        v1.len() == v2.len(),
        forall|i: int| 0 <= i < v1.len() ==> (#[trigger] v1[i]).0 == v2[i].0 && v1[i].1@
            == v2[i].1@,
{
}

} // verus!
