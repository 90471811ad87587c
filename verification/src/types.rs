//! The data model of the dataflow engine: node and port identities, typed
//! record fields, schemas with a primary index, the operation variants that
//! flow between nodes, and the epoch value that identifies one global
//! checkpoint.

use vstd::prelude::*;

verus! {

/// Identifier of one input or output connection point of a node.
pub type PortHandle = u16;

/// Unique identity of a DAG node, used as a map key and as part of persisted
/// checkpoint keys.
#[derive(Debug, PartialEq, Eq)]
pub struct NodeHandle {
    pub ns: Option<u16>,
    pub id: Vec<u8>,
}

/// Mathematical value of a [`NodeHandle`].
pub struct NodeHandleV {
    pub ns: Option<u16>,
    pub id: Seq<u8>,
}

impl View for NodeHandle {
    type V = NodeHandleV;

    open spec fn view(&self) -> NodeHandleV {
        NodeHandleV { ns: self.ns, id: self.id@ }
    }
}

/// Byte encoding of a node identity, as used in persisted checkpoint keys:
/// one tag byte for the namespace (absent or present), the namespace in
/// big-endian order when present, then the identity bytes.
pub open spec fn spec_node_handle_bytes(h: NodeHandleV) -> Seq<u8> {
    (match h.ns {
        Option::None => seq![0u8],
        Option::Some(n) => seq![1u8, (n >> 8) as u8, n as u8],
    }) + h.id
}

impl NodeHandle {
    pub fn new(ns: Option<u16>, id: Vec<u8>) -> (r: Self)
        ensures
            r@ == (NodeHandleV { ns, id: id@ }),
    {
        NodeHandle { ns, id }
    }

    /// The identity's byte encoding, the part of a checkpoint key that names
    /// the source it belongs to.
    pub fn to_bytes(&self) -> (r: Vec<u8>)
        ensures
            r@ == spec_node_handle_bytes(self@),
    {
        let mut out: Vec<u8> = Vec::new();
        match self.ns {
            Option::None => out.push(0u8),
            Option::Some(n) => {
                out.push(1u8);
                out.push((n >> 8) as u8);
                out.push(n as u8);
            },
        }
        let mut i: usize = 0;
        while i < self.id.len()
            invariant
                i <= self.id@.len(),
                out@ == (match self@.ns {
                    Option::None => seq![0u8],
                    Option::Some(n) => seq![1u8, (n >> 8) as u8, n as u8],
                }) + self.id@.subrange(0, i as int),
            decreases self.id@.len() - i,
        {
            out.push(self.id[i]);
            assert(self.id@.subrange(0, i + 1) =~= self.id@.subrange(0, i as int).push(
                self.id@[i as int]));
            i += 1;
        }
        assert(self.id@.subrange(0, self.id@.len() as int) =~= self.id@);
        assert(out@ =~= spec_node_handle_bytes(self@));
        out
    }
}

impl Clone for NodeHandle {
    fn clone(&self) -> (res: Self)
        ensures
            res@ == self@,
    {
        let mut id: Vec<u8> = Vec::new();
        let mut i: usize = 0;
        while i < self.id.len()
            invariant
                i <= self.id@.len(),
                id@ == self.id@.subrange(0, i as int),
            decreases self.id@.len() - i,
        {
            id.push(self.id[i]);
            assert(self.id@.subrange(0, i + 1) =~= self.id@.subrange(0, i as int).push(
                self.id@[i as int]));
            i += 1;
        }
        assert(id@ =~= self.id@);
        NodeHandle { ns: self.ns, id }
    }
}

/// One typed value inside a record.
#[derive(Debug, PartialEq, Eq)]
pub enum Field {
    Null,
    Int(i64),
    UInt(u64),
    Bytes(Vec<u8>),
}

/// Mathematical value of a [`Field`].
pub enum FieldV {
    Null,
    Int(i64),
    UInt(u64),
    Bytes(Seq<u8>),
}

impl View for Field {
    type V = FieldV;

    open spec fn view(&self) -> FieldV {
        match self {
            Field::Null => FieldV::Null,
            Field::Int(i) => FieldV::Int(*i),
            Field::UInt(u) => FieldV::UInt(*u),
            Field::Bytes(b) => FieldV::Bytes(b@),
        }
    }
}

impl Clone for Field {
    fn clone(&self) -> (res: Self)
        ensures
            res@ == self@,
    {
        match self {
            Field::Null => Field::Null,
            Field::Int(i) => Field::Int(*i),
            Field::UInt(u) => Field::UInt(*u),
            Field::Bytes(b) => {
                let mut out: Vec<u8> = Vec::new();
                let mut i: usize = 0;
                while i < b.len()
                    invariant
                        i <= b@.len(),
                        out@ == b@.subrange(0, i as int),
                    decreases b@.len() - i,
                {
                    out.push(b[i]);
                    assert(b@.subrange(0, i + 1) =~= b@.subrange(0, i as int).push(b@[i as int]));
                    i += 1;
                }
                assert(out@ =~= b@);
                Field::Bytes(out)
            },
        }
    }
}

/// An ordered tuple of typed field values. Its key is the projection named by
/// a schema's primary index.
#[derive(Debug, PartialEq, Eq)]
pub struct Record {
    pub values: Vec<Field>,
}

impl View for Record {
    type V = Seq<FieldV>;

    open spec fn view(&self) -> Seq<FieldV> {
        self.values@.map_values(|f: Field| f@)
    }
}

impl Record {
    pub fn new(values: Vec<Field>) -> (r: Self)
        ensures
            r@ == values@.map_values(|f: Field| f@),
    {
        Record { values }
    }
}

impl Clone for Record {
    fn clone(&self) -> (res: Self)
        ensures
            res@ == self@,
    {
        let mut values: Vec<Field> = Vec::new();
        let mut i: usize = 0;
        while i < self.values.len()
            invariant
                i <= self.values@.len(),
                values@.len() == i,
                forall|j: int| 0 <= j < i ==> values@[j]@ == self.values@[j]@,
            decreases self.values@.len() - i,
        {
            values.push(self.values[i].clone());
            i += 1;
        }
        let res = Record { values };
        assert(res@ =~= self@);
        res
    }
}

/// The type a field is declared with in a schema.
#[derive(Clone, Copy, Debug, PartialEq, Eq, Structural)]
pub enum FieldType {
    Int,
    UInt,
    Bytes,
    Text,
}

/// One field declaration of a schema: a name, a type and whether the field
/// may be null.
#[derive(Debug, PartialEq, Eq)]
pub struct FieldDefinition {
    pub name: String,
    pub typ: FieldType,
    pub nullable: bool,
}

/// Mathematical value of a [`FieldDefinition`].
pub struct FieldDefinitionV {
    pub name: Seq<char>,
    pub typ: FieldType,
    pub nullable: bool,
}

impl View for FieldDefinition {
    type V = FieldDefinitionV;

    open spec fn view(&self) -> FieldDefinitionV {
        FieldDefinitionV { name: self.name@, typ: self.typ, nullable: self.nullable }
    }
}

impl Clone for FieldDefinition {
    fn clone(&self) -> (res: Self)
        ensures
            res@ == self@,
    {
        FieldDefinition { name: self.name.clone(), typ: self.typ, nullable: self.nullable }
    }
}

/// An ordered list of field definitions plus the primary index: the ordered
/// field positions whose values form a record's key.
#[derive(Debug, PartialEq, Eq)]
pub struct Schema {
    pub fields: Vec<FieldDefinition>,
    pub primary_index: Vec<usize>,
}

/// Mathematical value of a [`Schema`].
pub struct SchemaV {
    pub fields: Seq<FieldDefinitionV>,
    pub primary_index: Seq<usize>,
}

impl View for Schema {
    type V = SchemaV;

    open spec fn view(&self) -> SchemaV {
        SchemaV {
            fields: self.fields@.map_values(|f: FieldDefinition| f@),
            primary_index: self.primary_index@,
        }
    }
}

impl Schema {
    pub fn new(fields: Vec<FieldDefinition>, primary_index: Vec<usize>) -> (r: Self)
        ensures
            r.fields == fields,
            r.primary_index == primary_index,
    {
        Schema { fields, primary_index }
    }
}

impl Clone for Schema {
    fn clone(&self) -> (res: Self)
        ensures
            res@ == self@,
    {
        let mut fields: Vec<FieldDefinition> = Vec::new();
        let mut i: usize = 0;
        while i < self.fields.len()
            invariant
                i <= self.fields@.len(),
                fields@.len() == i,
                forall|j: int| 0 <= j < i ==> fields@[j]@ == self.fields@[j]@,
            decreases self.fields@.len() - i,
        {
            fields.push(self.fields[i].clone());
            i += 1;
        }
        let mut primary_index: Vec<usize> = Vec::new();
        let mut i: usize = 0;
        while i < self.primary_index.len()
            invariant
                i <= self.primary_index@.len(),
                primary_index@ == self.primary_index@.subrange(0, i as int),
            decreases self.primary_index@.len() - i,
        {
            primary_index.push(self.primary_index[i]);
            assert(self.primary_index@.subrange(0, i + 1) =~= self.primary_index@.subrange(
                0, i as int).push(self.primary_index@[i as int]));
            i += 1;
        }
        assert(primary_index@ =~= self.primary_index@);
        let res = Schema { fields, primary_index };
        assert(res@.fields =~= self@.fields);
        res
    }
}

/// A row-level change event produced by upstream logic. For `Update` and
/// `Delete`, `old` identifies the previously stored record by key.
#[derive(Debug, PartialEq, Eq)]
pub enum Operation {
    Insert { new: Record },
    Update { old: Record, new: Record },
    Delete { old: Record },
}

/// Mathematical value of an [`Operation`].
pub enum OperationV {
    Insert { new: Seq<FieldV> },
    Update { old: Seq<FieldV>, new: Seq<FieldV> },
    Delete { old: Seq<FieldV> },
}

impl View for Operation {
    type V = OperationV;

    open spec fn view(&self) -> OperationV {
        match self {
            Operation::Insert { new } => OperationV::Insert { new: new@ },
            Operation::Update { old, new } => OperationV::Update { old: old@, new: new@ },
            Operation::Delete { old } => OperationV::Delete { old: old@ },
        }
    }
}

impl Clone for Operation {
    fn clone(&self) -> (res: Self)
        ensures
            res@ == self@,
    {
        match self {
            Operation::Insert { new } => Operation::Insert { new: new.clone() },
            Operation::Update { old, new } => Operation::Update {
                old: old.clone(),
                new: new.clone(),
            },
            Operation::Delete { old } => Operation::Delete { old: old.clone() },
        }
    }
}

/// Identity of one global checkpoint: the epoch id together with, per
/// contributing source, that source's upstream transaction id and sequence
/// number at the moment of the cut.
#[derive(Debug, PartialEq, Eq)]
pub struct Epoch {
    pub id: u64,
    pub details: Vec<(NodeHandle, (u64, u64))>,
}

/// Mathematical value of an [`Epoch`].
pub struct EpochV {
    pub id: u64,
    pub details: Seq<(NodeHandleV, (u64, u64))>,
}

impl View for Epoch {
    type V = EpochV;

    open spec fn view(&self) -> EpochV {
        EpochV {
            id: self.id,
            details: self.details@.map_values(|p: (NodeHandle, (u64, u64))| (p.0@, p.1)),
        }
    }
}

impl Epoch {
    /// The epoch value one source forwards downstream: the epoch id and that
    /// source's own position.
    pub fn from(id: u64, node_handle: NodeHandle, txid: u64, seq_in_tx: u64) -> (r: Self)
        ensures
            r@.id == id,
            r@.details =~= seq![(node_handle@, (txid, seq_in_tx))],
    {
        let mut details: Vec<(NodeHandle, (u64, u64))> = Vec::new();
        details.push((node_handle, (txid, seq_in_tx)));
        Epoch { id, details }
    }
}

impl Clone for Epoch {
    fn clone(&self) -> (res: Self)
        ensures
            res@.id == self@.id,
            res@.details == self@.details,
    {
        let mut details: Vec<(NodeHandle, (u64, u64))> = Vec::new();
        let mut i: usize = 0;
        while i < self.details.len()
            invariant
                i <= self.details@.len(),
                details@.len() == i,
                forall|j: int| 0 <= j < i ==> details@[j].0@ == self.details@[j].0@
                    && details@[j].1 == self.details@[j].1,
            decreases self.details@.len() - i,
        {
            let entry = &self.details[i];
            details.push((entry.0.clone(), entry.1));
            i += 1;
        }
        let res = Epoch { id: self.id, details };
        assert(res@.details =~= self@.details);
        res
    }
}

/// The wire-level variant set sent over channels: the three data operations
/// extended with the two in-band control signals.
#[derive(Debug, PartialEq, Eq)]
pub enum ExecutorOperation {
    Insert { new: Record },
    Update { old: Record, new: Record },
    Delete { old: Record },
    Commit { epoch_details: Epoch },
    Terminate,
}

/// Mathematical value of an [`ExecutorOperation`].
pub enum ExecutorOperationV {
    Insert { new: Seq<FieldV> },
    Update { old: Seq<FieldV>, new: Seq<FieldV> },
    Delete { old: Seq<FieldV> },
    Commit { epoch_details: EpochV },
    Terminate,
}

impl View for ExecutorOperation {
    type V = ExecutorOperationV;

    open spec fn view(&self) -> ExecutorOperationV {
        match self {
            ExecutorOperation::Insert { new } => ExecutorOperationV::Insert { new: new@ },
            ExecutorOperation::Update { old, new } => ExecutorOperationV::Update {
                old: old@,
                new: new@,
            },
            ExecutorOperation::Delete { old } => ExecutorOperationV::Delete { old: old@ },
            ExecutorOperation::Commit { epoch_details } => ExecutorOperationV::Commit {
                epoch_details: epoch_details@,
            },
            ExecutorOperation::Terminate => ExecutorOperationV::Terminate,
        }
    }
}

/// The wire-level operation that one [`Operation`] becomes when it is
/// forwarded downstream.
pub open spec fn spec_exec_op_of(op: OperationV) -> ExecutorOperationV {
    match op {
        OperationV::Insert { new } => ExecutorOperationV::Insert { new },
        OperationV::Update { old, new } => ExecutorOperationV::Update { old, new },
        OperationV::Delete { old } => ExecutorOperationV::Delete { old },
    }
}

impl Clone for ExecutorOperation {
    fn clone(&self) -> (res: Self)
        ensures
            res@ == self@,
    {
        match self {
            ExecutorOperation::Insert { new } => ExecutorOperation::Insert { new: new.clone() },
            ExecutorOperation::Update { old, new } => ExecutorOperation::Update {
                old: old.clone(),
                new: new.clone(),
            },
            ExecutorOperation::Delete { old } => ExecutorOperation::Delete { old: old.clone() },
            ExecutorOperation::Commit { epoch_details } => {
                let e = epoch_details.clone();
                let res = ExecutorOperation::Commit { epoch_details: e };
                assert(res@ == self@);
                res
            },
            ExecutorOperation::Terminate => ExecutorOperation::Terminate,
        }
    }
}

/// A typed identifier for one durable table inside the transactional store.
#[derive(Clone, Copy, Debug, PartialEq, Eq, Structural)]
pub struct Database {
    pub id: usize,
}

/// Per-output-port state configuration: the bound table and whether `Delete`
/// and `Update` must re-fetch the current record before emitting.
#[derive(Clone, Copy, Debug, PartialEq, Eq, Structural)]
pub struct StateOptions {
    pub db: Database,
    pub retrieve_old_record_for_deletes: bool,
    pub retrieve_old_record_for_updates: bool,
}

/// How the planning layer, which produces the operator graph this substrate
/// executes, treats the primary key of an input schema when projecting it:
/// carried through, dropped, or forced onto the output.
#[derive(Clone, Copy, Debug, PartialEq, Eq, Structural)]
pub enum PrimaryKeyAction {
    Retain,
    Drop,
    Force,
}

/// The failures the execution substrate reports. None are retried locally:
/// recovery restarts a node from the last committed epoch.
#[derive(Clone, Copy, Debug, PartialEq, Eq, Structural)]
pub enum ExecutionError {
    /// A send or operation referenced a port with no registered consumer.
    InvalidPortHandle(PortHandle),
    /// A mandatory retrieve-old found no stored record under the key.
    RecordNotFound,
    /// A stored value could not be decoded as a record.
    SerializationError,
    /// A lower-level channel send failed because the peer is gone.
    InternalError,
}

} // verus!
