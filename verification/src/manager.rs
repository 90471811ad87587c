//! The per-node forwarding protocol. A channel manager routes a logical
//! operation through the state writer (when the node is stateful), converts
//! it to the wire-level operation and hands it to every consumer subscribed
//! to the port, and distributes commit and termination signals to all
//! downstream channels. Source nodes wrap it with the epoch-cut protocol;
//! interior nodes wrap it with plain relaying.

use vstd::prelude::*;

use crate::channel::OpSender;
use crate::epoch::ClosedEpoch;
use crate::epoch::SharedEpochManager;
use crate::epoch::barrier_wait;
use crate::state_writer::StateWriter;
use crate::state_writer::spec_alist_get;
use crate::state_writer::spec_apply_commit_details;
use crate::state_writer::spec_store_op;
use crate::state_writer::spec_store_op_keys_ok;
use crate::state_writer::lemma_alist_get_first_match;
use crate::state_writer::lemma_alist_get_no_match;
use crate::types::Epoch;
use crate::types::EpochV;
use crate::types::ExecutionError;
use crate::types::ExecutorOperation;
use crate::types::ExecutorOperationV;
use crate::types::NodeHandle;
use crate::types::NodeHandleV;
use crate::types::Operation;
use crate::types::OperationV;
use crate::types::PortHandle;
use crate::types::spec_exec_op_of;

verus! {

/// No two sender sets are bound to the same port.
pub open spec fn spec_ports_unique<T>(s: Seq<(PortHandle, T)>) -> bool {
    forall|i: int, j: int| 0 <= i < j < s.len() ==> (#[trigger] s[i]).0 != (#[trigger] s[j]).0
}

/// The send histories of one port's sender set.
pub open spec fn spec_logs_of(v: Seq<OpSender>) -> Seq<Seq<ExecutorOperationV>> {
    v.map_values(|s: OpSender| s@)
}

/// Every history extended by the same operation.
pub open spec fn spec_push_all(
    logs: Seq<Seq<ExecutorOperationV>>,
    msg: ExecutorOperationV,
) -> Seq<Seq<ExecutorOperationV>> {
    logs.map_values(|l: Seq<ExecutorOperationV>| l.push(msg))
}

/// Same ports in the same order, with the same number of consumers each.
pub open spec fn spec_same_shape(
    a: Seq<(PortHandle, Vec<OpSender>)>,
    b: Seq<(PortHandle, Vec<OpSender>)>,
) -> bool {
    &&& b.len() == a.len()
    &&& forall|i: int| 0 <= i < a.len() ==> (#[trigger] b[i]).0 == a[i].0 && b[i].1@.len()
        == a[i].1@.len()
}

/// No history changed.
pub open spec fn spec_logs_unchanged(
    a: Seq<(PortHandle, Vec<OpSender>)>,
    b: Seq<(PortHandle, Vec<OpSender>)>,
) -> bool {
    &&& spec_same_shape(a, b)
    &&& forall|i: int| 0 <= i < a.len() ==> spec_logs_of((#[trigger] b[i]).1@) == spec_logs_of(
        a[i].1@)
}

/// Exactly the consumers of `port` got `msg`, once each; everything else is
/// unchanged.
pub open spec fn spec_port_pushed(
    a: Seq<(PortHandle, Vec<OpSender>)>,
    b: Seq<(PortHandle, Vec<OpSender>)>,
    port: PortHandle,
    msg: ExecutorOperationV,
) -> bool {
    &&& spec_same_shape(a, b)
    &&& forall|i: int| 0 <= i < a.len() ==> spec_logs_of((#[trigger] b[i]).1@) == (if a[i].0
        == port {
        spec_push_all(spec_logs_of(a[i].1@), msg)
    } else {
        spec_logs_of(a[i].1@)
    })
}

/// Every consumer of every port got `msg`, once each.
pub open spec fn spec_all_pushed(
    a: Seq<(PortHandle, Vec<OpSender>)>,
    b: Seq<(PortHandle, Vec<OpSender>)>,
    msg: ExecutorOperationV,
) -> bool {
    &&& spec_same_shape(a, b)
    &&& forall|i: int| 0 <= i < a.len() ==> spec_logs_of((#[trigger] b[i]).1@) == spec_push_all(
        spec_logs_of(a[i].1@), msg)
}

/// The consumers of `port` got `m1` and then everyone got `m2`, in that
/// order on every channel: the commit signal stands after the data that
/// precedes it.
pub open spec fn spec_pushed_then_all(
    a: Seq<(PortHandle, Vec<OpSender>)>,
    b: Seq<(PortHandle, Vec<OpSender>)>,
    port: PortHandle,
    m1: ExecutorOperationV,
    m2: ExecutorOperationV,
) -> bool {
    &&& spec_same_shape(a, b)
    &&& forall|i: int| 0 <= i < a.len() ==> spec_logs_of((#[trigger] b[i]).1@) == spec_push_all(
        if a[i].0 == port {
            spec_push_all(spec_logs_of(a[i].1@), m1)
        } else {
            spec_logs_of(a[i].1@)
        },
        m2,
    )
}

/// Sends one wire-level operation to every consumer of one port: with one
/// consumer the value moves, with more it is duplicated once per consumer,
/// every field preserved.
fn send_to_all(senders: &mut Vec<OpSender>, op: ExecutorOperation) -> (r: Result<
    (),
    ExecutionError,
>)
    ensures
        final(senders)@.len() == old(senders)@.len(),
        r is Ok ==> spec_logs_of(final(senders)@) == spec_push_all(spec_logs_of(old(senders)@),
            op@),
        r is Err ==> r == Result::Err::<(), ExecutionError>(ExecutionError::InternalError) && (
        forall|k: int| 0 <= k < old(senders)@.len() ==> final(senders)@[k]@ == old(
            senders)@[k]@ || final(senders)@[k]@ == old(senders)@[k]@.push(op@)),
{
    let ghost opv = op@;
    if senders.len() == 1 {
        let s = &mut senders[0];
        match s.send(op) {
            Ok(()) => {
                proof {
                    assert(spec_logs_of(senders@) =~= spec_push_all(spec_logs_of(old(senders)@),
                        opv));
                }
                Ok(())
            },
            Err(_) => Err(ExecutionError::InternalError),
        }
    } else {
        let mut j: usize = 0;
        while j < senders.len()
            invariant
                j <= senders@.len(),
                senders@.len() == old(senders)@.len(),
                opv == op@,
                forall|k: int| 0 <= k < j ==> (#[trigger] senders@[k])@ == old(senders)@[k]@.push(
                    opv),
                forall|k: int| j <= k < senders@.len() ==> (#[trigger] senders@[k])@ == old(
                    senders)@[k]@,
            decreases senders@.len() - j,
        {
            let c = op.clone();
            let s = &mut senders[j];
            match s.send(c) {
                Ok(()) => {},
                Err(_) => {
                    return Err(ExecutionError::InternalError);
                },
            }
            j += 1;
        }
        proof {
            assert(spec_logs_of(senders@) =~= spec_push_all(spec_logs_of(old(senders)@), opv));
        }
        Ok(())
    }
}

/// Per-node manager of the downstream channels: the owning node's identity,
/// one sender set per output port, the node's state writer, and whether the
/// node keeps durable state at all.
pub struct ChannelManager {
    pub owner: NodeHandle,
    pub senders: Vec<(PortHandle, Vec<OpSender>)>,
    pub state_writer: StateWriter,
    pub stateful: bool,
}

/// What the state writer makes of the operation: on a stateless node the
/// state is untouched and the operation is forwarded as given.
pub open spec fn spec_store_result(cm: ChannelManager, op: OperationV, port: PortHandle) -> Result<
    (Seq<Map<Seq<u8>, Seq<u8>>>, OperationV),
    ExecutionError,
> {
    if cm.stateful {
        spec_store_op(cm.state_writer.tx@, cm.state_writer.dbs@, cm.state_writer.output_schemas@,
            op, port)
    } else {
        Result::Ok((cm.state_writer.tx@, op))
    }
}

/// The durable and visible effects of one commit broadcast for epoch `ep`:
/// the checkpoint entries persisted and committed, and the commit signal on
/// every channel after everything sent before it.
pub open spec fn spec_commit_effects(
    before: ChannelManager,
    after: ChannelManager,
    ep: EpochV,
) -> bool {
    &&& after.state_writer.tx@ == before.state_writer.tx@.update(
        before.state_writer.meta_db.id as int,
        spec_apply_commit_details(
            before.state_writer.tx@[before.state_writer.meta_db.id as int],
            ep.details,
        ),
    )
    &&& after.state_writer.tx.committed() == after.state_writer.tx@
    &&& spec_all_pushed(before.senders@, after.senders@,
        ExecutorOperationV::Commit { epoch_details: ep })
}

/// Neither the tables nor any channel history moved between the two states.
pub open spec fn spec_manager_quiet(before: ChannelManager, after: ChannelManager) -> bool {
    &&& after.state_writer.tx@ == before.state_writer.tx@
    &&& after.state_writer.tx.committed() == before.state_writer.tx.committed()
    &&& spec_logs_unchanged(before.senders@, after.senders@)
}

/// The state writer stored the operation from `before`'s state and exactly
/// the consumers of `port` received its wire-level form.
pub open spec fn spec_sent_ok(
    before: ChannelManager,
    after: ChannelManager,
    op: OperationV,
    port: PortHandle,
) -> bool {
    match spec_store_result(before, op, port) {
        Result::Ok(t) => {
            &&& after.state_writer.tx@ == t.0
            &&& after.state_writer.tx.committed() == before.state_writer.tx.committed()
            &&& spec_port_pushed(before.senders@, after.senders@, port, spec_exec_op_of(t.1))
        },
        Result::Err(_) => false,
    }
}

/// One source's commit under epoch `id`, taken from the state whose tables
/// were `sent_tx` right after the data send: the source's own position is
/// persisted and committed under the metadata key, and every channel
/// carries the data (on `port`) and then the commit signal.
pub open spec fn spec_source_commit(
    before: ChannelManager,
    after: ChannelManager,
    sent_tx: Seq<Map<Seq<u8>, Seq<u8>>>,
    port: PortHandle,
    m1: ExecutorOperationV,
    src: NodeHandleV,
    txid: u64,
    seq_in_tx: u64,
    id: u64,
) -> bool {
    let meta = before.state_writer.meta_db.id as int;
    let ep = EpochV { id, details: seq![(src, (txid, seq_in_tx))] };
    &&& after.state_writer.tx@ == sent_tx.update(meta, spec_apply_commit_details(sent_tx[meta],
        ep.details))
    &&& after.state_writer.tx.committed() == after.state_writer.tx@
    &&& spec_pushed_then_all(before.senders@, after.senders@, port, m1,
        (ExecutorOperationV::Commit { epoch_details: ep }))
}

/// Pushing `m1` at one port and then `m2` everywhere leaves every history
/// with `m1` before `m2`.
pub proof fn lemma_compose_pushed(
    a: Seq<(PortHandle, Vec<OpSender>)>,
    b: Seq<(PortHandle, Vec<OpSender>)>,
    c: Seq<(PortHandle, Vec<OpSender>)>,
    port: PortHandle,
    m1: ExecutorOperationV,
    m2: ExecutorOperationV,
)
    requires
        spec_port_pushed(a, b, port, m1),
        spec_all_pushed(b, c, m2),
    ensures
        spec_pushed_then_all(a, c, port, m1, m2),
{
}

/// Pushing at one port and then moving nothing is still just the one push.
pub proof fn lemma_compose_quiet(
    a: Seq<(PortHandle, Vec<OpSender>)>,
    b: Seq<(PortHandle, Vec<OpSender>)>,
    c: Seq<(PortHandle, Vec<OpSender>)>,
    port: PortHandle,
    m1: ExecutorOperationV,
)
    requires
        spec_port_pushed(a, b, port, m1),
        spec_logs_unchanged(b, c),
    ensures
        spec_port_pushed(a, c, port, m1),
{
}

impl ChannelManager {
    pub open spec fn wf(self) -> bool {
        &&& self.state_writer.wf()
        &&& spec_ports_unique(self.senders@)
    }

    /// Everything but the transaction contents and the channel histories is
    /// that of `other`.
    pub open spec fn same_config(self, other: ChannelManager) -> bool {
        &&& self.owner@ == other.owner@
        &&& self.stateful == other.stateful
        &&& self.state_writer.same_config(other.state_writer)
        &&& spec_same_shape(other.senders@, self.senders@)
    }

    pub fn new(
        owner: NodeHandle,
        senders: Vec<(PortHandle, Vec<OpSender>)>,
        state_writer: StateWriter,
        stateful: bool,
    ) -> (r: Self)
        ensures
            r.owner == owner,
            r.senders == senders,
            r.state_writer == state_writer,
            r.stateful == stateful,
    {
        Self { owner, senders, state_writer, stateful }
    }

    /// Routes the operation through the state writer when the node is
    /// stateful, so that persisted state always reflects exactly what is
    /// forwarded, then sends the wire-level form to every consumer of
    /// `port_id`; an unknown port is an invalid-port error, found after the
    /// state write as in the storing step's contract.
    pub fn send_op(&mut self, op: Operation, port_id: PortHandle) -> (r: Result<
        (),
        ExecutionError,
    >)
        requires
            old(self).wf(),
            old(self).stateful ==> spec_store_op_keys_ok(old(self).state_writer.dbs@,
                old(self).state_writer.output_schemas@, op@, port_id),
        ensures
            final(self).wf(),
            final(self).same_config(*old(self)),
            match spec_store_result(*old(self), op@, port_id) {
                Result::Err(e) => r == Result::Err::<(), ExecutionError>(e) && spec_manager_quiet(
                    *old(self), *final(self)),
                Result::Ok(t) => {
                    &&& final(self).state_writer.tx@ == t.0
                    &&& final(self).state_writer.tx.committed()
                        == old(self).state_writer.tx.committed()
                    &&& (spec_alist_get(old(self).senders@, port_id) is None ==> r
                        == Result::Err::<(), ExecutionError>(ExecutionError::InvalidPortHandle(
                        port_id)) && spec_logs_unchanged(old(self).senders@, final(self).senders@))
                    &&& (r is Ok ==> spec_alist_get(old(self).senders@, port_id) is Some
                        && spec_port_pushed(old(self).senders@, final(self).senders@, port_id,
                        spec_exec_op_of(t.1)))
                    &&& (spec_alist_get(old(self).senders@, port_id) is Some && r is Err ==> r
                        == Result::Err::<(), ExecutionError>(ExecutionError::InternalError))
                },
            },
            r is Ok ==> spec_sent_ok(*old(self), *final(self), op@, port_id),
    {
        let op2: Operation;
        if self.stateful {
            match self.state_writer.store_op(op, port_id) {
                Ok(o) => {
                    op2 = o;
                },
                Err(e) => {
                    return Err(e);
                },
            }
        } else {
            op2 = op;
        }
        let mut i: usize = 0;
        let mut found: Option<usize> = Option::None;
        while i < self.senders.len()
            invariant
                i <= self.senders@.len(),
                match found {
                    Option::Some(fi) => fi < i && self.senders@[fi as int].0 == port_id && (forall|
                        j: int,
                    | 0 <= j < fi ==> (#[trigger] self.senders@[j]).0 != port_id),
                    Option::None => forall|j: int| 0 <= j < i ==> (#[trigger] self.senders@[j]).0
                        != port_id,
                },
            decreases self.senders@.len() - i,
        {
            if found.is_none() && self.senders[i].0 == port_id {
                found = Option::Some(i);
            }
            i += 1;
        }
        match found {
            Option::None => {
                proof {
                    lemma_alist_get_no_match(self.senders@, port_id);
                }
                Err(ExecutionError::InvalidPortHandle(port_id))
            },
            Option::Some(fi) => {
                proof {
                    lemma_alist_get_first_match(self.senders@, port_id, fi as int);
                }
                let exec_op = match op2 {
                    Operation::Insert { new } => ExecutorOperation::Insert { new },
                    Operation::Update { old, new } => ExecutorOperation::Update { old, new },
                    Operation::Delete { old } => ExecutorOperation::Delete { old },
                };
                let ghost senders_mid = self.senders@;
                let ghost msg = exec_op@;
                let r = send_to_all(&mut self.senders[fi].1, exec_op);
                match r {
                    Ok(()) => {
                        proof {
                            assert forall|k: int| 0 <= k < senders_mid.len() implies spec_logs_of(
                                (#[trigger] self.senders@[k]).1@) == (if senders_mid[k].0
                                == port_id {
                                spec_push_all(spec_logs_of(senders_mid[k].1@), msg)
                            } else {
                                spec_logs_of(senders_mid[k].1@)
                            }) by {
                                if k != fi as int && senders_mid[k].0 == port_id {
                                    assert(false);
                                }
                            }
                        }
                        Ok(())
                    },
                    Err(e) => Err(e),
                }
            },
        }
    }

    /// Sends the terminate control signal to every consumer of every output
    /// port, once each, FIFO-ordered after all data previously sent on the
    /// same channel; the clean-shutdown signal of the DAG.
    pub fn send_term_and_wait(&mut self) -> (r: Result<(), ExecutionError>)
        requires
            old(self).wf(),
        ensures
            final(self).wf(),
            final(self).same_config(*old(self)),
            final(self).state_writer.tx@ == old(self).state_writer.tx@,
            final(self).state_writer.tx.committed() == old(self).state_writer.tx.committed(),
            r is Ok ==> spec_all_pushed(old(self).senders@, final(self).senders@,
                ExecutorOperationV::Terminate),
            r is Err ==> r == Result::Err::<(), ExecutionError>(ExecutionError::InternalError),
    {
        let mut i: usize = 0;
        while i < self.senders.len()
            invariant
                i <= self.senders@.len(),
                old(self).wf(),
                self.state_writer == old(self).state_writer,
                self.owner == old(self).owner,
                self.stateful == old(self).stateful,
                self.senders@.len() == old(self).senders@.len(),
                forall|k: int| 0 <= k < old(self).senders@.len() ==> (
                #[trigger] self.senders@[k]).0 == old(self).senders@[k].0
                    && self.senders@[k].1@.len() == old(self).senders@[k].1@.len(),
                forall|k: int| 0 <= k < i ==> spec_logs_of((#[trigger] self.senders@[k]).1@)
                    == spec_push_all(spec_logs_of(old(self).senders@[k].1@),
                    ExecutorOperationV::Terminate),
                forall|k: int| i <= k < old(self).senders@.len() ==> (
                #[trigger] self.senders@[k]).1 == old(self).senders@[k].1,
            decreases self.senders@.len() - i,
        {
            match send_to_all(&mut self.senders[i].1, ExecutorOperation::Terminate) {
                Ok(()) => {},
                Err(e) => {
                    return Err(e);
                },
            }
            i += 1;
        }
        Ok(())
    }

    /// Persists checkpoint metadata for the epoch through the state writer,
    /// committing and renewing the transaction, then broadcasts a commit
    /// signal carrying the full epoch to every consumer of every port, in
    /// the same FIFO-after-data order as regular operations.
    pub fn store_and_send_commit(&mut self, epoch_details: &Epoch) -> (r: Result<
        (),
        ExecutionError,
    >)
        requires
            old(self).wf(),
        ensures
            final(self).wf(),
            final(self).same_config(*old(self)),
            final(self).state_writer.tx@ == old(self).state_writer.tx@.update(
                old(self).state_writer.meta_db.id as int,
                spec_apply_commit_details(
                    old(self).state_writer.tx@[old(self).state_writer.meta_db.id as int],
                    epoch_details@.details,
                ),
            ),
            final(self).state_writer.tx.committed() == final(self).state_writer.tx@,
            r is Ok ==> spec_commit_effects(*old(self), *final(self), epoch_details@),
            r is Err ==> r == Result::Err::<(), ExecutionError>(ExecutionError::InternalError),
    {
        match self.state_writer.store_commit_info(epoch_details) {
            Ok(()) => {},
            Err(e) => {
                return Err(e);
            },
        }
        let ghost sw_mid = self.state_writer;
        let mut i: usize = 0;
        while i < self.senders.len()
            invariant
                i <= self.senders@.len(),
                old(self).wf(),
                self.state_writer == sw_mid,
                sw_mid.wf(),
                sw_mid.same_config(old(self).state_writer),
                sw_mid.tx@ == old(self).state_writer.tx@.update(
                    old(self).state_writer.meta_db.id as int,
                    spec_apply_commit_details(
                        old(self).state_writer.tx@[old(self).state_writer.meta_db.id as int],
                        epoch_details@.details,
                    ),
                ),
                sw_mid.tx.committed() == sw_mid.tx@,
                self.owner == old(self).owner,
                self.stateful == old(self).stateful,
                self.senders@.len() == old(self).senders@.len(),
                forall|k: int| 0 <= k < old(self).senders@.len() ==> (
                #[trigger] self.senders@[k]).0 == old(self).senders@[k].0
                    && self.senders@[k].1@.len() == old(self).senders@[k].1@.len(),
                forall|k: int| 0 <= k < i ==> spec_logs_of((#[trigger] self.senders@[k]).1@)
                    == spec_push_all(spec_logs_of(old(self).senders@[k].1@),
                    ExecutorOperationV::Commit { epoch_details: epoch_details@ }),
                forall|k: int| i <= k < old(self).senders@.len() ==> (
                #[trigger] self.senders@[k]).1 == old(self).senders@[k].1,
            decreases self.senders@.len() - i,
        {
            let signal = ExecutorOperation::Commit { epoch_details: epoch_details.clone() };
            proof {
                assert(signal@ == (ExecutorOperationV::Commit { epoch_details: epoch_details@ }));
            }
            match send_to_all(&mut self.senders[i].1, signal) {
                Ok(()) => {},
                Err(e) => {
                    return Err(e);
                },
            }
            i += 1;
        }
        Ok(())
    }
}

/// The channel manager of a DAG source node: it tracks the source's current
/// upstream position and drives the epoch-cut protocol against the shared
/// coordinator.
pub struct SourceChannelManager {
    pub source_handle: NodeHandle,
    pub manager: ChannelManager,
    pub curr_txid: u64,
    pub curr_seq_in_tx: u64,
    pub epoch_manager: SharedEpochManager,
}

impl SourceChannelManager {
    pub open spec fn wf(self) -> bool {
        self.manager.wf()
    }

    pub fn new(
        owner: NodeHandle,
        senders: Vec<(PortHandle, Vec<OpSender>)>,
        state_writer: StateWriter,
        stateful: bool,
        epoch_manager: SharedEpochManager,
    ) -> (r: Self)
        ensures
            r.source_handle@ == owner@,
            r.manager.owner@ == owner@,
            r.manager.senders == senders,
            r.manager.state_writer == state_writer,
            r.manager.stateful == stateful,
            r.curr_txid == 0,
            r.curr_seq_in_tx == 0,
    {
        let manager = ChannelManager::new(owner.clone(), senders, state_writer, stateful);
        Self { manager, curr_txid: 0, curr_seq_in_tx: 0, source_handle: owner, epoch_manager }
    }

    /// Contributes `advance` operations to the shared coordinator. If the
    /// coordinator serves back a cut epoch, this source persists its own
    /// position under that epoch id, broadcasts the commit signal, and then
    /// blocks on the round's barrier until every live source has reached
    /// the same boundary; the returned flag reports whether the cut was
    /// forced.
    fn advance_and_trigger_commit_if_needed(&mut self, advance: u16, force: bool) -> (r: Result<
        bool,
        ExecutionError,
    >)
        requires
            old(self).wf(),
        ensures
            final(self).wf(),
            final(self).manager.same_config(old(self).manager),
            final(self).source_handle@ == old(self).source_handle@,
            final(self).curr_txid == old(self).curr_txid,
            final(self).curr_seq_in_tx == old(self).curr_seq_in_tx,
            (match r {
                Result::Ok(b) => (b == false && spec_manager_quiet(old(self).manager,
                    final(self).manager)) || (exists|id: u64|
                    spec_commit_effects(old(self).manager, final(self).manager,
                    EpochV {
                        id,
                        details: seq![
                            (
                                old(self).source_handle@,
                                (old(self).curr_txid, old(self).curr_seq_in_tx),
                            ),
                        ],
                    })),
                Result::Err(e) => e == ExecutionError::InternalError,
            }),
    {
        let cut: Option<ClosedEpoch> = self.epoch_manager.advance(&self.source_handle, advance,
            force);
        match cut {
            Option::Some(closed) => {
                let ep = Epoch::from(closed.id, self.source_handle.clone(), self.curr_txid,
                    self.curr_seq_in_tx);
                match self.manager.store_and_send_commit(&ep) {
                    Ok(()) => {},
                    Err(e) => {
                        return Err(e);
                    },
                }
                barrier_wait(&closed.barrier);
                Ok(closed.forced)
            },
            Option::None => Ok(false),
        }
    }

    /// A pure heartbeat: contributes no operation but still lets a forced or
    /// due cut proceed.
    pub fn trigger_commit_if_needed(&mut self, force: bool) -> (r: Result<bool, ExecutionError>)
        requires
            old(self).wf(),
        ensures
            final(self).wf(),
            final(self).manager.same_config(old(self).manager),
            final(self).source_handle@ == old(self).source_handle@,
            final(self).curr_txid == old(self).curr_txid,
            final(self).curr_seq_in_tx == old(self).curr_seq_in_tx,
            (match r {
                Result::Ok(b) => (b == false && spec_manager_quiet(old(self).manager,
                    final(self).manager)) || (exists|id: u64|
                    spec_commit_effects(old(self).manager, final(self).manager,
                    EpochV {
                        id,
                        details: seq![
                            (
                                old(self).source_handle@,
                                (old(self).curr_txid, old(self).curr_seq_in_tx),
                            ),
                        ],
                    })),
                Result::Err(e) => e == ExecutionError::InternalError,
            }),
    {
        self.advance_and_trigger_commit_if_needed(0, force)
    }

    /// Records `(txid, seq_in_tx)` as this source's current position,
    /// forwards the operation (state write plus downstream send), then
    /// contributes one operation to the epoch coordinator, cutting and
    /// committing if the round is due or forced.
    pub fn send_and_trigger_commit_if_needed(
        &mut self,
        txid: u64,
        seq_in_tx: u64,
        op: Operation,
        port: PortHandle,
        force: bool,
    ) -> (r: Result<bool, ExecutionError>)
        requires
            old(self).wf(),
            old(self).manager.stateful ==> spec_store_op_keys_ok(
                old(self).manager.state_writer.dbs@,
                old(self).manager.state_writer.output_schemas@,
                op@,
                port,
            ),
        ensures
            final(self).wf(),
            final(self).manager.same_config(old(self).manager),
            final(self).source_handle@ == old(self).source_handle@,
            final(self).curr_txid == txid,
            final(self).curr_seq_in_tx == seq_in_tx,
            r is Ok ==> (match spec_store_result(old(self).manager, op@, port) {
                Result::Ok(t) => (r == Result::Ok::<bool, ExecutionError>(false) && final(
                    self).manager.state_writer.tx@ == t.0 && spec_port_pushed(
                    old(self).manager.senders@,
                    final(self).manager.senders@,
                    port,
                    spec_exec_op_of(t.1),
                )) || (exists|id: u64|
                    #[trigger] spec_source_commit(old(self).manager, final(self).manager, t.0, port,
                    spec_exec_op_of(t.1), old(self).source_handle@, txid, seq_in_tx, id)),
                Result::Err(_) => false,
            }),
            r matches Err(e) ==> (match spec_store_result(old(self).manager, op@, port) {
                Result::Err(e2) => e == e2,
                Result::Ok(_) => e == ExecutionError::InvalidPortHandle(port) || e
                    == ExecutionError::InternalError,
            }),
    {
        self.curr_txid = txid;
        self.curr_seq_in_tx = seq_in_tx;
        match self.manager.send_op(op, port) {
            Ok(()) => {},
            Err(e) => {
                return Err(e);
            },
        }
        let ghost mid = self.manager;
        let r = self.advance_and_trigger_commit_if_needed(1, force);
        proof {
            if r is Ok {
                assert(spec_sent_ok(old(self).manager, mid, op@, port));
                let t = spec_store_result(old(self).manager, op@, port).unwrap();
                let m1 = spec_exec_op_of(t.1);
                let b = r.unwrap();
                let dets = seq![(old(self).source_handle@, (txid, seq_in_tx))];
                if b == false && spec_manager_quiet(mid, self.manager) {
                    lemma_compose_quiet(old(self).manager.senders@, mid.senders@,
                        self.manager.senders@, port, m1);
                } else {
                    let id = choose|id: u64|
                        spec_commit_effects(mid, self.manager, EpochV { id, details: dets });
                    lemma_compose_pushed(old(self).manager.senders@, mid.senders@,
                        self.manager.senders@, port, m1,
                        (ExecutorOperationV::Commit {
                            epoch_details: EpochV { id, details: dets },
                        }));
                    assert(spec_source_commit(old(self).manager, self.manager, t.0, port, m1,
                        old(self).source_handle@, txid, seq_in_tx, id));
                }
            }
        }
        r
    }

    /// Sends termination downstream without touching the epoch coordinator:
    /// shutdown does not require a final consistent epoch.
    pub fn terminate(&mut self) -> (r: Result<(), ExecutionError>)
        requires
            old(self).wf(),
        ensures
            final(self).wf(),
            final(self).manager.same_config(old(self).manager),
            final(self).manager.state_writer.tx@ == old(self).manager.state_writer.tx@,
            r is Ok ==> spec_all_pushed(old(self).manager.senders@, final(self).manager.senders@,
                ExecutorOperationV::Terminate),
            r is Err ==> r == Result::Err::<(), ExecutionError>(ExecutionError::InternalError),
    {
        self.manager.send_term_and_wait()
    }
}

/// The channel manager of an interior DAG node: it forwards what operator
/// logic emits and republishes the commit and terminate signals it receives
/// from upstream, preserving FIFO relative to data; it never originates an
/// epoch.
pub struct ProcessorChannelManager {
    pub manager: ChannelManager,
}

impl ProcessorChannelManager {
    pub open spec fn wf(self) -> bool {
        self.manager.wf()
    }

    pub fn new(
        owner: NodeHandle,
        senders: Vec<(PortHandle, Vec<OpSender>)>,
        state_writer: StateWriter,
        stateful: bool,
    ) -> (r: Self)
        ensures
            r.manager.owner == owner,
            r.manager.senders == senders,
            r.manager.state_writer == state_writer,
            r.manager.stateful == stateful,
    {
        Self { manager: ChannelManager::new(owner, senders, state_writer, stateful) }
    }

    /// Republishes an upstream commit signal toward this node's own
    /// consumers, persisting the epoch's checkpoint entries on the way.
    pub fn store_and_send_commit(&mut self, epoch_details: &Epoch) -> (r: Result<
        (),
        ExecutionError,
    >)
        requires
            old(self).wf(),
        ensures
            final(self).wf(),
            final(self).manager.same_config(old(self).manager),
            final(self).manager.state_writer.tx.committed() == final(self).manager.state_writer.tx@,
            r is Ok ==> spec_commit_effects(old(self).manager, final(self).manager,
                epoch_details@),
            r is Err ==> r == Result::Err::<(), ExecutionError>(ExecutionError::InternalError),
    {
        self.manager.store_and_send_commit(epoch_details)
    }

    /// Republishes an upstream terminate signal toward this node's own
    /// consumers.
    pub fn send_term_and_wait(&mut self) -> (r: Result<(), ExecutionError>)
        requires
            old(self).wf(),
        ensures
            final(self).wf(),
            final(self).manager.same_config(old(self).manager),
            final(self).manager.state_writer.tx@ == old(self).manager.state_writer.tx@,
            r is Ok ==> spec_all_pushed(old(self).manager.senders@, final(self).manager.senders@,
                ExecutorOperationV::Terminate),
            r is Err ==> r == Result::Err::<(), ExecutionError>(ExecutionError::InternalError),
    {
        self.manager.send_term_and_wait()
    }

    /// Forwards one operator-emitted operation downstream.
    pub fn send(&mut self, op: Operation, port: PortHandle) -> (r: Result<(), ExecutionError>)
        requires
            old(self).wf(),
            old(self).manager.stateful ==> spec_store_op_keys_ok(
                old(self).manager.state_writer.dbs@,
                old(self).manager.state_writer.output_schemas@,
                op@,
                port,
            ),
        ensures
            final(self).wf(),
            final(self).manager.same_config(old(self).manager),
            r is Ok ==> spec_sent_ok(old(self).manager, final(self).manager, op@, port),
            match spec_store_result(old(self).manager, op@, port) {
                Result::Err(e) => r == Result::Err::<(), ExecutionError>(e) && spec_manager_quiet(
                    old(self).manager, final(self).manager),
                Result::Ok(t) => final(self).manager.state_writer.tx@ == t.0,
            },
    {
        self.manager.send_op(op, port)
    }
}

} // verus!
