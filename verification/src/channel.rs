//! The downstream side of a node: one sender per subscribed consumer.
//! Channels are the only connection between nodes; each is strictly FIFO,
//! so a sender is modeled together with the history of operations handed to
//! it, oldest first. Everything sent later on the same channel stands later
//! in the history.

use vstd::prelude::*;

use crossbeam::channel::Sender;

use crate::types::ExecutorOperation;
use crate::types::ExecutorOperationV;

verus! {

/// Relies on crossbeam-channel's `Sender`: the sending half of a FIFO
/// channel, declared so that it can stand in fields and signatures.
#[verifier::external_type_specification]
#[verifier::external_body]
#[verifier::reject_recursive_types(T)]
pub struct ExSender<T>(Sender<T>);

/// Relies on crossbeam-channel's Sender::send: the message is enqueued on
/// the channel, blocking while a bounded channel is full, unless every
/// receiver is gone, in which case the message itself comes back.
#[verifier::external_body]
fn channel_send(s: &Sender<ExecutorOperation>, op: ExecutorOperation) -> (r: Result<
    (),
    ExecutorOperation,
>)
    ensures
        r matches Err(e) ==> e == op,
{
    match s.send(op) {
        Ok(()) => Ok(()),
        Err(e) => Err(e.0),
    }
}

/// One output channel to a downstream consumer, abstracted as the history
/// of operations successfully handed to it.
pub struct OpSender {
    pub inner: Sender<ExecutorOperation>,
    pub log: Ghost<Seq<ExecutorOperationV>>,
}

impl View for OpSender {
    type V = Seq<ExecutorOperationV>;

    open spec fn view(&self) -> Seq<ExecutorOperationV> {
        self.log@
    }
}

impl OpSender {
    /// Wraps a channel sender on which nothing has been sent yet.
    pub fn new(inner: Sender<ExecutorOperation>) -> (r: Self)
        ensures
            r@ == Seq::<ExecutorOperationV>::empty(),
    {
        OpSender { inner, log: Ghost(Seq::empty()) }
    }

    /// Hands one wire-level operation to the channel: on success the history
    /// grows by exactly that operation, in send order; on a disconnected
    /// channel the history is unchanged and the message comes back.
    pub fn send(&mut self, op: ExecutorOperation) -> (r: Result<(), ExecutorOperation>)
        ensures
            r is Ok ==> final(self)@ == old(self)@.push(op@),
            r matches Err(e) ==> final(self)@ == old(self)@ && e == op,
    {
        let ghost opv = op@;
        let r = channel_send(&self.inner, op);
        match r {
            Ok(()) => {
                self.log = Ghost(self.log@.push(opv));
                Ok(())
            },
            Err(e) => Err(e),
        }
    }
}

} // verus!
