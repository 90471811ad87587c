//! The process-wide epoch coordinator. All source nodes share one manager;
//! each source contributes an operation count, and when the accumulated
//! count crosses the configured threshold, or a cut is forced, the manager
//! assigns the next epoch id, builds a rendezvous barrier sized to the live
//! sources, and serves that same epoch to every source that calls during the
//! round. A source that receives a cut epoch persists its position,
//! broadcasts the commit signal, and then blocks on the barrier until every
//! live source has reached the same boundary.

use vstd::prelude::*;

use std::sync::Arc;
use std::sync::Barrier;
use vstd::rwlock::RwLock;
use vstd::rwlock::RwLockPredicate;

use crate::types::NodeHandle;

verus! {

/// Relies on std::sync::Barrier: a multi-thread rendezvous point, declared
/// so that it can stand in fields and signatures.
#[verifier::external_type_specification]
#[verifier::external_body]
pub struct ExBarrier(Barrier);

/// Relies on std::sync::Barrier::new: a rendezvous point that releases only
/// once `n` threads have called `wait` on it.
#[verifier::external_body]
fn barrier_new(n: usize) -> Barrier {
    Barrier::new(n)
}

/// Relies on std::sync::Barrier::wait: blocks the calling thread until every
/// expected participant has arrived, then releases them all.
#[verifier::external_body]
pub fn barrier_wait(b: &Arc<Barrier>) {
    let _ = b.wait();
}

/// Relies on std::sync::Arc::clone: another handle to the same barrier.
#[verifier::external_body]
fn share_barrier(b: &Arc<Barrier>) -> Arc<Barrier> {
    Arc::clone(b)
}

/// Relies on std::sync::Arc::clone: another handle to the same lock, so
/// that every source thread reaches the one coordinator.
#[verifier::external_body]
fn share_lock(
    l: &Arc<RwLock<EpochManager, EpochManagerPred>>,
) -> Arc<RwLock<EpochManager, EpochManagerPred>> {
    Arc::clone(l)
}

/// One cut epoch as served to a source: the epoch id, whether the cut was
/// forced, and the barrier every live source must rendezvous on.
pub struct ClosedEpoch {
    pub id: u64,
    pub forced: bool,
    pub barrier: Arc<Barrier>,
}

/// The round being served: the cut epoch and how many sources have yet to
/// pick it up.
pub struct EpochRound {
    pub id: u64,
    pub forced: bool,
    pub remaining: usize,
    pub barrier: Arc<Barrier>,
}

/// The coordinator's state: how many sources are live, the cut threshold,
/// the next epoch id, the operation count accumulated since the last cut,
/// and the round being served, if one is open.
pub struct EpochManager {
    pub num_sources: usize,
    pub commit_threshold: u32,
    pub next_epoch_id: u64,
    pub accumulated: u64,
    pub round: Option<EpochRound>,
}

/// Mathematical value of an [`EpochManager`]; the barrier is opaque and is
/// not part of it. An open round is `(id, forced, remaining)`.
pub struct EpochManagerV {
    pub num_sources: int,
    pub commit_threshold: u32,
    pub next_epoch_id: u64,
    pub accumulated: u64,
    pub round: Option<(u64, bool, int)>,
}

impl View for EpochManager {
    type V = EpochManagerV;

    open spec fn view(&self) -> EpochManagerV {
        EpochManagerV {
            num_sources: self.num_sources as int,
            commit_threshold: self.commit_threshold,
            next_epoch_id: self.next_epoch_id,
            accumulated: self.accumulated,
            round: match self.round {
                Option::Some(r) => Option::Some((r.id, r.forced, r.remaining as int)),
                Option::None => Option::None,
            },
        }
    }
}

/// The coordinator's invariant: at least one live source, the counter never
/// past the threshold, and an open round still owed to between one and all
/// other sources.
pub open spec fn spec_epoch_manager_wf(m: EpochManagerV) -> bool {
    &&& m.num_sources >= 1
    &&& m.accumulated <= m.commit_threshold
    &&& (m.round matches Option::Some(r) ==> 1 <= r.2 <= m.num_sources - 1)
}

/// One `advance` step, stated over the mathematical values: the successor
/// state and the `(id, forced)` of the epoch served, if one was.
pub open spec fn spec_advance(m: EpochManagerV, delta: u16, force: bool) -> (
    EpochManagerV,
    Option<(u64, bool)>,
) {
    match m.round {
        Option::Some(r) => {
            let m2 = EpochManagerV {
                round: if r.2 == 1 {
                    Option::None
                } else {
                    Option::Some((r.0, r.1, r.2 - 1))
                },
                ..m
            };
            (m2, Option::Some((r.0, r.1)))
        },
        Option::None => {
            let acc: int = m.accumulated + delta;
            if (acc >= m.commit_threshold || force) && m.next_epoch_id < u64::MAX {
                let id = m.next_epoch_id;
                let m2 = EpochManagerV {
                    next_epoch_id: (id + 1) as u64,
                    accumulated: 0,
                    round: if m.num_sources == 1 {
                        Option::None
                    } else {
                        Option::Some((id, force, m.num_sources - 1))
                    },
                    ..m
                };
                (m2, Option::Some((id, force)))
            } else {
                let capped: u64 = if acc <= m.commit_threshold {
                    acc as u64
                } else {
                    m.commit_threshold as u64
                };
                (EpochManagerV { accumulated: capped, ..m }, Option::None)
            }
        },
    }
}

impl EpochManager {
    pub open spec fn wf(self) -> bool {
        spec_epoch_manager_wf(self@)
    }

    /// A fresh coordinator for `num_sources` live sources, cutting once
    /// `commit_threshold` operations have accumulated. The first cut epoch
    /// carries id 1.
    pub fn new(num_sources: usize, commit_threshold: u32) -> (r: Self)
        requires
            num_sources >= 1,
        ensures
            r.wf(),
            r@ == (EpochManagerV {
                num_sources: num_sources as int,
                commit_threshold,
                next_epoch_id: 1,
                accumulated: 0,
                round: Option::None,
            }),
    {
        EpochManager {
            num_sources,
            commit_threshold,
            next_epoch_id: 1,
            accumulated: 0,
            round: Option::None,
        }
    }

    /// Contributes `delta` operations for one source and serves back the cut
    /// epoch if this call opened a round or one is already being served;
    /// `None` otherwise. Every source calling during one round receives the
    /// same epoch id and forced flag, backed by the same barrier. An
    /// operation reported by a call that lands inside a round is covered by
    /// the epoch being served, so it is not counted toward the next one.
    pub fn advance(&mut self, _source: &NodeHandle, delta: u16, force: bool) -> (r: Option<
        ClosedEpoch,
    >)
        requires
            old(self).wf(),
        ensures
            final(self).wf(),
            final(self)@ == spec_advance(old(self)@, delta, force).0,
            (match (r, spec_advance(old(self)@, delta, force).1) {
                (Option::Some(ce), Option::Some(p)) => ce.id == p.0 && ce.forced == p.1,
                (Option::None, Option::None) => true,
                _ => false,
            }),
    {
        match &self.round {
            Option::Some(r) => {
                let id = r.id;
                let forced = r.forced;
                let remaining = r.remaining;
                let served = share_barrier(&r.barrier);
                if remaining == 1 {
                    self.round = Option::None;
                } else {
                    let kept = share_barrier(&served);
                    self.round = Option::Some(
                        EpochRound { id, forced, remaining: remaining - 1, barrier: kept },
                    );
                }
                Option::Some(ClosedEpoch { id, forced, barrier: served })
            },
            Option::None => {
                let acc: u64 = self.accumulated + delta as u64;
                if (acc >= self.commit_threshold as u64 || force) && self.next_epoch_id
                    < u64::MAX {
                    let id = self.next_epoch_id;
                    self.next_epoch_id = id + 1;
                    self.accumulated = 0;
                    let barrier = Arc::new(barrier_new(self.num_sources));
                    if self.num_sources == 1 {
                        self.round = Option::None;
                    } else {
                        let kept = share_barrier(&barrier);
                        self.round = Option::Some(
                            EpochRound {
                                id,
                                forced: force,
                                remaining: self.num_sources - 1,
                                barrier: kept,
                            },
                        );
                    }
                    Option::Some(ClosedEpoch { id, forced: force, barrier })
                } else {
                    self.accumulated = if acc <= self.commit_threshold as u64 {
                        acc
                    } else {
                        self.commit_threshold as u64
                    };
                    Option::None
                }
            },
        }
    }
}

/// The lock invariant of the shared coordinator.
pub struct EpochManagerPred {}

impl RwLockPredicate<EpochManager> for EpochManagerPred {
    open spec fn inv(self, v: EpochManager) -> bool {
        v.wf()
    }
}

/// The coordinator as shared by all source threads: one lock-guarded
/// manager behind a reference-counted handle.
pub struct SharedEpochManager {
    pub lock: Arc<RwLock<EpochManager, EpochManagerPred>>,
}

impl SharedEpochManager {
    pub fn new(em: EpochManager) -> (r: Self)
        requires
            em.wf(),
    {
        SharedEpochManager { lock: Arc::new(RwLock::new(em, Ghost(EpochManagerPred {}))) }
    }

    /// One atomic contribute-and-maybe-get-a-barrier step against the shared
    /// coordinator.
    pub fn advance(&self, source: &NodeHandle, delta: u16, force: bool) -> (r: Option<ClosedEpoch>)
    {
        let (em, handle) = self.lock.acquire_write();
        let mut em = em;
        let r = em.advance(source, delta, force);
        handle.release_write(em);
        r
    }
}

impl Clone for SharedEpochManager {
    fn clone(&self) -> Self {
        SharedEpochManager { lock: share_lock(&self.lock) }
    }
}

/// `advance` folded over a sequence of calls: the final state and each
/// call's served epoch.
pub open spec fn spec_advance_seq(m: EpochManagerV, calls: Seq<(u16, bool)>) -> (
    EpochManagerV,
    Seq<Option<(u64, bool)>>,
)
    decreases calls.len(),
{
    if calls.len() == 0 {
        (m, Seq::empty())
    } else {
        let step = spec_advance(m, calls.first().0, calls.first().1);
        let rest = spec_advance_seq(step.0, calls.drop_first());
        (rest.0, seq![step.1] + rest.1)
    }
}

/// An `advance` step keeps the coordinator's invariant and never changes the
/// source count or the threshold.
pub proof fn lemma_advance_preserves_wf(m: EpochManagerV, delta: u16, force: bool)
    requires
        spec_epoch_manager_wf(m),
    ensures
        spec_epoch_manager_wf(spec_advance(m, delta, force).0),
        spec_advance(m, delta, force).0.num_sources == m.num_sources,
        spec_advance(m, delta, force).0.commit_threshold == m.commit_threshold,
{
}

/// While a round for epoch `(id, forced)` is owed to `remaining` sources,
/// the next `remaining` calls, whatever they contribute, are all served
/// exactly that epoch, and the round closes with the last of them: no caller
/// of the round is passed over.
pub proof fn lemma_round_serves_all(m: EpochManagerV, calls: Seq<(u16, bool)>)
    requires
        spec_epoch_manager_wf(m),
        m.round matches Option::Some(r) && calls.len() == r.2,
    ensures
        spec_advance_seq(m, calls).1.len() == calls.len(),
        forall|i: int| 0 <= i < calls.len() ==> spec_advance_seq(m, calls).1[i] == Option::Some(
            (m.round.unwrap().0, m.round.unwrap().1)),
        spec_advance_seq(m, calls).0.round is None,
        spec_advance_seq(m, calls).0.next_epoch_id == m.next_epoch_id,
    decreases calls.len(),
{
    let r = m.round.unwrap();
    let step = spec_advance(m, calls.first().0, calls.first().1);
    lemma_advance_preserves_wf(m, calls.first().0, calls.first().1);
    if calls.len() == 1 {
        assert(spec_advance_seq(step.0, calls.drop_first()).1 =~= Seq::<Option<(u64,
        bool)>>::empty());
    } else {
        lemma_round_serves_all(step.0, calls.drop_first());
        let out = spec_advance_seq(m, calls).1;
        let rest = spec_advance_seq(step.0, calls.drop_first()).1;
        assert(out =~= seq![step.1] + rest);
        assert forall|i: int| 0 <= i < calls.len() implies out[i] == Option::Some((r.0, r.1)) by {
            if i > 0 {
                assert(out[i] == rest[i - 1]);
            }
        }
    }
}

/// With `N` live sources and no open round, a call that crosses the
/// threshold or forces a cut opens epoch `next_epoch_id`, and that same
/// epoch, with the same forced flag, is served to all `N` sources' calls of
/// the round; the round is closed after the `N`-th.
pub proof fn lemma_epoch_cut_visible_to_all_sources(m: EpochManagerV, calls: Seq<(u16, bool)>)
    requires
        spec_epoch_manager_wf(m),
        m.round is None,
        m.next_epoch_id < u64::MAX,
        calls.len() == m.num_sources,
        m.accumulated + calls.first().0 >= m.commit_threshold || calls.first().1,
    ensures
        spec_advance_seq(m, calls).1.len() == calls.len(),
        forall|i: int| 0 <= i < calls.len() ==> spec_advance_seq(m, calls).1[i] == Option::Some(
            (m.next_epoch_id, calls.first().1)),
        spec_advance_seq(m, calls).0.round is None,
{
    let step = spec_advance(m, calls.first().0, calls.first().1);
    lemma_advance_preserves_wf(m, calls.first().0, calls.first().1);
    assert(step.1 == Option::Some((m.next_epoch_id, calls.first().1)));
    let out = spec_advance_seq(m, calls).1;
    let rest = spec_advance_seq(step.0, calls.drop_first()).1;
    assert(out =~= seq![step.1] + rest);
    if m.num_sources == 1 {
        assert(calls.drop_first().len() == 0);
        assert(rest =~= Seq::<Option<(u64, bool)>>::empty());
    } else {
        lemma_round_serves_all(step.0, calls.drop_first());
        assert forall|i: int| 0 <= i < calls.len() implies out[i] == Option::Some(
            (m.next_epoch_id, calls.first().1)) by {
            if i > 0 {
                assert(out[i] == rest[i - 1]);
            }
        }
    }
}

} // verus!
