//! Coordination layer of the concurrent searcher: the shared cancellation
//! flag, the outcome each worker reports, and the thread plumbing the
//! orchestrator runs on.
//!
//! Every decision — which start columns a worker owns, when it stops, what
//! it reports, which reported hit wins — is made in verified code; only the
//! call that runs the workers on threads of their own is trusted.

use crate::capability::{Hasher, Reducer};
use crate::model::probe_spec;
use crate::table::RainbowTable;
use vstd::prelude::*;

verus! {

/// The shared cancellation signal of a concurrent search.  Setting it is a
/// request, not an abort: a worker finishes its current start column before
/// it looks again.
pub struct HaltFlag {
    flag: core::sync::atomic::AtomicBool,
}

impl HaltFlag {
    /// A fresh, unset flag.
    pub fn new() -> HaltFlag {
        HaltFlag { flag: core::sync::atomic::AtomicBool::new(false) }
    }

    /// Request that every worker wind down.
    pub fn set(&self) {
        self.flag.store(true, core::sync::atomic::Ordering::Relaxed);
    }

    /// Whether a halt has been requested.  The answer can be stale — a halt
    /// requested by another thread may not be visible yet — so nothing is
    /// promised of it; late observation only costs wasted work.
    pub fn is_set(&self) -> bool {
        self.flag.load(core::sync::atomic::Ordering::Relaxed)
    }
}

/// What one worker of a concurrent search reports: a verified hit, its whole
/// subset of start columns exhausted without a hit, or an early stop because
/// a halt was observed.
pub enum WorkerOutcome {
    Found(String),
    Exhausted,
    Halted,
}

/// What the outcome of worker `w` of `k` says about the table: a hit is the
/// result of a successful probe of one of the worker's own start columns,
/// and exhaustion means every one of them was probed without a hit.  An
/// early halt says nothing.
pub open spec fn outcome_ok<H: Hasher, R: Reducer>(
    table: &RainbowTable<H, R>,
    target: Seq<char>,
    w: int,
    k: int,
    out: WorkerOutcome,
) -> bool {
    &&& (out matches WorkerOutcome::Found(p) ==> exists|i: int|
        0 <= i < table.spec_reducers().len() && i % k == w && #[trigger] probe_spec(
            table.spec_hasher(),
            table.spec_reducers(),
            table.chains_map(),
            target,
            i,
        ) == Some(p@))
    &&& (out matches WorkerOutcome::Exhausted ==> forall|i: int|
        0 <= i < table.spec_reducers().len() && i % k == w ==> #[trigger] probe_spec(
            table.spec_hasher(),
            table.spec_reducers(),
            table.chains_map(),
            target,
            i,
        ) is None)
}

/// Relies on crossbeam::scope and ScopedJoinHandle::join: every worker index
/// below `num_threads` runs `worker_run` on a thread of its own, all of them
/// are joined before the scope ends, and each handle's join hands back that
/// worker's return value, collected here in worker order.  So the vector
/// holds one outcome per worker, and each outcome keeps the contract
/// `worker_run` was verified against.  The halt flag is created here, unset,
/// and is reachable only by these workers; `worker_run` sets it only on a
/// hit, so an outcome that reports an observed halt comes with a hit
/// elsewhere in the vector.  If a worker panicked — only a supplied
/// capability can — the panic is propagated here.
#[verifier::external_body]
pub(crate) fn run_workers<H: Hasher, R: Reducer>(
    table: &RainbowTable<H, R>,
    hash: &str,
    num_threads: usize,
) -> (outs: Vec<WorkerOutcome>)
    requires
        1 <= num_threads,
    ensures
        outs@.len() == num_threads,
        forall|w: int|
            0 <= w < num_threads as int ==> outcome_ok(
                table,
                hash@,
                w,
                num_threads as int,
                #[trigger] outs@[w],
            ),
        (exists|w: int| 0 <= w < outs@.len() && (#[trigger] outs@[w]) is Halted) ==> (exists|
            w: int,
        |
            0 <= w < outs@.len() && (#[trigger] outs@[w]) is Found),
{
    let halt = HaltFlag::new();
    let halt = &halt;
    crossbeam::scope(|scope| {
        let handles: Vec<_> = (0..num_threads).map(
            |t| scope.spawn(move |_| table.worker_run(hash, t, num_threads, halt)),
        ).collect();
        handles.into_iter().map(|h| h.join().unwrap()).collect()
    }).unwrap()
}

/// Relies on num_cpus::get: the number of logical processors available to
/// this process, documented to be at least one.
#[verifier::external_body]
pub(crate) fn available_workers() -> (n: usize)
    ensures
        1 <= n,
{
    num_cpus::get()
}

} // verus!
