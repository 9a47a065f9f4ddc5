//! The lease lifecycle state machine: a shared three-state flag observed by
//! a background renewal task and mutated by the session owner on shutdown.
//!
//! The decisions of the renewal loop live here as pure steps — request a
//! mapping, wait out a lease period, release once on the way out — while the
//! surrounding application supplies the gateway calls, the lock and the
//! wait/notify primitive around them.

use vstd::prelude::*;

verus! {

/// The shared lease flag. `Running` is the initial state; `Error` (a renewal
/// failed) and `Terminate` (the owner requested shutdown) are terminal.
#[derive(Debug, Clone, Copy, PartialEq, Eq, Structural)]
pub enum LeaseState {
    Running,
    Error,
    Terminate,
}

/// What the renewal task does next.
#[derive(Debug, Clone, Copy, PartialEq, Eq, Structural)]
pub enum TaskAction {
    /// Wait out one lease period, waking early on a termination request.
    Wait,
    /// Request the mapping again.
    Renew,
    /// Release the mapping once and exit.
    Release,
}

/// Whether one mapping request to the gateway succeeded.
#[derive(Debug, Clone, Copy, PartialEq, Eq, Structural)]
pub enum RenewalOutcome {
    Renewed,
    Failed,
}

/// True while the forwarding is still in force: the lease state is `Running`.
pub fn is_active(st: LeaseState) -> (r: bool)
    ensures
        r == (st == LeaseState::Running),
{
    match st {
        LeaseState::Running => true,
        _ => false,
    }
}

/// The owner requests shutdown: a running lease moves to `Terminate`; the
/// terminal states absorb the request, so nothing ever leaves them.
pub fn request_terminate(st: LeaseState) -> (r: LeaseState)
    ensures
        r == (if st == LeaseState::Running {
            LeaseState::Terminate
        } else {
            st
        }),
        r != LeaseState::Running,
{
    match st {
        LeaseState::Running => LeaseState::Terminate,
        other => other,
    }
}

/// The renewal task has just finished one mapping request. A failure is
/// fatal: a running lease moves to `Error` and the task releases and exits;
/// no state leaves `Terminate`. After a successful renewal the task waits,
/// unless termination was requested while the request was in flight.
pub fn after_renewal(st: LeaseState, outcome: RenewalOutcome) -> (r: (LeaseState, TaskAction))
    requires
        st != LeaseState::Error,
    ensures
        outcome == RenewalOutcome::Failed ==> r.0 == (if st == LeaseState::Running {
            LeaseState::Error
        } else {
            st
        }) && r.1 == TaskAction::Release,
        outcome == RenewalOutcome::Renewed ==> r.0 == st && r.1 == (if st
            == LeaseState::Terminate {
            TaskAction::Release
        } else {
            TaskAction::Wait
        }),
{
    match outcome {
        RenewalOutcome::Failed => {
            let next = if matches!(st, LeaseState::Running) {
                LeaseState::Error
            } else {
                st
            };
            (next, TaskAction::Release)
        },
        RenewalOutcome::Renewed => {
            if matches!(st, LeaseState::Terminate) {
                (st, TaskAction::Release)
            } else {
                (st, TaskAction::Wait)
            }
        },
    }
}

/// The renewal task woke from its bounded wait. On a termination request it
/// releases the mapping and exits without renewing again; on a timeout it
/// renews before the lease can run out.
pub fn after_wake(st: LeaseState) -> (r: TaskAction)
    requires
        st != LeaseState::Error,
    ensures
        r == (if st == LeaseState::Terminate {
            TaskAction::Release
        } else {
            TaskAction::Renew
        }),
{
    if matches!(st, LeaseState::Terminate) {
        TaskAction::Release
    } else {
        TaskAction::Renew
    }
}

/// What one whole run of the renewal task did.
#[derive(Debug, Clone, Copy, PartialEq, Eq, Structural)]
pub struct RenewalRun {
    /// The lease state when the run stopped.
    pub final_state: LeaseState,
    /// How many mapping requests were made.
    pub renewals: usize,
    /// How many release calls were made — one on every exit, never more.
    pub releases: usize,
    /// Whether the task exited, as opposed to running out of script.
    pub exited: bool,
}

/// The task reaches its `k`-th iteration iff every earlier renewal succeeded
/// and no termination request arrived during an earlier wait.
pub open spec fn reaches(renewals_ok: Seq<bool>, term_requests: Seq<bool>, k: int) -> bool {
    forall|j: int| 0 <= j < k ==> renewals_ok[j] && !term_requests[j]
}

/// The task exits at its `k`-th iteration iff it reaches it and either that
/// renewal fails or a termination request arrives during the wait after it.
pub open spec fn exits_at(renewals_ok: Seq<bool>, term_requests: Seq<bool>, k: int) -> bool {
    &&& 0 <= k < renewals_ok.len()
    &&& reaches(renewals_ok, term_requests, k)
    &&& (!renewals_ok[k] || term_requests[k])
}

/// The renewal loop, run against a fixed script: `renewals_ok[i]` says
/// whether the `i`-th mapping request succeeds, `term_requests[i]` whether
/// the owner requests termination while the task waits out lease period `i`.
///
/// Law: a single failed renewal is fatal — the task moves the lease to
/// `Error`, releases the mapping exactly once and exits, with no retry. Law:
/// a termination request ends the task at its next wake, with no further
/// renewal and again exactly one release. While neither happens the lease
/// stays `Running` and nothing is released.
pub fn run_renewal(renewals_ok: &Vec<bool>, term_requests: &Vec<bool>) -> (r: RenewalRun)
    requires
        renewals_ok@.len() == term_requests@.len(),
    ensures
        forall|k: int|
            exits_at(renewals_ok@, term_requests@, k) ==> r.exited && r.renewals == k + 1
                && r.releases == 1 && r.final_state == (if !renewals_ok@[k] {
                LeaseState::Error
            } else {
                LeaseState::Terminate
            }),
        reaches(renewals_ok@, term_requests@, renewals_ok@.len() as int) ==> !r.exited
            && r.renewals == renewals_ok@.len() && r.releases == 0 && r.final_state
            == LeaseState::Running,
        r.exited ==> r.releases == 1,
        !r.exited ==> r.releases == 0,
{
    let n = renewals_ok.len();
    let mut st = LeaseState::Running;
    let mut renewals: usize = 0;
    let mut releases: usize = 0;
    let mut i: usize = 0;
    while i < n
        invariant
            i <= n,
            n == renewals_ok@.len(),
            n == term_requests@.len(),
            st == LeaseState::Running,
            renewals == i,
            releases == 0,
            reaches(renewals_ok@, term_requests@, i as int),
        decreases n - i,
    {
        let outcome = if renewals_ok[i] {
            RenewalOutcome::Renewed
        } else {
            RenewalOutcome::Failed
        };
        renewals = renewals + 1;
        let (next, act) = after_renewal(st, outcome);
        if act == TaskAction::Release {
            releases = releases + 1;
            proof {
                lemma_exit_unique(renewals_ok@, term_requests@, i as int);
            }
            return RenewalRun { final_state: next, renewals, releases, exited: true };
        }
        st = next;
        let woken = if term_requests[i] {
            request_terminate(st)
        } else {
            st
        };
        let act2 = after_wake(woken);
        if act2 == TaskAction::Release {
            releases = releases + 1;
            proof {
                lemma_exit_unique(renewals_ok@, term_requests@, i as int);
            }
            return RenewalRun { final_state: woken, renewals, releases, exited: true };
        }
        st = woken;
        i = i + 1;
    }
    proof {
        assert forall|k: int| !exits_at(renewals_ok@, term_requests@, k) by {
            if 0 <= k < renewals_ok@.len() {
                assert(renewals_ok@[k] && !term_requests@[k]);
            }
        }
    }
    RenewalRun { final_state: st, renewals, releases, exited: false }
}

/// Law: the renewal task exits at most once — an exit point is the only one.
pub proof fn lemma_exit_unique(renewals_ok: Seq<bool>, term_requests: Seq<bool>, i: int)
    requires
        renewals_ok.len() == term_requests.len(),
        exits_at(renewals_ok, term_requests, i),
    ensures
        forall|k: int| exits_at(renewals_ok, term_requests, k) ==> k == i,
        !reaches(renewals_ok, term_requests, renewals_ok.len() as int),
{
    assert forall|k: int| exits_at(renewals_ok, term_requests, k) implies k == i by {
        if k < i {
            assert(renewals_ok[k] && !term_requests[k]);
        } else if k > i {
            assert(renewals_ok[i] && !term_requests[i]);
        }
    }
    assert(!(renewals_ok[i] && !term_requests[i]));
}

} // verus!
