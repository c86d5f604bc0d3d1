//! The decisions of a study's dispatch loop, case by case: the counterbalanced order
//! of arms in each repetition, whether the next case is handed to the evaluator, and
//! what its outcome does to the study. The host performs each evaluation and hands the
//! outcome back.

use vstd::prelude::*;
use crate::contracts::{Disposition, EvaluationExecutionStatus};
use crate::error::{Error, Result, EXHAUSTED, INTERNAL};

verus! {

/// The position in the arm list of the `k`-th arm run in repetition `repetition`: arms
/// rotate left by one each repetition, and every other full rotation runs them in
/// reverse.
pub open spec fn arm_position(n: nat, repetition: nat, k: nat) -> nat
    recommends
        n > 0,
{
    let shift = repetition % n;
    if (repetition / n) % 2 == 1 {
        ((n - 1 - k + shift) % (n as int)) as nat
    } else {
        (k + shift) % n
    }
}

/// The order in which the arms run in repetition `repetition`.
pub fn arm_order(arms: &Vec<String>, repetition: u32) -> (r: Vec<String>)
    requires
        arms@.len() > 0,
    ensures
        r@.len() == arms@.len(),
        forall|k: int| 0 <= k < r@.len() ==> (#[trigger] r@[k])@
            == arms@[arm_position(arms@.len(), repetition as nat, k as nat) as int]@,
{
    let n = arms.len();
    let shift = (repetition as usize) % n;
    let reversed = ((repetition as usize) / n) % 2 == 1;
    let mut r: Vec<String> = Vec::new();
    let mut k: usize = 0;
    while k < n
        invariant
            n == arms@.len(),
            n > 0,
            shift == repetition as nat % n as nat,
            reversed == ((repetition as nat / n as nat) % 2 == 1),
            0 <= k <= n,
            r@.len() == k,
            forall|j: int| 0 <= j < k ==> (#[trigger] r@[j])@
                == arms@[arm_position(n as nat, repetition as nat, j as nat) as int]@,
        decreases n - k,
    {
        let base = if reversed { n - 1 - k } else { k };
        let p = if base >= n - shift { base - (n - shift) } else { base + shift };
        proof {
            let x = base as int + shift as int;
            if base >= n - shift {
                assert(x % (n as int) == x - n) by (nonlinear_arith)
                    requires n as int <= x < 2 * n as int, n > 0;
            } else {
                vstd::arithmetic::div_mod::lemma_small_mod(x as nat, n as nat);
            }
        }
        r.push(arms[p].clone());
        k = k + 1;
    }
    r
}

/// Every arm runs in every repetition: each position of the arm list is reached by
/// some step of the order.
pub proof fn law_every_arm_runs(n: nat, repetition: nat, m: nat)
    requires
        n > 0,
        m < n,
    ensures
        exists|k: nat| k < n && #[trigger] arm_position(n, repetition, k) == m,
{
    let shift = repetition % n;
    assert(shift < n) by {
        vstd::arithmetic::div_mod::lemma_mod_bound(repetition as int, n as int);
    }
    let forward: nat = if m >= shift { (m - shift) as nat } else { (m + n - shift) as nat };
    assert(forward < n);
    assert((forward + shift) % n == m) by {
        if m >= shift {
            vstd::arithmetic::div_mod::lemma_small_mod(m, n);
        } else {
            vstd::arithmetic::div_mod::lemma_mod_add_multiples_vanish(m as int, n as int);
            vstd::arithmetic::div_mod::lemma_small_mod(m, n);
        }
    }
    if (repetition / n) % 2 == 1 {
        let k: nat = (n - 1 - forward) as nat;
        assert(n - 1 - k == forward);
        assert(arm_position(n, repetition, k) == m);
    } else {
        assert(arm_position(n, repetition, forward) == m);
    }
}

/// The arm order is counterbalanced: the first full rotation rotates the arm list left
/// by one per repetition; each full rotation after it runs the order of the rotation
/// before it reversed, so that the order repeats every two full rotations.
pub proof fn law_arm_order_alternates(n: nat, repetition: nat, k: nat)
    requires
        n > 0,
        k < n,
    ensures
        repetition < n ==> arm_position(n, repetition, k) == (k + repetition) % n,
        arm_position(n, repetition + n, k) == arm_position(n, repetition, (n - 1 - k) as nat),
        arm_position(n, repetition + 2 * n, k) == arm_position(n, repetition, k),
{
    let q = repetition / n;
    let m = repetition % n;
    vstd::arithmetic::div_mod::lemma_fundamental_div_mod(repetition as int, n as int);
    vstd::arithmetic::div_mod::lemma_mod_bound(repetition as int, n as int);
    assert(repetition + n == (q + 1) * n + m) by (nonlinear_arith)
        requires repetition == q * n + m;
    assert(repetition + 2 * n == (q + 2) * n + m) by (nonlinear_arith)
        requires repetition == q * n + m;
    vstd::arithmetic::div_mod::lemma_fundamental_div_mod_converse((repetition + n) as int, n as int, (q + 1) as int, m as int);
    vstd::arithmetic::div_mod::lemma_fundamental_div_mod_converse((repetition + 2 * n) as int, n as int, (q + 2) as int, m as int);
    assert((q + 2) % 2 == q % 2);
    assert((q + 1) % 2 == 1 <==> q % 2 == 0);
    if repetition < n {
        vstd::arithmetic::div_mod::lemma_small_mod(repetition, n);
        vstd::arithmetic::div_mod::lemma_fundamental_div_mod_converse(repetition as int, n as int, 0, repetition as int);
    }
}

/// What the host does with the next case: record it as not started because the study
/// stopped, record it as cancelled, or hand it to the evaluator.
#[derive(Clone, Copy, Debug, PartialEq, Eq, Structural)]
pub enum CaseAction {
    NotStarted,
    Cancelled,
    Evaluate,
}

/// How far the study's dispatch has come: the cause that stopped it and why, and the
/// dispositions of the current arm and of the study so far.
#[derive(Debug)]
pub struct StudyProgress {
    pub stopped: Option<Disposition>,
    pub stop_reason: String,
    pub arm: Disposition,
    pub study: Disposition,
}

/// The action owed to the next case.
pub open spec fn case_action(stopped: Option<Disposition>, cancelled: bool) -> CaseAction {
    if stopped is Some {
        CaseAction::NotStarted
    } else if cancelled {
        CaseAction::Cancelled
    } else {
        CaseAction::Evaluate
    }
}

/// Decides the action for the next case, given whether the run was cancelled.
pub fn next_case_action(progress: &StudyProgress, cancelled: bool) -> (r: CaseAction)
    ensures
        r == case_action(progress.stopped, cancelled),
{
    if progress.stopped.is_some() {
        CaseAction::NotStarted
    } else if cancelled {
        CaseAction::Cancelled
    } else {
        CaseAction::Evaluate
    }
}

/// The execution status of a case: as its action fixed it, or, for an evaluation, by
/// its outcome (`failure` the error code of a failed evaluation) and whether the run
/// was cancelled by then.
pub open spec fn case_status(action: CaseAction, failure: Option<i32>, cancelled: bool) -> EvaluationExecutionStatus {
    match action {
        CaseAction::NotStarted => EvaluationExecutionStatus::NotStarted,
        CaseAction::Cancelled => EvaluationExecutionStatus::Cancelled,
        CaseAction::Evaluate => match failure {
            None => EvaluationExecutionStatus::Completed,
            Some(code) => if cancelled {
                EvaluationExecutionStatus::Cancelled
            } else if code == EXHAUSTED {
                EvaluationExecutionStatus::Exhausted
            } else {
                EvaluationExecutionStatus::Failed
            },
        },
    }
}

pub fn execution_status(action: CaseAction, failure: Option<i32>, cancelled: bool) -> (r: EvaluationExecutionStatus)
    ensures
        r == case_status(action, failure, cancelled),
{
    match action {
        CaseAction::NotStarted => EvaluationExecutionStatus::NotStarted,
        CaseAction::Cancelled => EvaluationExecutionStatus::Cancelled,
        CaseAction::Evaluate => match failure {
            None => EvaluationExecutionStatus::Completed,
            Some(code) => if cancelled {
                EvaluationExecutionStatus::Cancelled
            } else if code == EXHAUSTED {
                EvaluationExecutionStatus::Exhausted
            } else {
                EvaluationExecutionStatus::Failed
            },
        },
    }
}

/// The progress after a case ended with `status`, `reason` the message of its failure
/// and `shared_exhausted` whether the study's shared allocation ran out: cancellation,
/// or exhaustion of the shared allocation, stops the study; a case that did not
/// complete sets the arm's and the study's disposition. Answers the case's own
/// disposition; a case not started takes the stopping cause, and there must be one.
pub open spec fn record_post(old: StudyProgress, new: StudyProgress, status: EvaluationExecutionStatus,
    reason: Seq<char>, shared_exhausted: bool, r: Result<Disposition>) -> bool {
    let stops = status == EvaluationExecutionStatus::Cancelled
        || (status == EvaluationExecutionStatus::Exhausted && shared_exhausted);
    let stopped = if stops {
        Some(if status == EvaluationExecutionStatus::Cancelled { Disposition::Cancelled } else { Disposition::Exhausted })
    } else {
        old.stopped
    };
    let disposition = match status {
        EvaluationExecutionStatus::Completed => Some(Disposition::Completed),
        EvaluationExecutionStatus::Cancelled => Some(Disposition::Cancelled),
        EvaluationExecutionStatus::Exhausted => Some(Disposition::Exhausted),
        EvaluationExecutionStatus::Failed => Some(Disposition::Failed),
        EvaluationExecutionStatus::NotStarted => stopped,
    };
    &&& new.stopped == stopped
    &&& new.stop_reason@ == (if stops { reason } else { old.stop_reason@ })
    &&& match disposition {
        None => r matches Err(e) && e.code == INTERNAL && new.arm == old.arm && new.study == old.study,
        Some(d) => r == Ok::<Disposition, Error>(d) && if d == Disposition::Completed {
            new.arm == old.arm && new.study == old.study
        } else {
            new.arm == d && new.study == d
        },
    }
}

/// Records the end of a case, as `record_post` states.
pub fn record_case(progress: &mut StudyProgress, status: EvaluationExecutionStatus, reason: String,
    shared_exhausted: bool) -> (r: Result<Disposition>)
    ensures
        record_post(*old(progress), *final(progress), status, reason@, shared_exhausted, r),
{
    if status == EvaluationExecutionStatus::Cancelled
        || (status == EvaluationExecutionStatus::Exhausted && shared_exhausted) {
        progress.stopped = Some(if status == EvaluationExecutionStatus::Cancelled {
            Disposition::Cancelled
        } else {
            Disposition::Exhausted
        });
        progress.stop_reason = reason;
    }
    let disposition = match status {
        EvaluationExecutionStatus::Completed => Disposition::Completed,
        EvaluationExecutionStatus::Cancelled => Disposition::Cancelled,
        EvaluationExecutionStatus::Exhausted => Disposition::Exhausted,
        EvaluationExecutionStatus::Failed => Disposition::Failed,
        EvaluationExecutionStatus::NotStarted => match progress.stopped {
            Some(d) => d,
            None => return Err(Error::internal("unstarted evaluation has no stop cause")),
        },
    };
    if disposition != Disposition::Completed {
        progress.arm = disposition;
        progress.study = disposition;
    }
    Ok(disposition)
}

} // verus!
