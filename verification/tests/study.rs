use ribosome::contracts::{Disposition, EvaluationExecutionStatus};
use ribosome::error::{DENIED, EXHAUSTED, INTERNAL};
use ribosome::study::{arm_order, execution_status, next_case_action, record_case, CaseAction, StudyProgress};

fn arms() -> Vec<String> {
    vec!["control".into(), "candidate".into(), "ablation".into()]
}

fn progress() -> StudyProgress {
    StudyProgress { stopped: None, stop_reason: String::new(), arm: Disposition::Completed, study: Disposition::Completed }
}

#[test]
fn arms_rotate_and_alternate_direction_across_repetitions() {
    assert_eq!(arm_order(&arms(), 0), vec!["control", "candidate", "ablation"]);
    assert_eq!(arm_order(&arms(), 1), vec!["candidate", "ablation", "control"]);
    assert_eq!(arm_order(&arms(), 2), vec!["ablation", "control", "candidate"]);
    assert_eq!(arm_order(&arms(), 3), vec!["ablation", "candidate", "control"]);
    assert_eq!(arm_order(&arms(), 4), vec!["control", "ablation", "candidate"]);
    assert_eq!(arm_order(&arms(), 6), vec!["control", "candidate", "ablation"]);
    for repetition in 0..12u32 {
        let mut order = arm_order(&arms(), repetition);
        order.sort();
        let mut expected = arms();
        expected.sort();
        assert_eq!(order, expected);
    }
}

#[test]
fn a_stopped_or_cancelled_study_dispatches_nothing_more() {
    let mut p = progress();
    assert_eq!(next_case_action(&p, false), CaseAction::Evaluate);
    assert_eq!(next_case_action(&p, true), CaseAction::Cancelled);
    p.stopped = Some(Disposition::Exhausted);
    assert_eq!(next_case_action(&p, false), CaseAction::NotStarted);
}

#[test]
fn evaluation_outcomes_map_to_execution_statuses() {
    assert_eq!(execution_status(CaseAction::Evaluate, None, false), EvaluationExecutionStatus::Completed);
    assert_eq!(execution_status(CaseAction::Evaluate, Some(EXHAUSTED), false), EvaluationExecutionStatus::Exhausted);
    assert_eq!(execution_status(CaseAction::Evaluate, Some(DENIED), false), EvaluationExecutionStatus::Failed);
    assert_eq!(execution_status(CaseAction::Evaluate, Some(DENIED), true), EvaluationExecutionStatus::Cancelled);
    assert_eq!(execution_status(CaseAction::NotStarted, None, true), EvaluationExecutionStatus::NotStarted);
    assert_eq!(execution_status(CaseAction::Cancelled, None, false), EvaluationExecutionStatus::Cancelled);
}

#[test]
fn failures_are_kept_and_shared_exhaustion_stops_the_study() {
    let mut p = progress();
    assert_eq!(record_case(&mut p, EvaluationExecutionStatus::Completed, String::new(), false).unwrap(), Disposition::Completed);
    assert_eq!(p.study, Disposition::Completed);
    assert_eq!(record_case(&mut p, EvaluationExecutionStatus::Failed, "boom".into(), false).unwrap(), Disposition::Failed);
    assert_eq!(p.study, Disposition::Failed);
    assert!(p.stopped.is_none());
    assert_eq!(record_case(&mut p, EvaluationExecutionStatus::Completed, String::new(), false).unwrap(), Disposition::Completed);
    assert_eq!(p.study, Disposition::Failed);
    assert_eq!(record_case(&mut p, EvaluationExecutionStatus::Exhausted, "case budget".into(), false).unwrap(), Disposition::Exhausted);
    assert!(p.stopped.is_none());
    assert_eq!(record_case(&mut p, EvaluationExecutionStatus::Exhausted, "study budget".into(), true).unwrap(), Disposition::Exhausted);
    assert_eq!(p.stopped, Some(Disposition::Exhausted));
    assert_eq!(p.stop_reason, "study budget");
    assert_eq!(record_case(&mut p, EvaluationExecutionStatus::NotStarted, String::new(), false).unwrap(), Disposition::Exhausted);
    let mut fresh = progress();
    assert_eq!(record_case(&mut fresh, EvaluationExecutionStatus::NotStarted, String::new(), false).unwrap_err().code, INTERNAL);
    assert_eq!(record_case(&mut fresh, EvaluationExecutionStatus::Cancelled, "stop".into(), false).unwrap(), Disposition::Cancelled);
    assert_eq!(fresh.stopped, Some(Disposition::Cancelled));
    assert_eq!(fresh.arm, Disposition::Cancelled);
}
