//! The decisions the host takes while it dispatches an effect: what an edit, a check
//! or an application must name, which acceptance checks an application runs, whether
//! their evidence still matches what was pinned, and what a refused dispatch records.

use vstd::prelude::*;
use crate::contracts::{
    Action, ActionKind, ArtifactRef, EffectOutcomeBasis, EffectStatus, Grant, Mode,
    ValidationEvidence, ValidationEvidenceOutcome,
};
use crate::error::{Error, Result, CONFLICT, DENIED, INVALID};
use crate::host::CheckOutput;
use crate::parking::listed;
use crate::text::{insert_ordered, ordered_texts};

verus! {

/// The grant names checks that every live change must pass.
pub open spec fn requires_checks(grant: Grant) -> bool {
    grant.required_checks matches Some(c) && c@.len() > 0
}

/// Why an edit cannot be dispatched, if it cannot: a grant with required checks edits
/// only in a branch, and an edit names its path, expected version and content.
pub open spec fn edit_failure(grant: Grant, action: Action, in_branch: bool) -> Option<i32> {
    if !in_branch && requires_checks(grant) {
        Some(DENIED)
    } else if action.path is None || action.expected_version is None || action.content is None {
        Some(INVALID)
    } else {
        None
    }
}

/// The path, expected version and content of an edit.
pub fn edit_parts(grant: &Grant, action: &Action, in_branch: bool) -> (r: Result<(String, String, String)>)
    ensures
        match edit_failure(*grant, *action, in_branch) {
            Some(code) => r matches Err(e) && e.code == code,
            None => r matches Ok((p, v, c)) && p == action.path->0 && v == action.expected_version->0
                && c == action.content->0,
        },
{
    let checked = match &grant.required_checks {
        Some(c) => c.len() > 0,
        None => false,
    };
    if !in_branch && checked {
        return Err(Error::denied("host-required checks require edits in a branch followed by checked application"));
    }
    let path = match &action.path {
        Some(p) => p.clone(),
        None => return Err(Error::invalid("edit requires path")),
    };
    let expected = match &action.expected_version {
        Some(v) => v.clone(),
        None => return Err(Error::invalid("edit requires expected_version")),
    };
    let content = match &action.content {
        Some(c) => c.clone(),
        None => return Err(Error::invalid("edit requires content")),
    };
    Ok((path, expected, content))
}

/// The registered tool a check or execution runs; an execution also names the
/// admitted implementation it runs.
pub fn check_tool(action: &Action) -> (r: Result<String>)
    ensures
        action.tool is None ==> (r matches Err(e) && e.code == INVALID),
        action.tool is Some && action.kind == ActionKind::Execute && action.implementation is None
            ==> (r matches Err(e) && e.code == INVALID),
        action.tool is Some && !(action.kind == ActionKind::Execute && action.implementation is None)
            ==> (r matches Ok(t) && t == action.tool->0),
{
    let tool = match &action.tool {
        Some(t) => t.clone(),
        None => return Err(Error::invalid("check/execute requires a registered tool")),
    };
    if action.kind == ActionKind::Execute && action.implementation.is_none() {
        return Err(Error::invalid("execute requires an admitted implementation"));
    }
    Ok(tool)
}

/// The note a check's output gains when its checker changed after preflight.
pub open spec fn stale_note() -> Seq<char> {
    "\nChecker identity changed after preflight; validation is stale."@
}

/// A check whose checker changed after it was pinned fails and its validation is stale.
pub fn mark_stale_checker(result: &mut CheckOutput, pinned: &String)
    ensures
        old(result).checker_version@ == pinned@ ==> *final(result) == *old(result),
        old(result).checker_version@ != pinned@ ==> {
            &&& *final(result) == CheckOutput {
                success: false,
                validation_outcome: ValidationEvidenceOutcome::Stale,
                output: final(result).output,
                ..*old(result)
            }
            &&& final(result).output@ == old(result).output@ + stale_note()
        },
{
    if result.checker_version != *pinned {
        result.success = false;
        result.validation_outcome = ValidationEvidenceOutcome::Stale;
        result.output.append("\nChecker identity changed after preflight; validation is stale.");
    }
}

/// Why a live application cannot be dispatched, if it cannot: it needs an apply grant
/// and names its path, branch, live expected version and intervention.
pub open spec fn apply_failure(grant: Grant, action: Action, in_branch: bool) -> Option<i32> {
    if grant.mode != Mode::Apply {
        Some(DENIED)
    } else if action.path is None || !in_branch || action.expected_version is None || action.intervention_ref is None {
        Some(INVALID)
    } else {
        None
    }
}

/// The path, live expected version and intervention of an application.
pub fn apply_parts(grant: &Grant, action: &Action, in_branch: bool) -> (r: Result<(String, String, String)>)
    ensures
        match apply_failure(*grant, *action, in_branch) {
            Some(code) => r matches Err(e) && e.code == code,
            None => r matches Ok((p, v, i)) && p == action.path->0 && v == action.expected_version->0
                && i == action.intervention_ref->0,
        },
{
    if grant.mode != Mode::Apply {
        return Err(Error::denied("live application requires apply mode"));
    }
    let path = match &action.path {
        Some(p) => p.clone(),
        None => return Err(Error::invalid("apply requires path")),
    };
    if !in_branch {
        return Err(Error::invalid("apply requires branch_id"));
    }
    let expected = match &action.expected_version {
        Some(v) => v.clone(),
        None => return Err(Error::invalid("apply requires live expected_version")),
    };
    let intervention = match &action.intervention_ref {
        Some(i) => i.clone(),
        None => return Err(Error::invalid("apply requires intervention_ref")),
    };
    Ok((path, expected, intervention))
}

/// A check named by the intervention or required by the grant.
pub open spec fn acceptance_named(intervention: Seq<String>, grant: Grant, name: Seq<char>) -> bool {
    listed(intervention, name) || (grant.required_checks matches Some(c) && listed(c@, name))
}

/// The acceptance checks an application runs: those its intervention names and those
/// its grant requires, each once, in text order. An application without any is denied.
pub fn acceptance_checks(intervention: &Vec<String>, grant: &Grant) -> (r: Result<Vec<String>>)
    ensures
        (exists|x: Seq<char>| #[trigger] acceptance_named(intervention@, *grant, x)) ==> (r matches Ok(v)
            && ordered_texts(v@)
            && forall|x: Seq<char>| #[trigger] listed(v@, x) <==> acceptance_named(intervention@, *grant, x)),
        !(exists|x: Seq<char>| #[trigger] acceptance_named(intervention@, *grant, x)) ==> (r matches Err(e)
            && e.code == DENIED),
{
    let mut out: Vec<String> = Vec::new();
    let mut i: usize = 0;
    while i < intervention.len()
        invariant
            0 <= i <= intervention@.len(),
            ordered_texts(out@),
            forall|x: Seq<char>| #[trigger] listed(out@, x) <==> listed(intervention@.subrange(0, i as int), x),
        decreases intervention@.len() - i,
    {
        insert_ordered(&mut out, intervention[i].clone());
        proof {
            let pre = intervention@.subrange(0, i as int);
            let post = intervention@.subrange(0, i + 1);
            assert forall|x: Seq<char>| #[trigger] listed(post, x) <==> (listed(pre, x) || x == intervention@[i as int]@) by {
                if listed(post, x) {
                    let k = choose|k: int| 0 <= k < post.len() && (#[trigger] post[k])@ == x;
                    if k < i {
                        assert(pre[k] == post[k]);
                    }
                }
                if listed(pre, x) {
                    let k = choose|k: int| 0 <= k < pre.len() && (#[trigger] pre[k])@ == x;
                    assert(post[k] == pre[k]);
                }
                if x == intervention@[i as int]@ {
                    assert(post[i as int] == intervention@[i as int]);
                }
            }
        }
        i = i + 1;
    }
    assert(intervention@.subrange(0, intervention@.len() as int) =~= intervention@);
    let ghost from_intervention = out@;
    match &grant.required_checks {
        Some(required) => {
            let mut j: usize = 0;
            while j < required.len()
                invariant
                    0 <= j <= required@.len(),
                    ordered_texts(out@),
                    forall|x: Seq<char>| #[trigger] listed(out@, x) <==> (listed(intervention@, x)
                        || listed(required@.subrange(0, j as int), x)),
                decreases required@.len() - j,
            {
                insert_ordered(&mut out, required[j].clone());
                proof {
                    let pre = required@.subrange(0, j as int);
                    let post = required@.subrange(0, j + 1);
                    assert forall|x: Seq<char>| #[trigger] listed(post, x) <==> (listed(pre, x) || x == required@[j as int]@) by {
                        if listed(post, x) {
                            let k = choose|k: int| 0 <= k < post.len() && (#[trigger] post[k])@ == x;
                            if k < j {
                                assert(pre[k] == post[k]);
                            }
                        }
                        if listed(pre, x) {
                            let k = choose|k: int| 0 <= k < pre.len() && (#[trigger] pre[k])@ == x;
                            assert(post[k] == pre[k]);
                        }
                        if x == required@[j as int]@ {
                            assert(post[j as int] == required@[j as int]);
                        }
                    }
                }
                j = j + 1;
            }
            assert(required@.subrange(0, required@.len() as int) =~= required@);
        },
        None => {},
    }
    assert forall|x: Seq<char>| #[trigger] listed(out@, x) <==> acceptance_named(intervention@, *grant, x) by {}
    if out.len() == 0 {
        proof {
            assert forall|x: Seq<char>| !#[trigger] acceptance_named(intervention@, *grant, x) by {
                if acceptance_named(intervention@, *grant, x) {
                    assert(listed(out@, x));
                }
            }
        }
        return Err(Error::denied("apply requires named acceptance checks"));
    }
    assert(acceptance_named(intervention@, *grant, out@[0]@)) by {
        assert(listed(out@, out@[0]@));
    }
    Ok(out)
}

/// Acceptance evidence still matches what the application pinned: the check it names,
/// the branch, a passed outcome, the owner's checker policy and the pinned checker.
pub open spec fn certificate_current(cert: ValidationEvidence, name: Seq<char>, branch: Option<Seq<char>>,
    policy_version: Seq<char>, pinned: Seq<char>) -> bool {
    &&& cert.check_ref@ == name
    &&& crate::compare::opt_text(cert.branch_id) == branch
    &&& cert.outcome == ValidationEvidenceOutcome::Passed
    &&& cert.policy_version@ == policy_version
    &&& cert.checker_version@ == pinned
}

/// Refuses acceptance evidence that no longer matches what the application pinned.
pub fn require_certificate_current(cert: &ValidationEvidence, name: &String, branch: &Option<String>,
    policy_version: &String, pinned: &String) -> (r: Result<()>)
    ensures
        certificate_current(*cert, name@, crate::compare::opt_text(*branch), policy_version@, pinned@) ==> r is Ok,
        !certificate_current(*cert, name@, crate::compare::opt_text(*branch), policy_version@, pinned@)
            ==> (r matches Err(e) && e.code == CONFLICT),
        cert.policy_version@ != policy_version@ ==> (r matches Err(e) && e.code == CONFLICT),
        cert.checker_version@ != pinned@ ==> (r matches Err(e) && e.code == CONFLICT),
{
    let same_branch = crate::compare::opt_text_eq(&cert.branch_id, branch);
    if cert.check_ref != *name || !same_branch || cert.outcome != ValidationEvidenceOutcome::Passed
        || cert.policy_version != *policy_version || cert.checker_version != *pinned {
        return Err(Error::conflict("acceptance check evidence no longer matches the pinned checker, branch or policy"));
    }
    Ok(())
}

/// Acceptance evidence is current only when it names the pinned check on the pinned
/// branch, passed, was produced under the owner's current checker policy and by the
/// pinned checker version: evidence that differs in any of these is refused.
pub proof fn law_stale_certificate_refused(cert: ValidationEvidence, name: Seq<char>, branch: Option<Seq<char>>,
    policy_version: Seq<char>, pinned: Seq<char>)
    ensures
        cert.policy_version@ != policy_version ==> !certificate_current(cert, name, branch, policy_version, pinned),
        cert.checker_version@ != pinned ==> !certificate_current(cert, name, branch, policy_version, pinned),
        cert.check_ref@ != name ==> !certificate_current(cert, name, branch, policy_version, pinned),
        cert.outcome != ValidationEvidenceOutcome::Passed ==> !certificate_current(cert, name, branch, policy_version, pinned),
        crate::compare::opt_text(cert.branch_id) != branch ==> !certificate_current(cert, name, branch, policy_version, pinned),
{
}

/// Some acceptance check explicitly validated the artifact.
pub open spec fn validated_artifact(validations: Seq<ValidationEvidence>, artifact: ArtifactRef) -> bool {
    exists|i: int, j: int|
        0 <= i < validations.len() && 0 <= j < validations[i].targets@.len()
            && (#[trigger] validations[i].targets@[j]).path@ == artifact.path@
            && validations[i].targets@[j].version@ == artifact.version@
}

/// Refuses an application whose artifact no acceptance check explicitly validated.
pub fn require_validated_artifact(validations: &Vec<ValidationEvidence>, artifact: &ArtifactRef) -> (r: Result<()>)
    ensures
        validated_artifact(validations@, *artifact) ==> r is Ok,
        !validated_artifact(validations@, *artifact) ==> (r matches Err(e) && e.code == DENIED),
{
    let mut i: usize = 0;
    while i < validations.len()
        invariant
            0 <= i <= validations@.len(),
            forall|p: int, q: int|
                0 <= p < i && 0 <= q < validations@[p].targets@.len() ==> !((#[trigger] validations@[p].targets@[q]).path@
                    == artifact.path@ && validations@[p].targets@[q].version@ == artifact.version@),
        decreases validations@.len() - i,
    {
        let targets = &validations[i].targets;
        let mut j: usize = 0;
        while j < targets.len()
            invariant
                0 <= i < validations@.len(),
                0 <= j <= targets@.len(),
                targets@ == validations@[i as int].targets@,
                forall|q: int| 0 <= q < j ==> !((#[trigger] targets@[q]).path@ == artifact.path@
                    && targets@[q].version@ == artifact.version@),
            decreases targets@.len() - j,
        {
            if targets[j].path == artifact.path && targets[j].version == artifact.version {
                assert(validations@[i as int].targets@[j as int] == targets@[j as int]);
                return Ok(());
            }
            j = j + 1;
        }
        i = i + 1;
    }
    Err(Error::denied("acceptance checks did not explicitly validate the applied artifact"))
}

/// What a refused dispatch records: before the effect was prepared for dispatch, a
/// denial, a conflict or any other failure, and nothing was dispatched; afterwards,
/// the outcome is unknown and unresolved.
pub open spec fn refusal_status(code: i32, no_effect: bool) -> (EffectStatus, EffectOutcomeBasis) {
    if no_effect {
        (if code == DENIED {
            EffectStatus::Denied
        } else if code == CONFLICT {
            EffectStatus::Stale
        } else {
            EffectStatus::Failed
        }, EffectOutcomeBasis::NotDispatched)
    } else {
        (EffectStatus::Unknown, EffectOutcomeBasis::Unresolved)
    }
}

pub fn refused_dispatch(code: i32, no_effect: bool) -> (r: (EffectStatus, EffectOutcomeBasis))
    ensures
        r == refusal_status(code, no_effect),
{
    if no_effect {
        let status = if code == DENIED {
            EffectStatus::Denied
        } else if code == CONFLICT {
            EffectStatus::Stale
        } else {
            EffectStatus::Failed
        };
        (status, EffectOutcomeBasis::NotDispatched)
    } else {
        (EffectStatus::Unknown, EffectOutcomeBasis::Unresolved)
    }
}

} // verus!
