//! What the workspace adapter reports back to the host.

use vstd::prelude::*;
use crate::contracts::{ArtifactRef, PropertyBinding, ValidationEvidenceOutcome};
use crate::effect_validation::{find_at, first_at};

verus! {

/// The outcome of a registered check as the workspace adapter reports it.
#[derive(Debug)]
pub struct CheckOutput {
    pub success: bool,
    pub output: String,
    pub before: Vec<ArtifactRef>,
    pub after: Vec<ArtifactRef>,
    pub validates: Vec<String>,
    pub writes: Vec<String>,
    pub checker_version: String,
    pub validation_outcome: ValidationEvidenceOutcome,
    pub properties: Vec<PropertyBinding>,
}

/// What the workspace adapter answered about the checkers and artifacts a decision reads:
/// the installed version of each checker, by name, and the current version of each artifact
/// of the grant's workspace, by path. A checker or path the adapter could not answer for is
/// absent; where one occurs twice, the first entry is the answer.
#[derive(Debug)]
pub struct HostReport {
    pub checkers: Vec<(String, String)>,
    pub artifacts: Vec<ArtifactRef>,
}

/// The version the report gives for checker `name`.
pub open spec fn reported_checker(checkers: Seq<(String, String)>, name: Seq<char>) -> Option<Seq<char>>
    decreases checkers.len(),
{
    if checkers.len() == 0 {
        None
    } else if checkers[0].0@ == name {
        Some(checkers[0].1@)
    } else {
        reported_checker(checkers.drop_first(), name)
    }
}

impl HostReport {
    /// The report shows the artifact at its current version.
    pub open spec fn reports_current(self, a: ArtifactRef) -> bool {
        first_at(self.artifacts@, a.path@) matches Some(c) && c.version@ == a.version@
    }

    /// The report gives `version` as the installed version of checker `name`.
    pub fn reports_checker(&self, name: &String, version: &String) -> (r: bool)
        ensures
            r == (reported_checker(self.checkers@, name@) == Some(version@)),
    {
        let mut i: usize = 0;
        assert(self.checkers@.subrange(0, self.checkers@.len() as int) =~= self.checkers@);
        while i < self.checkers.len()
            invariant
                0 <= i <= self.checkers@.len(),
                reported_checker(self.checkers@, name@)
                    == reported_checker(self.checkers@.subrange(i as int, self.checkers@.len() as int), name@),
            decreases self.checkers@.len() - i,
        {
            let ghost rest = self.checkers@.subrange(i as int, self.checkers@.len() as int);
            assert(rest.drop_first() =~= self.checkers@.subrange(i + 1, self.checkers@.len() as int));
            if self.checkers[i].0 == *name {
                return self.checkers[i].1 == *version;
            }
            i = i + 1;
        }
        false
    }

    /// The report shows the artifact at its current version.
    pub fn is_current(&self, a: &ArtifactRef) -> (r: bool)
        ensures
            r == self.reports_current(*a),
    {
        match find_at(&self.artifacts, &a.path) {
            Some(c) => c.version == a.version,
            None => false,
        }
    }

    /// The report shows every listed artifact at its current version.
    pub fn all_current(&self, v: &Vec<ArtifactRef>) -> (r: bool)
        ensures
            r == (forall|i: int| 0 <= i < v@.len() ==> self.reports_current(#[trigger] v@[i])),
    {
        let mut i: usize = 0;
        while i < v.len()
            invariant
                0 <= i <= v@.len(),
                forall|k: int| 0 <= k < i ==> self.reports_current(#[trigger] v@[k]),
            decreases v@.len() - i,
        {
            if !self.is_current(&v[i]) {
                return false;
            }
            i = i + 1;
        }
        true
    }
}

} // verus!
