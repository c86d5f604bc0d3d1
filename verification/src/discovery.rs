//! The decisions a discovery record must be consistent with before it is accepted: the
//! assigned corpus, its verdict against its hypotheses and definitions, the events its
//! source windows cite, and the runs and work item it claims.

use vstd::prelude::*;
use crate::compare::{opt_text, same_version_ref, texts};
use crate::contracts::{DiscoveryDecision, DiscoveryHypothesis, DiscoveryHypothesisDecision, Grant, VersionRef};
use crate::error::{Error, Result, DENIED, INVALID, MISSING};
use crate::store::{EventRow, Store};

verus! {

/// A source window of a discovery: the execution it reads and the events it cites.
#[derive(Debug)]
pub struct DiscoveryWindowRefs {
    pub execution: String,
    pub event_refs: Vec<String>,
}

/// The parts of a discovery record that its acceptance decides on.
#[derive(Debug)]
pub struct DiscoveryClaim {
    pub work_ref: Option<String>,
    pub corpus: VersionRef,
    pub source_windows: Vec<DiscoveryWindowRefs>,
    pub hypotheses: Vec<DiscoveryHypothesis>,
    pub definition_refs: Vec<VersionRef>,
    pub decision: DiscoveryDecision,
    pub run_refs: Vec<String>,
}

/// The hypothesis proposes a motif rather than rejecting it or leaving it open.
pub open spec fn proposes(h: DiscoveryHypothesis) -> bool {
    h.decision != DiscoveryHypothesisDecision::Reject && h.decision != DiscoveryHypothesisDecision::Inconclusive
}

/// The position of the first logged event with identifier `id`.
pub open spec fn first_with_id(rows: Seq<EventRow>, id: Seq<char>) -> Option<int>
    decreases rows.len(),
{
    if rows.len() == 0 {
        None
    } else if rows[0].event.id@ == id {
        Some(0)
    } else {
        match first_with_id(rows.drop_first(), id) {
            Some(k) => Some(k + 1),
            None => None,
        }
    }
}

/// The log holds the event `id`, and it belongs to `execution`.
pub open spec fn cites_execution(rows: Seq<EventRow>, id: Seq<char>, execution: Seq<char>) -> bool {
    first_with_id(rows, id) matches Some(j) && rows[j].event.run_id@ == execution
}

impl Store {
    /// The refusal owed by the first of `refs` that is not a run of `grant`: an unknown
    /// run is missing, a run of another grant is denied.
    pub open spec fn run_refs_failure(self, grant: Grant, refs: Seq<String>) -> Option<i32>
        decreases refs.len(),
    {
        if refs.len() == 0 {
            None
        } else if !self.run_grant_known(refs[0]@) {
            Some(MISSING)
        } else if self.grant_at(self.run_at(refs[0]@).grant_id@).id@ != grant.id@ {
            Some(DENIED)
        } else {
            self.run_refs_failure(grant, refs.drop_first())
        }
    }

    /// A work item of `grant` with identifier `work` is stored.
    pub open spec fn grant_work(self, grant: Grant, work: Seq<char>) -> bool {
        exists|i: int| 0 <= i < self.work@.len() && (#[trigger] self.work@[i]).item.id@ == work
            && self.work@[i].grant_id@ == grant.id@
    }

    /// The refusal a discovery submitted under `grant` by `run` is owed, if any, in the
    /// order the checks are made: a corpus other than the assigned one is denied; a
    /// supported verdict needs a hypothesis and a pinned definition, a verdict of no
    /// motif claims no definition, and a proposing hypothesis needs supporting
    /// references; every cited event must be logged and belong to its window's
    /// execution; the runs claimed must include the submitting run and be runs of the
    /// grant; and a claimed work item must be the grant's and the submitting run's own.
    pub open spec fn discovery_failure(self, grant: Grant, d: DiscoveryClaim, run: Option<Seq<char>>) -> Option<i32> {
        if grant.discovery_corpus matches Some(c) && !same_version_ref(c, d.corpus) {
            Some(DENIED)
        } else if d.decision == DiscoveryDecision::Supported && (d.definition_refs@.len() == 0 || d.hypotheses@.len() == 0) {
            Some(INVALID)
        } else if d.decision == DiscoveryDecision::NoMotif && d.definition_refs@.len() > 0 {
            Some(INVALID)
        } else if exists|i: int| 0 <= i < d.hypotheses@.len() && proposes(#[trigger] d.hypotheses@[i])
            && d.hypotheses@[i].support_refs@.len() == 0 {
            Some(INVALID)
        } else if exists|w: int, k: int| 0 <= w < d.source_windows@.len()
            && 0 <= k < d.source_windows@[w].event_refs@.len()
            && !cites_execution(self.events@, (#[trigger] d.source_windows@[w].event_refs@[k])@, d.source_windows@[w].execution@) {
            Some(INVALID)
        } else if run matches Some(r) && !texts(d.run_refs@).contains(r) {
            Some(INVALID)
        } else if self.run_refs_failure(grant, d.run_refs@) is Some {
            self.run_refs_failure(grant, d.run_refs@)
        } else if d.work_ref matches Some(w) && (!self.grant_work(grant, w@) || (run matches Some(r) && r != w@)) {
            Some(DENIED)
        } else {
            None
        }
    }
}

fn text_listed(v: &Vec<String>, s: &String) -> (r: bool)
    ensures
        r == texts(v@).contains(s@),
{
    let mut i: usize = 0;
    while i < v.len()
        invariant
            0 <= i <= v@.len(),
            forall|k: int| 0 <= k < i ==> (#[trigger] v@[k])@ != s@,
        decreases v@.len() - i,
    {
        if v[i] == *s {
            proof {
                assert(texts(v@)[i as int] == s@);
            }
            return true;
        }
        i = i + 1;
    }
    proof {
        if texts(v@).contains(s@) {
            let k = choose|k: int| 0 <= k < texts(v@).len() && texts(v@)[k] == s@;
            assert(v@[k]@ == s@);
        }
    }
    false
}

impl Store {
    fn cites(&self, id: &String, execution: &String) -> (r: bool)
        ensures
            r == cites_execution(self.events@, id@, execution@),
    {
        let mut i: usize = 0;
        assert(self.events@.subrange(0, self.events@.len() as int) =~= self.events@);
        while i < self.events.len()
            invariant
                0 <= i <= self.events@.len(),
                forall|k: int| 0 <= k < i ==> (#[trigger] self.events@[k]).event.id@ != id@,
                first_with_id(self.events@, id@) == match first_with_id(self.events@.subrange(i as int, self.events@.len() as int), id@) {
                    Some(k) => Some(k + i),
                    None => None::<int>,
                },
            decreases self.events@.len() - i,
        {
            let ghost rest = self.events@.subrange(i as int, self.events@.len() as int);
            assert(rest.drop_first() =~= self.events@.subrange(i + 1, self.events@.len() as int));
            if self.events[i].event.id == *id {
                return self.events[i].event.run_id == *execution;
            }
            i = i + 1;
        }
        false
    }

    fn runs_failure(&self, grant: &Grant, refs: &Vec<String>) -> (r: Option<i32>)
        requires
            self.wf(),
        ensures
            r == self.run_refs_failure(*grant, refs@),
            r == Some(MISSING) || r == Some(DENIED) || r is None,
    {
        let mut i: usize = 0;
        assert(refs@.subrange(0, refs@.len() as int) =~= refs@);
        while i < refs.len()
            invariant
                self.wf(),
                0 <= i <= refs@.len(),
                self.run_refs_failure(*grant, refs@) == self.run_refs_failure(*grant, refs@.subrange(i as int, refs@.len() as int)),
            decreases refs@.len() - i,
        {
            let ghost rest = refs@.subrange(i as int, refs@.len() as int);
            assert(rest.drop_first() =~= refs@.subrange(i + 1, refs@.len() as int));
            assert(rest[0] == refs@[i as int]);
            match self.run_grant(&refs[i]) {
                Ok(g) => {
                    if g.id != grant.id {
                        return Some(DENIED);
                    }
                },
                Err(_) => {
                    return Some(MISSING);
                },
            }
            i = i + 1;
        }
        assert(refs@.subrange(i as int, refs@.len() as int).len() == 0);
        None
    }

    fn holds_work(&self, grant: &Grant, work: &String) -> (r: bool)
        ensures
            r == self.grant_work(*grant, work@),
    {
        let mut i: usize = 0;
        while i < self.work.len()
            invariant
                0 <= i <= self.work@.len(),
                forall|k: int| 0 <= k < i ==> !((#[trigger] self.work@[k]).item.id@ == work@
                    && self.work@[k].grant_id@ == grant.id@),
            decreases self.work@.len() - i,
        {
            if self.work[i].item.id == *work && self.work[i].grant_id == grant.id {
                return true;
            }
            i = i + 1;
        }
        false
    }

    /// Checks a discovery submitted under `grant` by `run` before it is accepted,
    /// refusing it as `discovery_failure` states.
    pub fn validate_discovery(&self, grant: &Grant, d: &DiscoveryClaim, run: &Option<String>) -> (r: Result<()>)
        requires
            self.wf(),
        ensures
            match self.discovery_failure(*grant, *d, opt_text(*run)) {
                Some(code) => r matches Err(e) && e.code == code,
                None => r is Ok,
            },
    {
        match &grant.discovery_corpus {
            Some(c) => {
                if !(c.id == d.corpus.id && c.version == d.corpus.version) {
                    return Err(Error::denied("discovery corpus must match the host assignment"));
                }
            },
            None => {},
        }
        if d.decision == DiscoveryDecision::Supported && (d.definition_refs.len() == 0 || d.hypotheses.len() == 0) {
            return Err(Error::invalid("supported discovery requires a hypothesis and pinned definition"));
        }
        if d.decision == DiscoveryDecision::NoMotif && d.definition_refs.len() > 0 {
            return Err(Error::invalid("no_motif cannot claim output definitions"));
        }
        let mut h: usize = 0;
        while h < d.hypotheses.len()
            invariant
                !(grant.discovery_corpus matches Some(c) && !same_version_ref(c, d.corpus)),
                !(d.decision == DiscoveryDecision::Supported && (d.definition_refs@.len() == 0 || d.hypotheses@.len() == 0)),
                !(d.decision == DiscoveryDecision::NoMotif && d.definition_refs@.len() > 0),
                0 <= h <= d.hypotheses@.len(),
                forall|k: int| 0 <= k < h ==> !(proposes(#[trigger] d.hypotheses@[k]) && d.hypotheses@[k].support_refs@.len() == 0),
            decreases d.hypotheses@.len() - h,
        {
            let decision = d.hypotheses[h].decision;
            let open = decision == DiscoveryHypothesisDecision::Reject || decision == DiscoveryHypothesisDecision::Inconclusive;
            if !open && d.hypotheses[h].support_refs.len() == 0 {
                proof {
                    assert(proposes(d.hypotheses@[h as int]));
                }
                return Err(Error::invalid("a proposed motif requires supporting references"));
            }
            h = h + 1;
        }
        let mut w: usize = 0;
        while w < d.source_windows.len()
            invariant
                !(grant.discovery_corpus matches Some(c) && !same_version_ref(c, d.corpus)),
                !(d.decision == DiscoveryDecision::Supported && (d.definition_refs@.len() == 0 || d.hypotheses@.len() == 0)),
                !(d.decision == DiscoveryDecision::NoMotif && d.definition_refs@.len() > 0),
                forall|k: int| 0 <= k < d.hypotheses@.len() ==> !(proposes(#[trigger] d.hypotheses@[k]) && d.hypotheses@[k].support_refs@.len() == 0),
                0 <= w <= d.source_windows@.len(),
                forall|a: int, k: int| 0 <= a < w && 0 <= k < d.source_windows@[a].event_refs@.len()
                    ==> cites_execution(self.events@, (#[trigger] d.source_windows@[a].event_refs@[k])@, d.source_windows@[a].execution@),
            decreases d.source_windows@.len() - w,
        {
            let window = &d.source_windows[w];
            let mut k: usize = 0;
            while k < window.event_refs.len()
                invariant
                    !(grant.discovery_corpus matches Some(c) && !same_version_ref(c, d.corpus)),
                    !(d.decision == DiscoveryDecision::Supported && (d.definition_refs@.len() == 0 || d.hypotheses@.len() == 0)),
                    !(d.decision == DiscoveryDecision::NoMotif && d.definition_refs@.len() > 0),
                    forall|k: int| 0 <= k < d.hypotheses@.len() ==> !(proposes(#[trigger] d.hypotheses@[k]) && d.hypotheses@[k].support_refs@.len() == 0),
                    0 <= w < d.source_windows@.len(),
                    *window == d.source_windows@[w as int],
                    0 <= k <= window.event_refs@.len(),
                    forall|a: int, j: int| 0 <= a < w && 0 <= j < d.source_windows@[a].event_refs@.len()
                        ==> cites_execution(self.events@, (#[trigger] d.source_windows@[a].event_refs@[j])@, d.source_windows@[a].execution@),
                    forall|j: int| 0 <= j < k ==> cites_execution(self.events@, (#[trigger] window.event_refs@[j])@, window.execution@),
                decreases window.event_refs@.len() - k,
            {
                if !self.cites(&window.event_refs[k], &window.execution) {
                    proof {
                        assert(!cites_execution(self.events@, d.source_windows@[w as int].event_refs@[k as int]@,
                            d.source_windows@[w as int].execution@));
                        assert(exists|a: int, j: int| 0 <= a < d.source_windows@.len()
                            && 0 <= j < d.source_windows@[a].event_refs@.len()
                            && !cites_execution(self.events@, (#[trigger] d.source_windows@[a].event_refs@[j])@, d.source_windows@[a].execution@));
                    }
                    return Err(Error::invalid("discovery window event must be logged and belong to its execution"));
                }
                k = k + 1;
            }
            w = w + 1;
        }
        match run {
            Some(r) => {
                if !text_listed(&d.run_refs, r) {
                    return Err(Error::invalid("discovery run_refs must include the submitting run"));
                }
            },
            None => {},
        }
        match self.runs_failure(grant, &d.run_refs) {
            Some(code) => {
                if code == MISSING {
                    return Err(Error::missing("run not found"));
                }
                return Err(Error::denied("discovery run is outside this root grant"));
            },
            None => {},
        }
        match &d.work_ref {
            Some(work) => {
                let other = match run {
                    Some(r) => *r != *work,
                    None => false,
                };
                if !self.holds_work(grant, work) || other {
                    return Err(Error::denied("discovery work must be the submitting run's owned work item"));
                }
            },
            None => {},
        }
        Ok(())
    }
}

} // verus!
