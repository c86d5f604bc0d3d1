//! Parking: a run waits on its direct child work, resumes once that work settled, and
//! stops waiting children when it is cancelled or exhausted.

use vstd::prelude::*;
use crate::contracts::{BudgetAllocation, Disposition, WorkItem, WorkItemStatus, WorkWaitRequest, WorkWaitResult};
use crate::error::{Error, Result, CONFLICT, DENIED, INVALID, MISSING};
use crate::store::{opt_view, RunStatus, Store, WorkEntry};

verus! {

/// A work item in this status will not change again.
pub open spec fn is_terminal(status: WorkItemStatus) -> bool {
    !(status is Queued || status is Running || status is Interrupted)
}

pub fn terminal(status: &WorkItemStatus) -> (r: bool)
    ensures
        r == is_terminal(*status),
{
    !matches!(status, WorkItemStatus::Queued | WorkItemStatus::Running | WorkItemStatus::Interrupted)
}

/// The identifier occurs in the list.
pub open spec fn listed(ids: Seq<String>, id: Seq<char>) -> bool {
    exists|k: int| 0 <= k < ids.len() && (#[trigger] ids[k])@ == id
}

pub(crate) fn is_listed(ids: &Vec<String>, id: &String) -> (r: bool)
    ensures
        r == listed(ids@, id@),
{
    let mut i: usize = 0;
    while i < ids.len()
        invariant
            0 <= i <= ids@.len(),
            forall|k: int| 0 <= k < i ==> (#[trigger] ids@[k])@ != id@,
        decreases ids@.len() - i,
    {
        if ids[i] == *id {
            return true;
        }
        i = i + 1;
    }
    false
}

/// The status a stopped child takes for a stopping disposition.
pub open spec fn stopped_status(d: Disposition) -> WorkItemStatus {
    if d is Cancelled { WorkItemStatus::Cancelled } else { WorkItemStatus::Exhausted }
}

impl Store {
    /// Work row `j` is a direct child of run `run` under the run's grant.
    pub open spec fn row_is_child(self, run: Seq<char>, j: int) -> bool {
        &&& 0 <= j < self.work@.len()
        &&& self.work@[j].grant_id@ == self.run_at(run).grant_id@
        &&& self.work@[j].item.parent_id@ == run
    }

    pub open spec fn has_child(self, run: Seq<char>, id: Seq<char>) -> bool {
        exists|j: int| #[trigger] self.row_is_child(run, j) && self.work@[j].item.id@ == id
    }

    pub open spec fn child_index(self, run: Seq<char>, id: Seq<char>) -> int {
        choose|j: int| #[trigger] self.row_is_child(run, j) && self.work@[j].item.id@ == id
    }

    pub open spec fn child_status(self, run: Seq<char>, id: Seq<char>) -> WorkItemStatus {
        self.work@[self.child_index(run, id)].item.status
    }

    /// Why a run may not wait on these work items, if it may not: each must be its
    /// direct child.
    pub open spec fn wait_failure(self, run: Seq<char>, ids: Seq<String>) -> Option<i32> {
        if ids.len() == 0 {
            None
        } else if !self.run_grant_known(run) {
            Some(MISSING)
        } else if exists|k: int| 0 <= k < ids.len() && !self.has_child(run, (#[trigger] ids[k])@) {
            Some(DENIED)
        } else {
            None
        }
    }

    /// Some listed child has not reached a terminal status.
    pub open spec fn wait_required(self, run: Seq<char>, ids: Seq<String>) -> bool {
        exists|k: int| 0 <= k < ids.len() && !is_terminal(self.child_status(run, (#[trigger] ids[k])@))
    }

    /// A direct child work item of a run.
    fn child_work(&self, parent: &String, id: &String) -> (r: Result<&WorkItem>)
        requires
            self.wf(),
        ensures
            !self.run_grant_known(parent@) ==> (r matches Err(e) && e.code == MISSING),
            self.run_grant_known(parent@) && !self.has_child(parent@, id@) ==> (r matches Err(e) && e.code == DENIED),
            self.run_grant_known(parent@) && self.has_child(parent@, id@) ==> (r matches Ok(w)
                && *w == self.work@[self.child_index(parent@, id@)].item),
    {
        let grant = self.run_grant(parent)?;
        let mut j: usize = 0;
        while j < self.work.len()
            invariant
                self.wf(),
                0 <= j <= self.work@.len(),
                self.run_grant_known(parent@),
                grant.id@ == self.run_at(parent@).grant_id@,
                forall|k: int| 0 <= k < j ==> !(#[trigger] self.row_is_child(parent@, k) && self.work@[k].item.id@ == id@),
            decreases self.work@.len() - j,
        {
            let w = &self.work[j];
            if w.item.id == *id && w.grant_id == grant.id && w.item.parent_id == *parent {
                proof {
                    assert(self.row_is_child(parent@, j as int));
                    let c = self.child_index(parent@, id@);
                    if c != j {
                        if c < j {
                            assert(self.work@[c].item.id@ != self.work@[j as int].item.id@);
                        } else {
                            assert(self.work@[j as int].item.id@ != self.work@[c].item.id@);
                        }
                    }
                }
                return Ok(&w.item);
            }
            j = j + 1;
        }
        Err(Error::denied("waiting and status require this run's direct child work"))
    }

    /// Whether a run still has to wait on the listed child work.
    pub fn work_wait_status(&self, run: &String, request: &WorkWaitRequest) -> (r: Result<WorkWaitResult>)
        requires
            self.wf(),
        ensures
            match self.wait_failure(run@, request.work_ids@) {
                Some(code) => r matches Err(e) && e.code == code,
                None => r matches Ok(res) && res.work_ids@ == request.work_ids@
                    && res.wait_required == self.wait_required(run@, request.work_ids@),
            },
    {
        let ids = &request.work_ids;
        let mut waiting = false;
        let mut echoed: Vec<String> = Vec::new();
        let mut i: usize = 0;
        while i < ids.len()
            invariant
                self.wf(),
                0 <= i <= ids@.len(),
                ids@ == request.work_ids@,
                i > 0 ==> self.run_grant_known(run@),
                forall|k: int| 0 <= k < i ==> self.has_child(run@, (#[trigger] ids@[k])@),
                waiting == exists|k: int| 0 <= k < i && !is_terminal(self.child_status(run@, (#[trigger] ids@[k])@)),
                echoed@ == ids@.subrange(0, i as int),
            decreases ids@.len() - i,
        {
            let child = match self.child_work(run, &ids[i]) {
                Ok(c) => c,
                Err(e) => {
                    proof {
                        assert(ids@.len() > 0);
                        if self.run_grant_known(run@) {
                            assert(!self.has_child(run@, ids@[i as int]@));
                            assert(self.wait_failure(run@, request.work_ids@) == Some(DENIED));
                        } else {
                            assert(self.wait_failure(run@, request.work_ids@) == Some(MISSING));
                        }
                    }
                    return Err(e);
                },
            };
            if !terminal(&child.status) {
                waiting = true;
            }
            echoed.push(ids[i].clone());
            assert(echoed@ =~= ids@.subrange(0, i + 1));
            i = i + 1;
        }
        assert(ids@.subrange(0, ids@.len() as int) =~= ids@);
        Ok(WorkWaitResult { work_ids: echoed, wait_required: waiting })
    }

    /// Whether a running run still has to wait on the listed child work.
    pub fn wait_for_work(&self, run: &String, request: &WorkWaitRequest) -> (r: Result<WorkWaitResult>)
        requires
            self.wf(),
        ensures
            !self.run_active(run@) ==> (r matches Err(e) && e.code == (if self.run_grant_known(run@) { DENIED } else { MISSING })),
            self.run_active(run@) ==> match self.wait_failure(run@, request.work_ids@) {
                Some(code) => r matches Err(e) && e.code == code,
                None => r matches Ok(res) && res.work_ids@ == request.work_ids@
                    && res.wait_required == self.wait_required(run@, request.work_ids@),
            },
    {
        self.require_active(run)?;
        self.work_wait_status(run, request)
    }

    /// A parked run has a waiting continuation.
    pub open spec fn waits_for(self, run: Seq<char>) -> bool {
        exists|i: int| 0 <= i < self.waits@.len() && #[trigger] self.waits@[i].run_id@ == run
    }

    pub open spec fn wait_index(self, run: Seq<char>) -> int {
        choose|i: int| 0 <= i < self.waits@.len() && #[trigger] self.waits@[i].run_id@ == run
    }

    /// The child work a parked run waits on.
    pub open spec fn wait_ids(self, run: Seq<char>) -> Seq<String> {
        self.waits@[self.wait_index(run)].work_ids@
    }

    /// The row of a run's waiting continuation.
    fn waiting_work(&self, run: &String) -> (r: Option<usize>)
        requires
            self.wf(),
        ensures
            match r {
                Some(i) => self.waits_for(run@) && i as int == self.wait_index(run@),
                None => !self.waits_for(run@),
            },
    {
        let mut i: usize = 0;
        while i < self.waits.len()
            invariant
                self.wf(),
                0 <= i <= self.waits@.len(),
                forall|k: int| 0 <= k < i ==> (#[trigger] self.waits@[k]).run_id@ != run@,
            decreases self.waits@.len() - i,
        {
            if self.waits[i].run_id == *run {
                proof {
                    assert(self.waits@[i as int].run_id@ == run@);
                    let c = self.wait_index(run@);
                    if c != i && c > i {
                        assert(self.waits@[i as int].run_id@ != self.waits@[c].run_id@);
                    }
                }
                return Some(i);
            }
            i = i + 1;
        }
        None
    }

    /// Why a parked run cannot resume, if it cannot.
    pub open spec fn resume_failure(self, run: Seq<char>) -> Option<i32> {
        if !self.waits_for(run) {
            Some(CONFLICT)
        } else {
            match self.wait_failure(run, self.wait_ids(run)) {
                Some(code) => Some(code),
                None => if self.wait_required(run, self.wait_ids(run)) { Some(CONFLICT) } else { None },
            }
        }
    }

    /// Resumes a parked run once every child it waits on settled: the continuation is
    /// removed and a waiting run is running again.
    pub fn resume_waiting(&mut self, run: &String) -> (r: Result<()>)
        requires
            old(self).wf(),
        ensures
            final(self).wf(),
            r is Ok ==> !final(self).waits_for(run@),
            match old(self).resume_failure(run@) {
                Some(code) => r matches Err(e) && e.code == code && Store::same(*final(self), *old(self)),
                None => r is Ok && {
                    &&& final(self).waits@ == old(self).waits@.remove(old(self).wait_index(run@))
                    &&& final(self).runs@.len() == old(self).runs@.len()
                    &&& forall|k: int| 0 <= k < old(self).runs@.len() ==> {
                        let o = #[trigger] old(self).runs@[k];
                        let n = final(self).runs@[k];
                        &&& n.id == o.id
                        &&& n.grant_id == o.grant_id
                        &&& n.status == (if o.id@ == run@ && o.status == RunStatus::Waiting { RunStatus::Running } else { o.status })
                    }
                    &&& final(self).grants@ == old(self).grants@
                    &&& final(self).allocations@ == old(self).allocations@
                    &&& final(self).run_allocations@ == old(self).run_allocations@
                    &&& final(self).permits@ == old(self).permits@
                    &&& final(self).effects@ == old(self).effects@
                    &&& final(self).work@ == old(self).work@
                    &&& final(self).compactions@ == old(self).compactions@
                    &&& final(self).attachments@ == old(self).attachments@
                    &&& final(self).attachment_work@ == old(self).attachment_work@
                    &&& final(self).feedback@ == old(self).feedback@
                    &&& final(self).contexts == old(self).contexts && final(self).validity == old(self).validity && final(self).corpora@ == old(self).corpora@ && final(self).archive == old(self).archive
                    &&& final(self).messages == old(self).messages
                    &&& final(self).events@ == old(self).events@
                },
            },
    {
        let w = match self.waiting_work(run) {
            Some(w) => w,
            None => return Err(Error::conflict("run has no waiting continuation")),
        };
        let request = WorkWaitRequest { work_ids: clone_ids(&self.waits[w].work_ids) };
        let status = self.work_wait_status(run, &request)?;
        if status.wait_required {
            return Err(Error::conflict("child work has not settled"));
        }
        let ghost old_store = *self;
        self.waits.remove(w);
        let mut k: usize = 0;
        while k < self.runs.len()
            invariant
                0 <= k <= self.runs@.len(),
                self.runs@.len() == old_store.runs@.len(),
                self.grants == old_store.grants,
                self.allocations == old_store.allocations,
                self.run_allocations == old_store.run_allocations,
                self.permits == old_store.permits,
                self.effects == old_store.effects,
                self.work == old_store.work,
                self.compactions == old_store.compactions,
                self.attachments == old_store.attachments,
                self.attachment_work == old_store.attachment_work,
                self.feedback == old_store.feedback,
                self.contexts == old_store.contexts && self.validity == old_store.validity && self.corpora@ == old_store.corpora@ && self.archive == old_store.archive,
                self.messages == old_store.messages,
                self.events@ == old_store.events@,
                self.waits@ == old_store.waits@.remove(w as int),
                forall|q: int| k <= q < self.runs@.len() ==> self.runs@[q] == old_store.runs@[q],
                forall|q: int| 0 <= q < k ==> {
                    let o = #[trigger] old_store.runs@[q];
                    let n = self.runs@[q];
                    &&& n.id == o.id
                    &&& n.grant_id == o.grant_id
                    &&& n.status == (if o.id@ == run@ && o.status == RunStatus::Waiting { RunStatus::Running } else { o.status })
                },
            decreases self.runs@.len() - k,
        {
            if self.runs[k].id == *run && self.runs[k].status == RunStatus::Waiting {
                self.runs[k].status = RunStatus::Running;
            }
            k = k + 1;
        }
        proof {
            lemma_wf_resumed(old_store, *self, w as int);
            if self.waits_for(run@) {
                let q = choose|q: int| 0 <= q < self.waits@.len() && #[trigger] self.waits@[q].run_id@ == run@;
                let oq = if q < w { q } else { q + 1 };
                assert(self.waits@[q] == old_store.waits@[oq]);
                assert(old_store.waits@[w as int].run_id@ == run@);
                if oq < w {
                    assert(old_store.waits@[oq].run_id@ != old_store.waits@[w as int].run_id@);
                } else {
                    assert(old_store.waits@[w as int].run_id@ != old_store.waits@[oq].run_id@);
                }
            }
        }
        Ok(())
    }
}

/// A copy of a list of identifiers.
pub(crate) fn clone_ids(ids: &Vec<String>) -> (r: Vec<String>)
    ensures
        r@ == ids@,
{
    let mut out: Vec<String> = Vec::new();
    let mut i: usize = 0;
    while i < ids.len()
        invariant
            0 <= i <= ids@.len(),
            out@ == ids@.subrange(0, i as int),
        decreases ids@.len() - i,
    {
        out.push(ids[i].clone());
        assert(out@ =~= ids@.subrange(0, i + 1));
        i = i + 1;
    }
    assert(ids@.subrange(0, ids@.len() as int) =~= ids@);
    out
}

/// Removing a continuation and changing run statuses keeps the ledger well formed.
proof fn lemma_wf_resumed(old: Store, new: Store, w: int)
    requires
        old.wf(),
        0 <= w < old.waits@.len(),
        new.waits@ == old.waits@.remove(w),
        new.runs@.len() == old.runs@.len(),
        forall|q: int| 0 <= q < old.runs@.len() ==> (#[trigger] new.runs@[q]).id == old.runs@[q].id,
        new.grants == old.grants,
        new.allocations == old.allocations,
        new.run_allocations == old.run_allocations,
        new.permits == old.permits,
        new.work == old.work,
        new.compactions == old.compactions,
        new.attachments == old.attachments,
        new.attachment_work == old.attachment_work,
        new.feedback == old.feedback,
        new.events@ == old.events@,
    ensures
        new.wf(),
{
    assert forall|i: int, j: int|
        0 <= i < j < new.runs@.len() implies #[trigger] new.runs@[i].id@ != #[trigger] new.runs@[j].id@ by {
        assert(old.runs@[i].id@ != old.runs@[j].id@);
    }
    assert forall|i: int, j: int|
        0 <= i < j < new.waits@.len() implies #[trigger] new.waits@[i].run_id@ != #[trigger] new.waits@[j].run_id@ by {
        let oi = if i < w { i } else { i + 1 };
        let oj = if j < w { j } else { j + 1 };
        assert(new.waits@[i] == old.waits@[oi]);
        assert(new.waits@[j] == old.waits@[oj]);
        assert(old.waits@[oi].run_id@ != old.waits@[oj].run_id@);
    }
}


impl Store {
    /// Work row `j` is a listed direct child of the run.
    pub open spec fn row_waited(self, run: Seq<char>, ids: Seq<String>, j: int) -> bool {
        self.row_is_child(run, j) && listed(ids, self.work@[j].item.id@)
    }

    /// Some listed child of the run that has not settled draws on allocation `alloc`.
    pub open spec fn closes(self, run: Seq<char>, ids: Seq<String>, alloc: Seq<char>) -> bool {
        exists|j: int|
            #[trigger] self.row_waited(run, ids, j) && !is_terminal(self.work@[j].item.status)
                && opt_view(self.work@[j].allocation_id) == Some(alloc)
    }

    /// The outcome of stopping a parked run's children with disposition `d`. Listed
    /// children that have not settled lose their allowance; queued or interrupted ones
    /// stop at once, running ones are reported for their owner to settle.
    pub open spec fn stop_post(old: Store, new: Store, run: Seq<char>, d: Disposition, r: Result<Vec<String>>) -> bool {
        if !(d is Cancelled || d is Exhausted) {
            r matches Err(e) && e.code == INVALID && Store::same(new, old)
        } else if !old.waits_for(run) {
            r matches Ok(v) && v@.len() == 0 && Store::same(new, old)
        } else {
            let ids = old.wait_ids(run);
            match old.wait_failure(run, ids) {
                Some(code) => r matches Err(e) && e.code == code && Store::same(new, old),
                None => r matches Ok(v) && {
                    &&& v@ == ids.filter(|s: String| old.child_status(run, s@) is Running)
                    &&& new.work@.len() == old.work@.len()
                    &&& forall|j: int| 0 <= j < old.work@.len() ==> #[trigger] new.work@[j] == (
                        if old.row_waited(run, ids, j) && (old.work@[j].item.status is Queued
                            || old.work@[j].item.status is Interrupted) {
                            WorkEntry {
                                item: WorkItem { status: stopped_status(d), ..old.work@[j].item },
                                ..old.work@[j]
                            }
                        } else {
                            old.work@[j]
                        })
                    &&& new.allocations@.len() == old.allocations@.len()
                    &&& forall|a: int| 0 <= a < old.allocations@.len() ==> #[trigger] new.allocations@[a] == (
                        if old.closes(run, ids, old.allocations@[a].id@) {
                            BudgetAllocation { disposition: Some(d), ..old.allocations@[a] }
                        } else {
                            old.allocations@[a]
                        })
                    &&& new.grants@ == old.grants@
                    &&& new.runs@ == old.runs@
                    &&& new.run_allocations@ == old.run_allocations@
                    &&& new.permits@ == old.permits@
                    &&& new.effects@ == old.effects@
                    &&& new.compactions@ == old.compactions@
                    &&& new.attachments@ == old.attachments@
                    &&& new.attachment_work@ == old.attachment_work@
                    &&& new.feedback@ == old.feedback@
                    &&& new.waits@ == old.waits@
                    &&& new.contexts == old.contexts && new.validity == old.validity && new.corpora@ == old.corpora@ && new.archive == old.archive
                    &&& new.messages == old.messages
                    &&& new.events@ == old.events@
                },
            }
        }
    }

    /// Whether listed child row `j` of the run is unsettled and draws on `alloc`.
    fn row_closes(&self, run: &String, ids: &Vec<String>, j: usize, alloc: &String) -> (r: bool)
        requires
            self.wf(),
            j < self.work@.len(),
            self.run_grant_known(run@),
        ensures
            r == (self.row_waited(run@, ids@, j as int) && !is_terminal(self.work@[j as int].item.status)
                && opt_view(self.work@[j as int].allocation_id) == Some(alloc@)),
    {
        let grant = match self.run_grant(run) {
            Ok(g) => g,
            Err(_) => return false,
        };
        let w = &self.work[j];
        let owned = match &w.allocation_id {
            Some(a) => *a == *alloc,
            None => false,
        };
        w.grant_id == grant.id && w.item.parent_id == *run && !terminal(&w.item.status) && owned
            && is_listed(ids, &w.item.id)
    }

    /// Stops the children a parked run waits on, when the run is cancelled or exhausted,
    /// and returns the running children whose owners must still settle them.
    pub fn stop_waiting_children(&mut self, run: &String, disposition: &Disposition) -> (r: Result<Vec<String>>)
        requires
            old(self).wf(),
        ensures
            final(self).wf(),
            Store::stop_post(*old(self), *final(self), run@, *disposition, r),
    {
        if !matches!(disposition, Disposition::Cancelled | Disposition::Exhausted) {
            return Err(Error::invalid("child stopping requires cancellation or exhaustion"));
        }
        let w = match self.waiting_work(run) {
            Some(w) => w,
            None => return Ok(Vec::new()),
        };
        let request = WorkWaitRequest { work_ids: clone_ids(&self.waits[w].work_ids) };
        self.work_wait_status(run, &request)?;
        let ids = &request.work_ids;
        let ghost old_store = *self;
        let ghost pred = |s: String| old_store.child_status(run@, s@) is Running;
        // The children still running, in the order they are listed.
        let mut running: Vec<String> = Vec::new();
        let mut k: usize = 0;
        while k < ids.len()
            invariant
                *self == old_store,
                self.wf(),
                ids@ == old_store.wait_ids(run@),
                old_store.wait_failure(run@, ids@) is None,
                pred == (|s: String| old_store.child_status(run@, s@) is Running),
                0 <= k <= ids@.len(),
                running@ == ids@.subrange(0, k as int).filter(pred),
            decreases ids@.len() - k,
        {
            proof {
                assert(self.has_child(run@, ids@[k as int]@));
                assert(self.run_grant_known(run@));
            }
            let child = match self.child_work(run, &ids[k]) {
                Ok(c) => c,
                Err(e) => return Err(e),
            };
            let is_running = matches!(child.status, WorkItemStatus::Running);
            proof {
                reveal(Seq::filter);
                assert(ids@.subrange(0, k + 1).drop_last() =~= ids@.subrange(0, k as int));
                assert(ids@.subrange(0, k + 1).last() == ids@[k as int]);
            }
            if is_running {
                running.push(ids[k].clone());
            }
            k = k + 1;
        }
        assert(ids@.subrange(0, ids@.len() as int) =~= ids@);
        if ids.len() == 0 {
            proof {
                assert forall|j: int| 0 <= j < old_store.work@.len() implies !old_store.row_waited(run@, ids@, j) by {}
                assert forall|a: int| 0 <= a < old_store.allocations@.len()
                    implies !old_store.closes(run@, ids@, old_store.allocations@[a].id@) by {
                    if old_store.closes(run@, ids@, old_store.allocations@[a].id@) {
                        let j = choose|j: int|
                            #[trigger] old_store.row_waited(run@, ids@, j) && !is_terminal(old_store.work@[j].item.status)
                                && opt_view(old_store.work@[j].allocation_id) == Some(old_store.allocations@[a].id@);
                        assert(old_store.row_waited(run@, ids@, j));
                    }
                }
            }
            return Ok(running);
        }
        // Close the allowance of every unsettled listed child first.
        let mut a: usize = 0;
        while a < self.allocations.len()
            invariant
                self.wf(),
                old_store.wf(),
                ids@ == old_store.wait_ids(run@),
                old_store.run_grant_known(run@),
                0 <= a <= self.allocations@.len(),
                self.allocations@.len() == old_store.allocations@.len(),
                self.work == old_store.work,
                self.grants == old_store.grants,
                self.runs == old_store.runs,
                self.run_allocations == old_store.run_allocations,
                self.permits == old_store.permits,
                self.effects == old_store.effects,
                self.compactions == old_store.compactions,
                self.attachments == old_store.attachments,
                self.attachment_work == old_store.attachment_work,
                self.feedback == old_store.feedback,
                self.waits == old_store.waits,
                self.contexts == old_store.contexts && self.validity == old_store.validity && self.corpora@ == old_store.corpora@ && self.archive == old_store.archive,
                self.messages == old_store.messages,
                self.events@ == old_store.events@,
                forall|q: int| a <= q < self.allocations@.len() ==> self.allocations@[q] == old_store.allocations@[q],
                forall|q: int| 0 <= q < a ==> #[trigger] self.allocations@[q] == (
                    if old_store.closes(run@, ids@, old_store.allocations@[q].id@) {
                        BudgetAllocation { disposition: Some(*disposition), ..old_store.allocations@[q] }
                    } else {
                        old_store.allocations@[q]
                    }),
            decreases self.allocations@.len() - a,
        {
            let mut found = false;
            let mut j: usize = 0;
            while j < self.work.len()
                invariant
                    self.wf(),
                    self.work == old_store.work,
                    self.runs == old_store.runs,
                    self.grants == old_store.grants,
                    old_store.run_grant_known(run@),
                    ids@ == old_store.wait_ids(run@),
                    a < self.allocations@.len(),
                    self.allocations@.len() == old_store.allocations@.len(),
                    self.allocations@[a as int] == old_store.allocations@[a as int],
                    0 <= j <= self.work@.len(),
                    found == exists|q: int| 0 <= q < j && #[trigger] old_store.row_waited(run@, ids@, q)
                        && !is_terminal(old_store.work@[q].item.status)
                        && opt_view(old_store.work@[q].allocation_id) == Some(old_store.allocations@[a as int].id@),
                decreases self.work@.len() - j,
            {
                proof {
                    assert(self.row_waited(run@, ids@, j as int) == old_store.row_waited(run@, ids@, j as int));
                }
                if self.row_closes(run, ids, j, &self.allocations[a].id) {
                    found = true;
                }
                j = j + 1;
            }
            if found {
                let ghost before = *self;
                self.allocations[a].disposition = Some(*disposition);
                proof {
                    assert(self.allocations@ =~= before.allocations@.update(a as int,
                        BudgetAllocation { disposition: Some(*disposition), ..before.allocations@[a as int] }));
                    crate::budgets::lemma_wf_allocation_update(before, *self, a as int, self.allocations@[a as int]);
                }
            }
            a = a + 1;
        }
        // Then stop the listed children that have not started.
        let ghost mid = *self;
        let mut j: usize = 0;
        while j < self.work.len()
            invariant
                self.wf(),
                old_store.wf(),
                mid.work == old_store.work,
                ids@ == old_store.wait_ids(run@),
                old_store.run_grant_known(run@),
                0 <= j <= self.work@.len(),
                self.work@.len() == old_store.work@.len(),
                self.allocations == mid.allocations,
                self.grants == old_store.grants,
                self.runs == old_store.runs,
                self.run_allocations == old_store.run_allocations,
                self.permits == old_store.permits,
                self.effects == old_store.effects,
                self.compactions == old_store.compactions,
                self.attachments == old_store.attachments,
                self.attachment_work == old_store.attachment_work,
                self.feedback == old_store.feedback,
                self.waits == old_store.waits,
                self.contexts == old_store.contexts && self.validity == old_store.validity && self.corpora@ == old_store.corpora@ && self.archive == old_store.archive,
                self.messages == old_store.messages,
                self.events@ == old_store.events@,
                forall|q: int| j <= q < self.work@.len() ==> self.work@[q] == old_store.work@[q],
                forall|q: int| 0 <= q < j ==> #[trigger] self.work@[q] == (
                    if old_store.row_waited(run@, ids@, q) && (old_store.work@[q].item.status is Queued
                        || old_store.work@[q].item.status is Interrupted) {
                        WorkEntry {
                            item: WorkItem { status: stopped_status(*disposition), ..old_store.work@[q].item },
                            ..old_store.work@[q]
                        }
                    } else {
                        old_store.work@[q]
                    }),
            decreases self.work@.len() - j,
        {
            let stoppable = matches!(self.work[j].item.status, WorkItemStatus::Queued | WorkItemStatus::Interrupted);
            let grant_matches = match self.run_grant(run) {
                Ok(g) => self.work[j].grant_id == g.id,
                Err(_) => false,
            };
            if stoppable && grant_matches && self.work[j].item.parent_id == *run && is_listed(ids, &self.work[j].item.id) {
                let ghost before = *self;
                let status = if matches!(disposition, Disposition::Cancelled) {
                    WorkItemStatus::Cancelled
                } else {
                    WorkItemStatus::Exhausted
                };
                self.work[j].item.status = status;
                proof {
                    assert(self.work@ =~= before.work@.update(j as int, WorkEntry {
                        item: WorkItem { status: stopped_status(*disposition), ..before.work@[j as int].item },
                        ..before.work@[j as int]
                    }));
                    lemma_wf_work_status(before, *self, j as int);
                }
            }
            j = j + 1;
        }
        Ok(running)
    }
}

/// Changing the status of a work item keeps the ledger well formed.
pub proof fn lemma_wf_work_status(old: Store, new: Store, j: int)
    requires
        old.wf(),
        0 <= j < old.work@.len(),
        new.work@ == old.work@.update(j, new.work@[j]),
        new.work@[j].item.id == old.work@[j].item.id,
        new.grants == old.grants,
        new.runs == old.runs,
        new.allocations == old.allocations,
        new.run_allocations == old.run_allocations,
        new.permits == old.permits,
        new.compactions == old.compactions,
        new.waits == old.waits,
        new.contexts == old.contexts && new.validity == old.validity && new.corpora@ == old.corpora@ && new.archive == old.archive,
        new.messages == old.messages,
        new.events@ == old.events@,
        new.attachments == old.attachments,
        new.attachment_work == old.attachment_work,
        new.feedback == old.feedback,
    ensures
        new.wf(),
{
    assert forall|p: int, q: int|
        0 <= p < q < new.work@.len() implies #[trigger] new.work@[p].item.id@ != #[trigger] new.work@[q].item.id@ by {
        assert(old.work@[p].item.id@ != old.work@[q].item.id@);
    }
}

} // verus!
