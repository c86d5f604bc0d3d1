//! Grants and the runs that act under them.

use vstd::prelude::*;
use crate::contracts::{BudgetAllocation, Grant};
use crate::compare::opt_text;
use crate::decimal::counter;
use crate::digest::allocation_id;
use crate::error::{Error, Result, CONFLICT, DENIED, INVALID, MISSING};
use crate::store::{budget_valid, root_allocation_id, RunEntry, RunStatus, Store};

verus! {

/// `a` is the root allocation of grant `g`: it carries the grant's whole budget.
pub open spec fn is_root_of(a: BudgetAllocation, g: Grant) -> bool {
    &&& a.id@ == root_allocation_id(g.id@)
    &&& a.grant_id@ == g.id@
    &&& a.parent_id is None
    &&& a.cause_id@ == g.id@
    &&& a.purpose@ == "root"@
    &&& a.budget == g.budget
    &&& a.disposition is None
}

/// Facts about looking up allocations after a row is appended.
pub proof fn lemma_allocations_push(old: Store, new: Store, a: BudgetAllocation)
    requires
        old.keys_unique(),
        new.allocations@ == old.allocations@.push(a),
        !old.has_allocation(a.id@),
    ensures
        forall|x: Seq<char>| #[trigger] new.has_allocation(x) == (old.has_allocation(x) || x == a.id@),
        forall|x: Seq<char>| old.has_allocation(x) ==> #[trigger] new.allocation_at(x) == old.allocation_at(x),
        new.allocation_at(a.id@) == a,
        forall|i: int, j: int|
            0 <= i < j < new.allocations@.len() ==> #[trigger] new.allocations@[i].id@
                != #[trigger] new.allocations@[j].id@,
{
    let n = old.allocations@.len() as int;
    assert forall|i: int, j: int|
        0 <= i < j < new.allocations@.len() implies #[trigger] new.allocations@[i].id@
            != #[trigger] new.allocations@[j].id@ by {
        if j == n {
            assert(new.allocations@[i] == old.allocations@[i]);
        } else {
            assert(new.allocations@[i] == old.allocations@[i]);
            assert(new.allocations@[j] == old.allocations@[j]);
        }
    }
    assert forall|x: Seq<char>| #[trigger] new.has_allocation(x) == (old.has_allocation(x) || x == a.id@) by {
        if old.has_allocation(x) {
            let i = choose|i: int| 0 <= i < old.allocations@.len() && #[trigger] old.allocations@[i].id@ == x;
            assert(new.allocations@[i] == old.allocations@[i]);
        }
        if x == a.id@ {
            assert(new.allocations@[n] == a);
        }
        if new.has_allocation(x) {
            let i = choose|i: int| 0 <= i < new.allocations@.len() && #[trigger] new.allocations@[i].id@ == x;
            if i < n {
                assert(new.allocations@[i] == old.allocations@[i]);
            }
        }
    }
    assert forall|x: Seq<char>| old.has_allocation(x) implies #[trigger] new.allocation_at(x) == old.allocation_at(x) by {
        let i = choose|i: int| 0 <= i < old.allocations@.len() && #[trigger] old.allocations@[i].id@ == x;
        let k = choose|k: int| 0 <= k < new.allocations@.len() && #[trigger] new.allocations@[k].id@ == x;
        assert(new.allocations@[i] == old.allocations@[i]);
        if k != i {
            if k < i {
                assert(new.allocations@[k].id@ != new.allocations@[i].id@);
            } else {
                assert(new.allocations@[i].id@ != new.allocations@[k].id@);
            }
        }
        let m = choose|m: int| 0 <= m < old.allocations@.len() && #[trigger] old.allocations@[m].id@ == x;
        if m != i {
            if m < i {
                assert(old.allocations@[m].id@ != old.allocations@[i].id@);
            } else {
                assert(old.allocations@[i].id@ != old.allocations@[m].id@);
            }
        }
    }
    assert(new.allocations@[n] == a);
    let k = choose|k: int| 0 <= k < new.allocations@.len() && #[trigger] new.allocations@[k].id@ == a.id@;
    if k != n {
        assert(new.allocations@[k].id@ != new.allocations@[n].id@);
    }
}

/// Facts about looking up allocations after one row is replaced in place by a row with the same identifier.
pub proof fn lemma_allocations_update(old: Store, new: Store, i: int, a: BudgetAllocation)
    requires
        old.keys_unique(),
        0 <= i < old.allocations@.len(),
        new.allocations@ == old.allocations@.update(i, a),
        a.id@ == old.allocations@[i].id@,
    ensures
        forall|x: Seq<char>| #[trigger] new.has_allocation(x) == old.has_allocation(x),
        forall|x: Seq<char>| old.has_allocation(x) && x != a.id@ ==> #[trigger] new.allocation_at(x) == old.allocation_at(x),
        new.allocation_at(a.id@) == a,
        forall|p: int, q: int|
            0 <= p < q < new.allocations@.len() ==> #[trigger] new.allocations@[p].id@
                != #[trigger] new.allocations@[q].id@,
{
    assert forall|p: int, q: int|
        0 <= p < q < new.allocations@.len() implies #[trigger] new.allocations@[p].id@
            != #[trigger] new.allocations@[q].id@ by {
        assert(old.allocations@[p].id@ != old.allocations@[q].id@);
    }
    assert forall|x: Seq<char>| #[trigger] new.has_allocation(x) == old.has_allocation(x) by {
        if old.has_allocation(x) {
            let j = choose|j: int| 0 <= j < old.allocations@.len() && #[trigger] old.allocations@[j].id@ == x;
            assert(new.allocations@[j].id@ == x);
        }
        if new.has_allocation(x) {
            let j = choose|j: int| 0 <= j < new.allocations@.len() && #[trigger] new.allocations@[j].id@ == x;
            assert(old.allocations@[j].id@ == x);
        }
    }
    assert forall|x: Seq<char>| old.has_allocation(x) && x != a.id@ implies #[trigger] new.allocation_at(x) == old.allocation_at(x) by {
        let j = choose|j: int| 0 <= j < old.allocations@.len() && #[trigger] old.allocations@[j].id@ == x;
        let k = choose|k: int| 0 <= k < new.allocations@.len() && #[trigger] new.allocations@[k].id@ == x;
        assert(new.allocations@[j] == old.allocations@[j]);
        if k != j {
            if k < j {
                assert(new.allocations@[k].id@ != new.allocations@[j].id@);
            } else {
                assert(new.allocations@[j].id@ != new.allocations@[k].id@);
            }
        }
    }
    assert(new.allocations@[i] == a);
    let k = choose|k: int| 0 <= k < new.allocations@.len() && #[trigger] new.allocations@[k].id@ == a.id@;
    if k != i {
        if k < i {
            assert(new.allocations@[k].id@ != new.allocations@[i].id@);
        } else {
            assert(new.allocations@[i].id@ != new.allocations@[k].id@);
        }
    }
}

impl Store {
    /// Registers a grant and its root allocation, which carries the grant's whole budget.
    pub fn register_grant(&mut self, grant: Grant) -> (r: Result<()>)
        requires
            old(self).wf(),
        ensures
            final(self).wf(),
            r is Ok <==> !old(self).has_grant(grant.id@) && budget_valid(grant.budget)
                && !old(self).has_allocation(root_allocation_id(grant.id@)),
            r matches Err(e) ==> *final(self) == *old(self) && (e.code == CONFLICT || e.code == INVALID),
            r is Ok ==> {
                &&& final(self).grants@ == old(self).grants@.push(grant)
                &&& final(self).allocations@.len() == old(self).allocations@.len() + 1
                &&& final(self).allocations@.drop_last() == old(self).allocations@
                &&& is_root_of(final(self).allocations@.last(), grant)
                &&& Store::same_but_grants(*final(self), *old(self))
            },
    {
        if self.find_grant(&grant.id).is_some() {
            return Err(Error::conflict("grant already exists"));
        }
        let t = counter(grant.budget.max_tokens.as_str());
        let c = counter(grant.budget.max_cost_microusd.as_str());
        let d = counter(grant.budget.deadline_ms.as_str());
        if t.is_err() || c.is_err() || d.is_err() {
            return Err(Error::invalid("grant budget counters must be decimal strings"));
        }
        let root_id = allocation_id("root", grant.id.as_str());
        if self.find_allocation(&root_id).is_some() {
            return Err(Error::conflict("grant root allocation already exists"));
        }
        proof {
            reveal_strlit("root");
        }
        let root = BudgetAllocation {
            id: root_id,
            grant_id: grant.id.clone(),
            parent_id: None,
            cause_id: grant.id.clone(),
            purpose: "root".to_owned(),
            budget: grant.budget.clone(),
            disposition: None,
        };
        let ghost old_store = *self;
        self.allocations.push(root);
        self.grants.push(grant);
        proof {
            lemma_allocations_push(old_store, *self, root);
            let n = old_store.grants@.len() as int;
            assert forall|i: int, j: int|
                0 <= i < j < self.grants@.len() implies #[trigger] self.grants@[i].id@
                    != #[trigger] self.grants@[j].id@ by {
                if j == n {
                    if self.grants@[i].id@ == grant.id@ {
                        assert(old_store.grants@[i].id@ == grant.id@);
                        assert(old_store.has_grant(grant.id@));
                    }
                } else {
                    assert(old_store.grants@[i].id@ != old_store.grants@[j].id@);
                }
            }
            assert forall|i: int| 0 <= i < self.grants@.len() implies budget_valid(#[trigger] self.grants@[i].budget) by {
                if i < n {
                    assert(self.grants@[i] == old_store.grants@[i]);
                }
            }
            assert forall|i: int|
                0 <= i < self.allocations@.len() implies budget_valid(#[trigger] self.allocations@[i].budget) by {
                if i < old_store.allocations@.len() {
                    assert(self.allocations@[i] == old_store.allocations@[i]);
                }
            }
            assert forall|i: int| 0 <= i < self.grants@.len() implies {
                let g = #[trigger] self.grants@[i];
                &&& self.has_allocation(root_allocation_id(g.id@))
                &&& self.allocation_at(root_allocation_id(g.id@)).grant_id@ == g.id@
                &&& self.allocation_at(root_allocation_id(g.id@)).parent_id is None
            } by {
                if i < n {
                    assert(self.grants@[i] == old_store.grants@[i]);
                }
            }
            assert forall|i: int| 0 <= i < self.permits@.len() implies {
                &&& (#[trigger] self.permits@[i]).reserved_tokens <= i64::MAX
                &&& self.permits@[i].reserved_cost <= i64::MAX
            } by {
                assert(self.permits@[i] == old_store.permits@[i]);
            }
            assert(self.allocations@.drop_last() =~= old_store.allocations@);
        }
        Ok(())
    }

    /// The stored grant with this identifier.
    pub fn grant(&self, id: &String) -> (r: Result<&Grant>)
        requires
            self.wf(),
        ensures
            r matches Ok(g) ==> self.has_grant(id@) && *g == self.grant_at(id@),
            r matches Err(e) ==> !self.has_grant(id@) && e.code == MISSING,
    {
        match self.find_grant(id) {
            Some(i) => Ok(&self.grants[i]),
            None => Err(Error::missing("grant not found")),
        }
    }

    /// The grant under which a run acts.
    pub open spec fn run_grant_known(self, run: Seq<char>) -> bool {
        self.has_run(run) && self.has_grant(self.run_at(run).grant_id@)
    }

    pub fn run_grant(&self, run: &String) -> (r: Result<&Grant>)
        requires
            self.wf(),
        ensures
            r matches Ok(g) ==> self.run_grant_known(run@) && *g == self.grant_at(self.run_at(run@).grant_id@),
            r matches Err(e) ==> !self.run_grant_known(run@) && e.code == MISSING,
    {
        match self.find_run(run) {
            Some(i) => match self.find_grant(&self.runs[i].grant_id) {
                Some(j) => Ok(&self.grants[j]),
                None => Err(Error::missing("grant not found")),
            },
            None => Err(Error::missing("run not found")),
        }
    }

    /// The run is registered and running under a stored grant.
    pub open spec fn run_active(self, run: Seq<char>) -> bool {
        self.run_grant_known(run) && self.run_at(run).status == RunStatus::Running
    }

    /// The grant of a running run; any other run may not act.
    pub fn require_active(&self, run: &String) -> (r: Result<&Grant>)
        requires
            self.wf(),
        ensures
            r matches Ok(g) ==> self.run_active(run@) && *g == self.grant_at(self.run_at(run@).grant_id@),
            r matches Err(e) ==> !self.run_active(run@) && (
                if !self.run_grant_known(run@) { e.code == MISSING } else { e.code == DENIED }),
    {
        match self.find_run(run) {
            Some(i) => match self.find_grant(&self.runs[i].grant_id) {
                Some(j) => {
                    if self.runs[i].status != RunStatus::Running {
                        return Err(Error::denied("run is not active"));
                    }
                    Ok(&self.grants[j])
                },
                None => Err(Error::missing("grant not found")),
            },
            None => Err(Error::missing("run not found")),
        }
    }

    /// Registers a running run under a stored grant.
    pub fn start_run(&mut self, run: String, grant_id: &String) -> (r: Result<()>)
        requires
            old(self).wf(),
        ensures
            final(self).wf(),
            r is Ok <==> !old(self).has_run(run@) && old(self).has_grant(grant_id@),
            r matches Err(e) ==> *final(self) == *old(self) && (e.code == CONFLICT || e.code == MISSING),
            r is Ok ==> final(self).runs@.len() == old(self).runs@.len() + 1
                && final(self).runs@.drop_last() == old(self).runs@
                && final(self).runs@.last().id@ == run@
                && final(self).runs@.last().grant_id@ == grant_id@
                && final(self).runs@.last().status == RunStatus::Running
                && Store::same_but_runs(*final(self), *old(self)),
    {
        if self.find_run(&run).is_some() {
            return Err(Error::conflict("run already exists"));
        }
        if self.find_grant(grant_id).is_none() {
            return Err(Error::missing("grant not found"));
        }
        let ghost old_store = *self;
        let entry = RunEntry { id: run, grant_id: grant_id.clone(), status: RunStatus::Running };
        self.runs.push(entry);
        proof {
            let n = old_store.runs@.len() as int;
            assert forall|i: int, j: int|
                0 <= i < j < self.runs@.len() implies #[trigger] self.runs@[i].id@
                    != #[trigger] self.runs@[j].id@ by {
                if j == n {
                    if self.runs@[i].id@ == run@ {
                        assert(old_store.runs@[i].id@ == run@);
                        assert(old_store.has_run(run@));
                    }
                } else {
                    assert(old_store.runs@[i].id@ != old_store.runs@[j].id@);
                }
            }
            assert(self.runs@.drop_last() =~= old_store.runs@);
        }
        Ok(())
    }

    /// Moves a run to another lifecycle state.
    pub fn set_run_status(&mut self, run: &String, status: RunStatus) -> (r: Result<()>)
        requires
            old(self).wf(),
        ensures
            final(self).wf(),
            r is Ok <==> old(self).has_run(run@),
            r matches Err(e) ==> *final(self) == *old(self) && e.code == MISSING,
            r is Ok ==> final(self).runs@.len() == old(self).runs@.len()
                && final(self).has_run(run@) && final(self).run_at(run@).status == status
                && final(self).run_at(run@).grant_id@ == old(self).run_at(run@).grant_id@
                && (forall|x: Seq<char>| x != run@ && old(self).has_run(x) ==> final(self).has_run(x) && #[trigger] final(self).run_at(x) == old(self).run_at(x))
                && Store::same_but_runs(*final(self), *old(self)),
    {
        match self.find_run(run) {
            None => Err(Error::missing("run not found")),
            Some(i) => {
                let ghost old_store = *self;
                let entry = RunEntry {
                    id: self.runs[i].id.clone(),
                    grant_id: self.runs[i].grant_id.clone(),
                    status,
                };
                self.runs.set(i, entry);
                proof {
                    assert forall|p: int, q: int|
                        0 <= p < q < self.runs@.len() implies #[trigger] self.runs@[p].id@
                            != #[trigger] self.runs@[q].id@ by {
                        assert(old_store.runs@[p].id@ != old_store.runs@[q].id@);
                    }
                    assert(self.runs@[i as int].id@ == run@);
                    let k = choose|k: int| 0 <= k < self.runs@.len() && #[trigger] self.runs@[k].id@ == run@;
                    if k != i {
                        if k < i {
                            assert(self.runs@[k].id@ != self.runs@[i as int].id@);
                        } else {
                            assert(self.runs@[i as int].id@ != self.runs@[k].id@);
                        }
                    }
                    assert forall|x: Seq<char>| x != run@ && old_store.has_run(x) implies self.has_run(x)
                        && #[trigger] self.run_at(x) == old_store.run_at(x) by {
                        let j = choose|j: int| 0 <= j < old_store.runs@.len() && #[trigger] old_store.runs@[j].id@ == x;
                        assert(self.runs@[j] == old_store.runs@[j]);
                        let m = choose|m: int| 0 <= m < self.runs@.len() && #[trigger] self.runs@[m].id@ == x;
                        if m != j {
                            if m < j {
                                assert(self.runs@[m].id@ != self.runs@[j].id@);
                            } else {
                                assert(self.runs@[j].id@ != self.runs@[m].id@);
                            }
                        }
                    }
                }
                Ok(())
            },
        }
    }
}

} // verus!
