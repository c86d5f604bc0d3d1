//! The host's ledger: grants, runs, budget allocations, provider permits and the
//! effects and work items that draw on allocations, held as plain tables.

use vstd::prelude::*;
use crate::contracts::{
    Action, ActionReceipt, Budget, BudgetAllocation, EffectStatus, Grant, PermitRequest, Usage, WorkItem, Attachment,
    AttachmentFeedback, ArtifactRef, Scope, Split,
};
use crate::decimal::{decimal_value, is_counter};
use crate::communication::MessageEntry;
use crate::context::ContextTables;
use crate::validity::ValidityTables;
use crate::external_evidence::ArchiveTables;
use crate::effects::EffectObservation;
use crate::digest::allocation_id_text;

verus! {

/// Lifecycle of a run known to the ledger.
#[derive(Clone, Copy, Debug, PartialEq, Eq, Structural)]
pub enum RunStatus {
    Running,
    Waiting,
    Interrupted,
    Finished,
}

/// Lifecycle of a provider permit.
#[derive(Clone, Copy, Debug, PartialEq, Eq, Structural)]
pub enum PermitState {
    /// Reserved with a stable call identity; transport has not started.
    Reserved,
    /// Transport may have started; usage is owed.
    Dispatched,
    /// Complete usage was recorded and replaced the reservation.
    Settled,
    /// Released before transport; it no longer counts.
    Released,
}

#[derive(Debug)]
pub struct RunEntry {
    pub id: String,
    pub grant_id: String,
    pub status: RunStatus,
}

#[derive(Debug)]
pub struct RunAllocation {
    pub run_id: String,
    pub allocation_id: String,
}

#[derive(Debug)]
pub struct PermitEntry {
    pub id: String,
    pub grant_id: String,
    pub run_id: String,
    pub reserved_tokens: u64,
    pub reserved_cost: u64,
    pub compaction_id: Option<String>,
    pub allocation_id: String,
    pub call_id: Option<String>,
    pub request: PermitRequest,
    pub state: PermitState,
    pub usage: Option<Usage>,
    pub dispatched_ms: Option<u64>,
    pub observed_ms: Option<u64>,
}

/// How far an effect has come: prepared, handed to the adapter, its outcome captured,
/// or finalized.
#[derive(Clone, Copy, Debug, PartialEq, Eq, Structural)]
pub enum EffectPhase {
    Prepared,
    Dispatching,
    Observed,
    Finalized,
}

/// An effect charged to an allocation: the action as first requested, how far it has
/// come, the status its receipt shows, whether its owner settled it, and the paths it
/// may have written.
#[derive(Debug)]
pub struct EffectEntry {
    pub id: String,
    pub grant_id: String,
    pub run_id: String,
    pub allocation_id: Option<String>,
    pub action: Action,
    pub phase: EffectPhase,
    pub status: EffectStatus,
    pub settled: bool,
    pub writes: Vec<String>,
    pub observation: Option<EffectObservation>,
    pub finalized: Option<ActionReceipt>,
}

/// An observed event as the ledger indexes it: its identity, the run and producer that
/// reported it at `sequence`, its kind and split, the identifiers of its parent events,
/// the artifact versions it observed, and `body`, the event as it was serialized when
/// it was submitted.
#[derive(Debug)]
pub struct EventRecord {
    pub id: String,
    pub scope: Scope,
    pub run_id: String,
    pub producer: String,
    pub sequence: String,
    pub kind: String,
    pub split: Split,
    pub parents: Vec<String>,
    pub artifacts: Vec<ArtifactRef>,
    pub body: String,
}

/// A discovery corpus registered in a scope: its identity and version, and the events
/// its source windows select, window by window.
#[derive(Debug)]
pub struct CorpusEntry {
    pub scope: Scope,
    pub id: String,
    pub version: String,
    pub event_refs: Vec<String>,
}

/// A stored event with its position in the event log.
#[derive(Debug)]
pub struct EventRow {
    pub cursor: u64,
    pub event: EventRecord,
}

/// A scheduled work item charged to an allocation.
#[derive(Debug)]
pub struct WorkEntry {
    pub item: WorkItem,
    pub grant_id: String,
    pub allocation_id: Option<String>,
}

/// A prepared context compaction of a run, and whether its input is still eligible.
#[derive(Debug)]
pub struct CompactionEntry {
    pub id: String,
    pub run_id: String,
    pub eligible: bool,
}

/// An attachment's ownership of a work item.
#[derive(Debug)]
pub struct AttachmentWork {
    pub work_id: String,
    pub attachment_id: String,
}

/// A parked run's handoff: the child work it waits on.
#[derive(Debug)]
pub struct RunWait {
    pub run_id: String,
    pub work_ids: Vec<String>,
}

/// The host's ledger, held in memory as one table per kind of row. Each table is keyed
/// as `wf` states; the operations on the ledger keep it well formed.
#[derive(Debug)]
pub struct Store {
    pub grants: Vec<Grant>,
    pub runs: Vec<RunEntry>,
    pub allocations: Vec<BudgetAllocation>,
    pub run_allocations: Vec<RunAllocation>,
    pub permits: Vec<PermitEntry>,
    pub effects: Vec<EffectEntry>,
    pub work: Vec<WorkEntry>,
    pub compactions: Vec<CompactionEntry>,
    pub attachments: Vec<Attachment>,
    pub attachment_work: Vec<AttachmentWork>,
    pub feedback: Vec<AttachmentFeedback>,
    pub waits: Vec<RunWait>,
    pub contexts: ContextTables,
    pub messages: Vec<MessageEntry>,
    pub events: Vec<EventRow>,
    pub corpora: Vec<CorpusEntry>,
    pub validity: ValidityTables,
    pub archive: ArchiveTables,
}

/// Counters of a budget as numbers.
pub open spec fn budget_valid(b: Budget) -> bool {
    &&& is_counter(b.max_tokens@)
    &&& is_counter(b.max_cost_microusd@)
    &&& is_counter(b.deadline_ms@)
}

pub open spec fn tokens_of(b: Budget) -> nat {
    decimal_value(b.max_tokens@)
}

pub open spec fn cost_of(b: Budget) -> nat {
    decimal_value(b.max_cost_microusd@)
}

pub open spec fn deadline_of(b: Budget) -> nat {
    decimal_value(b.deadline_ms@)
}

pub open spec fn opt_view(o: Option<String>) -> Option<Seq<char>> {
    match o {
        Some(s) => Some(s@),
        None => None,
    }
}

/// The identifier of a grant's root allocation.
pub open spec fn root_allocation_id(grant_id: Seq<char>) -> Seq<char> {
    allocation_id_text("root"@, grant_id)
}

impl Store {
    pub open spec fn has_grant(self, id: Seq<char>) -> bool {
        exists|i: int| 0 <= i < self.grants@.len() && #[trigger] self.grants@[i].id@ == id
    }

    pub open spec fn grant_at(self, id: Seq<char>) -> Grant
        recommends
            self.has_grant(id),
    {
        self.grants@[choose|i: int| 0 <= i < self.grants@.len() && #[trigger] self.grants@[i].id@ == id]
    }

    pub open spec fn has_run(self, id: Seq<char>) -> bool {
        exists|i: int| 0 <= i < self.runs@.len() && #[trigger] self.runs@[i].id@ == id
    }

    pub open spec fn run_at(self, id: Seq<char>) -> RunEntry
        recommends
            self.has_run(id),
    {
        self.runs@[choose|i: int| 0 <= i < self.runs@.len() && #[trigger] self.runs@[i].id@ == id]
    }

    pub open spec fn has_allocation(self, id: Seq<char>) -> bool {
        exists|i: int| 0 <= i < self.allocations@.len() && #[trigger] self.allocations@[i].id@ == id
    }

    pub open spec fn allocation_at(self, id: Seq<char>) -> BudgetAllocation
        recommends
            self.has_allocation(id),
    {
        self.allocations@[choose|i: int|
            0 <= i < self.allocations@.len() && #[trigger] self.allocations@[i].id@ == id]
    }

    pub open spec fn has_permit(self, id: Seq<char>) -> bool {
        exists|i: int| 0 <= i < self.permits@.len() && #[trigger] self.permits@[i].id@ == id
    }

    /// The allocation a run draws on, if one was bound to it.
    pub open spec fn run_allocation_binding(self, run: Seq<char>) -> Option<Seq<char>> {
        if exists|i: int|
            0 <= i < self.run_allocations@.len() && #[trigger] self.run_allocations@[i].run_id@ == run {
            Some(self.run_allocations@[choose|i: int|
                0 <= i < self.run_allocations@.len() && #[trigger] self.run_allocations@[i].run_id@
                    == run].allocation_id@)
        } else {
            None
        }
    }

    /// Identifiers are keys: no table holds two rows under one identifier.
    pub open spec fn keys_unique(self) -> bool {
        &&& forall|i: int, j: int|
            0 <= i < j < self.grants@.len() ==> #[trigger] self.grants@[i].id@ != #[trigger] self.grants@[j].id@
        &&& forall|i: int, j: int|
            0 <= i < j < self.runs@.len() ==> #[trigger] self.runs@[i].id@ != #[trigger] self.runs@[j].id@
        &&& forall|i: int, j: int|
            0 <= i < j < self.allocations@.len() ==> #[trigger] self.allocations@[i].id@
                != #[trigger] self.allocations@[j].id@
        &&& forall|i: int, j: int|
            0 <= i < j < self.run_allocations@.len() ==> #[trigger] self.run_allocations@[i].run_id@
                != #[trigger] self.run_allocations@[j].run_id@
        &&& forall|i: int, j: int|
            0 <= i < j < self.permits@.len() ==> #[trigger] self.permits@[i].id@
                != #[trigger] self.permits@[j].id@
    }

    /// A provider call of a run holds at most one permit.
    pub open spec fn calls_unique(self) -> bool {
        forall|i: int, j: int|
            0 <= i < j < self.permits@.len() ==> !({
                &&& #[trigger] self.permits@[i].run_id@ == #[trigger] self.permits@[j].run_id@
                &&& self.permits@[i].call_id is Some
                &&& opt_view(self.permits@[i].call_id) == opt_view(self.permits@[j].call_id)
            })
    }

    /// Two ledgers hold the same rows.
    pub open spec fn same(a: Store, b: Store) -> bool {
        &&& a.grants@ == b.grants@
        &&& a.runs@ == b.runs@
        &&& a.allocations@ == b.allocations@
        &&& a.run_allocations@ == b.run_allocations@
        &&& a.permits@ == b.permits@
        &&& a.effects@ == b.effects@
        &&& a.work@ == b.work@
        &&& a.compactions@ == b.compactions@
        &&& a.attachments@ == b.attachments@
        &&& a.attachment_work@ == b.attachment_work@
        &&& a.feedback@ == b.feedback@
        &&& a.waits@ == b.waits@
        &&& a.contexts == b.contexts && a.validity == b.validity && a.corpora@ == b.corpora@ && a.archive == b.archive
        &&& a.messages@ == b.messages@
        &&& a.events@ == b.events@
    }

    /// Two ledgers hold the same rows but for grants and budget allocations.
    pub open spec fn same_but_grants(a: Store, b: Store) -> bool {
        &&& a.runs@ == b.runs@
        &&& a.run_allocations@ == b.run_allocations@
        &&& a.permits@ == b.permits@
        &&& a.effects@ == b.effects@
        &&& a.work@ == b.work@
        &&& a.compactions@ == b.compactions@
        &&& a.attachments@ == b.attachments@
        &&& a.attachment_work@ == b.attachment_work@
        &&& a.feedback@ == b.feedback@
        &&& a.waits@ == b.waits@
        &&& a.contexts == b.contexts && a.validity == b.validity && a.corpora@ == b.corpora@ && a.archive == b.archive
        &&& a.messages@ == b.messages@
        &&& a.events@ == b.events@
    }

    /// Two ledgers hold the same rows but for runs.
    pub open spec fn same_but_runs(a: Store, b: Store) -> bool {
        &&& a.grants@ == b.grants@
        &&& a.allocations@ == b.allocations@
        &&& a.run_allocations@ == b.run_allocations@
        &&& a.permits@ == b.permits@
        &&& a.effects@ == b.effects@
        &&& a.work@ == b.work@
        &&& a.compactions@ == b.compactions@
        &&& a.attachments@ == b.attachments@
        &&& a.attachment_work@ == b.attachment_work@
        &&& a.feedback@ == b.feedback@
        &&& a.waits@ == b.waits@
        &&& a.contexts == b.contexts && a.validity == b.validity && a.corpora@ == b.corpora@ && a.archive == b.archive
        &&& a.messages@ == b.messages@
        &&& a.events@ == b.events@
    }

    /// Two ledgers hold the same rows but for effects.
    pub open spec fn same_but_effects(a: Store, b: Store) -> bool {
        &&& a.grants@ == b.grants@
        &&& a.runs@ == b.runs@
        &&& a.allocations@ == b.allocations@
        &&& a.run_allocations@ == b.run_allocations@
        &&& a.permits@ == b.permits@
        &&& a.work@ == b.work@
        &&& a.compactions@ == b.compactions@
        &&& a.attachments@ == b.attachments@
        &&& a.attachment_work@ == b.attachment_work@
        &&& a.feedback@ == b.feedback@
        &&& a.waits@ == b.waits@
        &&& a.contexts == b.contexts && a.validity == b.validity && a.corpora@ == b.corpora@ && a.archive == b.archive
        &&& a.messages@ == b.messages@
        &&& a.events@ == b.events@
    }

    /// Two ledgers hold the same rows but for observed events.
    pub open spec fn same_but_events(a: Store, b: Store) -> bool {
        &&& a.grants@ == b.grants@
        &&& a.runs@ == b.runs@
        &&& a.allocations@ == b.allocations@
        &&& a.run_allocations@ == b.run_allocations@
        &&& a.permits@ == b.permits@
        &&& a.effects@ == b.effects@
        &&& a.work@ == b.work@
        &&& a.compactions@ == b.compactions@
        &&& a.attachments@ == b.attachments@
        &&& a.attachment_work@ == b.attachment_work@
        &&& a.feedback@ == b.feedback@
        &&& a.waits@ == b.waits@
        &&& a.contexts == b.contexts && a.validity == b.validity && a.corpora@ == b.corpora@ && a.archive == b.archive
        &&& a.messages@ == b.messages@
    }

    /// Two ledgers hold the same rows but for messages.
    pub open spec fn same_but_messages(a: Store, b: Store) -> bool {
        &&& a.grants@ == b.grants@
        &&& a.runs@ == b.runs@
        &&& a.allocations@ == b.allocations@
        &&& a.run_allocations@ == b.run_allocations@
        &&& a.permits@ == b.permits@
        &&& a.effects@ == b.effects@
        &&& a.work@ == b.work@
        &&& a.compactions@ == b.compactions@
        &&& a.attachments@ == b.attachments@
        &&& a.attachment_work@ == b.attachment_work@
        &&& a.feedback@ == b.feedback@
        &&& a.waits@ == b.waits@
        &&& a.contexts == b.contexts && a.validity == b.validity && a.corpora@ == b.corpora@ && a.archive == b.archive
        &&& a.events@ == b.events@
    }

    /// Two ledgers hold the same rows but for attachment feedback.
    pub open spec fn same_but_feedback(a: Store, b: Store) -> bool {
        &&& a.grants@ == b.grants@
        &&& a.runs@ == b.runs@
        &&& a.allocations@ == b.allocations@
        &&& a.run_allocations@ == b.run_allocations@
        &&& a.permits@ == b.permits@
        &&& a.effects@ == b.effects@
        &&& a.work@ == b.work@
        &&& a.compactions@ == b.compactions@
        &&& a.attachments@ == b.attachments@
        &&& a.attachment_work@ == b.attachment_work@
        &&& a.waits@ == b.waits@
        &&& a.contexts == b.contexts && a.validity == b.validity && a.corpora@ == b.corpora@ && a.archive == b.archive
        &&& a.messages@ == b.messages@
        &&& a.events@ == b.events@
    }

    /// Rows are keyed by their identifiers, a provider call of a run holds at most one
    /// permit, every stored budget has well-formed counters, every grant has its root
    /// allocation, and every permit draws on a stored allocation with a reservation that
    /// fits the local accounting range.
    pub open spec fn wf(self) -> bool {
        &&& self.keys_unique()
        &&& forall|i: int, j: int|
            0 <= i < j < self.events@.len() ==> #[trigger] self.events@[i].cursor < #[trigger] self.events@[j].cursor
        &&& self.calls_unique()
        &&& forall|i: int, j: int|
            0 <= i < j < self.compactions@.len() ==> #[trigger] self.compactions@[i].id@
                != #[trigger] self.compactions@[j].id@
        &&& forall|i: int| 0 <= i < self.grants@.len() ==> budget_valid(#[trigger] self.grants@[i].budget)
        &&& forall|i: int|
            0 <= i < self.allocations@.len() ==> budget_valid(#[trigger] self.allocations@[i].budget)
        &&& forall|i: int|
            0 <= i < self.grants@.len() ==> {
                let g = #[trigger] self.grants@[i];
                &&& self.has_allocation(root_allocation_id(g.id@))
                &&& self.allocation_at(root_allocation_id(g.id@)).grant_id@ == g.id@
                &&& self.allocation_at(root_allocation_id(g.id@)).parent_id is None
            }
        &&& forall|i: int|
            0 <= i < self.permits@.len() ==> {
                &&& (#[trigger] self.permits@[i]).reserved_tokens <= i64::MAX
                &&& self.permits@[i].reserved_cost <= i64::MAX
                &&& self.has_allocation(self.permits@[i].allocation_id@)
            }
        &&& forall|i: int, j: int|
            0 <= i < j < self.waits@.len() ==> #[trigger] self.waits@[i].run_id@ != #[trigger] self.waits@[j].run_id@
        &&& forall|i: int, j: int|
            0 <= i < j < self.work@.len() ==> #[trigger] self.work@[i].item.id@ != #[trigger] self.work@[j].item.id@
        &&& forall|i: int, j: int|
            0 <= i < j < self.attachments@.len() ==> #[trigger] self.attachments@[i].id@
                != #[trigger] self.attachments@[j].id@
        &&& forall|i: int, j: int|
            0 <= i < j < self.attachment_work@.len() ==> #[trigger] self.attachment_work@[i].work_id@
                != #[trigger] self.attachment_work@[j].work_id@
        &&& forall|i: int, j: int|
            0 <= i < j < self.feedback@.len() ==> #[trigger] self.feedback@[i].id@ != #[trigger] self.feedback@[j].id@
    }

    /// A ledger with no rows.
    pub fn new() -> (s: Store)
        ensures
            s.wf(),
            s.grants@.len() == 0,
            s.runs@.len() == 0,
            s.allocations@.len() == 0,
            s.permits@.len() == 0,
            s.contexts.wf(),
            s.messages@.len() == 0,
            s.events@.len() == 0,
    {
        Store {
            grants: Vec::new(),
            runs: Vec::new(),
            allocations: Vec::new(),
            run_allocations: Vec::new(),
            permits: Vec::new(),
            effects: Vec::new(),
            work: Vec::new(),
            compactions: Vec::new(),
            attachments: Vec::new(),
            attachment_work: Vec::new(),
            feedback: Vec::new(),
            waits: Vec::new(),
            contexts: ContextTables::new(),
            messages: Vec::new(),
            events: Vec::new(),
            corpora: Vec::new(),
            validity: ValidityTables::new(),
            archive: ArchiveTables::new(),
        }
    }

    pub fn find_grant(&self, id: &String) -> (r: Option<usize>)
        requires
            self.keys_unique(),
        ensures
            match r {
                Some(i) => i < self.grants@.len() && self.grants@[i as int].id@ == id@
                    && self.has_grant(id@) && self.grant_at(id@) == self.grants@[i as int],
                None => !self.has_grant(id@),
            },
    {
        let mut i: usize = 0;
        while i < self.grants.len()
            invariant
                self.keys_unique(),
                0 <= i <= self.grants@.len(),
                forall|j: int| 0 <= j < i ==> #[trigger] self.grants@[j].id@ != id@,
            decreases self.grants@.len() - i,
        {
            if self.grants[i].id == *id {
                assert(self.grants@[i as int].id@ == id@);
                proof {
                    let k = choose|k: int| 0 <= k < self.grants@.len() && #[trigger] self.grants@[k].id@ == id@;
                    assert(k == i as int) by {
                        if k > i as int {
                            assert(self.grants@[i as int].id@ != self.grants@[k].id@);
                        }
                    }
                }
                return Some(i);
            }
            i = i + 1;
        }
        None
    }

    pub fn find_run(&self, id: &String) -> (r: Option<usize>)
        requires
            self.keys_unique(),
        ensures
            match r {
                Some(i) => i < self.runs@.len() && self.runs@[i as int].id@ == id@
                    && self.has_run(id@) && self.run_at(id@) == self.runs@[i as int],
                None => !self.has_run(id@),
            },
    {
        let mut i: usize = 0;
        while i < self.runs.len()
            invariant
                self.keys_unique(),
                0 <= i <= self.runs@.len(),
                forall|j: int| 0 <= j < i ==> #[trigger] self.runs@[j].id@ != id@,
            decreases self.runs@.len() - i,
        {
            if self.runs[i].id == *id {
                assert(self.runs@[i as int].id@ == id@);
                proof {
                    let k = choose|k: int| 0 <= k < self.runs@.len() && #[trigger] self.runs@[k].id@ == id@;
                    assert(k == i as int) by {
                        if k > i as int {
                            assert(self.runs@[i as int].id@ != self.runs@[k].id@);
                        }
                    }
                }
                return Some(i);
            }
            i = i + 1;
        }
        None
    }

    pub fn find_allocation(&self, id: &String) -> (r: Option<usize>)
        requires
            self.keys_unique(),
        ensures
            match r {
                Some(i) => i < self.allocations@.len() && self.allocations@[i as int].id@ == id@
                    && self.has_allocation(id@) && self.allocation_at(id@) == self.allocations@[i as int],
                None => !self.has_allocation(id@),
            },
    {
        let mut i: usize = 0;
        while i < self.allocations.len()
            invariant
                self.keys_unique(),
                0 <= i <= self.allocations@.len(),
                forall|j: int| 0 <= j < i ==> #[trigger] self.allocations@[j].id@ != id@,
            decreases self.allocations@.len() - i,
        {
            if self.allocations[i].id == *id {
                assert(self.allocations@[i as int].id@ == id@);
                proof {
                    let k = choose|k: int| 0 <= k < self.allocations@.len() && #[trigger] self.allocations@[k].id@ == id@;
                    assert(k == i as int) by {
                        if k > i as int {
                            assert(self.allocations@[i as int].id@ != self.allocations@[k].id@);
                        }
                    }
                }
                return Some(i);
            }
            i = i + 1;
        }
        None
    }

    pub fn find_run_allocation(&self, run: &String) -> (r: Option<usize>)
        requires
            self.keys_unique(),
        ensures
            match r {
                Some(i) => i < self.run_allocations@.len() && self.run_allocations@[i as int].run_id@ == run@
                    && self.run_allocation_binding(run@) == Some(self.run_allocations@[i as int].allocation_id@),
                None => self.run_allocation_binding(run@) is None,
            },
    {
        let mut i: usize = 0;
        while i < self.run_allocations.len()
            invariant
                self.keys_unique(),
                0 <= i <= self.run_allocations@.len(),
                forall|j: int| 0 <= j < i ==> #[trigger] self.run_allocations@[j].run_id@ != run@,
            decreases self.run_allocations@.len() - i,
        {
            if self.run_allocations[i].run_id == *run {
                assert(self.run_allocations@[i as int].run_id@ == run@);
                proof {
                    let k = choose|k: int| 0 <= k < self.run_allocations@.len() && #[trigger] self.run_allocations@[k].run_id@ == run@;
                    assert(k == i as int) by {
                        if k > i as int {
                            assert(self.run_allocations@[i as int].run_id@ != self.run_allocations@[k].run_id@);
                        }
                    }
                }
                return Some(i);
            }
            i = i + 1;
        }
        None
    }

    pub fn find_permit(&self, id: &String) -> (r: Option<usize>)
        requires
            self.keys_unique(),
        ensures
            match r {
                Some(i) => i < self.permits@.len() && self.permits@[i as int].id@ == id@,
                None => !self.has_permit(id@),
            },
    {
        let mut i: usize = 0;
        while i < self.permits.len()
            invariant
                self.keys_unique(),
                0 <= i <= self.permits@.len(),
                forall|j: int| 0 <= j < i ==> #[trigger] self.permits@[j].id@ != id@,
            decreases self.permits@.len() - i,
        {
            if self.permits[i].id == *id {
                assert(self.permits@[i as int].id@ == id@);
                return Some(i);
            }
            i = i + 1;
        }
        None
    }
}

} // verus!
