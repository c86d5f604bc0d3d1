//! Properties that relate several operations on the ledger.

use vstd::prelude::*;
use crate::accounting::{observed_row, usage_valid, PermitDecision};
use crate::budgets::{ceilings_hold, is_requested, matches_request, AllocationAsk};
use crate::compare::{same_permit_request, same_usage};
use crate::attachments::AttachmentPolicy;
use crate::communication::{delivered, delivery, lemma_delivered_offered, offered};
use crate::contracts::{
    Action, ActionReceipt, Attachment, AttachmentOpen, AttachmentState, BudgetAllocation, EvidenceRequest, Grant, Permit, PermitRequest, Usage, Inbox,
};
use crate::error::{Result, CONFLICT};
use crate::decimal::{decimal_value, lemma_decimal_roundtrip};
use crate::store::{opt_view, EffectEntry, EventRecord, EventRow, PermitEntry, PermitState, Store};
use crate::effects::{first_effect, same_action};
use crate::host::HostReport;
use crate::store::EffectPhase;
use crate::evidence::{answering, answers, cursor_bound, excluded, Reading, first_identity, same_identity, visible, EvidencePage};

verus! {

/// After a permit row is replaced by one with the same identifier, the permit is found
/// at the same row and reads as the replacement.
proof fn lemma_permit_set_row(old: Store, new: Store, id: Seq<char>, row: PermitEntry)
    requires
        old.wf(),
        new.wf(),
        old.has_permit(id),
        Store::permit_set(old, new, id, row),
        row.id == old.permit_row(id).id,
    ensures
        new.has_permit(id),
        new.permit_index(id) == old.permit_index(id),
        new.permit_row(id) == row,
{
    let i = old.permit_index(id);
    assert(new.permits@[i].id@ == id);
    let j = new.permit_index(id);
    if j != i {
        if j < i {
            assert(new.permits@[j].id@ != new.permits@[i].id@);
        } else {
            assert(new.permits@[i].id@ != new.permits@[j].id@);
        }
    }
}

/// Provider transport happens at most once: once a permit was dispatched, dispatching
/// it again is refused as a conflict and changes nothing.
pub proof fn law_dispatch_once(s0: Store, s1: Store, s2: Store, run: Seq<char>, permit: Seq<char>,
    t1: u64, t2: u64, r2: Result<()>)
    requires
        s0.wf(),
        s1.wf(),
        Store::dispatch_post(s0, s1, run, permit, t1, Ok(())),
        Store::dispatch_post(s1, s2, run, permit, t2, r2),
    ensures
        r2 matches Err(e) && e.code == CONFLICT,
        Store::same(s2, s1),
{
    let row = PermitEntry { state: PermitState::Dispatched, dispatched_ms: Some(t1), ..s0.permit_row(permit) };
    lemma_permit_set_row(s0, s1, permit, row);
    assert(s1.run_active(run) == s0.run_active(run));
    assert(s1.run_grant_known(run) == s0.run_grant_known(run));
}

/// Releasing an undispatched permit twice succeeds both times; the second release
/// changes nothing.
pub proof fn law_release_idempotent(s0: Store, s1: Store, s2: Store, run: Seq<char>, permit: Seq<char>, r2: Result<()>)
    requires
        s0.wf(),
        s1.wf(),
        Store::release_post(s0, s1, run, permit, Ok(())),
        Store::release_post(s1, s2, run, permit, r2),
    ensures
        r2 is Ok,
        s2.permits@ == s1.permits@,
{
    let row = PermitEntry { state: PermitState::Released, ..s0.permit_row(permit) };
    lemma_permit_set_row(s0, s1, permit, row);
    let i = s1.permit_index(permit);
    assert(s2.permits@ =~= s1.permits@);
}

/// A released permit can never be dispatched: provider transport was given up.
pub proof fn law_released_not_dispatched(s0: Store, s1: Store, s2: Store, run: Seq<char>, permit: Seq<char>,
    t: u64, r2: Result<()>)
    requires
        s0.wf(),
        s1.wf(),
        Store::release_post(s0, s1, run, permit, Ok(())),
        Store::dispatch_post(s1, s2, run, permit, t, r2),
    ensures
        r2 is Err,
        Store::same(s2, s1),
{
    let row = PermitEntry { state: PermitState::Released, ..s0.permit_row(permit) };
    lemma_permit_set_row(s0, s1, permit, row);
}

/// Reporting the same usage again after it was recorded succeeds and changes nothing.
pub proof fn law_usage_idempotent(s0: Store, s1: Store, s2: Store, run: Seq<char>, u: Usage,
    t1: u64, t2: u64, r2: Result<()>)
    requires
        s0.wf(),
        s1.wf(),
        Store::usage_post(s0, s1, run, u, t1, Ok(())),
        Store::usage_post(s1, s2, run, u, t2, r2),
    ensures
        r2 is Ok,
        Store::same(s2, s1),
{
    if s0.permit_row(u.permit_id@).usage is None {
        lemma_permit_set_row(s0, s1, u.permit_id@, observed_row(s0.permit_row(u.permit_id@), u, t1));
    }
}

/// In any ledger where usage is already recorded for a permit of a run, whatever
/// happened since it was recorded, a valid report of the same usage succeeds and
/// changes nothing, and a valid report of other usage for that permit is a conflict
/// and changes nothing.
pub proof fn law_usage_stored(s: Store, s2: Store, run: Seq<char>, u: Usage, t: u64, r: Result<()>)
    requires
        s.wf(),
        usage_valid(u),
        s.has_permit(u.permit_id@),
        s.permit_row(u.permit_id@).run_id@ == run,
        s.permit_row(u.permit_id@).usage is Some,
        Store::usage_post(s, s2, run, u, t, r),
    ensures
        if same_usage(s.permit_row(u.permit_id@).usage->0, u) {
            r is Ok && Store::same(s2, s)
        } else {
            r matches Err(e) && e.code == CONFLICT && Store::same(s2, s)
        },
{
}

/// Repeating an allocation request that succeeded returns the same allocation and
/// changes nothing, whenever it is repeated.
pub proof fn law_allocate_repeat(s0: Store, s1: Store, s2: Store, grant: Seq<char>, ask: AllocationAsk,
    t1: nat, t2: nat, a: BudgetAllocation, r2: Result<BudgetAllocation>)
    requires
        s0.wf(),
        Store::allocate_post(s0, s1, grant, ask, t1, Ok(a)),
        Store::allocate_post(s1, s2, grant, ask, t2, r2),
    ensures
        r2 == Ok::<BudgetAllocation, crate::error::Error>(a),
        s2 == s1,
{
    reveal(Store::allocate_post);
    crate::accounting::lemma_allocate_post_shape(s0, s1, grant, ask, t1, a);
    if !s0.has_allocation(ask.id) {
        crate::grants::lemma_allocations_push(s0, s1, a);
        assert(s1.in_grant(grant, ask.parent_id) == s0.in_grant(grant, ask.parent_id)) by {
            if s0.has_allocation(ask.parent_id) {
                assert(s1.allocation_at(ask.parent_id) == s0.allocation_at(ask.parent_id));
            }
        }
    }
}

/// A child allocation never has larger ceilings than the allocation it was opened under.
pub proof fn law_child_within_parent(s0: Store, s1: Store, grant: Seq<char>, ask: AllocationAsk, t: nat, a: BudgetAllocation)
    requires
        Store::allocate_post(s0, s1, grant, ask, t, Ok(a)),
        !s0.has_allocation(ask.id),
    ensures
        ceilings_hold(a.budget, s0.allocation_at(ask.parent_id).budget),
        is_requested(a, grant, ask),
{
    reveal(Store::allocate_post);
}


/// Repeating a permit request for the same provider call, against the same allocation,
/// returns the permit already held and changes nothing, whenever it is repeated.
pub proof fn law_permit_repeat(s0: Store, s1: Store, s2: Store, run: Seq<char>, req: PermitRequest,
    alloc: Option<Seq<char>>, t1: nat, t2: nat, id1: Seq<char>, id2: Seq<char>, p1: Permit, r2: Result<Permit>)
    requires
        s0.wf(),
        req.call_id is Some,
        Store::permit_post(s0, s1, run, req, alloc, t1, id1, Ok(p1)),
        Store::permit_post(s1, s2, run, req, alloc, t2, id2, r2),
    ensures
        r2 matches Ok(p2) && p2.id@ == p1.id@ && p2.max_output_tokens == p1.max_output_tokens,
        Store::same(s2, s1),
{
    if req.compaction_id is Some {
        lemma_compaction_permit_repeat(s0, s1, s2, run, req, alloc, t1, t2, id1, id2, p1, r2);
        return;
    }
    reveal(Store::permit_post);
    reveal(Store::permit_core_post);
    let call = req.call_id->0@;
    let first = match alloc {
        Some(a) => a,
        None => s0.run_allocation_id(run),
    };
    assert(s0.permit_prelim_failure(run, req) is None);
    match s0.permit_decision(run, req, first, t1, id1) {
        PermitDecision::Repeated(i) => {
            assert(Store::same(s1, s0));
            assert(s1.permits@ == s0.permits@);
            assert(s1.runs@ == s0.runs@);
            assert(s1.grants@ == s0.grants@);
            assert(s1.allocations@ == s0.allocations@);
            assert(s1.run_allocations@ == s0.run_allocations@);
            assert(s1.permit_prelim_failure(run, req) is None);
            assert(s1.run_allocation_id(run) == s0.run_allocation_id(run));
            assert(s1.has_call(run, call));
            assert(s1.call_index(run, call) == s0.call_index(run, call));
            assert(s1.permit_decision(run, req, first, t2, id2) == PermitDecision::Repeated(i));
        },
        PermitDecision::Granted => {
            let n = s0.permits@.len() as int;
            let last = s1.permits@[n];
            assert(s1.permits@.drop_last() == s0.permits@);
            assert(s1.permits@.len() == n + 1);
            assert(s1.runs@ == s0.runs@);
            assert(s1.grants@ == s0.grants@);
            assert(s1.allocations@ == s0.allocations@);
            assert(s1.run_allocations@ == s0.run_allocations@);
            assert(s1.run_at(run) == s0.run_at(run));
            assert(s1.run_active(run) == s0.run_active(run));
            assert(s1.run_grant_known(run) == s0.run_grant_known(run));
            assert(s1.run_allocation_binding(run) == s0.run_allocation_binding(run));
            assert(s1.run_allocation_id(run) == s0.run_allocation_id(run));
            assert(s1.in_grant(s1.run_at(run).grant_id@, s1.run_allocation_id(run))
                == s0.in_grant(s0.run_at(run).grant_id@, s0.run_allocation_id(run)));
            assert(s1.permit_prelim_failure(run, req) is None);
            assert(last == s1.permits@.last());
            assert(last.run_id@ == run && opt_view(last.call_id) == Some(call));
            assert(s1.has_call(run, call));
            let c = s1.call_index(run, call);
            if c != n {
                if c < n {
                    assert(!({
                        &&& s1.permits@[c].run_id@ == s1.permits@[n].run_id@
                        &&& s1.permits@[c].call_id is Some
                        &&& opt_view(s1.permits@[c].call_id) == opt_view(s1.permits@[n].call_id)
                    }));
                }
            }
            assert(c == n);
            assert(same_permit_request(last.request, req));
            assert(s1.permit_decision(run, req, first, t2, id2) == PermitDecision::Repeated(n));
        },
        PermitDecision::Refused(code) => {},
    }
}


/// The repeat of a compaction permit for the same provider call: the compaction's
/// allocation already exists, so it is found again and the permit is repeated.
#[verifier::spinoff_prover]
#[verifier::rlimit(40)]
proof fn lemma_compaction_permit_repeat(s0: Store, s1: Store, s2: Store, run: Seq<char>, req: PermitRequest,
    alloc: Option<Seq<char>>, t1: nat, t2: nat, id1: Seq<char>, id2: Seq<char>, p1: Permit, r2: Result<Permit>)
    requires
        s0.wf(),
        req.call_id is Some,
        req.compaction_id is Some,
        Store::permit_post(s0, s1, run, req, alloc, t1, id1, Ok(p1)),
        Store::permit_post(s1, s2, run, req, alloc, t2, id2, r2),
    ensures
        r2 matches Ok(p2) && p2.id@ == p1.id@ && p2.max_output_tokens == p1.max_output_tokens,
        Store::same(s2, s1),
{
    reveal(Store::permit_post);
    reveal(Store::permit_core_post);
    reveal(Store::allocate_post);
    let call = req.call_id->0@;
    let summary = req.compaction_id->0@;
    let first = match alloc {
        Some(a) => a,
        None => s0.run_allocation_id(run),
    };
    let gid = s0.run_at(run).grant_id@;
    let ask = s0.compaction_ask(run, summary, first);
    assert(s0.permit_prelim_failure(run, req) is None);
    assert(s0.compaction_failure(run, summary) is None);
    assert(s0.in_grant(gid, first));
    assert(s0.allocate_failure(gid, ask, t1) is None);
    assert(Store::compaction_funded(s0, s1, run, req, first, t1, id1, Ok(p1)));
    let (mid, a) = choose|mid: Store, a: BudgetAllocation|
        #[trigger] Store::funded_permit(s0, s1, mid, a, run, req, first, t1, id1, Ok(p1));
    assert(Store::allocate_post(s0, mid, gid, ask, t1, Ok(a)));
    assert(Store::permit_core_post(s0, s1, mid, run, req, a.id@, t1, id1, Ok(p1)));
    crate::accounting::lemma_allocate_post_shape(s0, mid, gid, ask, t1, a);
    let existed = s0.has_allocation(ask.id);
    if !existed {
        crate::grants::lemma_allocations_push(s0, mid, a);
    }
    // What the first call did to the ledger.
    let d1 = mid.permit_decision(run, req, a.id@, t1, id1);
    assert(!(d1 is Refused));
    let repeated = d1 is Repeated;
    let row: int = match d1 {
        PermitDecision::Repeated(i) => i,
        _ => mid.permits@.len() as int,
    };
    if repeated {
        assert(Store::same(s1, s0));
        assert(s0.permits@[row].allocation_id@ == a.id@);
        assert(mid.permits@ == s0.permits@);
        assert(s0.has_allocation(s0.permits@[row].allocation_id@));
        assert(existed);
    }
    // The second call sees the same run, compaction, parent and allocation.
    assert(s1.runs@ == s0.runs@);
    assert(s1.grants@ == s0.grants@);
    assert(s1.run_allocations@ == s0.run_allocations@);
    assert(s1.compactions@ == s0.compactions@);
    assert(s1.run_at(run) == s0.run_at(run));
    assert(s1.run_active(run) == s0.run_active(run));
    assert(s1.run_grant_known(run) == s0.run_grant_known(run));
    assert(s1.run_allocation_binding(run) == s0.run_allocation_binding(run));
    assert(s1.run_allocation_id(run) == s0.run_allocation_id(run));
    assert(s1.allocations@ == s0.allocations@ || (!existed && s1.allocations@ == s0.allocations@.push(a)));
    if s1.allocations@ == s0.allocations@ {
        assert(forall|x: Seq<char>| #[trigger] s1.has_allocation(x) == s0.has_allocation(x));
        assert(forall|x: Seq<char>| #[trigger] s1.allocation_at(x) == s0.allocation_at(x));
    } else {
        crate::grants::lemma_allocations_push(s0, s1, a);
    }
    assert(s1.in_grant(gid, s1.run_allocation_id(run)));
    assert(s1.permit_prelim_failure(run, req) is None);
    assert(s1.compaction_failure(run, summary) is None) by {
        assert(s1.has_compaction(run, summary) == s0.has_compaction(run, summary));
    }
    assert(s1.in_grant(gid, first));
    assert(s1.compaction_ask(run, summary, first) == ask);
    assert(s1.has_allocation(ask.id));
    if existed {
        assert(matches_request(s0.allocation_at(ask.id), gid, ask));
    } else {
        assert(s1.allocation_at(ask.id) == a);
    }
    assert(matches_request(s1.allocation_at(ask.id), gid, ask));
    assert(s1.allocate_failure(gid, ask, t2) is None);
    assert(Store::compaction_funded(s1, s2, run, req, first, t2, id2, r2));
    let (mid2, a2) = choose|mid2: Store, a2: BudgetAllocation|
        #[trigger] Store::funded_permit(s1, s2, mid2, a2, run, req, first, t2, id2, r2);
    assert(mid2 == s1);
    assert(a2.id@ == ask.id);
    assert(a.id@ == ask.id);
    // The call's permit row is found again with the same request and allocation.
    assert(s1.permits@[row].run_id@ == run);
    assert(opt_view(s1.permits@[row].call_id) == Some(call));
    assert(s1.has_call(run, call));
    let c = s1.call_index(run, call);
    if repeated {
        let i = row;
        if c != i {
            if c < i {
                assert(!({
                    &&& s1.permits@[c].run_id@ == s1.permits@[i].run_id@
                    &&& s1.permits@[c].call_id is Some
                    &&& opt_view(s1.permits@[c].call_id) == opt_view(s1.permits@[i].call_id)
                }));
            } else {
                assert(!({
                    &&& s1.permits@[i].run_id@ == s1.permits@[c].run_id@
                    &&& s1.permits@[i].call_id is Some
                    &&& opt_view(s1.permits@[i].call_id) == opt_view(s1.permits@[c].call_id)
                }));
            }
        }
        assert(s1.permit_decision(run, req, a2.id@, t2, id2) == PermitDecision::Repeated(i));
    } else {
        let n = mid.permits@.len() as int;
        assert(s1.permits@.drop_last() == mid.permits@);
        if c != n {
            if c < n {
                assert(!({
                    &&& s1.permits@[c].run_id@ == s1.permits@[n].run_id@
                    &&& s1.permits@[c].call_id is Some
                    &&& opt_view(s1.permits@[c].call_id) == opt_view(s1.permits@[n].call_id)
                }));
            }
        }
        assert(s1.permit_decision(run, req, a2.id@, t2, id2) == PermitDecision::Repeated(n));
    }
}


/// A detached or completed attachment is never reopened: a later request to open it
/// is refused and changes nothing.
pub proof fn law_detached_stays_closed(s0: Store, s1: Store, s2: Store, id: Seq<char>, t1: u64,
    grant: Grant, req: AttachmentOpen, policy: AttachmentPolicy, current: Seq<char>, t2: u64, r2: Result<Attachment>)
    requires
        s0.wf(),
        s1.wf(),
        req.id@ == id,
        Store::detach_post(s0, s1, id, t1, Ok(())),
        Store::open_post(s1, s2, grant, req, policy, current, t2, r2),
    ensures
        r2 is Err,
        Store::same(s2, s1),
{
    let i = s0.attachment_index(id);
    assert(s1.attachments@[i].id@ == id);
    let j = s1.attachment_index(id);
    if j != i {
        if j < i {
            assert(s1.attachments@[j].id@ != s1.attachments@[i].id@);
        } else {
            assert(s1.attachments@[i].id@ != s1.attachments@[j].id@);
        }
    }
    assert(s1.has_attachment(id));
    let a = s1.attachment_at(id);
    assert(a.state == AttachmentState::Detached || a.state == AttachmentState::Completed);
}

/// The permit a named provider call was given is the one looking that call up finds.
pub proof fn law_permit_lookup(s0: Store, s1: Store, run: Seq<char>, req: PermitRequest,
    alloc: Option<Seq<char>>, t: nat, id: Seq<char>, p: Permit)
    requires
        s0.wf(),
        s1.wf(),
        req.call_id is Some,
        Store::permit_post(s0, s1, run, req, alloc, t, id, Ok(p)),
    ensures
        s1.has_call(run, req.call_id->0@),
        s1.permits@[s1.call_index(run, req.call_id->0@)].id@ == p.id@,
{
    reveal(Store::permit_post);
    reveal(Store::permit_core_post);
    reveal(Store::allocate_post);
    let call = req.call_id->0@;
    let first = match alloc {
        Some(a) => a,
        None => s0.run_allocation_id(run),
    };
    assert(s0.permit_prelim_failure(run, req) is None);
    let (mid, a_id): (Store, Seq<char>) = if req.compaction_id is Some {
        let summary = req.compaction_id->0@;
        let gid = s0.run_at(run).grant_id@;
        assert(s0.compaction_failure(run, summary) is None);
        assert(s0.in_grant(gid, first));
        assert(s0.allocate_failure(gid, s0.compaction_ask(run, summary, first), t) is None);
        assert(Store::compaction_funded(s0, s1, run, req, first, t, id, Ok(p)));
        let (m, a) = choose|m: Store, a: BudgetAllocation|
            #[trigger] Store::funded_permit(s0, s1, m, a, run, req, first, t, id, Ok(p));
        assert(Store::funded_permit(s0, s1, m, a, run, req, first, t, id, Ok(p)));
        assert(m.permits@ == s0.permits@);
        (m, a.id@)
    } else {
        (s0, first)
    };
    assert(Store::permit_core_post(s0, s1, mid, run, req, a_id, t, id, Ok(p)));
    assert(mid.permits@ == s0.permits@);
    match mid.permit_decision(run, req, a_id, t, id) {
        PermitDecision::Repeated(i) => {
            assert(mid.has_call(run, call));
            assert(s1.permits@ == mid.permits@);
            assert(s1.call_index(run, call) == mid.call_index(run, call));
        },
        PermitDecision::Granted => {
            assert(!mid.has_call(run, call));
            let row: int = mid.permits@.len() as int;
            assert(s1.permits@[row] == s1.permits@.last());
            assert(opt_view(s1.permits@[row].call_id) == Some(call));
            assert(s1.permits@[row].run_id@ == run);
            assert(s1.has_call(run, call));
            let c = s1.call_index(run, call);
            if c < row {
                assert(s1.permits@[c] == mid.permits@[c]);
                assert(mid.permits@[c].run_id@ == run);
            }
        },
        PermitDecision::Refused(_) => {},
    }
}

/// A message its recipient acknowledged is not delivered by a later inbox read.
pub proof fn law_acknowledged_not_redelivered(s0: Store, s1: Store, s2: Store, run: Seq<char>, id: Seq<char>,
    reader: Seq<char>, readable: Seq<String>, inbox: Inbox)
    requires
        s0.mailbox_wf(),
        Store::acknowledge_post(s0, s1, run, id, Ok(())),
        Store::inbox_post(s1, s2, reader, readable, Ok(inbox)),
    ensures
        forall|k: int| 0 <= k < inbox.messages@.len() ==> #[trigger] inbox.messages@[k].id@ != id,
{
    let i = s0.message_index(id);
    let ms = s1.messages@;
    if s1.run_active(reader) {
        let d = delivered(ms, ms.len(), reader, s1.grant_of(reader), readable);
        lemma_delivered_offered(ms, ms.len(), reader, s1.grant_of(reader), readable);
        assert forall|k: int| 0 <= k < inbox.messages@.len() implies #[trigger] inbox.messages@[k].id@ != id by {
            let q = d[k];
            assert(offered(ms[q], reader, s1.grant_of(reader), readable));
            assert(inbox.messages@[k] == delivery(ms[q]));
            if q != i {
                assert(ms[q] == s0.messages@[q]);
                if q < i {
                    assert(s0.messages@[q].message.id@ != s0.messages@[i].message.id@);
                } else {
                    assert(s0.messages@[i].message.id@ != s0.messages@[q].message.id@);
                }
            }
        }
    }
}

/// Acknowledging a message a second time changes nothing.
pub proof fn law_acknowledge_idempotent(s0: Store, s1: Store, s2: Store, run: Seq<char>, id: Seq<char>, r: Result<()>)
    requires
        s0.mailbox_wf(),
        Store::acknowledge_post(s0, s1, run, id, Ok(())),
        Store::acknowledge_post(s1, s2, run, id, r),
    ensures
        r is Ok,
        s2.messages@ == s1.messages@,
        Store::same(s2, s1),
{
    let i = s0.message_index(id);
    assert(s1.messages@[i].message.id@ == id);
    assert(s1.addressed(run, id));
    let j = s1.message_index(id);
    if j != i {
        assert(s1.messages@[j] == s0.messages@[j]);
        if j < i {
            assert(s0.messages@[j].message.id@ != s0.messages@[i].message.id@);
        } else {
            assert(s0.messages@[i].message.id@ != s0.messages@[j].message.id@);
        }
    }
    assert(s2.messages@ =~= s1.messages@);
}

/// In any ledger that already holds an allocation under the requested identifier,
/// allocating again with a valid request under an allocation of the grant answers from
/// the stored row, at any time and whatever happened since: the same request returns
/// the stored allocation and changes nothing; a request with other lineage or ceilings
/// is a conflict and changes nothing.
pub proof fn law_allocate_stored(s: Store, s2: Store, grant: Seq<char>, ask: AllocationAsk, t: nat,
    r: Result<BudgetAllocation>)
    requires
        s.wf(),
        crate::store::budget_valid(ask.budget),
        s.in_grant(grant, ask.parent_id),
        s.has_allocation(ask.id),
        Store::allocate_post(s, s2, grant, ask, t, r),
    ensures
        matches_request(s.allocation_at(ask.id), grant, ask)
            ==> r == Ok::<BudgetAllocation, crate::error::Error>(s.allocation_at(ask.id)) && s2 == s,
        !matches_request(s.allocation_at(ask.id), grant, ask) ==> (r matches Err(e) && e.code == CONFLICT && s2 == s),
{
    reveal(Store::allocate_post);
}

/// A granted allocation is stored under its identifier, matching its request.
pub proof fn law_allocate_records(s0: Store, s1: Store, grant: Seq<char>, ask: AllocationAsk, t: nat, a: BudgetAllocation)
    requires
        s0.wf(),
        Store::allocate_post(s0, s1, grant, ask, t, Ok(a)),
    ensures
        s1.has_allocation(ask.id),
        s1.allocation_at(ask.id) == a,
        matches_request(a, grant, ask),
        s1.in_grant(grant, ask.parent_id),
{
    reveal(Store::allocate_post);
    crate::accounting::lemma_allocate_post_shape(s0, s1, grant, ask, t, a);
    if !s0.has_allocation(ask.id) {
        crate::grants::lemma_allocations_push(s0, s1, a);
        assert(s1.in_grant(grant, ask.parent_id) == s0.in_grant(grant, ask.parent_id)) by {
            if s0.has_allocation(ask.parent_id) {
                assert(s1.allocation_at(ask.parent_id) == s0.allocation_at(ask.parent_id));
            }
        }
    }
}

/// In any ledger that already holds a permit for a provider call of a run, a valid
/// request for that call by the running run answers from the stored permit, at any time
/// and whatever happened since, even if its allocation has closed: the same request
/// against the same allocation returns the stored permit and changes nothing; another
/// request or allocation is a conflict and changes nothing.
pub proof fn law_permit_stored(s: Store, s2: Store, run: Seq<char>, req: PermitRequest, alloc: Option<Seq<char>>,
    t: nat, id: Seq<char>, r: Result<Permit>)
    requires
        s.wf(),
        req.call_id is Some,
        req.compaction_id is None,
        s.permit_prelim_failure(run, req) is None,
        s.has_call(run, req.call_id->0@),
        Store::permit_post(s, s2, run, req, alloc, t, id, r),
    ensures
        ({
            let held = s.permits@[s.call_index(run, req.call_id->0@)];
            let first = match alloc { Some(a) => a, None => s.run_allocation_id(run) };
            if same_permit_request(held.request, req) && held.allocation_id@ == first {
                r matches Ok(p) && p.id@ == held.id@ && p.max_output_tokens == req.max_output_tokens && Store::same(s2, s)
            } else {
                r matches Err(e) && e.code == CONFLICT && Store::same(s2, s)
            }
        }),
{
    reveal(Store::permit_post);
    reveal(Store::permit_core_post);
}

/// Appending an event that claims the identity of `e`, to a log where no event claimed
/// it, makes that event the first to claim it.
proof fn lemma_first_identity_push(rows: Seq<EventRow>, row: EventRow, e: EventRecord)
    requires
        first_identity(rows, e) is None,
        same_identity(row.event, e),
    ensures
        first_identity(rows.push(row), e) == Some(rows.len() as int),
    decreases rows.len(),
{
    if rows.len() > 0 {
        assert(rows.push(row).drop_first() =~= rows.drop_first().push(row));
        lemma_first_identity_push(rows.drop_first(), row, e);
    }
}

/// Logging the same event twice stores it once: the second time is accepted as already
/// known and changes nothing.
pub proof fn law_ingest_idempotent(s0: Store, s1: Store, s2: Store, e: EventRecord, r2: Result<bool>)
    requires
        Store::ingest_post(s0, s1, e, Ok(true)),
        Store::ingest_post(s1, s2, e, r2),
    ensures
        r2 == Ok::<bool, crate::error::Error>(false),
        Store::same(s2, s1),
{
    let row = EventRow { cursor: crate::evidence::next_cursor(s0.events@) as u64, event: e };
    lemma_first_identity_push(s0.events@, row, e);
}

/// Every event of an evidence page is one the grant may see, and never the active
/// run's own conversation or compactions.
pub proof fn law_page_visible(s: Store, grant: Grant, request: EvidenceRequest, activity: Option<Seq<char>>,
    page: EvidencePage, k: int)
    requires
        s.evidence_post(grant, request, activity, Ok(page)),
        0 <= k < page.events@.len(),
    ensures
        visible(page.events@[k], grant, (activity, s.corpus_events(grant))),
        !excluded(page.events@[k], activity),
{
    lemma_answering_visible(s.events@, s.events@, grant, request, (activity, s.corpus_events(grant)), k);
}

proof fn lemma_answering_visible(log: Seq<EventRow>, rows: Seq<EventRow>, grant: Grant, request: EvidenceRequest,
    activity: Reading, k: int)
    requires
        0 <= k < answering(log, rows, grant, request, activity).len(),
    ensures
        visible(answering(log, rows, grant, request, activity)[k].event, grant, activity),
    decreases rows.len(),
{
    if rows.len() > 0 {
        let before = answering(log, rows.drop_last(), grant, request, activity);
        if k < before.len() {
            lemma_answering_visible(log, rows.drop_last(), grant, request, activity, k);
        }
    }
}

/// Appending an effect under a new operation identifier makes it the first under it.
proof fn lemma_first_effect_push(es: Seq<EffectEntry>, e: EffectEntry, id: Seq<char>)
    requires
        first_effect(es, id) is None,
        e.id@ == id,
    ensures
        first_effect(es.push(e), id) == Some(es.len() as int),
    decreases es.len(),
{
    if es.len() > 0 {
        assert(es.push(e).drop_first() =~= es.drop_first().push(e));
        lemma_first_effect_push(es.drop_first(), e, id);
    }
}

/// Beginning the same action twice records one effect: the second request finds it
/// already begun and changes nothing.
pub proof fn law_begin_effect_once(s0: Store, s1: Store, s2: Store, run: Seq<char>, action: Action,
    src1: Seq<char>, src2: Seq<char>, t1: nat, t2: nat, rc: ActionReceipt, r2: Result<Option<ActionReceipt>>)
    requires
        Store::begin_effect_post(s0, s1, run, action, src1, t1, Ok(Some(rc))),
        Store::begin_effect_post(s1, s2, run, action, src2, t2, r2),
    ensures
        r2 matches Ok(None),
        Store::same(s2, s1),
{
    let e = s1.effects@.last();
    assert(s1.effects@ =~= s0.effects@.push(e));
    lemma_first_effect_push(s0.effects@, e, action.operation_id@);
    assert(s1.runs@ == s0.runs@);
    assert(s1.grants@ == s0.grants@);
    assert(same_action(e.action, action));
}

/// The events of `t` logged after cursor `c`, in order.
pub open spec fn after_cursor(t: Seq<EventRow>, c: u64) -> Seq<EventRow>
    decreases t.len(),
{
    if t.len() == 0 {
        Seq::empty()
    } else if t.last().cursor > c {
        after_cursor(t.drop_last(), c).push(t.last())
    } else {
        after_cursor(t.drop_last(), c)
    }
}

/// Cursors increase along `t`.
pub open spec fn increasing(t: Seq<EventRow>) -> bool {
    forall|i: int, j: int| 0 <= i < j < t.len() ==> #[trigger] t[i].cursor < #[trigger] t[j].cursor
}

proof fn lemma_answering_from(log: Seq<EventRow>, rows: Seq<EventRow>, grant: Grant, request: EvidenceRequest,
    activity: Reading, k: int)
    requires
        0 <= k < answering(log, rows, grant, request, activity).len(),
    ensures
        answers(log, answering(log, rows, grant, request, activity)[k], grant, request, activity),
        exists|j: int| 0 <= j < rows.len() && #[trigger] rows[j] == answering(log, rows, grant, request, activity)[k],
    decreases rows.len(),
{
    if rows.len() > 0 {
        let before = answering(log, rows.drop_last(), grant, request, activity);
        if k < before.len() {
            lemma_answering_from(log, rows.drop_last(), grant, request, activity, k);
            let j = choose|j: int| 0 <= j < rows.drop_last().len() && #[trigger] rows.drop_last()[j] == before[k];
            assert(rows[j] == rows.drop_last()[j]);
        } else {
            assert(rows[rows.len() - 1] == rows.last());
        }
    }
}

proof fn lemma_answering_increasing(log: Seq<EventRow>, rows: Seq<EventRow>, grant: Grant, request: EvidenceRequest,
    activity: Reading)
    requires
        increasing(rows),
    ensures
        increasing(answering(log, rows, grant, request, activity)),
    decreases rows.len(),
{
    if rows.len() > 0 {
        let d = rows.drop_last();
        assert(increasing(d));
        lemma_answering_increasing(log, d, grant, request, activity);
        let before = answering(log, d, grant, request, activity);
        assert forall|k: int| 0 <= k < before.len() implies #[trigger] before[k].cursor < rows.last().cursor by {
            lemma_answering_from(log, d, grant, request, activity, k);
            let j = choose|j: int| 0 <= j < d.len() && #[trigger] d[j] == before[k];
            assert(rows[j] == d[j]);
            assert(rows[rows.len() - 1] == rows.last());
        }
    }
}

/// Requests that differ only in their cursor, the second at `c` past the first's:
/// answering the second is answering the first after `c`.
proof fn lemma_answering_after(log: Seq<EventRow>, rows: Seq<EventRow>, grant: Grant, r1: EvidenceRequest,
    r2: EvidenceRequest, activity: Reading, c: u64)
    requires
        r2 == (EvidenceRequest { cursor: r2.cursor, ..r1 }),
        cursor_bound(r2.cursor@) == c,
        c >= cursor_bound(r1.cursor@),
    ensures
        answering(log, rows, grant, r2, activity) == after_cursor(answering(log, rows, grant, r1, activity), c),
    decreases rows.len(),
{
    if rows.len() > 0 {
        lemma_answering_after(log, rows.drop_last(), grant, r1, r2, activity, c);
        let before = answering(log, rows.drop_last(), grant, r1, activity);
        if answers(log, rows.last(), grant, r1, activity) {
            assert(before.push(rows.last()).drop_last() =~= before);
        }
    }
}

proof fn lemma_after_last(t: Seq<EventRow>, n: int)
    requires
        increasing(t),
        0 < n <= t.len(),
    ensures
        after_cursor(t, t[n - 1].cursor) == t.skip(n),
    decreases t.len(),
{
    let c = t[n - 1].cursor;
    if t.len() == n {
        lemma_after_none(t, c);
        assert(t.skip(n) =~= Seq::<EventRow>::empty());
    } else {
        let d = t.drop_last();
        assert(increasing(d));
        assert(d[n - 1] == t[n - 1]);
        lemma_after_last(d, n);
        assert(t.last().cursor > c);
        assert(d.skip(n).push(t.last()) =~= t.skip(n));
    }
}

proof fn lemma_after_none(t: Seq<EventRow>, c: u64)
    requires
        forall|i: int| 0 <= i < t.len() ==> #[trigger] t[i].cursor <= c,
    ensures
        after_cursor(t, c) == Seq::<EventRow>::empty(),
    decreases t.len(),
{
    if t.len() > 0 {
        let d = t.drop_last();
        assert forall|i: int| 0 <= i < d.len() implies #[trigger] d[i].cursor <= c by {
            assert(d[i] == t[i]);
        }
        lemma_after_none(d, c);
        assert(t[t.len() - 1] == t.last());
    }
}

/// Paging continues where it stopped: reading again from the cursor a non-empty page
/// returned, with the same request otherwise, answers exactly the events that answered
/// the first request after that page, in the same order.
pub proof fn law_pages_continue(s: Store, grant: Grant, r1: EvidenceRequest, r2: EvidenceRequest,
    activity: Option<Seq<char>>, p1: EvidencePage)
    requires
        s.wf(),
        s.evidence_post(grant, r1, activity, Ok(p1)),
        p1.events@.len() > 0,
        r2 == (EvidenceRequest { cursor: r2.cursor, ..r1 }),
        r2.cursor@ == p1.cursor@,
        decimal_value(p1.cursor@) <= i64::MAX,
    ensures
        answering(s.events@, s.events@, grant, r2, (activity, s.corpus_events(grant)))
            == answering(s.events@, s.events@, grant, r1, (activity, s.corpus_events(grant))).skip(p1.events@.len() as int),
{
    let log = s.events@;
    let reader = (activity, s.corpus_events(grant));
    let s1 = answering(log, log, grant, r1, reader);
    let n = p1.events@.len() as int;
    let c = s1[n - 1].cursor;
    lemma_decimal_roundtrip(c as nat);
    assert(cursor_bound(r2.cursor@) == c);
    lemma_answering_from(log, log, grant, r1, reader, n - 1);
    assert(increasing(log));
    lemma_answering_increasing(log, log, grant, r1, reader);
    lemma_answering_after(log, log, grant, r1, r2, reader, c);
    lemma_after_last(s1, n);
}

/// Replacing an effect by one with the same operation identifier keeps the first
/// effect under every identifier where it was.
proof fn lemma_first_effect_update(es: Seq<EffectEntry>, i: int, x: EffectEntry, id: Seq<char>)
    requires
        0 <= i < es.len(),
        x.id@ == es[i].id@,
    ensures
        first_effect(es.update(i, x), id) == first_effect(es, id),
    decreases es.len(),
{
    let u = es.update(i, x);
    if i > 0 {
        assert(u[0] == es[0]);
        assert(u.drop_first() =~= es.drop_first().update(i - 1, x));
        lemma_first_effect_update(es.drop_first(), i - 1, x, id);
    } else {
        assert(u.drop_first() =~= es.drop_first());
    }
}

/// The operation identifier found first stands at an index of the effects.
proof fn lemma_first_effect_in_range(es: Seq<EffectEntry>, id: Seq<char>)
    ensures
        first_effect(es, id) matches Some(i) ==> 0 <= i < es.len() && es[i].id@ == id,
    decreases es.len(),
{
    if es.len() > 0 && es[0].id@ != id {
        lemma_first_effect_in_range(es.drop_first(), id);
    }
}

/// Finalizing an effect twice finalizes it once: the second time is answered and
/// changes nothing.
pub proof fn law_finalize_once(s0: Store, s1: Store, s2: Store, operation: Seq<char>, policy: Seq<u8>,
    intervention: Option<Seq<char>>, host: HostReport, t1: nat, t2: nat, r2: Result<()>)
    requires
        s0.wf(),
        Store::finalize_post(s0, s1, operation, policy, intervention, host, t1, Ok(())),
        Store::finalize_post(s1, s2, operation, policy, intervention, host, t2, r2),
    ensures
        r2 is Ok,
        Store::same(s2, s1),
{
    lemma_first_effect_in_range(s0.effects@, operation);
    let i = first_effect(s0.effects@, operation)->0;
    let e = s0.effects@[i];
    if e.phase != EffectPhase::Finalized {
        let n = s1.effects@[i];
        assert(s1.effects@ =~= s0.effects@.update(i, n));
        lemma_first_effect_update(s0.effects@, i, n, operation);
    }
}

} // verus!
