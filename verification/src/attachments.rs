//! External executions attached to a grant: the host's routing policy, the attachment
//! lifecycle, and the cooperative writer handoff.

use vstd::prelude::*;
use crate::contracts::{
    Action, ActionKind, ActionReceipt, Attachment, AttachmentCapability, AttachmentFeedback,
    AttachmentStatus, AttachmentUsage,
    AttachmentOpen, AttachmentOpenStart, AttachmentRelease, AttachmentSourceStatus, AttachmentState,
    FeedbackAcknowledgement, Grant, Scope,
    FeedbackAcknowledgementOutcome, FeedbackRequest, FeedbackState,
    RepairHandoff, RepairHandoffState, WorkItem, WorkItemStatus,
};
use crate::accounting::new_id;
use crate::clock::now_ms;
use crate::effects::Runtime;
use crate::decimal::{counter, decimal_repr, decimal_string, decimal_value, is_counter};
use crate::error::{Error, Result, CONFLICT, DENIED, EXHAUSTED, INTERNAL, INVALID, MISSING};
use crate::host::HostReport;
use crate::parking::{is_listed, is_terminal, listed, terminal};
use crate::text::{insert_ordered, ordered_texts};
use crate::store::{budget_valid, deadline_of, PermitEntry, PermitState, RunStatus, Store, WorkEntry};

verus! {

/// Trusted host configuration for attachments, never supplied through a model tool.
#[derive(Debug)]
pub struct AttachmentPolicy {
    pub event_kinds: Vec<String>,
    pub batch_size: u32,
    pub max_delay_ms: u32,
    pub max_backlog: u32,
    pub feedback_ttl_ms: u32,
    pub allow_steering: bool,
    pub allow_coordinated_writes: bool,
}

/// The event kind prefix reserved for the host's own feedback.
pub open spec fn reserved_prefix() -> Seq<char> {
    seq!['r', 'i', 'b', 'o', 's', 'o', 'm', 'e', '.']
}

/// The event kind is one the host reserves for itself.
pub open spec fn is_reserved_kind(k: Seq<char>) -> bool {
    k.len() >= reserved_prefix().len() && k.subrange(0, reserved_prefix().len() as int) == reserved_prefix()
}

/// The length in bytes of a text's UTF-8 encoding, as `str::len` reports it.
pub open spec fn byte_len(k: Seq<char>) -> usize {
    #[verifier::truncate] (vstd::utf8::encode_utf8(k).len() as usize)
}

/// An event kind a policy may route: not reserved, and at most 200 bytes long.
pub open spec fn kind_acceptable(k: &String) -> bool {
    !is_reserved_kind(k@) && byte_len(k@) <= 200
}

/// The routing and capacity limits of a policy are in range.
pub open spec fn policy_valid(p: AttachmentPolicy) -> bool {
    &&& 1 <= p.event_kinds@.len() <= 100
    &&& forall|i: int| 0 <= i < p.event_kinds@.len() ==> kind_acceptable(&#[trigger] p.event_kinds@[i])
    &&& 1 <= p.batch_size <= 100
    &&& 1 <= p.max_delay_ms <= 300000
    &&& 100 <= p.max_backlog <= 10000
    &&& 1 <= p.feedback_ttl_ms <= 300000
}

/// The capabilities a policy offers: observation always, then steering and coordinated
/// writes where allowed, in that order.
pub open spec fn offered(allow_steering: bool, allow_coordinated_writes: bool) -> Seq<AttachmentCapability> {
    let base = seq![AttachmentCapability::Observe];
    let steer = if allow_steering { base.push(AttachmentCapability::Steer) } else { base };
    if allow_coordinated_writes { steer.push(AttachmentCapability::CoordinatedWrite) } else { steer }
}

fn starts_reserved(k: &String) -> (r: bool)
    ensures
        r == is_reserved_kind(k@),
{
    let prefix = "ribosome.";
    proof {
        reveal_strlit("ribosome.");
        assert(prefix@ == reserved_prefix());
    }
    let n = prefix.unicode_len();
    if k.as_str().unicode_len() < n {
        return false;
    }
    let mut i: usize = 0;
    while i < n
        invariant
            n == reserved_prefix().len(),
            prefix@ == reserved_prefix(),
            k@.len() >= n,
            0 <= i <= n,
            forall|j: int| 0 <= j < i ==> k@[j] == reserved_prefix()[j],
        decreases n - i,
    {
        if k.as_str().get_char(i) != prefix.get_char(i) {
            assert(k@.subrange(0, n as int)[i as int] != reserved_prefix()[i as int]);
            return false;
        }
        i = i + 1;
    }
    assert(k@.subrange(0, n as int) =~= reserved_prefix());
    true
}

impl Default for AttachmentPolicy {
    fn default() -> (r: Self)
        ensures
            r.event_kinds@.len() == 4,
            r.event_kinds@[0]@ == "tool.completed"@,
            r.event_kinds@[1]@ == "artifact.changed"@,
            r.event_kinds@[2]@ == "execution.completed"@,
            r.event_kinds@[3]@ == "execution.failed"@,
            r.batch_size == 8,
            r.max_delay_ms == 200,
            r.max_backlog == 1000,
            r.feedback_ttl_ms == 300000,
            !r.allow_steering,
            !r.allow_coordinated_writes,
    {
        AttachmentPolicy {
            event_kinds: vec![
                "tool.completed".to_owned(),
                "artifact.changed".to_owned(),
                "execution.completed".to_owned(),
                "execution.failed".to_owned(),
            ],
            batch_size: 8,
            max_delay_ms: 200,
            max_backlog: 1000,
            feedback_ttl_ms: 300000,
            allow_steering: false,
            allow_coordinated_writes: false,
        }
    }
}

impl AttachmentPolicy {
    /// Accepts a policy whose routing and capacity limits are in range.
    pub fn validate(&self) -> (r: Result<()>)
        ensures
            policy_valid(*self) ==> r is Ok,
            !policy_valid(*self) ==> (r matches Err(e) && e.code == INVALID),
    {
        let kinds = &self.event_kinds;
        let mut bad = kinds.len() == 0 || kinds.len() > 100;
        let mut i: usize = 0;
        while i < kinds.len()
            invariant
                0 <= i <= kinds@.len(),
                kinds@ == self.event_kinds@,
                bad == (kinds@.len() == 0 || kinds@.len() > 100
                    || exists|j: int| 0 <= j < i && !kind_acceptable(&#[trigger] kinds@[j])),
            decreases kinds@.len() - i,
        {
            let reserved = starts_reserved(&kinds[i]);
            let long = kinds[i].as_str().len() > 200;
            if reserved || long {
                bad = true;
            }
            i = i + 1;
        }
        if bad || self.batch_size < 1 || self.batch_size > 100 || self.max_delay_ms < 1
            || self.max_delay_ms > 300000 || self.max_backlog < 100 || self.max_backlog > 10000
            || self.feedback_ttl_ms < 1 || self.feedback_ttl_ms > 300000 {
            return Err(Error::invalid("invalid attachment routing or capacity limits"));
        }
        Ok(())
    }

    /// The capabilities the host offers to connectors under this policy.
    pub fn capabilities(&self) -> (r: Vec<AttachmentCapability>)
        ensures
            r@ == offered(self.allow_steering, self.allow_coordinated_writes),
    {
        let mut result = vec![AttachmentCapability::Observe];
        if self.allow_steering {
            result.push(AttachmentCapability::Steer);
        }
        if self.allow_coordinated_writes {
            result.push(AttachmentCapability::CoordinatedWrite);
        }
        result
    }
}


/// The text an interruption records: the reason's first 2000 characters.
pub open spec fn truncated_reason(reason: Seq<char>) -> Seq<char> {
    if reason.len() <= 2000 { reason } else { reason.subrange(0, 2000) }
}

/// A held writer handoff becomes uncertain when its attachment is interrupted.
pub open spec fn unsettled_handoff(h: Option<RepairHandoff>) -> Option<RepairHandoff> {
    match h {
        Some(x) => if x.state == RepairHandoffState::Held {
            Some(RepairHandoff { state: RepairHandoffState::Unknown, ..x })
        } else {
            Some(x)
        },
        None => None,
    }
}

pub open spec fn covers(coverage: Seq<String>, note: Seq<char>) -> bool {
    exists|k: int| 0 <= k < coverage.len() && (#[trigger] coverage[k])@ == note
}

impl Store {
    pub open spec fn has_attachment(self, id: Seq<char>) -> bool {
        exists|i: int| 0 <= i < self.attachments@.len() && #[trigger] self.attachments@[i].id@ == id
    }

    pub open spec fn attachment_index(self, id: Seq<char>) -> int {
        choose|i: int| 0 <= i < self.attachments@.len() && #[trigger] self.attachments@[i].id@ == id
    }

    pub open spec fn attachment_at(self, id: Seq<char>) -> Attachment {
        self.attachments@[self.attachment_index(id)]
    }

    /// The ledger `new` is `old` with the attachment `id` replaced by `a`.
    pub open spec fn attachment_set(old: Store, new: Store, id: Seq<char>, a: Attachment) -> bool {
        &&& new.attachments@ == old.attachments@.update(old.attachment_index(id), a)
        &&& new.grants@ == old.grants@
        &&& new.runs@ == old.runs@
        &&& new.allocations@ == old.allocations@
        &&& new.run_allocations@ == old.run_allocations@
        &&& new.permits@ == old.permits@
        &&& new.effects@ == old.effects@
        &&& new.work@ == old.work@
        &&& new.compactions@ == old.compactions@
        &&& new.attachment_work@ == old.attachment_work@
        &&& new.feedback@ == old.feedback@
        &&& new.waits@ == old.waits@
        &&& new.contexts == old.contexts && new.validity == old.validity && new.corpora@ == old.corpora@ && new.archive == old.archive
        &&& new.messages == old.messages
        &&& new.events@ == old.events@
    }

    fn find_attachment(&self, id: &String) -> (r: Option<usize>)
        requires
            self.wf(),
        ensures
            match r {
                Some(i) => self.has_attachment(id@) && i as int == self.attachment_index(id@),
                None => !self.has_attachment(id@),
            },
    {
        let mut i: usize = 0;
        while i < self.attachments.len()
            invariant
                self.wf(),
                0 <= i <= self.attachments@.len(),
                forall|k: int| 0 <= k < i ==> (#[trigger] self.attachments@[k]).id@ != id@,
            decreases self.attachments@.len() - i,
        {
            if self.attachments[i].id == *id {
                proof {
                    assert(self.attachments@[i as int].id@ == id@);
                    let c = self.attachment_index(id@);
                    if c != i && c > i {
                        assert(self.attachments@[i as int].id@ != self.attachments@[c].id@);
                    }
                }
                return Some(i);
            }
            i = i + 1;
        }
        None
    }

    /// A stored attachment.
    pub fn attachment(&self, id: &String) -> (r: Result<&Attachment>)
        requires
            self.wf(),
        ensures
            self.has_attachment(id@) ==> (r matches Ok(a) && *a == self.attachment_at(id@)),
            !self.has_attachment(id@) ==> (r matches Err(e) && e.code == MISSING),
    {
        match self.find_attachment(id) {
            Some(i) => Ok(&self.attachments[i]),
            None => Err(Error::missing("attachment not found")),
        }
    }

    /// The attachment after an interruption recording `note` at time `now`.
    pub open spec fn interrupted_with(old: Attachment, new: Attachment, note: Seq<char>, now: u64) -> bool {
        &&& new == Attachment {
            state: AttachmentState::Interrupted,
            source_status: if old.source_status == AttachmentSourceStatus::Running {
                AttachmentSourceStatus::Unknown
            } else {
                old.source_status
            },
            last_error: new.last_error,
            coverage: new.coverage,
            updated_ms: new.updated_ms,
            handoff: unsettled_handoff(old.handoff),
            ..old
        }
        &&& new.last_error@ == note
        &&& new.coverage@ == (if old.coverage@.len() < 20 && !covers(old.coverage@, note) {
            old.coverage@.push(new.last_error)
        } else {
            old.coverage@
        })
        &&& new.updated_ms@ == decimal_repr(now as nat)
    }

    /// The attachment after an interruption with `reason` at time `now`: the reason's
    /// first 2000 characters are recorded.
    pub open spec fn interrupted(old: Attachment, new: Attachment, reason: Seq<char>, now: u64) -> bool {
        Store::interrupted_with(old, new, truncated_reason(reason), now)
    }

    /// Interrupts an attachment at time `now_ms`, recording why; a detached or
    /// completed attachment stays as it is.
    pub fn interrupt_attachment_at(&mut self, id: &String, reason: &String, now_ms: u64) -> (r: Result<()>)
        requires
            old(self).wf(),
        ensures
            final(self).wf(),
            !old(self).has_attachment(id@) ==> (r matches Err(e) && e.code == MISSING
                && Store::same(*final(self), *old(self))),
            old(self).has_attachment(id@) ==> r is Ok && {
                let a = old(self).attachment_at(id@);
                if a.state == AttachmentState::Detached || a.state == AttachmentState::Completed {
                    Store::same(*final(self), *old(self))
                } else {
                    let n = final(self).attachments@[old(self).attachment_index(id@)];
                    &&& Store::attachment_set(*old(self), *final(self), id@, n)
                    &&& Store::interrupted(a, n, reason@, now_ms)
                }
            },
    {
        let i = match self.find_attachment(id) {
            Some(i) => i,
            None => return Err(Error::missing("attachment not found")),
        };
        if matches!(self.attachments[i].state, AttachmentState::Detached | AttachmentState::Completed) {
            return Ok(());
        }
        let note = truncate_reason(reason);
        self.interrupt_row(i, &note, now_ms);
        Ok(())
    }
}


/// The first 2000 characters of a reason.
fn truncate_reason(reason: &String) -> (r: String)
    ensures
        r@ == truncated_reason(reason@),
{
    let len = reason.as_str().unicode_len();
    let cut: usize = if len <= 2000 { len } else { 2000 };
    let note: String = reason.as_str().substring_char(0, cut).to_owned();
    assert(note@ == truncated_reason(reason@)) by {
        if len <= 2000 {
            assert(reason@.subrange(0, len as int) =~= reason@);
        }
    }
    note
}

impl Store {
    /// Interrupts the attachment in row `i`, recording `note` at time `now_ms`.
    fn interrupt_row(&mut self, i: usize, note: &String, now_ms: u64)
        requires
            old(self).wf(),
            i < old(self).attachments@.len(),
        ensures
            final(self).wf(),
            final(self).attachments@ == old(self).attachments@.update(i as int, final(self).attachments@[i as int]),
            Store::interrupted_with(old(self).attachments@[i as int], final(self).attachments@[i as int], note@, now_ms),
            final(self).grants == old(self).grants,
            final(self).runs == old(self).runs,
            final(self).allocations == old(self).allocations,
            final(self).run_allocations == old(self).run_allocations,
            final(self).permits == old(self).permits,
            final(self).effects == old(self).effects,
            final(self).work == old(self).work,
            final(self).compactions == old(self).compactions,
            final(self).attachment_work == old(self).attachment_work,
            final(self).feedback == old(self).feedback,
            final(self).waits == old(self).waits,
            final(self).contexts == old(self).contexts && final(self).validity == old(self).validity && final(self).corpora@ == old(self).corpora@ && final(self).archive == old(self).archive,
            final(self).messages == old(self).messages,
            final(self).events@ == old(self).events@,
    {
        let ghost old_store = *self;
        let mut seen = false;
        let mut k: usize = 0;
        while k < self.attachments[i].coverage.len()
            invariant
                *self == old_store,
                i < self.attachments@.len(),
                0 <= k <= self.attachments@[i as int].coverage@.len(),
                seen == exists|q: int| 0 <= q < k && (#[trigger] self.attachments@[i as int].coverage@[q])@ == note@,
            decreases self.attachments@[i as int].coverage@.len() - k,
        {
            if self.attachments[i].coverage[k] == *note {
                seen = true;
            }
            k = k + 1;
        }
        let room = self.attachments[i].coverage.len() < 20;
        self.attachments[i].state = AttachmentState::Interrupted;
        if self.attachments[i].source_status == AttachmentSourceStatus::Running {
            self.attachments[i].source_status = AttachmentSourceStatus::Unknown;
        }
        if room && !seen {
            self.attachments[i].coverage.push(note.clone());
        }
        self.attachments[i].last_error = note.clone();
        self.attachments[i].updated_ms = decimal_string(now_ms);
        let held = match &self.attachments[i].handoff {
            Some(h) => h.state == RepairHandoffState::Held,
            None => false,
        };
        if held {
            let h = self.attachments[i].handoff.take();
            match h {
                Some(mut h) => {
                    h.state = RepairHandoffState::Unknown;
                    self.attachments[i].handoff = Some(h);
                },
                None => {},
            }
        }
        proof {
            let n = self.attachments@[i as int];
            assert(self.attachments@ =~= old_store.attachments@.update(i as int, n));
            lemma_wf_attachment_update(old_store, *self, i as int);
        }
    }
}

/// Replacing an attachment by one with the same identifier keeps the ledger well formed.
proof fn lemma_wf_attachment_update(old: Store, new: Store, i: int)
    requires
        old.wf(),
        0 <= i < old.attachments@.len(),
        new.attachments@ == old.attachments@.update(i, new.attachments@[i]),
        new.attachments@[i].id == old.attachments@[i].id,
        new.grants == old.grants,
        new.runs == old.runs,
        new.allocations == old.allocations,
        new.run_allocations == old.run_allocations,
        new.permits == old.permits,
        new.compactions == old.compactions,
        new.waits == old.waits,
        new.contexts == old.contexts && new.validity == old.validity && new.corpora@ == old.corpora@ && new.archive == old.archive,
        new.messages == old.messages,
        new.events@ == old.events@,
        new.work == old.work,
        new.attachment_work == old.attachment_work,
        new.feedback == old.feedback,
    ensures
        new.wf(),
{
    assert forall|p: int, q: int|
        0 <= p < q < new.attachments@.len() implies #[trigger] new.attachments@[p].id@
            != #[trigger] new.attachments@[q].id@ by {
        assert(old.attachments@[p].id@ != old.attachments@[q].id@);
    }
}


impl Store {
    /// Why an attachment may not act at time `now`, if it may not: it must be stored,
    /// active, and its grant must not have expired.
    pub open spec fn activity_failure(self, id: Seq<char>, now: nat) -> Option<i32> {
        if !self.has_attachment(id) {
            Some(MISSING)
        } else if !self.has_grant(self.attachment_at(id).grant_id@) {
            Some(MISSING)
        } else if self.attachment_at(id).state != AttachmentState::Active {
            Some(DENIED)
        } else if now >= deadline_of(self.grant_at(self.attachment_at(id).grant_id@).budget) {
            Some(EXHAUSTED)
        } else {
            None
        }
    }

    /// The row of an attachment that may act at time `now_ms`.
    fn active_attachment(&self, id: &String, now_ms: u64) -> (r: Result<usize>)
        requires
            self.wf(),
        ensures
            match self.activity_failure(id@, now_ms as nat) {
                Some(code) => r matches Err(e) && e.code == code,
                None => r matches Ok(i) && i as int == self.attachment_index(id@),
            },
    {
        let i = match self.find_attachment(id) {
            Some(i) => i,
            None => return Err(Error::missing("attachment not found")),
        };
        let g = self.grant(&self.attachments[i].grant_id)?;
        if self.attachments[i].state != AttachmentState::Active {
            return Err(Error::denied("attachment is not active"));
        }
        proof {
            let j = choose|j: int| 0 <= j < self.grants@.len() && #[trigger] self.grants@[j].id@ == g.id@;
            assert(budget_valid(self.grants@[j].budget));
        }
        let deadline = counter(g.budget.deadline_ms.as_str())?;
        if now_ms >= deadline {
            return Err(Error::exhausted("attachment grant expired"));
        }
        Ok(i)
    }

    /// Records at time `now_ms` that an active attachment's source finished.
    pub fn complete_attachment_source_at(&mut self, id: &String, now_ms: u64) -> (r: Result<()>)
        requires
            old(self).wf(),
        ensures
            final(self).wf(),
            match old(self).activity_failure(id@, now_ms as nat) {
                Some(code) => r matches Err(e) && e.code == code && Store::same(*final(self), *old(self)),
                None => r is Ok && {
                    let a = old(self).attachment_at(id@);
                    let n = final(self).attachments@[old(self).attachment_index(id@)];
                    &&& Store::attachment_set(*old(self), *final(self), id@, n)
                    &&& n == Attachment {
                        source_status: if a.source_status == AttachmentSourceStatus::Running
                            || a.source_status == AttachmentSourceStatus::Unknown {
                            AttachmentSourceStatus::Completed
                        } else {
                            a.source_status
                        },
                        updated_ms: n.updated_ms,
                        ..a
                    }
                    &&& n.updated_ms@ == decimal_repr(now_ms as nat)
                },
            },
    {
        let i = self.active_attachment(id, now_ms)?;
        let ghost old_store = *self;
        if matches!(self.attachments[i].source_status, AttachmentSourceStatus::Running | AttachmentSourceStatus::Unknown) {
            self.attachments[i].source_status = AttachmentSourceStatus::Completed;
        }
        self.attachments[i].updated_ms = decimal_string(now_ms);
        proof {
            assert(self.attachments@ =~= old_store.attachments@.update(i as int, self.attachments@[i as int]));
            lemma_wf_attachment_update(old_store, *self, i as int);
        }
        Ok(())
    }

    /// The attachment owns the work item.
    pub open spec fn owns_work(self, attachment: Seq<char>, work: Seq<char>) -> bool {
        exists|k: int|
            0 <= k < self.attachment_work@.len() && #[trigger] self.attachment_work@[k].work_id@ == work
                && self.attachment_work@[k].attachment_id@ == attachment
    }

    /// Work of the attachment is queued, interrupted or running.
    pub open spec fn has_open_work(self, attachment: Seq<char>) -> bool {
        exists|j: int|
            0 <= j < self.work@.len() && self.owns_work(attachment, (#[trigger] self.work@[j]).item.id@)
                && !is_terminal(self.work@[j].item.status)
    }

    /// Feedback of the attachment awaits delivery or acknowledgement.
    pub open spec fn has_pending_feedback(self, attachment: Seq<char>) -> bool {
        exists|f: int|
            0 <= f < self.feedback@.len() && (#[trigger] self.feedback@[f]).attachment_id@ == attachment
                && (self.feedback@[f].state == FeedbackState::Pending || self.feedback@[f].state == FeedbackState::Delivered)
    }

    fn owns_work_exec(&self, attachment: &String, work: &String) -> (r: bool)
        ensures
            r == self.owns_work(attachment@, work@),
    {
        let mut k: usize = 0;
        while k < self.attachment_work.len()
            invariant
                0 <= k <= self.attachment_work@.len(),
                forall|q: int| 0 <= q < k ==> !(#[trigger] self.attachment_work@[q].work_id@ == work@
                    && self.attachment_work@[q].attachment_id@ == attachment@),
            decreases self.attachment_work@.len() - k,
        {
            if self.attachment_work[k].work_id == *work && self.attachment_work[k].attachment_id == *attachment {
                return true;
            }
            k = k + 1;
        }
        false
    }

    fn open_work_exec(&self, attachment: &String) -> (r: bool)
        ensures
            r == self.has_open_work(attachment@),
    {
        let mut j: usize = 0;
        while j < self.work.len()
            invariant
                0 <= j <= self.work@.len(),
                forall|q: int| 0 <= q < j ==> !(self.owns_work(attachment@, (#[trigger] self.work@[q]).item.id@)
                    && !is_terminal(self.work@[q].item.status)),
            decreases self.work@.len() - j,
        {
            if !terminal(&self.work[j].item.status) && self.owns_work_exec(attachment, &self.work[j].item.id) {
                return true;
            }
            j = j + 1;
        }
        false
    }

    fn pending_feedback_exec(&self, attachment: &String) -> (r: bool)
        ensures
            r == self.has_pending_feedback(attachment@),
    {
        let mut f: usize = 0;
        while f < self.feedback.len()
            invariant
                0 <= f <= self.feedback@.len(),
                forall|q: int| 0 <= q < f ==> !((#[trigger] self.feedback@[q]).attachment_id@ == attachment@
                    && (self.feedback@[q].state == FeedbackState::Pending || self.feedback@[q].state == FeedbackState::Delivered)),
            decreases self.feedback@.len() - f,
        {
            let fb = &self.feedback[f];
            if fb.attachment_id == *attachment && (fb.state == FeedbackState::Pending || fb.state == FeedbackState::Delivered) {
                return true;
            }
            f = f + 1;
        }
        false
    }

    /// Why an attachment cannot detach, if it cannot.
    pub open spec fn detach_failure(self, id: Seq<char>) -> Option<i32> {
        if !self.has_attachment(id) {
            Some(MISSING)
        } else if self.attachment_at(id).handoff matches Some(h) && h.state != RepairHandoffState::Released {
            Some(CONFLICT)
        } else {
            None
        }
    }

    /// The outcome of detaching attachment `id` at time `now`: it completes when its
    /// source completed and nothing of it is pending, else it detaches; its work that
    /// has not started is cancelled.
    pub open spec fn detach_post(old: Store, new: Store, id: Seq<char>, now: u64, r: Result<()>) -> bool {
        match old.detach_failure(id) {
            Some(code) => r matches Err(e) && e.code == code && Store::same(new, old),
            None => r is Ok && {
                let a = old.attachment_at(id);
                let n = new.attachments@[old.attachment_index(id)];
                &&& new.attachments@ == old.attachments@.update(old.attachment_index(id), n)
                &&& n == Attachment {
                    state: if a.source_status == AttachmentSourceStatus::Completed && !old.has_open_work(id)
                        && !old.has_pending_feedback(id) {
                        AttachmentState::Completed
                    } else {
                        AttachmentState::Detached
                    },
                    updated_ms: n.updated_ms,
                    ..a
                }
                &&& n.updated_ms@ == decimal_repr(now as nat)
                &&& new.work@.len() == old.work@.len()
                &&& forall|j: int| 0 <= j < old.work@.len() ==> #[trigger] new.work@[j] == (
                    if old.owns_work(id, old.work@[j].item.id@) && (old.work@[j].item.status is Queued
                        || old.work@[j].item.status is Interrupted) {
                        WorkEntry {
                            item: WorkItem { status: WorkItemStatus::Cancelled, ..old.work@[j].item },
                            ..old.work@[j]
                        }
                    } else {
                        old.work@[j]
                    })
                &&& new.grants@ == old.grants@
                &&& new.runs@ == old.runs@
                &&& new.allocations@ == old.allocations@
                &&& new.run_allocations@ == old.run_allocations@
                &&& new.permits@ == old.permits@
                &&& new.effects@ == old.effects@
                &&& new.compactions@ == old.compactions@
                &&& new.attachment_work@ == old.attachment_work@
                &&& new.feedback@ == old.feedback@
                &&& new.waits@ == old.waits@
                &&& new.contexts == old.contexts && new.validity == old.validity && new.corpora@ == old.corpora@ && new.archive == old.archive
                &&& new.messages == old.messages
                &&& new.events@ == old.events@
            },
        }
    }

    /// Detaches an attachment at time `now_ms` once its writer handoff settled.
    pub fn detach_attachment_at(&mut self, id: &String, now_ms: u64) -> (r: Result<()>)
        requires
            old(self).wf(),
        ensures
            final(self).wf(),
            Store::detach_post(*old(self), *final(self), id@, now_ms, r),
    {
        let i = match self.find_attachment(id) {
            Some(i) => i,
            None => return Err(Error::missing("attachment not found")),
        };
        let unsettled = match &self.attachments[i].handoff {
            Some(h) => h.state != RepairHandoffState::Released,
            None => false,
        };
        if unsettled {
            return Err(Error::conflict("unsettled writer handoff; keep the external writer stopped"));
        }
        let open = self.open_work_exec(id);
        let pending = self.pending_feedback_exec(id);
        let ghost old_store = *self;
        let complete = self.attachments[i].source_status == AttachmentSourceStatus::Completed && !open && !pending;
        self.attachments[i].state = if complete { AttachmentState::Completed } else { AttachmentState::Detached };
        self.attachments[i].updated_ms = decimal_string(now_ms);
        proof {
            assert(self.attachments@ =~= old_store.attachments@.update(i as int, self.attachments@[i as int]));
            lemma_wf_attachment_update(old_store, *self, i as int);
        }
        let ghost mid = *self;
        let mut j: usize = 0;
        while j < self.work.len()
            invariant
                self.wf(),
                0 <= j <= self.work@.len(),
                self.work@.len() == old_store.work@.len(),
                self.attachments == mid.attachments,
                self.grants == old_store.grants,
                self.runs == old_store.runs,
                self.allocations == old_store.allocations,
                self.run_allocations == old_store.run_allocations,
                self.permits == old_store.permits,
                self.effects == old_store.effects,
                self.compactions == old_store.compactions,
                self.attachment_work == old_store.attachment_work,
                self.feedback == old_store.feedback,
                self.waits == old_store.waits,
                self.contexts == old_store.contexts && self.validity == old_store.validity && self.corpora@ == old_store.corpora@ && self.archive == old_store.archive,
                self.messages == old_store.messages,
                self.events@ == old_store.events@,
                forall|q: int| j <= q < self.work@.len() ==> self.work@[q] == old_store.work@[q],
                forall|q: int| 0 <= q < j ==> #[trigger] self.work@[q] == (
                    if old_store.owns_work(id@, old_store.work@[q].item.id@) && (old_store.work@[q].item.status is Queued
                        || old_store.work@[q].item.status is Interrupted) {
                        WorkEntry {
                            item: WorkItem { status: WorkItemStatus::Cancelled, ..old_store.work@[q].item },
                            ..old_store.work@[q]
                        }
                    } else {
                        old_store.work@[q]
                    }),
            decreases self.work@.len() - j,
        {
            let stoppable = matches!(self.work[j].item.status, WorkItemStatus::Queued | WorkItemStatus::Interrupted);
            if stoppable && self.owns_work_exec(id, &self.work[j].item.id) {
                let ghost before = *self;
                self.work[j].item.status = WorkItemStatus::Cancelled;
                proof {
                    assert(self.work@ =~= before.work@.update(j as int, self.work@[j as int]));
                    crate::parking::lemma_wf_work_status(before, *self, j as int);
                }
            }
            j = j + 1;
        }
        Ok(())
    }
}


impl Store {
    /// Interrupts an attachment now, recording why.
    pub fn interrupt_attachment(&mut self, id: &String, reason: &String) -> (r: Result<()>)
        requires
            old(self).wf(),
        ensures
            final(self).wf(),
            !old(self).has_attachment(id@) ==> (r matches Err(e) && e.code == MISSING
                && Store::same(*final(self), *old(self))),
            old(self).has_attachment(id@) ==> r is Ok && {
                let a = old(self).attachment_at(id@);
                if a.state == AttachmentState::Detached || a.state == AttachmentState::Completed {
                    Store::same(*final(self), *old(self))
                } else {
                    let n = final(self).attachments@[old(self).attachment_index(id@)];
                    &&& Store::attachment_set(*old(self), *final(self), id@, n)
                    &&& exists|now: u64| #[trigger] Store::interrupted(a, n, reason@, now)
                }
            },
    {
        let now = now_ms();
        let r = self.interrupt_attachment_at(id, reason, now);
        proof {
            if old(self).has_attachment(id@) {
                let a = old(self).attachment_at(id@);
                let n = self.attachments@[old(self).attachment_index(id@)];
                if !(a.state == AttachmentState::Detached || a.state == AttachmentState::Completed) {
                    assert(Store::interrupted(a, n, reason@, now));
                }
            }
        }
        r
    }

    /// Records now that an active attachment's source finished.
    pub fn complete_attachment_source(&mut self, id: &String) -> (r: Result<()>)
        requires
            old(self).wf(),
        ensures
            final(self).wf(),
            exists|now: u64| match #[trigger] old(self).activity_failure(id@, now as nat) {
                Some(code) => r matches Err(e) && e.code == code && Store::same(*final(self), *old(self)),
                None => r is Ok && {
                    let a = old(self).attachment_at(id@);
                    let n = final(self).attachments@[old(self).attachment_index(id@)];
                    &&& Store::attachment_set(*old(self), *final(self), id@, n)
                    &&& n == Attachment {
                        source_status: if a.source_status == AttachmentSourceStatus::Running
                            || a.source_status == AttachmentSourceStatus::Unknown {
                            AttachmentSourceStatus::Completed
                        } else {
                            a.source_status
                        },
                        updated_ms: n.updated_ms,
                        ..a
                    }
                    &&& n.updated_ms@ == decimal_repr(now as nat)
                },
            },
    {
        let now = now_ms();
        self.complete_attachment_source_at(id, now)
    }

    /// Detaches an attachment now once its writer handoff settled.
    pub fn detach_attachment(&mut self, id: &String) -> (r: Result<()>)
        requires
            old(self).wf(),
        ensures
            final(self).wf(),
            exists|now: u64| #[trigger] Store::detach_post(*old(self), *final(self), id@, now, r),
    {
        let now = now_ms();
        self.detach_attachment_at(id, now)
    }

    /// Some attachment of grant `grant` has identifier `id`.
    pub open spec fn grant_attachment(self, grant: Seq<char>, id: Seq<char>) -> bool {
        exists|k: int|
            0 <= k < self.attachments@.len() && #[trigger] self.attachments@[k].id@ == id
                && self.attachments@[k].grant_id@ == grant
    }

    /// The outcome of recovering a grant's attachments at time `now` after the host
    /// connection was lost: every live attachment of the grant is interrupted with
    /// `reason`, and feedback that was delivered to them is offered again.
    pub open spec fn recovered(old: Store, new: Store, grant: Seq<char>, reason: Seq<char>, now: u64) -> bool {
        &&& new.attachments@.len() == old.attachments@.len()
        &&& forall|k: int| 0 <= k < old.attachments@.len() ==> {
            let a = #[trigger] old.attachments@[k];
            if a.grant_id@ == grant && !(a.state == AttachmentState::Detached || a.state == AttachmentState::Completed) {
                Store::interrupted(a, new.attachments@[k], reason, now)
            } else {
                new.attachments@[k] == a
            }
        }
        &&& new.feedback@.len() == old.feedback@.len()
        &&& forall|f: int| 0 <= f < old.feedback@.len() ==> #[trigger] new.feedback@[f] == (
            if old.feedback@[f].state == FeedbackState::Delivered && old.grant_attachment(grant, old.feedback@[f].attachment_id@) {
                AttachmentFeedback { state: FeedbackState::Pending, ..old.feedback@[f] }
            } else {
                old.feedback@[f]
            })
        &&& new.grants@ == old.grants@
        &&& new.runs@ == old.runs@
        &&& new.allocations@ == old.allocations@
        &&& new.run_allocations@ == old.run_allocations@
        &&& new.permits@ == old.permits@
        &&& new.effects@ == old.effects@
        &&& new.work@ == old.work@
        &&& new.compactions@ == old.compactions@
        &&& new.attachment_work@ == old.attachment_work@
        &&& new.waits@ == old.waits@
        &&& new.contexts == old.contexts && new.validity == old.validity && new.corpora@ == old.corpora@ && new.archive == old.archive
        &&& new.messages == old.messages
        &&& new.events@ == old.events@
    }

    /// Interrupts a grant's attachments at time `now_ms` after the host connection was
    /// lost, and offers their delivered feedback again.
    pub fn recover_attachment_deliveries_at(&mut self, grant_id: &String, now_ms: u64)
        requires
            old(self).wf(),
        ensures
            final(self).wf(),
            Store::recovered(*old(self), *final(self), grant_id@,
                "Host connection lost; reconnect and report any missing source observations."@, now_ms),
    {
        let reason = "Host connection lost; reconnect and report any missing source observations.".to_owned();
        let note = truncate_reason(&reason);
        let ghost old_store = *self;
        let mut k: usize = 0;
        while k < self.attachments.len()
            invariant
                self.wf(),
                note@ == truncated_reason(reason@),
                reason@ == "Host connection lost; reconnect and report any missing source observations."@,
                0 <= k <= self.attachments@.len(),
                self.attachments@.len() == old_store.attachments@.len(),
                self.grants == old_store.grants,
                self.runs == old_store.runs,
                self.allocations == old_store.allocations,
                self.run_allocations == old_store.run_allocations,
                self.permits == old_store.permits,
                self.effects == old_store.effects,
                self.work == old_store.work,
                self.compactions == old_store.compactions,
                self.attachment_work == old_store.attachment_work,
                self.feedback == old_store.feedback,
                self.waits == old_store.waits,
                self.contexts == old_store.contexts && self.validity == old_store.validity && self.corpora@ == old_store.corpora@ && self.archive == old_store.archive,
                self.messages == old_store.messages,
                self.events@ == old_store.events@,
                forall|q: int| k <= q < self.attachments@.len() ==> self.attachments@[q] == old_store.attachments@[q],
                forall|q: int| 0 <= q < k ==> {
                    let a = #[trigger] old_store.attachments@[q];
                    if a.grant_id@ == grant_id@ && !(a.state == AttachmentState::Detached || a.state == AttachmentState::Completed) {
                        Store::interrupted(a, self.attachments@[q], reason@, now_ms)
                    } else {
                        self.attachments@[q] == a
                    }
                },
            decreases self.attachments@.len() - k,
        {
            let live = !matches!(self.attachments[k].state, AttachmentState::Detached | AttachmentState::Completed);
            if live && self.attachments[k].grant_id == *grant_id {
                self.interrupt_row(k, &note, now_ms);
            }
            k = k + 1;
        }
        let ghost mid = *self;
        assert forall|id: Seq<char>| #[trigger] mid.grant_attachment(grant_id@, id) == old_store.grant_attachment(grant_id@, id) by {
            if mid.grant_attachment(grant_id@, id) {
                let q = choose|q: int| 0 <= q < mid.attachments@.len() && #[trigger] mid.attachments@[q].id@ == id
                    && mid.attachments@[q].grant_id@ == grant_id@;
                assert(old_store.attachments@[q].id@ == id);
            }
            if old_store.grant_attachment(grant_id@, id) {
                let q = choose|q: int| 0 <= q < old_store.attachments@.len() && #[trigger] old_store.attachments@[q].id@ == id
                    && old_store.attachments@[q].grant_id@ == grant_id@;
                assert(mid.attachments@[q].id@ == id);
            }
        }
        let mut f: usize = 0;
        while f < self.feedback.len()
            invariant
                self.wf(),
                0 <= f <= self.feedback@.len(),
                self.feedback@.len() == old_store.feedback@.len(),
                self.attachments == mid.attachments,
                forall|id: Seq<char>| #[trigger] mid.grant_attachment(grant_id@, id) == old_store.grant_attachment(grant_id@, id),
                self.grants == old_store.grants,
                self.runs == old_store.runs,
                self.allocations == old_store.allocations,
                self.run_allocations == old_store.run_allocations,
                self.permits == old_store.permits,
                self.effects == old_store.effects,
                self.work == old_store.work,
                self.compactions == old_store.compactions,
                self.attachment_work == old_store.attachment_work,
                self.waits == old_store.waits,
                self.contexts == old_store.contexts && self.validity == old_store.validity && self.corpora@ == old_store.corpora@ && self.archive == old_store.archive,
                self.messages == old_store.messages,
                self.events@ == old_store.events@,
                forall|q: int| f <= q < self.feedback@.len() ==> self.feedback@[q] == old_store.feedback@[q],
                forall|q: int| 0 <= q < f ==> #[trigger] self.feedback@[q] == (
                    if old_store.feedback@[q].state == FeedbackState::Delivered
                        && old_store.grant_attachment(grant_id@, old_store.feedback@[q].attachment_id@) {
                        AttachmentFeedback { state: FeedbackState::Pending, ..old_store.feedback@[q] }
                    } else {
                        old_store.feedback@[q]
                    }),
            decreases self.feedback@.len() - f,
        {
            proof {
                let id = self.feedback@[f as int].attachment_id@;
                assert(self.grant_attachment(grant_id@, id) == mid.grant_attachment(grant_id@, id));
            }
            if self.feedback[f].state == FeedbackState::Delivered
                && self.attachment_of_grant(grant_id, &self.feedback[f].attachment_id) {
                let ghost before = *self;
                self.feedback[f].state = FeedbackState::Pending;
                proof {
                    assert(self.feedback@ =~= before.feedback@.update(f as int, self.feedback@[f as int]));
                    lemma_wf_feedback_update(before, *self, f as int);
                }
            }
            f = f + 1;
        }
    }

    /// Interrupts a grant's attachments now after the host connection was lost.
    pub fn recover_attachment_deliveries(&mut self, grant_id: &String) -> (r: Result<()>)
        requires
            old(self).wf(),
        ensures
            final(self).wf(),
            r is Ok,
            exists|now: u64| #[trigger] Store::recovered(*old(self), *final(self), grant_id@,
                "Host connection lost; reconnect and report any missing source observations."@, now),
    {
        let now = now_ms();
        self.recover_attachment_deliveries_at(grant_id, now);
        Ok(())
    }

    fn attachment_of_grant(&self, grant: &String, id: &String) -> (r: bool)
        ensures
            r == self.grant_attachment(grant@, id@),
    {
        let mut k: usize = 0;
        while k < self.attachments.len()
            invariant
                0 <= k <= self.attachments@.len(),
                forall|q: int| 0 <= q < k ==> !(#[trigger] self.attachments@[q].id@ == id@
                    && self.attachments@[q].grant_id@ == grant@),
            decreases self.attachments@.len() - k,
        {
            if self.attachments[k].id == *id && self.attachments[k].grant_id == *grant {
                return true;
            }
            k = k + 1;
        }
        false
    }
}

/// Replacing a feedback row by one with the same identifier keeps the ledger well formed.
proof fn lemma_wf_feedback_update(old: Store, new: Store, f: int)
    requires
        old.wf(),
        0 <= f < old.feedback@.len(),
        new.feedback@ == old.feedback@.update(f, new.feedback@[f]),
        new.feedback@[f].id == old.feedback@[f].id,
        new.grants == old.grants,
        new.runs == old.runs,
        new.allocations == old.allocations,
        new.run_allocations == old.run_allocations,
        new.permits == old.permits,
        new.compactions == old.compactions,
        new.waits == old.waits,
        new.contexts == old.contexts && new.validity == old.validity && new.corpora@ == old.corpora@ && new.archive == old.archive,
        new.messages == old.messages,
        new.events@ == old.events@,
        new.work == old.work,
        new.attachments == old.attachments,
        new.attachment_work == old.attachment_work,
    ensures
        new.wf(),
{
    assert forall|p: int, q: int|
        0 <= p < q < new.feedback@.len() implies #[trigger] new.feedback@[p].id@ != #[trigger] new.feedback@[q].id@ by {
        assert(old.feedback@[p].id@ != old.feedback@[q].id@);
    }
}


/// A write that would change the live workspace: an apply, or an edit or execution
/// outside a branch.
pub open spec fn live_write(action: Action) -> bool {
    action.kind == ActionKind::Apply
        || (action.branch_id is None && (action.kind == ActionKind::Edit || action.kind == ActionKind::Execute))
}

/// The attachment holds a current cooperative writer handoff for run `run` at time `now`.
pub open spec fn write_handoff_held(a: Attachment, run: Seq<char>, now: nat) -> bool {
    &&& a.capabilities@.contains(AttachmentCapability::CoordinatedWrite)
    &&& a.handoff matches Some(h)
    &&& h.state == RepairHandoffState::Held
    &&& h.work_id@ == run
    &&& is_counter(h.deadline_ms@)
    &&& now < decimal_value(h.deadline_ms@)
}

fn has_capability(caps: &Vec<AttachmentCapability>, c: AttachmentCapability) -> (r: bool)
    ensures
        r == caps@.contains(c),
{
    let mut i: usize = 0;
    while i < caps.len()
        invariant
            0 <= i <= caps@.len(),
            forall|k: int| 0 <= k < i ==> caps@[k] != c,
        decreases caps@.len() - i,
    {
        if caps[i] == c {
            return true;
        }
        i = i + 1;
    }
    false
}

impl Store {
    /// The attachment that owns run `run` as its work, if one does.
    pub open spec fn run_attachment_id(self, run: Seq<char>) -> Option<Seq<char>> {
        if exists|k: int| 0 <= k < self.attachment_work@.len() && #[trigger] self.attachment_work@[k].work_id@ == run {
            Some(self.attachment_work@[choose|k: int|
                0 <= k < self.attachment_work@.len() && #[trigger] self.attachment_work@[k].work_id@ == run].attachment_id@)
        } else {
            None
        }
    }

    /// The row recording which attachment owns work `work`.
    fn find_work_owner(&self, work: &String) -> (r: Option<usize>)
        requires
            self.wf(),
        ensures
            match r {
                Some(k) => k < self.attachment_work@.len() && self.run_attachment_id(work@)
                    == Some(self.attachment_work@[k as int].attachment_id@),
                None => self.run_attachment_id(work@) is None,
            },
    {
        let mut k: usize = 0;
        while k < self.attachment_work.len()
            invariant
                self.wf(),
                0 <= k <= self.attachment_work@.len(),
                forall|q: int| 0 <= q < k ==> (#[trigger] self.attachment_work@[q]).work_id@ != work@,
            decreases self.attachment_work@.len() - k,
        {
            if self.attachment_work[k].work_id == *work {
                proof {
                    assert(self.attachment_work@[k as int].work_id@ == work@);
                    let c = choose|c: int| 0 <= c < self.attachment_work@.len()
                        && #[trigger] self.attachment_work@[c].work_id@ == work@;
                    if c != k && c > k {
                        assert(self.attachment_work@[k as int].work_id@ != self.attachment_work@[c].work_id@);
                    }
                }
                return Some(k);
            }
            k = k + 1;
        }
        None
    }

    /// Why run `run` may not perform `action` at time `now`, if it may not: a live
    /// write of attachment work needs a current cooperative writer handoff.
    pub open spec fn attachment_write_failure(self, run: Seq<char>, action: Action, now: nat) -> Option<i32> {
        if !live_write(action) {
            None
        } else {
            match self.run_attachment_id(run) {
                None => None,
                Some(id) => if !self.has_attachment(id) {
                    Some(MISSING)
                } else if write_handoff_held(self.attachment_at(id), run, now) {
                    None
                } else {
                    Some(DENIED)
                },
            }
        }
    }

    /// Admits a write by run `run` at time `now_ms` unless it is a live write of
    /// attachment work without a current writer handoff.
    pub fn require_attachment_write_at(&self, run_id: &String, action: &Action, now_ms: u64) -> (r: Result<()>)
        requires
            self.wf(),
        ensures
            match self.attachment_write_failure(run_id@, *action, now_ms as nat) {
                Some(code) => r matches Err(e) && e.code == code,
                None => r is Ok,
            },
    {
        let live = action.kind == ActionKind::Apply || (action.branch_id.is_none()
            && (action.kind == ActionKind::Edit || action.kind == ActionKind::Execute));
        if !live {
            return Ok(());
        }
        let owner = self.find_work_owner(run_id);
        let k = match owner {
            Some(k) => k,
            None => return Ok(()),
        };
        let a = self.attachment(&self.attachment_work[k].attachment_id)?;
        let coordinated = has_capability(&a.capabilities, AttachmentCapability::CoordinatedWrite);
        let held = match &a.handoff {
            Some(h) => h.state == RepairHandoffState::Held && h.work_id == *run_id && match counter(h.deadline_ms.as_str()) {
                Ok(t) => now_ms < t,
                Err(_) => false,
            },
            None => false,
        };
        if !coordinated || !held {
            return Err(Error::denied("live attachment writes require a current cooperative writer handoff"));
        }
        Ok(())
    }

    /// Admits a write by run `run` now unless it is a live write of attachment work
    /// without a current writer handoff.
    pub fn require_attachment_write(&self, run_id: &String, action: &Action) -> (r: Result<()>)
        requires
            self.wf(),
        ensures
            exists|now: nat| match #[trigger] self.attachment_write_failure(run_id@, *action, now) {
                Some(code) => r matches Err(e) && e.code == code,
                None => r is Ok,
            },
    {
        let now = now_ms();
        let r = self.require_attachment_write_at(run_id, action, now);
        assert(match self.attachment_write_failure(run_id@, *action, now as nat) {
            Some(code) => r matches Err(e) && e.code == code,
            None => r is Ok,
        });
        r
    }

    pub open spec fn has_feedback(self, attachment: Seq<char>, id: Seq<char>) -> bool {
        exists|f: int|
            0 <= f < self.feedback@.len() && #[trigger] self.feedback@[f].id@ == id
                && self.feedback@[f].attachment_id@ == attachment
    }

    pub open spec fn feedback_index(self, attachment: Seq<char>, id: Seq<char>) -> int {
        choose|f: int|
            0 <= f < self.feedback@.len() && #[trigger] self.feedback@[f].id@ == id
                && self.feedback@[f].attachment_id@ == attachment
    }

    /// The row of a feedback item of an attachment.
    fn find_feedback(&self, attachment: &String, id: &String) -> (r: Option<usize>)
        requires
            self.wf(),
        ensures
            match r {
                Some(f) => self.has_feedback(attachment@, id@) && f as int == self.feedback_index(attachment@, id@),
                None => !self.has_feedback(attachment@, id@),
            },
    {
        let mut f: usize = 0;
        while f < self.feedback.len()
            invariant
                self.wf(),
                0 <= f <= self.feedback@.len(),
                forall|q: int| 0 <= q < f ==> !(#[trigger] self.feedback@[q].id@ == id@
                    && self.feedback@[q].attachment_id@ == attachment@),
            decreases self.feedback@.len() - f,
        {
            if self.feedback[f].id == *id && self.feedback[f].attachment_id == *attachment {
                proof {
                    assert(self.feedback@[f as int].id@ == id@);
                    let c = self.feedback_index(attachment@, id@);
                    if c != f && c > f {
                        assert(self.feedback@[f as int].id@ != self.feedback@[c].id@);
                    }
                }
                return Some(f);
            }
            f = f + 1;
        }
        None
    }

    /// Records the host's acknowledgement of delivered feedback. Repeating the
    /// recorded outcome changes nothing.
    pub fn acknowledge_feedback(&mut self, request: &FeedbackAcknowledgement) -> (r: Result<()>)
        requires
            old(self).wf(),
        ensures
            final(self).wf(),
            !old(self).has_feedback(request.attachment_id@, request.feedback_id@) ==> (r matches Err(e)
                && e.code == MISSING && Store::same(*final(self), *old(self))),
            old(self).has_feedback(request.attachment_id@, request.feedback_id@) ==> {
                let i = old(self).feedback_index(request.attachment_id@, request.feedback_id@);
                let f = old(self).feedback@[i];
                let state = acknowledged_state(request.outcome);
                if f.state == state {
                    r is Ok && Store::same(*final(self), *old(self))
                } else if !(f.state == FeedbackState::Delivered || f.state == FeedbackState::Unknown) {
                    r matches Err(e) && e.code == CONFLICT && Store::same(*final(self), *old(self))
                } else {
                    r is Ok && final(self).feedback@ == old(self).feedback@.update(i,
                        AttachmentFeedback { state, detail: request.detail, ..f })
                        && Store::same_but_feedback(*final(self), *old(self))
                }
            },
    {
        let i = match self.find_feedback(&request.attachment_id, &request.feedback_id) {
            Some(i) => i,
            None => return Err(Error::missing("feedback not found in attachment")),
        };
        let state = match request.outcome {
            FeedbackAcknowledgementOutcome::Acknowledged => FeedbackState::Acknowledged,
            FeedbackAcknowledgementOutcome::Rejected => FeedbackState::Rejected,
            FeedbackAcknowledgementOutcome::Unknown => FeedbackState::Unknown,
        };
        if self.feedback[i].state == state {
            return Ok(());
        }
        if !matches!(self.feedback[i].state, FeedbackState::Delivered | FeedbackState::Unknown) {
            return Err(Error::conflict("feedback has not been delivered or is already terminal"));
        }
        let ghost before = *self;
        self.feedback[i].state = state;
        self.feedback[i].detail = request.detail.clone();
        proof {
            assert(self.feedback@ =~= before.feedback@.update(i as int, self.feedback@[i as int]));
            lemma_wf_feedback_update(before, *self, i as int);
        }
        Ok(())
    }
}

/// The feedback state an acknowledgement outcome records.
pub open spec fn acknowledged_state(o: FeedbackAcknowledgementOutcome) -> FeedbackState {
    match o {
        FeedbackAcknowledgementOutcome::Acknowledged => FeedbackState::Acknowledged,
        FeedbackAcknowledgementOutcome::Rejected => FeedbackState::Rejected,
        FeedbackAcknowledgementOutcome::Unknown => FeedbackState::Unknown,
    }
}


/// Some receipt still needs its owner's reconciliation.
pub open spec fn any_unreconciled(receipts: Seq<ActionReceipt>) -> bool {
    exists|i: int| 0 <= i < receipts.len() && (#[trigger] receipts[i]).needs_reconciliation()
}

fn unreconciled(receipts: &Vec<ActionReceipt>) -> (r: bool)
    ensures
        r == any_unreconciled(receipts@),
{
    let mut i: usize = 0;
    while i < receipts.len()
        invariant
            0 <= i <= receipts@.len(),
            forall|k: int| 0 <= k < i ==> !(#[trigger] receipts@[k]).needs_reconciliation(),
        decreases receipts@.len() - i,
    {
        if receipts[i].requires_reconciliation() {
            return true;
        }
        i = i + 1;
    }
    false
}

/// The text recorded when a control intent is persisted.
pub open spec fn steering_detail(intent: Seq<char>) -> Seq<char> {
    "Control intent "@ + intent + " persisted; external acceptance has not been acknowledged."@
}

impl Store {
    /// The run is recorded as running.
    pub open spec fn run_running(self, run: Seq<char>) -> bool {
        self.has_run(run) && self.run_at(run).status == RunStatus::Running
    }

    /// Why a writer handoff cannot be released, if it cannot, given the receipts that
    /// reconciling the repair run produced.
    pub open spec fn repair_release_failure(self, req: AttachmentRelease, receipts: Seq<ActionReceipt>) -> Option<i32> {
        if !self.has_attachment(req.attachment_id@) {
            Some(MISSING)
        } else {
            match self.attachment_at(req.attachment_id@).handoff {
                None => Some(MISSING),
                Some(h) => if h.generation@ != req.generation@ {
                    Some(CONFLICT)
                } else if h.state == RepairHandoffState::Released {
                    None
                } else if self.run_running(h.work_id@) {
                    Some(CONFLICT)
                } else if self.has_run(h.work_id@) && any_unreconciled(receipts) {
                    Some(CONFLICT)
                } else {
                    None
                },
            }
        }
    }

    /// The outcome of releasing a writer handoff at time `now`: its repair work stops
    /// and the handoff is released; releasing twice changes nothing.
    pub open spec fn repair_released(old: Store, new: Store, req: AttachmentRelease, receipts: Seq<ActionReceipt>, now: u64, r: Result<()>) -> bool {
        match old.repair_release_failure(req, receipts) {
            Some(code) => r matches Err(e) && e.code == code && Store::same(new, old),
            None => r is Ok && {
                let a = old.attachment_at(req.attachment_id@);
                let h = a.handoff->0;
                if h.state == RepairHandoffState::Released {
                    Store::same(new, old)
                } else {
                    let n = new.attachments@[old.attachment_index(req.attachment_id@)];
                    &&& new.attachments@ == old.attachments@.update(old.attachment_index(req.attachment_id@), n)
                    &&& n == Attachment {
                        handoff: Some(RepairHandoff { state: RepairHandoffState::Released, ..h }),
                        updated_ms: n.updated_ms,
                        ..a
                    }
                    &&& n.updated_ms@ == decimal_repr(now as nat)
                    &&& new.work@.len() == old.work@.len()
                    &&& forall|j: int| 0 <= j < old.work@.len() ==> #[trigger] new.work@[j] == (
                        if old.work@[j].item.id@ == h.work_id@ && !is_terminal(old.work@[j].item.status) {
                            WorkEntry {
                                item: WorkItem { status: WorkItemStatus::Cancelled, ..old.work@[j].item },
                                ..old.work@[j]
                            }
                        } else {
                            old.work@[j]
                        })
                    &&& new.grants@ == old.grants@
                    &&& new.runs@ == old.runs@
                    &&& new.allocations@ == old.allocations@
                    &&& new.run_allocations@ == old.run_allocations@
                    &&& new.permits@ == old.permits@
                    &&& new.effects@ == old.effects@
                    &&& new.compactions@ == old.compactions@
                    &&& new.attachment_work@ == old.attachment_work@
                    &&& new.feedback@ == old.feedback@
                    &&& new.waits@ == old.waits@
                    &&& new.contexts == old.contexts && new.validity == old.validity && new.corpora@ == old.corpora@ && new.archive == old.archive
                    &&& new.messages == old.messages
                    &&& new.events@ == old.events@
                }
            },
        }
    }

    /// Why steering with delivered feedback is refused at time `now`, if it is, with
    /// `records` the records the grant can read, `references` the evidence it can read
    /// and `host` what the workspace adapter reports: the feedback must be delivered and
    /// still valid as `feedback_validity` decides.
    pub open spec fn steering_failure(self, req: FeedbackRequest, records: Seq<String>, references: Seq<String>,
        host: HostReport, now: nat) -> Option<i32> {
        match self.activity_failure(req.attachment_id@, now) {
            Some(code) => Some(code),
            None => if !self.attachment_at(req.attachment_id@).capabilities@.contains(AttachmentCapability::Steer) {
                Some(DENIED)
            } else if !self.has_feedback(req.attachment_id@, req.feedback_id@) {
                Some(MISSING)
            } else if self.feedback@[self.feedback_index(req.attachment_id@, req.feedback_id@)].state
                != FeedbackState::Delivered {
                Some(CONFLICT)
            } else {
                match self.feedback_validity(self.feedback@[self.feedback_index(req.attachment_id@, req.feedback_id@)],
                    records, references, host, now) {
                    Err(code) => Some(code),
                    Ok(false) => Some(CONFLICT),
                    Ok(true) => None,
                }
            },
        }
    }

    /// The outcome of persisting a control intent `intent` for delivered feedback.
    pub open spec fn steering_post(old: Store, new: Store, req: FeedbackRequest, records: Seq<String>,
        references: Seq<String>, host: HostReport, intent: Seq<char>, now: nat, r: Result<()>) -> bool {
        match old.steering_failure(req, records, references, host, now) {
            Some(code) => r matches Err(e) && e.code == code && Store::same(new, old),
            None => r is Ok && {
                let i = old.feedback_index(req.attachment_id@, req.feedback_id@);
                let f = old.feedback@[i];
                let n = new.feedback@[i];
                &&& new.feedback@ == old.feedback@.update(i, n)
                &&& n == AttachmentFeedback { state: FeedbackState::Unknown, detail: n.detail, ..f }
                &&& n.detail@ == steering_detail(intent)
                &&& Store::same_but_feedback(new, old)
            },
        }
    }
}

impl Runtime {
    /// Releases a writer handoff at time `now_ms`, given the receipts that reconciling
    /// its repair run produced. Maintenance must have stopped, and no effect of a run
    /// that started may still need reconciliation.
    pub fn release_attachment_repair_at(&mut self, request: &AttachmentRelease, receipts: &Vec<ActionReceipt>, now_ms: u64) -> (r: Result<()>)
        requires
            old(self).store.wf(),
        ensures
            final(self).store.wf(),
            Store::repair_released(old(self).store, final(self).store, *request, receipts@, now_ms, r),
    {
        let store = &mut self.store;
        let i = match store.find_attachment(&request.attachment_id) {
            Some(i) => i,
            None => return Err(Error::missing("attachment not found")),
        };
        let (work_id, released) = match &store.attachments[i].handoff {
            None => return Err(Error::missing("attachment has no writer handoff")),
            Some(h) => {
                if h.generation != request.generation {
                    return Err(Error::conflict("stale writer handoff generation"));
                }
                (h.work_id.clone(), h.state == RepairHandoffState::Released)
            },
        };
        if released {
            return Ok(());
        }
        let started = match store.find_run(&work_id) {
            Some(k) => {
                if store.runs[k].status == RunStatus::Running {
                    return Err(Error::conflict("maintenance still owns the writer handoff"));
                }
                true
            },
            None => false,
        };
        if started && unreconciled(receipts) {
            return Err(Error::conflict("unknown effects require owner reconciliation; writer handoff remains blocked"));
        }
        let ghost old_store = *store;
        let mut j: usize = 0;
        while j < store.work.len()
            invariant
                store.wf(),
                0 <= j <= store.work@.len(),
                store.work@.len() == old_store.work@.len(),
                store.attachments == old_store.attachments,
                store.grants == old_store.grants,
                store.runs == old_store.runs,
                store.allocations == old_store.allocations,
                store.run_allocations == old_store.run_allocations,
                store.permits == old_store.permits,
                store.effects == old_store.effects,
                store.compactions == old_store.compactions,
                store.attachment_work == old_store.attachment_work,
                store.feedback == old_store.feedback,
                store.waits == old_store.waits,
                store.contexts == old_store.contexts && store.validity == old_store.validity && store.corpora@ == old_store.corpora@ && store.archive == old_store.archive,
                store.events@ == old_store.events@,
                store.messages == old_store.messages,
                forall|q: int| j <= q < store.work@.len() ==> store.work@[q] == old_store.work@[q],
                forall|q: int| 0 <= q < j ==> #[trigger] store.work@[q] == (
                    if old_store.work@[q].item.id@ == work_id@ && !is_terminal(old_store.work@[q].item.status) {
                        WorkEntry {
                            item: WorkItem { status: WorkItemStatus::Cancelled, ..old_store.work@[q].item },
                            ..old_store.work@[q]
                        }
                    } else {
                        old_store.work@[q]
                    }),
            decreases store.work@.len() - j,
        {
            if store.work[j].item.id == work_id && !terminal(&store.work[j].item.status) {
                let ghost before = *store;
                store.work[j].item.status = WorkItemStatus::Cancelled;
                proof {
                    assert(store.work@ =~= before.work@.update(j as int, store.work@[j as int]));
                    crate::parking::lemma_wf_work_status(before, *store, j as int);
                }
            }
            j = j + 1;
        }
        let ghost mid = *store;
        let h = store.attachments[i].handoff.take();
        match h {
            Some(mut h) => {
                h.state = RepairHandoffState::Released;
                store.attachments[i].handoff = Some(h);
            },
            None => {},
        }
        store.attachments[i].updated_ms = decimal_string(now_ms);
        proof {
            assert(store.attachments@ =~= mid.attachments@.update(i as int, store.attachments@[i as int]));
            lemma_wf_attachment_update(mid, *store, i as int);
        }
        Ok(())
    }

    /// Releases a writer handoff now, given the receipts that reconciling its repair
    /// run produced.
    pub fn release_attachment_repair(&mut self, request: &AttachmentRelease, receipts: &Vec<ActionReceipt>) -> (r: Result<()>)
        requires
            old(self).store.wf(),
        ensures
            final(self).store.wf(),
            exists|now: u64| #[trigger] Store::repair_released(old(self).store, final(self).store, *request, receipts@, now, r),
    {
        let now = now_ms();
        self.release_attachment_repair_at(request, receipts, now)
    }

    /// Persists at time `now_ms` a control intent `intent` for delivered feedback that
    /// is still valid, with `records` the records the grant can read, `references` the
    /// evidence it can read and `host` what the workspace adapter reports. Acceptance by
    /// the external host stays unknown until it acknowledges.
    pub fn begin_attachment_steering_at(&mut self, request: &FeedbackRequest, records: &Vec<String>,
        references: &Vec<String>, host: &HostReport, intent: &String, now_ms: u64) -> (r: Result<()>)
        requires
            old(self).store.wf(),
        ensures
            final(self).store.wf(),
            Store::steering_post(old(self).store, final(self).store, *request, records@, references@, *host,
                intent@, now_ms as nat, r),
    {
        let a = self.store.active_attachment(&request.attachment_id, now_ms)?;
        if !has_capability(&self.store.attachments[a].capabilities, AttachmentCapability::Steer) {
            return Err(Error::denied("steering not granted to this connector"));
        }
        let f = match self.store.find_feedback(&request.attachment_id, &request.feedback_id) {
            Some(f) => f,
            None => return Err(Error::missing("feedback not found in attachment")),
        };
        if self.store.feedback[f].state != FeedbackState::Delivered {
            return Err(Error::conflict("steering requires current, delivered feedback"));
        }
        let valid = self.valid_attachment_feedback_at(&self.store.feedback[f], records, references, host, now_ms)?;
        if !valid {
            return Err(Error::conflict("steering requires current, delivered feedback"));
        }
        let store = &mut self.store;
        let mut detail = "Control intent ".to_owned();
        detail.append(intent.as_str());
        detail.append(" persisted; external acceptance has not been acknowledged.");
        let ghost before = *store;
        store.feedback[f].state = FeedbackState::Unknown;
        store.feedback[f].detail = detail;
        proof {
            assert(store.feedback@ =~= before.feedback@.update(f as int, store.feedback@[f as int]));
            lemma_wf_feedback_update(before, *store, f as int);
        }
        Ok(())
    }

    /// Persists now a control intent with a fresh identifier for delivered feedback
    /// that is still valid.
    pub fn begin_attachment_steering(&mut self, request: &FeedbackRequest, records: &Vec<String>,
        references: &Vec<String>, host: &HostReport) -> (r: Result<()>)
        requires
            old(self).store.wf(),
        ensures
            final(self).store.wf(),
            exists|intent: Seq<char>, now: nat|
                #[trigger] Store::steering_post(old(self).store, final(self).store, *request, records@, references@,
                    *host, intent, now, r),
    {
        let intent = new_id();
        let now = now_ms();
        let r = self.begin_attachment_steering_at(request, records, references, host, &intent, now);
        assert(Store::steering_post(old(self).store, self.store, *request, records@, references@, *host, intent@,
            now as nat, r));
        r
    }
}


impl Store {
    /// Some attachment of grant `grant` among the first `k` rows has identifier `id`.
    pub open spec fn grant_attachment_before(self, grant: Seq<char>, id: Seq<char>, k: int) -> bool {
        exists|q: int|
            0 <= q < k && q < self.attachments@.len() && #[trigger] self.attachments@[q].id@ == id
                && self.attachments@[q].grant_id@ == grant
    }

    /// The identifiers of a grant's attachments in text order.
    pub fn attachment_ids(&self, grant_id: &String) -> (r: Vec<String>)
        requires
            self.wf(),
        ensures
            ordered_texts(r@),
            forall|x: Seq<char>| #[trigger] listed(r@, x) <==> self.grant_attachment(grant_id@, x),
    {
        let mut out: Vec<String> = Vec::new();
        let mut k: usize = 0;
        while k < self.attachments.len()
            invariant
                self.wf(),
                0 <= k <= self.attachments@.len(),
                ordered_texts(out@),
                forall|x: Seq<char>| #[trigger] listed(out@, x) <==> self.grant_attachment_before(grant_id@, x, k as int),
            decreases self.attachments@.len() - k,
        {
            if self.attachments[k].grant_id == *grant_id {
                insert_ordered(&mut out, self.attachments[k].id.clone());
            }
            proof {
                assert forall|y: Seq<char>| #[trigger] listed(out@, y)
                    <==> self.grant_attachment_before(grant_id@, y, k + 1) by {
                    if self.grant_attachment_before(grant_id@, y, k + 1) {
                        let q = choose|q: int| 0 <= q < k + 1 && q < self.attachments@.len()
                            && #[trigger] self.attachments@[q].id@ == y
                            && self.attachments@[q].grant_id@ == grant_id@;
                        if q < k {
                            assert(self.grant_attachment_before(grant_id@, y, k as int));
                        }
                    }
                    if self.grant_attachment_before(grant_id@, y, k as int) {
                        let q = choose|q: int| 0 <= q < k && q < self.attachments@.len()
                            && #[trigger] self.attachments@[q].id@ == y
                            && self.attachments@[q].grant_id@ == grant_id@;
                        assert(self.grant_attachment_before(grant_id@, y, k + 1));
                    }
                }
            }
            k = k + 1;
        }
        out
    }
}


/// Two attachments agree in every field.
pub open spec fn same_attachment(a: Attachment, b: Attachment) -> bool {
    &&& a.id == b.id
    &&& a.grant_id == b.grant_id
    &&& a.scope == b.scope
    &&& a.execution_id == b.execution_id
    &&& a.connector == b.connector
    &&& a.connector_version == b.connector_version
    &&& a.capabilities@ == b.capabilities@
    &&& a.state == b.state
    &&& a.source_status == b.source_status
    &&& a.start_cursor == b.start_cursor
    &&& a.cursor == b.cursor
    &&& a.frontier == b.frontier
    &&& a.coverage@ == b.coverage@
    &&& a.created_ms == b.created_ms
    &&& a.updated_ms == b.updated_ms
    &&& a.last_error == b.last_error
    &&& a.handoff == b.handoff
}

fn copy_capabilities(v: &Vec<AttachmentCapability>) -> (r: Vec<AttachmentCapability>)
    ensures
        r@ == v@,
{
    let mut out: Vec<AttachmentCapability> = Vec::new();
    let mut i: usize = 0;
    while i < v.len()
        invariant
            0 <= i <= v@.len(),
            out@ == v@.subrange(0, i as int),
        decreases v@.len() - i,
    {
        out.push(v[i]);
        assert(out@ =~= v@.subrange(0, i + 1));
        i = i + 1;
    }
    assert(v@.subrange(0, v@.len() as int) =~= v@);
    out
}

fn copy_texts(v: &Vec<String>) -> (r: Vec<String>)
    ensures
        r@ == v@,
{
    let mut out: Vec<String> = Vec::new();
    let mut i: usize = 0;
    while i < v.len()
        invariant
            0 <= i <= v@.len(),
            out@ == v@.subrange(0, i as int),
        decreases v@.len() - i,
    {
        out.push(v[i].clone());
        assert(out@ =~= v@.subrange(0, i + 1));
        i = i + 1;
    }
    assert(v@.subrange(0, v@.len() as int) =~= v@);
    out
}

fn copy_attachment(a: &Attachment) -> (r: Attachment)
    ensures
        same_attachment(r, *a),
{
    Attachment {
        id: a.id.clone(),
        grant_id: a.grant_id.clone(),
        scope: a.scope.clone(),
        execution_id: a.execution_id.clone(),
        connector: a.connector.clone(),
        connector_version: a.connector_version.clone(),
        capabilities: copy_capabilities(&a.capabilities),
        state: a.state,
        source_status: a.source_status,
        start_cursor: a.start_cursor.clone(),
        cursor: a.cursor.clone(),
        frontier: a.frontier.clone(),
        coverage: copy_texts(&a.coverage),
        created_ms: a.created_ms.clone(),
        updated_ms: a.updated_ms.clone(),
        last_error: a.last_error.clone(),
        handoff: match &a.handoff {
            Some(h) => Some(h.clone()),
            None => None,
        },
    }
}

/// The connector asks to observe, and only for capabilities the policy offers.
pub open spec fn capabilities_offered(asked: Seq<AttachmentCapability>, allow_steering: bool, allow_coordinated_writes: bool) -> bool {
    &&& asked.contains(AttachmentCapability::Observe)
    &&& forall|i: int| 0 <= i < asked.len() ==> offered(allow_steering, allow_coordinated_writes).contains(#[trigger] asked[i])
}

/// A stored attachment was opened by the same grant, execution and connector, with the
/// same capabilities, as a request asks.
pub open spec fn same_identity(a: Attachment, grant_id: Seq<char>, req: AttachmentOpen) -> bool {
    &&& a.grant_id@ == grant_id
    &&& a.execution_id@ == req.execution_id@
    &&& a.connector@ == req.connector@
    &&& a.connector_version@ == req.connector_version@
    &&& a.capabilities@ == req.capabilities@
}

/// What a new attachment records about the history it covers.
pub open spec fn opening_coverage(start: AttachmentOpenStart) -> Seq<char> {
    if start == AttachmentOpenStart::Now {
        "Earlier execution history was not requested."@
    } else {
        "Includes only history already supplied by the host; missing history is unknown."@
    }
}

/// The event cursor a new attachment starts from: the current one when it starts now,
/// else the beginning.
pub open spec fn opening_cursor(start: AttachmentOpenStart, current: Seq<char>) -> Seq<char> {
    if start == AttachmentOpenStart::Now { current } else { "0"@ }
}

/// The attachment a request opens for `grant` at time `now`.
pub open spec fn is_opened(n: Attachment, grant: Grant, req: AttachmentOpen, current: Seq<char>, now: u64) -> bool {
    &&& n.id@ == req.id@
    &&& n.grant_id@ == grant.id@
    &&& n.scope == grant.scope
    &&& n.execution_id@ == req.execution_id@
    &&& n.connector@ == req.connector@
    &&& n.connector_version@ == req.connector_version@
    &&& n.capabilities@ == req.capabilities@
    &&& n.state == AttachmentState::Active
    &&& n.source_status == AttachmentSourceStatus::Unknown
    &&& n.start_cursor@ == opening_cursor(req.start, current)
    &&& n.cursor@ == opening_cursor(req.start, current)
    &&& n.frontier@ == "{}"@
    &&& n.coverage@.len() == 1
    &&& n.coverage@[0]@ == opening_coverage(req.start)
    &&& n.created_ms@ == decimal_repr(now as nat)
    &&& n.updated_ms@ == decimal_repr(now as nat)
    &&& n.last_error@.len() == 0
    &&& n.handoff is None
}

/// A writer handoff that is held or whose release is uncertain.
pub open spec fn pending_handoff(h: Option<RepairHandoff>) -> bool {
    match h {
        Some(x) => x.state == RepairHandoffState::Held || x.state == RepairHandoffState::Unknown,
        None => false,
    }
}

/// The most attachments a grant may hold.
pub const MAX_ATTACHMENTS: usize = 16;

impl Store {
    /// Attachments of grant `grant` among `rows`.
    pub open spec fn attachment_count(rows: Seq<Attachment>, grant: Seq<char>) -> nat
        decreases rows.len(),
    {
        if rows.len() == 0 {
            0
        } else {
            Store::attachment_count(rows.drop_last(), grant) + if rows.last().grant_id@ == grant { 1nat } else { 0nat }
        }
    }

    /// Some attachment of an execution is held by a grant of the same client and project.
    pub open spec fn execution_attached(self, execution: Seq<char>, scope: Scope) -> bool {
        exists|i: int|
            0 <= i < self.attachments@.len() && #[trigger] self.attachments@[i].execution_id@ == execution
                && self.has_grant(self.attachments@[i].grant_id@)
                && self.grant_at(self.attachments@[i].grant_id@).scope.client@ == scope.client@
                && self.grant_at(self.attachments@[i].grant_id@).scope.project@ == scope.project@
    }

    /// Some writer handoff is held or uncertain.
    pub open spec fn handoff_pending(self) -> bool {
        exists|i: int|
            0 <= i < self.attachments@.len() && pending_handoff((#[trigger] self.attachments@[i]).handoff)
    }

    /// Why an attachment cannot be opened or reopened at time `now`, if it cannot.
    pub open spec fn open_failure(self, grant: Grant, req: AttachmentOpen, policy: AttachmentPolicy, now: nat) -> Option<i32> {
        if !policy_valid(policy) {
            Some(INVALID)
        } else if !is_counter(grant.budget.deadline_ms@) {
            Some(INVALID)
        } else if now >= decimal_value(grant.budget.deadline_ms@) {
            Some(EXHAUSTED)
        } else if !capabilities_offered(req.capabilities@, policy.allow_steering, policy.allow_coordinated_writes) {
            Some(DENIED)
        } else if self.has_attachment(req.id@) {
            let a = self.attachment_at(req.id@);
            if !same_identity(a, grant.id@, req) {
                Some(CONFLICT)
            } else if a.state == AttachmentState::Detached || a.state == AttachmentState::Completed {
                Some(CONFLICT)
            } else {
                None
            }
        } else if Store::attachment_count(self.attachments@, grant.id@) >= MAX_ATTACHMENTS {
            Some(EXHAUSTED)
        } else if self.execution_attached(req.execution_id@, grant.scope) {
            Some(CONFLICT)
        } else if self.handoff_pending() {
            Some(CONFLICT)
        } else {
            None
        }
    }

    /// The outcome of opening an attachment at time `now` while the event log stands at
    /// `current`. A live attachment with the same identity becomes active again.
    pub open spec fn open_post(old: Store, new: Store, grant: Grant, req: AttachmentOpen, policy: AttachmentPolicy,
        current: Seq<char>, now: u64, r: Result<Attachment>) -> bool {
        match old.open_failure(grant, req, policy, now as nat) {
            Some(code) => r matches Err(e) && e.code == code && Store::same(new, old),
            None => r matches Ok(a) && {
                &&& if old.has_attachment(req.id@) {
                    let i = old.attachment_index(req.id@);
                    let n = new.attachments@[i];
                    &&& new.attachments@ == old.attachments@.update(i, n)
                    &&& n == Attachment { state: AttachmentState::Active, updated_ms: n.updated_ms, ..old.attachments@[i] }
                    &&& n.updated_ms@ == decimal_repr(now as nat)
                    &&& same_attachment(a, n)
                } else {
                    &&& new.attachments@.len() == old.attachments@.len() + 1
                    &&& new.attachments@.drop_last() == old.attachments@
                    &&& is_opened(new.attachments@.last(), grant, req, current, now)
                    &&& same_attachment(a, new.attachments@.last())
                }
                &&& new.grants@ == old.grants@
                &&& new.runs@ == old.runs@
                &&& new.allocations@ == old.allocations@
                &&& new.run_allocations@ == old.run_allocations@
                &&& new.permits@ == old.permits@
                &&& new.effects@ == old.effects@
                &&& new.work@ == old.work@
                &&& new.compactions@ == old.compactions@
                &&& new.attachment_work@ == old.attachment_work@
                &&& new.feedback@ == old.feedback@
                &&& new.waits@ == old.waits@
                &&& new.contexts == old.contexts && new.validity == old.validity && new.corpora@ == old.corpora@ && new.archive == old.archive
                &&& new.messages == old.messages
                &&& new.events@ == old.events@
            },
        }
    }

    fn execution_attached_exec(&self, execution: &String, scope: &Scope) -> (r: bool)
        requires
            self.wf(),
        ensures
            r == self.execution_attached(execution@, *scope),
    {
        let mut i: usize = 0;
        while i < self.attachments.len()
            invariant
                self.wf(),
                0 <= i <= self.attachments@.len(),
                forall|q: int| 0 <= q < i ==> !(#[trigger] self.attachments@[q].execution_id@ == execution@
                    && self.has_grant(self.attachments@[q].grant_id@)
                    && self.grant_at(self.attachments@[q].grant_id@).scope.client@ == scope.client@
                    && self.grant_at(self.attachments@[q].grant_id@).scope.project@ == scope.project@),
            decreases self.attachments@.len() - i,
        {
            if self.attachments[i].execution_id == *execution {
                match self.grant(&self.attachments[i].grant_id) {
                    Ok(g) => {
                        if g.scope.client == scope.client && g.scope.project == scope.project {
                            return true;
                        }
                    },
                    Err(_) => {},
                }
            }
            i = i + 1;
        }
        false
    }

    fn handoff_pending_exec(&self) -> (r: bool)
        ensures
            r == self.handoff_pending(),
    {
        let mut i: usize = 0;
        while i < self.attachments.len()
            invariant
                0 <= i <= self.attachments@.len(),
                forall|q: int| 0 <= q < i ==> !pending_handoff((#[trigger] self.attachments@[q]).handoff),
            decreases self.attachments@.len() - i,
        {
            let pending = match &self.attachments[i].handoff {
                Some(h) => h.state == RepairHandoffState::Held || h.state == RepairHandoffState::Unknown,
                None => false,
            };
            if pending {
                return true;
            }
            i = i + 1;
        }
        false
    }

    /// Opens an attachment of an external execution for `grant` at time `now_ms`, the
    /// event log standing at `current_cursor`, under the host's `policy`. The connector
    /// must ask to observe and only for capabilities the policy offers; a live
    /// attachment with the same identity is reactivated; a grant holds at most
    /// sixteen; an execution is attached once per client and project; no attachment
    /// opens while a writer handoff is unsettled.
    pub fn open_attachment_at(&mut self, grant: &Grant, request: &AttachmentOpen, policy: &AttachmentPolicy,
        current_cursor: &String, now_ms: u64) -> (r: Result<Attachment>)
        requires
            old(self).wf(),
        ensures
            final(self).wf(),
            Store::open_post(*old(self), *final(self), *grant, *request, *policy, current_cursor@, now_ms, r),
    {
        policy.validate()?;
        let deadline = counter(grant.budget.deadline_ms.as_str())?;
        if now_ms >= deadline {
            return Err(Error::exhausted("attachment grant expired"));
        }
        let offered_caps = policy.capabilities();
        let asked = &request.capabilities;
        let mut acceptable = has_capability(asked, AttachmentCapability::Observe);
        let mut i: usize = 0;
        while i < asked.len()
            invariant
                0 <= i <= asked@.len(),
                offered_caps@ == offered(policy.allow_steering, policy.allow_coordinated_writes),
                acceptable == (asked@.contains(AttachmentCapability::Observe)
                    && forall|q: int| 0 <= q < i ==> offered_caps@.contains(#[trigger] asked@[q])),
            decreases asked@.len() - i,
        {
            if !has_capability(&offered_caps, asked[i]) {
                acceptable = false;
            }
            i = i + 1;
        }
        if !acceptable {
            return Err(Error::denied("attachment capability not offered by host"));
        }
        if let Some(k) = self.find_attachment(&request.id) {
            let a = &self.attachments[k];
            let same = a.grant_id == grant.id && a.execution_id == request.execution_id && a.connector == request.connector
                && a.connector_version == request.connector_version && same_capabilities(&a.capabilities, asked);
            if !same {
                return Err(Error::conflict("attachment identity or capabilities changed"));
            }
            if matches!(a.state, AttachmentState::Detached | AttachmentState::Completed) {
                return Err(Error::conflict("attachment is terminal; use a new execution identity"));
            }
            let ghost before = *self;
            self.attachments[k].state = AttachmentState::Active;
            self.attachments[k].updated_ms = decimal_string(now_ms);
            proof {
                assert(self.attachments@ =~= before.attachments@.update(k as int, self.attachments@[k as int]));
                lemma_wf_attachment_update(before, *self, k as int);
            }
            return Ok(copy_attachment(&self.attachments[k]));
        }
        let mut count: usize = 0;
        let mut j: usize = 0;
        while j < self.attachments.len()
            invariant
                0 <= j <= self.attachments@.len(),
                count == Store::attachment_count(self.attachments@.subrange(0, j as int), grant.id@),
                count <= j,
            decreases self.attachments@.len() - j,
        {
            proof {
                assert(self.attachments@.subrange(0, j + 1).drop_last() =~= self.attachments@.subrange(0, j as int));
            }
            if self.attachments[j].grant_id == grant.id {
                count = count + 1;
            }
            j = j + 1;
        }
        assert(self.attachments@.subrange(0, self.attachments@.len() as int) =~= self.attachments@);
        if count >= MAX_ATTACHMENTS {
            return Err(Error::exhausted("attachment capacity reached"));
        }
        if self.execution_attached_exec(&request.execution_id, &grant.scope) {
            return Err(Error::conflict("execution already has an attachment in this scope"));
        }
        if self.handoff_pending_exec() {
            return Err(Error::conflict("writer handoff must settle before another attachment opens"));
        }
        proof {
            reveal_strlit("0");
            reveal_strlit("{}");
            reveal_strlit("Earlier execution history was not requested.");
            reveal_strlit("Includes only history already supplied by the host; missing history is unknown.");
        }
        let now_text = decimal_string(now_ms);
        let (cursor, note) = if request.start == AttachmentOpenStart::Now {
            (current_cursor.clone(), "Earlier execution history was not requested.".to_owned())
        } else {
            ("0".to_owned(), "Includes only history already supplied by the host; missing history is unknown.".to_owned())
        };
        let attachment = Attachment {
            id: request.id.clone(),
            grant_id: grant.id.clone(),
            scope: grant.scope.clone(),
            execution_id: request.execution_id.clone(),
            connector: request.connector.clone(),
            connector_version: request.connector_version.clone(),
            capabilities: copy_capabilities(asked),
            state: AttachmentState::Active,
            source_status: AttachmentSourceStatus::Unknown,
            start_cursor: cursor.clone(),
            cursor,
            frontier: "{}".to_owned(),
            coverage: vec![note],
            created_ms: now_text.clone(),
            updated_ms: now_text,
            last_error: String::new(),
            handoff: None,
        };
        let result = copy_attachment(&attachment);
        let ghost before = *self;
        self.attachments.push(attachment);
        proof {
            assert(self.attachments@.drop_last() =~= before.attachments@);
            lemma_wf_attachment_push(before, *self);
        }
        Ok(result)
    }

    /// Opens an attachment now; see `open_attachment_at`.
    pub fn open_attachment(&mut self, grant: &Grant, request: &AttachmentOpen, policy: &AttachmentPolicy,
        current_cursor: &String) -> (r: Result<Attachment>)
        requires
            old(self).wf(),
        ensures
            final(self).wf(),
            exists|now: u64| #[trigger] Store::open_post(*old(self), *final(self), *grant, *request, *policy, current_cursor@, now, r),
    {
        let now = now_ms();
        self.open_attachment_at(grant, request, policy, current_cursor, now)
    }
}

fn same_capabilities(a: &Vec<AttachmentCapability>, b: &Vec<AttachmentCapability>) -> (r: bool)
    ensures
        r == (a@ == b@),
{
    if a.len() != b.len() {
        return false;
    }
    let mut i: usize = 0;
    while i < a.len()
        invariant
            a@.len() == b@.len(),
            0 <= i <= a@.len(),
            forall|q: int| 0 <= q < i ==> a@[q] == b@[q],
        decreases a@.len() - i,
    {
        if a[i] != b[i] {
            return false;
        }
        i = i + 1;
    }
    assert(a@ =~= b@);
    true
}

/// Appending an attachment under a new identifier keeps the ledger well formed.
proof fn lemma_wf_attachment_push(old: Store, new: Store)
    requires
        old.wf(),
        new.attachments@.len() == old.attachments@.len() + 1,
        new.attachments@.drop_last() == old.attachments@,
        !old.has_attachment(new.attachments@.last().id@),
        new.grants == old.grants,
        new.runs == old.runs,
        new.allocations == old.allocations,
        new.run_allocations == old.run_allocations,
        new.permits == old.permits,
        new.compactions == old.compactions,
        new.waits == old.waits,
        new.contexts == old.contexts && new.validity == old.validity && new.corpora@ == old.corpora@ && new.archive == old.archive,
        new.messages == old.messages,
        new.events@ == old.events@,
        new.work == old.work,
        new.attachment_work == old.attachment_work,
        new.feedback == old.feedback,
    ensures
        new.wf(),
{
    let n = old.attachments@.len() as int;
    assert forall|p: int, q: int|
        0 <= p < q < new.attachments@.len() implies #[trigger] new.attachments@[p].id@
            != #[trigger] new.attachments@[q].id@ by {
        assert(new.attachments@[p] == old.attachments@[p]);
        if q < n {
            assert(new.attachments@[q] == old.attachments@[q]);
        }
    }
}


impl Store {
    /// A feedback item of an attachment.
    pub fn feedback(&self, attachment: &String, id: &String) -> (r: Result<&AttachmentFeedback>)
        requires
            self.wf(),
        ensures
            self.has_feedback(attachment@, id@) ==> (r matches Ok(f)
                && *f == self.feedback@[self.feedback_index(attachment@, id@)]),
            !self.has_feedback(attachment@, id@) ==> (r matches Err(e) && e.code == MISSING),
    {
        match self.find_feedback(attachment, id) {
            Some(f) => Ok(&self.feedback[f]),
            None => Err(Error::missing("feedback not found in attachment")),
        }
    }

    /// The attachment that owns run `run_id` as its work, if one does.
    pub fn run_attachment(&self, run_id: &String) -> (r: Result<Option<&Attachment>>)
        requires
            self.wf(),
        ensures
            match self.run_attachment_id(run_id@) {
                None => r matches Ok(None),
                Some(id) => if self.has_attachment(id) {
                    r matches Ok(Some(a)) && *a == self.attachment_at(id)
                } else {
                    r matches Err(e) && e.code == MISSING
                },
            },
    {
        match self.find_work_owner(run_id) {
            None => Ok(None),
            Some(k) => Ok(Some(self.attachment(&self.attachment_work[k].attachment_id)?)),
        }
    }
}

/// Every listed text is among `readable`.
pub open spec fn all_listed(v: Seq<String>, readable: Seq<String>) -> bool {
    forall|i: int| 0 <= i < v.len() ==> listed(readable, (#[trigger] v[i])@)
}

fn all_readable(v: &Vec<String>, readable: &Vec<String>) -> (r: bool)
    ensures
        r == all_listed(v@, readable@),
{
    let mut i: usize = 0;
    while i < v.len()
        invariant
            0 <= i <= v@.len(),
            forall|k: int| 0 <= k < i ==> listed(readable@, (#[trigger] v@[k])@),
        decreases v@.len() - i,
    {
        if !is_listed(readable, &v[i]) {
            return false;
        }
        i = i + 1;
    }
    true
}

impl Store {
    /// Whether feedback can still steer its attachment at time `now`, with `records`
    /// the records its grant can read, `references` the evidence it can read and `host`
    /// what the workspace adapter reports: the attachment is active, the feedback has not
    /// expired, and every record, evidence reference and artifact version it rests on is
    /// still readable and current. An unknown attachment or grant, or an expiry that is
    /// not a counter, is an error.
    pub open spec fn feedback_validity(self, f: AttachmentFeedback, records: Seq<String>, references: Seq<String>,
        host: HostReport, now: nat) -> core::result::Result<bool, i32> {
        let id = f.attachment_id@;
        if !self.has_attachment(id) {
            Err(MISSING)
        } else if !self.has_grant(self.attachment_at(id).grant_id@) {
            Err(MISSING)
        } else if self.attachment_at(id).state != AttachmentState::Active {
            Ok(false)
        } else if !is_counter(f.expires_ms@) {
            Err(INVALID)
        } else {
            Ok(now < decimal_value(f.expires_ms@)
                && all_listed(f.record_refs@, records)
                && all_listed(f.evidence_refs@, references)
                && forall|i: int| 0 <= i < f.artifact_versions@.len() ==> host.reports_current(#[trigger] f.artifact_versions@[i]))
        }
    }
}

impl Runtime {
    /// Whether the feedback can still steer its attachment at time `now`, as
    /// `Store::feedback_validity` decides.
    pub fn valid_attachment_feedback_at(&self, f: &AttachmentFeedback, records: &Vec<String>,
        references: &Vec<String>, host: &HostReport, now: u64) -> (r: Result<bool>)
        requires
            self.store.wf(),
        ensures
            match self.store.feedback_validity(*f, records@, references@, *host, now as nat) {
                Ok(b) => r matches Ok(v) && v == b,
                Err(code) => r matches Err(e) && e.code == code,
            },
    {
        let a = self.store.attachment(&f.attachment_id)?;
        let _grant = self.store.grant(&a.grant_id)?;
        if a.state != AttachmentState::Active {
            return Ok(false);
        }
        let expires = counter(f.expires_ms.as_str())?;
        if now >= expires {
            return Ok(false);
        }
        Ok(all_readable(&f.record_refs, records) && all_readable(&f.evidence_refs, references)
            && host.all_current(&f.artifact_versions))
    }

    /// `valid_attachment_feedback_at` at the current time.
    pub fn valid_attachment_feedback(&self, f: &AttachmentFeedback, records: &Vec<String>,
        references: &Vec<String>, host: &HostReport) -> (r: Result<bool>)
        requires
            self.store.wf(),
        ensures
            exists|now: nat| match #[trigger] self.store.feedback_validity(*f, records@, references@, *host, now) {
                Ok(b) => r matches Ok(v) && v == b,
                Err(code) => r matches Err(e) && e.code == code,
            },
    {
        let now = now_ms();
        let r = self.valid_attachment_feedback_at(f, records, references, host, now);
        assert(match self.store.feedback_validity(*f, records@, references@, *host, now as nat) {
            Ok(b) => r matches Ok(v) && v == b,
            Err(code) => r matches Err(e) && e.code == code,
        });
        r
    }
}

/// Feedback states in the order of their names.
pub open spec fn feedback_state_order() -> Seq<FeedbackState> {
    seq![
        FeedbackState::Acknowledged,
        FeedbackState::Delivered,
        FeedbackState::Expired,
        FeedbackState::Pending,
        FeedbackState::Rejected,
        FeedbackState::Unknown,
    ]
}

/// A work status counted as running (`running`) or as queued.
pub open spec fn counted_as(status: WorkItemStatus, running: bool) -> bool {
    if running {
        status == WorkItemStatus::Running
    } else {
        status == WorkItemStatus::Queued || status == WorkItemStatus::Interrupted
    }
}

/// A provider call of the grant that still counts: it was not released.
pub open spec fn live_call(p: PermitEntry, grant: Seq<char>) -> bool {
    p.grant_id@ == grant && p.state != PermitState::Released
}

/// A live call whose usage is unknown or incomplete.
pub open spec fn unmetered(p: PermitEntry, grant: Seq<char>) -> bool {
    live_call(p, grant) && (p.usage is None || !p.usage->0.complete)
}

/// A live call with reported usage.
pub open spec fn metered(p: PermitEntry, grant: Seq<char>) -> bool {
    live_call(p, grant) && p.usage is Some
}

/// The cost the grant's live calls report, summed.
pub open spec fn observed_cost(permits: Seq<PermitEntry>, grant: Seq<char>) -> int
    decreases permits.len(),
{
    if permits.len() == 0 {
        0
    } else {
        let p = permits.last();
        observed_cost(permits.drop_last(), grant) + if metered(p, grant) {
            decimal_value(p.usage->0.cost_microusd@) as int
        } else {
            0
        }
    }
}

/// Every cost the grant's live calls report is a counter and their sum stays within
/// the signed 64-bit range at every step.
pub open spec fn cost_readable(permits: Seq<PermitEntry>, grant: Seq<char>) -> bool
    decreases permits.len(),
{
    if permits.len() == 0 {
        true
    } else {
        let p = permits.last();
        &&& cost_readable(permits.drop_last(), grant)
        &&& metered(p, grant) ==> is_counter(p.usage->0.cost_microusd@)
        &&& observed_cost(permits, grant) <= i64::MAX
    }
}

impl Store {
    /// How many work items of the attachment count as running (`running`) or queued.
    pub open spec fn attached_work(self, id: Seq<char>, running: bool) -> nat {
        self.work@.filter(|w: WorkEntry| self.owns_work(id, w.item.id@) && counted_as(w.item.status, running)).len()
    }

    /// How many feedback items of the attachment await delivery or acknowledgement.
    pub open spec fn pending_feedback_count(self, id: Seq<char>) -> nat {
        self.feedback@.filter(|f: AttachmentFeedback| f.attachment_id@ == id
            && (f.state == FeedbackState::Pending || f.state == FeedbackState::Delivered)).len()
    }

    /// How many feedback items of the attachment are in state `state`.
    pub open spec fn feedback_in(self, id: Seq<char>, state: FeedbackState) -> nat {
        self.feedback@.filter(|f: AttachmentFeedback| f.attachment_id@ == id && f.state == state).len()
    }

    /// The states among `states` that some feedback of the attachment is in, each with
    /// its count.
    pub open spec fn feedback_histogram(self, id: Seq<char>, states: Seq<FeedbackState>) -> Seq<(FeedbackState, u64)>
        decreases states.len(),
    {
        if states.len() == 0 {
            Seq::empty()
        } else {
            let rest = self.feedback_histogram(id, states.drop_first());
            let c = self.feedback_in(id, states[0]);
            if c > 0 { seq![(states[0], c as u64)] + rest } else { rest }
        }
    }

    /// Why the status of attachment `id` cannot be given, if it cannot: the attachment is
    /// unknown, a work or feedback count exceeds 32 bits, or the reported cost cannot be
    /// summed.
    pub open spec fn status_failure(self, id: Seq<char>) -> Option<i32> {
        if !self.has_attachment(id) {
            Some(MISSING)
        } else if self.attached_work(id, false) > u32::MAX || self.attached_work(id, true) > u32::MAX
            || self.pending_feedback_count(id) > u32::MAX
            || !cost_readable(self.permits@, self.attachment_at(id).grant_id@) {
            Some(INTERNAL)
        } else {
            None
        }
    }

    /// The attachment with the work, feedback and provider usage it accounts for.
    pub fn attachment_status(&self, id: &String) -> (r: Result<AttachmentStatus>)
        requires
            self.wf(),
        ensures
            match self.status_failure(id@) {
                Some(code) => r matches Err(e) && e.code == code,
                None => r matches Ok(st) && {
                    let grant = self.attachment_at(id@).grant_id@;
                    &&& same_attachment(st.attachment, self.attachment_at(id@))
                    &&& st.queued_work == self.attached_work(id@, false)
                    &&& st.running_work == self.attached_work(id@, true)
                    &&& st.pending_feedback == self.pending_feedback_count(id@)
                    &&& st.usage.calls == self.permits@.filter(|p: PermitEntry| live_call(p, grant)).len()
                    &&& st.usage.unknown_calls == self.permits@.filter(|p: PermitEntry| unmetered(p, grant)).len()
                    &&& st.usage.observed_cost_microusd@ == decimal_repr(observed_cost(self.permits@, grant) as nat)
                    &&& st.feedback_states@ == self.feedback_histogram(id@, feedback_state_order())
                },
            },
    {
        let a = self.attachment(id)?;
        let ghost gid = a.grant_id@;
        let queued = self.count_attached_work(id, false);
        let running = self.count_attached_work(id, true);
        let pending = self.count_pending_feedback(id);
        if queued > u32::MAX as usize || running > u32::MAX as usize || pending > u32::MAX as usize {
            return Err(Error::internal("attachment counts exceed their range"));
        }
        let usage = self.grant_usage(&a.grant_id)?;
        let mut states: Vec<(FeedbackState, u64)> = Vec::new();
        let ghost order = feedback_state_order();
        let mut k: usize = 6;
        assert(order.subrange(6, 6) =~= Seq::<FeedbackState>::empty());
        while k > 0
            invariant
                0 <= k <= 6,
                order == feedback_state_order(),
                states@ == self.feedback_histogram(id@, order.subrange(k as int, 6)),
            decreases k,
        {
            let state = match k {
                1 => FeedbackState::Acknowledged,
                2 => FeedbackState::Delivered,
                3 => FeedbackState::Expired,
                4 => FeedbackState::Pending,
                5 => FeedbackState::Rejected,
                _ => FeedbackState::Unknown,
            };
            assert(state == order[k - 1]);
            let c = self.count_feedback_in(id, state);
            proof {
                assert(order.subrange(k - 1, 6).drop_first() =~= order.subrange(k as int, 6));
            }
            if c > 0 {
                let mut front: Vec<(FeedbackState, u64)> = Vec::new();
                front.push((state, c as u64));
                front.append(&mut states);
                states = front;
            }
            k = k - 1;
        }
        assert(order.subrange(0, 6) =~= order);
        Ok(AttachmentStatus {
            attachment: copy_attachment(a),
            queued_work: queued as u32,
            running_work: running as u32,
            pending_feedback: pending as u32,
            usage,
            feedback_states: states,
        })
    }

    fn count_attached_work(&self, id: &String, running: bool) -> (n: usize)
        ensures
            n == self.attached_work(id@, running),
    {
        let ghost pred = |w: WorkEntry| self.owns_work(id@, w.item.id@) && counted_as(w.item.status, running);
        let mut n: usize = 0;
        let mut j: usize = 0;
        while j < self.work.len()
            invariant
                0 <= j <= self.work@.len(),
                n <= j,
                pred == (|w: WorkEntry| self.owns_work(id@, w.item.id@) && counted_as(w.item.status, running)),
                n == self.work@.subrange(0, j as int).filter(pred).len(),
            decreases self.work@.len() - j,
        {
            proof {
                reveal(Seq::filter);
                assert(self.work@.subrange(0, j + 1).drop_last() =~= self.work@.subrange(0, j as int));
            }
            let status = self.work[j].item.status;
            let counted = if running {
                status == WorkItemStatus::Running
            } else {
                status == WorkItemStatus::Queued || status == WorkItemStatus::Interrupted
            };
            if counted && self.owns_work_exec(id, &self.work[j].item.id) {
                n = n + 1;
            }
            j = j + 1;
        }
        assert(self.work@.subrange(0, self.work@.len() as int) =~= self.work@);
        n
    }

    fn count_pending_feedback(&self, id: &String) -> (n: usize)
        ensures
            n == self.pending_feedback_count(id@),
    {
        let ghost pred = |f: AttachmentFeedback| f.attachment_id@ == id@
            && (f.state == FeedbackState::Pending || f.state == FeedbackState::Delivered);
        let mut n: usize = 0;
        let mut j: usize = 0;
        while j < self.feedback.len()
            invariant
                0 <= j <= self.feedback@.len(),
                n <= j,
                pred == (|f: AttachmentFeedback| f.attachment_id@ == id@
                    && (f.state == FeedbackState::Pending || f.state == FeedbackState::Delivered)),
                n == self.feedback@.subrange(0, j as int).filter(pred).len(),
            decreases self.feedback@.len() - j,
        {
            proof {
                reveal(Seq::filter);
                assert(self.feedback@.subrange(0, j + 1).drop_last() =~= self.feedback@.subrange(0, j as int));
            }
            let f = &self.feedback[j];
            if f.attachment_id == *id && (f.state == FeedbackState::Pending || f.state == FeedbackState::Delivered) {
                n = n + 1;
            }
            j = j + 1;
        }
        assert(self.feedback@.subrange(0, self.feedback@.len() as int) =~= self.feedback@);
        n
    }

    fn count_feedback_in(&self, id: &String, state: FeedbackState) -> (n: usize)
        ensures
            n == self.feedback_in(id@, state),
    {
        let ghost pred = |f: AttachmentFeedback| f.attachment_id@ == id@ && f.state == state;
        let mut n: usize = 0;
        let mut j: usize = 0;
        while j < self.feedback.len()
            invariant
                0 <= j <= self.feedback@.len(),
                n <= j,
                pred == (|f: AttachmentFeedback| f.attachment_id@ == id@ && f.state == state),
                n == self.feedback@.subrange(0, j as int).filter(pred).len(),
            decreases self.feedback@.len() - j,
        {
            proof {
                reveal(Seq::filter);
                assert(self.feedback@.subrange(0, j + 1).drop_last() =~= self.feedback@.subrange(0, j as int));
            }
            let f = &self.feedback[j];
            if f.attachment_id == *id && f.state == state {
                n = n + 1;
            }
            j = j + 1;
        }
        assert(self.feedback@.subrange(0, self.feedback@.len() as int) =~= self.feedback@);
        n
    }

    /// What the grant's live provider calls add up to.
    fn grant_usage(&self, grant: &String) -> (r: Result<AttachmentUsage>)
        ensures
            !cost_readable(self.permits@, grant@) ==> (r matches Err(e) && e.code == INTERNAL),
            cost_readable(self.permits@, grant@) ==> (r matches Ok(u) && {
                &&& u.calls == self.permits@.filter(|p: PermitEntry| live_call(p, grant@)).len()
                &&& u.unknown_calls == self.permits@.filter(|p: PermitEntry| unmetered(p, grant@)).len()
                &&& u.observed_cost_microusd@ == decimal_repr(observed_cost(self.permits@, grant@) as nat)
            }),
    {
        let ghost live = |p: PermitEntry| live_call(p, grant@);
        let ghost unknown = |p: PermitEntry| unmetered(p, grant@);
        let mut calls: u64 = 0;
        let mut unmetered_calls: u64 = 0;
        let mut cost: u64 = 0;
        let mut j: usize = 0;
        while j < self.permits.len()
            invariant
                0 <= j <= self.permits@.len(),
                calls <= j,
                unmetered_calls <= j,
                live == (|p: PermitEntry| live_call(p, grant@)),
                unknown == (|p: PermitEntry| unmetered(p, grant@)),
                calls == self.permits@.subrange(0, j as int).filter(live).len(),
                unmetered_calls == self.permits@.subrange(0, j as int).filter(unknown).len(),
                cost_readable(self.permits@.subrange(0, j as int), grant@),
                cost as int == observed_cost(self.permits@.subrange(0, j as int), grant@),
            decreases self.permits@.len() - j,
        {
            let ghost upto = self.permits@.subrange(0, j + 1);
            proof {
                reveal(Seq::filter);
                assert(upto.drop_last() =~= self.permits@.subrange(0, j as int));
                assert(upto.last() == self.permits@[j as int]);
            }
            let p = &self.permits[j];
            if p.grant_id == *grant && p.state != PermitState::Released {
                calls = calls + 1;
                match &p.usage {
                    None => {
                        unmetered_calls = unmetered_calls + 1;
                    },
                    Some(u) => {
                        if !u.complete {
                            unmetered_calls = unmetered_calls + 1;
                        }
                        let c = match counter(u.cost_microusd.as_str()) {
                            Ok(c) => c,
                            Err(_) => {
                                proof {
                                    lemma_cost_unreadable_extends(self.permits@, j as int, grant@);
                                }
                                return Err(Error::internal("reported usage cost is not a counter"));
                            },
                        };
                        if c > i64::MAX as u64 - cost {
                            proof {
                                lemma_cost_unreadable_extends(self.permits@, j as int, grant@);
                            }
                            return Err(Error::internal("reported usage cost exceeds the signed 64-bit range"));
                        }
                        cost = cost + c;
                    },
                }
            }
            j = j + 1;
        }
        assert(self.permits@.subrange(0, self.permits@.len() as int) =~= self.permits@);
        Ok(AttachmentUsage { calls, unknown_calls: unmetered_calls, observed_cost_microusd: decimal_string(cost) })
    }
}

/// A prefix whose costs cannot be summed leaves the whole sequence unsummable.
proof fn lemma_cost_unreadable_extends(permits: Seq<PermitEntry>, j: int, grant: Seq<char>)
    requires
        0 <= j < permits.len(),
        !cost_readable(permits.subrange(0, j + 1), grant),
    ensures
        !cost_readable(permits, grant),
    decreases permits.len() - j,
{
    if j + 1 < permits.len() {
        assert(permits.subrange(0, j + 2).drop_last() =~= permits.subrange(0, j + 1));
        lemma_cost_unreadable_extends(permits, j + 1, grant);
    } else {
        assert(permits.subrange(0, j + 1) =~= permits);
    }
}

} // verus!
