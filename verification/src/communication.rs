//! Messages between the runs of one grant: sending within the grant and under the
//! inbox's capacity, paged delivery with bounded attempts, and acknowledgement.

use vstd::prelude::*;
use crate::accounting::new_id;
use crate::contracts::{Inbox, Message, MessageSend};
use crate::decimal::{decimal_repr, decimal_string};
use crate::error::{Error, Result, DENIED, EXHAUSTED, INTERNAL, MISSING};
use crate::parking::{is_listed, listed};
use crate::store::Store;

verus! {

/// The most unacknowledged, readable messages a grant's inbox holds.
pub const INBOX_CAPACITY: usize = 100;

/// The most messages one inbox read delivers.
pub const INBOX_PAGE: usize = 50;

/// How often a message is delivered before it is no longer offered.
pub const DELIVERY_ATTEMPTS: u32 = 3;

/// A message as the mailbox holds it: the message as sent, the grant it was sent in,
/// whether its recipient acknowledged it, and how often it was delivered.
#[derive(Debug)]
pub struct MessageEntry {
    pub message: Message,
    pub grant_id: String,
    pub acknowledged: bool,
    pub attempts: u32,
}

/// The message awaits its recipient `run` of grant `grant`: it is unacknowledged, was
/// delivered fewer than the allowed times, and its sending event is among the
/// `readable` events.
pub open spec fn offered(m: MessageEntry, run: Seq<char>, grant: Seq<char>, readable: Seq<String>) -> bool {
    &&& m.message.recipient@ == run
    &&& m.grant_id@ == grant
    &&& !m.acknowledged
    &&& m.attempts < DELIVERY_ATTEMPTS
    &&& listed(readable, m.message.id@)
}

/// The positions an inbox read delivers among the first `n` messages: those offered,
/// in mailbox order, up to a page.
pub open spec fn delivered(ms: Seq<MessageEntry>, n: nat, run: Seq<char>, grant: Seq<char>, readable: Seq<String>) -> Seq<int>
    decreases n,
{
    if n == 0 {
        Seq::empty()
    } else {
        let before = delivered(ms, (n - 1) as nat, run, grant, readable);
        if before.len() < INBOX_PAGE && offered(ms[n - 1], run, grant, readable) {
            before.push(n - 1)
        } else {
            before
        }
    }
}

/// The messages of a grant that still take up inbox capacity: unacknowledged and
/// readable.
pub open spec fn holds_capacity(m: MessageEntry, grant: Seq<char>, readable: Seq<String>) -> bool {
    m.grant_id@ == grant && !m.acknowledged && listed(readable, m.message.id@)
}

/// The message as it is delivered for its next attempt.
pub open spec fn delivery(m: MessageEntry) -> Message {
    Message { attempts: (m.attempts + 1) as u32, ..m.message }
}

impl Store {
    /// Message identifiers are unique and no message was delivered more often than
    /// allowed.
    pub open spec fn mailbox_wf(self) -> bool {
        &&& forall|i: int, j: int| 0 <= i < j < self.messages@.len()
            ==> #[trigger] self.messages@[i].message.id@ != #[trigger] self.messages@[j].message.id@
        &&& forall|i: int| 0 <= i < self.messages@.len() ==> #[trigger] self.messages@[i].attempts <= DELIVERY_ATTEMPTS
    }

    /// How many of a grant's messages take up inbox capacity.
    pub open spec fn held_messages(self, grant: Seq<char>, readable: Seq<String>) -> nat {
        self.messages@.filter(|m: MessageEntry| holds_capacity(m, grant, readable)).len()
    }

    pub open spec fn has_message(self, id: Seq<char>) -> bool {
        exists|i: int| 0 <= i < self.messages@.len() && #[trigger] self.messages@[i].message.id@ == id
    }

    /// The grant of a run, by identifier.
    pub open spec fn grant_of(self, run: Seq<char>) -> Seq<char> {
        self.grant_at(self.run_at(run).grant_id@).id@
    }

    /// Why sending `req` from `run` with identifier `id` is refused, if it is: the sender
    /// must be running, the recipient a run of the same grant, and the grant's inbox
    /// below capacity, counting the messages whose sending event is among `readable`.
    pub open spec fn send_failure(self, run: Seq<char>, req: MessageSend, readable: Seq<String>, id: Seq<char>) -> Option<i32> {
        if !self.run_active(run) {
            Some(if !self.run_grant_known(run) { MISSING } else { DENIED })
        } else if !self.run_grant_known(req.recipient@) {
            Some(MISSING)
        } else if self.grant_of(req.recipient@) != self.grant_of(run) {
            Some(DENIED)
        } else if self.held_messages(self.grant_of(run), readable) >= INBOX_CAPACITY {
            Some(EXHAUSTED)
        } else if self.has_message(id) {
            Some(INTERNAL)
        } else {
            None
        }
    }

    /// The message `m` is `req` sent by `run` under identifier `id`, numbered `sequence`.
    pub open spec fn is_sent(m: Message, run: Seq<char>, req: MessageSend, id: Seq<char>, sequence: nat) -> bool {
        &&& m.id@ == id
        &&& m.sender@ == run
        &&& m.recipient@ == req.recipient@
        &&& m.topic@ == req.topic@
        &&& m.body@ == req.body@
        &&& m.correlation@ == req.correlation@
        &&& m.sequence@ == decimal_repr(sequence)
        &&& m.attempts == 0
    }

    /// Sends a message to another run of the sender's grant under identifier `id`; the
    /// mailbox numbers messages in the order they arrive. `readable` lists the events
    /// the grant can still read, which decides which messages take up capacity.
    pub fn send_message_with(&mut self, run_id: &String, request: &MessageSend, readable: &Vec<String>, id: String) -> (r: Result<Message>)
        requires
            old(self).wf(),
            old(self).mailbox_wf(),
            old(self).messages@.len() < u64::MAX,
        ensures
            final(self).wf(),
            final(self).mailbox_wf(),
            match old(self).send_failure(run_id@, *request, readable@, id@) {
                Some(code) => r matches Err(e) && e.code == code && Store::same(*final(self), *old(self)),
                None => r matches Ok(m) && {
                    &&& Store::is_sent(m, run_id@, *request, id@, (old(self).messages@.len() + 1) as nat)
                    &&& final(self).messages@.len() == old(self).messages@.len() + 1
                    &&& final(self).messages@.drop_last() == old(self).messages@
                    &&& final(self).messages@.last().message == m
                    &&& final(self).messages@.last().grant_id@ == old(self).grant_of(run_id@)
                    &&& !final(self).messages@.last().acknowledged
                    &&& final(self).messages@.last().attempts == 0
                    &&& Store::same_but_messages(*final(self), *old(self))
                },
            },
    {
        let grant = self.require_active(run_id)?;
        let recipient = self.run_grant(&request.recipient)?;
        if recipient.id != grant.id {
            return Err(Error::denied("recipient is outside communication grant"));
        }
        let grant_id = grant.id.clone();
        let ghost gid = grant_id@;
        let mut held: usize = 0;
        let mut i: usize = 0;
        while i < self.messages.len()
            invariant
                0 <= i <= self.messages@.len(),
                *self == *old(self),
                grant_id@ == gid,
                held == self.messages@.subrange(0, i as int).filter(|m: MessageEntry| holds_capacity(m, gid, readable@)).len(),
                held <= i,
            decreases self.messages@.len() - i,
        {
            proof {
                reveal(Seq::filter);
                assert(self.messages@.subrange(0, i + 1).drop_last() =~= self.messages@.subrange(0, i as int));
            }
            let m = &self.messages[i];
            if m.grant_id == grant_id && !m.acknowledged && is_listed(readable, &m.message.id) {
                held = held + 1;
            }
            i = i + 1;
        }
        proof {
            assert(self.messages@.subrange(0, self.messages@.len() as int) =~= self.messages@);
        }
        if held >= INBOX_CAPACITY {
            return Err(Error::exhausted("inbox capacity reached"));
        }
        assert(old(self).send_failure(run_id@, *request, readable@, id@)
            == if old(self).has_message(id@) { Some(INTERNAL) } else { None::<i32> });
        let mut k: usize = 0;
        while k < self.messages.len()
            invariant
                0 <= k <= self.messages@.len(),
                *self == *old(self),
                self.wf(),
                self.mailbox_wf(),
                self.messages@.len() < u64::MAX,
                old(self).send_failure(run_id@, *request, readable@, id@)
                    == if old(self).has_message(id@) { Some(INTERNAL) } else { None::<i32> },
                forall|q: int| 0 <= q < k ==> #[trigger] self.messages@[q].message.id@ != id@,
            decreases self.messages@.len() - k,
        {
            if self.messages[k].message.id == id {
                assert(self.messages@[k as int].message.id@ == id@);
                return Err(Error::internal("message identifier already in use"));
            }
            k = k + 1;
        }
        let sequence = decimal_string(self.messages.len() as u64 + 1);
        let message = Message {
            id,
            sender: run_id.clone(),
            recipient: request.recipient.clone(),
            topic: request.topic.clone(),
            body: request.body.clone(),
            correlation: request.correlation.clone(),
            sequence,
            attempts: 0,
        };
        let ghost before = *self;
        self.messages.push(MessageEntry { message: message.clone(), grant_id, acknowledged: false, attempts: 0 });
        proof {
            assert(self.messages@.drop_last() =~= before.messages@);
            assert forall|a: int, b: int| 0 <= a < b < self.messages@.len() implies
                #[trigger] self.messages@[a].message.id@ != #[trigger] self.messages@[b].message.id@ by {
                if b < before.messages@.len() {
                    assert(self.messages@[a] == before.messages@[a]);
                    assert(self.messages@[b] == before.messages@[b]);
                } else {
                    assert(self.messages@[a] == before.messages@[a]);
                }
            }
            assert forall|a: int| 0 <= a < self.messages@.len() implies #[trigger] self.messages@[a].attempts <= DELIVERY_ATTEMPTS by {
                if a < before.messages@.len() {
                    assert(self.messages@[a] == before.messages@[a]);
                }
            }
        }
        Ok(message)
    }

    /// Sends a message under a fresh identifier.
    pub fn send_message(&mut self, run_id: &String, request: &MessageSend, readable: &Vec<String>) -> (r: Result<Message>)
        requires
            old(self).wf(),
            old(self).mailbox_wf(),
            old(self).messages@.len() < u64::MAX,
        ensures
            final(self).wf(),
            final(self).mailbox_wf(),
            exists|id: Seq<char>| match #[trigger] old(self).send_failure(run_id@, *request, readable@, id) {
                Some(code) => r matches Err(e) && e.code == code && Store::same(*final(self), *old(self)),
                None => r matches Ok(m) && {
                    &&& Store::is_sent(m, run_id@, *request, id, (old(self).messages@.len() + 1) as nat)
                    &&& final(self).messages@.drop_last() == old(self).messages@
                    &&& final(self).messages@.last().message == m
                    &&& Store::same_but_messages(*final(self), *old(self))
                },
            },
    {
        let id = new_id();
        let ghost fresh = id@;
        let r = self.send_message_with(run_id, request, readable, id);
        assert(match old(self).send_failure(run_id@, *request, readable@, fresh) {
            Some(code) => r matches Err(e) && e.code == code && Store::same(*final(self), *old(self)),
            None => r matches Ok(m) && {
                &&& Store::is_sent(m, run_id@, *request, fresh, (old(self).messages@.len() + 1) as nat)
                &&& final(self).messages@.drop_last() == old(self).messages@
                &&& final(self).messages@.last().message == m
                &&& Store::same_but_messages(*final(self), *old(self))
            },
        });
        r
    }
}

/// The entry once delivered once more.
pub open spec fn bumped(m: MessageEntry) -> MessageEntry {
    MessageEntry { attempts: (m.attempts + 1) as u32, ..m }
}

/// Every position an inbox read delivers is offered and earlier than `n`; the positions
/// come in increasing order and fill at most a page.
pub proof fn lemma_delivered_offered(ms: Seq<MessageEntry>, n: nat, run: Seq<char>, grant: Seq<char>, readable: Seq<String>)
    requires
        n <= ms.len(),
    ensures
        delivered(ms, n, run, grant, readable).len() <= INBOX_PAGE,
        forall|k: int| 0 <= k < delivered(ms, n, run, grant, readable).len() ==> {
            let q = #[trigger] delivered(ms, n, run, grant, readable)[k];
            0 <= q < n && offered(ms[q], run, grant, readable)
        },
        forall|a: int, b: int| 0 <= a < b < delivered(ms, n, run, grant, readable).len() ==>
            #[trigger] delivered(ms, n, run, grant, readable)[a] < #[trigger] delivered(ms, n, run, grant, readable)[b],
    decreases n,
{
    if n > 0 {
        lemma_delivered_offered(ms, (n - 1) as nat, run, grant, readable);
    }
}

impl Store {
    /// The outcome of an inbox read by `run` on `old`, with `readable` the events the
    /// grant can still read: the offered messages in mailbox order, up to a page, each
    /// delivered once more.
    pub open spec fn inbox_post(old: Store, new: Store, run: Seq<char>, readable: Seq<String>, r: Result<Inbox>) -> bool {
        if !old.run_active(run) {
            r matches Err(e) && e.code == (if !old.run_grant_known(run) { MISSING } else { DENIED })
                && Store::same(new, old)
        } else {
            let ms = old.messages@;
            let d = delivered(ms, ms.len(), run, old.grant_of(run), readable);
            r matches Ok(inbox) && {
                &&& inbox.messages@.len() == d.len()
                &&& forall|k: int| 0 <= k < d.len() ==> inbox.messages@[k] == delivery(ms[#[trigger] d[k]])
                &&& new.messages@.len() == ms.len()
                &&& forall|q: int| 0 <= q < ms.len() ==> #[trigger] new.messages@[q]
                    == if d.contains(q) { bumped(ms[q]) } else { ms[q] }
                &&& Store::same_but_messages(new, old)
            }
        }
    }

    /// Delivers the messages awaiting `run`: those of its grant that are unacknowledged,
    /// delivered fewer than the allowed times and still readable, oldest first and at
    /// most a page; each delivery counts as an attempt.
    pub fn inbox(&mut self, run_id: &String, readable: &Vec<String>) -> (r: Result<Inbox>)
        requires
            old(self).wf(),
            old(self).mailbox_wf(),
        ensures
            final(self).wf(),
            final(self).mailbox_wf(),
            Store::inbox_post(*old(self), *final(self), run_id@, readable@, r),
            r matches Ok(inbox) ==> inbox.messages@.len() <= INBOX_PAGE && forall|k: int|
                0 <= k < inbox.messages@.len() ==> 1 <= #[trigger] inbox.messages@[k].attempts <= DELIVERY_ATTEMPTS,
    {
        let grant = self.require_active(run_id)?;
        let gid = grant.id.clone();
        let ghost before = *self;
        let ghost ms = before.messages@;
        let ghost g = before.grant_of(run_id@);
        assert(gid@ == g);
        let mut out: Vec<Message> = Vec::new();
        let ghost mut picked: Seq<int> = Seq::empty();
        let mut i: usize = 0;
        while i < self.messages.len()
            invariant
                0 <= i <= ms.len(),
                self.messages@.len() == ms.len(),
                ms == before.messages@,
                gid@ == g,
                before.mailbox_wf(),
                picked == delivered(ms, i as nat, run_id@, g, readable@),
                out@.len() == picked.len(),
                forall|k: int| 0 <= k < picked.len() ==> out@[k] == delivery(ms[#[trigger] picked[k]]),
                forall|q: int| 0 <= q < ms.len() ==> #[trigger] self.messages@[q]
                    == if picked.contains(q) { bumped(ms[q]) } else { ms[q] },
                forall|k: int| 0 <= k < picked.len() ==> 0 <= #[trigger] picked[k] < i,
                Store::same_but_messages(*self, before),
                self.grants == before.grants,
                self.runs == before.runs,
                self.allocations == before.allocations,
                self.run_allocations == before.run_allocations,
                self.permits == before.permits,
                self.effects == before.effects,
                self.work == before.work,
                self.compactions == before.compactions,
                self.attachments == before.attachments,
                self.attachment_work == before.attachment_work,
                self.feedback == before.feedback,
                self.waits == before.waits,
                self.contexts == before.contexts && self.validity == before.validity && self.corpora@ == before.corpora@ && self.archive == before.archive,
                self.events@ == before.events@,
            decreases ms.len() - i,
        {
            proof {
                assert(!picked.contains(i as int));
                assert(self.messages@[i as int] == ms[i as int]);
            }
            let m = &self.messages[i];
            if out.len() < INBOX_PAGE && m.message.recipient == *run_id && m.grant_id == gid && !m.acknowledged
                && m.attempts < DELIVERY_ATTEMPTS && is_listed(readable, &m.message.id) {
                let mut msg = m.message.clone();
                msg.attempts = m.attempts + 1;
                out.push(msg);
                let entry = MessageEntry {
                    message: self.messages[i].message.clone(),
                    grant_id: self.messages[i].grant_id.clone(),
                    acknowledged: self.messages[i].acknowledged,
                    attempts: self.messages[i].attempts + 1,
                };
                let ghost prior = self.messages@;
                self.messages.set(i, entry);
                proof {
                    let np = picked.push(i as int);
                    assert forall|q: int| 0 <= q < ms.len() implies #[trigger] self.messages@[q]
                        == if np.contains(q) { bumped(ms[q]) } else { ms[q] } by {
                        if q == i {
                            assert(np[np.len() - 1] == q);
                        } else {
                            assert(self.messages@[q] == prior[q]);
                            if picked.contains(q) {
                                let k = choose|k: int| 0 <= k < picked.len() && picked[k] == q;
                                assert(np[k] == q);
                            }
                            if np.contains(q) {
                                let k = choose|k: int| 0 <= k < np.len() && np[k] == q;
                                assert(k < picked.len());
                                assert(picked[k] == q);
                            }
                        }
                    }
                    picked = np;
                }
            }
            i = i + 1;
        }
        proof {
            lemma_delivered_offered(ms, ms.len(), run_id@, g, readable@);
            assert forall|a: int, b: int| 0 <= a < b < self.messages@.len() implies
                #[trigger] self.messages@[a].message.id@ != #[trigger] self.messages@[b].message.id@ by {
                assert(ms[a].message.id@ != ms[b].message.id@);
            }
            assert forall|q: int| 0 <= q < self.messages@.len() implies #[trigger] self.messages@[q].attempts <= DELIVERY_ATTEMPTS by {
                if picked.contains(q) {
                    let k = choose|k: int| 0 <= k < picked.len() && picked[k] == q;
                    assert(offered(ms[q], run_id@, g, readable@));
                }
            }
            assert forall|k: int| 0 <= k < out@.len() implies 1 <= #[trigger] out@[k].attempts <= DELIVERY_ATTEMPTS by {
                assert(offered(ms[picked[k]], run_id@, g, readable@));
            }
        }
        Ok(Inbox { messages: out })
    }

    /// Some message `id` is addressed to `run`.
    pub open spec fn addressed(self, run: Seq<char>, id: Seq<char>) -> bool {
        exists|i: int| 0 <= i < self.messages@.len() && #[trigger] self.messages@[i].message.id@ == id
            && self.messages@[i].message.recipient@ == run
    }

    pub open spec fn message_index(self, id: Seq<char>) -> int {
        choose|i: int| 0 <= i < self.messages@.len() && #[trigger] self.messages@[i].message.id@ == id
    }

    /// The outcome of acknowledging message `id` for `run` on `old`.
    pub open spec fn acknowledge_post(old: Store, new: Store, run: Seq<char>, id: Seq<char>, r: Result<()>) -> bool {
        if !old.addressed(run, id) {
            r matches Err(e) && e.code == MISSING && Store::same(new, old)
        } else {
            let i = old.message_index(id);
            &&& r is Ok
            &&& new.messages@ == old.messages@.update(i, MessageEntry { acknowledged: true, ..old.messages@[i] })
            &&& Store::same_but_messages(new, old)
        }
    }

    /// Acknowledges message `message_id` for its recipient `run`; it is not offered
    /// again. Acknowledging twice changes nothing more.
    pub fn acknowledge_message(&mut self, run_id: &String, message_id: &String) -> (r: Result<()>)
        requires
            old(self).wf(),
            old(self).mailbox_wf(),
        ensures
            final(self).wf(),
            final(self).mailbox_wf(),
            Store::acknowledge_post(*old(self), *final(self), run_id@, message_id@, r),
    {
        let mut i: usize = 0;
        while i < self.messages.len()
            invariant
                0 <= i <= self.messages@.len(),
                *self == *old(self),
                self.wf(),
                self.mailbox_wf(),
                forall|k: int| 0 <= k < i ==> !(#[trigger] self.messages@[k].message.id@ == message_id@
                    && self.messages@[k].message.recipient@ == run_id@),
            decreases self.messages@.len() - i,
        {
            if self.messages[i].message.id == *message_id && self.messages[i].message.recipient == *run_id {
                let ghost before = *self;
                proof {
                    let c = before.message_index(message_id@);
                    assert(before.messages@[i as int].message.id@ == message_id@);
                    if c != i as int {
                        if c < i {
                            assert(before.messages@[c].message.id@ != before.messages@[i as int].message.id@);
                        } else {
                            assert(before.messages@[i as int].message.id@ != before.messages@[c].message.id@);
                        }
                    }
                }
                let entry = MessageEntry {
                    message: self.messages[i].message.clone(),
                    grant_id: self.messages[i].grant_id.clone(),
                    acknowledged: true,
                    attempts: self.messages[i].attempts,
                };
                self.messages.set(i, entry);
                proof {
                    assert forall|a: int, b: int| 0 <= a < b < self.messages@.len() implies
                        #[trigger] self.messages@[a].message.id@ != #[trigger] self.messages@[b].message.id@ by {
                        assert(before.messages@[a].message.id@ != before.messages@[b].message.id@);
                    }
                    assert forall|a: int| 0 <= a < self.messages@.len() implies #[trigger] self.messages@[a].attempts <= DELIVERY_ATTEMPTS by {
                        assert(before.messages@[a].attempts <= DELIVERY_ATTEMPTS);
                    }
                }
                return Ok(());
            }
            i = i + 1;
        }
        Err(Error::missing("message not found for recipient"))
    }
}

} // verus!
