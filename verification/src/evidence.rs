//! The event log: ingesting observed events, and paging through the events a grant may
//! see in the order they were logged.

use vstd::prelude::*;
use crate::attachments::byte_len;
use crate::compare::{opt_text, texts};
use crate::contracts::{ArtifactRef, EvidenceRequest, Grant, Scope, Split, VersionRef};
use crate::decimal::{counter, decimal_repr, decimal_string, decimal_value, is_counter};
use crate::error::{Error, Result, CONFLICT, EXHAUSTED, INVALID, MISSING};
use crate::store::{CorpusEntry, EventRecord, EventRow, Store};
use vstd::utf8::encode_utf8;

verus! {

/// The largest frame the transport carries, in bytes.
pub const MAX_FRAME: usize = 1048576;

/// Two events claim the same identity: the same identifier, or the same sequence
/// number of one producer in one run of one scope.
pub open spec fn same_identity(a: EventRecord, b: EventRecord) -> bool {
    ||| a.id@ == b.id@
    ||| {
        &&& a.scope.client@ == b.scope.client@
        &&& a.scope.project@ == b.scope.project@
        &&& a.run_id@ == b.run_id@
        &&& a.producer@ == b.producer@
        &&& a.sequence@ == b.sequence@
    }
}

/// The position of the first logged event that claims the identity of `e`.
pub open spec fn first_identity(rows: Seq<EventRow>, e: EventRecord) -> Option<int>
    decreases rows.len(),
{
    if rows.len() == 0 {
        None
    } else if same_identity(rows[0].event, e) {
        Some(0)
    } else {
        match first_identity(rows.drop_first(), e) {
            Some(k) => Some(k + 1),
            None => None,
        }
    }
}

/// The cursor the next logged event receives: one past the last, starting at one.
pub open spec fn next_cursor(rows: Seq<EventRow>) -> int {
    if rows.len() == 0 { 1 } else { rows.last().cursor + 1 }
}

/// Two event records hold the same values.
pub open spec fn same_event(a: EventRecord, b: EventRecord) -> bool {
    &&& a.id@ == b.id@
    &&& a.scope == b.scope
    &&& a.run_id@ == b.run_id@
    &&& a.producer@ == b.producer@
    &&& a.sequence@ == b.sequence@
    &&& a.kind@ == b.kind@
    &&& a.split == b.split
    &&& texts(a.parents@) == texts(b.parents@)
    &&& a.artifacts@ == b.artifacts@
    &&& a.body@ == b.body@
}

pub(crate) fn copy_artifacts(v: &Vec<ArtifactRef>) -> (r: Vec<ArtifactRef>)
    ensures
        r@ == v@,
{
    let mut r: Vec<ArtifactRef> = Vec::new();
    let mut i: usize = 0;
    while i < v.len()
        invariant
            0 <= i <= v@.len(),
            r@ == v@.subrange(0, i as int),
        decreases v@.len() - i,
    {
        r.push(v[i].clone());
        i = i + 1;
        assert(r@ =~= v@.subrange(0, i as int));
    }
    assert(v@.subrange(0, v@.len() as int) =~= v@);
    r
}

impl EventRecord {
    pub fn copy(&self) -> (r: EventRecord)
        ensures
            same_event(r, *self),
    {
        let r = EventRecord {
            id: self.id.clone(),
            scope: self.scope.clone(),
            run_id: self.run_id.clone(),
            producer: self.producer.clone(),
            sequence: self.sequence.clone(),
            kind: self.kind.clone(),
            split: self.split,
            parents: self.parents.clone(),
            artifacts: copy_artifacts(&self.artifacts),
            body: self.body.clone(),
        };
        assert(texts(r.parents@) =~= texts(self.parents@));
        r
    }
}

impl Store {
    /// The outcome of logging `event`. An event over a quarter of a frame is refused.
    /// An event whose identity is already logged is accepted again, unchanged, only
    /// when its serialized body is the one logged; otherwise the identity is in
    /// conflict. A new event is appended under the next cursor.
    pub open spec fn ingest_post(old: Store, new: Store, event: EventRecord, r: Result<bool>) -> bool {
        if byte_len(event.body@) > MAX_FRAME / 4 {
            r matches Err(e) && e.code == INVALID && Store::same(new, old)
        } else {
            match first_identity(old.events@, event) {
                Some(i) => if old.events@[i].event.body@ == event.body@ {
                    r matches Ok(false) && Store::same(new, old)
                } else {
                    r matches Err(e) && e.code == CONFLICT && Store::same(new, old)
                },
                None => if next_cursor(old.events@) > u64::MAX {
                    r matches Err(e) && e.code == EXHAUSTED && Store::same(new, old)
                } else {
                    &&& r matches Ok(true)
                    &&& new.events@ == old.events@.push(EventRow { cursor: next_cursor(old.events@) as u64, event })
                    &&& Store::same_but_events(new, old)
                },
            }
        }
    }

    fn find_identity(&self, event: &EventRecord) -> (r: Option<usize>)
        ensures
            match r {
                Some(i) => first_identity(self.events@, *event) == Some(i as int) && i < self.events@.len(),
                None => first_identity(self.events@, *event) is None,
            },
    {
        let mut i: usize = 0;
        assert(self.events@.subrange(0, self.events@.len() as int) =~= self.events@);
        while i < self.events.len()
            invariant
                0 <= i <= self.events@.len(),
                forall|k: int| 0 <= k < i ==> !same_identity((#[trigger] self.events@[k]).event, *event),
                first_identity(self.events@, *event) == match first_identity(self.events@.subrange(i as int, self.events@.len() as int), *event) {
                    Some(k) => Some(k + i),
                    None => None::<int>,
                },
            decreases self.events@.len() - i,
        {
            let ghost rest = self.events@.subrange(i as int, self.events@.len() as int);
            assert(rest.drop_first() =~= self.events@.subrange(i + 1, self.events@.len() as int));
            let e = &self.events[i].event;
            let same_scope = e.scope.client == event.scope.client && e.scope.project == event.scope.project;
            if e.id == event.id || (same_scope && e.run_id == event.run_id && e.producer == event.producer
                && e.sequence == event.sequence) {
                return Some(i);
            }
            i = i + 1;
        }
        None
    }

    /// Logs an observed event, as `ingest_post` states. Answers whether it was new.
    pub fn ingest(&mut self, event: EventRecord) -> (r: Result<bool>)
        requires
            old(self).wf(),
        ensures
            final(self).wf(),
            Store::ingest_post(*old(self), *final(self), event, r),
    {
        if event.body.as_str().len() > MAX_FRAME / 4 {
            return Err(Error::invalid("event exceeds 256 KiB; reference large artifacts instead"));
        }
        match self.find_identity(&event) {
            Some(i) => {
                if self.events[i].event.body == event.body {
                    return Ok(false);
                }
                return Err(Error::conflict("event identity reused with different evidence"));
            },
            None => {},
        }
        let n = self.events.len();
        let cursor: u64 = if n == 0 {
            1
        } else {
            let last = self.events[n - 1].cursor;
            if last == u64::MAX {
                return Err(Error::exhausted("event log is full"));
            }
            last + 1
        };
        let ghost before = *self;
        self.events.push(EventRow { cursor, event });
        proof {
            assert forall|i: int, j: int| 0 <= i < j < self.events@.len() implies
                #[trigger] self.events@[i].cursor < #[trigger] self.events@[j].cursor by {
                if j == self.events@.len() - 1 && i < j {
                    assert(before.events@[i].cursor <= before.events@.last().cursor);
                }
            }
        }
        Ok(true)
    }
}

/// The producers whose events record a run's own conversation and context compactions.
pub open spec fn is_activity_producer(p: Seq<char>) -> bool {
    p == "pi-agent"@ || p == "pi-compactor"@
}

/// The event belongs to the active run `activity` and records its own conversation or
/// compaction, which that run does not read back as evidence.
pub open spec fn excluded(e: EventRecord, activity: Option<Seq<char>>) -> bool {
    activity matches Some(a) && e.run_id@ == a && is_activity_producer(e.producer@)
}

/// Who reads evidence: the active run whose own activity stays out, if any, and the
/// events of the discovery corpus the grant is confined to, if it is.
pub type Reading = (Option<Seq<char>>, Option<Seq<String>>);

/// The event is among the corpus events, where the reader is confined to a corpus.
pub open spec fn in_corpus(id: Seq<char>, corpus: Option<Seq<String>>) -> bool {
    match corpus {
        Some(events) => texts(events).contains(id),
        None => true,
    }
}

/// The grant may see the event: it is in the grant's scope and one of its visible
/// splits, not excluded for the active run, and within the reader's corpus.
pub open spec fn visible(e: EventRecord, grant: Grant, reading: Reading) -> bool {
    &&& e.scope.client@ == grant.scope.client@
    &&& e.scope.project@ == grant.scope.project@
    &&& grant.visible_splits@.contains(e.split)
    &&& !excluded(e, reading.0)
    &&& in_corpus(e.id@, reading.1)
}

/// The position of the corpus registered in `scope` under `id` at `version`.
pub open spec fn corpus_index(corpora: Seq<CorpusEntry>, scope: Scope, id: Seq<char>, version: Seq<char>) -> Option<int>
    decreases corpora.len(),
{
    if corpora.len() == 0 {
        None
    } else if corpora[0].scope.client@ == scope.client@ && corpora[0].scope.project@ == scope.project@
        && corpora[0].id@ == id && corpora[0].version@ == version {
        Some(0)
    } else {
        match corpus_index(corpora.drop_first(), scope, id, version) {
            Some(k) => Some(k + 1),
            None => None,
        }
    }
}

impl Store {
    /// The grant's assigned corpus is not registered in its scope.
    pub open spec fn corpus_missing(self, grant: Grant) -> bool {
        grant.discovery_corpus matches Some(c)
            && corpus_index(self.corpora@, grant.scope, c.id@, c.version@) is None
    }

    /// The events a grant confined to a registered corpus may read; `None` for a grant
    /// not confined to a corpus.
    pub open spec fn corpus_events(self, grant: Grant) -> Option<Seq<String>> {
        match grant.discovery_corpus {
            Some(c) => match corpus_index(self.corpora@, grant.scope, c.id@, c.version@) {
                Some(i) => Some(self.corpora@[i].event_refs@),
                None => None,
            },
            None => None,
        }
    }

    fn find_corpus(&self, scope: &Scope, c: &VersionRef) -> (r: Option<usize>)
        ensures
            match r {
                Some(i) => corpus_index(self.corpora@, *scope, c.id@, c.version@) == Some(i as int) && i < self.corpora@.len(),
                None => corpus_index(self.corpora@, *scope, c.id@, c.version@) is None,
            },
    {
        let mut i: usize = 0;
        assert(self.corpora@.subrange(0, self.corpora@.len() as int) =~= self.corpora@);
        while i < self.corpora.len()
            invariant
                0 <= i <= self.corpora@.len(),
                corpus_index(self.corpora@, *scope, c.id@, c.version@) == match corpus_index(self.corpora@.subrange(i as int, self.corpora@.len() as int), *scope, c.id@, c.version@) {
                    Some(k) => Some(k + i),
                    None => None::<int>,
                },
            decreases self.corpora@.len() - i,
        {
            let ghost rest = self.corpora@.subrange(i as int, self.corpora@.len() as int);
            assert(rest.drop_first() =~= self.corpora@.subrange(i + 1, self.corpora@.len() as int));
            let e = &self.corpora[i];
            if e.scope.client == scope.client && e.scope.project == scope.project && e.id == c.id && e.version == c.version {
                return Some(i);
            }
            i = i + 1;
        }
        None
    }
}

/// A page cursor as the request states it, bounded by the largest stored cursor.
pub open spec fn cursor_bound(s: Seq<char>) -> nat {
    if decimal_value(s) <= i64::MAX { decimal_value(s) } else { i64::MAX as nat }
}

/// The event is one of the selected identifiers `refs`, or, with `neighbors`, a parent
/// of a logged event so selected or a child of one.
pub open spec fn selected_by(log: Seq<EventRow>, e: EventRecord, refs: Seq<String>, neighbors: bool) -> bool {
    ||| texts(refs).contains(e.id@)
    ||| neighbors && exists|j: int| 0 <= j < log.len() && texts(refs).contains((#[trigger] log[j]).event.id@)
        && texts(log[j].event.parents@).contains(e.id@)
    ||| neighbors && exists|p: int| 0 <= p < e.parents@.len() && texts(refs).contains((#[trigger] e.parents@[p])@)
}

/// A byte with ASCII capitals folded to lower case.
pub open spec fn fold(b: u8) -> int {
    if 65 <= b <= 90 { b + 32 } else { b as int }
}

/// `q` occurs in `h` at position `i`, ignoring ASCII case.
pub open spec fn matches_at(h: Seq<u8>, q: Seq<u8>, i: int) -> bool {
    forall|j: int| 0 <= j < q.len() ==> fold(#[trigger] h[i + j]) == fold(q[j])
}

/// `q` occurs somewhere in `h`, ignoring ASCII case; the empty text occurs everywhere.
pub open spec fn contains_folded(h: Seq<u8>, q: Seq<u8>) -> bool {
    exists|i: int| 0 <= i && i + q.len() <= h.len() && #[trigger] matches_at(h, q, i)
}

fn folded(b: u8) -> (r: u8)
    ensures
        r == fold(b),
{
    if b >= 65 && b <= 90 { b + 32 } else { b }
}

fn occurs_folded(h: &[u8], q: &[u8]) -> (r: bool)
    ensures
        r == contains_folded(h@, q@),
{
    if q.len() > h.len() {
        proof {
            assert forall|i: int| 0 <= i && i + q@.len() <= h@.len() implies !#[trigger] matches_at(h@, q@, i) by {}
        }
        return false;
    }
    let hl = h.len();
    let last = hl - q.len();
    let mut i: usize = 0;
    while i <= last
        invariant
            hl == h@.len(),
            q@.len() <= h@.len(),
            last == h@.len() - q@.len(),
            0 <= i <= last,
            forall|k: int| 0 <= k < i ==> !#[trigger] matches_at(h@, q@, k),
        decreases last + 1 - i,
    {
        let mut j: usize = 0;
        let mut same = true;
        while j < q.len()
            invariant
                hl == h@.len(),
                q@.len() <= h@.len(),
                i <= last,
                last == h@.len() - q@.len(),
                0 <= j <= q@.len(),
                same == forall|m: int| 0 <= m < j ==> fold(#[trigger] h@[i + m]) == fold(q@[m]),
            decreases q@.len() - j,
        {
            if folded(h[i + j]) != folded(q[j]) {
                same = false;
            }
            j = j + 1;
        }
        if same {
            assert(matches_at(h@, q@, i as int));
            return true;
        }
        assert(!matches_at(h@, q@, i as int)) by {
            let m = choose|m: int| 0 <= m < q@.len() && fold(#[trigger] h@[i + m]) != fold(q@[m]);
        }
        if i == last {
            proof {
                assert forall|k: int| 0 <= k && k + q@.len() <= h@.len() implies !#[trigger] matches_at(h@, q@, k) by {}
            }
            return false;
        }
        i = i + 1;
    }
    false
}

/// The event observed artifact `a` at its version.
pub open spec fn observes(e: EventRecord, a: ArtifactRef) -> bool {
    exists|i: int| 0 <= i < e.artifacts@.len() && (#[trigger] e.artifacts@[i]).path@ == a.path@
        && e.artifacts@[i].version@ == a.version@
}

fn observes_artifact(e: &EventRecord, a: &ArtifactRef) -> (r: bool)
    ensures
        r == observes(*e, *a),
{
    let mut i: usize = 0;
    while i < e.artifacts.len()
        invariant
            0 <= i <= e.artifacts@.len(),
            forall|k: int| 0 <= k < i ==> !((#[trigger] e.artifacts@[k]).path@ == a.path@
                && e.artifacts@[k].version@ == a.version@),
        decreases e.artifacts@.len() - i,
    {
        if e.artifacts[i].path == a.path && e.artifacts[i].version == a.version {
            return true;
        }
        i = i + 1;
    }
    false
}

/// The logged event answers the request: visible, after the request's cursor and not
/// after its closing cursor, of the requested run, kind, artifact and identifiers, and
/// holding the requested text, ignoring ASCII case.
pub open spec fn answers(log: Seq<EventRow>, row: EventRow, grant: Grant, request: EvidenceRequest, activity: Reading) -> bool {
    &&& visible(row.event, grant, activity)
    &&& row.cursor > cursor_bound(request.cursor@)
    &&& (request.through_cursor matches Some(t) ==> row.cursor <= cursor_bound(t@))
    &&& (request.run_id matches Some(r) ==> row.event.run_id@ == r@)
    &&& (request.kind matches Some(k) ==> row.event.kind@ == k@)
    &&& (request.artifact matches Some(a) ==> observes(row.event, a))
    &&& (request.query matches Some(q) ==> contains_folded(encode_utf8(row.event.body@), encode_utf8(q@)))
    &&& (request.event_refs matches Some(refs) ==> selected_by(log, row.event, refs@, request.neighbors == Some(true)))
}

/// The logged events that answer the request, in log order.
pub open spec fn answering(log: Seq<EventRow>, rows: Seq<EventRow>, grant: Grant, request: EvidenceRequest, activity: Reading)
    -> Seq<EventRow>
    decreases rows.len(),
{
    if rows.len() == 0 {
        Seq::empty()
    } else {
        let before = answering(log, rows.drop_last(), grant, request, activity);
        if answers(log, rows.last(), grant, request, activity) { before.push(rows.last()) } else { before }
    }
}

/// The serialized size of the events, in bytes.
pub open spec fn page_bytes(rows: Seq<EventRow>) -> nat
    decreases rows.len(),
{
    if rows.len() == 0 { 0 } else { page_bytes(rows.drop_last()) + (byte_len(rows.last().event.body@) as nat) }
}

/// The bytes of event bodies one page may carry: half a frame.
pub open spec fn page_budget() -> nat {
    (MAX_FRAME / 2) as nat
}

/// A page takes the first `n` answering events: no more than the request's limit nor
/// than fit the page budget, and it stops only at the limit, at the end of the
/// answering events, or before an event that would overflow the budget.
pub open spec fn page_length(s: Seq<EventRow>, limit: nat, n: nat) -> bool {
    &&& n <= s.len()
    &&& n <= limit
    &&& page_bytes(s.take(n as int)) <= page_budget()
    &&& (n == s.len() || n == limit || page_bytes(s.take(n as int)) + byte_len(s[n as int].event.body@) > page_budget())
}

/// Some event of the log with identifier `id` is visible to the grant.
pub open spec fn has_visible_id(rows: Seq<EventRow>, grant: Grant, activity: Reading, id: Seq<char>) -> bool {
    exists|i: int| 0 <= i < rows.len() && (#[trigger] rows[i]).event.id@ == id && visible(rows[i].event, grant, activity)
}

/// Some event of the log of run `run` is visible to the grant.
pub open spec fn has_visible_run(rows: Seq<EventRow>, grant: Grant, activity: Reading, run: Seq<char>) -> bool {
    exists|i: int| 0 <= i < rows.len() && (#[trigger] rows[i]).event.run_id@ == run && visible(rows[i].event, grant, activity)
}

/// A page of evidence: the events in log order, and the cursor to continue from.
#[derive(Debug)]
pub struct EvidencePage {
    pub events: Vec<EventRecord>,
    pub cursor: String,
}

impl Store {
    /// The outcome of reading a page of evidence for `grant`, with `activity` the run
    /// whose own conversation and compactions stay out of it. Cursors must be decimal
    /// counters; a grant confined to a discovery corpus reads only the corpus's events,
    /// and its corpus must be registered; neighbor selection needs explicit identifiers;
    /// each selected identifier, and the requested run, must have a visible event. The page then
    /// holds the first answering events in log order, as `page_length` bounds them, and
    /// continues from the last of them, or from the request's cursor when it is empty.
    pub open spec fn evidence_post(self, grant: Grant, request: EvidenceRequest, activity: Option<Seq<char>>,
        r: Result<EvidencePage>) -> bool {
        let rows = self.events@;
        let reader = (activity, self.corpus_events(grant));
        if !is_counter(request.cursor@) {
            r matches Err(e) && e.code == INVALID
        } else if request.through_cursor matches Some(t) && !is_counter(t@) {
            r matches Err(e) && e.code == INVALID
        } else if self.corpus_missing(grant) {
            r matches Err(e) && e.code == MISSING
        } else if request.neighbors == Some(true) && request.event_refs is None {
            r matches Err(e) && e.code == INVALID
        } else if request.event_refs matches Some(refs) && exists|i: int| 0 <= i < refs@.len()
            && !has_visible_id(rows, grant, reader, (#[trigger] refs@[i])@) {
            r matches Err(e) && e.code == MISSING
        } else if request.run_id matches Some(run) && !has_visible_run(rows, grant, reader, run@) {
            r matches Err(e) && e.code == MISSING
        } else {
            r matches Ok(page) && {
                let s = answering(rows, rows, grant, request, reader);
                let n = page.events@.len();
                &&& page_length(s, request.limit as nat, n)
                &&& forall|k: int| 0 <= k < n ==> same_event(#[trigger] page.events@[k], s[k].event)
                &&& page.cursor@ == decimal_repr(if n == 0 { cursor_bound(request.cursor@) } else { s[n - 1].cursor as nat })
            }
        }
    }
}

fn text_in(v: &Vec<String>, s: &String) -> (r: bool)
    ensures
        r == texts(v@).contains(s@),
{
    let mut i: usize = 0;
    while i < v.len()
        invariant
            0 <= i <= v@.len(),
            forall|k: int| 0 <= k < i ==> (#[trigger] v@[k])@ != s@,
        decreases v@.len() - i,
    {
        if v[i] == *s {
            proof {
                assert(texts(v@)[i as int] == s@);
            }
            return true;
        }
        i = i + 1;
    }
    proof {
        if texts(v@).contains(s@) {
            let k = choose|k: int| 0 <= k < texts(v@).len() && texts(v@)[k] == s@;
            assert(v@[k]@ == s@);
        }
    }
    false
}

fn split_in(v: &Vec<Split>, s: Split) -> (r: bool)
    ensures
        r == v@.contains(s),
{
    let mut i: usize = 0;
    while i < v.len()
        invariant
            0 <= i <= v@.len(),
            forall|k: int| 0 <= k < i ==> #[trigger] v@[k] != s,
        decreases v@.len() - i,
    {
        if v[i] == s {
            return true;
        }
        i = i + 1;
    }
    false
}

fn activity_producer(p: &String) -> (r: bool)
    ensures
        r == is_activity_producer(p@),
{
    let agent = "pi-agent".to_owned();
    let compactor = "pi-compactor".to_owned();
    *p == agent || *p == compactor
}

/// The events of a corpus, as a reader sees them.
pub open spec fn corpus_view(corpus: Option<&Vec<String>>) -> Option<Seq<String>> {
    match corpus {
        Some(v) => Some(v@),
        None => None,
    }
}

fn is_visible(e: &EventRecord, grant: &Grant, activity: &Option<String>, corpus: Option<&Vec<String>>) -> (r: bool)
    ensures
        r == visible(*e, *grant, (opt_text(*activity), corpus_view(corpus))),
{
    let listed = match corpus {
        Some(events) => text_in(events, &e.id),
        None => true,
    };
    let hidden = match activity {
        Some(a) => e.run_id == *a && activity_producer(&e.producer),
        None => false,
    };
    e.scope.client == grant.scope.client && e.scope.project == grant.scope.project
        && split_in(&grant.visible_splits, e.split) && !hidden && listed
}

fn bounded_cursor(s: &String) -> (r: Result<u64>)
    ensures
        r matches Ok(n) ==> is_counter(s@) && n == cursor_bound(s@),
        r matches Err(e) ==> !is_counter(s@) && e.code == INVALID,
{
    let n = match counter(s.as_str()) {
        Ok(n) => n,
        Err(e) => return Err(e),
    };
    if n <= 9223372036854775807u64 { Ok(n) } else { Ok(9223372036854775807u64) }
}

proof fn lemma_answering_step(log: Seq<EventRow>, rows: Seq<EventRow>, i: int, grant: Grant, request: EvidenceRequest, activity: Reading)
    requires
        0 <= i < rows.len(),
    ensures
        answering(log, rows.take(i + 1), grant, request, activity) == if answers(log, rows[i], grant, request, activity) {
            answering(log, rows.take(i), grant, request, activity).push(rows[i])
        } else {
            answering(log, rows.take(i), grant, request, activity)
        },
{
    assert(rows.take(i + 1).drop_last() =~= rows.take(i));
}

/// The events answering among the first `i` logged events lead those answering among
/// all of them.
proof fn lemma_answering_prefix(log: Seq<EventRow>, rows: Seq<EventRow>, i: int, grant: Grant, request: EvidenceRequest, activity: Reading)
    requires
        0 <= i <= rows.len(),
    ensures
        answering(log, rows.take(i), grant, request, activity).len() <= answering(log, rows, grant, request, activity).len(),
        answering(log, rows.take(i), grant, request, activity) == answering(log, rows, grant, request, activity).take(
            answering(log, rows.take(i), grant, request, activity).len() as int),
    decreases rows.len() - i,
{
    let s = answering(log, rows, grant, request, activity);
    if i == rows.len() {
        assert(rows.take(i) =~= rows);
        assert(s.take(s.len() as int) =~= s);
    } else {
        lemma_answering_prefix(log, rows, i + 1, grant, request, activity);
        lemma_answering_step(log, rows, i, grant, request, activity);
        let a = answering(log, rows.take(i), grant, request, activity);
        let b = answering(log, rows.take(i + 1), grant, request, activity);
        assert(a =~= s.take(a.len() as int));
    }
}

proof fn lemma_page_bytes_push(out: Seq<EventRow>, row: EventRow)
    ensures
        page_bytes(out.push(row)) == page_bytes(out) + byte_len(row.event.body@),
{
    assert(out.push(row).drop_last() =~= out);
}

impl Store {
    fn has_visible(&self, grant: &Grant, activity: &Option<String>, corpus: Option<&Vec<String>>, id: &String,
        by_run: bool) -> (r: bool)
        ensures
            by_run ==> r == has_visible_run(self.events@, *grant, (opt_text(*activity), corpus_view(corpus)), id@),
            !by_run ==> r == has_visible_id(self.events@, *grant, (opt_text(*activity), corpus_view(corpus)), id@),
    {
        let mut i: usize = 0;
        while i < self.events.len()
            invariant
                0 <= i <= self.events@.len(),
                forall|k: int| 0 <= k < i ==> !({
                    let e = (#[trigger] self.events@[k]).event;
                    &&& (if by_run { e.run_id@ == id@ } else { e.id@ == id@ })
                    &&& visible(e, *grant, (opt_text(*activity), corpus_view(corpus)))
                }),
            decreases self.events@.len() - i,
        {
            let e = &self.events[i].event;
            let key = if by_run { e.run_id == *id } else { e.id == *id };
            if key && is_visible(e, grant, activity, corpus) {
                return true;
            }
            i = i + 1;
        }
        false
    }

    fn selects(&self, e: &EventRecord, refs: &Vec<String>, neighbors: bool) -> (r: bool)
        ensures
            r == selected_by(self.events@, *e, refs@, neighbors),
    {
        if text_in(refs, &e.id) {
            return true;
        }
        if !neighbors {
            return false;
        }
        let mut j: usize = 0;
        while j < self.events.len()
            invariant
                neighbors,
                0 <= j <= self.events@.len(),
                forall|k: int| 0 <= k < j ==> !(texts(refs@).contains((#[trigger] self.events@[k]).event.id@)
                    && texts(self.events@[k].event.parents@).contains(e.id@)),
            decreases self.events@.len() - j,
        {
            let seed = &self.events[j].event;
            if text_in(refs, &seed.id) && text_in(&seed.parents, &e.id) {
                proof {
                    assert(texts(refs@).contains(self.events@[j as int].event.id@)
                        && texts(self.events@[j as int].event.parents@).contains(e.id@));
                }
                return true;
            }
            j = j + 1;
        }
        let mut p: usize = 0;
        while p < e.parents.len()
            invariant
                neighbors,
                0 <= p <= e.parents@.len(),
                forall|k: int| 0 <= k < p ==> !texts(refs@).contains((#[trigger] e.parents@[k])@),
            decreases e.parents@.len() - p,
        {
            if text_in(refs, &e.parents[p]) {
                proof {
                    assert(texts(refs@).contains(e.parents@[p as int]@));
                }
                return true;
            }
            p = p + 1;
        }
        false
    }

    /// Reads a page of evidence for `grant`, as `evidence_post` states, with no run's
    /// activity left out.
    pub fn evidence(&self, grant: &Grant, request: &EvidenceRequest) -> (r: Result<EvidencePage>)
        requires
            self.wf(),
        ensures
            self.evidence_post(*grant, *request, None, r),
    {
        self.evidence_page(grant, request, &None)
    }

    /// Reads a page of evidence for `grant`, as `evidence_post` states, leaving out the
    /// conversation and compactions of the active run `activity`.
    pub fn evidence_page(&self, grant: &Grant, request: &EvidenceRequest, activity: &Option<String>)
        -> (r: Result<EvidencePage>)
        requires
            self.wf(),
        ensures
            self.evidence_post(*grant, *request, opt_text(*activity), r),
    {
        let after = match bounded_cursor(&request.cursor) {
            Ok(n) => n,
            Err(e) => return Err(e),
        };
        let through: Option<u64> = match &request.through_cursor {
            Some(t) => match bounded_cursor(t) {
                Ok(n) => Some(n),
                Err(e) => return Err(e),
            },
            None => None,
        };
        let corpus: Option<&Vec<String>> = match &grant.discovery_corpus {
            Some(c) => match self.find_corpus(&grant.scope, c) {
                Some(i) => Some(&self.corpora[i].event_refs),
                None => return Err(Error::missing("discovery corpus is not registered in this scope")),
            },
            None => None,
        };
        let ghost act = (opt_text(*activity), corpus_view(corpus));
        assert(act == (opt_text(*activity), self.corpus_events(*grant)));
        if request.neighbors == Some(true) && request.event_refs.is_none() {
            return Err(Error::invalid("neighbor selection requires explicit event_refs"));
        }
        match &request.event_refs {
            Some(refs) => {
                let mut j: usize = 0;
                while j < refs.len()
                    invariant
                        0 <= j <= refs@.len(),
                        act == (opt_text(*activity), corpus_view(corpus)),
                        act == (opt_text(*activity), self.corpus_events(*grant)),
                        !self.corpus_missing(*grant),
                        request.event_refs == Some(*refs),
                        is_counter(request.cursor@),
                        request.through_cursor matches Some(t) ==> is_counter(t@),
                        !(request.neighbors == Some(true) && request.event_refs is None),
                        forall|k: int| 0 <= k < j ==> has_visible_id(self.events@, *grant, act, (#[trigger] refs@[k])@),
                    decreases refs@.len() - j,
                {
                    if !self.has_visible(grant, activity, corpus, &refs[j], false) {
                        proof {
                            assert(!has_visible_id(self.events@, *grant, act, refs@[j as int]@));
                            let rs = request.event_refs->0;
                            assert(rs@[j as int] == refs@[j as int]);
                            assert(exists|k: int| 0 <= k < rs@.len()
                                && !has_visible_id(self.events@, *grant, act, (#[trigger] rs@[k])@));
                        }
                        return Err(Error::missing("selected source event is unavailable"));
                    }
                    j = j + 1;
                }
            },
            None => {},
        }
        match &request.run_id {
            Some(run) => {
                if !self.has_visible(grant, activity, corpus, run, true) {
                    return Err(Error::missing(
                        "No visible source events for this run_id; omit run_id to inspect all workflows in the granted scope"));
                }
            },
            None => {},
        }
        let ghost rows = self.events@;
        let ghost s = answering(rows, rows, *grant, *request, act);
        let budget: usize = MAX_FRAME / 2;
        let mut events: Vec<EventRecord> = Vec::new();
        let ghost mut out: Seq<EventRow> = Seq::empty();
        let mut bytes: usize = 0;
        let mut next: u64 = after;
        let mut i: usize = 0;
        assert(rows.take(0) =~= Seq::<EventRow>::empty());
        while i < self.events.len()
            invariant_except_break
                out == answering(rows, rows.take(i as int), *grant, *request, act),
            invariant
                act == (opt_text(*activity), corpus_view(corpus)),
                rows == self.events@,
                s == answering(rows, rows, *grant, *request, act),
                0 <= i <= rows.len(),
                after == cursor_bound(request.cursor@),
                request.through_cursor matches Some(t) ==> (through matches Some(tc) && tc == cursor_bound(t@)),
                request.through_cursor is None ==> through is None,
                out.len() <= request.limit,
                bytes == page_bytes(out),
                bytes <= budget,
                budget == page_budget(),
                events@.len() == out.len(),
                forall|k: int| 0 <= k < out.len() ==> same_event(#[trigger] events@[k], out[k].event),
                next == (if out.len() == 0 { after } else { out.last().cursor }),
            ensures
                i == rows.len() ==> out == answering(rows, rows.take(i as int), *grant, *request, act),
                i < rows.len() ==> page_length(s, request.limit as nat, out.len()),
                i < rows.len() ==> out == s.take(out.len() as int),
            decreases rows.len() - i,
        {
            let row = &self.events[i];
            let e = &row.event;
            let in_refs = match &request.event_refs {
                Some(refs) => self.selects(e, refs, request.neighbors == Some(true)),
                None => true,
            };
            let in_run = match &request.run_id {
                Some(run) => e.run_id == *run,
                None => true,
            };
            let in_kind = match &request.kind {
                Some(kind) => e.kind == *kind,
                None => true,
            };
            let in_artifact = match &request.artifact {
                Some(a) => observes_artifact(e, a),
                None => true,
            };
            let in_query = match &request.query {
                Some(q) => occurs_folded(e.body.as_str().as_bytes(), q.as_str().as_bytes()),
                None => true,
            };
            let in_window = match through {
                Some(t) => row.cursor <= t,
                None => true,
            };
            let answer = is_visible(e, grant, activity, corpus) && row.cursor > after && in_window && in_run && in_kind && in_artifact && in_query && in_refs;
            proof {
                lemma_answering_step(rows, rows, i as int, *grant, *request, act);
                assert(answer == answers(rows, rows[i as int], *grant, *request, act));
            }
            if answer {
                let size = e.body.as_str().len();
                proof {
                    lemma_answering_prefix(rows, rows, i as int + 1, *grant, *request, act);
                    lemma_answering_prefix(rows, rows, i as int, *grant, *request, act);
                    let next_out = answering(rows, rows.take(i as int + 1), *grant, *request, act);
                    assert(next_out == out.push(rows[i as int]));
                    assert(next_out.len() == out.len() + 1);
                    assert(next_out == s.take(next_out.len() as int));
                    assert(s.take(out.len() as int + 1)[out.len() as int] == s[out.len() as int]);
                    assert(s[out.len() as int] == rows[i as int]);
                }
                if events.len() as u64 >= request.limit as u64 {
                    break;
                }
                if size > budget - bytes {
                    break;
                }
                proof {
                    lemma_page_bytes_push(out, rows[i as int]);
                    out = out.push(rows[i as int]);
                }
                bytes = bytes + size;
                next = row.cursor;
                events.push(e.copy());
            }
            i = i + 1;
        }
        proof {
            if i == rows.len() {
                assert(rows.take(i as int) =~= rows);
                assert(s.take(s.len() as int) =~= s);
            }
        }
        Ok(EvidencePage { events, cursor: decimal_string(next) })
    }
}

} // verus!
