//! Owner-side publication of an episode observed outside the host: its source memory,
//! the historical snapshots it projects, and its events, accepted together or not at
//! all.

use vstd::prelude::*;
use crate::attachments::byte_len;
use crate::compare::{opt_text, texts};
use crate::contracts::{ArtifactChunk, ArtifactRef, Freshness, Grant, Memory, Origin, RecordKind, Scope, Split};
use crate::decimal::{decimal_repr, decimal_string};
use crate::error::{Error, Result, CONFLICT, DENIED, EXHAUSTED, INVALID};
use crate::evidence::{first_identity, next_cursor, MAX_FRAME};
use crate::store::{EventRecord, EventRow, Store};
use crate::validity::same_scope;

verus! {

/// A source record kept for external evidence: its identifier and serialized body.
#[derive(Debug)]
pub struct SourceRecord {
    pub id: String,
    pub body: String,
}

/// A historical snapshot published in a scope, with its serialized body.
#[derive(Debug)]
pub struct SnapshotRecord {
    pub id: String,
    pub scope: Scope,
    pub body: String,
}

/// A logged event that cites a source record.
#[derive(Debug)]
pub struct SourceEdge {
    pub subject: String,
    pub source: String,
}

/// The tables of externally sourced evidence.
#[derive(Debug)]
pub struct ArchiveTables {
    pub records: Vec<SourceRecord>,
    pub snapshots: Vec<SnapshotRecord>,
    pub edges: Vec<SourceEdge>,
}

impl ArchiveTables {
    /// No external evidence.
    pub fn new() -> (t: ArchiveTables)
        ensures
            t.records@.len() == 0,
            t.snapshots@.len() == 0,
            t.edges@.len() == 0,
    {
        ArchiveTables { records: Vec::new(), snapshots: Vec::new(), edges: Vec::new() }
    }
}

/// The memory record an external episode is published from, as decoded: its identity,
/// scope, kind and version, whether it is retired, its provenance, the memory it holds,
/// and its serialized form.
#[derive(Debug)]
pub struct SourceMemory {
    pub id: String,
    pub scope: Scope,
    pub kind: RecordKind,
    pub version: String,
    pub retired: bool,
    pub origin: Origin,
    pub source_refs: Vec<String>,
    pub split: Split,
    pub memory: Memory,
    pub body: String,
}

/// A historical snapshot the episode projects, with its serialized form.
#[derive(Debug)]
pub struct ExternalSnapshot {
    pub chunk: ArtifactChunk,
    pub body: String,
}

/// An event of the episode, with its provenance and the authority its payload claims.
#[derive(Debug)]
pub struct ExternalEvent {
    pub event: EventRecord,
    pub origin: Origin,
    pub source_refs: Vec<String>,
    pub authority: Option<String>,
}

/// An episode observed outside the host; `bytes` is the size of its serialized form.
#[derive(Debug)]
pub struct ExternalEpisode {
    pub source: SourceMemory,
    pub snapshots: Vec<ExternalSnapshot>,
    pub events: Vec<ExternalEvent>,
    pub bytes: usize,
}

/// The largest external episode, in bytes.
pub const MAX_EPISODE_BYTES: usize = 33554432;

/// The most events one external episode may carry.
pub const MAX_EPISODE_EVENTS: usize = 4000;

/// The source is not an observed, independent memory the grant owns: it must be a live
/// memory record of the grant's scope at version one, observed, citing no source, in a
/// split the grant sees, for a grant that is not confined to a corpus.
pub open spec fn source_refused(grant: Grant, s: SourceMemory) -> bool {
    ||| !same_scope(s.scope, grant.scope)
    ||| s.kind != RecordKind::Memory
    ||| s.version@ != "1"@
    ||| s.retired
    ||| s.origin != Origin::Observed
    ||| s.source_refs@.len() > 0
    ||| !grant.visible_splits@.contains(s.split)
    ||| grant.discovery_corpus is Some
}

/// The memory stands on its own: it cites no evidence, conflicts or superseded records.
pub open spec fn independent(m: Memory) -> bool {
    m.evidence_refs@.len() == 0 && m.conflicts@.len() == 0 && m.supersedes@.len() == 0
}

/// The position of the source record `id`.
pub open spec fn record_index(records: Seq<SourceRecord>, id: Seq<char>) -> Option<int>
    decreases records.len(),
{
    if records.len() == 0 {
        None
    } else if records[0].id@ == id {
        Some(0)
    } else {
        match record_index(records.drop_first(), id) {
            Some(k) => Some(k + 1),
            None => None,
        }
    }
}

/// The number of logged events that cite the source `id`.
pub open spec fn edge_count(edges: Seq<SourceEdge>, id: Seq<char>) -> nat
    decreases edges.len(),
{
    if edges.len() == 0 {
        0
    } else {
        edge_count(edges.drop_last(), id) + if edges.last().source@ == id { 1nat } else { 0nat }
    }
}

/// The position of the stored snapshot `id`.
pub open spec fn snapshot_index(snapshots: Seq<SnapshotRecord>, id: Seq<char>) -> Option<int>
    decreases snapshots.len(),
{
    if snapshots.len() == 0 {
        None
    } else if snapshots[0].id@ == id {
        Some(0)
    } else {
        match snapshot_index(snapshots.drop_first(), id) {
            Some(k) => Some(k + 1),
            None => None,
        }
    }
}

/// The snapshot names the identity `id`.
pub open spec fn names(s: ExternalSnapshot, id: Seq<char>) -> bool {
    s.chunk.snapshot_id matches Some(x) && x@ == id
}

/// The refusal owed to snapshot `k` of the episode: it must name an identity no earlier
/// snapshot of the episode names, be a complete, granted, historical projection from
/// the start of the artifact, and agree with a stored snapshot of that identity.
pub open spec fn snapshot_fault(stored: Seq<SnapshotRecord>, grant: Grant, snaps: Seq<ExternalSnapshot>, k: int) -> Option<i32> {
    let s = snaps[k];
    let c = s.chunk;
    match c.snapshot_id {
        None => Some(INVALID),
        Some(id) => if (exists|j: int| 0 <= j < k && #[trigger] names(snaps[j], id@))
            || !texts(grant.paths@).contains(c.artifact.path@)
            || c.offset != 0
            || !c.eof
            || c.total_bytes@ != decimal_repr(byte_len(c.content@) as nat)
            || c.required_freshness != Some(Freshness::Historical) {
            Some(INVALID)
        } else {
            match snapshot_index(stored, id@) {
                Some(j) => if !same_scope(stored[j].scope, grant.scope) || stored[j].body@ != s.body@ {
                    Some(CONFLICT)
                } else {
                    None
                },
                None => None,
            }
        }
    }
}

/// The refusal owed to the first faulty snapshot among the first `n`.
pub open spec fn snapshots_fault(stored: Seq<SnapshotRecord>, grant: Grant, snaps: Seq<ExternalSnapshot>, n: int) -> Option<i32>
    decreases n,
{
    if n <= 0 {
        None
    } else {
        match snapshots_fault(stored, grant, snaps, n - 1) {
            Some(c) => Some(c),
            None => snapshot_fault(stored, grant, snaps, n - 1),
        }
    }
}

/// The snapshots of the episode that are not stored yet, as identity, scope and body,
/// in order.
pub open spec fn published(stored: Seq<SnapshotRecord>, snaps: Seq<ExternalSnapshot>) -> Seq<(Seq<char>, Seq<char>)>
    decreases snaps.len(),
{
    if snaps.len() == 0 {
        Seq::empty()
    } else {
        let before = published(stored, snaps.drop_last());
        let s = snaps.last();
        match s.chunk.snapshot_id {
            Some(id) => if snapshot_index(stored, id@) is None { before.push((id@, s.body@)) } else { before },
            None => before,
        }
    }
}

/// The event may join the episode: it is an external message of the grant's scope,
/// observed in the source's split, citing exactly the source, claiming the external
/// record's authority, and every artifact it names is a projected snapshot.
pub open spec fn event_acceptable(grant: Grant, source: SourceMemory, snaps: Seq<ExternalSnapshot>, x: ExternalEvent) -> bool {
    &&& same_scope(x.event.scope, grant.scope)
    &&& x.event.kind@ == "external_message"@
    &&& x.origin == Origin::Observed
    &&& x.event.split == source.split
    &&& texts(x.source_refs@) == seq![source.id@]
    &&& opt_text(x.authority) == Some("external_record"@)
    &&& forall|i: int| 0 <= i < x.event.artifacts@.len() ==> #[trigger] projected(snaps, x.event.artifacts@[i])
}

/// Some snapshot of the episode projects artifact `a` at its version.
pub open spec fn projected(snaps: Seq<ExternalSnapshot>, a: ArtifactRef) -> bool {
    exists|j: int| 0 <= j < snaps.len() && (#[trigger] snaps[j]).chunk.artifact.path@ == a.path@
        && snaps[j].chunk.artifact.version@ == a.version@
}

/// The event log after logging `e`, and whether it was new, or the refusal, as
/// `Store::ingest_post` states.
pub open spec fn ingest_rows(rows: Seq<EventRow>, e: EventRecord) -> core::result::Result<(Seq<EventRow>, bool), i32> {
    if byte_len(e.body@) > MAX_FRAME / 4 {
        Err(INVALID)
    } else {
        match first_identity(rows, e) {
            Some(i) => if rows[i].event.body@ == e.body@ { Ok((rows, false)) } else { Err(CONFLICT) },
            None => if next_cursor(rows) > u64::MAX {
                Err(EXHAUSTED)
            } else {
                Ok((rows.push(EventRow { cursor: next_cursor(rows) as u64, event: e }), true))
            },
        }
    }
}

/// Logging the episode's events in order: the log after them and the identifiers of
/// those that were new, or the first refusal.
pub open spec fn import_events(rows: Seq<EventRow>, grant: Grant, source: SourceMemory, snaps: Seq<ExternalSnapshot>,
    evs: Seq<ExternalEvent>) -> core::result::Result<(Seq<EventRow>, Seq<Seq<char>>), i32>
    decreases evs.len(),
{
    if evs.len() == 0 {
        Ok((rows, Seq::empty()))
    } else {
        match import_events(rows, grant, source, snaps, evs.drop_last()) {
            Err(c) => Err(c),
            Ok((r1, ids)) => {
                let x = evs.last();
                if !event_acceptable(grant, source, snaps, x) {
                    Err(INVALID)
                } else {
                    match ingest_rows(r1, x.event) {
                        Err(c) => Err(c),
                        Ok((r2, fresh)) => Ok((r2, if fresh { ids.push(x.event.id@) } else { ids })),
                    }
                }
            },
        }
    }
}

impl Store {
    /// The episode passes every check made before its events are logged.
    pub open spec fn import_ready(old: Store, grant: Grant, ep: ExternalEpisode) -> bool {
        let src = ep.source;
        &&& !source_refused(grant, src)
        &&& independent(src.memory)
        &&& !(ep.events@.len() == 0 || ep.events@.len() > MAX_EPISODE_EVENTS || ep.bytes > MAX_EPISODE_BYTES)
        &&& !(record_index(old.archive.records@, src.id@) matches Some(i) && old.archive.records@[i].body@ != src.body@)
        &&& !(record_index(old.archive.records@, src.id@) is Some && edge_count(old.archive.edges@, src.id@) != ep.events@.len())
        &&& snapshots_fault(old.archive.snapshots@, grant, ep.snapshots@, ep.snapshots@.len() as int) is None
    }

    /// Two ledgers hold the same rows but for events and external evidence.
    pub open spec fn same_but_import(a: Store, b: Store) -> bool {
        &&& a.grants@ == b.grants@
        &&& a.runs@ == b.runs@
        &&& a.allocations@ == b.allocations@
        &&& a.run_allocations@ == b.run_allocations@
        &&& a.permits@ == b.permits@
        &&& a.effects@ == b.effects@
        &&& a.work@ == b.work@
        &&& a.compactions@ == b.compactions@
        &&& a.attachments@ == b.attachments@
        &&& a.attachment_work@ == b.attachment_work@
        &&& a.feedback@ == b.feedback@
        &&& a.waits@ == b.waits@
        &&& a.contexts == b.contexts
        &&& a.messages@ == b.messages@
        &&& a.corpora@ == b.corpora@
        &&& a.validity == b.validity
    }

    /// The outcome of publishing an external episode for `grant`. The source must be an
    /// observed, independent memory the grant owns; the episode must hold between one
    /// and four thousand events and at most 32 MiB. A source already published must be
    /// the same record with as many events. Every snapshot must pass `snapshot_fault`
    /// and every event `event_acceptable` and logging; then the source record, the
    /// snapshots not yet stored and the new events are kept, each new event citing the
    /// source, and the number of new events is answered. Any refusal keeps nothing.
    pub open spec fn import_post(old: Store, new: Store, grant: Grant, ep: ExternalEpisode, r: Result<usize>) -> bool {
        let src = ep.source;
        let refused = |code: i32| r matches Err(e) && e.code == code && Store::same(new, old);
        if source_refused(grant, src) {
            refused(DENIED)
        } else if !independent(src.memory) {
            refused(INVALID)
        } else if ep.events@.len() == 0 || ep.events@.len() > MAX_EPISODE_EVENTS || ep.bytes > MAX_EPISODE_BYTES {
            refused(INVALID)
        } else if record_index(old.archive.records@, src.id@) matches Some(i)
            && old.archive.records@[i].body@ != src.body@ {
            refused(CONFLICT)
        } else if record_index(old.archive.records@, src.id@) is Some
            && edge_count(old.archive.edges@, src.id@) != ep.events@.len() {
            refused(CONFLICT)
        } else if snapshots_fault(old.archive.snapshots@, grant, ep.snapshots@, ep.snapshots@.len() as int) is Some {
            refused(snapshots_fault(old.archive.snapshots@, grant, ep.snapshots@, ep.snapshots@.len() as int)->0)
        } else {
            match import_events(old.events@, grant, src, ep.snapshots@, ep.events@) {
                Err(c) => refused(c),
                Ok((rows, ids)) => {
                    let olds = old.archive.snapshots@;
                    let news = new.archive.snapshots@;
                    &&& r == Ok::<usize, Error>(ids.len() as usize)
                    &&& new.events@ == rows
                    &&& Store::same_but_import(new, old)
                    &&& (if record_index(old.archive.records@, src.id@) is None {
                        &&& new.archive.records@.len() == old.archive.records@.len() + 1
                        &&& new.archive.records@.drop_last() == old.archive.records@
                        &&& new.archive.records@.last().id@ == src.id@
                        &&& new.archive.records@.last().body@ == src.body@
                    } else {
                        new.archive.records@ == old.archive.records@
                    })
                    &&& news.take(olds.len() as int) == olds
                    &&& news.len() == olds.len() + published(olds, ep.snapshots@).len()
                    &&& forall|k: int| 0 <= k < published(olds, ep.snapshots@).len() ==> {
                        let n = #[trigger] news[olds.len() + k];
                        &&& (n.id@, n.body@) == published(olds, ep.snapshots@)[k]
                        &&& same_scope(n.scope, grant.scope)
                    }
                    &&& new.archive.edges@.take(old.archive.edges@.len() as int) == old.archive.edges@
                    &&& new.archive.edges@.len() == old.archive.edges@.len() + ids.len()
                    &&& forall|k: int| 0 <= k < ids.len() ==> {
                        let edge = #[trigger] new.archive.edges@[old.archive.edges@.len() + k];
                        edge.subject@ == ids[k] && edge.source@ == src.id@
                    }
                },
            }
        }
    }
}

/// What `Store::ingest` does to the event log, as a function of the log.
proof fn lemma_ingest_rows(old: Store, new: Store, e: EventRecord, r: Result<bool>)
    requires
        Store::ingest_post(old, new, e, r),
    ensures
        match ingest_rows(old.events@, e) {
            Err(c) => r matches Err(x) && x.code == c && Store::same(new, old),
            Ok((rows, fresh)) => r == Ok::<bool, Error>(fresh) && new.events@ == rows
                && (if fresh { Store::same_but_events(new, old) } else { Store::same(new, old) }),
        },
{
}

fn text_member(v: &Vec<String>, s: &String) -> (r: bool)
    ensures
        r == texts(v@).contains(s@),
{
    let mut i: usize = 0;
    while i < v.len()
        invariant
            0 <= i <= v@.len(),
            forall|k: int| 0 <= k < i ==> (#[trigger] v@[k])@ != s@,
        decreases v@.len() - i,
    {
        if v[i] == *s {
            proof {
                assert(texts(v@)[i as int] == s@);
            }
            return true;
        }
        i = i + 1;
    }
    proof {
        if texts(v@).contains(s@) {
            let k = choose|k: int| 0 <= k < texts(v@).len() && texts(v@)[k] == s@;
            assert(v@[k]@ == s@);
        }
    }
    false
}

fn scopes_eq(a: &Scope, b: &Scope) -> (r: bool)
    ensures
        r == same_scope(*a, *b),
{
    a.client == b.client && a.project == b.project
}

fn acceptable(grant: &Grant, source: &SourceMemory, snaps: &Vec<ExternalSnapshot>, x: &ExternalEvent) -> (r: bool)
    ensures
        r == event_acceptable(*grant, *source, snaps@, *x),
{
    let message = "external_message".to_owned();
    let authority = "external_record".to_owned();
    if !scopes_eq(&x.event.scope, &grant.scope) || x.event.kind != message || x.origin != Origin::Observed
        || x.event.split != source.split {
        return false;
    }
    if x.source_refs.len() != 1 || x.source_refs[0] != source.id {
        proof {
            assert(texts(x.source_refs@).len() == x.source_refs@.len());
            if x.source_refs@.len() == 1 {
                assert(texts(x.source_refs@)[0] != seq![source.id@][0]);
            }
        }
        return false;
    }
    proof {
        assert(texts(x.source_refs@) =~= seq![source.id@]);
    }
    match &x.authority {
        Some(a) => if *a != authority {
            return false;
        },
        None => return false,
    }
    let mut i: usize = 0;
    while i < x.event.artifacts.len()
        invariant
            0 <= i <= x.event.artifacts@.len(),
            forall|k: int| 0 <= k < i ==> #[trigger] projected(snaps@, x.event.artifacts@[k]),
        decreases x.event.artifacts@.len() - i,
    {
        let a = &x.event.artifacts[i];
        let mut j: usize = 0;
        let mut found = false;
        while j < snaps.len() && !found
            invariant
                0 <= j <= snaps@.len(),
                found ==> projected(snaps@, *a),
                !found ==> forall|q: int| 0 <= q < j ==> !(#[trigger] snaps@[q].chunk.artifact.path@ == a.path@
                    && snaps@[q].chunk.artifact.version@ == a.version@),
            decreases snaps@.len() - j,
        {
            if snaps[j].chunk.artifact.path == a.path && snaps[j].chunk.artifact.version == a.version {
                found = true;
                proof {
                    assert(snaps@[j as int].chunk.artifact.path@ == a.path@);
                }
            }
            j = j + 1;
        }
        if !found {
            proof {
                assert(!projected(snaps@, x.event.artifacts@[i as int]));
            }
            return false;
        }
        i = i + 1;
    }
    proof {
        assert(i == x.event.artifacts@.len());
        assert(x.source_refs@.len() == 1 && x.source_refs@[0]@ == source.id@);
        assert(texts(x.source_refs@) =~= seq![source.id@]);
        assert(x.authority matches Some(a) && a@ == "external_record"@);
    }
    true
}

impl ArchiveTables {
    fn find_record(&self, id: &String) -> (r: Option<usize>)
        ensures
            match r {
                Some(i) => record_index(self.records@, id@) == Some(i as int) && i < self.records@.len(),
                None => record_index(self.records@, id@) is None,
            },
    {
        let mut i: usize = 0;
        assert(self.records@.subrange(0, self.records@.len() as int) =~= self.records@);
        while i < self.records.len()
            invariant
                0 <= i <= self.records@.len(),
                record_index(self.records@, id@) == match record_index(self.records@.subrange(i as int, self.records@.len() as int), id@) {
                    Some(k) => Some(k + i),
                    None => None::<int>,
                },
            decreases self.records@.len() - i,
        {
            let ghost rest = self.records@.subrange(i as int, self.records@.len() as int);
            assert(rest.drop_first() =~= self.records@.subrange(i + 1, self.records@.len() as int));
            if self.records[i].id == *id {
                return Some(i);
            }
            i = i + 1;
        }
        None
    }

    fn find_snapshot(&self, id: &String) -> (r: Option<usize>)
        ensures
            match r {
                Some(i) => snapshot_index(self.snapshots@, id@) == Some(i as int) && i < self.snapshots@.len(),
                None => snapshot_index(self.snapshots@, id@) is None,
            },
    {
        let mut i: usize = 0;
        assert(self.snapshots@.subrange(0, self.snapshots@.len() as int) =~= self.snapshots@);
        while i < self.snapshots.len()
            invariant
                0 <= i <= self.snapshots@.len(),
                snapshot_index(self.snapshots@, id@) == match snapshot_index(self.snapshots@.subrange(i as int, self.snapshots@.len() as int), id@) {
                    Some(k) => Some(k + i),
                    None => None::<int>,
                },
            decreases self.snapshots@.len() - i,
        {
            let ghost rest = self.snapshots@.subrange(i as int, self.snapshots@.len() as int);
            assert(rest.drop_first() =~= self.snapshots@.subrange(i + 1, self.snapshots@.len() as int));
            if self.snapshots[i].id == *id {
                return Some(i);
            }
            i = i + 1;
        }
        None
    }

    fn count_edges(&self, id: &String) -> (r: usize)
        ensures
            r == edge_count(self.edges@, id@),
    {
        let mut n: usize = 0;
        let mut i: usize = 0;
        assert(self.edges@.take(0) =~= Seq::<SourceEdge>::empty());
        while i < self.edges.len()
            invariant
                0 <= i <= self.edges@.len(),
                n == edge_count(self.edges@.take(i as int), id@),
                n <= i,
            decreases self.edges@.len() - i,
        {
            proof {
                assert(self.edges@.take(i as int + 1).drop_last() =~= self.edges@.take(i as int));
            }
            if self.edges[i].source == *id {
                n = n + 1;
            }
            i = i + 1;
        }
        proof {
            assert(self.edges@.take(self.edges@.len() as int) =~= self.edges@);
        }
        n
    }

    /// The refusal owed to the first faulty snapshot of the episode, if any.
    fn snapshot_refusal(&self, grant: &Grant, snaps: &Vec<ExternalSnapshot>) -> (r: Option<i32>)
        ensures
            r == snapshots_fault(self.snapshots@, *grant, snaps@, snaps@.len() as int),
    {
        let mut k: usize = 0;
        while k < snaps.len()
            invariant
                0 <= k <= snaps@.len(),
                snapshots_fault(self.snapshots@, *grant, snaps@, k as int) is None,
            decreases snaps@.len() - k,
        {
            let c = &snaps[k].chunk;
            let fault: Option<i32> = match &c.snapshot_id {
                None => Some(INVALID),
                Some(id) => {
                    let mut dup = false;
                    let mut j: usize = 0;
                    while j < k
                        invariant
                            0 <= j <= k < snaps@.len(),
                            dup == exists|q: int| 0 <= q < j && #[trigger] names(snaps@[q], id@),
                        decreases k - j,
                    {
                        let same = match &snaps[j].chunk.snapshot_id {
                            Some(other) => *other == *id,
                            None => false,
                        };
                        proof {
                            assert(same == names(snaps@[j as int], id@));
                        }
                        if same {
                            dup = true;
                        }
                        j = j + 1;
                    }
                    let total = decimal_string(c.content.as_str().len() as u64);
                    if dup || !text_member(&grant.paths, &c.artifact.path) || c.offset != 0 || !c.eof
                        || c.total_bytes != total || c.required_freshness != Some(Freshness::Historical) {
                        Some(INVALID)
                    } else {
                        match self.find_snapshot(id) {
                            Some(j) => if !scopes_eq(&self.snapshots[j].scope, &grant.scope) || self.snapshots[j].body != snaps[k].body {
                                Some(CONFLICT)
                            } else {
                                None
                            },
                            None => None,
                        }
                    }
                },
            };
            proof {
                assert(fault == snapshot_fault(self.snapshots@, *grant, snaps@, k as int));
            }
            if fault.is_some() {
                proof {
                    lemma_fault_stays(self.snapshots@, *grant, snaps@, k as int + 1, snaps@.len() as int);
                }
                return fault;
            }
            k = k + 1;
        }
        None
    }
}

fn split_listed(v: &Vec<Split>, s: Split) -> (r: bool)
    ensures
        r == v@.contains(s),
{
    let mut i: usize = 0;
    while i < v.len()
        invariant
            0 <= i <= v@.len(),
            forall|k: int| 0 <= k < i ==> #[trigger] v@[k] != s,
        decreases v@.len() - i,
    {
        if v[i] == s {
            return true;
        }
        i = i + 1;
    }
    false
}

fn refusal(code: i32) -> (e: Error)
    requires
        code == INVALID || code == CONFLICT,
    ensures
        e.code == code,
{
    if code == INVALID {
        Error::invalid("external snapshot must be a complete, granted historical projection")
    } else {
        Error::conflict("external snapshot identity has different content")
    }
}

impl Store {
    /// Publishes an external episode for `grant`, as `import_post` states, answering
    /// how many of its events were new.
    #[verifier::rlimit(60)]
    pub fn import_external_episode(&mut self, grant: &Grant, episode: ExternalEpisode) -> (r: Result<usize>)
        requires
            old(self).wf(),
        ensures
            final(self).wf(),
            Store::import_post(*old(self), *final(self), *grant, episode, r),
    {
        let ghost ep = episode;
        let ExternalEpisode { source, snapshots, events, bytes } = episode;
        let one = "1".to_owned();
        if !scopes_eq(&source.scope, &grant.scope) || source.kind != RecordKind::Memory || source.version != one
            || source.retired || source.origin != Origin::Observed || source.source_refs.len() > 0
            || !split_listed(&grant.visible_splits, source.split) || grant.discovery_corpus.is_some() {
            return Err(Error::denied("external episode requires an owner-scoped observed source memory"));
        }
        if source.memory.evidence_refs.len() > 0 || source.memory.conflicts.len() > 0 || source.memory.supersedes.len() > 0 {
            return Err(Error::invalid("external source memory must be an independent source"));
        }
        if events.len() == 0 || events.len() > MAX_EPISODE_EVENTS || bytes > MAX_EPISODE_BYTES {
            return Err(Error::invalid("external episode exceeds 4000 events or 32 MiB, or has no events"));
        }
        let existing = self.archive.find_record(&source.id);
        match existing {
            Some(i) => {
                if self.archive.records[i].body != source.body {
                    return Err(Error::conflict(
                        "external source identity already exists with different content or was withdrawn"));
                }
                if self.archive.count_edges(&source.id) != events.len() {
                    return Err(Error::conflict("external episode identity has a different message count"));
                }
            },
            None => {},
        }
        match self.archive.snapshot_refusal(grant, &snapshots) {
            Some(code) => {
                proof {
                    lemma_fault_codes(self.archive.snapshots@, *grant, snapshots@, snapshots@.len() as int);
                }
                return Err(refusal(code));
            },
            None => {},
        }
        // Which snapshots are new, judged against the stored ones.
        let mut fresh: Vec<bool> = Vec::new();
        let mut q: usize = 0;
        while q < snapshots.len()
            invariant
                0 <= q <= snapshots@.len(),
                fresh@.len() == q,
                forall|m: int| 0 <= m < q ==> (#[trigger] fresh@[m]) == (snapshots@[m].chunk.snapshot_id matches Some(id)
                    && snapshot_index(self.archive.snapshots@, id@) is None),
            decreases snapshots@.len() - q,
        {
            let f = match &snapshots[q].chunk.snapshot_id {
                Some(id) => self.archive.find_snapshot(id).is_none(),
                None => false,
            };
            fresh.push(f);
            q = q + 1;
        }
        // Log the events; any refusal leaves the log as it was.
        let ghost start = *self;
        let ghost evs0 = events@;
        assert(ep.source == source && ep.snapshots@ == snapshots@ && ep.events@ == evs0);
        assert(Store::import_ready(start, *grant, ep));
        let n = self.events.len();
        let mut ids: Vec<String> = Vec::new();
        let mut pending = events;
        let mut k: usize = 0;
        while pending.len() > 0
            invariant
                Store::import_ready(start, *grant, ep),
                start == *old(self),
                ep == episode,
                ep.source == source,
                ep.snapshots@ == snapshots@,
                ep.events@ == evs0,
                start.wf(),
                pending@ == evs0.skip(k as int),
                k <= evs0.len(),
                n == start.events@.len(),
                import_events(start.events@, *grant, source, snapshots@, evs0.take(k as int)) matches Ok((rows, got))
                    && rows == self.events@ && texts(ids@) == got,
                self.wf(),
                Store::same_but_events(*self, start),
                self.events@.len() >= n,
                self.events@.take(n as int) == start.events@,
            decreases pending@.len(),
        {
            let x = pending.remove(0);
            proof {
                assert(evs0.take(k as int + 1).drop_last() =~= evs0.take(k as int));
                assert(evs0.take(k as int + 1).last() == x);
            }
            if !acceptable(grant, &source, &snapshots, &x) {
                self.events.truncate(n);
                proof {
                    assert(self.events@ =~= start.events@);
                    assert(Store::same(*self, start));
                    crate::accounting::lemma_same_wf(start, *self);
                    lemma_import_fails(start.events@, *grant, source, snapshots@, evs0, k as int + 1);
                }
                return Err(Error::invalid(
                    "external events must cite their source and projected snapshots with external_record authority"));
            }
            let ExternalEvent { event, origin: _, source_refs: _, authority: _ } = x;
            let id = event.id.clone();
            let ghost before = *self;
            let ghost ev = event;
            match self.ingest(event) {
                Ok(fresh_event) => {
                    proof {
                        lemma_ingest_rows(before, *self, ev, Ok(fresh_event));
                    }
                    if fresh_event {
                        ids.push(id);
                        proof {
                            assert(texts(ids@) =~= texts(ids@.drop_last()).push(ev.id@));
                        }
                    }
                    proof {
                        assert(self.events@.take(n as int) =~= start.events@);
                    }
                },
                Err(e) => {
                    proof {
                        lemma_ingest_rows(before, *self, ev, Err(e));
                    }
                    self.events.truncate(n);
                    proof {
                        assert(self.events@ =~= start.events@);
                        assert(Store::same(*self, start));
                        crate::accounting::lemma_same_wf(start, *self);
                        lemma_import_fails(start.events@, *grant, source, snapshots@, evs0, k as int + 1);
                    }
                    return Err(e);
                },
            }
            k = k + 1;
        }
        proof {
            assert(evs0.take(k as int) =~= evs0);
        }
        let ghost got = texts(ids@);
        // Keep the source record, the new snapshots and the events' citations.
        let ghost mid = *self;
        match existing {
            None => {
                self.archive.records.push(SourceRecord { id: source.id.clone(), body: source.body.clone() });
            },
            Some(_) => {},
        }
        let ghost recs = self.archive.records@;
        proof {
            if existing is None {
                assert(recs.drop_last() =~= start.archive.records@);
            }
        }
        let ghost olds = start.archive.snapshots@;
        let mut q: usize = 0;
        assert(snapshots@.take(0) =~= Seq::<ExternalSnapshot>::empty());
        assert(self.archive.snapshots@.take(olds.len() as int) =~= olds);
        while q < snapshots.len()
            invariant
                Store::import_ready(start, *grant, ep),
                start == *old(self),
                ep == episode,
                ep.source == source,
                ep.snapshots@ == snapshots@,
                ep.events@ == evs0,
                import_events(start.events@, *grant, source, snapshots@, evs0) matches Ok((rows, g2))
                    && rows == mid.events@ && g2 == got,
                0 <= q <= snapshots@.len(),
                fresh@.len() == snapshots@.len(),
                forall|m: int| 0 <= m < snapshots@.len() ==> (#[trigger] fresh@[m]) == (snapshots@[m].chunk.snapshot_id matches Some(id)
                    && snapshot_index(olds, id@) is None),
                self.archive.snapshots@.take(olds.len() as int) == olds,
                self.archive.snapshots@.len() == olds.len() + published(olds, snapshots@.take(q as int)).len(),
                forall|m: int| 0 <= m < published(olds, snapshots@.take(q as int)).len() ==> {
                    let r = #[trigger] self.archive.snapshots@[olds.len() + m];
                    &&& (r.id@, r.body@) == published(olds, snapshots@.take(q as int))[m]
                    &&& same_scope(r.scope, grant.scope)
                },
                self.archive.records@ == recs,
                existing is None ==> recs.len() == start.archive.records@.len() + 1
                    && recs.drop_last() == start.archive.records@ && recs.last().id@ == source.id@
                    && recs.last().body@ == source.body@,
                existing is Some ==> recs == start.archive.records@,
                existing is None <==> record_index(start.archive.records@, source.id@) is None,
                self.archive.edges@ == start.archive.edges@,
                self.events@ == mid.events@,
                Store::same_but_events(mid, start),
                Store::same_but_import(*self, start),
            decreases snapshots@.len() - q,
        {
            let ghost before = self.archive.snapshots@;
            proof {
                assert(snapshots@.take(q as int + 1).drop_last() =~= snapshots@.take(q as int));
                assert(snapshots@.take(q as int + 1).last() == snapshots@[q as int]);
            }
            if fresh[q] {
                match &snapshots[q].chunk.snapshot_id {
                    Some(id) => {
                        self.archive.snapshots.push(SnapshotRecord {
                            id: id.clone(),
                            scope: grant.scope.clone(),
                            body: snapshots[q].body.clone(),
                        });
                        proof {
                            assert(self.archive.snapshots@.take(olds.len() as int) =~= olds);
                        }
                    },
                    None => {},
                }
            }
            q = q + 1;
        }
        proof {
            assert(snapshots@.take(snapshots@.len() as int) =~= snapshots@);
        }
        let mut e: usize = 0;
        assert(self.archive.edges@.take(start.archive.edges@.len() as int) =~= start.archive.edges@);
        while e < ids.len()
            invariant
                Store::import_ready(start, *grant, ep),
                start == *old(self),
                ep == episode,
                ep.source == source,
                ep.snapshots@ == snapshots@,
                ep.events@ == evs0,
                import_events(start.events@, *grant, source, snapshots@, evs0) matches Ok((rows, g2))
                    && rows == mid.events@ && g2 == got,
                0 <= e <= ids@.len(),
                got == texts(ids@),
                self.archive.edges@.take(start.archive.edges@.len() as int) == start.archive.edges@,
                self.archive.edges@.len() == start.archive.edges@.len() + e,
                forall|m: int| 0 <= m < e ==> {
                    let edge = #[trigger] self.archive.edges@[start.archive.edges@.len() + m];
                    edge.subject@ == got[m] && edge.source@ == source.id@
                },
                self.archive.snapshots@.take(olds.len() as int) == olds,
                self.archive.snapshots@.len() == olds.len() + published(olds, snapshots@).len(),
                forall|m: int| 0 <= m < published(olds, snapshots@).len() ==> {
                    let r = #[trigger] self.archive.snapshots@[olds.len() + m];
                    &&& (r.id@, r.body@) == published(olds, snapshots@)[m]
                    &&& same_scope(r.scope, grant.scope)
                },
                self.archive.records@ == recs,
                existing is None ==> recs.len() == start.archive.records@.len() + 1
                    && recs.drop_last() == start.archive.records@ && recs.last().id@ == source.id@
                    && recs.last().body@ == source.body@,
                existing is Some ==> recs == start.archive.records@,
                existing is None <==> record_index(start.archive.records@, source.id@) is None,
                self.events@ == mid.events@,
                Store::same_but_import(*self, start),
            decreases ids@.len() - e,
        {
            self.archive.edges.push(SourceEdge { subject: ids[e].clone(), source: source.id.clone() });
            proof {
                assert(self.archive.edges@.take(start.archive.edges@.len() as int) =~= start.archive.edges@);
                assert(got[e as int] == ids@[e as int]@);
            }
            e = e + 1;
        }
        proof {
            assert(self.wf()) by {
                assert(self.keys_unique());
            }
        }
        Ok(ids.len())
    }
}

/// A refusal of the first events is a refusal of them all.
proof fn lemma_import_fails(rows: Seq<EventRow>, grant: Grant, source: SourceMemory, snaps: Seq<ExternalSnapshot>,
    evs: Seq<ExternalEvent>, k: int)
    requires
        0 < k <= evs.len(),
        import_events(rows, grant, source, snaps, evs.take(k)) is Err,
    ensures
        import_events(rows, grant, source, snaps, evs) == import_events(rows, grant, source, snaps, evs.take(k)),
    decreases evs.len() - k,
{
    if k < evs.len() {
        assert(evs.take(k + 1).drop_last() =~= evs.take(k));
        lemma_import_fails(rows, grant, source, snaps, evs, k + 1);
    } else {
        assert(evs.take(k) =~= evs);
    }
}

/// A snapshot refusal is invalid or a conflict.
proof fn lemma_fault_codes(stored: Seq<SnapshotRecord>, grant: Grant, snaps: Seq<ExternalSnapshot>, n: int)
    ensures
        snapshots_fault(stored, grant, snaps, n) matches Some(c) ==> c == INVALID || c == CONFLICT,
    decreases n,
{
    if n > 0 {
        lemma_fault_codes(stored, grant, snaps, n - 1);
    }
}

/// Once a snapshot is faulty, the first fault stays the same.
proof fn lemma_fault_stays(stored: Seq<SnapshotRecord>, grant: Grant, snaps: Seq<ExternalSnapshot>, n: int, m: int)
    requires
        0 < n <= m,
        snapshots_fault(stored, grant, snaps, n) is Some,
    ensures
        snapshots_fault(stored, grant, snaps, m) == snapshots_fault(stored, grant, snaps, n),
    decreases m - n,
{
    if n < m {
        lemma_fault_stays(stored, grant, snaps, n, m - 1);
    }
}

} // verus!
