//! A run's retained context: its segments and items, the summaries that compact them,
//! the sources they draw on, and cursors into them.

use vstd::prelude::*;
use crate::contracts::{ContextSourceKind, ContextState, Freshness};
use crate::decimal::{counter, decimal_value, is_counter, signed_decimal_string, signed_repr};
use crate::error::{Error, Result, DENIED, INVALID};
use crate::store::Store;

verus! {

/// Reads a context cursor: a decimal counter that fits a signed 64-bit integer.
pub fn cursor(value: &str) -> (r: Result<i64>)
    ensures
        is_counter(value@) && decimal_value(value@) <= i64::MAX ==> (r matches Ok(n) && n == decimal_value(value@)),
        !(is_counter(value@) && decimal_value(value@) <= i64::MAX) ==> (r matches Err(e) && e.code == INVALID),
{
    let n = counter(value)?;
    if n > i64::MAX as u64 {
        return Err(Error::invalid("context cursor exceeds the signed 64-bit integer range"));
    }
    Ok(n as i64)
}

/// Who a retained context item came from.
#[derive(Clone, Copy, Debug, PartialEq, Eq, Structural)]
pub enum ContextItemKind {
    OwnerInstruction,
    Interpretation,
    ObservedEvidence,
}

/// A context segment of a run; a run starts a new segment when an earlier one can no
/// longer be continued.
#[derive(Debug)]
pub struct ContextSegment {
    pub id: String,
    pub run_id: String,
}

/// A retained message of a segment, at its position in the segment.
#[derive(Debug)]
pub struct ContextItem {
    pub segment_id: String,
    pub sequence: i64,
    pub kind: ContextItemKind,
    /// The bytes the item takes up in a provider request; observed evidence counts
    /// without its details.
    pub charged_bytes: u64,
}

/// A summary that compacts a segment through an item.
#[derive(Debug)]
pub struct ContextSummary {
    pub id: String,
    pub segment_id: String,
    pub through_sequence: i64,
    /// Committed, as opposed to prepared or since redacted.
    pub committed: bool,
}

/// A source that items of a segment draw on.
#[derive(Debug)]
pub struct ContextSourceEntry {
    pub segment_id: String,
    pub kind: ContextSourceKind,
    pub id: String,
}

/// A snapshot of an artifact that a source can pin.
#[derive(Debug)]
pub struct ArtifactSnapshot {
    pub id: String,
    pub freshness: Freshness,
    pub version: String,
    pub current_version: String,
}

/// The retained context of runs.
#[derive(Debug)]
pub struct ContextTables {
    pub segments: Vec<ContextSegment>,
    pub items: Vec<ContextItem>,
    pub summaries: Vec<ContextSummary>,
    pub sources: Vec<ContextSourceEntry>,
    pub snapshots: Vec<ArtifactSnapshot>,
}

impl ContextTables {
    /// Items are numbered from one, and the items of a segment are stored in the order
    /// of their numbers.
    pub open spec fn wf(self) -> bool {
        &&& forall|i: int| 0 <= i < self.items@.len() ==> 1 <= #[trigger] self.items@[i].sequence
        &&& forall|i: int, j: int| 0 <= i < j < self.items@.len()
            && #[trigger] self.items@[i].segment_id@ == #[trigger] self.items@[j].segment_id@
            ==> self.items@[i].sequence < self.items@[j].sequence
    }

    /// No retained context.
    pub fn new() -> (t: ContextTables)
        ensures
            t.wf(),
            t.segments@.len() == 0,
            t.items@.len() == 0,
            t.summaries@.len() == 0,
            t.sources@.len() == 0,
            t.snapshots@.len() == 0,
    {
        ContextTables {
            segments: Vec::new(),
            items: Vec::new(),
            summaries: Vec::new(),
            sources: Vec::new(),
            snapshots: Vec::new(),
        }
    }
}

/// The highest item number of the segment among the items, if it has any.
pub open spec fn last_sequence(items: Seq<ContextItem>, segment: Seq<char>) -> Option<int>
    decreases items.len(),
{
    if items.len() == 0 {
        None
    } else {
        let rest = last_sequence(items.drop_last(), segment);
        let it = items.last();
        if it.segment_id@ != segment {
            rest
        } else {
            match rest {
                Some(m) => if it.sequence > m { Some(it.sequence as int) } else { Some(m) },
                None => Some(it.sequence as int),
            }
        }
    }
}

/// The committed summary of the segment that reaches furthest (the first stored of
/// those that reach equally far), by its index.
pub open spec fn head_index(summaries: Seq<ContextSummary>, segment: Seq<char>) -> Option<int>
    decreases summaries.len(),
{
    if summaries.len() == 0 {
        None
    } else {
        let rest = head_index(summaries.drop_last(), segment);
        let k = summaries.len() - 1;
        let s = summaries[k];
        if !(s.segment_id@ == segment && s.committed) {
            rest
        } else {
            match rest {
                Some(m) => if s.through_sequence > summaries[m].through_sequence { Some(k) } else { Some(m) },
                None => Some(k),
            }
        }
    }
}

/// The bytes of the segment's opening owner instruction among the items.
pub open spec fn owner_bytes(items: Seq<ContextItem>, segment: Seq<char>) -> int
    decreases items.len(),
{
    if items.len() == 0 {
        0
    } else {
        let it = items.last();
        owner_bytes(items.drop_last(), segment) + if it.segment_id@ == segment && it.sequence == 1
            && it.kind == ContextItemKind::OwnerInstruction {
            it.charged_bytes as int
        } else {
            0
        }
    }
}

/// The bytes left for the tail once the owner's request, a bounded summary and framing
/// are set aside, given the owner's request takes `owner` bytes.
pub open spec fn tail_budget(owner: int) -> int {
    let left = 180_000 - (owner + 16 * 1024 + 2000);
    if left < 0 { 0 } else { left }
}

/// The segment's items taken newest first, from the first `n` stored items: the tail
/// keeps whole items while they fit `budget` bytes, and it begins after an item that is
/// not observed evidence, so that evidence stays with what prompted it. The result is
/// the number of the last item before the tail; `boundary` is the best cut so far, and
/// `bytes` what the items taken so far add up to. With no cut needed, it is zero.
pub open spec fn tail_walk(items: Seq<ContextItem>, segment: Seq<char>, n: nat, budget: int, bytes: int,
    boundary: Option<int>) -> int
    decreases n,
{
    if n == 0 {
        0
    } else {
        let it = items[n - 1];
        if it.segment_id@ != segment {
            tail_walk(items, segment, (n - 1) as nat, budget, bytes, boundary)
        } else {
            let total = bytes + it.charged_bytes;
            if total > budget && boundary is Some {
                boundary->0
            } else {
                let cut = if it.kind != ContextItemKind::ObservedEvidence {
                    Some(it.sequence - 1)
                } else {
                    boundary
                };
                tail_walk(items, segment, (n - 1) as nat, budget, total, cut)
            }
        }
    }
}

/// The bytes that the segment's items numbered above `b` take up.
pub open spec fn bytes_after(items: Seq<ContextItem>, segment: Seq<char>, b: int) -> int
    decreases items.len(),
{
    if items.len() == 0 {
        0
    } else {
        let it = items.last();
        bytes_after(items.drop_last(), segment, b) + if it.segment_id@ == segment && it.sequence > b {
            it.charged_bytes as int
        } else {
            0
        }
    }
}

/// The bytes that the segment's items stored at index `k` or later take up.
spec fn stored_from(items: Seq<ContextItem>, segment: Seq<char>, k: int) -> int
    decreases items.len(),
{
    if items.len() == 0 {
        0
    } else {
        let it = items.last();
        stored_from(items.drop_last(), segment, k) + if items.len() - 1 >= k && it.segment_id@ == segment {
            it.charged_bytes as int
        } else {
            0
        }
    }
}

/// The items of each segment are stored in the order of their numbers.
spec fn numbered_in_order(items: Seq<ContextItem>) -> bool {
    forall|i: int, j: int| 0 <= i < j < items.len()
        && #[trigger] items[i].segment_id@ == #[trigger] items[j].segment_id@
        ==> items[i].sequence < items[j].sequence
}

/// A cut of the tail before the item stored at `k`, numbered `b + 1`: the item is the
/// segment's and not observed evidence, and the tail from it fits `budget` unless no
/// later item of the segment could begin a tail.
spec fn cut_at(items: Seq<ContextItem>, segment: Seq<char>, budget: int, k: int, b: int) -> bool {
    &&& 0 <= k < items.len()
    &&& items[k].segment_id@ == segment
    &&& items[k].kind != ContextItemKind::ObservedEvidence
    &&& b == items[k].sequence - 1
    &&& (stored_from(items, segment, k) <= budget || forall|j: int| k < j < items.len()
        && (#[trigger] items[j]).segment_id@ == segment ==> items[j].kind == ContextItemKind::ObservedEvidence)
}

proof fn lemma_stored_from_none(items: Seq<ContextItem>, segment: Seq<char>, k: int)
    requires
        k >= items.len(),
    ensures
        stored_from(items, segment, k) == 0,
    decreases items.len(),
{
    if items.len() > 0 {
        lemma_stored_from_none(items.drop_last(), segment, k);
    }
}

proof fn lemma_stored_from_step(items: Seq<ContextItem>, segment: Seq<char>, k: int)
    requires
        0 <= k < items.len(),
    ensures
        stored_from(items, segment, k) == stored_from(items, segment, k + 1)
            + if items[k].segment_id@ == segment { items[k].charged_bytes as int } else { 0 },
    decreases items.len(),
{
    let d = items.drop_last();
    if k == items.len() - 1 {
        lemma_stored_from_none(d, segment, k);
        lemma_stored_from_none(d, segment, k + 1);
    } else {
        assert(d[k] == items[k]);
        lemma_stored_from_step(d, segment, k);
    }
}

proof fn lemma_bytes_after_none(items: Seq<ContextItem>, segment: Seq<char>, b: int)
    requires
        forall|j: int| 0 <= j < items.len() && (#[trigger] items[j]).segment_id@ == segment ==> items[j].sequence <= b,
    ensures
        bytes_after(items, segment, b) == 0,
    decreases items.len(),
{
    if items.len() > 0 {
        let d = items.drop_last();
        assert forall|j: int| 0 <= j < d.len() && (#[trigger] d[j]).segment_id@ == segment implies d[j].sequence <= b by {
            assert(d[j] == items[j]);
        }
        assert(items.last() == items[items.len() - 1]);
        lemma_bytes_after_none(d, segment, b);
    }
}

/// In stored order, the items numbered from that of the item stored at `k` on are those
/// stored from `k` on.
proof fn lemma_bytes_after_stored(items: Seq<ContextItem>, segment: Seq<char>, k: int)
    requires
        numbered_in_order(items),
        0 <= k < items.len(),
        items[k].segment_id@ == segment,
    ensures
        bytes_after(items, segment, items[k].sequence - 1) == stored_from(items, segment, k),
    decreases items.len(),
{
    let d = items.drop_last();
    let n = items.len() - 1;
    assert(items.last() == items[n]);
    if k == n {
        assert forall|j: int| 0 <= j < d.len() && (#[trigger] d[j]).segment_id@ == segment
            implies d[j].sequence <= items[k].sequence - 1 by {
            assert(d[j] == items[j]);
        }
        lemma_bytes_after_none(d, segment, items[k].sequence - 1);
        lemma_stored_from_none(d, segment, k);
    } else {
        assert(d[k] == items[k]);
        assert(numbered_in_order(d)) by {
            assert forall|i: int, j: int| 0 <= i < j < d.len()
                && #[trigger] d[i].segment_id@ == #[trigger] d[j].segment_id@
                implies d[i].sequence < d[j].sequence by {
                assert(d[i] == items[i] && d[j] == items[j]);
            }
        }
        lemma_bytes_after_stored(d, segment, k);
    }
}

/// The cut the walk holds after taking the items stored from `n` on: the cut before the
/// oldest item taken that is not observed evidence.
spec fn pending_cut(items: Seq<ContextItem>, segment: Seq<char>, budget: int, n: int, k: int, b: int) -> bool {
    &&& n <= k
    &&& cut_at(items, segment, budget, k, b)
    &&& forall|j: int| n <= j < k && (#[trigger] items[j]).segment_id@ == segment
        ==> items[j].kind == ContextItemKind::ObservedEvidence
}

/// A cut after which no older cut would fit `budget`.
spec fn longest_cut(items: Seq<ContextItem>, segment: Seq<char>, budget: int, k: int, b: int) -> bool {
    &&& cut_at(items, segment, budget, k, b)
    &&& forall|j: int| 0 <= j < k && (#[trigger] items[j]).segment_id@ == segment
        && items[j].kind != ContextItemKind::ObservedEvidence ==> stored_from(items, segment, j) > budget
}

proof fn lemma_stored_from_monotone(items: Seq<ContextItem>, segment: Seq<char>, j: int, p: int)
    requires
        0 <= j <= p <= items.len(),
    ensures
        stored_from(items, segment, j) >= stored_from(items, segment, p),
    decreases p - j,
{
    if j < p {
        lemma_stored_from_step(items, segment, j);
        lemma_stored_from_monotone(items, segment, j + 1, p);
    }
}

/// What the walk from the `n` first stored items on returns: no cut, or a cut that
/// leaves a tail within `budget` unless it is the newest cut possible, and after which
/// no older cut would fit.
proof fn lemma_tail_walk_cut(items: Seq<ContextItem>, segment: Seq<char>, n: nat, budget: int, bytes: int,
    boundary: Option<int>)
    requires
        n <= items.len(),
        bytes == stored_from(items, segment, n as int),
        boundary is None ==> forall|j: int| n <= j < items.len() && (#[trigger] items[j]).segment_id@ == segment
            ==> items[j].kind == ContextItemKind::ObservedEvidence,
        boundary is Some ==> exists|k: int| #[trigger] pending_cut(items, segment, budget, n as int, k, boundary->0),
    ensures
        tail_walk(items, segment, n, budget, bytes, boundary) == 0
            || exists|k: int| #[trigger] longest_cut(items, segment, budget, k,
                tail_walk(items, segment, n, budget, bytes, boundary)),
    decreases n,
{
    if n > 0 {
        let m = (n - 1) as int;
        let n1: nat = (n - 1) as nat;
        let it = items[m];
        lemma_stored_from_step(items, segment, m);
        if it.segment_id@ != segment {
            if boundary is Some {
                let b = boundary->0;
                let k = choose|k: int| #[trigger] pending_cut(items, segment, budget, n as int, k, b);
                assert(pending_cut(items, segment, budget, n1 as int, k, b));
            }
            lemma_tail_walk_cut(items, segment, n1, budget, bytes, boundary);
        } else {
            let total = bytes + it.charged_bytes;
            if total > budget && boundary is Some {
                let b = boundary->0;
                let k = choose|k: int| #[trigger] pending_cut(items, segment, budget, n as int, k, b);
                assert forall|j: int| 0 <= j < k && (#[trigger] items[j]).segment_id@ == segment
                    && items[j].kind != ContextItemKind::ObservedEvidence
                    implies stored_from(items, segment, j) > budget by {
                    lemma_stored_from_monotone(items, segment, j, m);
                }
                assert(longest_cut(items, segment, budget, k, b));
            } else {
                let cut = if it.kind != ContextItemKind::ObservedEvidence {
                    Some(it.sequence - 1)
                } else {
                    boundary
                };
                if it.kind != ContextItemKind::ObservedEvidence {
                    assert(cut_at(items, segment, budget, m, it.sequence - 1));
                    assert(cut->0 == it.sequence - 1);
                    assert(pending_cut(items, segment, budget, n1 as int, m, cut->0));
                } else if boundary is Some {
                    let b = boundary->0;
                    let k = choose|k: int| #[trigger] pending_cut(items, segment, budget, n as int, k, b);
                    assert(cut->0 == b);
                    assert(pending_cut(items, segment, budget, n1 as int, k, cut->0));
                }
                lemma_tail_walk_cut(items, segment, n1, budget, total, cut);
            }
        }
    }
}

/// The retained tail leaves room in the provider window for the segment's opening owner
/// instruction, a bounded summary and framing: wherever the tail is cut and an older
/// item than the newest one that could begin it is kept, the items after the cut, the
/// owner instruction's bytes, 16 KiB of summary and 2000 bytes of framing fit within
/// 180000 bytes.
pub proof fn law_tail_leaves_room_for_owner(s: Store, segment: Seq<char>)
    requires
        s.contexts.wf(),
        exists|j: int| 0 <= j < s.contexts.items@.len() && (#[trigger] s.contexts.items@[j]).segment_id@ == segment
            && s.contexts.items@[j].kind != ContextItemKind::ObservedEvidence
            && s.contexts.items@[j].sequence > s.segment_tail(segment) + 1,
    ensures
        s.segment_tail(segment) == 0
            || bytes_after(s.contexts.items@, segment, s.segment_tail(segment)) == 0
            || bytes_after(s.contexts.items@, segment, s.segment_tail(segment)) + owner_bytes(s.contexts.items@, segment)
                + 16 * 1024 + 2000 <= 180_000,
{
    let items = s.contexts.items@;
    let budget = tail_budget(owner_bytes(items, segment));
    let r = s.segment_tail(segment);
    lemma_stored_from_none(items, segment, items.len() as int);
    lemma_tail_walk_cut(items, segment, items.len(), budget, 0, None);
    if r != 0 {
        let k = choose|k: int| #[trigger] longest_cut(items, segment, budget, k, r);
        let j = choose|j: int| 0 <= j < items.len() && (#[trigger] items[j]).segment_id@ == segment
            && items[j].kind != ContextItemKind::ObservedEvidence && items[j].sequence > r + 1;
        assert(numbered_in_order(items));
        if j <= k {
            if j < k {
                assert(items[j].sequence < items[k].sequence);
            }
        }
        assert(k < j);
        assert(stored_from(items, segment, k) <= budget);
        lemma_bytes_after_stored(items, segment, k);
        assert(stored_from(items, segment, k) >= 0) by {
            lemma_stored_from_nonneg(items, segment, k);
        }
    }
}

/// The retained tail is the longest that leaves that room: the tail could not begin at
/// any older item of the segment that is not observed evidence without the items from
/// it on, the owner instruction's bytes, 16 KiB of summary and 2000 bytes of framing
/// exceeding 180000 bytes.
pub proof fn law_tail_is_longest(s: Store, segment: Seq<char>, j: int)
    requires
        s.contexts.wf(),
        0 <= j < s.contexts.items@.len(),
        s.contexts.items@[j].segment_id@ == segment,
        s.contexts.items@[j].kind != ContextItemKind::ObservedEvidence,
        s.contexts.items@[j].sequence <= s.segment_tail(segment),
    ensures
        bytes_after(s.contexts.items@, segment, s.contexts.items@[j].sequence - 1) + owner_bytes(s.contexts.items@, segment)
            + 16 * 1024 + 2000 > 180_000,
{
    let items = s.contexts.items@;
    let owner = owner_bytes(items, segment);
    let budget = tail_budget(owner);
    let r = s.segment_tail(segment);
    lemma_stored_from_none(items, segment, items.len() as int);
    lemma_tail_walk_cut(items, segment, items.len(), budget, 0, None);
    assert(items[j].sequence >= 1);
    let k = choose|k: int| #[trigger] longest_cut(items, segment, budget, k, r);
    assert(numbered_in_order(items));
    if j >= k {
        if j > k {
            assert(items[k].sequence < items[j].sequence);
        }
    }
    assert(j < k);
    assert(stored_from(items, segment, j) > budget);
    lemma_bytes_after_stored(items, segment, j);
    lemma_owner_bytes_nonneg(items, segment);
}

proof fn lemma_owner_bytes_nonneg(items: Seq<ContextItem>, segment: Seq<char>)
    ensures
        owner_bytes(items, segment) >= 0,
    decreases items.len(),
{
    if items.len() > 0 {
        lemma_owner_bytes_nonneg(items.drop_last(), segment);
    }
}

/// The tail begins after an item that is not observed evidence: unless the whole
/// segment is retained, the item numbered one past the returned boundary is an item of
/// the segment and not observed evidence.
pub proof fn law_tail_begins_after_prompt(s: Store, segment: Seq<char>)
    requires
        s.contexts.wf(),
    ensures
        s.segment_tail(segment) == 0 || exists|k: int| 0 <= k < s.contexts.items@.len()
            && (#[trigger] s.contexts.items@[k]).segment_id@ == segment
            && s.contexts.items@[k].sequence == s.segment_tail(segment) + 1
            && s.contexts.items@[k].kind != ContextItemKind::ObservedEvidence,
{
    let items = s.contexts.items@;
    let budget = tail_budget(owner_bytes(items, segment));
    let r = s.segment_tail(segment);
    lemma_stored_from_none(items, segment, items.len() as int);
    lemma_tail_walk_cut(items, segment, items.len(), budget, 0, None);
    if r != 0 {
        let k = choose|k: int| #[trigger] longest_cut(items, segment, budget, k, r);
        assert(items[k].sequence == r + 1);
    }
}

/// The count of a segment is the number of its last item: no item of the segment is
/// numbered higher, some item is numbered so when the segment has items, and it is zero
/// when it has none.
pub proof fn law_count_is_last_number(items: Seq<ContextItem>, segment: Seq<char>)
    ensures
        forall|i: int| 0 <= i < items.len() && (#[trigger] items[i]).segment_id@ == segment
            ==> (last_sequence(items, segment) matches Some(m) && items[i].sequence <= m),
        last_sequence(items, segment) matches Some(m) ==> exists|i: int| 0 <= i < items.len()
            && (#[trigger] items[i]).segment_id@ == segment && items[i].sequence == m,
        last_sequence(items, segment) is None ==> forall|i: int| 0 <= i < items.len()
            ==> (#[trigger] items[i]).segment_id@ != segment,
    decreases items.len(),
{
    if items.len() > 0 {
        let d = items.drop_last();
        law_count_is_last_number(d, segment);
        let n = items.len() - 1;
        assert(items.last() == items[n]);
        assert forall|i: int| 0 <= i < n implies #[trigger] items[i] == d[i] by {}
        if let Some(m) = last_sequence(items, segment) {
            if last_sequence(d, segment) is Some && m == last_sequence(d, segment)->0 {
                let i = choose|i: int| 0 <= i < d.len() && (#[trigger] d[i]).segment_id@ == segment && d[i].sequence == m;
                assert(items[i] == d[i]);
            } else {
                assert(items[n].segment_id@ == segment && items[n].sequence == m);
            }
        }
    }
}

/// The summary head of a segment is a committed summary of the segment that reaches at
/// least as far as every other committed summary of the segment; there is none only
/// when the segment has no committed summary.
pub proof fn law_head_reaches_furthest(summaries: Seq<ContextSummary>, segment: Seq<char>)
    ensures
        head_index(summaries, segment) matches Some(k) ==> {
            &&& 0 <= k < summaries.len()
            &&& summaries[k].segment_id@ == segment
            &&& summaries[k].committed
            &&& forall|j: int| 0 <= j < summaries.len() && (#[trigger] summaries[j]).segment_id@ == segment
                && summaries[j].committed ==> summaries[j].through_sequence <= summaries[k].through_sequence
        },
        head_index(summaries, segment) is None ==> forall|j: int| 0 <= j < summaries.len()
            ==> !((#[trigger] summaries[j]).segment_id@ == segment && summaries[j].committed),
    decreases summaries.len(),
{
    if summaries.len() > 0 {
        let d = summaries.drop_last();
        law_head_reaches_furthest(d, segment);
        assert forall|j: int| 0 <= j < d.len() implies #[trigger] summaries[j] == d[j] by {}
    }
}

proof fn lemma_stored_from_nonneg(items: Seq<ContextItem>, segment: Seq<char>, k: int)
    ensures
        stored_from(items, segment, k) >= 0,
    decreases items.len(),
{
    if items.len() > 0 {
        lemma_stored_from_nonneg(items.drop_last(), segment, k);
    }
}

impl Store {
    /// The number of the segment's last item, zero for an empty segment.
    pub open spec fn segment_count(self, segment: Seq<char>) -> int {
        match last_sequence(self.contexts.items@, segment) {
            Some(m) => m,
            None => 0,
        }
    }

    /// The number of the last item before the segment's retained tail.
    pub open spec fn segment_tail(self, segment: Seq<char>) -> int {
        let items = self.contexts.items@;
        tail_walk(items, segment, items.len(), tail_budget(owner_bytes(items, segment)), 0, None)
    }

    /// A source of the segment pins an artifact snapshot that asks for the current
    /// version and the artifact has moved on since.
    pub open spec fn segment_stale(self, segment: Seq<char>) -> bool {
        let t = self.contexts;
        exists|i: int, j: int| 0 <= i < t.sources@.len() && 0 <= j < t.snapshots@.len()
            && (#[trigger] t.sources@[i]).segment_id@ == segment
            && t.sources@[i].kind == ContextSourceKind::Artifact
            && (#[trigger] t.snapshots@[j]).id@ == t.sources@[i].id@
            && t.snapshots@[j].freshness == Freshness::Current
            && t.snapshots@[j].version@ != t.snapshots@[j].current_version@
    }

    /// The segment belongs to the run.
    pub open spec fn owns_segment(self, run: Seq<char>, segment: Seq<char>) -> bool {
        exists|i: int| 0 <= i < self.contexts.segments@.len()
            && (#[trigger] self.contexts.segments@[i]).id@ == segment
            && self.contexts.segments@[i].run_id@ == run
    }

    /// The number of the segment's last item.
    pub fn context_count(&self, segment: &String) -> (r: Result<i64>)
        ensures
            r matches Ok(n) && n == self.segment_count(segment@),
    {
        let items = &self.contexts.items;
        let mut best: Option<i64> = None;
        let mut i: usize = 0;
        while i < items.len()
            invariant
                0 <= i <= items@.len(),
                items@ == self.contexts.items@,
                match best {
                    Some(m) => last_sequence(items@.subrange(0, i as int), segment@) == Some(m as int),
                    None => last_sequence(items@.subrange(0, i as int), segment@) is None,
                },
            decreases items@.len() - i,
        {
            proof {
                assert(items@.subrange(0, i + 1).drop_last() =~= items@.subrange(0, i as int));
            }
            let it = &items[i];
            if it.segment_id == *segment {
                best = match best {
                    Some(m) => if it.sequence > m { Some(it.sequence) } else { Some(m) },
                    None => Some(it.sequence),
                };
            }
            i = i + 1;
        }
        proof {
            assert(items@.subrange(0, items@.len() as int) =~= items@);
        }
        match best {
            Some(m) => Ok(m),
            None => Ok(0),
        }
    }

    /// The committed summary of the segment that reaches furthest, with the number of
    /// the last item it covers; among summaries that reach equally far, the first stored.
    pub fn summary_head(&self, segment: &String) -> (r: Result<Option<(String, i64)>>)
        ensures
            r matches Ok(o) && match head_index(self.contexts.summaries@, segment@) {
                Some(k) => o matches Some((id, through)) && id@ == self.contexts.summaries@[k].id@
                    && through == self.contexts.summaries@[k].through_sequence,
                None => o is None,
            },
    {
        let summaries = &self.contexts.summaries;
        let mut best: Option<usize> = None;
        let mut i: usize = 0;
        while i < summaries.len()
            invariant
                0 <= i <= summaries@.len(),
                summaries@ == self.contexts.summaries@,
                head_index(summaries@.subrange(0, i as int), segment@) == match best {
                    Some(k) => Some(k as int),
                    None => None::<int>,
                },
                best matches Some(k) ==> k < i,
            decreases summaries@.len() - i,
        {
            proof {
                let s = summaries@.subrange(0, i + 1);
                assert(s.drop_last() =~= summaries@.subrange(0, i as int));
                assert(s[i as int] == summaries@[i as int]);
                if best is Some {
                    assert(s[best->0 as int] == summaries@[best->0 as int]);
                }
            }
            let s = &summaries[i];
            if s.segment_id == *segment && s.committed {
                best = match best {
                    Some(k) => if s.through_sequence > summaries[k].through_sequence { Some(i) } else { Some(k) },
                    None => Some(i),
                };
            }
            i = i + 1;
        }
        proof {
            assert(summaries@.subrange(0, summaries@.len() as int) =~= summaries@);
        }
        match best {
            Some(k) => Ok(Some((summaries[k].id.clone(), summaries[k].through_sequence))),
            None => Ok(None),
        }
    }

    /// The number of the last item before the segment's retained tail: newest first,
    /// the tail keeps whole items while they fit what the owner's opening request
    /// leaves of the provider window, and begins only after an item that is not
    /// observed evidence. Zero when the whole segment fits.
    pub fn context_tail(&self, segment: &String) -> (r: Result<i64>)
        requires
            self.contexts.wf(),
        ensures
            r matches Ok(n) && n == self.segment_tail(segment@),
    {
        let items = &self.contexts.items;
        let ghost all = items@;
        let mut owner: u64 = 0;
        let mut i: usize = 0;
        while i < items.len()
            invariant
                0 <= i <= all.len(),
                all == items@,
                owner as int == if owner_bytes(all.subrange(0, i as int), segment@) > u64::MAX {
                    u64::MAX as int
                } else {
                    owner_bytes(all.subrange(0, i as int), segment@)
                },
                owner_bytes(all.subrange(0, i as int), segment@) >= 0,
            decreases all.len() - i,
        {
            proof {
                assert(all.subrange(0, i + 1).drop_last() =~= all.subrange(0, i as int));
            }
            let it = &items[i];
            if it.segment_id == *segment && it.sequence == 1 && it.kind == ContextItemKind::OwnerInstruction {
                owner = owner.saturating_add(it.charged_bytes);
            }
            i = i + 1;
        }
        proof {
            assert(all.subrange(0, all.len() as int) =~= all);
        }
        let budget: u64 = 180_000u64.saturating_sub(owner.saturating_add(16 * 1024 + 2000));
        let ghost limit = tail_budget(owner_bytes(all, segment@));
        assert(budget as int == limit);
        let mut bytes: u64 = 0;
        let ghost mut taken: int = 0;
        let mut boundary: Option<i64> = None;
        let mut n: usize = items.len();
        while n > 0
            invariant
                0 <= n <= all.len(),
                all == items@,
                items@ == self.contexts.items@,
                self.contexts.wf(),
                budget as int == limit,
                limit <= 180_000,
                taken >= 0,
                bytes as int == if taken > u64::MAX { u64::MAX as int } else { taken },
                self.segment_tail(segment@) == tail_walk(all, segment@, n as nat, limit, taken,
                    match boundary { Some(b) => Some(b as int), None => None::<int> }),
            decreases n,
        {
            let it = &items[n - 1];
            if it.segment_id == *segment {
                let total = bytes.saturating_add(it.charged_bytes);
                proof {
                    taken = taken + it.charged_bytes;
                }
                if total > budget {
                    if let Some(b) = boundary {
                        return Ok(b);
                    }
                }
                bytes = total;
                if it.kind != ContextItemKind::ObservedEvidence {
                    assert(1 <= self.contexts.items@[n - 1].sequence);
                    boundary = Some(it.sequence - 1);
                }
            }
            n = n - 1;
        }
        Ok(0)
    }

    /// No source of the segment pins a snapshot asking for the current version of an
    /// artifact that has moved on since.
    pub fn context_is_current(&self, segment: &String) -> (r: Result<bool>)
        ensures
            r matches Ok(b) && b == !self.segment_stale(segment@),
    {
        let t = &self.contexts;
        let mut i: usize = 0;
        while i < t.sources.len()
            invariant
                0 <= i <= t.sources@.len(),
                *t == self.contexts,
                forall|p: int, q: int| 0 <= p < i && 0 <= q < t.snapshots@.len() ==> !(
                    (#[trigger] t.sources@[p]).segment_id@ == segment@
                    && t.sources@[p].kind == ContextSourceKind::Artifact
                    && (#[trigger] t.snapshots@[q]).id@ == t.sources@[p].id@
                    && t.snapshots@[q].freshness == Freshness::Current
                    && t.snapshots@[q].version@ != t.snapshots@[q].current_version@),
            decreases t.sources@.len() - i,
        {
            let s = &t.sources[i];
            if s.segment_id == *segment && s.kind == ContextSourceKind::Artifact {
                let mut j: usize = 0;
                while j < t.snapshots.len()
                    invariant
                        0 <= i < t.sources@.len(),
                        0 <= j <= t.snapshots@.len(),
                        *t == self.contexts,
                        s.id@ == t.sources@[i as int].id@,
                        t.sources@[i as int].segment_id@ == segment@,
                        t.sources@[i as int].kind == ContextSourceKind::Artifact,
                        forall|q: int| 0 <= q < j ==> !(
                            (#[trigger] t.snapshots@[q]).id@ == t.sources@[i as int].id@
                            && t.snapshots@[q].freshness == Freshness::Current
                            && t.snapshots@[q].version@ != t.snapshots@[q].current_version@),
                    decreases t.snapshots@.len() - j,
                {
                    let a = &t.snapshots[j];
                    if a.id == s.id && a.freshness == Freshness::Current && a.version != a.current_version {
                        assert(self.segment_stale(segment@)) by {
                            assert(t.sources@[i as int].segment_id@ == segment@);
                            assert(t.snapshots@[j as int].id@ == t.sources@[i as int].id@);
                        }
                        return Ok(false);
                    }
                    j = j + 1;
                }
            }
            i = i + 1;
        }
        Ok(true)
    }

    /// Refuses a segment that does not belong to the run.
    pub fn require_context_owner(&self, run: &String, segment: &String) -> (r: Result<()>)
        ensures
            self.owns_segment(run@, segment@) ==> r is Ok,
            !self.owns_segment(run@, segment@) ==> (r matches Err(e) && e.code == DENIED),
    {
        let segments = &self.contexts.segments;
        let mut i: usize = 0;
        while i < segments.len()
            invariant
                0 <= i <= segments@.len(),
                segments@ == self.contexts.segments@,
                forall|k: int| 0 <= k < i ==> !((#[trigger] segments@[k]).id@ == segment@ && segments@[k].run_id@ == run@),
            decreases segments@.len() - i,
        {
            if segments[i].id == *segment && segments[i].run_id == *run {
                assert(segments@[i as int].id@ == segment@);
                return Ok(());
            }
            i = i + 1;
        }
        Err(Error::denied("context belongs to another run"))
    }
}

impl Store {
    /// The state of segment `segment` as a provider call sees it: its frontier, where its
    /// retained tail starts, its summary head, whether it was rebuilt, and the source
    /// generation `generation` of the grant's project it was authorized under.
    pub fn context_state(&self, segment: String, rebuilt: bool, generation: i64) -> (r: Result<ContextState>)
        requires
            self.contexts.wf(),
        ensures
            r matches Ok(st) && {
                &&& st.segment_id@ == segment@
                &&& st.count@ == signed_repr(self.segment_count(segment@))
                &&& st.tail_after@ == signed_repr(self.segment_tail(segment@))
                &&& st.generation@ == signed_repr(generation as int)
                &&& st.rebuilt == rebuilt
                &&& match head_index(self.contexts.summaries@, segment@) {
                    Some(k) => {
                        &&& st.summary_ref matches Some(id) && id@ == self.contexts.summaries@[k].id@
                        &&& st.summary_through matches Some(t)
                            && t@ == signed_repr(self.contexts.summaries@[k].through_sequence as int)
                    },
                    None => {
                        &&& st.summary_ref is None
                        &&& st.summary_through matches Some(t) && t@ == signed_repr(0)
                    },
                }
            },
    {
        let summary = self.summary_head(&segment)?;
        let count = self.context_count(&segment)?;
        let tail = self.context_tail(&segment)?;
        let (summary_ref, through) = match summary {
            Some((id, through)) => (Some(id), through),
            None => (None, 0),
        };
        Ok(ContextState {
            count: signed_decimal_string(count),
            tail_after: signed_decimal_string(tail),
            segment_id: segment,
            generation: signed_decimal_string(generation),
            rebuilt,
            summary_ref,
            summary_through: Some(signed_decimal_string(through)),
        })
    }
}

} // verus!
