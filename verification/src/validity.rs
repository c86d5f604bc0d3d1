//! What the ledger knows of artifact validity in each scope: the validity clock, the
//! generation at which each path was last invalidated and whether it still is, the
//! declared dependencies between paths, the obligations declared on paths, and the
//! property validations that effects established.

use vstd::prelude::*;
use crate::contracts::{ArtifactRef, Grant, Scope, VersionRef};
use crate::compare::texts;
use crate::error::{Error, Result, EXHAUSTED};
use crate::compare::opt_text;

verus! {

/// The validity clock of a scope: the generation of its latest invalidation.
#[derive(Debug)]
pub struct ScopeClock {
    pub scope: Scope,
    pub generation: i64,
}

/// A path's invalidation: the generation at which it was last invalidated, and whether
/// that invalidation still stands.
#[derive(Debug)]
pub struct InvalidationMark {
    pub scope: Scope,
    pub path: String,
    pub generation: i64,
    pub invalidated: bool,
}

/// A declared dependency: `dependent` is derived from `source`.
#[derive(Debug)]
pub struct DependencyEdge {
    pub scope: Scope,
    pub source: String,
    pub dependent: String,
}

/// A live obligation record at `version`, declared on the paths `affected_outputs`.
#[derive(Debug)]
pub struct ObligationEntry {
    pub scope: Scope,
    pub id: String,
    pub version: String,
    pub affected_outputs: Vec<String>,
}

/// A property validation: operation `operation_id` validated obligation `obligation` on
/// `path` at `artifact_version`, with checks as of `generation`.
#[derive(Debug)]
pub struct PropertyRecord {
    pub scope: Scope,
    pub path: String,
    pub obligation: VersionRef,
    pub artifact_version: String,
    pub operation_id: String,
    pub generation: i64,
}

/// The validity tables of the ledger.
#[derive(Debug)]
pub struct ValidityTables {
    pub clocks: Vec<ScopeClock>,
    pub marks: Vec<InvalidationMark>,
    pub dependencies: Vec<DependencyEdge>,
    pub obligations: Vec<ObligationEntry>,
    pub properties: Vec<PropertyRecord>,
}

impl ValidityTables {
    /// No validity knowledge.
    pub fn new() -> (t: ValidityTables)
        ensures
            t.clocks@.len() == 0,
            t.marks@.len() == 0,
            t.dependencies@.len() == 0,
            t.obligations@.len() == 0,
            t.properties@.len() == 0,
    {
        ValidityTables {
            clocks: Vec::new(),
            marks: Vec::new(),
            dependencies: Vec::new(),
            obligations: Vec::new(),
            properties: Vec::new(),
        }
    }
}

/// Two scopes name the same client and project.
pub open spec fn same_scope(a: Scope, b: Scope) -> bool {
    a.client@ == b.client@ && a.project@ == b.project@
}

fn scope_eq(a: &Scope, b: &Scope) -> (r: bool)
    ensures
        r == same_scope(*a, *b),
{
    a.client == b.client && a.project == b.project
}

/// The position of the clock of `scope`.
pub open spec fn clock_index(clocks: Seq<ScopeClock>, scope: Scope) -> Option<int>
    decreases clocks.len(),
{
    if clocks.len() == 0 {
        None
    } else if same_scope(clocks[0].scope, scope) {
        Some(0)
    } else {
        match clock_index(clocks.drop_first(), scope) {
            Some(k) => Some(k + 1),
            None => None,
        }
    }
}

/// The position of the invalidation mark of `path` in `scope`.
pub open spec fn mark_index(marks: Seq<InvalidationMark>, scope: Scope, path: Seq<char>) -> Option<int>
    decreases marks.len(),
{
    if marks.len() == 0 {
        None
    } else if same_scope(marks[0].scope, scope) && marks[0].path@ == path {
        Some(0)
    } else {
        match mark_index(marks.drop_first(), scope, path) {
            Some(k) => Some(k + 1),
            None => None,
        }
    }
}

/// The edge is a dependency declared in `scope`.
pub open spec fn edge_in(e: DependencyEdge, scope: Scope) -> bool {
    same_scope(e.scope, scope)
}

/// `s` lists paths reached from `path` along the dependencies of `scope`, each once, each
/// the dependent of an edge from `path` or from a path listed before it (`edge` and
/// `via` name that edge and that earlier path, `-1` for `path` itself).
pub open spec fn derivation(deps: Seq<DependencyEdge>, scope: Scope, path: Seq<char>, s: Seq<String>,
    edge: Seq<int>, via: Seq<int>) -> bool {
    &&& edge.len() == s.len()
    &&& via.len() == s.len()
    &&& forall|k: int| 0 <= k < s.len() ==> {
        let e = #[trigger] edge[k];
        &&& 0 <= e < deps.len()
        &&& edge_in(deps[e], scope)
        &&& deps[e].dependent@ == s[k]@
        &&& (via[k] == -1 ==> deps[e].source@ == path)
        &&& (via[k] != -1 ==> 0 <= via[k] < k && deps[e].source@ == s[via[k]]@)
    }
}

/// The dependents of `path` in `scope`, as the ledger follows them: every path derived
/// from it, transitively, each once and in the order they are found, at most a
/// thousand; below that bound the list is closed under the scope's dependencies.
pub open spec fn dependents_of(deps: Seq<DependencyEdge>, scope: Scope, path: Seq<char>, s: Seq<String>) -> bool {
    &&& s.len() <= 1000
    &&& forall|i: int, j: int| 0 <= i < j < s.len() ==> (#[trigger] s[i])@ != (#[trigger] s[j])@
    &&& exists|edge: Seq<int>, via: Seq<int>| derivation(deps, scope, path, s, edge, via)
    &&& s.len() < 1000 ==> forall|e: int| 0 <= e < deps.len() && edge_in(#[trigger] deps[e], scope)
        && (deps[e].source@ == path || texts(s).contains(deps[e].source@)) ==> texts(s).contains(deps[e].dependent@)
}

fn listed_text(v: &Vec<String>, s: &String) -> (r: bool)
    ensures
        r == texts(v@).contains(s@),
{
    let mut i: usize = 0;
    while i < v.len()
        invariant
            0 <= i <= v@.len(),
            forall|k: int| 0 <= k < i ==> (#[trigger] v@[k])@ != s@,
        decreases v@.len() - i,
    {
        if v[i] == *s {
            proof {
                assert(texts(v@)[i as int] == s@);
            }
            return true;
        }
        i = i + 1;
    }
    proof {
        if texts(v@).contains(s@) {
            let k = choose|k: int| 0 <= k < texts(v@).len() && texts(v@)[k] == s@;
            assert(v@[k]@ == s@);
        }
    }
    false
}

impl ValidityTables {
    /// The dependents of `path` in `scope`, as `dependents_of` states.
    pub fn dependents(&self, scope: &Scope, path: &String) -> (r: Vec<String>)
        ensures
            dependents_of(self.dependencies@, *scope, path@, r@),
    {
        let deps = &self.dependencies;
        let mut s: Vec<String> = Vec::new();
        let ghost mut edge: Seq<int> = Seq::empty();
        let ghost mut via: Seq<int> = Seq::empty();
        let mut head: usize = 0;
        let mut full = false;
        while head <= s.len() && !full
            invariant
                deps@ == self.dependencies@,
                s@.len() <= 1000,
                full ==> s@.len() == 1000,
                0 <= head <= s@.len() + 1,
                forall|i: int, j: int| 0 <= i < j < s@.len() ==> (#[trigger] s@[i])@ != (#[trigger] s@[j])@,
                derivation(deps@, *scope, path@, s@, edge, via),
                forall|e: int| 0 <= e < deps@.len() && edge_in(#[trigger] deps@[e], *scope)
                    && ((head > 0 && deps@[e].source@ == path@)
                        || exists|j: int| 0 <= j < head - 1 && s@[j]@ == deps@[e].source@)
                    ==> (full || texts(s@).contains(deps@[e].dependent@)),
            decreases 1001 - s@.len(), s@.len() + 1 - head,
        {
            let source: String = if head == 0 { path.clone() } else { s[head - 1].clone() };
            let ghost done = s@;
            let mut i: usize = 0;
            while i < deps.len() && !full
                invariant
                    deps@ == self.dependencies@,
                    0 <= head <= done.len(),
                    source@ == (if head == 0 { path@ } else { done[head - 1]@ }),
                    s@.len() >= done.len(),
                    s@.len() <= 1000,
                    full ==> s@.len() == 1000,
                    s@.subrange(0, done.len() as int) == done,
                    0 <= i <= deps@.len(),
                    forall|a: int, b: int| 0 <= a < b < s@.len() ==> (#[trigger] s@[a])@ != (#[trigger] s@[b])@,
                    derivation(deps@, *scope, path@, s@, edge, via),
                    forall|e: int| 0 <= e < deps@.len() && edge_in(#[trigger] deps@[e], *scope)
                        && ((head > 0 && deps@[e].source@ == path@)
                            || exists|j: int| 0 <= j < head - 1 && s@[j]@ == deps@[e].source@)
                        ==> (full || texts(s@).contains(deps@[e].dependent@)),
                    forall|e: int| 0 <= e < i && edge_in(#[trigger] deps@[e], *scope) && deps@[e].source@ == source@
                        ==> (full || texts(s@).contains(deps@[e].dependent@)),
                decreases deps@.len() - i,
            {
                let d = &deps[i];
                if scope_eq(&d.scope, scope) && d.source == source && !listed_text(&s, &d.dependent) {
                    if s.len() >= 1000 {
                        full = true;
                    } else {
                        let ghost before = s@;
                        let ghost k = s@.len() as int;
                        s.push(d.dependent.clone());
                        let ghost old_edge = edge;
                        let ghost old_via = via;
                        proof {
                            edge = edge.push(i as int);
                            via = via.push(if head == 0 { -1 } else { head - 1 });
                            assert(s@.subrange(0, done.len() as int) =~= before.subrange(0, done.len() as int));
                            assert forall|a: int, b: int| 0 <= a < b < s@.len() implies (#[trigger] s@[a])@ != (#[trigger] s@[b])@ by {
                                if b == k {
                                    assert(texts(before)[a] == s@[a]@);
                                }
                            }
                            assert forall|m: int| 0 <= m < s@.len() implies ({
                                let e = #[trigger] edge[m];
                                &&& 0 <= e < deps@.len()
                                &&& edge_in(deps@[e], *scope)
                                &&& deps@[e].dependent@ == s@[m]@
                                &&& (via[m] == -1 ==> deps@[e].source@ == path@)
                                &&& (via[m] != -1 ==> 0 <= via[m] < m && deps@[e].source@ == s@[via[m]]@)
                            }) by {
                                if m < k {
                                    assert(s@[m] == before[m]);
                                    assert(edge[m] == old_edge[m]);
                                    assert(via[m] == old_via[m]);
                                    let oe = old_edge[m];
                                    let vm = via[m];
                                    if vm != -1 {
                                        assert(0 <= vm < m);
                                        assert(s@[vm] == before[vm]);
                                    }
                                } else {
                                    if head > 0 {
                                        assert(s@[head - 1] == done[head - 1]);
                                    }
                                }
                            }
                            assert forall|x: Seq<char>| texts(before).contains(x) implies texts(s@).contains(x) by {
                                let q = choose|q: int| 0 <= q < texts(before).len() && texts(before)[q] == x;
                                assert(texts(s@)[q] == x);
                            }
                            assert(texts(s@)[k] == d.dependent@);
                            assert forall|e: int| 0 <= e < deps@.len() && edge_in(#[trigger] deps@[e], *scope)
                                && ((head > 0 && deps@[e].source@ == path@)
                                    || exists|j: int| 0 <= j < head - 1 && s@[j]@ == deps@[e].source@)
                                implies texts(s@).contains(deps@[e].dependent@) by {
                                if !(head > 0 && deps@[e].source@ == path@) {
                                    let j = choose|j: int| 0 <= j < head - 1 && s@[j]@ == deps@[e].source@;
                                    assert(before[j] == s@[j]);
                                }
                            }
                        }
                    }
                }
                i = i + 1;
            }
            proof {
                assert forall|e: int| 0 <= e < deps@.len() && edge_in(#[trigger] deps@[e], *scope)
                    && ((head + 1 > 0 && deps@[e].source@ == path@)
                        || exists|j: int| 0 <= j < head && s@[j]@ == deps@[e].source@)
                    implies (full || texts(s@).contains(deps@[e].dependent@)) by {
                    if !full {
                        if head == 0 {
                        } else if deps@[e].source@ == path@ {
                        } else {
                            let j = choose|j: int| 0 <= j < head && s@[j]@ == deps@[e].source@;
                            if j < head - 1 {
                            } else {
                                assert(s@[head - 1] == done[head - 1]);
                            }
                        }
                    }
                }
            }
            head = head + 1;
        }
        proof {
            assert(derivation(deps@, *scope, path@, s@, edge, via));
            if s@.len() < 1000 {
                assert(!full);
                assert(head == s@.len() + 1);
                assert forall|e: int| 0 <= e < deps@.len() && edge_in(#[trigger] deps@[e], *scope)
                    && (deps@[e].source@ == path@ || texts(s@).contains(deps@[e].source@))
                    implies texts(s@).contains(deps@[e].dependent@) by {
                    if deps@[e].source@ != path@ {
                        let q = choose|q: int| 0 <= q < texts(s@).len() && texts(s@)[q] == deps@[e].source@;
                        assert(s@[q]@ == deps@[e].source@);
                    }
                }
            }
        }
        s
    }
}

/// The generation of the latest invalidation in `scope`.
pub open spec fn clock_of(clocks: Seq<ScopeClock>, scope: Scope) -> int {
    match clock_index(clocks, scope) {
        Some(i) => clocks[i].generation as int,
        None => 0,
    }
}

/// The mark of `path` in `scope`: the generation of its last invalidation and whether it
/// still stands.
pub open spec fn mark_of(marks: Seq<InvalidationMark>, scope: Scope, path: Seq<char>) -> Option<(i64, bool)> {
    match mark_index(marks, scope, path) {
        Some(i) => Some((marks[i].generation, marks[i].invalidated)),
        None => None,
    }
}

/// The generation at which `path` in `scope` was last invalidated; zero if never.
pub open spec fn invalidation_generation(marks: Seq<InvalidationMark>, scope: Scope, path: Seq<char>) -> int {
    match mark_of(marks, scope, path) {
        Some(m) => m.0 as int,
        None => 0,
    }
}

proof fn lemma_mark_update(marks: Seq<InvalidationMark>, i: int, m: InvalidationMark, scope: Scope, path: Seq<char>)
    requires
        0 <= i < marks.len(),
        same_scope(m.scope, marks[i].scope),
        m.path@ == marks[i].path@,
    ensures
        mark_index(marks.update(i, m), scope, path) == mark_index(marks, scope, path),
    decreases marks.len(),
{
    let u = marks.update(i, m);
    if i > 0 {
        assert(u[0] == marks[0]);
        assert(u.drop_first() =~= marks.drop_first().update(i - 1, m));
        lemma_mark_update(marks.drop_first(), i - 1, m, scope, path);
    } else {
        assert(u.drop_first() =~= marks.drop_first());
    }
}

proof fn lemma_mark_push(marks: Seq<InvalidationMark>, m: InvalidationMark, scope: Scope, path: Seq<char>)
    ensures
        mark_index(marks.push(m), scope, path) == match mark_index(marks, scope, path) {
            Some(k) => Some(k),
            None => if same_scope(m.scope, scope) && m.path@ == path { Some(marks.len() as int) } else { None },
        },
    decreases marks.len(),
{
    let u = marks.push(m);
    if marks.len() > 0 {
        assert(u[0] == marks[0]);
        assert(u.drop_first() =~= marks.drop_first().push(m));
        lemma_mark_push(marks.drop_first(), m, scope, path);
    } else {
        assert(u[0] == m);
        assert(u.drop_first() =~= Seq::<InvalidationMark>::empty());
        assert(mark_index(u.drop_first(), scope, path) is None);
    }
}

proof fn lemma_clock_update(clocks: Seq<ScopeClock>, i: int, c: ScopeClock, scope: Scope)
    requires
        0 <= i < clocks.len(),
        same_scope(c.scope, clocks[i].scope),
    ensures
        clock_index(clocks.update(i, c), scope) == clock_index(clocks, scope),
    decreases clocks.len(),
{
    let u = clocks.update(i, c);
    if i > 0 {
        assert(u[0] == clocks[0]);
        assert(u.drop_first() =~= clocks.drop_first().update(i - 1, c));
        lemma_clock_update(clocks.drop_first(), i - 1, c, scope);
    } else {
        assert(u.drop_first() =~= clocks.drop_first());
    }
}

proof fn lemma_clock_push(clocks: Seq<ScopeClock>, c: ScopeClock, scope: Scope)
    ensures
        clock_index(clocks.push(c), scope) == match clock_index(clocks, scope) {
            Some(k) => Some(k),
            None => if same_scope(c.scope, scope) { Some(clocks.len() as int) } else { None },
        },
    decreases clocks.len(),
{
    let u = clocks.push(c);
    if clocks.len() > 0 {
        assert(u[0] == clocks[0]);
        assert(u.drop_first() =~= clocks.drop_first().push(c));
        lemma_clock_push(clocks.drop_first(), c, scope);
    } else {
        assert(u[0] == c);
        assert(u.drop_first() =~= Seq::<ScopeClock>::empty());
        assert(clock_index(u.drop_first(), scope) is None);
    }
}

impl ValidityTables {
    fn find_clock(&self, scope: &Scope) -> (r: Option<usize>)
        ensures
            match r {
                Some(i) => clock_index(self.clocks@, *scope) == Some(i as int) && i < self.clocks@.len(),
                None => clock_index(self.clocks@, *scope) is None,
            },
    {
        let mut i: usize = 0;
        assert(self.clocks@.subrange(0, self.clocks@.len() as int) =~= self.clocks@);
        while i < self.clocks.len()
            invariant
                0 <= i <= self.clocks@.len(),
                clock_index(self.clocks@, *scope) == match clock_index(self.clocks@.subrange(i as int, self.clocks@.len() as int), *scope) {
                    Some(k) => Some(k + i),
                    None => None::<int>,
                },
            decreases self.clocks@.len() - i,
        {
            let ghost rest = self.clocks@.subrange(i as int, self.clocks@.len() as int);
            assert(rest.drop_first() =~= self.clocks@.subrange(i + 1, self.clocks@.len() as int));
            if scope_eq(&self.clocks[i].scope, scope) {
                return Some(i);
            }
            i = i + 1;
        }
        None
    }

    fn find_mark(&self, scope: &Scope, path: &String) -> (r: Option<usize>)
        ensures
            match r {
                Some(i) => mark_index(self.marks@, *scope, path@) == Some(i as int) && i < self.marks@.len(),
                None => mark_index(self.marks@, *scope, path@) is None,
            },
    {
        let mut i: usize = 0;
        assert(self.marks@.subrange(0, self.marks@.len() as int) =~= self.marks@);
        while i < self.marks.len()
            invariant
                0 <= i <= self.marks@.len(),
                mark_index(self.marks@, *scope, path@) == match mark_index(self.marks@.subrange(i as int, self.marks@.len() as int), *scope, path@) {
                    Some(k) => Some(k + i),
                    None => None::<int>,
                },
            decreases self.marks@.len() - i,
        {
            let ghost rest = self.marks@.subrange(i as int, self.marks@.len() as int);
            assert(rest.drop_first() =~= self.marks@.subrange(i + 1, self.marks@.len() as int));
            if scope_eq(&self.marks[i].scope, scope) && self.marks[i].path == *path {
                return Some(i);
            }
            i = i + 1;
        }
        None
    }

    /// The generation of the latest invalidation in `scope`.
    pub fn generation(&self, scope: &Scope) -> (r: i64)
        ensures
            r == clock_of(self.clocks@, *scope),
    {
        match self.find_clock(scope) {
            Some(i) => self.clocks[i].generation,
            None => 0,
        }
    }

    /// The generation at which `path` in `scope` was last invalidated.
    pub fn path_generation(&self, scope: &Scope, path: &String) -> (r: i64)
        ensures
            r == invalidation_generation(self.marks@, *scope, path@),
    {
        match self.find_mark(scope, path) {
            Some(i) => self.marks[i].generation,
            None => 0,
        }
    }

    /// Sets the mark of `path` in `scope`.
    fn set_mark(&mut self, scope: &Scope, path: &String, generation: i64, invalidated: bool)
        ensures
            forall|sc: Scope, p: Seq<char>| #[trigger] mark_of(final(self).marks@, sc, p) == if same_scope(sc, *scope) && p == path@ {
                Some((generation, invalidated))
            } else {
                mark_of(old(self).marks@, sc, p)
            },
            final(self).clocks@ == old(self).clocks@,
            final(self).dependencies@ == old(self).dependencies@,
            final(self).obligations@ == old(self).obligations@,
            final(self).properties@ == old(self).properties@,
    {
        let mark = InvalidationMark { scope: scope.clone(), path: path.clone(), generation, invalidated };
        let ghost before = self.marks@;
        match self.find_mark(scope, path) {
            Some(i) => {
                proof {
                    lemma_mark_found(before, *scope, path@);
                }
                self.marks.set(i, mark);
                proof {
                    assert forall|sc: Scope, p: Seq<char>| #[trigger] mark_of(self.marks@, sc, p) == if same_scope(sc, *scope) && p == path@ {
                        Some((generation, invalidated))
                    } else {
                        mark_of(before, sc, p)
                    } by {
                        lemma_mark_update(before, i as int, self.marks@[i as int], sc, p);
                        assert(self.marks@[i as int].generation == generation);
                        assert(self.marks@[i as int].invalidated == invalidated);
                        if same_scope(sc, *scope) && p == path@ {
                            lemma_mark_first_keyed(before, *scope, path@, sc, p);
                            assert(mark_index(self.marks@, sc, p) == Some(i as int));
                        } else {
                            lemma_mark_found(before, sc, p);
                            match mark_index(before, sc, p) {
                                Some(k) => {
                                    assert(k != i as int);
                                    assert(self.marks@[k] == before[k]);
                                },
                                None => {},
                            }
                        }
                    }
                }
            },
            None => {
                self.marks.push(mark);
                proof {
                    assert forall|sc: Scope, p: Seq<char>| #[trigger] mark_of(self.marks@, sc, p) == if same_scope(sc, *scope) && p == path@ {
                        Some((generation, invalidated))
                    } else {
                        mark_of(before, sc, p)
                    } by {
                        let m = self.marks@.last();
                        assert(self.marks@ =~= before.push(m));
                        lemma_mark_push(before, m, sc, p);
                        assert(m.generation == generation && m.invalidated == invalidated);
                        if same_scope(sc, *scope) && p == path@ {
                            lemma_mark_first_keyed(before, *scope, path@, sc, p);
                            assert(mark_index(self.marks@, sc, p) == Some(before.len() as int));
                        } else {
                            match mark_index(before, sc, p) {
                                Some(k) => {
                                    lemma_mark_found(before, sc, p);
                                    assert(self.marks@[k] == before[k]);
                                },
                                None => {},
                            }
                        }
                    }
                }
            },
        }
    }
}

/// The validity tables after invalidating the dependents of `path` in `scope`: the
/// scope's clock advances by one, and every dependent is marked invalidated at the new
/// generation; the dependents are returned. A clock at its limit refuses.
pub open spec fn invalidate_post(old: ValidityTables, new: ValidityTables, scope: Scope, path: Seq<char>,
    r: Result<Vec<String>>) -> bool {
    if clock_of(old.clocks@, scope) >= i64::MAX {
        r matches Err(e) && e.code == EXHAUSTED && new == old
    } else {
        r matches Ok(s) && {
            let g = clock_of(old.clocks@, scope) + 1;
            &&& dependents_of(old.dependencies@, scope, path, s@)
            &&& clock_of(new.clocks@, scope) == g
            &&& forall|sc: Scope| !same_scope(sc, scope) ==> #[trigger] clock_of(new.clocks@, sc) == clock_of(old.clocks@, sc)
            &&& forall|sc: Scope, p: Seq<char>| #[trigger] mark_of(new.marks@, sc, p) == if same_scope(sc, scope) && texts(s@).contains(p) {
                Some((g as i64, true))
            } else {
                mark_of(old.marks@, sc, p)
            }
            &&& new.dependencies@ == old.dependencies@
            &&& new.obligations@ == old.obligations@
            &&& new.properties@ == old.properties@
        }
    }
}

impl ValidityTables {
    /// Advances the clock of `scope` by one and answers the new generation.
    fn advance(&mut self, scope: &Scope) -> (r: i64)
        requires
            clock_of(old(self).clocks@, *scope) < i64::MAX,
        ensures
            r == clock_of(old(self).clocks@, *scope) + 1,
            clock_of(final(self).clocks@, *scope) == r,
            forall|sc: Scope| !same_scope(sc, *scope) ==> #[trigger] clock_of(final(self).clocks@, sc) == clock_of(old(self).clocks@, sc),
            final(self).marks@ == old(self).marks@,
            final(self).dependencies@ == old(self).dependencies@,
            final(self).obligations@ == old(self).obligations@,
            final(self).properties@ == old(self).properties@,
    {
        let ghost before = self.clocks@;
        match self.find_clock(scope) {
            Some(i) => {
                let g = self.clocks[i].generation + 1;
                let c = ScopeClock { scope: self.clocks[i].scope.clone(), generation: g };
                self.clocks.set(i, c);
                proof {
                    lemma_clock_update(before, i as int, self.clocks@[i as int], *scope);
                    assert forall|sc: Scope| !same_scope(sc, *scope) implies #[trigger] clock_of(self.clocks@, sc) == clock_of(before, sc) by {
                        lemma_clock_update(before, i as int, self.clocks@[i as int], sc);
                        lemma_clock_found(before, sc);
                        lemma_clock_found(before, *scope);
                    }
                }
                g
            },
            None => {
                self.clocks.push(ScopeClock { scope: scope.clone(), generation: 1 });
                proof {
                    let c = self.clocks@.last();
                    assert(self.clocks@ =~= before.push(c));
                    lemma_clock_push(before, c, *scope);
                    assert forall|sc: Scope| !same_scope(sc, *scope) implies #[trigger] clock_of(self.clocks@, sc) == clock_of(before, sc) by {
                        lemma_clock_push(before, c, sc);
                        if let Some(k) = clock_index(before, sc) {
                            lemma_clock_found(before, sc);
                            assert(self.clocks@[k] == before[k]);
                        }
                    }
                }
                1
            },
        }
    }

    /// Invalidates the dependents of `path` in `scope`, as `invalidate_post` states.
    pub fn invalidate_dependents(&mut self, scope: &Scope, path: &String) -> (r: Result<Vec<String>>)
        ensures
            invalidate_post(*old(self), *final(self), *scope, path@, r),
    {
        if self.generation(scope) == i64::MAX {
            return Err(Error::exhausted("validity clock is exhausted"));
        }
        let g = self.advance(scope);
        let affected = self.dependents(scope, path);
        let ghost mid = self.marks@;
        let ghost advanced = *self;
        let mut k: usize = 0;
        while k < affected.len()
            invariant
                0 <= k <= affected@.len(),
                self.clocks@ == advanced.clocks@,
                self.dependencies@ == advanced.dependencies@,
                self.obligations@ == advanced.obligations@,
                self.properties@ == advanced.properties@,
                forall|sc: Scope, p: Seq<char>| #[trigger] mark_of(self.marks@, sc, p) == if same_scope(sc, *scope)
                    && texts(affected@.subrange(0, k as int)).contains(p) {
                    Some((g, true))
                } else {
                    mark_of(mid, sc, p)
                },
            decreases affected@.len() - k,
        {
            let ghost before = self.marks@;
            self.set_mark(scope, &affected[k], g, true);
            proof {
                assert forall|sc: Scope, p: Seq<char>| #[trigger] mark_of(self.marks@, sc, p) == if same_scope(sc, *scope)
                    && texts(affected@.subrange(0, k + 1)).contains(p) {
                    Some((g, true))
                } else {
                    mark_of(mid, sc, p)
                } by {
                    assert(affected@.subrange(0, k + 1) =~= affected@.subrange(0, k as int).push(affected@[k as int]));
                    lemma_texts_push(affected@.subrange(0, k as int), affected@[k as int], p);
                    assert(mark_of(self.marks@, sc, p) == if same_scope(sc, *scope) && p == affected@[k as int]@ {
                        Some((g, true))
                    } else {
                        mark_of(before, sc, p)
                    });
                }
            }
            k = k + 1;
        }
        proof {
            assert(affected@.subrange(0, affected@.len() as int) =~= affected@);
        }
        Ok(affected)
    }
}

proof fn lemma_texts_push(v: Seq<String>, x: String, p: Seq<char>)
    ensures
        texts(v.push(x)).contains(p) == (texts(v).contains(p) || x@ == p),
{
    let w = v.push(x);
    if texts(w).contains(p) {
        let q = choose|q: int| 0 <= q < texts(w).len() && texts(w)[q] == p;
        if q < v.len() {
            assert(texts(v)[q] == p);
        }
    }
    if texts(v).contains(p) {
        let q = choose|q: int| 0 <= q < texts(v).len() && texts(v)[q] == p;
        assert(texts(w)[q] == p);
    }
    if x@ == p {
        assert(texts(w)[v.len() as int] == p);
    }
}

/// The position of the property validation of obligation `id` on `path` in `scope`.
pub open spec fn property_index(props: Seq<PropertyRecord>, scope: Scope, path: Seq<char>, id: Seq<char>) -> Option<int>
    decreases props.len(),
{
    if props.len() == 0 {
        None
    } else if same_scope(props[0].scope, scope) && props[0].path@ == path && props[0].obligation.id@ == id {
        Some(0)
    } else {
        match property_index(props.drop_first(), scope, path, id) {
            Some(k) => Some(k + 1),
            None => None,
        }
    }
}

/// The property validation of obligation `id` on `path` in `scope`: the obligation's
/// version, the artifact version, the operation and the generation it holds.
pub open spec fn property_of(props: Seq<PropertyRecord>, scope: Scope, path: Seq<char>, id: Seq<char>)
    -> Option<(Seq<char>, Seq<char>, Seq<char>, i64)> {
    match property_index(props, scope, path, id) {
        Some(i) => Some((props[i].obligation.version@, props[i].artifact_version@, props[i].operation_id@, props[i].generation)),
        None => None,
    }
}

proof fn lemma_property_found(props: Seq<PropertyRecord>, scope: Scope, path: Seq<char>, id: Seq<char>)
    ensures
        property_index(props, scope, path, id) matches Some(k) ==> 0 <= k < props.len()
            && same_scope(props[k].scope, scope) && props[k].path@ == path && props[k].obligation.id@ == id,
    decreases props.len(),
{
    if props.len() > 0 && !(same_scope(props[0].scope, scope) && props[0].path@ == path && props[0].obligation.id@ == id) {
        lemma_property_found(props.drop_first(), scope, path, id);
    }
}

proof fn lemma_property_keyed(props: Seq<PropertyRecord>, a: Scope, b: Scope, path: Seq<char>, id: Seq<char>)
    requires
        same_scope(a, b),
    ensures
        property_index(props, a, path, id) == property_index(props, b, path, id),
    decreases props.len(),
{
    if props.len() > 0 {
        lemma_property_keyed(props.drop_first(), a, b, path, id);
    }
}

proof fn lemma_property_update(props: Seq<PropertyRecord>, i: int, m: PropertyRecord, scope: Scope, path: Seq<char>, id: Seq<char>)
    requires
        0 <= i < props.len(),
        same_scope(m.scope, props[i].scope),
        m.path@ == props[i].path@,
        m.obligation.id@ == props[i].obligation.id@,
    ensures
        property_index(props.update(i, m), scope, path, id) == property_index(props, scope, path, id),
    decreases props.len(),
{
    let u = props.update(i, m);
    if i > 0 {
        assert(u[0] == props[0]);
        assert(u.drop_first() =~= props.drop_first().update(i - 1, m));
        lemma_property_update(props.drop_first(), i - 1, m, scope, path, id);
    } else {
        assert(u.drop_first() =~= props.drop_first());
    }
}

proof fn lemma_property_push(props: Seq<PropertyRecord>, m: PropertyRecord, scope: Scope, path: Seq<char>, id: Seq<char>)
    ensures
        property_index(props.push(m), scope, path, id) == match property_index(props, scope, path, id) {
            Some(k) => Some(k),
            None => if same_scope(m.scope, scope) && m.path@ == path && m.obligation.id@ == id {
                Some(props.len() as int)
            } else {
                None
            },
        },
    decreases props.len(),
{
    let u = props.push(m);
    if props.len() > 0 {
        assert(u[0] == props[0]);
        assert(u.drop_first() =~= props.drop_first().push(m));
        lemma_property_push(props.drop_first(), m, scope, path, id);
    } else {
        assert(u[0] == m);
        assert(u.drop_first() =~= Seq::<PropertyRecord>::empty());
        assert(property_index(u.drop_first(), scope, path, id) is None);
    }
}

/// The obligations of `scope` declared on `path`, in the order they are listed.
pub open spec fn declared(obligations: Seq<ObligationEntry>, scope: Scope, path: Seq<char>) -> Seq<ObligationEntry>
    decreases obligations.len(),
{
    if obligations.len() == 0 {
        Seq::empty()
    } else {
        let before = declared(obligations.drop_last(), scope, path);
        let o = obligations.last();
        if same_scope(o.scope, scope) && texts(o.affected_outputs@).contains(path) { before.push(o) } else { before }
    }
}

/// A validation of obligation `o` supports `artifact` in `scope`: it was made for the
/// obligation's current version and the artifact's current version, with checks no
/// older than the artifact's last invalidation.
pub open spec fn supported(t: ValidityTables, scope: Scope, artifact: ArtifactRef, o: ObligationEntry) -> bool {
    match property_of(t.properties@, scope, artifact.path@, o.id@) {
        Some(v) => v.0 == o.version@ && v.1 == artifact.version@
            && v.3 >= invalidation_generation(t.marks@, scope, artifact.path@),
        None => false,
    }
}

/// Whether the declared properties of `artifact` are all supported: `None` where the
/// artifact declares more than a thousand obligations.
pub open spec fn coverage(t: ValidityTables, scope: Scope, artifact: ArtifactRef) -> Option<bool> {
    let ds = declared(t.obligations@, scope, artifact.path@);
    if ds.len() > 1000 {
        None
    } else {
        Some(ds.len() > 0 && forall|k: int| 0 <= k < ds.len() ==> supported(t, scope, artifact, #[trigger] ds[k]))
    }
}

/// The position of the obligation `id` of `scope`.
pub open spec fn obligation_index(obligations: Seq<ObligationEntry>, scope: Scope, id: Seq<char>) -> Option<int>
    decreases obligations.len(),
{
    if obligations.len() == 0 {
        None
    } else if same_scope(obligations[0].scope, scope) && obligations[0].id@ == id {
        Some(0)
    } else {
        match obligation_index(obligations.drop_first(), scope, id) {
            Some(k) => Some(k + 1),
            None => None,
        }
    }
}

/// A property of obligation `obligation` on `path` may be validated for `grant`: the
/// obligation is recorded in the grant's scope at that version, and the path is both
/// granted and one the obligation declares.
pub open spec fn binding_holds(t: ValidityTables, grant: Grant, obligation: VersionRef, path: Seq<char>) -> bool {
    match obligation_index(t.obligations@, grant.scope, obligation.id@) {
        Some(i) => {
            let o = t.obligations@[i];
            &&& o.version@ == obligation.version@
            &&& texts(grant.paths@).contains(path)
            &&& texts(o.affected_outputs@).contains(path)
        },
        None => false,
    }
}

impl ValidityTables {
    fn find_property(&self, scope: &Scope, path: &String, id: &String) -> (r: Option<usize>)
        ensures
            match r {
                Some(i) => property_index(self.properties@, *scope, path@, id@) == Some(i as int) && i < self.properties@.len(),
                None => property_index(self.properties@, *scope, path@, id@) is None,
            },
    {
        let mut i: usize = 0;
        assert(self.properties@.subrange(0, self.properties@.len() as int) =~= self.properties@);
        while i < self.properties.len()
            invariant
                0 <= i <= self.properties@.len(),
                property_index(self.properties@, *scope, path@, id@) == match property_index(self.properties@.subrange(i as int, self.properties@.len() as int), *scope, path@, id@) {
                    Some(k) => Some(k + i),
                    None => None::<int>,
                },
            decreases self.properties@.len() - i,
        {
            let ghost rest = self.properties@.subrange(i as int, self.properties@.len() as int);
            assert(rest.drop_first() =~= self.properties@.subrange(i + 1, self.properties@.len() as int));
            let p = &self.properties[i];
            if scope_eq(&p.scope, scope) && p.path == *path && p.obligation.id == *id {
                return Some(i);
            }
            i = i + 1;
        }
        None
    }

    fn find_obligation(&self, scope: &Scope, id: &String) -> (r: Option<usize>)
        ensures
            match r {
                Some(i) => obligation_index(self.obligations@, *scope, id@) == Some(i as int) && i < self.obligations@.len(),
                None => obligation_index(self.obligations@, *scope, id@) is None,
            },
    {
        let mut i: usize = 0;
        assert(self.obligations@.subrange(0, self.obligations@.len() as int) =~= self.obligations@);
        while i < self.obligations.len()
            invariant
                0 <= i <= self.obligations@.len(),
                obligation_index(self.obligations@, *scope, id@) == match obligation_index(self.obligations@.subrange(i as int, self.obligations@.len() as int), *scope, id@) {
                    Some(k) => Some(k + i),
                    None => None::<int>,
                },
            decreases self.obligations@.len() - i,
        {
            let ghost rest = self.obligations@.subrange(i as int, self.obligations@.len() as int);
            assert(rest.drop_first() =~= self.obligations@.subrange(i + 1, self.obligations@.len() as int));
            if scope_eq(&self.obligations[i].scope, scope) && self.obligations[i].id == *id {
                return Some(i);
            }
            i = i + 1;
        }
        None
    }

    /// Records that `operation` validated `obligation` on `path` in `scope` at
    /// `artifact_version` with checks as of `generation`, unless a newer validation is
    /// already recorded.
    pub fn record_property(&mut self, scope: &Scope, path: &String, obligation: &VersionRef, artifact_version: &String,
        operation: &String, generation: i64)
        ensures
            forall|sc: Scope, pa: Seq<char>, id: Seq<char>| #[trigger] property_of(final(self).properties@, sc, pa, id)
                == if same_scope(sc, *scope) && pa == path@ && id == obligation.id@ {
                    match property_of(old(self).properties@, sc, pa, id) {
                        Some(v) => if v.3 > generation { Some(v) } else {
                            Some((obligation.version@, artifact_version@, operation@, generation))
                        },
                        None => Some((obligation.version@, artifact_version@, operation@, generation)),
                    }
                } else {
                    property_of(old(self).properties@, sc, pa, id)
                },
            final(self).clocks@ == old(self).clocks@,
            final(self).marks@ == old(self).marks@,
            final(self).dependencies@ == old(self).dependencies@,
            final(self).obligations@ == old(self).obligations@,
    {
        let record = PropertyRecord {
            scope: scope.clone(),
            path: path.clone(),
            obligation: VersionRef { id: obligation.id.clone(), version: obligation.version.clone() },
            artifact_version: artifact_version.clone(),
            operation_id: operation.clone(),
            generation,
        };
        let ghost before = self.properties@;
        match self.find_property(scope, path, &obligation.id) {
            Some(i) => {
                if self.properties[i].generation > generation {
                    proof {
                        lemma_property_found(before, *scope, path@, obligation.id@);
                        assert forall|sc: Scope, pa: Seq<char>, id: Seq<char>| same_scope(sc, *scope) && pa == path@ && id == obligation.id@
                            implies #[trigger] property_of(before, sc, pa, id) == property_of(before, *scope, path@, obligation.id@) by {
                            lemma_property_keyed(before, sc, *scope, pa, id);
                        }
                    }
                    return;
                }
                proof {
                    lemma_property_found(before, *scope, path@, obligation.id@);
                }
                self.properties.set(i, record);
                proof {
                    assert forall|sc: Scope, pa: Seq<char>, id: Seq<char>| #[trigger] property_of(self.properties@, sc, pa, id)
                        == if same_scope(sc, *scope) && pa == path@ && id == obligation.id@ {
                            match property_of(before, sc, pa, id) {
                                Some(v) => if v.3 > generation { Some(v) } else {
                                    Some((obligation.version@, artifact_version@, operation@, generation))
                                },
                                None => Some((obligation.version@, artifact_version@, operation@, generation)),
                            }
                        } else {
                            property_of(before, sc, pa, id)
                        } by {
                        lemma_property_update(before, i as int, self.properties@[i as int], sc, pa, id);
                        if same_scope(sc, *scope) && pa == path@ && id == obligation.id@ {
                            lemma_property_keyed(before, sc, *scope, pa, id);
                            assert(property_index(self.properties@, sc, pa, id) == Some(i as int));
                        } else {
                            lemma_property_found(before, sc, pa, id);
                            match property_index(before, sc, pa, id) {
                                Some(k) => {
                                    assert(k != i as int);
                                    assert(self.properties@[k] == before[k]);
                                },
                                None => {},
                            }
                        }
                    }
                }
            },
            None => {
                self.properties.push(record);
                proof {
                    let m = self.properties@.last();
                    assert(self.properties@ =~= before.push(m));
                    assert forall|sc: Scope, pa: Seq<char>, id: Seq<char>| #[trigger] property_of(self.properties@, sc, pa, id)
                        == if same_scope(sc, *scope) && pa == path@ && id == obligation.id@ {
                            match property_of(before, sc, pa, id) {
                                Some(v) => if v.3 > generation { Some(v) } else {
                                    Some((obligation.version@, artifact_version@, operation@, generation))
                                },
                                None => Some((obligation.version@, artifact_version@, operation@, generation)),
                            }
                        } else {
                            property_of(before, sc, pa, id)
                        } by {
                        lemma_property_push(before, m, sc, pa, id);
                        if same_scope(sc, *scope) && pa == path@ && id == obligation.id@ {
                            lemma_property_keyed(before, sc, *scope, pa, id);
                            assert(property_index(self.properties@, sc, pa, id) == Some(before.len() as int));
                        } else {
                            match property_index(before, sc, pa, id) {
                                Some(k) => {
                                    lemma_property_found(before, sc, pa, id);
                                    assert(self.properties@[k] == before[k]);
                                },
                                None => {},
                            }
                        }
                    }
                }
            },
        }
    }

    /// Clears the standing invalidation of `path` in `scope` where it is no newer than
    /// `generation`.
    pub fn clear_invalidation(&mut self, scope: &Scope, path: &String, generation: i64)
        ensures
            forall|sc: Scope, p: Seq<char>| #[trigger] mark_of(final(self).marks@, sc, p) == if same_scope(sc, *scope) && p == path@ {
                match mark_of(old(self).marks@, sc, p) {
                    Some(m) => if m.0 <= generation { Some((m.0, false)) } else { Some(m) },
                    None => None,
                }
            } else {
                mark_of(old(self).marks@, sc, p)
            },
            final(self).clocks@ == old(self).clocks@,
            final(self).dependencies@ == old(self).dependencies@,
            final(self).obligations@ == old(self).obligations@,
            final(self).properties@ == old(self).properties@,
    {
        let ghost before = self.marks@;
        proof {
            assert forall|sc: Scope, p: Seq<char>| same_scope(sc, *scope) && p == path@
                implies #[trigger] mark_of(before, sc, p) == mark_of(before, *scope, path@) by {
                lemma_mark_first_keyed(before, *scope, path@, sc, p);
            }
        }
        match self.find_mark(scope, path) {
            Some(i) => {
                let g = self.marks[i].generation;
                if g <= generation {
                    self.set_mark(scope, path, g, false);
                }
            },
            None => {},
        }
    }

    /// Whether a property of `obligation` on `path` may be validated for `grant`.
    pub fn binding_allowed(&self, grant: &Grant, obligation: &VersionRef, path: &String) -> (r: bool)
        ensures
            r == binding_holds(*self, *grant, *obligation, path@),
    {
        match self.find_obligation(&grant.scope, &obligation.id) {
            Some(i) => {
                let o = &self.obligations[i];
                o.version == obligation.version && listed_text(&grant.paths, path) && listed_text(&o.affected_outputs, path)
            },
            None => false,
        }
    }

    /// Whether the declared properties of `artifact` in `scope` are all supported, as
    /// `coverage` states; more than a thousand obligations is refused.
    pub fn covers(&self, scope: &Scope, artifact: &ArtifactRef) -> (r: Result<bool>)
        ensures
            match coverage(*self, *scope, *artifact) {
                Some(b) => r == Ok::<bool, Error>(b),
                None => r matches Err(e) && e.code == EXHAUSTED,
            },
    {
        let generation = self.path_generation(scope, &artifact.path);
        let mut count: usize = 0;
        let mut all = true;
        let mut i: usize = 0;
        let ghost obls = self.obligations@;
        assert(obls.take(0) =~= Seq::<ObligationEntry>::empty());
        while i < self.obligations.len()
            invariant
                obls == self.obligations@,
                0 <= i <= obls.len(),
                generation == invalidation_generation(self.marks@, *scope, artifact.path@),
                count as int == declared(obls.take(i as int), *scope, artifact.path@).len(),
                count <= 1000,
                all == forall|k: int| 0 <= k < count ==> supported(*self, *scope, *artifact,
                    #[trigger] declared(obls.take(i as int), *scope, artifact.path@)[k]),
            decreases obls.len() - i,
        {
            let o = &self.obligations[i];
            proof {
                assert(obls.take(i as int + 1).drop_last() =~= obls.take(i as int));
                assert(obls.take(i as int + 1).last() == obls[i as int]);
            }
            if scope_eq(&o.scope, scope) && listed_text(&o.affected_outputs, &artifact.path) {
                if count == 1000 {
                    proof {
                        lemma_declared_grows(obls, i as int + 1, *scope, artifact.path@);
                    }
                    return Err(Error::exhausted("artifact has more than 1000 declared obligations; narrow its property set"));
                }
                let ok = match self.find_property(scope, &artifact.path, &o.id) {
                    Some(j) => {
                        let p = &self.properties[j];
                        p.obligation.version == o.version && p.artifact_version == artifact.version && p.generation >= generation
                    },
                    None => false,
                };
                proof {
                    let before = declared(obls.take(i as int), *scope, artifact.path@);
                    let after = declared(obls.take(i as int + 1), *scope, artifact.path@);
                    assert(after == before.push(obls[i as int]));
                    assert(ok == supported(*self, *scope, *artifact, obls[i as int]));
                    if all && ok {
                        assert forall|k: int| 0 <= k < count + 1 implies supported(*self, *scope, *artifact, #[trigger] after[k]) by {
                            if k < count {
                                assert(after[k] == before[k]);
                            }
                        }
                    } else if !ok {
                        assert(!supported(*self, *scope, *artifact, after[count as int]));
                    } else {
                        let k = choose|k: int| 0 <= k < count && !supported(*self, *scope, *artifact, #[trigger] before[k]);
                        assert(after[k] == before[k]);
                    }
                }
                all = all && ok;
                count = count + 1;
            } else {
                proof {
                    assert(declared(obls.take(i as int + 1), *scope, artifact.path@) == declared(obls.take(i as int), *scope, artifact.path@));
                }
            }
            i = i + 1;
        }
        proof {
            assert(obls.take(obls.len() as int) =~= obls);
            lemma_declared_grows(obls, obls.len() as int, *scope, artifact.path@);
        }
        Ok(count > 0 && all)
    }
}

/// The obligations declared among the first `i` grow with `i`.
proof fn lemma_declared_grows(obls: Seq<ObligationEntry>, i: int, scope: Scope, path: Seq<char>)
    requires
        0 <= i <= obls.len(),
    ensures
        declared(obls.take(i), scope, path).len() <= declared(obls, scope, path).len(),
    decreases obls.len() - i,
{
    if i < obls.len() {
        lemma_declared_grows(obls, i + 1, scope, path);
        assert(obls.take(i + 1).drop_last() =~= obls.take(i));
    } else {
        assert(obls.take(i) =~= obls);
    }
}

/// The clock found for a scope is that scope's.
proof fn lemma_clock_found(clocks: Seq<ScopeClock>, scope: Scope)
    ensures
        clock_index(clocks, scope) matches Some(k) ==> 0 <= k < clocks.len() && same_scope(clocks[k].scope, scope),
    decreases clocks.len(),
{
    if clocks.len() > 0 && !same_scope(clocks[0].scope, scope) {
        lemma_clock_found(clocks.drop_first(), scope);
    }
}

/// The mark found for a key matches that key.
proof fn lemma_mark_found(marks: Seq<InvalidationMark>, scope: Scope, path: Seq<char>)
    ensures
        mark_index(marks, scope, path) matches Some(k) ==> 0 <= k < marks.len()
            && same_scope(marks[k].scope, scope) && marks[k].path@ == path,
    decreases marks.len(),
{
    if marks.len() > 0 && !(same_scope(marks[0].scope, scope) && marks[0].path@ == path) {
        lemma_mark_found(marks.drop_first(), scope, path);
    }
}

/// Keys naming the same client, project and path find the same mark.
proof fn lemma_mark_first_keyed(marks: Seq<InvalidationMark>, a: Scope, pa: Seq<char>, b: Scope, pb: Seq<char>)
    requires
        same_scope(a, b),
        pa == pb,
    ensures
        mark_index(marks, a, pa) == mark_index(marks, b, pb),
    decreases marks.len(),
{
    if marks.len() > 0 {
        lemma_mark_first_keyed(marks.drop_first(), a, pa, b, pb);
    }
}

} // verus!
