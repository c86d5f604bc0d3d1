//! The evidence an admission rests on: a recommendation for the grant's context,
//! supported by the complete evaluations of one experiment run under the grant, on the
//! candidate that experiment tested, under a policy that may establish admission.

use vstd::prelude::*;
use crate::compare::{same_version_ref, texts};
use crate::contracts::{Grant, Recommendation, VersionRef};
use crate::error::{Error, Result, DENIED};

verus! {

broadcast use vstd::multiset::group_multiset_axioms, vstd::seq_lib::group_to_multiset_ensures;

/// An experiment as the ledger recorded it under a grant: the evaluations its result
/// lists, including controls and failures, and the candidate it tested.
#[derive(Debug)]
pub struct StudyRecord {
    pub evaluation_refs: Vec<String>,
    pub candidate: VersionRef,
}

/// Two lists name the same identifiers, each as often.
pub open spec fn same_refs(a: Seq<String>, b: Seq<String>) -> bool {
    texts(a).to_multiset() == texts(b).to_multiset()
}

/// Every cited evaluation belongs to the same experiment, and there is at least one.
pub open spec fn one_experiment(experiments: Seq<String>) -> bool {
    experiments.len() > 0 && forall|i: int| 0 <= i < experiments.len() ==> (#[trigger] experiments[i])@ == experiments[0]@
}

/// The admission may go to assessment: the recommendation is for the grant's context;
/// its evaluations, whose experiments are `experiments` in citation order, all come
/// from one experiment; that experiment ran under the grant (`study`); the
/// recommendation cites exactly the evaluations its result lists; it recommends the
/// candidate that was tested; and the study's policy is known and did not generate its
/// development cases (`generated`).
pub open spec fn admissible(grant: Grant, recommendation: Recommendation, experiments: Seq<String>,
    study: Option<StudyRecord>, generated: Option<bool>) -> bool {
    &&& recommendation.context@ == grant.context@
    &&& one_experiment(experiments)
    &&& study matches Some(s) && same_refs(s.evaluation_refs@, recommendation.evaluation_refs@)
        && same_version_ref(s.candidate, recommendation.implementation)
    &&& generated == Some(false)
}

proof fn lemma_missing_breaks(a: Seq<Seq<char>>, b: Seq<Seq<char>>, rest: Seq<Seq<char>>, i: int)
    requires
        0 <= i < a.len(),
        a.take(i).to_multiset().add(rest.to_multiset()) == b.to_multiset(),
        !rest.contains(a[i]),
    ensures
        a.to_multiset() != b.to_multiset(),
{
    if a.to_multiset() == b.to_multiset() {
        let p = a.take(i);
        let s = a.skip(i);
        assert(p + s =~= a);
        vstd::seq_lib::lemma_multiset_commutative(p, s);
        let x = a[i];
        assert(s[0] == x);
        assert(s.contains(x));
        assert(s.to_multiset().count(x) > 0);
        assert(a.to_multiset().count(x) == p.to_multiset().count(x) + s.to_multiset().count(x));
        assert(b.to_multiset().count(x) == p.to_multiset().count(x) + rest.to_multiset().count(x));
        assert(rest.to_multiset().count(x) > 0);
        assert(rest.contains(x));
    }
}

/// Whether `a` and `b` name the same identifiers, each as often.
pub fn same_ref_lists(a: &Vec<String>, b: &Vec<String>) -> (r: bool)
    ensures
        r == same_refs(a@, b@),
{
    let mut rest = b.clone();
    assert(texts(rest@) =~= texts(b@));
    let mut i: usize = 0;
    assert(texts(a@).take(0) =~= Seq::<Seq<char>>::empty());
    assert(texts(a@).take(0).to_multiset() =~= vstd::multiset::Multiset::<Seq<char>>::empty());
    assert(vstd::multiset::Multiset::<Seq<char>>::empty().add(texts(rest@).to_multiset()) =~= texts(b@).to_multiset());
    while i < a.len()
        invariant
            0 <= i <= a@.len(),
            texts(a@).take(i as int).to_multiset().add(texts(rest@).to_multiset()) == texts(b@).to_multiset(),
        decreases a@.len() - i,
    {
        let mut j: usize = 0;
        let mut found = false;
        while j < rest.len()
            invariant
                0 <= j <= rest@.len(),
                i < a@.len(),
                !found ==> forall|k: int| 0 <= k < j ==> (#[trigger] rest@[k])@ != a@[i as int]@,
                found ==> j < rest@.len() && rest@[j as int]@ == a@[i as int]@,
            ensures
                !found ==> forall|k: int| 0 <= k < rest@.len() ==> (#[trigger] rest@[k])@ != a@[i as int]@,
                found ==> j < rest@.len() && rest@[j as int]@ == a@[i as int]@,
            decreases rest@.len() - j,
        {
            if rest[j] == a[i] {
                found = true;
                break;
            }
            j = j + 1;
        }
        if !found {
            proof {
                assert(texts(a@)[i as int] == a@[i as int]@);
                if texts(rest@).contains(texts(a@)[i as int]) {
                    let k = choose|k: int| 0 <= k < texts(rest@).len() && texts(rest@)[k] == texts(a@)[i as int];
                    assert(rest@[k]@ == a@[i as int]@);
                }
                lemma_missing_breaks(texts(a@), texts(b@), texts(rest@), i as int);
            }
            return false;
        }
        let ghost before = texts(rest@);
        let ghost x = a@[i as int]@;
        rest.remove(j);
        proof {
            assert(texts(rest@) =~= before.remove(j as int));
            assert(before[j as int] == x);
            assert(texts(a@).take(i as int + 1) =~= texts(a@).take(i as int).push(x));
            assert(before.to_multiset().count(x) > 0) by {
                assert(before.contains(x));
            }
            assert(texts(a@).take(i as int + 1).to_multiset().add(texts(rest@).to_multiset())
                =~= texts(a@).take(i as int).to_multiset().add(before.to_multiset()));
        }
        i = i + 1;
    }
    proof {
        assert(texts(a@).take(i as int) =~= texts(a@));
        if rest@.len() > 0 {
            assert(texts(rest@).len() > 0);
            assert(texts(rest@).to_multiset().len() > 0);
            assert(texts(b@).to_multiset().len() > texts(a@).to_multiset().len());
            assert(texts(a@).to_multiset() != texts(b@).to_multiset());
        } else {
            assert(texts(rest@) =~= Seq::<Seq<char>>::empty());
            assert(texts(rest@).to_multiset() =~= vstd::multiset::Multiset::<Seq<char>>::empty());
            assert(texts(a@).to_multiset().add(texts(rest@).to_multiset()) =~= texts(a@).to_multiset());
        }
    }
    rest.len() == 0
}

/// Checks the evidence of an admission request for `grant`, as `admissible` states;
/// answers the experiment the evidence comes from. Anything short of it is denied.
pub fn admission_evidence(grant: &Grant, recommendation: &Recommendation, experiments: &Vec<String>,
    study: &Option<StudyRecord>, generated: Option<bool>) -> (r: Result<String>)
    ensures
        admissible(*grant, *recommendation, experiments@, *study, generated) <==> r is Ok,
        r matches Ok(id) ==> id@ == experiments@[0]@,
        r matches Err(e) ==> e.code == DENIED,
{
    if recommendation.context != grant.context {
        return Err(Error::denied("recommendation context differs from grant"));
    }
    if experiments.len() == 0 {
        return Err(Error::denied("admission requires evaluation evidence"));
    }
    let mut i: usize = 1;
    while i < experiments.len()
        invariant
            1 <= i <= experiments@.len(),
            forall|k: int| 0 <= k < i ==> (#[trigger] experiments@[k])@ == experiments@[0]@,
        decreases experiments@.len() - i,
    {
        if experiments[i] != experiments[0] {
            return Err(Error::denied("cannot combine unrelated experiments"));
        }
        i = i + 1;
    }
    let s = match study {
        Some(s) => s,
        None => return Err(Error::denied("experiment was not executed under this grant")),
    };
    if !same_ref_lists(&s.evaluation_refs, &recommendation.evaluation_refs) {
        return Err(Error::denied("admission requires complete evidence, including control and failures"));
    }
    if !(s.candidate.id == recommendation.implementation.id && s.candidate.version == recommendation.implementation.version) {
        return Err(Error::denied("recommendation candidate does not match tested candidate"));
    }
    match generated {
        None => return Err(Error::denied("admission policy unavailable")),
        Some(true) => return Err(Error::denied(
            "generated development cases cannot establish admission; use a host-owned acceptance study")),
        Some(false) => {},
    }
    Ok(experiments[0].clone())
}

} // verus!
