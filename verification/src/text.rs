//! The order of texts, and lists of texts kept in that order.

use vstd::prelude::*;
use crate::parking::listed;

verus! {

/// Code-point order on texts, which is the order of their UTF-8 bytes.
pub open spec fn text_less(a: Seq<char>, b: Seq<char>) -> bool
    decreases a.len(),
{
    if b.len() == 0 {
        false
    } else if a.len() == 0 {
        true
    } else if (a[0] as int) < (b[0] as int) {
        true
    } else if a[0] == b[0] {
        text_less(a.drop_first(), b.drop_first())
    } else {
        false
    }
}

/// Two distinct texts are ordered one way or the other, and never both ways.
pub proof fn lemma_text_less_total(a: Seq<char>, b: Seq<char>)
    ensures
        a != b ==> (text_less(a, b) || text_less(b, a)),
        !(text_less(a, b) && text_less(b, a)),
        !text_less(a, a),
    decreases a.len(),
{
    if a.len() > 0 && b.len() > 0 && a[0] == b[0] {
        lemma_text_less_total(a.drop_first(), b.drop_first());
        if a != b {
            assert(a.drop_first() != b.drop_first()) by {
                if a.drop_first() == b.drop_first() {
                    assert(a =~= seq![a[0]] + a.drop_first());
                    assert(b =~= seq![b[0]] + b.drop_first());
                }
            }
        }
    }
    if a.len() > 0 {
        lemma_text_less_total(a.drop_first(), a.drop_first());
    }
    if a.len() == 0 && b.len() == 0 {
        assert(a =~= b);
    }
    if a.len() > 0 && b.len() > 0 && a[0] != b[0] {
        assert((a[0] as int) != (b[0] as int));
    }
}

/// The order on texts is transitive.
pub proof fn lemma_text_less_transitive(a: Seq<char>, b: Seq<char>, c: Seq<char>)
    requires
        text_less(a, b),
        text_less(b, c),
    ensures
        text_less(a, c),
    decreases a.len(),
{
    if a.len() > 0 && b.len() > 0 && c.len() > 0 && a[0] == b[0] && b[0] == c[0] {
        lemma_text_less_transitive(a.drop_first(), b.drop_first(), c.drop_first());
    }
}

/// Each text comes strictly before the next.
pub open spec fn ordered_texts(s: Seq<String>) -> bool {
    forall|i: int, j: int| 0 <= i < j < s.len() ==> text_less(#[trigger] s[i]@, #[trigger] s[j]@)
}

pub fn text_lt(a: &String, b: &String) -> (r: bool)
    ensures
        r == text_less(a@, b@),
{
    let la = a.as_str().unicode_len();
    let lb = b.as_str().unicode_len();
    let mut i: usize = 0;
    assert(a@.skip(0) =~= a@);
    assert(b@.skip(0) =~= b@);
    while i < la && i < lb
        invariant
            la == a@.len(),
            lb == b@.len(),
            0 <= i <= la,
            i <= lb,
            text_less(a@, b@) == text_less(a@.skip(i as int), b@.skip(i as int)),
        decreases la - i,
    {
        let ca = a.as_str().get_char(i);
        let cb = b.as_str().get_char(i);
        assert(a@.skip(i as int)[0] == ca);
        assert(b@.skip(i as int)[0] == cb);
        if (ca as u32) < (cb as u32) {
            return true;
        }
        if ca != cb {
            return false;
        }
        assert(a@.skip(i as int).drop_first() =~= a@.skip(i + 1));
        assert(b@.skip(i as int).drop_first() =~= b@.skip(i + 1));
        i = i + 1;
    }
    i < lb
}


/// Adds a text to an ordered list unless it is already listed; the list stays ordered.
pub fn insert_ordered(out: &mut Vec<String>, x: String)
    requires
        ordered_texts(old(out)@),
    ensures
        ordered_texts(final(out)@),
        forall|y: Seq<char>| #[trigger] listed(final(out)@, y) <==> (listed(old(out)@, y) || y == x@),
{
    let mut p: usize = 0;
    while p < out.len() && text_lt(&out[p], &x)
        invariant
            0 <= p <= out@.len(),
            forall|q: int| 0 <= q < p ==> text_less((#[trigger] out@[q])@, x@),
        decreases out@.len() - p,
    {
        p = p + 1;
    }
    let ghost before = out@;
    if p < out.len() && out[p] == x {
        assert forall|y: Seq<char>| #[trigger] listed(out@, y) <==> (listed(before, y) || y == x@) by {
            if y == x@ {
                assert(out@[p as int]@ == y);
            }
        }
        return;
    }
    proof {
        if p < out@.len() {
            lemma_text_less_total(out@[p as int]@, x@);
        }
    }
    out.insert(p, x);
    proof {
        assert forall|i: int, j: int| 0 <= i < j < out@.len() implies
            text_less(#[trigger] out@[i]@, #[trigger] out@[j]@) by {
            if i < p && j == p {
            } else if i < p && j > p {
                assert(out@[j] == before[j - 1]);
                assert(out@[i] == before[i]);
            } else if i == p {
                assert(out@[j] == before[j - 1]);
                if j - 1 > p {
                    assert(text_less(before[p as int]@, before[j - 1]@));
                    lemma_text_less_transitive(out@[p as int]@, before[p as int]@, before[j - 1]@);
                }
            } else if i > p {
                assert(out@[i] == before[i - 1]);
                assert(out@[j] == before[j - 1]);
            } else {
                assert(out@[i] == before[i]);
                assert(out@[j] == before[j]);
            }
        }
        assert forall|y: Seq<char>| #[trigger] listed(out@, y) <==> (listed(before, y) || y == out@[p as int]@) by {
            if listed(out@, y) {
                let q = choose|q: int| 0 <= q < out@.len() && (#[trigger] out@[q])@ == y;
                if q < p {
                    assert(out@[q] == before[q]);
                } else if q > p {
                    assert(out@[q] == before[q - 1]);
                }
            }
            if listed(before, y) {
                let b = choose|b: int| 0 <= b < before.len() && (#[trigger] before[b])@ == y;
                if b < p {
                    assert(out@[b] == before[b]);
                } else {
                    assert(out@[b + 1] == before[b]);
                }
            }
            if y == out@[p as int]@ {
                assert(listed(out@, y));
            }
        }
    }
}

} // verus!
