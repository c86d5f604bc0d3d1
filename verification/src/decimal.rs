use vstd::prelude::*;
use vstd::string::*;
use crate::error::{Error, Result, INVALID};

verus! {

pub open spec fn is_digit(c: char) -> bool {
    '0' <= c && c <= '9'
}

pub open spec fn digit_value(c: char) -> nat {
    (c as int - '0' as int) as nat
}

pub open spec fn all_digits(s: Seq<char>) -> bool {
    forall|i: int| 0 <= i < s.len() ==> #[trigger] is_digit(s[i])
}

/// The number that a string of decimal digits denotes.
pub open spec fn decimal_value(s: Seq<char>) -> nat
    decreases s.len(),
{
    if s.len() == 0 {
        0
    } else {
        decimal_value(s.drop_last()) * 10 + digit_value(s.last())
    }
}

/// A counter is a non-empty string of decimal digits whose value fits in 64 bits.
pub open spec fn is_counter(s: Seq<char>) -> bool {
    &&& s.len() > 0
    &&& all_digits(s)
    &&& decimal_value(s) <= u64::MAX
}

pub open spec fn digit_char(d: nat) -> char {
    if d == 0 { '0' }
    else if d == 1 { '1' }
    else if d == 2 { '2' }
    else if d == 3 { '3' }
    else if d == 4 { '4' }
    else if d == 5 { '5' }
    else if d == 6 { '6' }
    else if d == 7 { '7' }
    else if d == 8 { '8' }
    else { '9' }
}

/// The canonical decimal spelling of a number.
pub open spec fn decimal_repr(n: nat) -> Seq<char>
    decreases n,
{
    if n < 10 {
        seq![digit_char(n)]
    } else {
        decimal_repr(n / 10).push(digit_char(n % 10))
    }
}

proof fn lemma_prefix_value_bounded(s: Seq<char>, i: int)
    requires
        all_digits(s),
        0 <= i <= s.len(),
    ensures
        decimal_value(s.take(i)) <= decimal_value(s),
    decreases s.len() - i,
{
    if i < s.len() {
        lemma_prefix_value_bounded(s, i + 1);
        assert(s.take(i + 1).drop_last() =~= s.take(i));
        assert(is_digit(s[i]));
    } else {
        assert(s.take(i) =~= s);
    }
}

proof fn lemma_digit_char(d: nat)
    requires
        d < 10,
    ensures
        is_digit(digit_char(d)),
        digit_value(digit_char(d)) == d,
{
}

/// Printing a number and reading it back gives the number.
pub proof fn lemma_decimal_roundtrip(n: nat)
    requires
        n <= u64::MAX,
    ensures
        is_counter(decimal_repr(n)),
        decimal_value(decimal_repr(n)) == n,
    decreases n,
{
    if n < 10 {
        lemma_digit_char(n);
        let s = decimal_repr(n);
        assert(s.drop_last() =~= Seq::<char>::empty());
        assert(decimal_value(Seq::<char>::empty()) == 0);
        assert(decimal_value(s) == n);
        assert(is_digit(s[0]));
    } else {
        lemma_decimal_roundtrip(n / 10);
        lemma_digit_char(n % 10);
        let p = decimal_repr(n / 10);
        let s = decimal_repr(n);
        assert(s.drop_last() =~= p);
        assert(s.last() == digit_char(n % 10));
        assert(decimal_value(s) == decimal_value(p) * 10 + (n % 10));
        assert(decimal_value(s) == n);
        assert forall|i: int| 0 <= i < s.len() implies #[trigger] is_digit(s[i]) by {
            if i < p.len() {
                assert(s[i] == p[i]);
            }
        }
    }
}

/// Reads a counter: a decimal string of at most 64 bits.
pub fn counter(value: &str) -> (r: Result<u64>)
    ensures
        r matches Ok(n) ==> is_counter(value@) && n == decimal_value(value@),
        r matches Err(e) ==> !is_counter(value@) && e.code == INVALID,
{
    let len = value.unicode_len();
    if len == 0 {
        return Err(Error::invalid("counter must be a decimal string"));
    }
    let mut acc: u64 = 0;
    let mut i: usize = 0;
    while i < len
        invariant
            len == value@.len(),
            0 <= i <= len,
            all_digits(value@.take(i as int)),
            acc == decimal_value(value@.take(i as int)),
        decreases len - i,
    {
        let c = value.get_char(i);
        if !('0' <= c && c <= '9') {
            assert(!is_digit(value@[i as int]));
            return Err(Error::invalid("counter must be a decimal string"));
        }
        let d = (c as u32 - '0' as u32) as u64;
        proof {
            assert(value@.take(i + 1).drop_last() =~= value@.take(i as int));
            assert(value@.take(i + 1).last() == c);
        }
        if acc > (u64::MAX - d) / 10 {
            proof {
                assert(acc * 10 + d > u64::MAX) by (nonlinear_arith)
                    requires acc > (u64::MAX - d) / 10, d <= 9;
                assert forall|j: int| 0 <= j < value@.take(i + 1).len() implies #[trigger] is_digit(value@.take(i + 1)[j]) by {
                    if j < i {
                        assert(value@.take(i + 1)[j] == value@.take(i as int)[j]);
                    }
                }
                if all_digits(value@) {
                    lemma_prefix_value_bounded(value@, i + 1);
                }
            }
            return Err(Error::invalid("counter exceeds 64 bits"));
        }
        proof {
            assert(acc * 10 + d <= u64::MAX) by (nonlinear_arith)
                requires acc <= (u64::MAX - d) / 10, d <= 9;
        }
        acc = acc * 10 + d;
        i = i + 1;
        proof {
            assert forall|j: int| 0 <= j < value@.take(i as int).len() implies #[trigger] is_digit(value@.take(i as int)[j]) by {
                if j < i - 1 {
                    assert(value@.take(i as int)[j] == value@.take(i - 1)[j]);
                }
            }
        }
    }
    assert(value@.take(len as int) =~= value@);
    Ok(acc)
}

fn digit_str(d: u64) -> (s: &'static str)
    requires
        d < 10,
    ensures
        s@ == seq![digit_char(d as nat)],
{
    proof {
        reveal_strlit("0");
        reveal_strlit("1");
        reveal_strlit("2");
        reveal_strlit("3");
        reveal_strlit("4");
        reveal_strlit("5");
        reveal_strlit("6");
        reveal_strlit("7");
        reveal_strlit("8");
        reveal_strlit("9");
    }
    let s = if d == 0 {
        "0"
    } else if d == 1 {
        "1"
    } else if d == 2 {
        "2"
    } else if d == 3 {
        "3"
    } else if d == 4 {
        "4"
    } else if d == 5 {
        "5"
    } else if d == 6 {
        "6"
    } else if d == 7 {
        "7"
    } else if d == 8 {
        "8"
    } else {
        "9"
    };
    assert(s@ =~= seq![digit_char(d as nat)]);
    s
}

/// Spells a number in decimal, as the ledger stores counters.
pub fn decimal_string(n: u64) -> (s: String)
    ensures
        s@ == decimal_repr(n as nat),
        is_counter(s@),
        decimal_value(s@) == n,
    decreases n,
{
    proof {
        lemma_decimal_roundtrip(n as nat);
    }
    if n < 10 {
        digit_str(n).to_owned()
    } else {
        let mut s = decimal_string(n / 10);
        s.append(digit_str(n % 10));
        s
    }
}


/// A signed number in decimal, with a leading minus sign when negative.
pub open spec fn signed_repr(n: int) -> Seq<char> {
    if n < 0 { "-"@ + decimal_repr((-n) as nat) } else { decimal_repr(n as nat) }
}

/// Spells a signed number in decimal.
pub fn signed_decimal_string(n: i64) -> (s: String)
    ensures
        s@ == signed_repr(n as int),
{
    if n < 0 {
        proof {
            reveal_strlit("-");
        }
        let magnitude: u64 = ((-(n + 1)) as u64) + 1;
        let mut s = "-".to_owned();
        s.append(decimal_string(magnitude).as_str());
        s
    } else {
        decimal_string(n as u64)
    }
}

} // verus!
