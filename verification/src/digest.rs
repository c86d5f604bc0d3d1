use vstd::prelude::*;
use vstd::string::*;
use vstd::utf8::*;
use sha2::{Digest, Sha256};

verus! {

/// The SHA-256 digest of a byte string, as the `sha2` crate computes it.
pub uninterp spec fn sha256(data: Seq<u8>) -> Seq<u8>;

/// Calls `sha2::Sha256::digest`. The contract claims that the digest is the named
/// SHA-256 function of the input and, as SHA-256 defines, 32 bytes long.
#[verifier::external_body]
fn sha256_digest(data: &[u8]) -> (r: Vec<u8>)
    ensures
        r@ == sha256(data@),
        r@.len() == 32,
{
    Sha256::digest(data).to_vec()
}

pub open spec fn hex_char(d: nat) -> char {
    if d < 10 {
        crate::decimal::digit_char(d)
    } else if d == 10 {
        'a'
    } else if d == 11 {
        'b'
    } else if d == 12 {
        'c'
    } else if d == 13 {
        'd'
    } else if d == 14 {
        'e'
    } else {
        'f'
    }
}

/// Lower-case hexadecimal spelling of bytes, two digits per byte.
pub open spec fn hex_lower(bytes: Seq<u8>) -> Seq<char>
    decreases bytes.len(),
{
    if bytes.len() == 0 {
        Seq::empty()
    } else {
        hex_lower(bytes.drop_last()) + seq![hex_char((bytes.last() / 16) as nat), hex_char((bytes.last() % 16) as nat)]
    }
}

/// The textual content hash used for versions and derived identifiers.
pub open spec fn hash_text(data: Seq<u8>) -> Seq<char> {
    "sha256:"@ + hex_lower(sha256(data))
}

/// The identifier of an allocation of a kind caused by a given text.
pub open spec fn allocation_id_text(kind: Seq<char>, cause: Seq<char>) -> Seq<char> {
    kind + ":"@ + hash_text(encode_utf8(cause))
}

fn hex_str(d: u8) -> (s: &'static str)
    requires
        d < 16,
    ensures
        s@ == seq![hex_char(d as nat)],
{
    proof {
        reveal_strlit("0");
        reveal_strlit("1");
        reveal_strlit("2");
        reveal_strlit("3");
        reveal_strlit("4");
        reveal_strlit("5");
        reveal_strlit("6");
        reveal_strlit("7");
        reveal_strlit("8");
        reveal_strlit("9");
        reveal_strlit("a");
        reveal_strlit("b");
        reveal_strlit("c");
        reveal_strlit("d");
        reveal_strlit("e");
        reveal_strlit("f");
    }
    let s = if d == 0 {
        "0"
    } else if d == 1 {
        "1"
    } else if d == 2 {
        "2"
    } else if d == 3 {
        "3"
    } else if d == 4 {
        "4"
    } else if d == 5 {
        "5"
    } else if d == 6 {
        "6"
    } else if d == 7 {
        "7"
    } else if d == 8 {
        "8"
    } else if d == 9 {
        "9"
    } else if d == 10 {
        "a"
    } else if d == 11 {
        "b"
    } else if d == 12 {
        "c"
    } else if d == 13 {
        "d"
    } else if d == 14 {
        "e"
    } else {
        "f"
    };
    assert(s@ =~= seq![hex_char(d as nat)]);
    s
}

/// `sha256:` followed by the lower-case hexadecimal SHA-256 digest of the data.
pub fn hash(data: &[u8]) -> (r: String)
    ensures
        r@ == hash_text(data@),
{
    let digest = sha256_digest(data);
    proof {
        reveal_strlit("sha256:");
    }
    let mut r = "sha256:".to_owned();
    let mut i: usize = 0;
    while i < digest.len()
        invariant
            0 <= i <= digest@.len(),
            r@ == "sha256:"@ + hex_lower(digest@.take(i as int)),
        decreases digest@.len() - i,
    {
        let b = digest[i];
        r.append(hex_str(b / 16));
        r.append(hex_str(b % 16));
        proof {
            assert(digest@.take(i + 1).drop_last() =~= digest@.take(i as int));
            assert(digest@.take(i + 1).last() == b);
            assert(r@ =~= "sha256:"@ + hex_lower(digest@.take(i + 1)));
        }
        i = i + 1;
    }
    assert(digest@.take(digest@.len() as int) =~= digest@);
    r
}

/// The identifier of an allocation of `kind` caused by `cause`.
pub fn allocation_id(kind: &str, cause: &str) -> (r: String)
    ensures
        r@ == allocation_id_text(kind@, cause@),
{
    proof {
        reveal_strlit(":");
    }
    let digest = hash(cause.as_bytes());
    let mut r = kind.to_owned();
    r.append(":");
    r.append(digest.as_str());
    assert(r@ =~= allocation_id_text(kind@, cause@));
    r
}

} // verus!
