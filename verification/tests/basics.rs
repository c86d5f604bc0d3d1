use ribosome::cli::argument;
use ribosome::context::cursor;
use ribosome::decimal::{counter, decimal_string, signed_decimal_string};
use ribosome::digest::{allocation_id, hash};
use ribosome::error::{Error, CONFLICT, DENIED, EXHAUSTED, INTERNAL, INVALID, MISSING};

#[test]
fn counter_reads_decimal_strings() {
    assert_eq!(counter("0").unwrap(), 0);
    assert_eq!(counter("42").unwrap(), 42);
    assert_eq!(counter("18446744073709551615").unwrap(), u64::MAX);
}

#[test]
fn counter_rejects_other_text() {
    assert_eq!(counter("").unwrap_err().code, INVALID);
    assert_eq!(counter("4a").unwrap_err().code, INVALID);
    assert_eq!(counter("-1").unwrap_err().code, INVALID);
    assert_eq!(counter("18446744073709551616").unwrap_err().code, INVALID);
}

#[test]
fn decimal_strings_round_trip_through_counter() {
    for n in [0u64, 7, 10, 1234, 99999, u64::MAX] {
        let s = decimal_string(n);
        assert_eq!(s, n.to_string());
        assert_eq!(counter(&s).unwrap(), n);
    }
}

#[test]
fn signed_decimal_strings_match_the_usual_spelling() {
    for n in [0i64, 5, -5, 120, i64::MIN, i64::MAX] {
        assert_eq!(signed_decimal_string(n), n.to_string());
    }
}

#[test]
fn hash_spells_sha256_in_lower_hex() {
    assert_eq!(
        hash(b""),
        "sha256:e3b0c44298fc1c149afbf4c8996fb92427ae41e4649b934ca495991b7852b855"
    );
    assert_eq!(
        hash(b"abc"),
        "sha256:ba7816bf8f01cfea414140de5dae2223b00361a396177a9cb410ff61f20015ad"
    );
}

#[test]
fn allocation_ids_name_their_kind_and_hash_their_cause() {
    let id = allocation_id("root", "grant-1");
    assert_eq!(id, format!("root:{}", hash(b"grant-1")));
    assert_ne!(allocation_id("run", "grant-1"), id);
}

#[test]
fn error_constructors_carry_their_codes() {
    assert_eq!(Error::invalid("x").code, INVALID);
    assert_eq!(Error::denied("x").code, DENIED);
    assert_eq!(Error::conflict("x").code, CONFLICT);
    assert_eq!(Error::missing("x").code, MISSING);
    assert_eq!(Error::exhausted("x").code, EXHAUSTED);
    assert_eq!(Error::internal("why").code, INTERNAL);
    assert_eq!(Error::internal("why").message, "why");
    assert_eq!(INVALID, -32602);
    assert_eq!(DENIED, -32001);
    assert_eq!(CONFLICT, -32002);
    assert_eq!(MISSING, -32004);
    assert_eq!(EXHAUSTED, -32005);
    assert_eq!(INTERNAL, -32603);
}

#[test]
fn context_cursors_fit_a_signed_integer() {
    assert_eq!(cursor("0").unwrap(), 0);
    assert_eq!(cursor("9223372036854775807").unwrap(), i64::MAX);
    assert_eq!(cursor("9223372036854775808").unwrap_err().code, INVALID);
    assert_eq!(cursor("x").unwrap_err().code, INVALID);
}

#[test]
fn arguments_are_read_by_position() {
    let args = vec!["init".to_string(), "dir".to_string()];
    assert_eq!(argument(&args, 0).unwrap(), "init");
    assert_eq!(argument(&args, 1).unwrap(), "dir");
    assert_eq!(argument(&args, 2).unwrap_err().code, INVALID);
    assert_eq!(argument(&args, 2).unwrap_err().message, "missing argument; use ribosome --help");
}
