//! The transform-object grammar of `Z` position packets.

use drivesrv::transform::transform_valid;

const GOOD: &[u8] =
    b"{\"pos\":[1.0,2.0,3.0],\"rot\":[0,0,0,1],\"vel\":[0,0,0],\"rvel\":[0,0,0],\"tim\":0,\"ping\":0}";

#[test]
fn the_canonical_transform_is_accepted() {
    assert!(transform_valid(GOOD));
}

#[test]
fn field_order_does_not_matter() {
    let shuffled =
        b"{\"tim\":0,\"ping\":0,\"rot\":[0,0,0,1],\"pos\":[1.0,2.0,3.0],\"vel\":[0,0,0],\"rvel\":[0,0,0]}";
    assert!(transform_valid(shuffled));
}

#[test]
fn whitespace_and_number_forms_are_accepted() {
    let spaced = b" { \"pos\" : [ 1.5 , -2e3 , 3.25E-2 ] , \"rot\" : [0,0,0,1] , \"vel\" : [0,0,0] , \"rvel\" : [0,0,0] , \"tim\" : 12.75 , \"ping\" : -0.5 } ";
    assert!(transform_valid(spaced));
}

#[test]
fn a_missing_field_is_refused() {
    let no_ping = b"{\"pos\":[1,2,3],\"rot\":[0,0,0,1],\"vel\":[0,0,0],\"rvel\":[0,0,0],\"tim\":0}";
    assert!(!transform_valid(no_ping));
}

#[test]
fn a_repeated_field_is_refused() {
    let dup = b"{\"tim\":0,\"tim\":0,\"ping\":0,\"rot\":[0,0,0,1],\"pos\":[1,2,3],\"vel\":[0,0,0]}";
    assert!(!transform_valid(dup));
}

#[test]
fn wrong_array_arity_is_refused() {
    let rot3 = b"{\"pos\":[1,2,3],\"rot\":[0,0,1],\"vel\":[0,0,0],\"rvel\":[0,0,0],\"tim\":0,\"ping\":0}";
    assert!(!transform_valid(rot3));
    let pos4 = b"{\"pos\":[1,2,3,4],\"rot\":[0,0,0,1],\"vel\":[0,0,0],\"rvel\":[0,0,0],\"tim\":0,\"ping\":0}";
    assert!(!transform_valid(pos4));
}

#[test]
fn bad_numbers_are_refused() {
    let leading_zero = b"{\"pos\":[01,2,3],\"rot\":[0,0,0,1],\"vel\":[0,0,0],\"rvel\":[0,0,0],\"tim\":0,\"ping\":0}";
    assert!(!transform_valid(leading_zero));
    let bare_dot = b"{\"pos\":[1.,2,3],\"rot\":[0,0,0,1],\"vel\":[0,0,0],\"rvel\":[0,0,0],\"tim\":0,\"ping\":0}";
    assert!(!transform_valid(bare_dot));
}

#[test]
fn trailing_bytes_are_refused() {
    let mut with_tail = GOOD.to_vec();
    with_tail.push(b'x');
    assert!(!transform_valid(&with_tail));
    assert!(!transform_valid(b""));
    assert!(!transform_valid(b"{}"));
}

#[test]
fn unknown_keys_are_refused() {
    let extra = b"{\"pos\":[1,2,3],\"rot\":[0,0,0,1],\"vel\":[0,0,0],\"rvel\":[0,0,0],\"tim\":0,\"ping\":0,\"x\":1}";
    assert!(!transform_valid(extra));
}
