//! The hash helpers under the fingerprints.

use testprog::{append_hash, fnv1a_hash, parse_hex128, u128_to_hex, AlreadyReported, report,
    report_custom, report_io_error};

#[test]
fn fnv1a_matches_known_vectors() {
    assert_eq!(fnv1a_hash(b""), 0xcbf29ce484222325);
    assert_eq!(fnv1a_hash(b"a"), 0xaf63dc4c8601ec8c);
    assert_eq!(fnv1a_hash(b"foobar"), 0x85944171f73967e8);
}

#[test]
fn append_hash_folds_by_exclusive_or() {
    let mut h: u128 = 0;
    append_hash(&mut h, b"options");
    let once = h;
    assert_ne!(once, 0);
    // folding the same value again cancels out
    append_hash(&mut h, b"options");
    assert_eq!(h, 0);
    // the widened mask repeats the 64-bit hash in both halves
    let word = fnv1a_hash(b"options");
    assert_eq!(once, (word as u128) | ((word as u128) << 64));
}

#[test]
fn hex_parses_what_it_renders() {
    for value in [0u128, 1, 0xdead_beef, u128::MAX, 0x0123_4567_89ab_cdef] {
        let digits = u128_to_hex(value);
        assert_eq!(parse_hex128(&digits), Some(value));
    }
    // uppercase digits are read as well
    assert_eq!(parse_hex128(b"000000000000000000000000000000FF"), Some(0xff));
    // but only exactly 32 hexadecimal digits
    assert_eq!(parse_hex128(b"ff"), None);
    assert_eq!(parse_hex128(b"000000000000000000000000000000zz"), None);
}

#[test]
fn reports_render_their_lines() {
    let (line, marker) = report(b"failed to open file", b"a.cpp");
    assert_eq!(line, b"failed to open file `a.cpp`".to_vec());
    assert_eq!(marker, AlreadyReported);
    assert!(marker.to_result().is_err());

    let (line, _) = report_custom(b"writing to child stdin failed", b"broken pipe");
    assert_eq!(line, b"writing to child stdin failed\n  broken pipe".to_vec());

    let (line, _) = report_io_error(b"failed to read file", b"x.samples", b"not found");
    assert_eq!(line, b"failed to read file `x.samples`\n  not found".to_vec());
}
