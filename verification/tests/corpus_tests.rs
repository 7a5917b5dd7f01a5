//! The self-delimiting corpus format: encoding, parsing, and their
//! round trip.

use testprog::{
    make_samples_string, parse_corpus, CorpusErrorKind, Fixture, Sample, SampleIterator,
};

fn fixture(name: &[u8], input: &[u8], expected: &[u8]) -> Fixture {
    Fixture { name: name.to_vec(), input: input.to_vec(), expected: expected.to_vec() }
}

#[test]
fn iterator_reads_header_body_pairs() {
    let blob = b"---\nfirst in\n---\nbody bytes\n---\nfirst out\n---\nresult\n";
    let mut sections = SampleIterator::new(blob).expect("a corpus with a first line");
    let Sample { header, body } = sections.next().expect("an input section");
    assert_eq!(header, b"first in".to_vec());
    assert_eq!(body, b"body bytes\n".to_vec());
    let Sample { header, body } = sections.next().expect("an output section");
    assert_eq!(header, b"first out".to_vec());
    assert_eq!(body, b"result\n".to_vec());
    assert!(sections.next().is_none());
}

#[test]
fn iterator_needs_a_first_line() {
    assert!(SampleIterator::new(b"no newline at all").is_none());
    assert!(SampleIterator::new(b"").is_none());
}

#[test]
fn separator_is_taken_from_the_first_line() {
    // the separator here is `==SEP==`, not the usual dashes
    let blob = b"==SEP==\ncase in\n==SEP==\n---\nlooks like dashes\n==SEP==\ncase out\n==SEP==\nok\n";
    let (fixtures, errors) = parse_corpus(blob);
    assert_eq!(errors.len(), 0);
    assert_eq!(fixtures.len(), 1);
    assert_eq!(fixtures[0].name, b"case".to_vec());
    assert_eq!(fixtures[0].input, b"---\nlooks like dashes\n".to_vec());
    assert_eq!(fixtures[0].expected, b"ok\n".to_vec());
}

#[test]
fn round_trip_empty() {
    let encoded = make_samples_string(&vec![]);
    assert_eq!(encoded, Vec::<u8>::new());
    let (fixtures, errors) = parse_corpus(&encoded);
    assert_eq!(fixtures.len(), 0);
    assert_eq!(errors.len(), 0);
}

#[test]
fn round_trip_one() {
    let original = vec![fixture(b"alpha", b"1 2 3\n", b"6\n")];
    let encoded = make_samples_string(&original);
    let (fixtures, errors) = parse_corpus(&encoded);
    assert_eq!(errors.len(), 0);
    assert_eq!(fixtures.len(), 1);
    assert_eq!(fixtures[0].name, original[0].name);
    assert_eq!(fixtures[0].input, original[0].input);
    assert_eq!(fixtures[0].expected, original[0].expected);
}

#[test]
fn round_trip_five_with_embedded_newlines() {
    let original = vec![
        fixture(b"a", b"line one\nline two\n", b"out\n"),
        fixture(b"b", b"", b"\n\n\n"),
        fixture(b"c", b"0\n", b"many\nlines\nhere\n"),
        fixture(b"d_sub", b"x y z\n", b"1\n"),
        fixture(b"e", b"\n", b"\n"),
    ];
    let encoded = make_samples_string(&original);
    let (fixtures, errors) = parse_corpus(&encoded);
    assert_eq!(errors.len(), 0);
    assert_eq!(fixtures.len(), 5);
    for (parsed, first) in fixtures.iter().zip(original.iter()) {
        assert_eq!(parsed.name, first.name);
        assert_eq!(parsed.input, first.input);
        assert_eq!(parsed.expected, first.expected);
    }
}

#[test]
fn encoder_terminates_unterminated_bodies() {
    let original = vec![fixture(b"n", b"no newline", b"also none")];
    let encoded = make_samples_string(&original);
    let (fixtures, errors) = parse_corpus(&encoded);
    assert_eq!(errors.len(), 0);
    assert_eq!(fixtures.len(), 1);
    // the encoder adds the line feed the bodies were missing
    assert_eq!(fixtures[0].input, b"no newline\n".to_vec());
    assert_eq!(fixtures[0].expected, b"also none\n".to_vec());
}

#[test]
fn unpaired_input_reports_one_error_and_rest_parses() {
    // `lost in` has no output section; `kept` parses normally after it
    let blob = b"---\nlost in\n---\n1\n---\nkept in\n---\n2\n---\nkept out\n---\n3\n";
    let (fixtures, errors) = parse_corpus(blob);
    assert_eq!(errors.len(), 1);
    assert_eq!(errors[0].kind, CorpusErrorKind::MissingOutput);
    assert_eq!(errors[0].header, b"lost in".to_vec());
    assert_eq!(fixtures.len(), 1);
    assert_eq!(fixtures[0].name, b"kept".to_vec());
    assert_eq!(fixtures[0].input, b"2\n".to_vec());
    assert_eq!(fixtures[0].expected, b"3\n".to_vec());
}

#[test]
fn input_at_corpus_end_without_output_is_an_error() {
    let blob = b"---\nonly in\n---\nbody\n";
    let (fixtures, errors) = parse_corpus(blob);
    assert_eq!(fixtures.len(), 0);
    assert_eq!(errors.len(), 1);
    assert_eq!(errors[0].kind, CorpusErrorKind::MissingOutput);
}

#[test]
fn header_without_in_suffix_is_an_error() {
    let blob = b"---\nbroken header\n---\n1\n---\ngood in\n---\n2\n---\ngood out\n---\n3\n";
    let (fixtures, errors) = parse_corpus(blob);
    assert_eq!(errors.len(), 1);
    assert_eq!(errors[0].kind, CorpusErrorKind::BadInputHeader);
    assert_eq!(errors[0].header, b"broken header".to_vec());
    assert_eq!(fixtures.len(), 1);
    assert_eq!(fixtures[0].name, b"good".to_vec());
}

#[test]
fn header_trimming_drops_trailing_whitespace_only() {
    let blob = b"---\n  padded in \t\n---\nx\n---\n  padded out\n---\ny\n";
    let (fixtures, errors) = parse_corpus(blob);
    assert_eq!(errors.len(), 0);
    assert_eq!(fixtures.len(), 1);
    // leading whitespace stays: it is part of the name
    assert_eq!(fixtures[0].name, b"  padded".to_vec());
}
