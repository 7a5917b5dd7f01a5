//! The self-delimiting fixture-corpus format.
//!
//! A corpus is one text blob whose first line (newline included) is the
//! section separator for the rest of the blob. Splitting the remainder on
//! that separator yields alternating header and body sections; a header
//! names a fixture and says whether its body is the input or the expected
//! output. Bodies are opaque bytes and may contain anything that never
//! reproduces the separator line.

use vstd::prelude::*;

use crate::bytes::{
    append_bytes, ends_with, find_byte, is_ascii_ws, is_suffix_of, match_at, matches_at,
    no_match, split_on, split_on_from, trim_end, trim_end_spec, views_of,
};

verus! {

/// The index of the first line feed in `data`, or `data.len()` if none.
pub open spec fn first_newline(data: Seq<u8>) -> int
    decreases data.len(),
{
    if data.len() == 0 {
        0
    } else if data[0] == 0x0a {
        0
    } else {
        1 + first_newline(data.skip(1))
    }
}

/// The sections of a corpus blob: the first line (newline included) is the
/// separator, and the rest of the blob is split on it. A blob without a
/// newline has no sections.
pub open spec fn corpus_sections(data: Seq<u8>) -> Seq<Seq<u8>> {
    let k = first_newline(data);
    if k == data.len() {
        seq![]
    } else {
        split_on(data.skip(k + 1), data.take(k + 1))
    }
}

proof fn lemma_first_newline_at(data: Seq<u8>, i: int)
    requires
        0 <= i <= data.len(),
        forall|j: int| 0 <= j < i ==> data[j] != 0x0a,
        i < data.len() ==> data[i] == 0x0a,
    ensures
        first_newline(data) == if i < data.len() {
            i
        } else {
            data.len() as int
        },
    decreases data.len(),
{
    if data.len() == 0 {
    } else if data[0] == 0x0a {
    } else {
        lemma_first_newline_at(data.skip(1), i - 1);
    }
}

/// The header suffix that marks an input section: `" in"`.
pub open spec fn in_suffix() -> Seq<u8> {
    seq![0x20u8, 0x69u8, 0x6eu8]
}

/// The header suffix that marks an expected-output section: `" out"`.
pub open spec fn out_suffix() -> Seq<u8> {
    seq![0x20u8, 0x6fu8, 0x75u8, 0x74u8]
}

/// One section of a corpus: the header line that precedes a body, and the
/// body's raw bytes.
pub struct Sample {
    /// The header with trailing whitespace removed; `<name> in` or
    /// `<name> out`.
    pub header: Vec<u8>,
    /// The body bytes, verbatim.
    pub body: Vec<u8>,
}

/// A finite, non-restartable reader of `(header, body)` section pairs of
/// one corpus blob.
pub struct SampleIterator {
    chunks: Vec<Vec<u8>>,
}

impl SampleIterator {
    /// The sections not yet handed out.
    pub closed spec fn sections(self) -> Seq<Seq<u8>> {
        views_of(self.chunks@)
    }

    /// Reads the separator off the first line of `data` and splits the
    /// rest on it. A blob without a newline has no separator and cannot
    /// be read at all.
    pub fn new(data: &[u8]) -> (r: Option<SampleIterator>)
        ensures
            match r {
                Some(it) => first_newline(data@) < data@.len() && it.sections()
                    == corpus_sections(data@),
                None => first_newline(data@) == data@.len(),
            },
    {
        let nl = match find_byte(data, 0x0a) {
            Some(i) => i,
            None => {
                proof {
                    lemma_first_newline_at(data@, data@.len() as int);
                }
                return None;
            },
        };
        proof {
            lemma_first_newline_at(data@, nl as int);
        }
        assert(nl < data.len());
        let sep = vstd::slice::slice_subrange(data, 0, nl + 1);
        let rest = vstd::slice::slice_subrange(data, nl + 1, data.len());
        proof {
            assert(sep@ =~= data@.take(nl + 1));
            assert(rest@ =~= data@.skip(nl + 1));
        }
        let mut chunks: Vec<Vec<u8>> = Vec::new();
        let mut cur: Vec<u8> = Vec::new();
        let mut pos: usize = 0;
        proof {
            assert(rest@.skip(0) =~= rest@);
            assert(views_of(chunks@) =~= Seq::<Seq<u8>>::empty());
        }
        while pos < rest.len()
            invariant
                sep@.len() >= 1,
                0 <= pos <= rest@.len(),
                split_on(rest@, sep@) =~= views_of(chunks@) + split_on_from(
                    rest@.skip(pos as int),
                    sep@,
                    cur@,
                ),
            decreases rest@.len() - pos,
        {
            let ghost s = rest@.skip(pos as int);
            if matches_at(rest, sep, pos) {
                proof {
                    assert(s.take(sep@.len() as int) =~= rest@.subrange(
                        pos as int,
                        pos + sep@.len(),
                    ));
                    assert(split_on_from(s, sep@, cur@) == seq![cur@] + split_on_from(
                        s.skip(sep@.len() as int),
                        sep@,
                        Seq::<u8>::empty(),
                    ));
                    assert(s.skip(sep@.len() as int) =~= rest@.skip(pos + sep@.len()));
                }
                chunks.push(cur);
                cur = Vec::new();
                proof {
                    assert(views_of(chunks@) =~= views_of(chunks@.drop_last()) + seq![
                        chunks@.last()@,
                    ]);
                }
                pos = pos + sep.len();
            } else {
                proof {
                    if s.len() >= sep@.len() {
                        assert(s.take(sep@.len() as int) =~= rest@.subrange(
                            pos as int,
                            pos + sep@.len(),
                        ));
                        assert(s.take(sep@.len() as int) != sep@);
                        assert(split_on_from(s, sep@, cur@) == split_on_from(
                            s.skip(1),
                            sep@,
                            cur@.push(s[0]),
                        ));
                    } else {
                        assert(split_on_from(s, sep@, cur@) == seq![cur@ + s]);
                        assert(split_on_from(s.skip(1), sep@, cur@.push(s[0])) == seq![
                            cur@.push(s[0]) + s.skip(1),
                        ]);
                        assert(cur@.push(s[0]) + s.skip(1) =~= cur@ + s);
                    }
                    assert(s.skip(1) =~= rest@.skip(pos + 1));
                    assert(s[0] == rest@[pos as int]);
                }
                let b = rest[pos];
                cur.push(b);
                pos = pos + 1;
            }
        }
        proof {
            assert(rest@.skip(pos as int) =~= Seq::<u8>::empty());
            assert(split_on_from(Seq::<u8>::empty(), sep@, cur@) == seq![
                cur@ + Seq::<u8>::empty(),
            ]);
            assert(cur@ + Seq::<u8>::empty() =~= cur@);
        }
        chunks.push(cur);
        proof {
            assert(views_of(chunks@) =~= views_of(chunks@.drop_last()) + seq![chunks@.last()@]);
        }
        Some(SampleIterator { chunks })
    }

    /// Hands out the next `(header, body)` pair. A lone trailing section
    /// has no body and ends the iteration; nothing can be read past it.
    pub fn next(&mut self) -> (r: Option<Sample>)
        ensures
            match r {
                Some(sample) => {
                    &&& old(self).sections().len() >= 2
                    &&& sample.header@ == trim_end_spec(old(self).sections()[0])
                    &&& sample.body@ == old(self).sections()[1]
                    &&& final(self).sections() == old(self).sections().skip(2)
                },
                None => {
                    &&& old(self).sections().len() < 2
                    &&& final(self).sections().len() == 0
                },
            },
    {
        if self.chunks.len() < 2 {
            self.chunks = Vec::new();
            return None;
        }
        let header_raw = self.chunks.remove(0);
        let body = self.chunks.remove(0);
        proof {
            assert(views_of(self.chunks@) =~= old(self).sections().skip(2));
        }
        let header = trim_end(header_raw.as_slice());
        Some(Sample { header, body })
    }
}

/// One named test case: input bytes fed to the program and the output
/// bytes its output stream must equal.
pub struct Fixture {
    pub name: Vec<u8>,
    pub input: Vec<u8>,
    pub expected: Vec<u8>,
}

/// The mathematical value of a `Fixture`.
#[verifier::ext_equal]
pub struct FixtureModel {
    pub name: Seq<u8>,
    pub input: Seq<u8>,
    pub expected: Seq<u8>,
}

impl View for Fixture {
    type V = FixtureModel;

    open spec fn view(&self) -> FixtureModel {
        FixtureModel { name: self.name@, input: self.input@, expected: self.expected@ }
    }
}

/// Why a section pair was rejected while reading a corpus.
#[derive(Clone, Copy, PartialEq, Eq, Structural, Debug)]
pub enum CorpusErrorKind {
    /// A header stood where an input header was due but does not end with
    /// `" in"`.
    BadInputHeader,
    /// An input section is not followed by an output section.
    MissingOutput,
}

/// One corpus-integrity error: the offending header and what was wrong.
pub struct CorpusError {
    pub header: Vec<u8>,
    pub kind: CorpusErrorKind,
}

/// The mathematical value of a `CorpusError`.
#[verifier::ext_equal]
pub struct CorpusErrorModel {
    pub header: Seq<u8>,
    pub kind: CorpusErrorKind,
}

impl View for CorpusError {
    type V = CorpusErrorModel;

    open spec fn view(&self) -> CorpusErrorModel {
        CorpusErrorModel { header: self.header@, kind: self.kind }
    }
}

/// The `(header, body)` pairs of a section list, headers trimmed of
/// trailing whitespace. A lone trailing section is dropped.
pub open spec fn items_of(sections: Seq<Seq<u8>>) -> Seq<(Seq<u8>, Seq<u8>)>
    decreases sections.len(),
{
    if sections.len() < 2 {
        seq![]
    } else {
        seq![(trim_end_spec(sections[0]), sections[1])] + items_of(sections.skip(2))
    }
}

/// What parsing a list of section pairs yields: the fixtures, and the
/// integrity errors. An input pair whose output pair is missing or
/// malformed is reported and skipped alone, so parsing resumes at the very
/// next pair.
pub open spec fn parse_items(items: Seq<(Seq<u8>, Seq<u8>)>) -> (Seq<FixtureModel>, Seq<
    CorpusErrorModel,
>)
    decreases items.len(),
{
    if items.len() == 0 {
        (seq![], seq![])
    } else {
        let h = items[0].0;
        if !is_suffix_of(in_suffix(), h) {
            let rest = parse_items(items.skip(1));
            (rest.0, seq![CorpusErrorModel { header: h, kind: CorpusErrorKind::BadInputHeader }]
                + rest.1)
        } else if items.len() == 1 {
            (seq![], seq![CorpusErrorModel { header: h, kind: CorpusErrorKind::MissingOutput }])
        } else if !is_suffix_of(out_suffix(), items[1].0) {
            let rest = parse_items(items.skip(1));
            (rest.0, seq![CorpusErrorModel { header: h, kind: CorpusErrorKind::MissingOutput }]
                + rest.1)
        } else {
            let rest = parse_items(items.skip(2));
            (seq![
                FixtureModel {
                    name: h.take(h.len() - 3),
                    input: items[0].1,
                    expected: items[1].1,
                },
            ] + rest.0, rest.1)
        }
    }
}

/// The fixtures and errors a whole corpus blob denotes.
pub open spec fn corpus_fixtures(data: Seq<u8>) -> Seq<FixtureModel> {
    parse_items(items_of(corpus_sections(data))).0
}

/// See `corpus_fixtures`.
pub open spec fn corpus_errors(data: Seq<u8>) -> Seq<CorpusErrorModel> {
    parse_items(items_of(corpus_sections(data))).1
}

/// The views of a vector of fixtures.
pub open spec fn fixture_views(fixtures: Seq<Fixture>) -> Seq<FixtureModel> {
    fixtures.map_values(|f: Fixture| f@)
}

/// The views of a vector of corpus errors.
pub open spec fn error_views(errors: Seq<CorpusError>) -> Seq<CorpusErrorModel> {
    errors.map_values(|e: CorpusError| e@)
}

/// The `(header, body)` views of a vector of samples.
pub open spec fn item_views(samples: Seq<Sample>) -> Seq<(Seq<u8>, Seq<u8>)> {
    samples.map_values(|s: Sample| (s.header@, s.body@))
}

fn copy_bytes(v: &[u8]) -> (r: Vec<u8>)
    ensures
        r@ == v@,
{
    vstd::slice::slice_to_vec(v)
}

fn in_suffix_bytes() -> (r: Vec<u8>)
    ensures
        r@ == in_suffix(),
{
    let mut v: Vec<u8> = Vec::new();
    v.push(0x20);
    v.push(0x69);
    v.push(0x6e);
    proof {
        assert(v@ =~= in_suffix());
    }
    v
}

fn out_suffix_bytes() -> (r: Vec<u8>)
    ensures
        r@ == out_suffix(),
{
    let mut v: Vec<u8> = Vec::new();
    v.push(0x20);
    v.push(0x6f);
    v.push(0x75);
    v.push(0x74);
    proof {
        assert(v@ =~= out_suffix());
    }
    v
}

/// Decodes a corpus blob into its fixtures, reporting each malformed or
/// unpaired section and carrying on with the pairs after it.
pub fn parse_corpus(data: &[u8]) -> (r: (Vec<Fixture>, Vec<CorpusError>))
    ensures
        fixture_views(r.0@) == corpus_fixtures(data@),
        error_views(r.1@) == corpus_errors(data@),
{
    let ghost all_sections = corpus_sections(data@);
    let ghost all_items = items_of(all_sections);
    let mut samples: Vec<Sample> = Vec::new();
    let mut it = match SampleIterator::new(data) {
        Some(it) => it,
        None => {
            let fixtures: Vec<Fixture> = Vec::new();
            let errors: Vec<CorpusError> = Vec::new();
            proof {
                assert(fixture_views(fixtures@) =~= corpus_fixtures(data@));
                assert(error_views(errors@) =~= corpus_errors(data@));
            }
            return (fixtures, errors);
        },
    };
    loop
        invariant
            item_views(samples@) + items_of(it.sections()) =~= all_items,
        ensures
            item_views(samples@) =~= all_items,
        decreases it.sections().len(),
    {
        let ghost before = it.sections();
        match it.next() {
            Some(sample) => {
                proof {
                    assert(items_of(before) == seq![(trim_end_spec(before[0]), before[1])]
                        + items_of(before.skip(2)));
                }
                samples.push(sample);
                proof {
                    assert(item_views(samples@) =~= item_views(samples@.drop_last()) + seq![
                        (samples@.last().header@, samples@.last().body@),
                    ]);
                }
            },
            None => {
                proof {
                    assert(items_of(before) =~= Seq::<(Seq<u8>, Seq<u8>)>::empty());
                    assert(item_views(samples@) + items_of(it.sections()) =~= item_views(
                        samples@,
                    ));
                }
                break;
            },
        }
    }
    let in_suf = in_suffix_bytes();
    let out_suf = out_suffix_bytes();
    let mut fixtures: Vec<Fixture> = Vec::new();
    let mut errors: Vec<CorpusError> = Vec::new();
    let mut i: usize = 0;
    let n = samples.len();
    proof {
        assert(item_views(samples@).skip(0) =~= all_items);
        assert(fixture_views(fixtures@) =~= Seq::<FixtureModel>::empty());
        assert(error_views(errors@) =~= Seq::<CorpusErrorModel>::empty());
    }
    while i < n
        invariant
            n == samples@.len(),
            0 <= i <= n,
            in_suf@ == in_suffix(),
            out_suf@ == out_suffix(),
            item_views(samples@) == all_items,
            parse_items(all_items).0 =~= fixture_views(fixtures@) + parse_items(
                item_views(samples@).skip(i as int),
            ).0,
            parse_items(all_items).1 =~= error_views(errors@) + parse_items(
                item_views(samples@).skip(i as int),
            ).1,
        decreases n - i,
    {
        let ghost items = item_views(samples@);
        let ghost rest = items.skip(i as int);
        proof {
            assert(rest[0] == items[i as int]);
            assert(rest.skip(1) =~= items.skip(i + 1));
        }
        let header = &samples[i].header;
        if !ends_with(header.as_slice(), in_suf.as_slice()) {
            errors.push(CorpusError { header: copy_bytes(header.as_slice()), kind: CorpusErrorKind::BadInputHeader });
            proof {
                assert(error_views(errors@) =~= error_views(errors@.drop_last()) + seq![
                    errors@.last()@,
                ]);
            }
            i = i + 1;
        } else if i + 1 == n {
            errors.push(CorpusError { header: copy_bytes(header.as_slice()), kind: CorpusErrorKind::MissingOutput });
            proof {
                assert(rest.len() == 1);
                assert(error_views(errors@) =~= error_views(errors@.drop_last()) + seq![
                    errors@.last()@,
                ]);
                assert(parse_items(items.skip(i + 1)) == (
                    Seq::<FixtureModel>::empty(),
                    Seq::<CorpusErrorModel>::empty(),
                )) by {
                    assert(items.skip(i + 1).len() == 0);
                }
            }
            i = i + 1;
        } else if !ends_with(samples[i + 1].header.as_slice(), out_suf.as_slice()) {
            proof {
                assert(rest[1] == items[i + 1]);
            }
            errors.push(CorpusError { header: copy_bytes(header.as_slice()), kind: CorpusErrorKind::MissingOutput });
            proof {
                assert(error_views(errors@) =~= error_views(errors@.drop_last()) + seq![
                    errors@.last()@,
                ]);
            }
            i = i + 1;
        } else {
            proof {
                assert(rest[1] == items[i + 1]);
                assert(rest.skip(2) =~= items.skip(i + 2));
            }
            let name = vstd::slice::slice_subrange(header.as_slice(), 0, header.len() - 3);
            proof {
                assert(name@ =~= header@.take(header@.len() - 3));
            }
            let fixture = Fixture {
                name: vstd::slice::slice_to_vec(name),
                input: copy_bytes(samples[i].body.as_slice()),
                expected: copy_bytes(samples[i + 1].body.as_slice()),
            };
            fixtures.push(fixture);
            proof {
                assert(fixture_views(fixtures@) =~= fixture_views(fixtures@.drop_last()) + seq![
                    fixtures@.last()@,
                ]);
            }
            i = i + 2;
        }
    }
    proof {
        assert(item_views(samples@).skip(n as int) =~= Seq::<(Seq<u8>, Seq<u8>)>::empty());
        assert(fixture_views(fixtures@) =~= corpus_fixtures(data@));
        assert(error_views(errors@) =~= corpus_errors(data@));
    }
    (fixtures, errors)
}

/// The separator line the encoder writes: `---` and a line feed.
pub open spec fn default_separator() -> Seq<u8> {
    seq![0x2du8, 0x2du8, 0x2du8, 0x0au8]
}

/// A body as the encoder writes it: unchanged, except that a nonempty body
/// without a final line feed gets one, so that the next separator starts
/// its own line.
pub open spec fn encoded_body(b: Seq<u8>) -> Seq<u8> {
    if b.len() == 0 || b.last() == 0x0a {
        b
    } else {
        b.push(0x0au8)
    }
}

/// The header line of an input section, line feed included.
pub open spec fn in_header(name: Seq<u8>) -> Seq<u8> {
    name + in_suffix() + seq![0x0au8]
}

/// The header line of an output section, line feed included.
pub open spec fn out_header(name: Seq<u8>) -> Seq<u8> {
    name + out_suffix() + seq![0x0au8]
}

/// One fixture's four sections as the encoder writes them, each preceded
/// by the separator line.
pub open spec fn encoded_fixture(f: FixtureModel) -> Seq<u8> {
    default_separator() + in_header(f.name) + default_separator() + encoded_body(f.input)
        + default_separator() + out_header(f.name) + default_separator() + encoded_body(f.expected)
}

/// A whole corpus as the encoder writes it.
pub open spec fn encoded_corpus(fixtures: Seq<FixtureModel>) -> Seq<u8>
    decreases fixtures.len(),
{
    if fixtures.len() == 0 {
        seq![]
    } else {
        encoded_fixture(fixtures[0]) + encoded_corpus(fixtures.skip(1))
    }
}

fn separator_bytes() -> (r: Vec<u8>)
    ensures
        r@ == default_separator(),
{
    let mut v: Vec<u8> = Vec::new();
    v.push(0x2d);
    v.push(0x2d);
    v.push(0x2d);
    v.push(0x0a);
    proof {
        assert(v@ =~= default_separator());
    }
    v
}

fn append_header(buf: &mut Vec<u8>, sep: &[u8], name: &[u8], suf: &[u8])
    requires
        sep@ == default_separator(),
    ensures
        final(buf)@ == old(buf)@ + default_separator() + (name@ + suf@ + seq![0x0au8]),
{
    append_bytes(buf, sep);
    append_bytes(buf, name);
    append_bytes(buf, suf);
    buf.push(0x0a);
    proof {
        assert(buf@ =~= old(buf)@ + default_separator() + (name@ + suf@ + seq![0x0au8]));
    }
}

fn append_body(buf: &mut Vec<u8>, sep: &[u8], body: &[u8])
    requires
        sep@ == default_separator(),
    ensures
        final(buf)@ == old(buf)@ + default_separator() + encoded_body(body@),
{
    append_bytes(buf, sep);
    append_bytes(buf, body);
    if body.len() > 0 && body[body.len() - 1] != 0x0a {
        buf.push(0x0a);
        proof {
            assert(body@.last() == body@[body@.len() - 1]);
            assert(buf@ =~= old(buf)@ + default_separator() + encoded_body(body@));
        }
    } else {
        proof {
            if body@.len() > 0 {
                assert(body@.last() == body@[body@.len() - 1]);
            }
            assert(buf@ =~= old(buf)@ + default_separator() + encoded_body(body@));
        }
    }
}

/// Encodes named fixtures into one self-delimiting corpus blob, the
/// inverse of `parse_corpus` on well-formed fixtures.
pub fn make_samples_string(fixtures: &Vec<Fixture>) -> (r: Vec<u8>)
    ensures
        r@ == encoded_corpus(fixture_views(fixtures@)),
{
    let sep = separator_bytes();
    let in_suf = in_suffix_bytes();
    let out_suf = out_suffix_bytes();
    let mut buf: Vec<u8> = Vec::new();
    let n = fixtures.len();
    let mut i: usize = 0;
    proof {
        assert(fixture_views(fixtures@).take(0) =~= Seq::<FixtureModel>::empty());
        assert(buf@ =~= encoded_corpus(fixture_views(fixtures@).take(0)));
    }
    while i < n
        invariant
            n == fixtures@.len(),
            0 <= i <= n,
            sep@ == default_separator(),
            in_suf@ == in_suffix(),
            out_suf@ == out_suffix(),
            buf@ == encoded_corpus(fixture_views(fixtures@).take(i as int)),
        decreases n - i,
    {
        let ghost views = fixture_views(fixtures@);
        let ghost before = buf@;
        let fixture = &fixtures[i];
        append_header(&mut buf, sep.as_slice(), fixture.name.as_slice(), in_suf.as_slice());
        append_body(&mut buf, sep.as_slice(), fixture.input.as_slice());
        append_header(&mut buf, sep.as_slice(), fixture.name.as_slice(), out_suf.as_slice());
        append_body(&mut buf, sep.as_slice(), fixture.expected.as_slice());
        proof {
            assert(buf@ =~= before + encoded_fixture(views[i as int]));
            lemma_encoded_corpus_snoc(views.take(i as int), views[i as int]);
            assert(views.take(i as int).push(views[i as int]) =~= views.take(i + 1));
        }
        i = i + 1;
    }
    proof {
        assert(fixture_views(fixtures@).take(n as int) =~= fixture_views(fixtures@));
    }
    buf
}

proof fn lemma_match_shift(data: Seq<u8>, sep: Seq<u8>, k: int, i: int)
    requires
        0 <= k <= data.len(),
        match_at(data.skip(k), sep, i),
    ensures
        match_at(data, sep, k + i),
{
    assert(data.skip(k).subrange(i, i + sep.len()) =~= data.subrange(k + i, k + i + sep.len()));
}

/// Splitting a chunk that holds no separator yields that chunk alone.
proof fn lemma_split_whole(data: Seq<u8>, sep: Seq<u8>, acc: Seq<u8>)
    requires
        sep.len() > 0,
        no_match(data, sep),
    ensures
        split_on_from(data, sep, acc) == seq![acc + data],
    decreases data.len(),
{
    if data.len() < sep.len() {
    } else {
        assert(!match_at(data, sep, 0));
        assert(data.take(sep.len() as int) =~= data.subrange(0, sep.len() as int));
        assert(data.take(sep.len() as int) != sep);
        assert forall|i: int| 0 <= i < data.skip(1).len() implies !match_at(
            data.skip(1),
            sep,
            i,
        ) by {
            if match_at(data.skip(1), sep, i) {
                lemma_match_shift(data, sep, 1, i);
            }
        }
        lemma_split_whole(data.skip(1), sep, acc.push(data[0]));
        assert(acc.push(data[0]) + data.skip(1) =~= acc + data);
    }
}

/// Splitting `chunk + sep + rest` peels `chunk` off the front, provided no
/// separator occurrence starts inside `chunk`.
proof fn lemma_split_chunk(chunk: Seq<u8>, sep: Seq<u8>, rest: Seq<u8>, acc: Seq<u8>)
    requires
        sep.len() > 0,
        forall|i: int| 0 <= i < chunk.len() ==> !match_at(chunk + sep + rest, sep, i),
    ensures
        split_on_from(chunk + sep + rest, sep, acc) == seq![acc + chunk] + split_on_from(
            rest,
            sep,
            Seq::<u8>::empty(),
        ),
    decreases chunk.len(),
{
    let data = chunk + sep + rest;
    if chunk.len() == 0 {
        assert(data.take(sep.len() as int) =~= sep);
        assert(data.skip(sep.len() as int) =~= rest);
        assert(acc + chunk =~= acc);
    } else {
        assert(!match_at(data, sep, 0));
        assert(data.take(sep.len() as int) =~= data.subrange(0, sep.len() as int));
        assert(data.take(sep.len() as int) != sep);
        let data1 = chunk.skip(1) + sep + rest;
        assert(data.skip(1) =~= data1);
        assert forall|i: int| 0 <= i < chunk.skip(1).len() implies !match_at(data1, sep, i) by {
            if match_at(data1, sep, i) {
                lemma_match_shift(data, sep, 1, i);
                assert(!match_at(data, sep, 1 + i));
            }
        }
        lemma_split_chunk(chunk.skip(1), sep, rest, acc.push(chunk[0]));
        assert(data[0] == chunk[0]);
        assert(acc.push(chunk[0]) + chunk.skip(1) =~= acc + chunk);
    }
}

/// No separator occurrence starts inside an encoded header line: its only
/// line feed is its last byte, and the bytes before that line feed end in
/// `in` or `ut`, never in `--`.
proof fn lemma_header_no_match(name: Seq<u8>, suf: Seq<u8>, rest: Seq<u8>)
    requires
        forall|j: int| 0 <= j < name.len() ==> name[j] != 0x0a,
        suf == in_suffix() || suf == out_suffix(),
    ensures
        forall|i: int|
            0 <= i < (name + suf + seq![0x0au8]).len() ==> !match_at(
                (name + suf + seq![0x0au8]) + default_separator() + rest,
                default_separator(),
                i,
            ),
{
    let chunk = name + suf + seq![0x0au8];
    let sep = default_separator();
    let data = chunk + sep + rest;
    let clen = chunk.len() as int;
    assert(suf.len() == 3 || suf.len() == 4);
    assert forall|i: int| 0 <= i < clen implies !match_at(data, sep, i) by {
        if match_at(data, sep, i) {
            let w = data.subrange(i, i + 4);
            assert(w == sep);
            assert(data[i] == sep[0] && data[i + 1] == sep[1] && data[i + 2] == sep[2] && data[i
                + 3] == sep[3]) by {
                assert(w[0] == data[i] && w[1] == data[i + 1] && w[2] == data[i + 2] && w[3]
                    == data[i + 3]);
            }
            assert(data[i + 3] == 0x0a);
            if i + 3 < clen {
                assert(data[i + 3] == chunk[i + 3]);
                if i + 3 < name.len() {
                    assert(chunk[i + 3] == name[i + 3]);
                    assert(false);
                } else if i + 3 < name.len() + suf.len() {
                    let m = i + 3 - name.len();
                    assert(chunk[i + 3] == suf[m]);
                    assert(suf[0] != 0x0a && suf[1] != 0x0a && suf[2] != 0x0a && (suf.len() == 4
                        ==> suf[3] != 0x0a));
                    assert(false);
                } else {
                    // the final line feed: the two bytes before it are
                    // `in` or `ut`, so `data[i + 2]` cannot be a dash
                    assert(i + 3 == clen - 1);
                    assert(i + 2 == name.len() + suf.len() - 1);
                    assert(chunk[i + 2] == suf[suf.len() - 1]);
                    assert(suf[suf.len() - 1] != 0x2d);
                    assert(data[i + 2] == chunk[i + 2]);
                    assert(false);
                }
            } else {
                // the window reaches into the separator, whose first three
                // bytes are dashes, not line feeds
                assert(i + 3 - clen < 3);
                assert(data[i + 3] == sep[i + 3 - clen]);
                assert(sep[0] == 0x2d && sep[1] == 0x2d && sep[2] == 0x2d);
                assert(false);
            }
        }
    }
}

/// No separator occurrence starts inside an encoded body that is free of
/// the separator and ends in a line feed (or is empty).
proof fn lemma_body_no_match(body: Seq<u8>, rest: Seq<u8>)
    requires
        body.len() == 0 || body.last() == 0x0a,
        no_match(body, default_separator()),
    ensures
        forall|i: int|
            0 <= i < body.len() ==> !match_at(
                body + default_separator() + rest,
                default_separator(),
                i,
            ),
{
    let sep = default_separator();
    let data = body + sep + rest;
    let blen = body.len() as int;
    assert forall|i: int| 0 <= i < blen implies !match_at(data, sep, i) by {
        if match_at(data, sep, i) {
            if i + 4 <= blen {
                assert(body.subrange(i, i + 4) =~= data.subrange(i, i + 4));
                assert(match_at(body, sep, i));
                assert(false);
            } else {
                // the window covers the body's final line feed at an
                // offset where the separator has a dash
                let w = data.subrange(i, i + 4);
                assert(w == sep);
                let off = blen - 1 - i;
                assert(0 <= off < 3);
                assert(w[off] == data[blen - 1]);
                assert(data[blen - 1] == body[blen - 1]);
                assert(body[blen - 1] == 0x0a);
                assert(sep[off] == 0x2d);
                assert(false);
            }
        }
    }
}

proof fn lemma_encoded_corpus_snoc(fixtures: Seq<FixtureModel>, f: FixtureModel)
    ensures
        encoded_corpus(fixtures.push(f)) == encoded_corpus(fixtures) + encoded_fixture(f),
    decreases fixtures.len(),
{
    if fixtures.len() == 0 {
        assert(fixtures.push(f)[0] == f);
        assert(fixtures.push(f).skip(1) =~= Seq::<FixtureModel>::empty());
        assert(encoded_corpus(fixtures.push(f)) == encoded_fixture(f) + encoded_corpus(
            fixtures.push(f).skip(1),
        ));
        assert(encoded_corpus(Seq::<FixtureModel>::empty()) =~= Seq::<u8>::empty());
        assert(encoded_corpus(fixtures) =~= Seq::<u8>::empty());
        assert(encoded_corpus(fixtures.push(f)) =~= encoded_corpus(fixtures) + encoded_fixture(f));
    } else {
        lemma_encoded_corpus_snoc(fixtures.skip(1), f);
        assert(fixtures.push(f).skip(1) =~= fixtures.skip(1).push(f));
        assert(fixtures.push(f)[0] == fixtures[0]);
        assert(encoded_corpus(fixtures.push(f)) =~= encoded_corpus(fixtures) + encoded_fixture(f));
    }
}

/// A fixture the corpus format can carry faithfully: its name holds no
/// line feed, and each body either is empty or ends in a line feed, and
/// never contains the separator line.
pub open spec fn encodable(f: FixtureModel) -> bool {
    &&& forall|j: int| 0 <= j < f.name.len() ==> f.name[j] != 0x0a
    &&& (f.input.len() == 0 || f.input.last() == 0x0a)
    &&& (f.expected.len() == 0 || f.expected.last() == 0x0a)
    &&& no_match(f.input, default_separator())
    &&& no_match(f.expected, default_separator())
}

/// The sections an encoded corpus decodes into, fixture by fixture.
pub open spec fn section_seq(fixtures: Seq<FixtureModel>) -> Seq<Seq<u8>>
    decreases fixtures.len(),
{
    if fixtures.len() == 0 {
        seq![]
    } else {
        seq![
            in_header(fixtures[0].name),
            encoded_body(fixtures[0].input),
            out_header(fixtures[0].name),
            encoded_body(fixtures[0].expected),
        ] + section_seq(fixtures.skip(1))
    }
}

/// An encoded corpus with its leading separator line removed; what the
/// parser splits.
pub open spec fn encoding_rest(fixtures: Seq<FixtureModel>) -> Seq<u8> {
    if fixtures.len() == 0 {
        seq![]
    } else {
        in_header(fixtures[0].name) + default_separator() + encoded_body(fixtures[0].input)
            + default_separator() + out_header(fixtures[0].name) + default_separator()
            + encoded_body(fixtures[0].expected) + encoded_corpus(fixtures.skip(1))
    }
}

proof fn lemma_split_encoding(fixtures: Seq<FixtureModel>)
    requires
        fixtures.len() > 0,
        forall|k: int| 0 <= k < fixtures.len() ==> #[trigger] encodable(fixtures[k]),
    ensures
        split_on(encoding_rest(fixtures), default_separator()) == section_seq(fixtures),
    decreases fixtures.len(),
{
    let sep = default_separator();
    let f0 = fixtures[0];
    assert(encodable(f0));
    let h_in = in_header(f0.name);
    let b_in = encoded_body(f0.input);
    let h_out = out_header(f0.name);
    let b_out = encoded_body(f0.expected);
    assert(b_in == f0.input && b_out == f0.expected);
    let tail = encoded_corpus(fixtures.skip(1));
    let rest3 = b_out + tail;
    let rest2 = h_out + sep + rest3;
    let rest1 = b_in + sep + rest2;
    assert(encoding_rest(fixtures) =~= h_in + sep + rest1);

    lemma_header_no_match(f0.name, in_suffix(), rest1);
    lemma_split_chunk(h_in, sep, rest1, Seq::<u8>::empty());
    assert(Seq::<u8>::empty() + h_in =~= h_in);

    lemma_body_no_match(f0.input, rest2);
    lemma_split_chunk(b_in, sep, rest2, Seq::<u8>::empty());
    assert(Seq::<u8>::empty() + b_in =~= b_in);

    lemma_header_no_match(f0.name, out_suffix(), rest3);
    lemma_split_chunk(h_out, sep, rest3, Seq::<u8>::empty());
    assert(Seq::<u8>::empty() + h_out =~= h_out);

    if fixtures.len() == 1 {
        assert(fixtures.skip(1).len() == 0);
        assert(rest3 =~= b_out);
        lemma_split_whole(b_out, sep, Seq::<u8>::empty());
        assert(Seq::<u8>::empty() + b_out =~= b_out);
        assert(section_seq(fixtures.skip(1)) =~= Seq::<Seq<u8>>::empty());
        assert(split_on(encoding_rest(fixtures), sep) =~= section_seq(fixtures));
    } else {
        assert(fixtures.skip(1).len() > 0);
        assert forall|k: int| 0 <= k < fixtures.skip(1).len() implies #[trigger] encodable(
            fixtures.skip(1)[k],
        ) by {
            assert(fixtures.skip(1)[k] == fixtures[k + 1]);
            assert(encodable(fixtures[k + 1]));
        }
        assert(encoded_corpus(fixtures.skip(1)) == encoded_fixture(fixtures.skip(1)[0])
            + encoded_corpus(fixtures.skip(1).skip(1)));
        assert(encoding_rest(fixtures.skip(1)) == in_header(fixtures.skip(1)[0].name) + sep
            + encoded_body(fixtures.skip(1)[0].input) + sep + out_header(fixtures.skip(1)[0].name)
            + sep + encoded_body(fixtures.skip(1)[0].expected) + encoded_corpus(
            fixtures.skip(1).skip(1),
        ));
        assert(tail =~= sep + encoding_rest(fixtures.skip(1)));
        assert(rest3 =~= b_out + sep + encoding_rest(fixtures.skip(1)));
        lemma_body_no_match(f0.expected, encoding_rest(fixtures.skip(1)));
        lemma_split_chunk(b_out, sep, encoding_rest(fixtures.skip(1)), Seq::<u8>::empty());
        assert(Seq::<u8>::empty() + b_out =~= b_out);
        lemma_split_encoding(fixtures.skip(1));
        assert(split_on(encoding_rest(fixtures), sep) =~= section_seq(fixtures));
    }
}

proof fn lemma_trim_header(name: Seq<u8>, suf: Seq<u8>)
    requires
        suf == in_suffix() || suf == out_suffix(),
    ensures
        trim_end_spec(name + suf + seq![0x0au8]) == name + suf,
{
    let line = name + suf + seq![0x0au8];
    assert(line.last() == 0x0a);
    assert(is_ascii_ws(line.last()));
    assert(line.drop_last() =~= name + suf);
    assert((name + suf).last() == suf.last());
    assert(!is_ascii_ws(suf.last()));
    assert(trim_end_spec(name + suf) == name + suf);
}

proof fn lemma_parse_sections(fixtures: Seq<FixtureModel>)
    requires
        forall|k: int| 0 <= k < fixtures.len() ==> #[trigger] encodable(fixtures[k]),
    ensures
        parse_items(items_of(section_seq(fixtures))).0 == fixtures,
        parse_items(items_of(section_seq(fixtures))).1 == Seq::<CorpusErrorModel>::empty(),
    decreases fixtures.len(),
{
    if fixtures.len() == 0 {
        assert(section_seq(fixtures) =~= Seq::<Seq<u8>>::empty());
        assert(items_of(section_seq(fixtures)) =~= Seq::<(Seq<u8>, Seq<u8>)>::empty());
        assert(parse_items(items_of(section_seq(fixtures))).0 =~= fixtures);
    } else {
        let f0 = fixtures[0];
        assert(encodable(f0));
        let h_in = in_header(f0.name);
        let b_in = encoded_body(f0.input);
        let h_out = out_header(f0.name);
        let b_out = encoded_body(f0.expected);
        assert(b_in == f0.input && b_out == f0.expected);
        let sections = section_seq(fixtures);
        let tail_sections = section_seq(fixtures.skip(1));
        assert(sections == seq![h_in, b_in, h_out, b_out] + tail_sections);
        assert(sections.len() >= 4);
        assert(sections[0] == h_in && sections[1] == b_in && sections[2] == h_out && sections[3]
            == b_out);

        lemma_trim_header(f0.name, in_suffix());
        lemma_trim_header(f0.name, out_suffix());
        let item0 = (f0.name + in_suffix(), b_in);
        let item1 = (f0.name + out_suffix(), b_out);
        let items = items_of(sections);
        assert(sections.skip(2) =~= seq![h_out, b_out] + tail_sections);
        assert(sections.skip(2).skip(2) =~= tail_sections);
        assert(sections.skip(2)[0] == h_out && sections.skip(2)[1] == b_out);
        assert(items == seq![item0] + items_of(sections.skip(2)));
        assert(items_of(sections.skip(2)) == seq![item1] + items_of(tail_sections));
        assert(items =~= seq![item0, item1] + items_of(tail_sections));

        // the input header carries its suffix, so the pair is accepted
        assert((f0.name + in_suffix()).skip(f0.name.len() as int) =~= in_suffix());
        assert(is_suffix_of(in_suffix(), item0.0));
        assert((f0.name + out_suffix()).skip(f0.name.len() as int) =~= out_suffix());
        assert(is_suffix_of(out_suffix(), item1.0));
        assert(items.len() >= 2);
        assert(items[0] == item0 && items[1] == item1);

        assert forall|k: int| 0 <= k < fixtures.skip(1).len() implies #[trigger] encodable(
            fixtures.skip(1)[k],
        ) by {
            assert(fixtures.skip(1)[k] == fixtures[k + 1]);
            assert(encodable(fixtures[k + 1]));
        }
        lemma_parse_sections(fixtures.skip(1));

        assert(items.skip(2) =~= items_of(tail_sections));
        let parsed = parse_items(items);
        let model0 = FixtureModel {
            name: item0.0.take(item0.0.len() - 3),
            input: item0.1,
            expected: item1.1,
        };
        assert(parsed.0 == seq![model0] + parse_items(items.skip(2)).0);
        assert(parsed.1 == parse_items(items.skip(2)).1);
        assert(model0.name =~= f0.name) by {
            assert((f0.name + in_suffix()).take(f0.name.len() as int) =~= f0.name);
        }
        assert(model0 =~= f0);
        assert(parsed.0 =~= fixtures) by {
            assert(seq![f0] + fixtures.skip(1) =~= fixtures);
        }
    }
}

/// Law: writing any list of encodable fixtures with `make_samples_string`
/// and reading the blob back with `parse_corpus` returns exactly those
/// fixtures — same names, same input bytes, same expected bytes, in the
/// same order — and reports no integrity error.
pub proof fn lemma_corpus_round_trip(fixtures: Seq<FixtureModel>)
    requires
        forall|k: int| 0 <= k < fixtures.len() ==> #[trigger] encodable(fixtures[k]),
    ensures
        corpus_fixtures(encoded_corpus(fixtures)) == fixtures,
        corpus_errors(encoded_corpus(fixtures)) == Seq::<CorpusErrorModel>::empty(),
{
    let data = encoded_corpus(fixtures);
    let sep = default_separator();
    if fixtures.len() == 0 {
        assert(data =~= Seq::<u8>::empty());
        assert(first_newline(data) == 0);
        assert(corpus_sections(data) =~= Seq::<Seq<u8>>::empty());
        assert(items_of(corpus_sections(data)) =~= Seq::<(Seq<u8>, Seq<u8>)>::empty());
        assert(corpus_fixtures(data) =~= fixtures);
    } else {
        assert(encodable(fixtures[0]));
        assert(data == encoded_fixture(fixtures[0]) + encoded_corpus(fixtures.skip(1)));
        assert(data =~= sep + encoding_rest(fixtures));
        assert(data[0] == 0x2d && data[1] == 0x2d && data[2] == 0x2d && data[3] == 0x0a);
        lemma_first_newline_at(data, 3);
        assert(first_newline(data) == 3);
        assert(data.take(4) =~= sep);
        assert(data.skip(4) =~= encoding_rest(fixtures));
        lemma_split_encoding(fixtures);
        assert(corpus_sections(data) == section_seq(fixtures));
        lemma_parse_sections(fixtures);
    }
}

} // verus!
