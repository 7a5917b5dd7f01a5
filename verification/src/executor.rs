//! Per-fixture test execution bookkeeping.
//!
//! The surrounding program spawns the built binary once per fixture,
//! queues the fixture's input for the background writer, and drains the
//! child's output; this module owns the order of those steps and the
//! verdict. A fixture passes exactly when the captured output equals the
//! expected output byte for byte: no trimming, no normalization, and the
//! child's exit code plays no part.

use vstd::prelude::*;

use crate::corpus::{Fixture, FixtureModel};
use crate::pathname::{path_file_name, path_join};

verus! {

/// The verdict on one fixture.
#[derive(Clone, Copy, PartialEq, Eq, Structural, Debug)]
pub enum TestOutcome {
    /// The captured output equals the expected output.
    Matched,
    /// The captured output differs from the expected output.
    Mismatched,
}

/// The verdict byte-exact equality gives.
pub open spec fn outcome_of(expected: Seq<u8>, actual: Seq<u8>) -> TestOutcome {
    if actual == expected {
        TestOutcome::Matched
    } else {
        TestOutcome::Mismatched
    }
}

/// Compares a child's captured output against the expected bytes.
pub fn compare_output(expected: &[u8], actual: &[u8]) -> (r: TestOutcome)
    ensures
        r == outcome_of(expected@, actual@),
{
    if crate::bytes::bytes_eq(actual, expected) {
        TestOutcome::Matched
    } else {
        TestOutcome::Mismatched
    }
}

/// Where one fixture stands in its run.
#[derive(Clone, Copy, PartialEq, Eq, Structural, Debug)]
pub enum TestPhase {
    /// The child process exists; nothing has been fed to it.
    Spawned,
    /// The input bytes are queued for the background writer.
    InputQueued,
    /// The child's output stream has been drained to its end.
    OutputCaptured,
    /// Compared: the output matched.
    Matched,
    /// Compared: the output differed and the mismatch was reported.
    MismatchReported,
}

/// One fixture moving through the pipeline: input queued, output
/// captured, then compared.
pub struct FixtureRun {
    fixture: Fixture,
    phase: TestPhase,
    actual: Vec<u8>,
}

impl FixtureRun {
    /// Where the run stands.
    pub closed spec fn phase(self) -> TestPhase {
        self.phase
    }

    /// The fixture being run.
    pub closed spec fn fixture_model(self) -> FixtureModel {
        self.fixture@
    }

    /// The output captured so far.
    pub closed spec fn captured(self) -> Seq<u8> {
        self.actual@
    }

    /// Begins a run for a freshly spawned child.
    pub fn start(fixture: Fixture) -> (r: FixtureRun)
        ensures
            r.phase() == TestPhase::Spawned,
            r.fixture_model() == fixture@,
    {
        FixtureRun { fixture, phase: TestPhase::Spawned, actual: Vec::new() }
    }

    /// The bytes to feed to the child, exactly the fixture's input.
    pub fn input_bytes(&self) -> (r: &Vec<u8>)
        ensures
            r@ == self.fixture_model().input,
    {
        &self.fixture.input
    }

    /// Records that the input was handed to the background writer.
    pub fn note_input_queued(&mut self)
        requires
            old(self).phase() == TestPhase::Spawned,
        ensures
            final(self).phase() == TestPhase::InputQueued,
            final(self).fixture_model() == old(self).fixture_model(),
    {
        self.phase = TestPhase::InputQueued;
    }

    /// Records the child's whole output stream, read to its end.
    pub fn note_output_captured(&mut self, actual: Vec<u8>)
        requires
            old(self).phase() == TestPhase::InputQueued,
        ensures
            final(self).phase() == TestPhase::OutputCaptured,
            final(self).fixture_model() == old(self).fixture_model(),
            final(self).captured() == actual@,
    {
        self.phase = TestPhase::OutputCaptured;
        self.actual = actual;
    }

    /// Compares the captured output with the expected bytes and settles
    /// the verdict.
    pub fn compare(&mut self) -> (r: TestOutcome)
        requires
            old(self).phase() == TestPhase::OutputCaptured,
        ensures
            final(self).fixture_model() == old(self).fixture_model(),
            final(self).captured() == old(self).captured(),
            r == outcome_of(old(self).fixture_model().expected, old(self).captured()),
            final(self).phase() == (match r {
                TestOutcome::Matched => TestPhase::Matched,
                TestOutcome::Mismatched => TestPhase::MismatchReported,
            }),
    {
        let r = compare_output(self.fixture.expected.as_slice(), self.actual.as_slice());
        self.phase = match r {
            TestOutcome::Matched => TestPhase::Matched,
            TestOutcome::Mismatched => TestPhase::MismatchReported,
        };
        r
    }

    /// The expected output, for persisting a mismatch's artifacts.
    pub fn expected_bytes(&self) -> (r: &Vec<u8>)
        ensures
            r@ == self.fixture_model().expected,
    {
        &self.fixture.expected
    }

    /// The captured output, for persisting a mismatch's artifacts.
    pub fn captured_bytes(&self) -> (r: &Vec<u8>)
        ensures
            r@ == self.captured(),
    {
        &self.actual
    }
}

/// The stem the mismatch artifacts of one fixture share: the source's file
/// name and the fixture name, joined by an underscore, under the diff
/// directory.
pub open spec fn artifact_base(diff_dir: Seq<u8>, source: Seq<u8>, name: Seq<u8>) -> Seq<u8> {
    path_join(diff_dir, path_file_name(source) + seq![0x5fu8] + name)
}

/// The three files a mismatch leaves behind.
#[verifier::ext_equal]
pub struct ArtifactModel {
    pub input: Seq<u8>,
    pub expected: Seq<u8>,
    pub actual: Seq<u8>,
}

/// The artifact paths derived from one stem: the suffixes `.in`, `.out`
/// and `.out.actual` appended, so that the fixture name stays part of
/// each path.
pub open spec fn artifact_paths_of(base: Seq<u8>) -> ArtifactModel {
    ArtifactModel {
        input: base + seq![0x2eu8, 0x69u8, 0x6eu8],
        expected: base + seq![0x2eu8, 0x6fu8, 0x75u8, 0x74u8],
        actual: base + seq![
            0x2eu8,
            0x6fu8,
            0x75u8,
            0x74u8,
            0x2eu8,
            0x61u8,
            0x63u8,
            0x74u8,
            0x75u8,
            0x61u8,
            0x6cu8,
        ],
    }
}

/// The persisted sides of one mismatch: where the input, the expected
/// output and the actual output are written.
pub struct ArtifactPaths {
    pub input: Vec<u8>,
    pub expected: Vec<u8>,
    pub actual: Vec<u8>,
}

impl View for ArtifactPaths {
    type V = ArtifactModel;

    open spec fn view(&self) -> ArtifactModel {
        ArtifactModel { input: self.input@, expected: self.expected@, actual: self.actual@ }
    }
}

/// Builds the artifact stem for one fixture of one source file.
pub fn artifact_base_path(diff_dir: &[u8], source: &[u8], name: &[u8]) -> (r: Vec<u8>)
    ensures
        r@ == artifact_base(diff_dir@, source@, name@),
{
    let mut stem = crate::pathname::file_name(source);
    stem.push(0x5f);
    crate::bytes::append_bytes(&mut stem, name);
    proof {
        assert(stem@ =~= path_file_name(source@) + seq![0x5fu8] + name@);
    }
    crate::pathname::join(diff_dir, stem.as_slice())
}

/// Derives the three artifact paths from one stem.
pub fn artifact_paths(base: &[u8]) -> (r: ArtifactPaths)
    ensures
        r@ == artifact_paths_of(base@),
{
    let in_ext: [u8; 3] = [0x2e, 0x69, 0x6e];
    let out_ext: [u8; 4] = [0x2e, 0x6f, 0x75, 0x74];
    let actual_ext: [u8; 11] = [0x2e, 0x6f, 0x75, 0x74, 0x2e, 0x61, 0x63, 0x74, 0x75, 0x61, 0x6c];
    let mut input = vstd::slice::slice_to_vec(base);
    crate::bytes::append_bytes(&mut input, in_ext.as_slice());
    let mut expected = vstd::slice::slice_to_vec(base);
    crate::bytes::append_bytes(&mut expected, out_ext.as_slice());
    let mut actual = vstd::slice::slice_to_vec(base);
    crate::bytes::append_bytes(&mut actual, actual_ext.as_slice());
    let r = ArtifactPaths { input, expected, actual };
    proof {
        assert(r@.input =~= artifact_paths_of(base@).input);
        assert(r@.expected =~= artifact_paths_of(base@).expected);
        assert(r@.actual =~= artifact_paths_of(base@).actual);
        assert(r@ =~= artifact_paths_of(base@));
    }
    r
}

/// Law: a run whose captured output equals the fixture's expected output
/// ends matched, and one whose output differs ends with the mismatch
/// reported; the verdict depends on those bytes alone.
pub proof fn lemma_verdict_is_byte_equality(expected: Seq<u8>, actual: Seq<u8>)
    ensures
        outcome_of(expected, actual) == TestOutcome::Matched <==> actual == expected,
        outcome_of(expected, actual) == TestOutcome::Mismatched <==> actual != expected,
{
}

} // verus!
