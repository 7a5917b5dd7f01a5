//! The per-fixture pipeline, the mismatch artifacts, and the
//! interactivity policy.

use testprog::{
    artifact_base_path, artifact_paths, compare_output, diff_action, prompt_answer, DiffAction,
    Fixture, FixtureRun, Interactivity, PromptAnswer, TestOutcome,
};

fn echo_fixture(expected: &[u8]) -> Fixture {
    Fixture { name: b"case".to_vec(), input: b"abc\n".to_vec(), expected: expected.to_vec() }
}

#[test]
fn matching_output_passes() {
    assert_eq!(compare_output(b"abc\n", b"abc\n"), TestOutcome::Matched);
}

#[test]
fn differing_output_fails() {
    assert_eq!(compare_output(b"xyz\n", b"abc\n"), TestOutcome::Mismatched);
    // byte-exact: no trimming of any kind
    assert_eq!(compare_output(b"abc", b"abc\n"), TestOutcome::Mismatched);
    assert_eq!(compare_output(b"abc\n", b"abc \n"), TestOutcome::Mismatched);
}

#[test]
fn run_reaches_matched_on_equal_output() {
    let mut run = FixtureRun::start(echo_fixture(b"abc\n"));
    assert_eq!(run.input_bytes(), &b"abc\n".to_vec());
    run.note_input_queued();
    run.note_output_captured(b"abc\n".to_vec());
    assert_eq!(run.compare(), TestOutcome::Matched);
}

#[test]
fn run_reports_mismatch_on_different_output() {
    let mut run = FixtureRun::start(echo_fixture(b"xyz\n"));
    run.note_input_queued();
    run.note_output_captured(b"abc\n".to_vec());
    assert_eq!(run.compare(), TestOutcome::Mismatched);
    // the three artifact sides are handed out verbatim: the fixture's
    // input, its expected output, and the captured output
    assert_eq!(run.input_bytes(), &b"abc\n".to_vec());
    assert_eq!(run.expected_bytes(), &b"xyz\n".to_vec());
    assert_eq!(run.captured_bytes(), &b"abc\n".to_vec());
}

#[test]
fn artifact_paths_share_one_stem() {
    let base = artifact_base_path(b"out/diff", b"week1/prog.cpp", b"case");
    assert_eq!(base, b"out/diff/prog.cpp_case".to_vec());
    let paths = artifact_paths(&base);
    assert_eq!(paths.input, b"out/diff/prog.cpp_case.in".to_vec());
    assert_eq!(paths.expected, b"out/diff/prog.cpp_case.out".to_vec());
    assert_eq!(paths.actual, b"out/diff/prog.cpp_case.out.actual".to_vec());
}

#[test]
fn skip_policy_never_prompts_and_never_diffs() {
    assert_eq!(diff_action(Interactivity::Skip, true), DiffAction::Silent);
    assert_eq!(diff_action(Interactivity::Skip, false), DiffAction::Silent);
}

#[test]
fn show_immediately_launches_without_prompting() {
    assert_eq!(diff_action(Interactivity::No, true), DiffAction::RunDiff);
}

#[test]
fn prompting_needs_a_diff_command() {
    assert_eq!(diff_action(Interactivity::Yes, true), DiffAction::AskUser);
    assert_eq!(diff_action(Interactivity::Yes, false), DiffAction::Silent);
    assert_eq!(diff_action(Interactivity::No, false), DiffAction::Silent);
}

#[test]
fn prompt_lines_are_read_by_first_meaningful_byte() {
    assert_eq!(prompt_answer(b"y\n"), PromptAnswer::Accept);
    assert_eq!(prompt_answer(b"  Yes please\n"), PromptAnswer::Accept);
    assert_eq!(prompt_answer(b"\n"), PromptAnswer::Accept);
    assert_eq!(prompt_answer(b""), PromptAnswer::Accept);
    assert_eq!(prompt_answer(b"n\n"), PromptAnswer::Decline);
    assert_eq!(prompt_answer(b"  No\n"), PromptAnswer::Decline);
    assert_eq!(prompt_answer(b"maybe\n"), PromptAnswer::AskAgain);
    assert_eq!(prompt_answer(b"?\n"), PromptAnswer::AskAgain);
}
