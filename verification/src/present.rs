//! What happens after a mismatch: the interactivity policy.
//!
//! A mismatch always persists its three artifacts. Whether the external
//! diff then runs is a policy decision: never, immediately, or after
//! asking the user one line at a time.

use vstd::prelude::*;

use crate::bytes::is_ascii_ws;
use crate::options::Interactivity;

verus! {

/// What to do about the diff after a mismatch's artifacts are written.
#[derive(Clone, Copy, PartialEq, Eq, Structural, Debug)]
pub enum DiffAction {
    /// Report only: no prompt, no diff.
    Silent,
    /// Launch the diff command without asking.
    RunDiff,
    /// Read the user's answer from the terminal first.
    AskUser,
}

/// The policy decision: nothing happens without a diff command; with one,
/// `Skip` stays silent, `No` launches at once, and `Yes` asks first.
pub open spec fn diff_action_of(policy: Interactivity, has_diff_command: bool) -> DiffAction {
    if !has_diff_command {
        DiffAction::Silent
    } else {
        match policy {
            Interactivity::Skip => DiffAction::Silent,
            Interactivity::No => DiffAction::RunDiff,
            Interactivity::Yes => DiffAction::AskUser,
        }
    }
}

/// Decides what to do about the diff for one mismatch.
pub fn diff_action(policy: Interactivity, has_diff_command: bool) -> (r: DiffAction)
    ensures
        r == diff_action_of(policy, has_diff_command),
{
    if !has_diff_command {
        DiffAction::Silent
    } else {
        match policy {
            Interactivity::Skip => DiffAction::Silent,
            Interactivity::No => DiffAction::RunDiff,
            Interactivity::Yes => DiffAction::AskUser,
        }
    }
}

/// How one line of the user's answer is read.
#[derive(Clone, Copy, PartialEq, Eq, Structural, Debug)]
pub enum PromptAnswer {
    /// Show the diff: the line starts with `y` or `Y`, or is blank.
    Accept,
    /// Skip the diff: the line starts with `n` or `N`.
    Decline,
    /// Anything else: ask again.
    AskAgain,
}

/// The first byte of the line after leading whitespace, if any.
pub open spec fn first_meaningful_byte(line: Seq<u8>) -> Option<u8>
    decreases line.len(),
{
    if line.len() == 0 {
        Option::None
    } else if is_ascii_ws(line[0]) {
        first_meaningful_byte(line.skip(1))
    } else {
        Option::Some(line[0])
    }
}

/// What one answer line means: blank or leading `y`/`Y` accepts, leading
/// `n`/`N` declines, anything else asks again.
pub open spec fn prompt_answer_of(line: Seq<u8>) -> PromptAnswer {
    match first_meaningful_byte(line) {
        Option::None => PromptAnswer::Accept,
        Option::Some(b) => {
            if b == 0x79 || b == 0x59 {
                PromptAnswer::Accept
            } else if b == 0x6e || b == 0x4e {
                PromptAnswer::Decline
            } else {
                PromptAnswer::AskAgain
            }
        },
    }
}

/// Reads one line of the user's answer to `View diff?`.
pub fn prompt_answer(line: &[u8]) -> (r: PromptAnswer)
    ensures
        r == prompt_answer_of(line@),
{
    let n = line.len();
    let mut i: usize = 0;
    proof {
        assert(line@.skip(0) =~= line@);
    }
    while i < n
        invariant
            n == line@.len(),
            0 <= i <= n,
            first_meaningful_byte(line@) == first_meaningful_byte(line@.skip(i as int)),
        decreases n - i,
    {
        let b = line[i];
        let ghost s = line@.skip(i as int);
        proof {
            assert(s[0] == line@[i as int]);
            assert(s.skip(1) =~= line@.skip(i + 1));
        }
        if !(b == 0x20 || b == 0x09 || b == 0x0a || b == 0x0c || b == 0x0d) {
            proof {
                assert(first_meaningful_byte(s) == Option::Some(b));
            }
            return if b == 0x79 || b == 0x59 {
                PromptAnswer::Accept
            } else if b == 0x6e || b == 0x4e {
                PromptAnswer::Decline
            } else {
                PromptAnswer::AskAgain
            };
        }
        i = i + 1;
    }
    proof {
        assert(line@.skip(n as int) =~= Seq::<u8>::empty());
    }
    PromptAnswer::Accept
}

/// Law: with policy `Skip` the terminal is never read and no diff command
/// is launched, whether or not a diff command was given.
pub proof fn lemma_skip_never_prompts(has_diff_command: bool)
    ensures
        diff_action_of(Interactivity::Skip, has_diff_command) == DiffAction::Silent,
{
}

/// Law: with policy `No` — show immediately — a given diff command is
/// launched unconditionally on mismatch, with no prompt.
pub proof fn lemma_show_immediately()
    ensures
        diff_action_of(Interactivity::No, true) == DiffAction::RunDiff,
{
}

} // verus!
