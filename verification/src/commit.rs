//! The `commit` command: a message for what is staged in the current directory.

use crate::flow::{ask, asks, is_unexpected, Action, Event, Failure, Outcome};
use crate::globs::ignored;
use crate::lm::{assistant_message, json_text_at, reply, REPLY_POINTER};
use crate::message::{
    check_message, commit_prompt, diff_text, is_conventional, law_fixed_messages_are_conventional,
    message_error_is, patch_lines, render_diff, COMMIT_PROMPT,
};
use crate::staging::{
    commit_kinds, commit_msg_for_staged, delta_files, is_markdown, known_files,
    law_what_a_command_shows, quiet_message, real_paths, FileDelta, MessagePlan,
};
use crate::text::texts;
use vstd::prelude::*;

verus! {

/// What the command is waiting for.
#[derive(Clone, Copy, Debug, PartialEq, Eq, Structural)]
pub enum CommitPhase {
    /// The staged files.
    Listing,
    /// Their patch.
    Diffing,
    /// The message of the model.
    Drafting,
    /// Nothing: the command has ended.
    Closed,
}

/// Whether the command ends with this message.
pub open spec fn prints(message: Seq<char>, r: (CommitPhase, Action)) -> bool {
    &&& r.0 is Closed
    &&& r.1 matches Action::Finish(outcome) && outcome matches Outcome::Message { text } && text@
        == message
}

/// What follows when the command is in a phase and an event comes in. An event
/// that the phase does not wait for ends the command.
pub open spec fn follows(
    patterns: Seq<Seq<char>>,
    phase: CommitPhase,
    event: Event,
    r: (CommitPhase, Action),
) -> bool {
    match (phase, event) {
        (CommitPhase::Listing, Event::Staged(deltas)) => {
            let all = delta_files(deltas@);
            let shown = real_paths(all, commit_kinds(all, patterns));
            if deltas@.len() == 0 {
                r.0 is Closed && r.1 == Action::Abort(Failure::NothingStaged)
            } else if shown.len() == 0 {
                prints(quiet_message(all), r)
            } else {
                &&& r.0 is Diffing
                &&& r.1 matches Action::RenderDiff { paths } && texts(paths@) == shown
            }
        },
        (CommitPhase::Diffing, Event::Patch(lines)) => {
            r.0 is Drafting && asks(r.1, COMMIT_PROMPT@ + diff_text(patch_lines(lines@)))
        },
        (CommitPhase::Drafting, Event::Response(body)) => match reply(
            json_text_at(body@, REPLY_POINTER@),
        ) {
            Err(e) => r.0 is Closed && r.1 == Action::Abort(Failure::Lm(e)),
            Ok(message) => if is_conventional(message) {
                prints(message, r)
            } else {
                &&& r.0 is Closed
                &&& r.1 matches Action::Abort(failure) && failure matches Failure::Message(e)
                    && message_error_is(message, e)
            },
        },
        _ => r.0 is Closed && is_unexpected(r.1),
    }
}

/// What the command begins with: it lists what is staged.
pub fn start() -> (r: (CommitPhase, Action))
    ensures
        r.0 is Listing,
        r.1 is ListStaged,
{
    (CommitPhase::Listing, Action::ListStaged)
}

/// What follows when an event comes in. `patterns` are those of the files that
/// the command ignores.
pub fn step(patterns: &Vec<String>, phase: CommitPhase, event: Event) -> (r: (CommitPhase, Action))
    ensures
        follows(texts(patterns@), phase, event, r),
{
    match (phase, event) {
        (CommitPhase::Listing, Event::Staged(deltas)) => {
            if deltas.len() == 0 {
                return (CommitPhase::Closed, Action::Abort(Failure::NothingStaged));
            }
            let files = known_files(&deltas);
            match commit_msg_for_staged(files.as_slice(), patterns.as_slice()) {
                MessagePlan::Fixed(text) => (
                    CommitPhase::Closed,
                    Action::Finish(Outcome::Message { text }),
                ),
                MessagePlan::Ask(paths) => (CommitPhase::Diffing, Action::RenderDiff { paths }),
            }
        },
        (CommitPhase::Diffing, Event::Patch(lines)) => {
            let prompt = commit_prompt(render_diff(&lines).as_str());
            (CommitPhase::Drafting, ask(prompt.as_str()))
        },
        (CommitPhase::Drafting, Event::Response(body)) => match assistant_message(
            body.as_slice(),
        ) {
            Ok(answer) => match check_message(answer) {
                Ok(text) => (CommitPhase::Closed, Action::Finish(Outcome::Message { text })),
                Err(e) => (CommitPhase::Closed, Action::Abort(Failure::Message(e))),
            },
            Err(e) => (CommitPhase::Closed, Action::Abort(Failure::Lm(e))),
        },
        _ => (CommitPhase::Closed, Action::Abort(Failure::Unexpected)),
    }
}

/// Whatever message the command ends with is a Conventional Commits message.
pub proof fn law_printed_message_is_conventional(
    patterns: Seq<Seq<char>>,
    phase: CommitPhase,
    event: Event,
    r: (CommitPhase, Action),
    message: Seq<char>,
)
    requires
        follows(patterns, phase, event, r),
        prints(message, r),
    ensures
        is_conventional(message),
{
    if let (CommitPhase::Listing, Event::Staged(deltas)) = (phase, event) {
        law_fixed_messages_are_conventional(delta_files(deltas@));
    }
}

/// What comes of the staged differences. Without any, the command fails; where
/// no file is left that is not binary, not ignored and not Markdown, it ends
/// with a fixed message; else the patch of exactly the files that are left is
/// rendered.
pub proof fn law_step_from_the_stage(
    patterns: Seq<Seq<char>>,
    deltas: Vec<FileDelta>,
    r: (CommitPhase, Action),
)
    requires
        follows(patterns, CommitPhase::Listing, Event::Staged(deltas), r),
    ensures
        ({
            let files = delta_files(deltas@);
            let left = exists|p: Seq<char>| #[trigger]
                files.contains((p, false)) && !ignored(patterns, p) && !is_markdown(p);
            &&& deltas@.len() == 0 ==> r.1 == Action::Abort(Failure::NothingStaged)
            &&& deltas@.len() > 0 && !left ==> (r.1 matches Action::Finish(
                Outcome::Message { text },
            ) && text@ == quiet_message(files))
            &&& deltas@.len() > 0 && left ==> {
                &&& r.0 is Diffing && r.1 is RenderDiff
                &&& texts(r.1->RenderDiff_paths@) == real_paths(files, commit_kinds(files, patterns))
                &&& forall|p: Seq<char>| #[trigger]
                    texts(r.1->RenderDiff_paths@).contains(p) <==> files.contains((p, false))
                        && !ignored(patterns, p) && !is_markdown(p)
            }
        }),
{
    let files = delta_files(deltas@);
    let shown = real_paths(files, commit_kinds(files, patterns));
    assert forall|p: Seq<char>| #[trigger] shown.contains(p) <==> files.contains((p, false))
        && !ignored(patterns, p) && !is_markdown(p) by {
        law_what_a_command_shows(files, patterns, p);
    }
    if shown.len() > 0 {
        assert(shown.contains(shown[0]));
        assert(files.contains((shown[0], false)));
    }
    if exists|p: Seq<char>| #[trigger]
        files.contains((p, false)) && !ignored(patterns, p) && !is_markdown(p) {
        let p = choose|p: Seq<char>| #[trigger]
            files.contains((p, false)) && !ignored(patterns, p) && !is_markdown(p);
        assert(shown.contains(p));
    }
}

/// The model is put the whole patch behind the prompt, and the command ends with
/// its reply where that is a Conventional Commits message; any other reply, and
/// a response without one, ends it with the reason.
pub proof fn law_steps_of_the_message(
    patterns: Seq<Seq<char>>,
    lines: Vec<(char, Vec<u8>)>,
    body: Vec<u8>,
    r: (CommitPhase, Action),
)
    ensures
        follows(patterns, CommitPhase::Diffing, Event::Patch(lines), r) ==> r.0 is Drafting && asks(
            r.1,
            COMMIT_PROMPT@ + diff_text(patch_lines(lines@)),
        ),
        follows(patterns, CommitPhase::Drafting, Event::Response(body), r) ==> match reply(
            json_text_at(body@, "/choices/0/message/content"@),
        ) {
            Ok(message) => {
                &&& is_conventional(message) ==> (r.1 matches Action::Finish(
                    Outcome::Message { text },
                ) && text@ == message)
                &&& !is_conventional(message) ==> (r.1 matches Action::Abort(Failure::Message(e))
                    && message_error_is(message, e))
            },
            Err(e) => r.1 == Action::Abort(Failure::Lm(e)),
        },
{
}

/// The command gives up over an event exactly where the phase does not wait for
/// it: the differences first, then the patch, then the response.
pub proof fn law_only_other_events_are_unexpected(
    patterns: Seq<Seq<char>>,
    phase: CommitPhase,
    event: Event,
    r: (CommitPhase, Action),
)
    requires
        follows(patterns, phase, event, r),
    ensures
        is_unexpected(r.1) <==> !((phase is Listing && event is Staged) || (phase is Diffing
            && event is Patch) || (phase is Drafting && event is Response)),
        is_unexpected(r.1) ==> r.0 is Closed,
{
}

} // verus!
