//! The `android` command: release the repository in the current directory and
//! publish its artifacts to GitHub Packages before the tag is cut.

use crate::flow::{ask, asks, is_unexpected, Action, Event, Failure, Outcome};
use crate::globs::ignored;
use crate::lm::{assistant_message, json_text_at, reply, REPLY_POINTER};
use crate::message::{
    bump_of, bump_of_message, check_message, commit_prompt, diff_text, is_conventional,
    law_fixed_messages_are_conventional, message_error_is, patch_lines, render_diff, COMMIT_PROMPT,
};
use crate::publish::{
    command_is, gradle_args, gradle_publish_command, push_main_command, push_tag_command,
};
use crate::readme::{
    all_but_readme, contents, readme_prompt, readme_request, strip_outer_fence, unfenced,
    whole_index,
};
use crate::staging::{
    commit_kinds, commit_msg_for_staged, delta_files, is_markdown, known_files,
    law_what_a_command_shows, quiet_message, real_paths, FileDelta, MessagePlan,
};
use crate::tags::{
    bare, is_semver, law_new_tag_is_newest_leading, leading_version, new_tag_among, newest_leading,
    next_tag, older, parse_tag, without_v, TagError,
};
use crate::text::{copy_strings, texts};
use vstd::prelude::*;

verus! {

/// The release that is being cut.
#[derive(Debug)]
pub struct AndroidCut {
    pub message: String,
    pub tag: String,
    /// Whether a real file has changed, so that the README may be stale.
    pub has_real: bool,
}

/// What the command is waiting for.
#[derive(Debug)]
pub enum AndroidPhase {
    /// The staged files.
    Staging,
    /// The patch for the commit message.
    Diffing,
    /// The commit message.
    Drafting,
    /// The tags, to cut the next one.
    Tagging { message: String, has_real: bool },
    /// Whether the repository holds generated code.
    Probing(AndroidCut),
    /// The version in `build.gradle.kts`.
    Syncing(AndroidCut),
    /// The files of the index, for the README.
    Listing(AndroidCut),
    /// The sources of the README.
    Reading(AndroidCut),
    /// The README from the model.
    Documenting(AndroidCut),
    /// The README on disk.
    Writing(AndroidCut),
    /// The commit.
    Committing(AndroidCut),
    /// The push of the branch.
    Pushing(AndroidCut),
    /// The publication of the artifacts.
    Publishing(AndroidCut),
    /// The tag and its push.
    TagPushing(AndroidCut),
    /// Nothing: the command has ended.
    Closed,
}

// ---------------------------------------------------------------------------
// The model
// ---------------------------------------------------------------------------

/// Whether what comes next is to read the tags, with this message.
pub open spec fn reads_tags(
    message: Seq<char>,
    has_real: bool,
    r: (AndroidPhase, Action),
) -> bool {
    &&& r.0 matches AndroidPhase::Tagging { message: m, has_real: b } && m@ == message && b
        == has_real
    &&& r.1 is ReadTags
}

/// Whether what comes next is the commit.
pub open spec fn commits(cut: AndroidCut, r: (AndroidPhase, Action)) -> bool {
    &&& r.0 == AndroidPhase::Committing(cut)
    &&& r.1 matches Action::Commit { message } && message@ == cut.message@
}

/// Whether what comes next is the README, where a real file has changed, and
/// the commit where none has.
pub open spec fn documents(cut: AndroidCut, r: (AndroidPhase, Action)) -> bool {
    if cut.has_real {
        r.0 == AndroidPhase::Listing(cut) && r.1 is ListIndex
    } else {
        commits(cut, r)
    }
}

/// What the command begins with: it stages all that is not ignored.
pub open spec fn begins(patterns: Seq<Seq<char>>, r: (AndroidPhase, Action)) -> bool {
    &&& r.0 is Staging
    &&& r.1 matches Action::Stage { remote, skip } && remote is None && texts(skip@) == patterns
}

/// What follows when the command is in a phase and an event comes in. An event
/// that the phase does not wait for ends the command.
#[verifier::opaque]
pub open spec fn follows(
    patterns: Seq<Seq<char>>,
    phase: AndroidPhase,
    event: Event,
    r: (AndroidPhase, Action),
) -> bool {
    match (phase, event) {
        (AndroidPhase::Staging, Event::Staged(deltas)) => {
            let all = delta_files(deltas@);
            let shown = real_paths(all, commit_kinds(all, patterns));
            if deltas@.len() == 0 {
                r.0 is Closed && r.1 == Action::Finish(Outcome::NothingToRelease)
            } else if shown.len() == 0 {
                reads_tags(quiet_message(all), false, r)
            } else {
                &&& r.0 is Diffing
                &&& r.1 matches Action::RenderDiff { paths } && texts(paths@) == shown
            }
        },
        (AndroidPhase::Diffing, Event::Patch(lines)) => {
            r.0 is Drafting && asks(r.1, COMMIT_PROMPT@ + diff_text(patch_lines(lines@)))
        },
        (AndroidPhase::Drafting, Event::Response(body)) => match reply(
            json_text_at(body@, REPLY_POINTER@),
        ) {
            Err(e) => r.0 is Closed && r.1 == Action::Abort(Failure::Lm(e)),
            Ok(message) => if is_conventional(message) {
                reads_tags(message, true, r)
            } else {
                &&& r.0 is Closed
                &&& r.1 matches Action::Abort(failure) && failure matches Failure::Message(e)
                    && message_error_is(message, e)
            },
        },
        (AndroidPhase::Tagging { message, has_real }, Event::Tags(tags)) => match next_tag(
            newest_leading(texts(tags@)),
            bump_of(message@),
        ) {
            None => r.0 is Closed && r.1 == Action::Abort(Failure::Tag(TagError::Overflow)),
            Some(tag) => {
                &&& r.0 matches AndroidPhase::Probing(cut) && cut.message@ == message@ && cut.tag@
                    == tag && cut.has_real == has_real
                &&& r.1 is ProbeGenerated
            },
        },
        (AndroidPhase::Probing(cut), Event::Generated(generated)) => if generated {
            &&& r.0 == AndroidPhase::Syncing(cut)
            &&& r.1 matches Action::SyncKotlin { version, skip } && version@ == bare(cut.tag@)
                && texts(skip@) == patterns
        } else {
            documents(cut, r)
        },
        (AndroidPhase::Syncing(cut), Event::Done) => documents(cut, r),
        (AndroidPhase::Listing(cut), Event::Index(indexed)) => {
            let chosen = all_but_readme(texts(indexed@));
            if chosen.len() == 0 {
                commits(cut, r)
            } else {
                &&& r.0 == AndroidPhase::Reading(cut)
                &&& r.1 matches Action::ReadFiles { paths } && texts(paths@) == chosen
            }
        },
        (AndroidPhase::Reading(cut), Event::Files(files)) => {
            &&& r.0 == AndroidPhase::Documenting(cut)
            &&& asks(r.1, readme_request(contents(files@)))
        },
        (AndroidPhase::Documenting(cut), Event::Response(body)) => match reply(
            json_text_at(body@, REPLY_POINTER@),
        ) {
            Err(e) => r.0 is Closed && r.1 == Action::Abort(Failure::Lm(e)),
            Ok(text) => {
                &&& r.0 == AndroidPhase::Writing(cut)
                &&& r.1 matches Action::WriteReadme { text: t } && t@ == unfenced(text)
            },
        },
        (AndroidPhase::Writing(cut), Event::Done) => commits(cut, r),
        (AndroidPhase::Committing(cut), Event::Done) => {
            &&& r.0 == AndroidPhase::Pushing(cut)
            &&& r.1 matches Action::Push { command } && command_is(
                command,
                "git"@,
                seq!["push"@, "origin"@, "main"@],
            )
        },
        (AndroidPhase::Pushing(cut), Event::Done) => {
            &&& r.0 == AndroidPhase::Publishing(cut)
            &&& r.1 matches Action::Publish { command } && command_is(
                command,
                "./gradlew"@,
                gradle_args(cut.tag@),
            )
        },
        (AndroidPhase::Publishing(cut), Event::Done) => {
            &&& r.0 == AndroidPhase::TagPushing(cut)
            &&& r.1 matches Action::TagAndPush { tag, command } && tag@ == cut.tag@ && command_is(
                command,
                "git"@,
                seq!["push"@, "origin"@, cut.tag@],
            )
        },
        (AndroidPhase::TagPushing(cut), Event::Done) => {
            &&& r.0 is Closed
            &&& r.1 matches Action::Finish(outcome) && outcome matches Outcome::Released { tag }
                && tag@ == cut.tag@
        },
        _ => r.0 is Closed && is_unexpected(r.1),
    }
}

// ---------------------------------------------------------------------------
// The functions
// ---------------------------------------------------------------------------

/// What the command begins with.
pub fn start(patterns: &Vec<String>) -> (r: (AndroidPhase, Action))
    ensures
        begins(texts(patterns@), r),
{
    (AndroidPhase::Staging, Action::Stage { remote: None, skip: copy_strings(patterns) })
}

/// What follows when an event comes in. `patterns` are those of the files that
/// the command ignores.
#[verifier::rlimit(30)]
pub fn step(patterns: &Vec<String>, phase: AndroidPhase, event: Event) -> (r: (
    AndroidPhase,
    Action,
))
    ensures
        follows(texts(patterns@), phase, event, r),
{
    reveal(follows);
    match (phase, event) {
        (AndroidPhase::Staging, Event::Staged(deltas)) => {
            if deltas.len() == 0 {
                return (AndroidPhase::Closed, Action::Finish(Outcome::NothingToRelease));
            }
            let files = known_files(&deltas);
            match commit_msg_for_staged(files.as_slice(), patterns.as_slice()) {
                MessagePlan::Fixed(message) => (
                    AndroidPhase::Tagging { message, has_real: false },
                    Action::ReadTags,
                ),
                MessagePlan::Ask(paths) => (AndroidPhase::Diffing, Action::RenderDiff { paths }),
            }
        },
        (AndroidPhase::Diffing, Event::Patch(lines)) => {
            let prompt = commit_prompt(render_diff(&lines).as_str());
            (AndroidPhase::Drafting, ask(prompt.as_str()))
        },
        (AndroidPhase::Drafting, Event::Response(body)) => match assistant_message(
            body.as_slice(),
        ) {
            Ok(text) => match check_message(text) {
                Ok(message) => (
                    AndroidPhase::Tagging { message, has_real: true },
                    Action::ReadTags,
                ),
                Err(e) => (AndroidPhase::Closed, Action::Abort(Failure::Message(e))),
            },
            Err(e) => (AndroidPhase::Closed, Action::Abort(Failure::Lm(e))),
        },
        (AndroidPhase::Tagging { message, has_real }, Event::Tags(tags)) => {
            let bump = bump_of_message(message.as_str());
            match new_tag_among(tags.as_slice(), bump) {
                Ok(tag) => (
                    AndroidPhase::Probing(AndroidCut { message, tag, has_real }),
                    Action::ProbeGenerated,
                ),
                Err(e) => (AndroidPhase::Closed, Action::Abort(Failure::Tag(e))),
            }
        },
        (AndroidPhase::Probing(cut), Event::Generated(generated)) => {
            if generated {
                let version = without_v(cut.tag.as_str());
                let skip = copy_strings(patterns);
                (AndroidPhase::Syncing(cut), Action::SyncKotlin { version, skip })
            } else {
                document(cut)
            }
        },
        (AndroidPhase::Syncing(cut), Event::Done) => document(cut),
        (AndroidPhase::Listing(cut), Event::Index(indexed)) => {
            let paths = whole_index(indexed.as_slice());
            assert(texts(paths@).len() == paths@.len());
            if paths.len() == 0 {
                commit(cut)
            } else {
                (AndroidPhase::Reading(cut), Action::ReadFiles { paths })
            }
        },
        (AndroidPhase::Reading(cut), Event::Files(files)) => {
            let request = readme_prompt(&files);
            (AndroidPhase::Documenting(cut), ask(request.prompt.as_str()))
        },
        (AndroidPhase::Documenting(cut), Event::Response(body)) => match assistant_message(
            body.as_slice(),
        ) {
            Ok(text) => {
                let text = strip_outer_fence(text.as_str());
                (AndroidPhase::Writing(cut), Action::WriteReadme { text })
            },
            Err(e) => (AndroidPhase::Closed, Action::Abort(Failure::Lm(e))),
        },
        (AndroidPhase::Writing(cut), Event::Done) => commit(cut),
        (AndroidPhase::Committing(cut), Event::Done) => (
            AndroidPhase::Pushing(cut),
            Action::Push { command: push_main_command() },
        ),
        (AndroidPhase::Pushing(cut), Event::Done) => {
            let command = gradle_publish_command(cut.tag.as_str());
            (AndroidPhase::Publishing(cut), Action::Publish { command })
        },
        (AndroidPhase::Publishing(cut), Event::Done) => {
            let tag = cut.tag.clone();
            let command = push_tag_command(cut.tag.as_str());
            (AndroidPhase::TagPushing(cut), Action::TagAndPush { tag, command })
        },
        (AndroidPhase::TagPushing(cut), Event::Done) => (
            AndroidPhase::Closed,
            Action::Finish(Outcome::Released { tag: cut.tag }),
        ),
        _ => (AndroidPhase::Closed, Action::Abort(Failure::Unexpected)),
    }
}

fn commit(cut: AndroidCut) -> (r: (AndroidPhase, Action))
    ensures
        commits(cut, r),
{
    let message = cut.message.clone();
    (AndroidPhase::Committing(cut), Action::Commit { message })
}

fn document(cut: AndroidCut) -> (r: (AndroidPhase, Action))
    ensures
        documents(cut, r),
{
    if cut.has_real {
        (AndroidPhase::Listing(cut), Action::ListIndex)
    } else {
        commit(cut)
    }
}

// ---------------------------------------------------------------------------
// Runs
// ---------------------------------------------------------------------------

/// The phase after the first `i` events of a run.
pub open spec fn phase_at(
    first: (AndroidPhase, Action),
    run: Seq<(Event, AndroidPhase, Action)>,
    i: int,
) -> AndroidPhase {
    if i == 0 {
        first.0
    } else {
        run[i - 1].1
    }
}

/// The action after the first `i` events of a run.
pub open spec fn action_at(
    first: (AndroidPhase, Action),
    run: Seq<(Event, AndroidPhase, Action)>,
    i: int,
) -> Action {
    if i == 0 {
        first.1
    } else {
        run[i - 1].2
    }
}

/// Whether this is how the command goes: how it begins, and each event with the
/// phase and the action that follow.
pub open spec fn is_run(
    patterns: Seq<Seq<char>>,
    first: (AndroidPhase, Action),
    run: Seq<(Event, AndroidPhase, Action)>,
) -> bool {
    &&& begins(patterns, first)
    &&& forall|i: int|
        0 <= i < run.len() ==> follows(
            patterns,
            phase_at(first, run, i),
            (#[trigger] run[i]).0,
            (run[i].1, run[i].2),
        )
}

/// How far the command has come.
pub open spec fn rank(phase: AndroidPhase) -> int {
    match phase {
        AndroidPhase::Staging => 1,
        AndroidPhase::Diffing => 2,
        AndroidPhase::Drafting => 3,
        AndroidPhase::Tagging { .. } => 4,
        AndroidPhase::Probing(_) => 5,
        AndroidPhase::Syncing(_) => 6,
        AndroidPhase::Listing(_) => 7,
        AndroidPhase::Reading(_) => 8,
        AndroidPhase::Documenting(_) => 9,
        AndroidPhase::Writing(_) => 10,
        AndroidPhase::Committing(_) => 11,
        AndroidPhase::Pushing(_) => 12,
        AndroidPhase::Publishing(_) => 13,
        AndroidPhase::TagPushing(_) => 14,
        AndroidPhase::Closed => 15,
    }
}

/// The release that a phase holds, from the moment that its tag is known.
pub open spec fn cut_of(phase: AndroidPhase) -> Option<AndroidCut> {
    match phase {
        AndroidPhase::Probing(cut) => Some(cut),
        AndroidPhase::Syncing(cut) => Some(cut),
        AndroidPhase::Listing(cut) => Some(cut),
        AndroidPhase::Reading(cut) => Some(cut),
        AndroidPhase::Documenting(cut) => Some(cut),
        AndroidPhase::Writing(cut) => Some(cut),
        AndroidPhase::Committing(cut) => Some(cut),
        AndroidPhase::Pushing(cut) => Some(cut),
        AndroidPhase::Publishing(cut) => Some(cut),
        AndroidPhase::TagPushing(cut) => Some(cut),
        _ => None,
    }
}

/// Whether the tag of a release is cut here: the tags are read, and the tag is
/// the next one by what the message means, newer than each version that one of
/// them begins with.
pub open spec fn is_cut_at(phase: AndroidPhase, event: Event, cut: AndroidCut) -> bool {
    match (phase, event) {
        (AndroidPhase::Tagging { message, has_real }, Event::Tags(tags)) => {
            let all = texts(tags@);
            &&& message@ == cut.message@
            &&& has_real == cut.has_real
            &&& Some(cut.tag@) == next_tag(newest_leading(all), bump_of(message@))
            &&& forall|t: Seq<char>| #[trigger]
                all.contains(t) && leading_version(t) is Ok ==> older(
                    leading_version(t)->Ok_0,
                    parse_tag(cut.tag@)->Ok_0,
                )
        },
        _ => false,
    }
}

/// Whether the message is a Conventional Commits message and the tag names a
/// version.
pub open spec fn is_sound(cut: AndroidCut) -> bool {
    is_conventional(cut.message@) && is_semver(cut.tag@)
}

/// Whether a phase and the action that came with it belong together. A README
/// is written only in a release that holds real changes.
pub open spec fn is_justified(phase: AndroidPhase, action: Action) -> bool {
    match phase {
        AndroidPhase::Staging => action is Stage,
        AndroidPhase::Diffing => action matches Action::RenderDiff { paths } && paths@.len() > 0,
        AndroidPhase::Drafting => action is AskModel,
        AndroidPhase::Tagging { message, .. } => action is ReadTags && is_conventional(message@),
        AndroidPhase::Probing(cut) => action is ProbeGenerated && is_sound(cut),
        AndroidPhase::Syncing(cut) => action is SyncKotlin && is_sound(cut),
        AndroidPhase::Listing(cut) => action is ListIndex && cut.has_real && is_sound(cut),
        AndroidPhase::Reading(cut) => {
            &&& action matches Action::ReadFiles { paths } && paths@.len() > 0
            &&& cut.has_real && is_sound(cut)
        },
        AndroidPhase::Documenting(cut) => action is AskModel && cut.has_real && is_sound(cut),
        AndroidPhase::Writing(cut) => action is WriteReadme && cut.has_real && is_sound(cut),
        AndroidPhase::Committing(cut) => {
            &&& action matches Action::Commit { message } && message@ == cut.message@
            &&& is_sound(cut)
        },
        AndroidPhase::Pushing(cut) => action is Push && is_sound(cut),
        AndroidPhase::Publishing(cut) => action is Publish && is_sound(cut),
        AndroidPhase::TagPushing(cut) => {
            &&& action matches Action::TagAndPush { tag, .. } && tag@ == cut.tag@
            &&& is_sound(cut)
        },
        AndroidPhase::Closed => action is Finish || action is Abort,
    }
}

// ---------------------------------------------------------------------------
// Laws
// ---------------------------------------------------------------------------

/// The command only ever goes forward, until it is closed.
pub proof fn law_command_goes_forward(
    patterns: Seq<Seq<char>>,
    phase: AndroidPhase,
    event: Event,
    r: (AndroidPhase, Action),
)
    requires
        follows(patterns, phase, event, r),
    ensures
        rank(phase) < rank(r.0) || (phase is Closed && r.0 is Closed && is_unexpected(r.1)),
{
    reveal(follows);
}

/// What follows when a tag is cut is justified.
#[verifier::rlimit(30)]
proof fn lemma_justified_cut(
    patterns: Seq<Seq<char>>,
    message: String,
    has_real: bool,
    event: Event,
    r: (AndroidPhase, Action),
)
    requires
        is_conventional(message@),
        follows(patterns, AndroidPhase::Tagging { message, has_real }, event, r),
    ensures
        is_justified(r.0, r.1),
{
    reveal(follows);
    if let Event::Tags(tags) = event {
        let all = texts(tags@);
        if next_tag(newest_leading(all), bump_of(message@)) is Some {
            law_new_tag_is_newest_leading(all, bump_of(message@));
        }
    }
}

/// What follows a justified step is justified.
proof fn lemma_justified_step(
    patterns: Seq<Seq<char>>,
    phase: AndroidPhase,
    action: Action,
    event: Event,
    r: (AndroidPhase, Action),
)
    requires
        is_justified(phase, action),
        follows(patterns, phase, event, r),
    ensures
        is_justified(r.0, r.1),
{
    if let AndroidPhase::Tagging { message, has_real } = phase {
        lemma_justified_cut(patterns, message, has_real, event, r);
    } else {
        lemma_justified_other(patterns, phase, action, event, r);
    }
}

#[verifier::rlimit(30)]
proof fn lemma_justified_other(
    patterns: Seq<Seq<char>>,
    phase: AndroidPhase,
    action: Action,
    event: Event,
    r: (AndroidPhase, Action),
)
    requires
        is_justified(phase, action),
        !(phase is Tagging),
        follows(patterns, phase, event, r),
    ensures
        is_justified(r.0, r.1),
{
    reveal(follows);
    match (phase, event) {
        (AndroidPhase::Staging, Event::Staged(deltas)) => {
            law_fixed_messages_are_conventional(delta_files(deltas@));
            if let Action::RenderDiff { paths } = r.1 {
                assert(texts(paths@).len() == paths@.len());
            }
        },
        (AndroidPhase::Listing(cut), Event::Index(indexed)) => {
            if let Action::ReadFiles { paths } = r.1 {
                assert(texts(paths@).len() == paths@.len());
            }
        },
        _ => {},
    }
}

/// What is committed is a Conventional Commits message, what is tagged is a
/// version, and the README is regenerated only in a release that holds real
/// changes.
pub proof fn law_every_action_is_justified(
    patterns: Seq<Seq<char>>,
    first: (AndroidPhase, Action),
    run: Seq<(Event, AndroidPhase, Action)>,
    i: int,
)
    requires
        is_run(patterns, first, run),
        0 <= i <= run.len(),
    ensures
        is_justified(phase_at(first, run, i), action_at(first, run, i)),
    decreases i,
{
    if i > 0 {
        let k = i - 1;
        law_every_action_is_justified(patterns, first, run, k);
        assert(follows(patterns, phase_at(first, run, k), run[k].0, (run[k].1, run[k].2)));
        lemma_justified_step(
            patterns,
            phase_at(first, run, k),
            action_at(first, run, k),
            run[k].0,
            (run[k].1, run[k].2),
        );
    }
}

/// No step is taken twice, and none out of order.
pub proof fn law_steps_keep_their_order(
    patterns: Seq<Seq<char>>,
    first: (AndroidPhase, Action),
    run: Seq<(Event, AndroidPhase, Action)>,
    i: int,
    j: int,
)
    requires
        is_run(patterns, first, run),
        0 <= i < j <= run.len(),
    ensures
        rank(phase_at(first, run, i)) < rank(phase_at(first, run, j)) || (phase_at(
            first,
            run,
            i,
        ) is Closed && phase_at(first, run, j) is Closed && is_unexpected(
            action_at(first, run, j),
        )),
    decreases j - i,
{
    let k = j - 1;
    assert(follows(patterns, phase_at(first, run, k), run[k].0, (run[k].1, run[k].2)));
    law_command_goes_forward(patterns, phase_at(first, run, k), run[k].0, (run[k].1, run[k].2));
    if i < k {
        law_steps_keep_their_order(patterns, first, run, i, k);
    }
}

/// Whether a phase is one of a release that holds real changes.
pub open spec fn is_of_real_changes(phase: AndroidPhase) -> bool {
    match phase {
        AndroidPhase::Diffing | AndroidPhase::Drafting => true,
        AndroidPhase::Tagging { has_real, .. } => has_real,
        _ => cut_of(phase) matches Some(cut) && cut.has_real,
    }
}

/// Whether a real file is among the differences of this event.
pub open spec fn stages_real_files(patterns: Seq<Seq<char>>, event: Event) -> bool {
    event matches Event::Staged(deltas) && real_paths(
        delta_files(deltas@),
        commit_kinds(delta_files(deltas@), patterns),
    ).len() > 0
}

/// A release holds real changes from the staged differences on.
proof fn lemma_real_step(
    patterns: Seq<Seq<char>>,
    phase: AndroidPhase,
    event: Event,
    r: (AndroidPhase, Action),
)
    requires
        follows(patterns, phase, event, r),
        is_of_real_changes(r.0),
    ensures
        is_of_real_changes(phase) || (phase is Staging && stages_real_files(patterns, event)),
{
    reveal(follows);
}

/// A release holds real changes only where a real file is among the differences
/// that were staged at its start.
pub proof fn law_real_changes_were_staged(
    patterns: Seq<Seq<char>>,
    first: (AndroidPhase, Action),
    run: Seq<(Event, AndroidPhase, Action)>,
    i: int,
)
    requires
        is_run(patterns, first, run),
        0 <= i <= run.len(),
        is_of_real_changes(phase_at(first, run, i)),
    ensures
        i > 0,
        stages_real_files(patterns, run[0].0),
    decreases i,
{
    if i > 0 {
        let k = i - 1;
        let before = phase_at(first, run, k);
        assert(follows(patterns, before, run[k].0, (run[k].1, run[k].2)));
        lemma_real_step(patterns, before, run[k].0, (run[k].1, run[k].2));
        if is_of_real_changes(before) {
            law_real_changes_were_staged(patterns, first, run, k);
        } else if k > 0 {
            law_steps_keep_their_order(patterns, first, run, 0, k);
        }
    }
}

/// The README is regenerated only where a real file is among the differences
/// that were staged, so that a commit of the README alone does not lead to
/// another one.
pub proof fn law_readme_needs_real_changes(
    patterns: Seq<Seq<char>>,
    first: (AndroidPhase, Action),
    run: Seq<(Event, AndroidPhase, Action)>,
    i: int,
)
    requires
        is_run(patterns, first, run),
        0 <= i <= run.len(),
        phase_at(first, run, i) is Writing || action_at(first, run, i) is WriteReadme,
    ensures
        i > 0,
        run[0].0 matches Event::Staged(deltas) && real_paths(
            delta_files(deltas@),
            commit_kinds(delta_files(deltas@), patterns),
        ).len() > 0,
{
    law_every_action_is_justified(patterns, first, run, i);
    law_real_changes_were_staged(patterns, first, run, i);
}

/// The command ends: fourteen events close it at the latest.
pub proof fn law_every_command_ends(
    patterns: Seq<Seq<char>>,
    first: (AndroidPhase, Action),
    run: Seq<(Event, AndroidPhase, Action)>,
)
    requires
        is_run(patterns, first, run),
        run.len() >= 14,
    ensures
        phase_at(first, run, 14) is Closed,
{
    lemma_rank_grows(patterns, first, run, 14);
}

proof fn lemma_rank_grows(
    patterns: Seq<Seq<char>>,
    first: (AndroidPhase, Action),
    run: Seq<(Event, AndroidPhase, Action)>,
    i: int,
)
    requires
        is_run(patterns, first, run),
        0 <= i <= run.len(),
    ensures
        rank(phase_at(first, run, i)) >= i + 1 || phase_at(first, run, i) is Closed,
    decreases i,
{
    if i > 0 {
        let k = i - 1;
        lemma_rank_grows(patterns, first, run, k);
        assert(follows(patterns, phase_at(first, run, k), run[k].0, (run[k].1, run[k].2)));
        law_command_goes_forward(patterns, phase_at(first, run, k), run[k].0, (run[k].1, run[k].2));
    }
}

/// A phase that holds a release either has it from the phase before, or cuts it
/// from the tags.
proof fn lemma_cut_step(
    patterns: Seq<Seq<char>>,
    phase: AndroidPhase,
    event: Event,
    r: (AndroidPhase, Action),
)
    requires
        follows(patterns, phase, event, r),
        cut_of(r.0) is Some,
    ensures
        phase is Tagging ==> is_cut_at(phase, event, cut_of(r.0)->0),
        !(phase is Tagging) ==> cut_of(phase) == cut_of(r.0),
{
    reveal(follows);
    if let AndroidPhase::Tagging { message, has_real } = phase {
        if let Event::Tags(tags) = event {
            law_new_tag_is_newest_leading(texts(tags@), bump_of(message@));
        }
    }
}

/// The tag of a release is cut from the tags that were read, by what its
/// message means, and is newer than each version that one of them begins with.
pub proof fn law_tag_is_cut_from_the_tags(
    patterns: Seq<Seq<char>>,
    first: (AndroidPhase, Action),
    run: Seq<(Event, AndroidPhase, Action)>,
    i: int,
)
    requires
        is_run(patterns, first, run),
        0 <= i <= run.len(),
        cut_of(phase_at(first, run, i)) is Some,
    ensures
        exists|j: int|
            0 <= j < i && is_cut_at(
                phase_at(first, run, j),
                #[trigger] run[j].0,
                cut_of(phase_at(first, run, i))->0,
            ),
    decreases i,
{
    if i > 0 {
        let k = i - 1;
        let before = phase_at(first, run, k);
        let cut = cut_of(phase_at(first, run, i))->0;
        assert(follows(patterns, before, run[k].0, (run[k].1, run[k].2)));
        lemma_cut_step(patterns, before, run[k].0, (run[k].1, run[k].2));
        if before is Tagging {
            assert(is_cut_at(phase_at(first, run, k), run[k].0, cut));
        } else {
            law_tag_is_cut_from_the_tags(patterns, first, run, k);
            let j = choose|j: int|
                0 <= j < k && is_cut_at(phase_at(first, run, j), #[trigger] run[j].0, cut);
            assert(is_cut_at(phase_at(first, run, j), run[j].0, cut));
        }
    }
}

/// A phase that holds a release holds the one that an earlier phase held.
proof fn lemma_cut_stays(
    patterns: Seq<Seq<char>>,
    first: (AndroidPhase, Action),
    run: Seq<(Event, AndroidPhase, Action)>,
    k: int,
    i: int,
)
    requires
        is_run(patterns, first, run),
        0 <= k <= i <= run.len(),
        cut_of(phase_at(first, run, k)) is Some,
        cut_of(phase_at(first, run, i)) is Some,
    ensures
        cut_of(phase_at(first, run, k)) == cut_of(phase_at(first, run, i)),
    decreases i,
{
    if k < i {
        let l = i - 1;
        let before = phase_at(first, run, l);
        assert(follows(patterns, before, run[l].0, (run[l].1, run[l].2)));
        lemma_cut_step(patterns, before, run[l].0, (run[l].1, run[l].2));
        if k < l {
            law_steps_keep_their_order(patterns, first, run, k, l);
        }
        lemma_cut_stays(patterns, first, run, k, l);
    }
}

/// What follows the word on generated code: only the probe waits for it, and
/// where there is such code, its version is brought in line with the release.
proof fn lemma_generated_step(
    patterns: Seq<Seq<char>>,
    phase: AndroidPhase,
    r: (AndroidPhase, Action),
)
    requires
        follows(patterns, phase, Event::Generated(true), r),
    ensures
        match phase {
            AndroidPhase::Probing(cut) => is_synced_at(patterns, r.0, r.1, cut),
            _ => r.0 is Closed,
        },
{
    reveal(follows);
}

/// Whether the version in generated code is brought in line with a release
/// here.
pub open spec fn is_synced_at(
    patterns: Seq<Seq<char>>,
    phase: AndroidPhase,
    action: Action,
    cut: AndroidCut,
) -> bool {
    &&& phase == AndroidPhase::Syncing(cut)
    &&& action matches Action::SyncKotlin { version, skip } && version@ == bare(cut.tag@) && texts(
        skip@,
    ) == patterns
}

/// Where the repository holds generated code, the version in it is brought in
/// line with the release before anything more is done of the release, the
/// commit in particular.
pub proof fn law_generated_code_is_synced(
    patterns: Seq<Seq<char>>,
    first: (AndroidPhase, Action),
    run: Seq<(Event, AndroidPhase, Action)>,
    j: int,
    i: int,
)
    requires
        is_run(patterns, first, run),
        0 <= j < i <= run.len(),
        run[j].0 == Event::Generated(true),
        cut_of(phase_at(first, run, i)) is Some,
    ensures
        exists|k: int|
            j < k <= i && is_synced_at(
                patterns,
                phase_at(first, run, k),
                #[trigger] action_at(first, run, k),
                cut_of(phase_at(first, run, i))->0,
            ),
{
    let k = j + 1;
    assert(follows(patterns, phase_at(first, run, j), run[j].0, (run[j].1, run[j].2)));
    lemma_generated_step(patterns, phase_at(first, run, j), (run[j].1, run[j].2));
    if k < i {
        law_steps_keep_their_order(patterns, first, run, k, i);
    }
    lemma_cut_stays(patterns, first, run, k, i);
    assert(is_synced_at(
        patterns,
        phase_at(first, run, k),
        action_at(first, run, k),
        cut_of(phase_at(first, run, i))->0,
    ));
}

/// No version is changed in a repository without generated code.
pub proof fn law_only_generated_code_is_synced(
    patterns: Seq<Seq<char>>,
    first: (AndroidPhase, Action),
    run: Seq<(Event, AndroidPhase, Action)>,
    i: int,
)
    requires
        is_run(patterns, first, run),
        0 <= i <= run.len(),
        action_at(first, run, i) is SyncKotlin,
    ensures
        i > 0,
        run[i - 1].0 == Event::Generated(true),
{
    law_every_action_is_justified(patterns, first, run, i);
    let k = i - 1;
    assert(follows(patterns, phase_at(first, run, k), run[k].0, (run[k].1, run[k].2)));
    lemma_steps_before(patterns, phase_at(first, run, k), run[k].0, (run[k].1, run[k].2));
}

/// The tag is pushed only when the artifacts have been published, these only
/// when the branch has been pushed, and the branch only when the commit has
/// been made.
#[verifier::rlimit(30)]
pub proof fn law_tag_follows_publication(
    patterns: Seq<Seq<char>>,
    first: (AndroidPhase, Action),
    run: Seq<(Event, AndroidPhase, Action)>,
    i: int,
)
    requires
        is_run(patterns, first, run),
        0 <= i <= run.len(),
    ensures
        phase_at(first, run, i) matches AndroidPhase::Pushing(cut) ==> {
            &&& i >= 1
            &&& phase_at(first, run, i - 1) == AndroidPhase::Committing(cut)
            &&& run[i - 1].0 is Done
        },
        phase_at(first, run, i) matches AndroidPhase::Publishing(cut) ==> {
            &&& i >= 2
            &&& phase_at(first, run, i - 1) == AndroidPhase::Pushing(cut)
            &&& run[i - 1].0 is Done
        },
        phase_at(first, run, i) matches AndroidPhase::TagPushing(cut) ==> {
            &&& i >= 3
            &&& phase_at(first, run, i - 1) == AndroidPhase::Publishing(cut)
            &&& run[i - 1].0 is Done
            &&& phase_at(first, run, i - 2) == AndroidPhase::Pushing(cut)
            &&& run[i - 2].0 is Done
            &&& phase_at(first, run, i - 3) == AndroidPhase::Committing(cut)
            &&& run[i - 3].0 is Done
        },
    decreases i,
{
    if i > 0 {
        let k = i - 1;
        assert(follows(patterns, phase_at(first, run, k), run[k].0, (run[k].1, run[k].2)));
        law_tag_follows_publication(patterns, first, run, k);
        reveal(follows);
    }
}

/// What a commit of real changes, a good end and a sync each follow.
proof fn lemma_steps_before(
    patterns: Seq<Seq<char>>,
    phase: AndroidPhase,
    event: Event,
    r: (AndroidPhase, Action),
)
    requires
        follows(patterns, phase, event, r),
    ensures
        r.0 matches AndroidPhase::Committing(cut) ==> cut.has_real ==> {
            ||| phase is Writing && event is Done
            ||| event matches Event::Index(indexed) && all_but_readme(texts(indexed@)).len() == 0
        },
        r.1 matches Action::Finish(Outcome::Released { tag }) ==> {
            &&& phase is TagPushing
            &&& cut_of(phase)->0.tag@ == tag@
            &&& event is Done
        },
        r.1 is SyncKotlin && r.0 is Syncing ==> event == Event::Generated(true),
{
    reveal(follows);
}

/// Where a real file has changed, the commit comes only when the README has
/// been written, or when there is nothing to write it from.
pub proof fn law_readme_comes_before_the_commit(
    patterns: Seq<Seq<char>>,
    first: (AndroidPhase, Action),
    run: Seq<(Event, AndroidPhase, Action)>,
    i: int,
)
    requires
        is_run(patterns, first, run),
        0 <= i <= run.len(),
        phase_at(first, run, i) matches AndroidPhase::Committing(cut) && cut.has_real,
    ensures
        i > 0,
        ({
            ||| action_at(first, run, i - 1) is WriteReadme && run[i - 1].0 is Done
            ||| run[i - 1].0 matches Event::Index(indexed) && all_but_readme(
                texts(indexed@),
            ).len() == 0
        }),
{
    let k = i - 1;
    assert(follows(patterns, phase_at(first, run, k), run[k].0, (run[k].1, run[k].2)));
    lemma_steps_before(patterns, phase_at(first, run, k), run[k].0, (run[k].1, run[k].2));
    law_every_action_is_justified(patterns, first, run, k);
}

/// The command ends well only when the tag has been pushed, and so, by the
/// order of the steps, only when all before it is done.
pub proof fn law_finished_command_has_pushed_its_tag(
    patterns: Seq<Seq<char>>,
    first: (AndroidPhase, Action),
    run: Seq<(Event, AndroidPhase, Action)>,
    i: int,
)
    requires
        is_run(patterns, first, run),
        0 <= i <= run.len(),
        action_at(first, run, i) matches Action::Finish(Outcome::Released { .. }),
    ensures
        i > 0,
        phase_at(first, run, i - 1) matches AndroidPhase::TagPushing(cut) && cut.tag@ == action_at(
            first,
            run,
            i,
        )->Finish_0->tag@,
        action_at(first, run, i - 1) is TagAndPush,
        run[i - 1].0 is Done,
{
    let k = i - 1;
    assert(follows(patterns, phase_at(first, run, k), run[k].0, (run[k].1, run[k].2)));
    lemma_steps_before(patterns, phase_at(first, run, k), run[k].0, (run[k].1, run[k].2));
    law_every_action_is_justified(patterns, first, run, k);
}

/// Where nothing has changed, the command ends at once: nothing is committed,
/// pushed, published or tagged, so that no second tag lands on the same commit.
pub proof fn law_no_changes_no_release(
    patterns: Seq<Seq<char>>,
    first: (AndroidPhase, Action),
    run: Seq<(Event, AndroidPhase, Action)>,
    i: int,
)
    requires
        is_run(patterns, first, run),
        run.len() > 0,
        run[0].0 matches Event::Staged(deltas) && deltas@.len() == 0,
        1 <= i <= run.len(),
    ensures
        run[0].2 == Action::Finish(Outcome::NothingToRelease),
        i > 1 ==> is_unexpected(action_at(first, run, i)),
{
    assert(follows(patterns, phase_at(first, run, 0), run[0].0, (run[0].1, run[0].2))
        && run[0].1 is Closed && run[0].2 == Action::Finish(Outcome::NothingToRelease)) by {
        reveal(follows);
    }
    if i > 1 {
        law_steps_keep_their_order(patterns, first, run, 1, i);
    }
}

/// The command begins by staging all that its patterns do not ignore, and adds
/// no remote.
pub proof fn law_how_the_command_begins(patterns: Seq<Seq<char>>, r: (AndroidPhase, Action))
    requires
        begins(patterns, r),
    ensures
        r.0 is Staging && r.1 is Stage,
        r.1->remote is None,
        texts(r.1->Stage_skip@) == patterns,
{
}

/// What comes of the staged differences. Without any, the command ends; where no
/// file is left that is not binary, not ignored and not Markdown, the message
/// is a fixed one and there are no real changes; else the patch of exactly the
/// files that are left is rendered.
pub proof fn law_step_from_the_stage(
    patterns: Seq<Seq<char>>,
    deltas: Vec<FileDelta>,
    r: (AndroidPhase, Action),
)
    requires
        follows(patterns, AndroidPhase::Staging, Event::Staged(deltas), r),
    ensures
        ({
            let files = delta_files(deltas@);
            let left = exists|p: Seq<char>| #[trigger]
                files.contains((p, false)) && !ignored(patterns, p) && !is_markdown(p);
            &&& deltas@.len() == 0 ==> r.1 == Action::Finish(Outcome::NothingToRelease)
            &&& deltas@.len() > 0 && !left ==> {
                &&& r.0 is Tagging && r.1 is ReadTags
                &&& !r.0->has_real
                &&& r.0->message@ == quiet_message(files)
            }
            &&& deltas@.len() > 0 && left ==> {
                &&& r.0 is Diffing && r.1 is RenderDiff
                &&& texts(r.1->RenderDiff_paths@) == real_paths(files, commit_kinds(files, patterns))
                &&& forall|p: Seq<char>| #[trigger]
                    texts(r.1->RenderDiff_paths@).contains(p) <==> files.contains((p, false))
                        && !ignored(patterns, p) && !is_markdown(p)
            }
        }),
{
    reveal(follows);
    let files = delta_files(deltas@);
    let shown = real_paths(files, commit_kinds(files, patterns));
    assert forall|p: Seq<char>| #[trigger] shown.contains(p) <==> files.contains((p, false))
        && !ignored(patterns, p) && !is_markdown(p) by {
        law_what_a_command_shows(files, patterns, p);
    }
    if shown.len() > 0 {
        assert(shown.contains(shown[0]));
        assert(files.contains((shown[0], false)));
    }
    if exists|p: Seq<char>| #[trigger]
        files.contains((p, false)) && !ignored(patterns, p) && !is_markdown(p) {
        let p = choose|p: Seq<char>| #[trigger]
            files.contains((p, false)) && !ignored(patterns, p) && !is_markdown(p);
        assert(shown.contains(p));
    }
}

/// The model is put the whole patch behind the prompt, and its reply is the
/// message of real changes where it is a Conventional Commits message; any other
/// reply, and a response without one, ends the command with the reason.
pub proof fn law_steps_of_the_message(
    patterns: Seq<Seq<char>>,
    lines: Vec<(char, Vec<u8>)>,
    body: Vec<u8>,
    r: (AndroidPhase, Action),
)
    ensures
        follows(patterns, AndroidPhase::Diffing, Event::Patch(lines), r) ==> r.0 is Drafting
            && asks(r.1, COMMIT_PROMPT@ + diff_text(patch_lines(lines@))),
        follows(patterns, AndroidPhase::Drafting, Event::Response(body), r) ==> match reply(
            json_text_at(body@, "/choices/0/message/content"@),
        ) {
            Ok(message) => {
                &&& is_conventional(message) ==> r.0 is Tagging && r.0->has_real && r.0->message@
                    == message && r.1 is ReadTags
                &&& !is_conventional(message) ==> (r.1 matches Action::Abort(Failure::Message(e))
                    && message_error_is(message, e))
            },
            Err(e) => r.1 == Action::Abort(Failure::Lm(e)),
        },
{
    reveal(follows);
}

/// The next tag is cut by what the message means, from those tags that begin
/// with a version, with the message as it was; a version that cannot be raised
/// ends the command.
pub proof fn law_step_from_the_tags(
    patterns: Seq<Seq<char>>,
    message: String,
    has_real: bool,
    tags: Vec<String>,
    r: (AndroidPhase, Action),
)
    requires
        follows(
            patterns,
            (AndroidPhase::Tagging { message, has_real }),
            Event::Tags(tags),
            r,
        ),
    ensures
        ({
            let next = next_tag(newest_leading(texts(tags@)), bump_of(message@));
            &&& next is None ==> r.1 == Action::Abort(Failure::Tag(TagError::Overflow))
            &&& next is Some ==> r.0 is Probing && r.1 is ProbeGenerated && cut_of(
                r.0,
            )->0.message@ == message@ && cut_of(r.0)->0.tag@ == next->0 && cut_of(r.0)->0.has_real
                == has_real
        }),
{
    reveal(follows);
}

/// A step that answers another step of the same release keeps the release.
pub proof fn law_steps_keep_the_release(
    patterns: Seq<Seq<char>>,
    phase: AndroidPhase,
    event: Event,
    r: (AndroidPhase, Action),
)
    requires
        follows(patterns, phase, event, r),
        cut_of(phase) is Some,
        cut_of(r.0) is Some,
    ensures
        cut_of(r.0) == cut_of(phase),
{
    reveal(follows);
}

/// The steps between the tag and the commit. The version in generated code is
/// brought in line. Then, of real changes, the README is regenerated from all
/// other files of the index, if there are any: the model is put all of them, and
/// its reply is written without its fence. Then comes the commit.
pub proof fn law_steps_to_the_commit(
    patterns: Seq<Seq<char>>,
    cut: AndroidCut,
    generated: bool,
    indexed: Vec<String>,
    files: Vec<(String, Vec<u8>)>,
    body: Vec<u8>,
    r: (AndroidPhase, Action),
)
    ensures
        follows(patterns, AndroidPhase::Probing(cut), Event::Generated(generated), r) && generated
            ==> r.0 is Syncing && r.1 is SyncKotlin && r.1->SyncKotlin_version@ == bare(cut.tag@)
            && texts(r.1->SyncKotlin_skip@) == patterns,
        (follows(patterns, AndroidPhase::Probing(cut), Event::Generated(generated), r)
            && !generated) || follows(patterns, AndroidPhase::Syncing(cut), Event::Done, r) ==> {
            &&& cut.has_real ==> r.0 is Listing && r.1 is ListIndex
            &&& !cut.has_real ==> r.0 is Committing && r.1 is Commit && r.1->Commit_message@
                == cut.message@
        },
        follows(patterns, AndroidPhase::Listing(cut), Event::Index(indexed), r) ==> {
            let chosen = all_but_readme(texts(indexed@));
            &&& chosen.len() > 0 ==> r.0 is Reading && r.1 is ReadFiles && texts(
                r.1->ReadFiles_paths@,
            ) == chosen
            &&& chosen.len() == 0 ==> r.0 is Committing && r.1 is Commit && r.1->Commit_message@
                == cut.message@
        },
        follows(patterns, AndroidPhase::Reading(cut), Event::Files(files), r)
            ==> r.0 is Documenting && asks(r.1, readme_request(contents(files@))),
        follows(patterns, AndroidPhase::Documenting(cut), Event::Response(body), r) ==> match reply(
            json_text_at(body@, "/choices/0/message/content"@),
        ) {
            Ok(text) => r.0 is Writing && r.1 is WriteReadme && r.1->WriteReadme_text@ == unfenced(
                text,
            ),
            Err(e) => r.1 == Action::Abort(Failure::Lm(e)),
        },
        follows(patterns, AndroidPhase::Writing(cut), Event::Done, r) ==> r.0 is Committing
            && r.1 is Commit && r.1->Commit_message@ == cut.message@,
{
    reveal(follows);
}

/// The steps from the commit to the end: the branch `main` is pushed to
/// `origin`, the artifacts are published under the version of the tag, the tag
/// is pushed, and the tag is what the command ends with.
pub proof fn law_steps_from_the_commit(
    patterns: Seq<Seq<char>>,
    cut: AndroidCut,
    r: (AndroidPhase, Action),
)
    ensures
        follows(patterns, AndroidPhase::Committing(cut), Event::Done, r) ==> r.0 is Pushing
            && r.1 is Push && command_is(
            r.1->Push_command,
            "git"@,
            seq!["push"@, "origin"@, "main"@],
        ),
        follows(patterns, AndroidPhase::Pushing(cut), Event::Done, r) ==> r.0 is Publishing
            && r.1 is Publish && command_is(
            r.1->Publish_command,
            "./gradlew"@,
            gradle_args(cut.tag@),
        ),
        follows(patterns, AndroidPhase::Publishing(cut), Event::Done, r) ==> r.0 is TagPushing
            && r.1 is TagAndPush && r.1->TagAndPush_tag@ == cut.tag@ && command_is(
            r.1->TagAndPush_command,
            "git"@,
            seq!["push"@, "origin"@, cut.tag@],
        ),
        follows(patterns, AndroidPhase::TagPushing(cut), Event::Done, r) ==> (
        r.1 matches Action::Finish(Outcome::Released { tag }) && tag@ == cut.tag@),
{
    reveal(follows);
}

/// The event that a phase waits for.
pub open spec fn is_awaited(phase: AndroidPhase, event: Event) -> bool {
    match phase {
        AndroidPhase::Staging => event is Staged,
        AndroidPhase::Diffing => event is Patch,
        AndroidPhase::Drafting | AndroidPhase::Documenting(_) => event is Response,
        AndroidPhase::Tagging { .. } => event is Tags,
        AndroidPhase::Probing(_) => event is Generated,
        AndroidPhase::Listing(_) => event is Index,
        AndroidPhase::Reading(_) => event is Files,
        AndroidPhase::Closed => false,
        _ => event is Done,
    }
}

/// The command gives up over an event exactly where the phase does not wait for
/// it.
pub proof fn law_only_other_events_are_unexpected(
    patterns: Seq<Seq<char>>,
    phase: AndroidPhase,
    event: Event,
    r: (AndroidPhase, Action),
)
    requires
        follows(patterns, phase, event, r),
    ensures
        is_unexpected(r.1) <==> !is_awaited(phase, event),
        !is_awaited(phase, event) ==> r.0 is Closed,
{
    reveal(follows);
}

} // verus!
