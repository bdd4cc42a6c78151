//! The release of one entry, from the generator to the GitHub release: which
//! step follows which, and with what.

use crate::config::{
    config_error_is, is_openapi, names_templates, openapi_step, wants_openapi, Entry,
};
use crate::detect::{detect_kind, kind_of, RepoKind, RepoSnapshot};
use crate::flow::{ask, asks, is_unexpected, Action, Event, Failure, Outcome};
use crate::globs::picked;
use crate::lm::{assistant_message, json_text_at, reply, REPLY_POINTER};
use crate::message::{
    all_utf8, bump_of, bump_of_message, check_message, commit_prompt, diff_text, is_conventional,
    law_fixed_messages_are_conventional, message_error_is, patch_lines, render_text_diff,
    COMMIT_PROMPT,
};
use crate::publish::{
    command_is, generator_args, generator_command, gradle_args, gradle_publish_command,
    push_main_command, push_tag_command, CommandLine,
};
use crate::readme::{
    contents, law_no_patterns_no_sources, readme_prompt, readme_request, readme_sources, sources,
    strip_outer_fence, unfenced,
};
use crate::staging::{
    all_named, commit_msg_for_diff, delta_files, diff_files, law_what_a_release_shows, patterns_of,
    real_paths, release_kinds, FileDelta, MessagePlan,
};
use crate::tags::{
    all_semver, bare, checked_new_tag, is_semver, last_tag, last_text, law_new_tag_is_newest,
    newest_tag, next_tag, older, parse_tag, tag_error_is, without_v,
};
use crate::text::{copy_strings, texts};
use vstd::prelude::*;

verus! {

/// The release that is being cut.
#[derive(Debug)]
pub struct Cut {
    pub kind: RepoKind,
    pub message: String,
    pub tag: String,
}

/// What the release of an entry is waiting for.
#[derive(Debug)]
pub enum Phase {
    /// The tags, to seed the generator with the last one.
    Seeding { templates: String, wipe: bool },
    /// The wipe before this command of the generator.
    Wiping { command: CommandLine },
    /// The generator.
    Generating,
    /// The files that tell the language.
    Inspecting,
    /// The patch of the Gradle wrapper.
    Patching { kind: RepoKind },
    /// The staged files.
    Staging { kind: RepoKind },
    /// The patch for the commit message.
    Diffing { kind: RepoKind },
    /// The commit message.
    Drafting { kind: RepoKind },
    /// The tags, to cut the next one.
    Tagging { kind: RepoKind, message: String },
    /// The version markers.
    Syncing(Cut),
    /// The files of the index, for the README.
    Listing(Cut),
    /// The sources of the README.
    Reading(Cut),
    /// The README from the model.
    Documenting(Cut),
    /// The README on disk.
    Writing(Cut),
    /// The commit.
    Committing(Cut),
    /// The push of the branch.
    Pushing(Cut),
    /// The tag and its push.
    TagPushing(Cut),
    /// The publication of the artifacts.
    Publishing(Cut),
    /// The GitHub release.
    Releasing(Cut),
    /// Nothing: the release has ended.
    Closed,
}

// ---------------------------------------------------------------------------
// The model
// ---------------------------------------------------------------------------

/// The patterns of `commitIgnore`.
pub open spec fn ignore_globs(entry: Entry) -> Seq<Seq<char>> {
    match entry.commit_ignore {
        Some(list) => texts(list.glob@),
        None => Seq::empty(),
    }
}

/// The patterns of `readme`.
pub open spec fn readme_globs(entry: Entry) -> Seq<Seq<char>> {
    match entry.readme {
        Some(list) => texts(list.glob@),
        None => Seq::empty(),
    }
}

/// The staged paths that the model sees.
pub open spec fn shown_paths(entry: Entry, files: Seq<(Seq<char>, bool)>) -> Seq<Seq<char>> {
    real_paths(files, release_kinds(files, ignore_globs(entry)))
}

/// Whether the release ends with this failure.
pub open spec fn fails(r: (Phase, Action), failure: Failure) -> bool {
    r.0 is Closed && r.1 == Action::Abort(failure)
}

/// Whether a release holds this kind, this message and this tag.
pub open spec fn cut_is(cut: Cut, kind: RepoKind, message: Seq<char>, tag: Seq<char>) -> bool {
    cut.kind == kind && cut.message@ == message && cut.tag@ == tag
}

/// Whether what comes next is to run the generator.
pub open spec fn generates(
    entry: Entry,
    templates: Seq<char>,
    seed: Seq<char>,
    command: CommandLine,
) -> bool {
    command_is(command, "openapi-generator"@, generator_args(entry.path@, templates, seed))
}

/// Whether what comes next is to stage everything.
pub open spec fn stages(entry: Entry, kind: RepoKind, r: (Phase, Action)) -> bool {
    &&& r.0 == Phase::Staging { kind }
    &&& r.1 matches Action::Stage { remote, skip } && skip@.len() == 0 && match (
        remote,
        entry.remote,
    ) {
        (Some(a), Some(b)) => a@ == b@,
        (None, None) => true,
        _ => false,
    }
}

/// Whether what comes next is to read the tags, with this message.
pub open spec fn reads_tags(kind: RepoKind, message: Seq<char>, r: (Phase, Action)) -> bool {
    &&& r.0 matches Phase::Tagging { kind: k, message: m } && k == kind && m@ == message
    &&& r.1 is ReadTags
}

/// Whether what comes next is the commit.
pub open spec fn commits(
    kind: RepoKind,
    message: Seq<char>,
    tag: Seq<char>,
    r: (Phase, Action),
) -> bool {
    &&& r.0 matches Phase::Committing(cut) && cut_is(cut, kind, message, tag)
    &&& r.1 matches Action::Commit { message: m } && m@ == message
}

/// Whether what comes next is the README, where the entry asks for one, and
/// the commit where it does not.
pub open spec fn documents(
    entry: Entry,
    kind: RepoKind,
    message: Seq<char>,
    tag: Seq<char>,
    r: (Phase, Action),
) -> bool {
    if entry.readme is Some {
        &&& r.0 matches Phase::Listing(cut) && cut_is(cut, kind, message, tag)
        &&& r.1 is ListIndex
    } else {
        commits(kind, message, tag, r)
    }
}

/// Whether what comes next is the GitHub release, where the entry asks for
/// one, and the end where it does not.
pub open spec fn releases(entry: Entry, cut: Cut, r: (Phase, Action)) -> bool {
    if entry.release is Some {
        &&& r.0 == Phase::Releasing(cut)
        &&& r.1 matches Action::Release { tag, globs } && tag@ == cut.tag@ && texts(globs@)
            == texts(entry.release->0.glob@)
    } else {
        finishes(cut.tag@, r)
    }
}

/// Whether the release ends well, with this tag.
pub open spec fn finishes(tag: Seq<char>, r: (Phase, Action)) -> bool {
    &&& r.0 is Closed
    &&& r.1 matches Action::Finish(outcome) && outcome matches Outcome::Released { tag: t } && t@
        == tag
}

/// What the release of an entry begins with.
pub open spec fn begins(entry: Entry, r: (Phase, Action)) -> bool {
    if !is_openapi(entry) {
        r.0 is Inspecting && r.1 is Inspect
    } else if names_templates(entry) {
        &&& r.0 matches Phase::Seeding { templates, wipe } && templates@
            == entry.data->0.templates->0@ && wipe == entry.data->0.delete_all_except_git
        &&& r.1 is ReadTags
    } else {
        &&& r.0 is Closed
        &&& r.1 matches Action::Abort(failure) && failure matches Failure::Config(e)
            && config_error_is(entry, e)
    }
}

/// What follows when the release of an entry is in a phase and an event comes
/// in. An event that the phase does not wait for ends the release.
#[verifier::opaque]
pub open spec fn follows(entry: Entry, phase: Phase, event: Event, r: (Phase, Action)) -> bool {
    match (phase, event) {
        (Phase::Seeding { templates, wipe }, Event::Tags(tags)) => if wipe {
            &&& r.0 matches Phase::Wiping { command } && generates(
                entry,
                templates@,
                last_text(texts(tags@)),
                command,
            )
            &&& r.1 is Wipe
        } else {
            &&& r.0 is Generating
            &&& r.1 matches Action::Generate { command } && generates(
                entry,
                templates@,
                last_text(texts(tags@)),
                command,
            )
        },
        (Phase::Wiping { command }, Event::Done) => {
            &&& r.0 is Generating
            &&& r.1 == Action::Generate { command }
        },
        (Phase::Generating, Event::Done) => r.0 is Inspecting && r.1 is Inspect,
        (Phase::Inspecting, Event::Snapshot(repo)) => if is_openapi(entry) && kind_of(repo)
            == RepoKind::Kotlin {
            r.0 == Phase::Patching { kind: kind_of(repo) } && r.1 is PatchGradle
        } else {
            stages(entry, kind_of(repo), r)
        },
        (Phase::Patching { kind }, Event::Done) => stages(entry, kind, r),
        (Phase::Staging { kind }, Event::Staged(deltas)) => {
            let shown = shown_paths(entry, delta_files(deltas@));
            if !all_named(deltas@) {
                fails(r, Failure::NoPath)
            } else if deltas@.len() == 0 {
                r.0 is Closed && r.1 == Action::Finish(Outcome::NothingToRelease)
            } else if shown.len() == 0 {
                reads_tags(kind, "chore: update"@, r)
            } else {
                &&& r.0 == Phase::Diffing { kind }
                &&& r.1 matches Action::RenderDiff { paths } && texts(paths@) == shown
            }
        },
        (Phase::Diffing { kind }, Event::Patch(lines)) => if all_utf8(patch_lines(lines@)) {
            r.0 == Phase::Drafting { kind } && asks(
                r.1,
                COMMIT_PROMPT@ + diff_text(patch_lines(lines@)),
            )
        } else {
            fails(r, Failure::PatchNotUtf8)
        },
        (Phase::Drafting { kind }, Event::Response(body)) => match reply(
            json_text_at(body@, REPLY_POINTER@),
        ) {
            Err(e) => fails(r, Failure::Lm(e)),
            Ok(message) => if is_conventional(message) {
                reads_tags(kind, message, r)
            } else {
                &&& r.0 is Closed
                &&& r.1 matches Action::Abort(failure) && failure matches Failure::Message(e)
                    && message_error_is(message, e)
            },
        },
        (Phase::Tagging { kind, message }, Event::Tags(tags)) => {
            let all = texts(tags@);
            let next = next_tag(newest_tag(all), bump_of(message@));
            if !all_semver(all) || next is None {
                &&& r.0 is Closed
                &&& r.1 matches Action::Abort(failure) && failure matches Failure::Tag(e)
                    && tag_error_is(all, bump_of(message@), e)
            } else if is_openapi(entry) {
                &&& r.0 matches Phase::Syncing(cut) && cut_is(cut, kind, message@, next->0)
                &&& r.1 matches Action::SyncVersions { version } && version@ == bare(next->0)
            } else {
                documents(entry, kind, message@, next->0, r)
            }
        },
        (Phase::Syncing(cut), Event::Done) => documents(
            entry,
            cut.kind,
            cut.message@,
            cut.tag@,
            r,
        ),
        (Phase::Listing(cut), Event::Index(indexed)) => {
            let chosen = sources(texts(indexed@), readme_globs(entry));
            if chosen.len() == 0 {
                commits(cut.kind, cut.message@, cut.tag@, r)
            } else {
                &&& r.0 == Phase::Reading(cut)
                &&& r.1 matches Action::ReadFiles { paths } && texts(paths@) == chosen
            }
        },
        (Phase::Reading(cut), Event::Files(files)) => {
            &&& r.0 == Phase::Documenting(cut)
            &&& asks(r.1, readme_request(contents(files@)))
        },
        (Phase::Documenting(cut), Event::Response(body)) => match reply(
            json_text_at(body@, REPLY_POINTER@),
        ) {
            Err(e) => fails(r, Failure::Lm(e)),
            Ok(text) => {
                &&& r.0 == Phase::Writing(cut)
                &&& r.1 matches Action::WriteReadme { text: t } && t@ == unfenced(text)
            },
        },
        (Phase::Writing(cut), Event::Done) => commits(cut.kind, cut.message@, cut.tag@, r),
        (Phase::Committing(cut), Event::Done) => {
            &&& r.0 == Phase::Pushing(cut)
            &&& r.1 matches Action::Push { command } && command_is(
                command,
                "git"@,
                seq!["push"@, "origin"@, "main"@],
            )
        },
        (Phase::Pushing(cut), Event::Done) => {
            &&& r.0 == Phase::TagPushing(cut)
            &&& r.1 matches Action::TagAndPush { tag, command } && tag@ == cut.tag@ && command_is(
                command,
                "git"@,
                seq!["push"@, "origin"@, cut.tag@],
            )
        },
        (Phase::TagPushing(cut), Event::Done) => if cut.kind == RepoKind::Android || cut.kind
            == RepoKind::Kotlin {
            &&& r.0 == Phase::Publishing(cut)
            &&& r.1 matches Action::Publish { command } && command_is(
                command,
                "./gradlew"@,
                gradle_args(cut.tag@),
            )
        } else {
            releases(entry, cut, r)
        },
        (Phase::Publishing(cut), Event::Done) => releases(entry, cut, r),
        (Phase::Releasing(cut), Event::Done) => finishes(cut.tag@, r),
        _ => fails(r, Failure::Unexpected),
    }
}

// ---------------------------------------------------------------------------
// The functions
// ---------------------------------------------------------------------------

/// What the release of an entry begins with: an openapi entry with the
/// generator, any other with the look at its language.
pub fn start(entry: &Entry) -> (r: (Phase, Action))
    ensures
        begins(*entry, r),
{
    match openapi_step(entry) {
        Ok(None) => (Phase::Inspecting, Action::Inspect),
        Ok(Some(step)) => (
            Phase::Seeding { templates: step.templates, wipe: step.wipe },
            Action::ReadTags,
        ),
        Err(e) => (Phase::Closed, Action::Abort(Failure::Config(e))),
    }
}

/// What follows when an event comes in. Where `commitIgnore` holds the pattern
/// `*`, the model is never shown a diff.
#[verifier::rlimit(30)]
pub fn step(entry: &Entry, phase: Phase, event: Event) -> (r: (Phase, Action))
    ensures
        follows(*entry, phase, event, r),
        ignore_globs(*entry).contains(seq!['*']) ==> !(r.0 is Diffing),
{
    reveal(follows);
    match (phase, event) {
        (Phase::Seeding { templates, wipe }, Event::Tags(tags)) => {
            let seed = last_tag(tags.as_slice());
            let command = generator_command(
                entry.path.as_str(),
                templates.as_str(),
                seed.as_str(),
            );
            if wipe {
                (Phase::Wiping { command }, Action::Wipe)
            } else {
                (Phase::Generating, Action::Generate { command })
            }
        },
        (Phase::Wiping { command }, Event::Done) => (
            Phase::Generating,
            Action::Generate { command },
        ),
        (Phase::Generating, Event::Done) => (Phase::Inspecting, Action::Inspect),
        (Phase::Inspecting, Event::Snapshot(repo)) => {
            let kind = detect_kind(&repo);
            if wants_openapi(entry) && kind == RepoKind::Kotlin {
                (Phase::Patching { kind }, Action::PatchGradle)
            } else {
                stage(entry, kind)
            }
        },
        (Phase::Patching { kind }, Event::Done) => stage(entry, kind),
        (Phase::Staging { kind }, Event::Staged(deltas)) => after_staging(entry, kind, deltas),
        (Phase::Diffing { kind }, Event::Patch(lines)) => match render_text_diff(&lines) {
            Some(diff) => {
                let prompt = commit_prompt(diff.as_str());
                (Phase::Drafting { kind }, ask(prompt.as_str()))
            },
            None => (Phase::Closed, Action::Abort(Failure::PatchNotUtf8)),
        },
        (Phase::Drafting { kind }, Event::Response(body)) => match assistant_message(
            body.as_slice(),
        ) {
            Ok(text) => match check_message(text) {
                Ok(message) => (Phase::Tagging { kind, message }, Action::ReadTags),
                Err(e) => (Phase::Closed, Action::Abort(Failure::Message(e))),
            },
            Err(e) => (Phase::Closed, Action::Abort(Failure::Lm(e))),
        },
        (Phase::Tagging { kind, message }, Event::Tags(tags)) => {
            let bump = bump_of_message(message.as_str());
            match checked_new_tag(tags.as_slice(), bump) {
                Ok(tag) => {
                    if wants_openapi(entry) {
                        let version = without_v(tag.as_str());
                        (
                            Phase::Syncing(Cut { kind, message, tag }),
                            Action::SyncVersions { version },
                        )
                    } else {
                        document(entry, Cut { kind, message, tag })
                    }
                },
                Err(e) => (Phase::Closed, Action::Abort(Failure::Tag(e))),
            }
        },
        (Phase::Syncing(cut), Event::Done) => document(entry, cut),
        (Phase::Listing(cut), Event::Index(indexed)) => after_listing(entry, cut, indexed),
        (Phase::Reading(cut), Event::Files(files)) => {
            let request = readme_prompt(&files);
            (Phase::Documenting(cut), ask(request.prompt.as_str()))
        },
        (Phase::Documenting(cut), Event::Response(body)) => match assistant_message(
            body.as_slice(),
        ) {
            Ok(text) => {
                let text = strip_outer_fence(text.as_str());
                (Phase::Writing(cut), Action::WriteReadme { text })
            },
            Err(e) => (Phase::Closed, Action::Abort(Failure::Lm(e))),
        },
        (Phase::Writing(cut), Event::Done) => commit(cut),
        (Phase::Committing(cut), Event::Done) => (
            Phase::Pushing(cut),
            Action::Push { command: push_main_command() },
        ),
        (Phase::Pushing(cut), Event::Done) => {
            let tag = cut.tag.clone();
            let command = push_tag_command(cut.tag.as_str());
            (Phase::TagPushing(cut), Action::TagAndPush { tag, command })
        },
        (Phase::TagPushing(cut), Event::Done) => {
            if cut.kind == RepoKind::Android || cut.kind == RepoKind::Kotlin {
                let command = gradle_publish_command(cut.tag.as_str());
                (Phase::Publishing(cut), Action::Publish { command })
            } else {
                release(entry, cut)
            }
        },
        (Phase::Publishing(cut), Event::Done) => release(entry, cut),
        (Phase::Releasing(cut), Event::Done) => (
            Phase::Closed,
            Action::Finish(Outcome::Released { tag: cut.tag }),
        ),
        _ => (Phase::Closed, Action::Abort(Failure::Unexpected)),
    }
}

fn stage(entry: &Entry, kind: RepoKind) -> (r: (Phase, Action))
    ensures
        stages(*entry, kind, r),
{
    let remote = match &entry.remote {
        Some(url) => Some(url.clone()),
        None => None,
    };
    (Phase::Staging { kind }, Action::Stage { remote, skip: Vec::new() })
}

fn after_staging(entry: &Entry, kind: RepoKind, deltas: Vec<FileDelta>) -> (r: (Phase, Action))
    ensures
        follows(*entry, Phase::Staging { kind }, Event::Staged(deltas), r),
        ignore_globs(*entry).contains(seq!['*']) ==> !(r.0 is Diffing),
{
    reveal(follows);
    let files = match diff_files(&deltas) {
        Some(files) => files,
        None => {
            return (Phase::Closed, Action::Abort(Failure::NoPath));
        },
    };
    if deltas.len() == 0 {
        return (Phase::Closed, Action::Finish(Outcome::NothingToRelease));
    }
    let globs = match &entry.commit_ignore {
        Some(list) => Some(list.glob.as_slice()),
        None => None,
    };
    assert(patterns_of(globs) == ignore_globs(*entry));
    match commit_msg_for_diff(files.as_slice(), globs) {
        MessagePlan::Fixed(message) => (Phase::Tagging { kind, message }, Action::ReadTags),
        MessagePlan::Ask(paths) => (Phase::Diffing { kind }, Action::RenderDiff { paths }),
    }
}

fn commit(cut: Cut) -> (r: (Phase, Action))
    ensures
        commits(cut.kind, cut.message@, cut.tag@, r),
{
    let message = cut.message.clone();
    (Phase::Committing(cut), Action::Commit { message })
}

fn document(entry: &Entry, cut: Cut) -> (r: (Phase, Action))
    ensures
        documents(*entry, cut.kind, cut.message@, cut.tag@, r),
{
    match &entry.readme {
        Some(_) => (Phase::Listing(cut), Action::ListIndex),
        None => commit(cut),
    }
}

fn after_listing(entry: &Entry, cut: Cut, indexed: Vec<String>) -> (r: (Phase, Action))
    ensures
        follows(*entry, Phase::Listing(cut), Event::Index(indexed), r),
{
    reveal(follows);
    let none: Vec<String> = Vec::new();
    let globs = match &entry.readme {
        Some(list) => &list.glob,
        None => &none,
    };
    assert(texts(globs@) =~= readme_globs(*entry));
    let paths = readme_sources(indexed.as_slice(), globs.as_slice());
    assert(texts(paths@).len() == paths@.len());
    if paths.len() == 0 {
        commit(cut)
    } else {
        (Phase::Reading(cut), Action::ReadFiles { paths })
    }
}

fn release(entry: &Entry, cut: Cut) -> (r: (Phase, Action))
    ensures
        releases(*entry, cut, r),
{
    match &entry.release {
        Some(list) => {
            let tag = cut.tag.clone();
            let globs = copy_strings(&list.glob);
            (Phase::Releasing(cut), Action::Release { tag, globs })
        },
        None => (Phase::Closed, Action::Finish(Outcome::Released { tag: cut.tag })),
    }
}

// ---------------------------------------------------------------------------
// Runs
// ---------------------------------------------------------------------------

/// The phase after the first `i` events of a run.
pub open spec fn phase_at(
    first: (Phase, Action),
    run: Seq<(Event, Phase, Action)>,
    i: int,
) -> Phase {
    if i == 0 {
        first.0
    } else {
        run[i - 1].1
    }
}

/// The action after the first `i` events of a run.
pub open spec fn action_at(
    first: (Phase, Action),
    run: Seq<(Event, Phase, Action)>,
    i: int,
) -> Action {
    if i == 0 {
        first.1
    } else {
        run[i - 1].2
    }
}

/// Whether this is how the release of an entry goes: how it begins, and each
/// event with the phase and the action that follow.
pub open spec fn is_run(
    entry: Entry,
    first: (Phase, Action),
    run: Seq<(Event, Phase, Action)>,
) -> bool {
    &&& begins(entry, first)
    &&& forall|i: int|
        0 <= i < run.len() ==> follows(
            entry,
            phase_at(first, run, i),
            (#[trigger] run[i]).0,
            (run[i].1, run[i].2),
        )
}

/// How far a release has come.
pub open spec fn rank(phase: Phase) -> int {
    match phase {
        Phase::Seeding { .. } => 1,
        Phase::Wiping { .. } => 2,
        Phase::Generating => 3,
        Phase::Inspecting => 4,
        Phase::Patching { .. } => 5,
        Phase::Staging { .. } => 6,
        Phase::Diffing { .. } => 7,
        Phase::Drafting { .. } => 8,
        Phase::Tagging { .. } => 9,
        Phase::Syncing(_) => 10,
        Phase::Listing(_) => 11,
        Phase::Reading(_) => 12,
        Phase::Documenting(_) => 13,
        Phase::Writing(_) => 14,
        Phase::Committing(_) => 15,
        Phase::Pushing(_) => 16,
        Phase::TagPushing(_) => 17,
        Phase::Publishing(_) => 18,
        Phase::Releasing(_) => 19,
        Phase::Closed => 20,
    }
}

/// The release that a phase holds, from the moment that its tag is known.
pub open spec fn cut_of(phase: Phase) -> Option<Cut> {
    match phase {
        Phase::Syncing(cut) => Some(cut),
        Phase::Listing(cut) => Some(cut),
        Phase::Reading(cut) => Some(cut),
        Phase::Documenting(cut) => Some(cut),
        Phase::Writing(cut) => Some(cut),
        Phase::Committing(cut) => Some(cut),
        Phase::Pushing(cut) => Some(cut),
        Phase::TagPushing(cut) => Some(cut),
        Phase::Publishing(cut) => Some(cut),
        Phase::Releasing(cut) => Some(cut),
        _ => None,
    }
}

/// Whether the message is a Conventional Commits message and the tag names a
/// version.
pub open spec fn is_sound(cut: Cut) -> bool {
    is_conventional(cut.message@) && is_semver(cut.tag@)
}

/// Whether a phase and the action that came with it belong together, and the
/// entry asks for them.
pub open spec fn is_justified(entry: Entry, phase: Phase, action: Action) -> bool {
    match phase {
        Phase::Seeding { templates, wipe } => {
            &&& action is ReadTags
            &&& is_openapi(entry) && names_templates(entry)
            &&& templates@ == entry.data->0.templates->0@
            &&& wipe == entry.data->0.delete_all_except_git
        },
        Phase::Wiping { .. } => {
            &&& action is Wipe
            &&& is_openapi(entry) && names_templates(entry)
            &&& entry.data->0.delete_all_except_git
        },
        Phase::Generating => action is Generate && is_openapi(entry),
        Phase::Inspecting => action is Inspect,
        Phase::Patching { kind } => {
            &&& action is PatchGradle
            &&& is_openapi(entry) && kind == RepoKind::Kotlin
        },
        Phase::Staging { .. } => action is Stage,
        Phase::Diffing { .. } => action matches Action::RenderDiff { paths } && paths@.len() > 0,
        Phase::Drafting { .. } => action is AskModel,
        Phase::Tagging { message, .. } => action is ReadTags && is_conventional(message@),
        Phase::Syncing(cut) => action is SyncVersions && is_openapi(entry) && is_sound(cut),
        Phase::Listing(cut) => action is ListIndex && entry.readme is Some && is_sound(cut),
        Phase::Reading(cut) => {
            &&& action matches Action::ReadFiles { paths } && paths@.len() > 0
            &&& entry.readme is Some && is_sound(cut)
        },
        Phase::Documenting(cut) => action is AskModel && entry.readme is Some && is_sound(cut),
        Phase::Writing(cut) => action is WriteReadme && entry.readme is Some && is_sound(cut),
        Phase::Committing(cut) => {
            &&& action matches Action::Commit { message } && message@ == cut.message@
            &&& is_sound(cut)
        },
        Phase::Pushing(cut) => action is Push && is_sound(cut),
        Phase::TagPushing(cut) => {
            &&& action matches Action::TagAndPush { tag, .. } && tag@ == cut.tag@
            &&& is_sound(cut)
        },
        Phase::Publishing(cut) => {
            &&& action is Publish
            &&& cut.kind == RepoKind::Android || cut.kind == RepoKind::Kotlin
            &&& is_sound(cut)
        },
        Phase::Releasing(cut) => action is Release && entry.release is Some && is_sound(cut),
        Phase::Closed => action is Finish || action is Abort,
    }
}

/// Whether an action leaves a mark on the repository or beyond, past what the
/// generator and the index see.
pub open spec fn is_lasting(action: Action) -> bool {
    ||| action is SyncVersions
    ||| action is WriteReadme
    ||| action is Commit
    ||| action is Push
    ||| action is TagAndPush
    ||| action is Publish
    ||| action is Release
}

// ---------------------------------------------------------------------------
// Laws
// ---------------------------------------------------------------------------

/// A release only ever goes forward, until it is closed.
pub proof fn law_release_goes_forward(entry: Entry, phase: Phase, event: Event, r: (Phase, Action))
    requires
        follows(entry, phase, event, r),
    ensures
        rank(phase) < rank(r.0) || (phase is Closed && r.0 is Closed && is_unexpected(r.1)),
{
    reveal(follows);
}

/// What follows when a tag is cut is justified.
#[verifier::rlimit(30)]
proof fn lemma_justified_cut(
    entry: Entry,
    kind: RepoKind,
    message: String,
    event: Event,
    r: (Phase, Action),
)
    requires
        is_conventional(message@),
        follows(entry, Phase::Tagging { kind, message }, event, r),
    ensures
        is_justified(entry, r.0, r.1),
{
    reveal(follows);
    if let Event::Tags(tags) = event {
        let all = texts(tags@);
        if next_tag(newest_tag(all), bump_of(message@)) is Some {
            law_new_tag_is_newest(all, bump_of(message@));
        }
    }
}

/// What follows a justified step is justified.
proof fn lemma_justified_step(
    entry: Entry,
    phase: Phase,
    action: Action,
    event: Event,
    r: (Phase, Action),
)
    requires
        is_justified(entry, phase, action),
        follows(entry, phase, event, r),
    ensures
        is_justified(entry, r.0, r.1),
{
    if let Phase::Tagging { kind, message } = phase {
        lemma_justified_cut(entry, kind, message, event, r);
    } else {
        lemma_justified_other(entry, phase, action, event, r);
    }
}

#[verifier::rlimit(30)]
proof fn lemma_justified_other(
    entry: Entry,
    phase: Phase,
    action: Action,
    event: Event,
    r: (Phase, Action),
)
    requires
        is_justified(entry, phase, action),
        !(phase is Tagging),
        follows(entry, phase, event, r),
    ensures
        is_justified(entry, r.0, r.1),
{
    reveal(follows);
    match (phase, event) {
        (Phase::Staging { kind }, Event::Staged(deltas)) => {
            law_fixed_messages_are_conventional(Seq::empty());
            if let Action::RenderDiff { paths } = r.1 {
                assert(texts(paths@).len() == paths@.len());
            }
        },
        (Phase::Listing(cut), Event::Index(indexed)) => {
            if let Action::ReadFiles { paths } = r.1 {
                assert(texts(paths@).len() == paths@.len());
            }
            if entry.readme is None {
                law_no_patterns_no_sources(texts(indexed@));
            }
        },
        _ => {},
    }
}

/// Nothing is done that the entry does not ask for. Files are wiped only where
/// `deleteAllExceptGit` says so, a README is written only where `readme` is
/// there, artifacts are published only of Android and Kotlin repositories, and
/// a GitHub release is made only where `release` is there. What is committed is
/// a Conventional Commits message, and what is tagged is a version.
pub proof fn law_every_action_is_justified(
    entry: Entry,
    first: (Phase, Action),
    run: Seq<(Event, Phase, Action)>,
    i: int,
)
    requires
        is_run(entry, first, run),
        0 <= i <= run.len(),
    ensures
        is_justified(entry, phase_at(first, run, i), action_at(first, run, i)),
    decreases i,
{
    if i > 0 {
        law_every_action_is_justified(entry, first, run, i - 1);
        let k = i - 1;
        assert(follows(entry, phase_at(first, run, k), run[k].0, (run[k].1, run[k].2)));
        lemma_justified_step(
            entry,
            phase_at(first, run, k),
            action_at(first, run, k),
            run[k].0,
            (run[k].1, run[k].2),
        );
    }
}

/// No step of a release is taken twice, and none out of order: of two moments
/// of a run that is not closed in between, the later one has come further.
pub proof fn law_steps_keep_their_order(
    entry: Entry,
    first: (Phase, Action),
    run: Seq<(Event, Phase, Action)>,
    i: int,
    j: int,
)
    requires
        is_run(entry, first, run),
        0 <= i < j <= run.len(),
    ensures
        rank(phase_at(first, run, i)) < rank(phase_at(first, run, j)) || (phase_at(
            first,
            run,
            i,
        ) is Closed && phase_at(first, run, j) is Closed && is_unexpected(
            action_at(first, run, j),
        )),
    decreases j - i,
{
    let k = j - 1;
    assert(follows(entry, phase_at(first, run, k), run[k].0, (run[k].1, run[k].2)));
    law_release_goes_forward(entry, phase_at(first, run, k), run[k].0, (run[k].1, run[k].2));
    if i < k {
        law_steps_keep_their_order(entry, first, run, i, k);
    }
}

/// A release ends: nineteen events close it at the latest.
pub proof fn law_every_release_ends(
    entry: Entry,
    first: (Phase, Action),
    run: Seq<(Event, Phase, Action)>,
)
    requires
        is_run(entry, first, run),
        run.len() >= 19,
    ensures
        phase_at(first, run, 19) is Closed,
{
    lemma_rank_grows(entry, first, run, 19);
}

proof fn lemma_rank_grows(
    entry: Entry,
    first: (Phase, Action),
    run: Seq<(Event, Phase, Action)>,
    i: int,
)
    requires
        is_run(entry, first, run),
        0 <= i <= run.len(),
    ensures
        rank(phase_at(first, run, i)) >= i + 1 || phase_at(first, run, i) is Closed,
    decreases i,
{
    if i > 0 {
        let k = i - 1;
        lemma_rank_grows(entry, first, run, k);
        assert(follows(entry, phase_at(first, run, k), run[k].0, (run[k].1, run[k].2)));
        law_release_goes_forward(entry, phase_at(first, run, k), run[k].0, (run[k].1, run[k].2));
    }
}

/// A tag is pushed only when the branch has been, and the branch only when the
/// commit has been made; artifacts are published, and the GitHub release made,
/// only when the tag has been pushed. All of them are of the same release.
#[verifier::rlimit(30)]
pub proof fn law_tag_follows_commit(
    entry: Entry,
    first: (Phase, Action),
    run: Seq<(Event, Phase, Action)>,
    i: int,
)
    requires
        is_run(entry, first, run),
        0 <= i <= run.len(),
    ensures
        phase_at(first, run, i) matches Phase::Pushing(cut) ==> {
            &&& i >= 1
            &&& phase_at(first, run, i - 1) == Phase::Committing(cut)
            &&& run[i - 1].0 is Done
        },
        phase_at(first, run, i) matches Phase::TagPushing(cut) ==> {
            &&& i >= 2
            &&& phase_at(first, run, i - 1) == Phase::Pushing(cut)
            &&& run[i - 1].0 is Done
            &&& phase_at(first, run, i - 2) == Phase::Committing(cut)
            &&& run[i - 2].0 is Done
        },
        phase_at(first, run, i) matches Phase::Publishing(cut) ==> {
            &&& i >= 3
            &&& phase_at(first, run, i - 1) == Phase::TagPushing(cut)
            &&& run[i - 1].0 is Done
        },
        phase_at(first, run, i) matches Phase::Releasing(cut) ==> {
            &&& i >= 3
            &&& phase_at(first, run, i - 1) == Phase::TagPushing(cut) || phase_at(
                first,
                run,
                i - 1,
            ) == Phase::Publishing(cut)
            &&& run[i - 1].0 is Done
        },
    decreases i,
{
    if i > 0 {
        let k = i - 1;
        assert(follows(entry, phase_at(first, run, k), run[k].0, (run[k].1, run[k].2)));
        law_tag_follows_commit(entry, first, run, k);
        reveal(follows);
    }
}

/// The language that a phase goes by, from the moment that it is known.
pub open spec fn kind_in(phase: Phase) -> Option<RepoKind> {
    match phase {
        Phase::Patching { kind } => Some(kind),
        Phase::Staging { kind } => Some(kind),
        Phase::Diffing { kind } => Some(kind),
        Phase::Drafting { kind } => Some(kind),
        Phase::Tagging { kind, .. } => Some(kind),
        _ => match cut_of(phase) {
            Some(cut) => Some(cut.kind),
            None => None,
        },
    }
}

/// Whether this event shows a repository of this kind.
pub open spec fn shows_kind(event: Event, kind: RepoKind) -> bool {
    event matches Event::Snapshot(repo) && kind_of(repo) == kind
}

/// A phase that goes by a language either has it from the phase before, or
/// detects it.
proof fn lemma_kind_step(entry: Entry, phase: Phase, event: Event, r: (Phase, Action))
    requires
        follows(entry, phase, event, r),
        kind_in(r.0) is Some,
    ensures
        kind_in(phase) == kind_in(r.0) || shows_kind(event, kind_in(r.0)->0),
{
    reveal(follows);
}

/// The language that a release goes by, and so whether its artifacts are
/// published, is the one that was detected in the repository.
pub proof fn law_kind_is_the_detected_one(
    entry: Entry,
    first: (Phase, Action),
    run: Seq<(Event, Phase, Action)>,
    i: int,
)
    requires
        is_run(entry, first, run),
        0 <= i <= run.len(),
        kind_in(phase_at(first, run, i)) is Some,
    ensures
        exists|j: int|
            0 <= j < i && shows_kind(
                (#[trigger] run[j]).0,
                kind_in(phase_at(first, run, i))->0,
            ),
    decreases i,
{
    if i > 0 {
        let k = i - 1;
        let before = phase_at(first, run, k);
        let kind = kind_in(phase_at(first, run, i))->0;
        assert(follows(entry, before, run[k].0, (run[k].1, run[k].2)));
        lemma_kind_step(entry, before, run[k].0, (run[k].1, run[k].2));
        if kind_in(before) == Some(kind) {
            law_kind_is_the_detected_one(entry, first, run, k);
            let j = choose|j: int| 0 <= j < k && shows_kind((#[trigger] run[j]).0, kind);
            assert(shows_kind(run[j].0, kind));
        } else {
            assert(shows_kind(run[k].0, kind));
        }
    }
}

/// A phase that holds a release either has it from the phase before, or cuts it
/// from the tags.
proof fn lemma_cut_step(entry: Entry, phase: Phase, event: Event, r: (Phase, Action))
    requires
        follows(entry, phase, event, r),
        cut_of(r.0) is Some,
    ensures
        phase is Tagging ==> is_cut_at(phase, event, cut_of(r.0)->0) && (is_openapi(entry)
            ==> is_synced_at(r.0, r.1, cut_of(r.0)->0)),
        !(phase is Tagging) ==> cut_of(phase) is Some && cut_of(phase)->0.message@ == cut_of(
            r.0,
        )->0.message@ && cut_of(phase)->0.tag@ == cut_of(r.0)->0.tag@,
{
    reveal(follows);
    if let Phase::Tagging { kind, message } = phase {
        if let Event::Tags(tags) = event {
            law_new_tag_is_newest(texts(tags@), bump_of(message@));
        }
    }
}

/// The tag of a release is cut from the tags that were read, by what its
/// message means, and is newer than each of them; in an openapi entry the
/// version markers have been brought in line with it.
pub proof fn law_tag_is_cut_from_the_tags(
    entry: Entry,
    first: (Phase, Action),
    run: Seq<(Event, Phase, Action)>,
    i: int,
)
    requires
        is_run(entry, first, run),
        0 <= i <= run.len(),
        cut_of(phase_at(first, run, i)) is Some,
    ensures
        ({
            let cut = cut_of(phase_at(first, run, i))->0;
            &&& exists|j: int|
                0 <= j < i && is_cut_at(phase_at(first, run, j), #[trigger] run[j].0, cut)
            &&& is_openapi(entry) ==> exists|j: int|
                0 <= j <= i && is_synced_at(
                    phase_at(first, run, j),
                    #[trigger] action_at(first, run, j),
                    cut,
                )
        }),
    decreases i,
{
    if i > 0 {
        let k = i - 1;
        let before = phase_at(first, run, k);
        let cut = cut_of(phase_at(first, run, i))->0;
        assert(follows(entry, before, run[k].0, (run[k].1, run[k].2)));
        lemma_cut_step(entry, before, run[k].0, (run[k].1, run[k].2));
        if before is Tagging {
            assert(is_cut_at(phase_at(first, run, k), run[k].0, cut));
            if is_openapi(entry) {
                assert(is_synced_at(phase_at(first, run, i), action_at(first, run, i), cut));
            }
        } else {
            law_tag_is_cut_from_the_tags(entry, first, run, k);
            let had = cut_of(before)->0;
            let j = choose|j: int|
                0 <= j < k && is_cut_at(phase_at(first, run, j), #[trigger] run[j].0, had);
            assert(is_cut_at(phase_at(first, run, j), run[j].0, cut));
            if is_openapi(entry) {
                let l = choose|l: int|
                    0 <= l <= k && is_synced_at(
                        phase_at(first, run, l),
                        #[trigger] action_at(first, run, l),
                        had,
                    );
                assert(is_synced_at(phase_at(first, run, l), action_at(first, run, l), cut));
            }
        }
    }
}

/// Whether the tag of a release is cut here: the tags are read, all name
/// versions, and the tag is the next one by what the message means.
pub open spec fn is_cut_at(phase: Phase, event: Event, cut: Cut) -> bool {
    match (phase, event) {
        (Phase::Tagging { message, .. }, Event::Tags(tags)) => {
            let all = texts(tags@);
            &&& message@ == cut.message@
            &&& all_semver(all)
            &&& Some(cut.tag@) == next_tag(newest_tag(all), bump_of(message@))
            &&& forall|t: Seq<char>| #[trigger]
                all.contains(t) ==> older(parse_tag(t)->Ok_0, parse_tag(cut.tag@)->Ok_0)
        },
        _ => false,
    }
}

/// Whether the version markers are brought in line with a release here.
pub open spec fn is_synced_at(phase: Phase, action: Action, cut: Cut) -> bool {
    &&& phase is Syncing
    &&& action matches Action::SyncVersions { version } && version@ == bare(cut.tag@)
}

/// What is closed stays closed.
proof fn lemma_stays_closed(
    entry: Entry,
    first: (Phase, Action),
    run: Seq<(Event, Phase, Action)>,
    i: int,
    j: int,
)
    requires
        is_run(entry, first, run),
        0 <= i <= j <= run.len(),
        phase_at(first, run, i) is Closed,
    ensures
        phase_at(first, run, j) is Closed,
{
    if i < j {
        law_steps_keep_their_order(entry, first, run, i, j);
    }
}

/// What follows the tags that seed the generator, and what follows the wipe.
proof fn lemma_generator_step(entry: Entry, phase: Phase, event: Event, r: (Phase, Action))
    requires
        follows(entry, phase, event, r),
    ensures
        phase matches Phase::Seeding { templates, wipe } ==> r.0 is Closed || (event matches
            Event::Tags(tags) && if wipe {
            &&& r.0 matches Phase::Wiping { command } && generates(
                entry,
                templates@,
                last_text(texts(tags@)),
                command,
            )
            &&& r.1 is Wipe
        } else {
            &&& r.0 is Generating
            &&& r.1 matches Action::Generate { command } && generates(
                entry,
                templates@,
                last_text(texts(tags@)),
                command,
            )
        }),
        phase matches Phase::Wiping { command } ==> r.0 is Closed || (event is Done
            && r.0 is Generating && r.1 == Action::Generate { command }),
{
    reveal(follows);
}

/// An openapi entry comes to its commit pass only by way of the generator: its
/// last tag is read first, the repository is wiped where that is asked for, and
/// the generator is run from the templates with the version of that tag.
pub proof fn law_generator_runs_first(
    entry: Entry,
    first: (Phase, Action),
    run: Seq<(Event, Phase, Action)>,
    i: int,
)
    requires
        is_run(entry, first, run),
        0 <= i <= run.len(),
        is_openapi(entry),
        rank(Phase::Generating) < rank(phase_at(first, run, i)) < rank(Phase::Closed),
    ensures
        ({
            let wipe = entry.data->0.delete_all_except_git;
            let n: int = if wipe {
                2
            } else {
                1
            };
            &&& n < i
            &&& names_templates(entry)
            &&& wipe ==> action_at(first, run, 1) is Wipe
            &&& run[0].0 matches Event::Tags(tags) && action_at(
                first,
                run,
                n,
            ) matches Action::Generate { command } && generates(
                entry,
                entry.data->0.templates->0@,
                last_text(texts(tags@)),
                command,
            )
        }),
{
    if first.0 is Closed {
        lemma_stays_closed(entry, first, run, 0, i);
    }
    assert(follows(entry, phase_at(first, run, 0), run[0].0, (run[0].1, run[0].2)));
    lemma_generator_step(entry, first.0, run[0].0, (run[0].1, run[0].2));
    if phase_at(first, run, 1) is Closed {
        lemma_stays_closed(entry, first, run, 1, i);
    }
    if entry.data->0.delete_all_except_git {
        assert(follows(entry, phase_at(first, run, 1), run[1].0, (run[1].1, run[1].2)));
        lemma_generator_step(entry, run[0].1, run[1].0, (run[1].1, run[1].2));
        if phase_at(first, run, 2) is Closed {
            lemma_stays_closed(entry, first, run, 2, i);
        }
    }
}

/// A generated Kotlin client goes by its language only by way of the patch.
proof fn lemma_patch_step(entry: Entry, phase: Phase, event: Event, r: (Phase, Action))
    requires
        follows(entry, phase, event, r),
        is_openapi(entry),
        kind_in(r.0) == Some(RepoKind::Kotlin),
    ensures
        kind_in(phase) == kind_in(r.0) || (r.0 is Patching && r.1 is PatchGradle),
{
    reveal(follows);
}

/// The Gradle wrapper of a generated Kotlin client is patched before anything
/// of the client is staged, and so before its release goes any further.
pub proof fn law_kotlin_wrapper_is_patched(
    entry: Entry,
    first: (Phase, Action),
    run: Seq<(Event, Phase, Action)>,
    i: int,
)
    requires
        is_run(entry, first, run),
        0 <= i <= run.len(),
        is_openapi(entry),
        kind_in(phase_at(first, run, i)) == Some(RepoKind::Kotlin),
    ensures
        exists|j: int|
            0 <= j <= i && phase_at(first, run, j) is Patching && (#[trigger] action_at(
                first,
                run,
                j,
            )) is PatchGradle,
    decreases i,
{
    if i > 0 {
        let k = i - 1;
        let before = phase_at(first, run, k);
        assert(follows(entry, before, run[k].0, (run[k].1, run[k].2)));
        lemma_patch_step(entry, before, run[k].0, (run[k].1, run[k].2));
        if kind_in(before) == Some(RepoKind::Kotlin) {
            law_kotlin_wrapper_is_patched(entry, first, run, k);
        } else {
            assert(action_at(first, run, i) is PatchGradle);
        }
    }
}

/// What the commit follows where the entry asks for a README.
proof fn lemma_commit_step(entry: Entry, phase: Phase, event: Event, r: (Phase, Action))
    requires
        follows(entry, phase, event, r),
        entry.readme is Some,
        r.0 is Committing,
    ensures
        ({
            ||| phase is Writing && event is Done
            ||| event matches Event::Index(indexed) && sources(
                texts(indexed@),
                readme_globs(entry),
            ).len() == 0
        }),
{
    reveal(follows);
}

/// Where the entry asks for a README, the commit comes only when one has been
/// written, or when there is nothing to write it from.
pub proof fn law_readme_comes_before_the_commit(
    entry: Entry,
    first: (Phase, Action),
    run: Seq<(Event, Phase, Action)>,
    i: int,
)
    requires
        is_run(entry, first, run),
        0 <= i <= run.len(),
        entry.readme is Some,
        phase_at(first, run, i) is Committing,
    ensures
        i > 0,
        ({
            ||| action_at(first, run, i - 1) is WriteReadme && run[i - 1].0 is Done
            ||| run[i - 1].0 matches Event::Index(indexed) && sources(
                texts(indexed@),
                readme_globs(entry),
            ).len() == 0
        }),
{
    let k = i - 1;
    assert(follows(entry, phase_at(first, run, k), run[k].0, (run[k].1, run[k].2)));
    lemma_commit_step(entry, phase_at(first, run, k), run[k].0, (run[k].1, run[k].2));
    law_every_action_is_justified(entry, first, run, k);
}

/// Whether artifacts of this kind are published.
pub open spec fn is_published(kind: RepoKind) -> bool {
    kind == RepoKind::Android || kind == RepoKind::Kotlin
}

/// What the good end, the GitHub release and the publication each follow.
proof fn lemma_last_steps(entry: Entry, phase: Phase, event: Event, r: (Phase, Action))
    requires
        follows(entry, phase, event, r),
    ensures
        r.1 matches Action::Finish(Outcome::Released { tag }) ==> {
            &&& event is Done
            &&& cut_of(phase) is Some
            &&& tag@ == cut_of(phase)->0.tag@
            &&& {
                ||| phase is Releasing
                ||| phase is Publishing && entry.release is None
                ||| phase is TagPushing && entry.release is None && !is_published(
                    cut_of(phase)->0.kind,
                )
            }
        },
        r.0 matches Phase::Releasing(cut) ==> event is Done && (phase == Phase::Publishing(cut) || (
        phase == Phase::TagPushing(cut) && !is_published(cut.kind))),
        r.0 matches Phase::Publishing(cut) ==> event is Done && phase == Phase::TagPushing(cut),
{
    reveal(follows);
}

/// A release ends well only when all of it is done: its tag has been pushed,
/// the artifacts of an Android or Kotlin repository have been published, and
/// the GitHub release has been made where the entry asks for one.
pub proof fn law_finished_release_is_complete(
    entry: Entry,
    first: (Phase, Action),
    run: Seq<(Event, Phase, Action)>,
    i: int,
)
    requires
        is_run(entry, first, run),
        0 <= i <= run.len(),
        action_at(first, run, i) matches Action::Finish(Outcome::Released { .. }),
    ensures
        i > 0,
        cut_of(phase_at(first, run, i - 1)) is Some,
        ({
            let cut = cut_of(phase_at(first, run, i - 1))->0;
            &&& action_at(first, run, i)->Finish_0->tag@ == cut.tag@
            &&& run[i - 1].0 is Done
            &&& entry.release is Some ==> action_at(first, run, i - 1) is Release
            &&& is_published(cut.kind) ==> exists|j: int|
                0 <= j < i && phase_at(first, run, j) == Phase::Publishing(cut)
                    && #[trigger] action_at(first, run, j) is Publish
            &&& exists|j: int|
                0 <= j < i && phase_at(first, run, j) == Phase::TagPushing(cut)
                    && #[trigger] action_at(first, run, j) is TagAndPush
        }),
{
    let k = i - 1;
    assert(follows(entry, phase_at(first, run, k), run[k].0, (run[k].1, run[k].2)));
    lemma_last_steps(entry, phase_at(first, run, k), run[k].0, (run[k].1, run[k].2));
    law_every_action_is_justified(entry, first, run, k);
    if !(phase_at(first, run, k) is TagPushing) {
        let l = k - 1;
        assert(k > 0);
        assert(follows(entry, phase_at(first, run, l), run[l].0, (run[l].1, run[l].2)));
        lemma_last_steps(entry, phase_at(first, run, l), run[l].0, (run[l].1, run[l].2));
        law_every_action_is_justified(entry, first, run, l);
        if phase_at(first, run, l) is Publishing {
            let m = l - 1;
            assert(l > 0);
            assert(follows(entry, phase_at(first, run, m), run[m].0, (run[m].1, run[m].2)));
            lemma_last_steps(entry, phase_at(first, run, m), run[m].0, (run[m].1, run[m].2));
            law_every_action_is_justified(entry, first, run, m);
            assert(action_at(first, run, l) is Publish);
            assert(action_at(first, run, m) is TagAndPush);
        } else {
            assert(action_at(first, run, k) is Publish || action_at(first, run, k) is Release);
            assert(action_at(first, run, l) is TagAndPush);
        }
    } else {
        assert(action_at(first, run, k) is TagAndPush);
    }
}

/// Where nothing has changed, nothing is written, committed, pushed, tagged,
/// published or released, not before and not after.
pub proof fn law_no_changes_no_release(
    entry: Entry,
    first: (Phase, Action),
    run: Seq<(Event, Phase, Action)>,
    n: int,
    i: int,
)
    requires
        is_run(entry, first, run),
        0 <= n < run.len(),
        phase_at(first, run, n) is Staging,
        run[n].0 matches Event::Staged(deltas) && deltas@.len() == 0,
        0 <= i <= run.len(),
    ensures
        run[n].2 == Action::Finish(Outcome::NothingToRelease),
        !is_lasting(action_at(first, run, i)),
{
    assert(follows(entry, phase_at(first, run, n), run[n].0, (run[n].1, run[n].2))
        && run[n].1 is Closed && run[n].2 == Action::Finish(Outcome::NothingToRelease)) by {
        reveal(follows);
    }
    law_every_action_is_justified(entry, first, run, i);
    if i > n + 1 {
        law_steps_keep_their_order(entry, first, run, n + 1, i);
    } else if i < n {
        law_steps_keep_their_order(entry, first, run, i, n);
    }
}

/// A release begins with the look at the language; an openapi entry begins with
/// its tags, and ends at once where it does not name its templates.
pub proof fn law_how_a_release_begins(entry: Entry, r: (Phase, Action))
    requires
        begins(entry, r),
    ensures
        !is_openapi(entry) ==> r.0 is Inspecting && r.1 is Inspect,
        is_openapi(entry) && names_templates(entry) ==> r.0 is Seeding && r.1 is ReadTags
            && r.0->templates@ == entry.data->0.templates->0@ && r.0->wipe
            == entry.data->0.delete_all_except_git,
        is_openapi(entry) && !names_templates(entry) ==> r.0 is Closed && (
        r.1 matches Action::Abort(Failure::Config(e)) && config_error_is(entry, e)),
{
}

/// The generator is run with the version of the newest tag, after the wipe
/// where one is asked for and at once where none is, and the look at the
/// language comes next.
pub proof fn law_steps_of_the_generator(
    entry: Entry,
    templates: String,
    wipe: bool,
    command: CommandLine,
    tags: Vec<String>,
    r: (Phase, Action),
)
    ensures
        follows(entry, (Phase::Seeding { templates, wipe }), Event::Tags(tags), r) ==> {
            let c = if wipe {
                r.0->command
            } else {
                r.1->Generate_command
            };
            &&& wipe ==> r.0 is Wiping && r.1 is Wipe
            &&& !wipe ==> r.0 is Generating && r.1 is Generate
            &&& command_is(
                c,
                "openapi-generator"@,
                generator_args(entry.path@, templates@, last_text(texts(tags@))),
            )
        },
        follows(entry, (Phase::Wiping { command }), Event::Done, r) ==> r.0 is Generating && r.1
            == (Action::Generate { command }),
        follows(entry, Phase::Generating, Event::Done, r) ==> r.0 is Inspecting && r.1 is Inspect,
{
    reveal(follows);
}

/// Once the language is known everything is staged, with the remote of the
/// entry; before that, the wrapper of a generated Kotlin client is patched.
pub proof fn law_step_to_the_stage(
    entry: Entry,
    repo: RepoSnapshot,
    kind: RepoKind,
    r: (Phase, Action),
)
    requires
        ({
            ||| follows(entry, Phase::Inspecting, Event::Snapshot(repo), r) && kind == kind_of(repo)
            ||| follows(entry, (Phase::Patching { kind }), Event::Done, r)
        }),
    ensures
        ({
            let patches = is_openapi(entry) && kind == RepoKind::Kotlin && r.0 is Patching;
            &&& patches ==> r.0->Patching_kind == kind && r.1 is PatchGradle
            &&& !patches ==> {
                &&& r.0 is Staging && r.0->Staging_kind == kind
                &&& r.1 is Stage && r.1->Stage_skip@.len() == 0
                &&& r.1->remote is Some <==> entry.remote is Some
                &&& entry.remote is Some ==> r.1->remote->0@ == entry.remote->0@
            }
        }),
        follows(entry, Phase::Inspecting, Event::Snapshot(repo), r) && is_openapi(entry) && kind_of(
            repo,
        ) == RepoKind::Kotlin ==> r.0 is Patching,
        follows(entry, (Phase::Patching { kind }), Event::Done, r) ==> r.0 is Staging,
{
    reveal(follows);
}

/// What comes of the staged differences. Without any, the release ends; with
/// one that has no path, it fails; where no file is left for the model to read,
/// the message is `chore: update`; else the patch of exactly the files that are
/// left is rendered.
pub proof fn law_step_from_the_stage(
    entry: Entry,
    kind: RepoKind,
    deltas: Vec<FileDelta>,
    r: (Phase, Action),
)
    requires
        follows(entry, (Phase::Staging { kind }), Event::Staged(deltas), r),
    ensures
        ({
            let globs = match entry.commit_ignore {
                Some(list) => texts(list.glob@),
                None => Seq::empty(),
            };
            let files = delta_files(deltas@);
            let left = exists|p: Seq<char>| #[trigger]
                files.contains((p, false)) && !picked(globs, p);
            &&& deltas@.len() == 0 ==> r.1 == Action::Finish(Outcome::NothingToRelease)
            &&& !all_named(deltas@) ==> r.1 == Action::Abort(Failure::NoPath)
            &&& deltas@.len() > 0 && all_named(deltas@) && !left ==> {
                &&& r.0 is Tagging && r.1 is ReadTags
                &&& r.0->Tagging_kind == kind
                &&& r.0->message@ == "chore: update"@
            }
            &&& deltas@.len() > 0 && all_named(deltas@) && left ==> {
                &&& r.0 is Diffing && r.0->Diffing_kind == kind && r.1 is RenderDiff
                &&& texts(r.1->RenderDiff_paths@) == real_paths(files, release_kinds(files, globs))
                &&& forall|p: Seq<char>| #[trigger]
                    texts(r.1->RenderDiff_paths@).contains(p) <==> files.contains((p, false))
                        && !picked(globs, p)
            }
        }),
{
    reveal(follows);
    let globs = ignore_globs(entry);
    let files = delta_files(deltas@);
    let shown = real_paths(files, release_kinds(files, globs));
    assert forall|p: Seq<char>| #[trigger] shown.contains(p) <==> files.contains((p, false))
        && !picked(globs, p) by {
        law_what_a_release_shows(files, globs, p);
    }
    if shown.len() > 0 {
        assert(shown.contains(shown[0]));
        assert(files.contains((shown[0], false)));
    }
    if exists|p: Seq<char>| #[trigger] files.contains((p, false)) && !picked(globs, p) {
        let p = choose|p: Seq<char>| #[trigger] files.contains((p, false)) && !picked(globs, p);
        assert(shown.contains(p));
    }
}

/// The model is put the whole patch, behind the prompt; a patch that is not
/// UTF-8 ends the release.
pub proof fn law_step_from_the_patch(
    entry: Entry,
    kind: RepoKind,
    lines: Vec<(char, Vec<u8>)>,
    r: (Phase, Action),
)
    requires
        follows(entry, (Phase::Diffing { kind }), Event::Patch(lines), r),
    ensures
        all_utf8(patch_lines(lines@)) ==> r.0 is Drafting && r.0->Drafting_kind == kind && asks(
            r.1,
            COMMIT_PROMPT@ + diff_text(patch_lines(lines@)),
        ),
        !all_utf8(patch_lines(lines@)) ==> r.1 == Action::Abort(Failure::PatchNotUtf8),
{
    reveal(follows);
}

/// The reply of the model is the message where it is a Conventional Commits
/// message, as it is; any other reply, and a response without one, ends the
/// release with the reason.
pub proof fn law_step_from_the_draft(
    entry: Entry,
    kind: RepoKind,
    body: Vec<u8>,
    r: (Phase, Action),
)
    requires
        follows(entry, (Phase::Drafting { kind }), Event::Response(body), r),
    ensures
        match reply(json_text_at(body@, "/choices/0/message/content"@)) {
            Ok(message) => {
                &&& is_conventional(message) ==> r.0 is Tagging && r.0->Tagging_kind == kind
                    && r.0->message@ == message && r.1 is ReadTags
                &&& !is_conventional(message) ==> (r.1 matches Action::Abort(Failure::Message(e))
                    && message_error_is(message, e))
            },
            Err(e) => r.1 == Action::Abort(Failure::Lm(e)),
        },
{
    reveal(follows);
}

/// What comes when the tags are known: the next tag by what the message means,
/// with the language and the message as they were; first the version markers
/// of an openapi entry, then the README of an entry that asks for one, then the
/// commit. A tag that names no version, or a version that cannot be raised,
/// ends the release.
pub proof fn law_step_from_the_tags(
    entry: Entry,
    kind: RepoKind,
    message: String,
    tags: Vec<String>,
    r: (Phase, Action),
)
    requires
        follows(entry, (Phase::Tagging { kind, message }), Event::Tags(tags), r),
    ensures
        ({
            let all = texts(tags@);
            let next = next_tag(newest_tag(all), bump_of(message@));
            let good = next is Some && forall|i: int|
                0 <= i < all.len() ==> is_semver(#[trigger] all[i]);
            &&& !good ==> (r.1 matches Action::Abort(Failure::Tag(e)) && tag_error_is(
                all,
                bump_of(message@),
                e,
            ))
            &&& good ==> cut_of(r.0) is Some && cut_of(r.0)->0.kind == kind && cut_of(
                r.0,
            )->0.message@ == message@ && cut_of(r.0)->0.tag@ == next->0
            &&& good && is_openapi(entry) ==> r.0 is Syncing && r.1 is SyncVersions
                && r.1->SyncVersions_version@ == bare(next->0)
            &&& good && !is_openapi(entry) && entry.readme is Some ==> r.0 is Listing
                && r.1 is ListIndex
            &&& good && !is_openapi(entry) && entry.readme is None ==> r.0 is Committing
                && r.1 is Commit && r.1->Commit_message@ == message@
        }),
{
    reveal(follows);
}

/// A step that answers another step of the same release keeps its language, its
/// message and its tag.
pub proof fn law_steps_keep_the_release(entry: Entry, phase: Phase, event: Event, r: (Phase, Action))
    requires
        follows(entry, phase, event, r),
        cut_of(phase) is Some,
        cut_of(r.0) is Some,
    ensures
        cut_of(r.0)->0.kind == cut_of(phase)->0.kind,
        cut_of(r.0)->0.message@ == cut_of(phase)->0.message@,
        cut_of(r.0)->0.tag@ == cut_of(phase)->0.tag@,
{
    reveal(follows);
}

/// The steps of the README: exactly the sources are read, where there are any;
/// the model is put all of them; and what it replies is written without its
/// fence. Then, or where there are no sources, comes the commit.
pub proof fn law_steps_of_the_readme(
    entry: Entry,
    cut: Cut,
    indexed: Vec<String>,
    files: Vec<(String, Vec<u8>)>,
    body: Vec<u8>,
    r: (Phase, Action),
)
    ensures
        follows(entry, Phase::Syncing(cut), Event::Done, r) ==> {
            &&& entry.readme is Some ==> r.0 is Listing && r.1 is ListIndex
            &&& entry.readme is None ==> r.0 is Committing && r.1 is Commit && r.1->Commit_message@
                == cut.message@
        },
        follows(entry, Phase::Listing(cut), Event::Index(indexed), r) && entry.readme is Some ==> {
            let chosen = sources(texts(indexed@), texts(entry.readme->0.glob@));
            &&& chosen.len() > 0 ==> r.0 is Reading && r.1 is ReadFiles && texts(
                r.1->ReadFiles_paths@,
            ) == chosen
            &&& chosen.len() == 0 ==> r.0 is Committing && r.1 is Commit && r.1->Commit_message@
                == cut.message@
        },
        follows(entry, Phase::Reading(cut), Event::Files(files), r) ==> r.0 is Documenting && asks(
            r.1,
            readme_request(contents(files@)),
        ),
        follows(entry, Phase::Documenting(cut), Event::Response(body), r) ==> match reply(
            json_text_at(body@, "/choices/0/message/content"@),
        ) {
            Ok(text) => r.0 is Writing && r.1 is WriteReadme && r.1->text@ == unfenced(text),
            Err(e) => r.1 == Action::Abort(Failure::Lm(e)),
        },
        follows(entry, Phase::Writing(cut), Event::Done, r) ==> r.0 is Committing && r.1 is Commit
            && r.1->Commit_message@ == cut.message@,
{
    reveal(follows);
}

/// The steps from the commit to the end: the branch `main` is pushed to
/// `origin`, then the tag; the artifacts of an Android or Kotlin repository are
/// published; the GitHub release is made where the entry asks for one, with the
/// patterns of the entry; and the tag is what the release ends with.
pub proof fn law_steps_from_the_commit(entry: Entry, cut: Cut, r: (Phase, Action))
    ensures
        follows(entry, Phase::Committing(cut), Event::Done, r) ==> r.0 is Pushing && r.1 is Push
            && command_is(r.1->Push_command, "git"@, seq!["push"@, "origin"@, "main"@]),
        follows(entry, Phase::Pushing(cut), Event::Done, r) ==> r.0 is TagPushing
            && r.1 is TagAndPush && r.1->TagAndPush_tag@ == cut.tag@ && command_is(
            r.1->TagAndPush_command,
            "git"@,
            seq!["push"@, "origin"@, cut.tag@],
        ),
        follows(entry, Phase::TagPushing(cut), Event::Done, r) && (cut.kind == RepoKind::Android
            || cut.kind == RepoKind::Kotlin) ==> r.0 is Publishing && r.1 is Publish && command_is(
            r.1->Publish_command,
            "./gradlew"@,
            gradle_args(cut.tag@),
        ),
        (follows(entry, Phase::TagPushing(cut), Event::Done, r) && cut.kind != RepoKind::Android
            && cut.kind != RepoKind::Kotlin) || follows(
            entry,
            Phase::Publishing(cut),
            Event::Done,
            r,
        ) ==> {
            &&& entry.release is Some ==> r.0 is Releasing && r.1 is Release && r.1->Release_tag@
                == cut.tag@ && texts(r.1->globs@) == texts(entry.release->0.glob@)
            &&& entry.release is None ==> (r.1 matches Action::Finish(Outcome::Released { tag })
                && tag@ == cut.tag@)
        },
        follows(entry, Phase::Releasing(cut), Event::Done, r) ==> (r.1 matches Action::Finish(
            Outcome::Released { tag },
        ) && tag@ == cut.tag@),
{
    reveal(follows);
}

/// The event that a phase waits for.
pub open spec fn is_awaited(phase: Phase, event: Event) -> bool {
    match phase {
        Phase::Seeding { .. } | Phase::Tagging { .. } => event is Tags,
        Phase::Inspecting => event is Snapshot,
        Phase::Staging { .. } => event is Staged,
        Phase::Diffing { .. } => event is Patch,
        Phase::Drafting { .. } | Phase::Documenting(_) => event is Response,
        Phase::Listing(_) => event is Index,
        Phase::Reading(_) => event is Files,
        Phase::Closed => false,
        _ => event is Done,
    }
}

/// A release gives up over an event exactly where the phase does not wait for
/// it.
pub proof fn law_only_other_events_are_unexpected(
    entry: Entry,
    phase: Phase,
    event: Event,
    r: (Phase, Action),
)
    requires
        follows(entry, phase, event, r),
    ensures
        is_unexpected(r.1) <==> !is_awaited(phase, event),
        !is_awaited(phase, event) ==> r.0 is Closed,
{
    reveal(follows);
}

} // verus!
