//! Whole runs of the three commands.

use buidl::android;
use buidl::commit;
use buidl::config::{openapi_step, wants_openapi, ConfigError};
use buidl::flow::{Action, Event, Failure, Outcome};
use buidl::lm::LmError;
use buidl::message::MessageError;
use buidl::pipeline;
use buidl::publish::{
    generator_command, gh_release_command, gradle_publish_command, push_main_command,
    push_tag_command, remote_to_add, CommandLine,
};
use buidl::staging::FileDelta;
use buidl::tags::{TagError, TagProblem};
use buidl::{Entry, EntryData, GlobList, RepoKind, RepoSnapshot, SPEC};

fn strings(items: &[&str]) -> Vec<String> {
    items.iter().map(|s| s.to_string()).collect()
}

fn staged(items: &[(&str, bool)]) -> Event {
    let delta = |(path, binary): &(&str, bool)| FileDelta {
        new_path: Some(path.to_string()),
        old_path: Some(path.to_string()),
        new_binary: *binary,
        old_binary: false,
    };
    Event::Staged(items.iter().map(delta).collect())
}

/// One difference that has no path on either side.
fn nameless() -> Event {
    Event::Staged(vec![FileDelta {
        new_path: None,
        old_path: None,
        new_binary: false,
        old_binary: false,
    }])
}

fn tags(items: &[&str]) -> Event {
    Event::Tags(strings(items))
}

fn response(text: &str) -> Event {
    Event::Response(
        format!("{{\"choices\":[{{\"message\":{{\"content\":\"{text}\"}}}}]}}").into_bytes(),
    )
}

fn plain(path: &str) -> Entry {
    Entry {
        path: path.to_string(),
        remote: None,
        kind: None,
        data: None,
        readme: None,
        commit_ignore: None,
        release: None,
    }
}

fn snapshot(root: &[&str], gradle: Option<&str>) -> Event {
    Event::Snapshot(RepoSnapshot {
        root: strings(root),
        gradle: gradle.map(|g| g.to_string()),
        app_gradle: None,
    })
}

fn words(command: &CommandLine) -> Vec<&str> {
    let mut all = vec![command.program.as_str()];
    all.extend(command.args.iter().map(|a| a.as_str()));
    all
}

/// A name for an action, with what it holds that matters.
fn show(action: &Action) -> String {
    match action {
        Action::ReadTags => "tags".to_string(),
        Action::Wipe => "wipe".to_string(),
        Action::Generate { command } => format!("generate: {}", words(command).join(" ")),
        Action::Inspect => "inspect".to_string(),
        Action::PatchGradle => "patch gradle".to_string(),
        Action::Stage { remote, skip } => format!("stage {remote:?} {skip:?}"),
        Action::ListStaged => "list staged".to_string(),
        Action::RenderDiff { paths } => format!("diff {}", paths.join(" ")),
        Action::AskModel { request } => {
            format!("ask ..{}", request.content.rsplit(":\n").next().unwrap())
        }
        Action::ProbeGenerated => "probe".to_string(),
        Action::SyncVersions { version } => format!("sync {version}"),
        Action::SyncKotlin { version, skip } => format!("sync kotlin {version} {skip:?}"),
        Action::ListIndex => "index".to_string(),
        Action::ReadFiles { paths } => format!("read {}", paths.join(" ")),
        Action::WriteReadme { text } => format!("readme: {text}"),
        Action::Commit { message } => format!("commit: {message}"),
        Action::Push { command } => words(command).join(" "),
        Action::TagAndPush { tag, command } => format!("tag {tag}, {}", words(command).join(" ")),
        Action::Publish { command } => words(command).join(" "),
        Action::Release { tag, globs } => format!("release {tag} {}", globs.join(" ")),
        Action::Finish(outcome) => format!("finish: {outcome:?}"),
        Action::Abort(failure) => format!("abort: {failure:?}"),
    }
}

fn release_run(entry: &Entry, events: Vec<Event>) -> Vec<String> {
    let (mut phase, action) = pipeline::start(entry);
    let mut log = vec![show(&action)];
    for event in events {
        let (next, action) = pipeline::step(entry, phase, event);
        phase = next;
        log.push(show(&action));
    }
    log
}

fn release_end(entry: &Entry, events: Vec<Event>) -> Action {
    let (mut phase, mut action) = pipeline::start(entry);
    for event in events {
        (phase, action) = pipeline::step(entry, phase, event);
    }
    assert!(matches!(phase, pipeline::Phase::Closed));
    action
}

fn android_run(patterns: &[&str], events: Vec<Event>) -> Vec<String> {
    let patterns = strings(patterns);
    let (mut phase, action) = android::start(&patterns);
    let mut log = vec![show(&action)];
    for event in events {
        let (next, action) = android::step(&patterns, phase, event);
        phase = next;
        log.push(show(&action));
    }
    log
}

fn commit_end(patterns: &[&str], events: Vec<Event>) -> Action {
    let patterns = strings(patterns);
    let (mut phase, mut action) = commit::start();
    assert!(matches!(action, Action::ListStaged));
    for event in events {
        (phase, action) = commit::step(&patterns, phase, event);
    }
    action
}

// ── the release of an entry ────────────────────────────────────────────────

#[test]
fn a_plain_release_goes_from_the_diff_to_the_tag() {
    let log = release_run(
        &plain("/repo"),
        vec![
            snapshot(&["Cargo.toml", "src"], None),
            staged(&[("src/a.rs", false), ("icon.png", true)]),
            Event::Patch(vec![('+', b"x\n".to_vec())]),
            response("feat(core): add x\\n"),
            tags(&["v0.2.9", "0.3.1"]),
            Event::Done,
            Event::Done,
            Event::Done,
        ],
    );
    assert_eq!(
        log,
        vec![
            "inspect",
            "stage None []",
            "diff src/a.rs",
            "ask ..+x\n",
            "tags",
            "commit: feat(core): add x",
            "git push origin main",
            "tag v0.4.0, git push origin v0.4.0",
            "finish: Released { tag: \"v0.4.0\" }",
        ]
    );
}

#[test]
fn a_full_release_takes_every_step() {
    let entry = Entry {
        path: "/clients/kmp".to_string(),
        remote: Some("https://github.com/x/kmp".to_string()),
        kind: Some("openapi".to_string()),
        data: Some(EntryData {
            templates: Some("/tpl/kotlin".to_string()),
            delete_all_except_git: true,
        }),
        readme: Some(GlobList { glob: strings(&["*.kt"]) }),
        commit_ignore: Some(GlobList { glob: strings(&["*.lock"]) }),
        release: Some(GlobList { glob: strings(&["build/*.jar"]) }),
    };
    let log = release_run(
        &entry,
        vec![
            tags(&["v1.0.0", "latest"]),
            Event::Done,
            Event::Done,
            snapshot(&["build.gradle.kts"], Some("kotlin(\"multiplatform\")")),
            Event::Done,
            staged(&[("a.lock", false), ("src/A.kt", false)]),
            Event::Patch(vec![('-', b"y\n".to_vec())]),
            response("fix!: drop y"),
            tags(&["v1.0.0"]),
            Event::Done,
            Event::Index(strings(&["README.md", "a.lock", "src/A.kt"])),
            Event::Files(vec![("src/A.kt".to_string(), b"class A".to_vec())]),
            response("```markdown\\n# KMP\\n```"),
            Event::Done,
            Event::Done,
            Event::Done,
            Event::Done,
            Event::Done,
            Event::Done,
        ],
    );
    assert_eq!(
        log,
        vec![
            "tags",
            "wipe",
            "generate: openapi-generator generate -g kotlin -i \
             https://localhost:443/api-docs/openapi.json -o /clients/kmp -t /tpl/kotlin \
             --additional-properties npmVersion=1.0.0,artifactVersion=1.0.0",
            "inspect",
            "patch gradle",
            "stage Some(\"https://github.com/x/kmp\") []",
            "diff src/A.kt",
            "ask ..-y\n",
            "tags",
            "sync 2.0.0",
            "index",
            "read src/A.kt",
            "ask ..=== src/A.kt ===\nclass A\n",
            "readme: # KMP",
            "commit: fix!: drop y",
            "git push origin main",
            "tag v2.0.0, git push origin v2.0.0",
            "./gradlew publishAllPublicationsToGitHubPackagesRepository -PlibraryVersion=2.0.0",
            "release v2.0.0 build/*.jar",
            "finish: Released { tag: \"v2.0.0\" }",
        ]
    );
}

#[test]
fn nothing_staged_is_nothing_released() {
    let entry = plain("/repo");
    let log = release_run(
        &entry,
        vec![snapshot(&[], None), staged(&[]), Event::Done, tags(&[])],
    );
    assert_eq!(
        log,
        vec![
            "inspect",
            "stage None []",
            "finish: NothingToRelease",
            "abort: Unexpected",
            "abort: Unexpected",
        ]
    );
}

#[test]
fn an_ignored_change_is_released_without_the_model() {
    let mut entry = plain("/repo");
    entry.commit_ignore = Some(GlobList { glob: strings(&["*"]) });
    let log = release_run(
        &entry,
        vec![
            snapshot(&["package.json"], None),
            staged(&[("a/b.js", false), ("c.md", false)]),
            tags(&[]),
        ],
    );
    assert_eq!(log, vec!["inspect", "stage None []", "tags", "commit: chore: update"]);
}

#[test]
fn only_android_and_kotlin_are_published() {
    for (kind, published) in [
        (RepoKind::Rust, false),
        (RepoKind::Swift, false),
        (RepoKind::Android, true),
        (RepoKind::Kotlin, true),
        (RepoKind::Js, false),
        (RepoKind::Generic, false),
    ] {
        let cut = pipeline::Cut {
            kind,
            message: "fix: x".to_string(),
            tag: "v0.1.1".to_string(),
        };
        let (_, action) =
            pipeline::step(&plain("/repo"), pipeline::Phase::TagPushing(cut), Event::Done);
        assert_eq!(matches!(action, Action::Publish { .. }), published, "{kind:?}");
        assert_eq!(matches!(action, Action::Finish(_)), !published, "{kind:?}");
    }
}

#[test]
fn a_generated_client_that_is_not_kotlin_keeps_its_wrapper() {
    let mut entry = plain("/c");
    entry.kind = Some("openapi".to_string());
    entry.data = Some(EntryData { templates: Some("swift6".to_string()), ..Default::default() });
    let log = release_run(
        &entry,
        vec![tags(&[]), Event::Done, snapshot(&["Package.swift"], None)],
    );
    assert_eq!(
        log,
        vec![
            "tags",
            "generate: openapi-generator generate -g swift6 -i \
             https://localhost:443/api-docs/openapi.json -o /c -t swift6 \
             --additional-properties npmVersion=0.1.0,artifactVersion=0.1.0",
            "inspect",
            "stage None []",
        ]
    );
}

#[test]
fn a_release_gives_up_with_the_reason() {
    let entry = plain("/repo");
    let drafting = || {
        vec![
            snapshot(&[], None),
            staged(&[("a", false)]),
            Event::Patch(vec![('+', b"x\n".to_vec())]),
        ]
    };
    let mut events = drafting();
    events.pop();
    events.push(Event::Patch(vec![('+', vec![0xff])]));
    assert!(matches!(release_end(&entry, events), Action::Abort(Failure::PatchNotUtf8)));

    assert!(matches!(
        release_end(&entry, vec![snapshot(&[], None), nameless()]),
        Action::Abort(Failure::NoPath)
    ));

    let mut events = drafting();
    events.push(Event::Response(b"{}".to_vec()));
    assert!(matches!(
        release_end(&entry, events),
        Action::Abort(Failure::Lm(LmError::MissingContent))
    ));

    let mut events = drafting();
    events.push(response("I added x"));
    assert!(matches!(
        release_end(&entry, events),
        Action::Abort(Failure::Message(MessageError::NoHeader { .. }))
    ));

    let mut events = drafting();
    events.push(response("fix: x"));
    events.push(tags(&["v1.0.0", "nightly"]));
    assert!(matches!(
        release_end(&entry, events),
        Action::Abort(Failure::Tag(TagError::Malformed {
            tag,
            problem: TagProblem::MissingMinor
        })) if tag == "nightly"
    ));

    let mut events = drafting();
    events.push(response("fix: x"));
    events.push(tags(&["v1.0.4294967295"]));
    assert!(matches!(
        release_end(&entry, events),
        Action::Abort(Failure::Tag(TagError::Overflow))
    ));

    assert!(matches!(
        release_end(&entry, vec![Event::Done]),
        Action::Abort(Failure::Unexpected)
    ));
}

#[test]
fn an_openapi_entry_has_to_name_its_templates() {
    let mut entry = plain("/c");
    assert!(!wants_openapi(&entry));
    assert!(matches!(openapi_step(&entry), Ok(None)));
    entry.kind = Some("swift".to_string());
    assert!(matches!(openapi_step(&entry), Ok(None)));
    entry.kind = Some("openapi".to_string());
    assert!(wants_openapi(&entry));
    assert!(matches!(
        openapi_step(&entry),
        Err(ConfigError::MissingData { path }) if path == "/c"
    ));
    entry.data = Some(EntryData::default());
    assert!(matches!(
        openapi_step(&entry),
        Err(ConfigError::MissingTemplates { path }) if path == "/c"
    ));
    assert!(matches!(
        release_end(&entry, vec![]),
        Action::Abort(Failure::Config(ConfigError::MissingTemplates { .. }))
    ));
    entry.data = Some(EntryData { templates: Some("t".to_string()), delete_all_except_git: true });
    match openapi_step(&entry) {
        Ok(Some(step)) => {
            assert_eq!(step.templates, "t");
            assert!(step.wipe);
        }
        other => panic!("{other:?}"),
    }
}

// ── the android command ────────────────────────────────────────────────────

#[test]
fn the_android_command_publishes_before_it_tags() {
    let log = android_run(
        &["*.lock"],
        vec![
            staged(&[("app/A.kt", false), ("x.lock", false), ("N.md", false)]),
            Event::Patch(vec![('+', b"x\n".to_vec()), ('+', vec![0xff])]),
            response("feat: x"),
            tags(&["v0.1.0", "junk"]),
            Event::Generated(true),
            Event::Done,
            Event::Index(strings(&["README.md", "app/A.kt"])),
            Event::Files(vec![("app/A.kt".to_string(), b"class A".to_vec())]),
            response("# A"),
            Event::Done,
            Event::Done,
            Event::Done,
            Event::Done,
            Event::Done,
        ],
    );
    assert_eq!(
        log,
        vec![
            "stage None [\"*.lock\"]",
            "diff app/A.kt",
            "ask ..+x\n+",
            "tags",
            "probe",
            "sync kotlin 0.2.0 [\"*.lock\"]",
            "index",
            "read app/A.kt",
            "ask ..=== app/A.kt ===\nclass A\n",
            "readme: # A",
            "commit: feat: x",
            "git push origin main",
            "./gradlew publishAllPublicationsToGitHubPackagesRepository -PlibraryVersion=0.2.0",
            "tag v0.2.0, git push origin v0.2.0",
            "finish: Released { tag: \"v0.2.0\" }",
        ]
    );
}

#[test]
fn generated_code_is_synced_before_its_commit() {
    for (generated, steps) in [
        (true, vec!["probe", "sync kotlin 1.0.1 [\"*.lock\"]", "commit: chore: update"]),
        (false, vec!["probe", "commit: chore: update"]),
    ] {
        let mut events =
            vec![staged(&[("a.png", true)]), tags(&["v1.0.0"]), Event::Generated(generated)];
        if generated {
            events.push(Event::Done);
        }
        assert_eq!(android_run(&["*.lock"], events)[2..], steps);
    }
}

#[test]
fn a_documentation_commit_does_not_regenerate_the_readme() {
    let log = android_run(
        &[],
        vec![staged(&[("README.md", false)]), tags(&["v1.0.0"]), Event::Generated(false)],
    );
    assert_eq!(
        log,
        vec!["stage None []", "tags", "probe", "commit: docs: update documentation"]
    );
}

#[test]
fn a_tag_of_four_parts_ends_a_release_but_not_the_android_command() {
    let mut entry = plain("/repo");
    entry.commit_ignore = Some(GlobList { glob: strings(&["*"]) });
    let events = vec![snapshot(&[], None), staged(&[("a", false)]), tags(&["v1.2.3.4"])];
    assert!(matches!(
        release_end(&entry, events),
        Action::Abort(Failure::Tag(TagError::Malformed {
            tag,
            problem: TagProblem::TooManyParts
        })) if tag == "v1.2.3.4"
    ));
    let events = vec![
        staged(&[("a.png", true)]),
        tags(&["v1.2.3.4"]),
        Event::Generated(true),
    ];
    assert_eq!(android_run(&[], events).last().unwrap(), "sync kotlin 1.2.4 []");
}

#[test]
fn the_android_command_ends_where_nothing_has_changed() {
    let log = android_run(&[], vec![staged(&[]), Event::Done]);
    assert_eq!(log, vec!["stage None []", "finish: NothingToRelease", "abort: Unexpected"]);
}

#[test]
fn the_android_command_skips_the_readme_of_an_empty_index() {
    let log = android_run(
        &[],
        vec![
            staged(&[("gone.kt", false)]),
            Event::Patch(vec![]),
            response("chore: remove"),
            tags(&[]),
            Event::Generated(false),
            Event::Index(strings(&["README.md"])),
        ],
    );
    assert_eq!(log.last().unwrap(), "commit: chore: remove");
}

#[test]
fn the_android_command_gives_up_with_the_reason() {
    let patch = || vec![staged(&[("a.kt", false)]), Event::Patch(vec![])];
    let mut events = patch();
    events.push(response("update: x"));
    let log = android_run(&[], events);
    assert!(log.last().unwrap().starts_with("abort: Message(UnknownType"));
    let mut events = patch();
    events.push(Event::Response(b"<html>".to_vec()));
    assert_eq!(android_run(&[], events).last().unwrap(), "abort: Lm(Undecodable)");
    let mut events = patch();
    events.push(response("fix: x"));
    events.push(tags(&["0.0.4294967295"]));
    assert_eq!(android_run(&[], events).last().unwrap(), "abort: Tag(Overflow)");
}

// ── the commit command ─────────────────────────────────────────────────────

#[test]
fn the_commit_command_prints_the_message_of_the_model() {
    let action = commit_end(
        &["*.lock"],
        vec![
            staged(&[("a.rs", false), ("b.lock", false)]),
            Event::Patch(vec![('+', b"x\n".to_vec())]),
            response("fix(a): x"),
        ],
    );
    assert!(matches!(
        action,
        Action::Finish(Outcome::Message { text }) if text == "fix(a): x"
    ));
}

#[test]
fn the_commit_command_asks_about_the_real_files() {
    let action = commit_end(&["*.lock"], vec![staged(&[("a.rs", false), ("b.lock", false), ("c.md", false)])]);
    assert_eq!(show(&action), "diff a.rs");
}

#[test]
fn the_commit_command_knows_quiet_messages() {
    let action = commit_end(&["*.lock"], vec![staged(&[("b.lock", false)])]);
    assert!(matches!(
        action,
        Action::Finish(Outcome::Message { text }) if text == "chore: update"
    ));
    let action = commit_end(&[], vec![staged(&[("B.md", false)])]);
    assert!(matches!(
        action,
        Action::Finish(Outcome::Message { text }) if text == "docs: update documentation"
    ));
}

#[test]
fn a_difference_without_a_path_is_a_change_all_the_same() {
    let log = android_run(&[], vec![nameless(), tags(&[]), Event::Generated(false)]);
    assert_eq!(log, vec!["stage None []", "tags", "probe", "commit: chore: update"]);
    assert!(matches!(
        commit_end(&[], vec![nameless()]),
        Action::Finish(Outcome::Message { text }) if text == "chore: update"
    ));
}

#[test]
fn the_commit_command_gives_up_with_the_reason() {
    assert!(matches!(
        commit_end(&[], vec![staged(&[])]),
        Action::Abort(Failure::NothingStaged)
    ));
    assert!(matches!(
        commit_end(&[], vec![staged(&[("a", false)]), Event::Patch(vec![]), response(" ")]),
        Action::Abort(Failure::Lm(LmError::Empty))
    ));
    assert!(matches!(
        commit_end(&[], vec![staged(&[("a", false)]), Event::Patch(vec![]), response("x")]),
        Action::Abort(Failure::Message(MessageError::NoHeader { .. }))
    ));
    assert!(matches!(commit_end(&[], vec![Event::Done]), Action::Abort(Failure::Unexpected)));
}

// ── commands ───────────────────────────────────────────────────────────────

#[test]
fn the_commands_are_spelled_out() {
    assert_eq!(words(&push_main_command()), vec!["git", "push", "origin", "main"]);
    assert_eq!(words(&push_tag_command("v1.0.0")), vec!["git", "push", "origin", "v1.0.0"]);
    assert_eq!(
        words(&gradle_publish_command("v1.0.0")),
        vec![
            "./gradlew",
            "publishAllPublicationsToGitHubPackagesRepository",
            "-PlibraryVersion=1.0.0"
        ]
    );
    assert_eq!(
        words(&gh_release_command("v1.0.0", &strings(&["a.bin", "b.pdf"]))),
        vec!["gh", "release", "create", "v1.0.0", "a.bin", "b.pdf"]
    );
    assert_eq!(
        words(&generator_command("/out", "/tpl/swift6", "0.3.0")),
        vec![
            "openapi-generator",
            "generate",
            "-g",
            "swift6",
            "-i",
            SPEC,
            "-o",
            "/out",
            "-t",
            "/tpl/swift6",
            "--additional-properties",
            "npmVersion=0.3.0,artifactVersion=0.3.0"
        ]
    );
}

#[test]
fn a_remote_is_added_only_where_there_is_none() {
    let url = Some("https://github.com/x/y".to_string());
    assert_eq!(remote_to_add(false, &url), url);
    assert_eq!(remote_to_add(true, &url), None);
    assert_eq!(remote_to_add(false, &None), None);
    assert_eq!(remote_to_add(true, &None), None);
}
