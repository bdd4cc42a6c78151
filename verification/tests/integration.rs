//! What the library decides on repositories: their kind, their tags, and when
//! the model is left alone.

use buidl::flow::{Action, Event};
use buidl::pipeline::{step, Cut, Phase};
use buidl::publish::survives_wipe;
use buidl::readme::readme_sources;
use buidl::{
    commit_msg_for_diff, compute_new_tag, detect_kind, last_tag, Entry, GlobList, MessagePlan,
    RepoKind, RepoSnapshot, DEFAULT_VERSION,
};

/// A repository that holds these files.
fn repo(files: &[(&str, &str)]) -> RepoSnapshot {
    let mut root: Vec<String> = Vec::new();
    let mut gradle = None;
    let mut app_gradle = None;
    for (path, contents) in files {
        let name = path.split('/').next().unwrap().to_string();
        if !root.contains(&name) {
            root.push(name);
        }
        if *path == "build.gradle.kts" {
            gradle = Some(contents.to_string());
        }
        if *path == "app/build.gradle.kts" {
            app_gradle = Some(contents.to_string());
        }
    }
    RepoSnapshot { root, gradle, app_gradle }
}

fn strings(items: &[&str]) -> Vec<String> {
    items.iter().map(|s| s.to_string()).collect()
}

// ── detect_kind ────────────────────────────────────────────────────────────

#[test]
fn detect_rust_via_cargo_toml() {
    let tmp = repo(&[("Cargo.toml", "[package]\nname = \"x\"\n")]);
    assert_eq!(detect_kind(&tmp), RepoKind::Rust);
}

#[test]
fn detect_swift_via_package_swift() {
    let tmp = repo(&[("Package.swift", "// swift-tools-version:5.5\n")]);
    assert_eq!(detect_kind(&tmp), RepoKind::Swift);
}

#[test]
fn detect_swift_via_xcodeproj_dir() {
    let tmp = repo(&[("MyApp.xcodeproj/project.pbxproj", "// !$*UTF8*$!\n{}\n")]);
    assert_eq!(detect_kind(&tmp), RepoKind::Swift);
}

#[test]
fn detect_android_via_root_gradle_application_plugin() {
    let tmp = repo(&[(
        "build.gradle.kts",
        "plugins { id(\"com.android.application\") version \"8.7.0\" }\n",
    )]);
    assert_eq!(detect_kind(&tmp), RepoKind::Android);
}

#[test]
fn detect_android_via_app_subdir_gradle() {
    // Standard android layout: root build.gradle.kts has nothing identifying,
    // but app/build.gradle.kts applies com.android.application.
    let tmp = repo(&[
        ("build.gradle.kts", "// root project\n"),
        (
            "app/build.gradle.kts",
            "plugins { id(\"com.android.application\") }\nandroid {}\n",
        ),
    ]);
    assert_eq!(detect_kind(&tmp), RepoKind::Android);
}

#[test]
fn detect_android_via_library_plugin() {
    let tmp = repo(&[("build.gradle.kts", "plugins { id(\"com.android.library\") }\n")]);
    assert_eq!(detect_kind(&tmp), RepoKind::Android);
}

#[test]
fn detect_kotlin_via_multiplatform_plugin() {
    let tmp = repo(&[(
        "build.gradle.kts",
        "plugins { kotlin(\"multiplatform\") version \"2.2.20\" }\n",
    )]);
    assert_eq!(detect_kind(&tmp), RepoKind::Kotlin);
}

#[test]
fn detect_js_via_package_json() {
    let tmp = repo(&[("package.json", "{\"name\":\"x\",\"version\":\"0.0.1\"}\n")]);
    assert_eq!(detect_kind(&tmp), RepoKind::Js);
}

#[test]
fn detect_generic_when_no_signature_matches() {
    // ComfyUI-shaped repo: workflow.json + python.
    let tmp = repo(&[("workflow.json", "{\"nodes\":[]}\n"), ("main.py", "print('hi')\n")]);
    assert_eq!(detect_kind(&tmp), RepoKind::Generic);
}

#[test]
fn detect_generic_for_empty_dir() {
    let tmp = repo(&[]);
    assert_eq!(detect_kind(&tmp), RepoKind::Generic);
}

#[test]
fn detect_priority_rust_beats_js_in_polyglot() {
    // detect_kind checks Cargo.toml first — a polyglot repo with both Rust
    // and Node sources is classified as Rust. Documents intentional ordering.
    let tmp = repo(&[("Cargo.toml", "[package]\nname = \"x\"\n"), ("package.json", "{}\n")]);
    assert_eq!(detect_kind(&tmp), RepoKind::Rust);
}

// ── the wipe before the generator ──────────────────────────────────────────

#[test]
fn wipe_keeps_dot_git_and_removes_everything_else() {
    let children = [".git", "Cargo.toml", "src", "target"];
    let remaining: Vec<&str> = children.iter().copied().filter(|n| survives_wipe(n)).collect();
    assert_eq!(remaining, vec![".git"]);
}

// ── last_tag + compute_new_tag ─────────────────────────────────────────────

#[test]
fn last_tag_falls_back_to_default_when_no_tags_exist() {
    let stripped = DEFAULT_VERSION.strip_prefix('v').unwrap();
    assert_eq!(last_tag(&strings(&[])), stripped);
}

#[test]
fn last_tag_returns_bare_semver_for_v_prefixed_tag() {
    assert_eq!(last_tag(&strings(&["v1.2.3"])), "1.2.3");
}

#[test]
fn last_tag_accepts_both_v_prefixed_and_bare_semver() {
    // Mixed conventions in the wild (the swift API repo had both `v0.7.0`
    // and a bare `1.0.0` left over from earlier tooling).
    let tags = strings(&["v0.5.0", "1.0.0", "v0.9.0"]);
    // Max by semver tuple: (1,0,0) > (0,9,0) > (0,5,0).
    assert_eq!(last_tag(&tags), "1.0.0");
}

#[test]
fn last_tag_skips_non_semver_tags_silently() {
    // `release-candidate-1` and `latest` aren't semver — they should be
    // filtered out, and the remaining `v0.3.0` should win.
    let tags = strings(&["release-candidate-1", "latest", "v0.3.0"]);
    assert_eq!(last_tag(&tags), "0.3.0");
}

#[test]
fn compute_new_tag_uses_default_when_no_tags() {
    let tags = strings(&[]);
    assert_eq!(compute_new_tag(&tags, "patch"), DEFAULT_VERSION);
    assert_eq!(compute_new_tag(&tags, "minor"), DEFAULT_VERSION);
    assert_eq!(compute_new_tag(&tags, "major"), DEFAULT_VERSION);
}

#[test]
fn compute_new_tag_patch_bump() {
    assert_eq!(compute_new_tag(&strings(&["v1.2.3"]), "patch"), "v1.2.4");
}

#[test]
fn compute_new_tag_minor_bump_resets_patch() {
    assert_eq!(compute_new_tag(&strings(&["v1.2.3"]), "minor"), "v1.3.0");
}

#[test]
fn compute_new_tag_major_bump_resets_minor_and_patch() {
    assert_eq!(compute_new_tag(&strings(&["v1.2.3"]), "major"), "v2.0.0");
}

#[test]
fn compute_new_tag_picks_max_across_unsorted_tags() {
    let tags = strings(&["v0.1.0", "v0.10.0", "v0.2.0"]);
    // v0.10.0 is the max semver, not v0.2.0 (string-sort would mis-rank).
    assert_eq!(compute_new_tag(&tags, "patch"), "v0.10.1");
}

// ── semantic guards: empty filter must NOT silently invert into "include all"
// ───────────────────────────────────────────────────────────────────────────

fn fixed(plan: MessagePlan) -> String {
    match plan {
        MessagePlan::Fixed(message) => message,
        MessagePlan::Ask(paths) => panic!("the model would be asked about {paths:?}"),
    }
}

#[test]
fn commit_msg_returns_chore_update_when_commit_ignore_covers_everything() {
    // `commitIgnore: { glob: ["*"] }` should mean "no LLM, just a chore
    // commit" — NOT "send the full diff to the LLM" (which libgit2 would do
    // with no pathspecs added).
    let files = vec![
        ("Cargo.lock".to_string(), false),
        ("src/main.rs".to_string(), false),
        ("README.md".to_string(), false),
    ];
    let ignore = vec!["*".to_string()];
    let msg = fixed(commit_msg_for_diff(&files, Some(&ignore)));
    assert_eq!(msg, "chore: update");
}

#[test]
fn commit_msg_returns_chore_update_when_all_files_are_binary() {
    // No commitIgnore at all, but every staged file is binary → nothing
    // can be fed to the model → fall back to a chore commit instead of
    // invoking the LLM with no content.
    let files = vec![("icon.png".to_string(), true), ("logo.jpg".to_string(), true)];
    let msg = fixed(commit_msg_for_diff(&files, None));
    assert_eq!(msg, "chore: update");
}

#[test]
fn commit_msg_returns_chore_update_when_inventory_is_empty() {
    // Degenerate case — caller passed no files at all.
    let msg = fixed(commit_msg_for_diff(&[], None));
    assert_eq!(msg, "chore: update");
}

/// An entry with these patterns for its README.
fn entry_with_readme(globs: &[&str]) -> Entry {
    Entry {
        path: "/foo".to_string(),
        remote: None,
        kind: None,
        data: None,
        readme: Some(GlobList { glob: strings(globs) }),
        commit_ignore: None,
        release: None,
    }
}

/// That with these files in the index, and these patterns, the release goes on
/// to the commit without a README.
fn assert_readme_is_left_alone(indexed: &[&str], globs: &[&str]) {
    assert!(readme_sources(&strings(indexed), &strings(globs)).is_empty());
    let cut = Cut {
        kind: RepoKind::Generic,
        message: "fix: it".to_string(),
        tag: "v0.1.1".to_string(),
    };
    let (phase, action) = step(
        &entry_with_readme(globs),
        Phase::Listing(cut),
        Event::Index(strings(indexed)),
    );
    assert!(matches!(phase, Phase::Committing(_)));
    assert!(matches!(action, Action::Commit { message } if message == "fix: it"));
}

#[test]
fn regenerate_readme_is_noop_when_globs_match_nothing() {
    // README.md must be untouched when the readme globs don't match any
    // tracked file. Otherwise we'd write a hallucinated README from an
    // empty source corpus.
    assert_readme_is_left_alone(&["main.rs", "README.md"], &["*.swift"]);
}

#[test]
fn regenerate_readme_is_noop_when_glob_list_is_empty() {
    // `readme: { glob: [] }` — degenerate but valid. README.md must stay.
    assert_readme_is_left_alone(&["main.rs", "README.md"], &[]);
}

#[test]
fn regenerate_readme_is_noop_when_index_is_empty() {
    // Empty repo (no tracked files at all) — there's nothing to summarize.
    assert_readme_is_left_alone(&[], &["*.rs"]);
}
