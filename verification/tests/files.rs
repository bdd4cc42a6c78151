use buidl::globs::{is_ignored, matches_any, path_matches};
use buidl::staging::{
    commit_msg_for_diff, commit_msg_for_staged, diff_files, is_md, kinds_for_android,
    kinds_for_commit, kinds_for_release, known_files, print_staged, staged_report, FileDelta,
    FileKind, MessagePlan,
};

fn strings(items: &[&str]) -> Vec<String> {
    items.iter().map(|s| s.to_string()).collect()
}

fn staged(items: &[(&str, bool)]) -> Vec<(String, bool)> {
    items.iter().map(|(p, b)| (p.to_string(), *b)).collect()
}

#[test]
fn a_pattern_without_a_slash_matches_at_any_depth() {
    for path in ["A.swift", "Prod/A.swift", "a/b/c/A.swift"] {
        assert!(path_matches("*.swift", path), "{path}");
    }
    assert!(!path_matches("*.swift", "A.swift.bak"));
    assert!(!path_matches("*.swift", "A.swift/x"));
}

#[test]
fn a_pattern_with_a_slash_is_anchored() {
    assert!(path_matches("Prod/*.swift", "Prod/A.swift"));
    assert!(!path_matches("Prod/*.swift", "A.swift"));
    assert!(!path_matches("Prod/*.swift", "x/Prod/A.swift"));
    assert!(!path_matches("Prod/*.swift", "Prod/sub/A.swift"));
    assert!(path_matches("Prod/**/*.swift", "Prod/sub/deep/A.swift"));
    assert!(path_matches("dist/**", "dist/js/app.js"));
}

#[test]
fn letter_case_counts_and_a_leading_dot_is_nothing_special() {
    assert!(!path_matches("*.MD", "a.md"));
    assert!(path_matches("*ignore", ".gitignore"));
}

#[test]
fn an_invalid_pattern_picks_out_nothing() {
    assert!(!path_matches("a[", "a["));
    assert!(!path_matches("***", "a"));
    assert!(!is_ignored(&strings(&["a["]), "a["));
    assert!(is_ignored(&strings(&["a[", "a?"]), "a["));
}

#[test]
fn the_lone_star_picks_out_every_path() {
    for path in ["", "a", "a/b", ".hidden", "a/.b", "a/"] {
        assert!(path_matches("*", path), "{path:?}");
        assert!(matches_any(&strings(&["x", "*"]), path), "{path:?}");
        assert!(!matches_any(&[], path), "{path:?}");
    }
}

#[test]
fn ignore_patterns_match_the_whole_path() {
    let patterns = strings(&["*.lock", "build/*"]);
    assert!(is_ignored(&patterns, "Cargo.lock"));
    assert!(is_ignored(&patterns, "a/b/Cargo.lock"));
    assert!(is_ignored(&patterns, "build/x/y"));
    assert!(!is_ignored(&patterns, "src/build/x"));
    assert!(!is_ignored(&[], "Cargo.lock"));
}

#[test]
fn markdown_is_told_by_the_ending_in_any_case() {
    for path in ["a.md", "A.MD", "x/y.Md", ".md", "a.mD"] {
        assert!(is_md(path), "{path}");
    }
    for path in ["", "md", "a.mdx", "amd", "a.md/x"] {
        assert!(!is_md(path), "{path}");
    }
}

#[test]
fn markdown_is_told_as_by_lower_casing() {
    for c in '\0'..=char::MAX {
        for path in [format!("a.{c}d"), format!("a.m{c}"), format!("a{c}md")] {
            assert_eq!(is_md(&path), path.to_lowercase().ends_with(".md"), "{path:?}");
        }
    }
}

#[test]
fn each_command_sorts_the_files_its_own_way() {
    let files = staged(&[
        ("icon.png", true),
        ("Cargo.lock", false),
        ("README.md", false),
        ("src/a.rs", false),
        ("docs/b.lock", true),
    ]);
    let lock = strings(&["*.lock"]);
    assert_eq!(
        kinds_for_release(&files, Some(&lock)),
        vec![
            FileKind::Binary,
            FileKind::Ignored,
            FileKind::Real,
            FileKind::Real,
            FileKind::Binary
        ]
    );
    assert_eq!(
        kinds_for_release(&files, None),
        vec![FileKind::Binary, FileKind::Real, FileKind::Real, FileKind::Real, FileKind::Binary]
    );
    assert_eq!(
        kinds_for_commit(&files, &lock),
        vec![
            FileKind::Binary,
            FileKind::Ignored,
            FileKind::Markdown,
            FileKind::Real,
            FileKind::Binary
        ]
    );
    assert_eq!(
        kinds_for_android(&files),
        vec![
            FileKind::Binary,
            FileKind::Real,
            FileKind::Markdown,
            FileKind::Real,
            FileKind::Binary
        ]
    );
}

#[test]
fn only_real_files_are_shown() {
    let files = staged(&[
        ("icon.png", true),
        ("Cargo.lock", false),
        ("README.md", false),
        ("src/a.rs", false),
    ]);
    let lock = strings(&["*.lock"]);
    match commit_msg_for_diff(&files, Some(&lock)) {
        MessagePlan::Ask(paths) => assert_eq!(paths, strings(&["README.md", "src/a.rs"])),
        other => panic!("{other:?}"),
    }
    match commit_msg_for_diff(&files, Some(&[])) {
        MessagePlan::Ask(paths) => {
            assert_eq!(paths, strings(&["Cargo.lock", "README.md", "src/a.rs"]))
        }
        other => panic!("{other:?}"),
    }
    match commit_msg_for_staged(&files, &lock) {
        MessagePlan::Ask(paths) => assert_eq!(paths, strings(&["src/a.rs"])),
        other => panic!("{other:?}"),
    }
}

#[test]
fn without_real_files_the_message_is_fixed() {
    let lock = strings(&["*.lock"]);
    match commit_msg_for_staged(&staged(&[("a.lock", false), ("B.MD", true)]), &lock) {
        MessagePlan::Fixed(message) => assert_eq!(message, "docs: update documentation"),
        other => panic!("{other:?}"),
    }
    match commit_msg_for_staged(&staged(&[("a.lock", false), ("b.png", true)]), &lock) {
        MessagePlan::Fixed(message) => assert_eq!(message, "chore: update"),
        other => panic!("{other:?}"),
    }
}

#[test]
fn the_report_has_a_label_for_each_file() {
    let files = staged(&[
        ("icon.png", true),
        ("Cargo.lock", false),
        ("README.md", false),
        ("src/a.rs", false),
    ]);
    let kinds = kinds_for_commit(&files, &strings(&["*.lock"]));
    let names = ["binary", "ignored", "md", "REAL"];
    let mut expected = vec!["[buidl] 4 staged file(s):".to_string()];
    for ((path, _), name) in files.iter().zip(names) {
        expected.push(format!("[buidl]   {name:>7}  {path}"));
    }
    assert_eq!(staged_report(&files, &kinds), expected);
    assert_eq!(print_staged(&[], None), vec!["[buidl] 0 staged file(s):".to_string()]);
}

#[test]
fn the_report_counts_in_decimals() {
    let files: Vec<(String, bool)> = (0..120).map(|i| (format!("f{i}"), false)).collect();
    let report = print_staged(&files, None);
    assert_eq!(report.len(), 121);
    assert_eq!(report[0], "[buidl] 120 staged file(s):");
    assert_eq!(report[120], "[buidl]      REAL  f119");
}

#[test]
fn the_release_report_says_what_reaches_the_model() {
    let files = staged(&[("icon.png", true), ("a/Cargo.lock", false), ("README.md", false)]);
    assert_eq!(
        print_staged(&files, Some(&strings(&["*.lock"]))),
        strings(&[
            "[buidl] 3 staged file(s):",
            "[buidl]    binary  icon.png",
            "[buidl]   ignored  a/Cargo.lock",
            "[buidl]      REAL  README.md",
        ])
    );
}

fn delta(new: Option<&str>, old: Option<&str>, new_binary: bool, old_binary: bool) -> FileDelta {
    FileDelta {
        new_path: new.map(|p| p.to_string()),
        old_path: old.map(|p| p.to_string()),
        new_binary,
        old_binary,
    }
}

#[test]
fn a_difference_goes_by_its_new_path() {
    let mut deltas = vec![
        delta(Some("new.rs"), Some("old.rs"), false, false),
        delta(None, Some("gone.png"), false, true),
        delta(Some("added.bin"), None, true, false),
    ];
    let expected = staged(&[("new.rs", false), ("gone.png", true), ("added.bin", true)]);
    assert_eq!(diff_files(&deltas), Some(expected.clone()));
    assert_eq!(known_files(&deltas), expected);
    deltas.insert(1, delta(None, None, true, true));
    assert_eq!(diff_files(&deltas), None);
    assert_eq!(known_files(&deltas), expected);
    assert_eq!(diff_files(&Vec::new()), Some(Vec::new()));
}
