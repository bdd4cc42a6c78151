use buidl::readme::{
    readme_prompt, readme_sources, strip_outer_fence, whole_index, README_PROMPT,
};
use buidl::versions::{sync_kotlin_versions, sync_package_version, sync_readme_version};
use buidl::wrapper::patch_gradle_wrapper;

fn strings(items: &[&str]) -> Vec<String> {
    items.iter().map(|s| s.to_string()).collect()
}

#[test]
fn the_readme_is_never_its_own_source() {
    let indexed = strings(&["README.md", "a.rs", "docs/README.md", "b.toml", "src/c.rs"]);
    assert_eq!(readme_sources(&indexed, &strings(&["*.rs"])), strings(&["a.rs", "src/c.rs"]));
    assert_eq!(
        readme_sources(&indexed, &strings(&["*"])),
        strings(&["a.rs", "docs/README.md", "b.toml", "src/c.rs"])
    );
    assert_eq!(
        whole_index(&indexed),
        strings(&["a.rs", "docs/README.md", "b.toml", "src/c.rs"])
    );
    assert!(whole_index(&strings(&["README.md"])).is_empty());
}

#[test]
fn the_prompt_shows_the_files_that_are_text() {
    let files = vec![
        ("a.rs".to_string(), b"fn a() {}\n".to_vec()),
        ("logo.png".to_string(), vec![0x89, 0x50, 0xff]),
        ("b.txt".to_string(), "gr\u{fc}n".as_bytes().to_vec()),
    ];
    let request = readme_prompt(&files);
    assert_eq!(
        request.prompt,
        format!("{README_PROMPT}=== a.rs ===\nfn a() {{}}\n\n\n=== b.txt ===\ngrün\n")
    );
    assert_eq!(request.included, vec![("a.rs".to_string(), 10), ("b.txt".to_string(), 5)]);
    assert!(request.prompt.starts_with("You are generating a README.md for the software project"));
    assert_eq!(readme_prompt(&Vec::new()).prompt, README_PROMPT);
}

#[test]
fn an_outer_fence_is_stripped() {
    assert_eq!(strip_outer_fence("```markdown\n# X\n\ntext\n```"), "# X\n\ntext");
    assert_eq!(strip_outer_fence("```\n# X\n```\n"), "# X");
    assert_eq!(strip_outer_fence("\n  ```md\r\n# X\r\ny\r\n  ```  \n"), "# X\ny");
    assert_eq!(strip_outer_fence("```\n```"), "");
    assert_eq!(strip_outer_fence("```"), "");
    assert_eq!(strip_outer_fence("```\n\nx\n\n```"), "\nx\n");
}

#[test]
fn a_text_without_an_outer_fence_is_only_trimmed() {
    assert_eq!(strip_outer_fence("  # X\n```\ncode\n```\nend\n\n"), "# X\n```\ncode\n```\nend");
    assert_eq!(strip_outer_fence("```sh\nls\n```\nafter"), "```sh\nls\n```\nafter");
    assert_eq!(strip_outer_fence("# X\n```"), "# X\n```");
    assert_eq!(strip_outer_fence("```only"), "```only");
    assert_eq!(strip_outer_fence(" \n "), "");
    assert_eq!(strip_outer_fence("a\r\nb"), "a\r\nb");
}

const GRADLE: &str = "plugins {}\n\ngroup = \"g\"\nversion = \"0.1.0\"\n  version = \"9\"\nval version = \"1\"\n";

#[test]
fn the_gradle_version_is_set() {
    assert_eq!(
        sync_kotlin_versions(GRADLE, "0.2.0"),
        "plugins {}\n\ngroup = \"g\"\nversion = \"0.2.0\"\n  version = \"9\"\nval version = \"1\"\n"
    );
    assert_eq!(sync_kotlin_versions("version = \"1\"", "2.0.0"), "version = \"2.0.0\"");
    assert_eq!(sync_kotlin_versions("", "2.0.0"), "");
    assert_eq!(sync_kotlin_versions("a\r\nb\r\n", "2.0.0"), "a\r\nb\r\n");
}

#[test]
fn only_the_first_string_of_the_gradle_line_is_replaced() {
    assert_eq!(
        sync_kotlin_versions("version = \"1\" // was \"0\"\r\n", "2.0.0"),
        "version = \"2.0.0\" // was \"0\"\r\n"
    );
    assert_eq!(sync_kotlin_versions("version = rootVersion\n", "2.0.0"), "version = rootVersion\n");
    assert_eq!(sync_kotlin_versions("version = \"open\n", "2.0.0"), "version = \"open\n");
}

#[test]
fn the_package_version_is_set() {
    let package = "{\n  \"name\": \"c\",\n  \"version\": \"0.1.0\",\n  \"x\": {\n    \"version\": \"7\"\n  }\n}\n";
    let expected = "{\n  \"name\": \"c\",\n  \"version\": \"0.2.0\",\n  \"x\": {\n    \"version\": \"7\"\n  }\n}\n";
    assert_eq!(sync_package_version(package, "0.2.0"), expected);
    assert_eq!(sync_package_version("{}", "0.2.0"), "{}");
}

#[test]
fn the_readme_versions_are_set() {
    assert_eq!(
        sync_readme_version("npm install @o/c@0.1.0 --save\nme@host.com @1.2 @10.20.30-beta\n", "0.2.0"),
        "npm install @o/c@0.2.0 --save\nme@host.com @1.2 @0.2.0-beta\n"
    );
    assert_eq!(sync_readme_version("0.1.0 @ 0.1.0", "0.2.0"), "0.1.0 @ 0.1.0");
    assert_eq!(sync_readme_version("", "0.2.0"), "");
}

#[test]
fn a_sync_leaves_no_trace_of_the_one_before() {
    let package = "{\n  \"version\": \"0.1.0\"\n}\n";
    let readme = "c@0.1.0 and @0.1.0.4\n";
    for (sync, content) in [
        (sync_kotlin_versions as fn(&str, &str) -> String, GRADLE),
        (sync_package_version, package),
        (sync_readme_version, readme),
    ] {
        let once = sync(content, "10.20.30");
        assert_ne!(once, content);
        assert_eq!(sync(&once, "10.20.30"), once);
        assert_eq!(sync(&once, "0.2.0"), sync(content, "0.2.0"));
    }
}

#[test]
fn a_sync_leaves_no_trace_of_other_texts() {
    for first in ["", "1.0.0-rc.1+build", "99999999999.0.1", "latest"] {
        let once = sync_kotlin_versions(GRADLE, first);
        assert_eq!(sync_kotlin_versions(&once, "0.2.0"), sync_kotlin_versions(GRADLE, "0.2.0"));
        let package = "{\n  \"version\": \"0.1.0\"\n}\n";
        let once = sync_package_version(package, first);
        assert_eq!(sync_package_version(&once, "2-x"), sync_package_version(package, "2-x"));
    }
    let once = sync_readme_version("c@0.1.0\n", "99999999999.0.1");
    assert_eq!(once, "c@99999999999.0.1\n");
    assert_eq!(sync_readme_version(&once, "next"), "c@next\n");
}

#[test]
fn the_gradle_wrapper_is_patched() {
    assert_eq!(
        patch_gradle_wrapper("distributionUrl=https\\://x/gradle-8.14.3-bin.zip\n#8.14.3\n"),
        "distributionUrl=https\\://x/gradle-9.1.0-bin.zip\n#9.1.0\n"
    );
    let untouched = "gradle-8.14.4 8.8.14 8.14.";
    assert_eq!(patch_gradle_wrapper(untouched), untouched);
    assert_eq!(patch_gradle_wrapper("88.14.38.14.3"), "89.1.09.1.0");
    assert!(!patch_gradle_wrapper("8.18.14.34.3").contains("8.14.3"));
}
