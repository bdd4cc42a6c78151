//! Which language a repository is in, told from files on disk.

use crate::text::{
    contains, contains_str, ends_with, ends_with_str, law_contains, law_starts_and_ends, same_str,
    texts,
};
use vstd::prelude::*;

verus! {

/// What a repository is.
#[derive(Clone, Copy, Debug, PartialEq, Eq, Structural)]
pub enum RepoKind {
    Rust,
    Swift,
    Android,
    Kotlin,
    Js,
    Generic,
}

/// What the language is told from.
#[derive(Debug)]
pub struct RepoSnapshot {
    /// The names of the files and directories in the root of the repository.
    pub root: Vec<String>,
    /// What `build.gradle.kts` holds, if it is there.
    pub gradle: Option<String>,
    /// What `app/build.gradle.kts` holds, if it is there.
    pub app_gradle: Option<String>,
}

// ---------------------------------------------------------------------------
// The model
// ---------------------------------------------------------------------------

/// Whether one of the names ends in `.xcodeproj`.
pub open spec fn has_xcodeproj(root: Seq<Seq<char>>) -> bool {
    exists|i: int| 0 <= i < root.len() && ends_with(#[trigger] root[i], ".xcodeproj"@)
}

/// Whether a Gradle file is there and mentions this plugin.
pub open spec fn mentions(gradle: Option<String>, plugin: Seq<char>) -> bool {
    gradle is Some && contains(gradle->0@, plugin)
}

/// Whether one of the two Gradle files mentions this plugin.
pub open spec fn applies(repo: RepoSnapshot, plugin: Seq<char>) -> bool {
    mentions(repo.gradle, plugin) || mentions(repo.app_gradle, plugin)
}

/// What a repository is. The first sign that is there decides: `Cargo.toml`,
/// `Package.swift` or an Xcode project, an Android plugin, the Kotlin
/// multiplatform plugin, `package.json`.
pub open spec fn kind_of(repo: RepoSnapshot) -> RepoKind {
    let root = texts(repo.root@);
    if root.contains("Cargo.toml"@) {
        RepoKind::Rust
    } else if root.contains("Package.swift"@) || has_xcodeproj(root) {
        RepoKind::Swift
    } else if applies(repo, "com.android."@) {
        RepoKind::Android
    } else if applies(repo, "kotlin(\"multiplatform\")"@) {
        RepoKind::Kotlin
    } else if root.contains("package.json"@) {
        RepoKind::Js
    } else {
        RepoKind::Generic
    }
}

// ---------------------------------------------------------------------------
// The functions
// ---------------------------------------------------------------------------

/// Whether this name is in the list.
fn has_name(root: &Vec<String>, name: &str) -> (r: bool)
    ensures
        r == texts(root@).contains(name@),
{
    let mut i: usize = 0;
    while i < root.len()
        invariant
            i <= root@.len(),
            forall|j: int| 0 <= j < i ==> #[trigger] texts(root@)[j] != name@,
        decreases root@.len() - i,
    {
        assert(texts(root@)[i as int] == root@[i as int]@);
        if same_str(root[i].as_str(), name) {
            return true;
        }
        i = i + 1;
    }
    false
}

/// Whether one of the names ends in `.xcodeproj`.
fn finds_xcodeproj(root: &Vec<String>) -> (r: bool)
    ensures
        r == has_xcodeproj(texts(root@)),
{
    let mut i: usize = 0;
    while i < root.len()
        invariant
            i <= root@.len(),
            forall|j: int|
                0 <= j < i ==> !ends_with(#[trigger] texts(root@)[j], ".xcodeproj"@),
        decreases root@.len() - i,
    {
        assert(texts(root@)[i as int] == root@[i as int]@);
        if ends_with_str(root[i].as_str(), ".xcodeproj") {
            return true;
        }
        i = i + 1;
    }
    false
}

/// Whether a Gradle file is there and mentions this plugin.
fn gradle_mentions(gradle: &Option<String>, plugin: &str) -> (r: bool)
    ensures
        r == mentions(*gradle, plugin@),
{
    match gradle {
        Some(text) => contains_str(text.as_str(), plugin),
        None => false,
    }
}

/// Whether one of the two Gradle files mentions this plugin.
fn applies_plugin(repo: &RepoSnapshot, plugin: &str) -> (r: bool)
    ensures
        r == applies(*repo, plugin@),
{
    gradle_mentions(&repo.gradle, plugin) || gradle_mentions(&repo.app_gradle, plugin)
}

/// What a repository is.
pub fn detect_kind(repo: &RepoSnapshot) -> (r: RepoKind)
    ensures
        r == kind_of(*repo),
{
    if has_name(&repo.root, "Cargo.toml") {
        RepoKind::Rust
    } else if has_name(&repo.root, "Package.swift") || finds_xcodeproj(&repo.root) {
        RepoKind::Swift
    } else if applies_plugin(repo, "com.android.") {
        RepoKind::Android
    } else if applies_plugin(repo, "kotlin(\"multiplatform\")") {
        RepoKind::Kotlin
    } else if has_name(&repo.root, "package.json") {
        RepoKind::Js
    } else {
        RepoKind::Generic
    }
}

/// A repository with a `Cargo.toml` is a Rust repository, whatever else is in
/// it.
pub proof fn law_cargo_toml_wins(repo: RepoSnapshot)
    requires
        texts(repo.root@).contains("Cargo.toml"@),
    ensures
        kind_of(repo) == RepoKind::Rust,
{
}

/// The kind of any repository, by what is in it. The first of these decides:
/// the name `Cargo.toml`; the name `Package.swift`, or one that ends in
/// `.xcodeproj`; `com.android.` in one of the two Gradle files; the Kotlin
/// multiplatform plugin in one of them; the name `package.json`.
pub proof fn law_kind_by_priority(repo: RepoSnapshot)
    ensures
        ({
            let has = |name: Seq<char>|
                exists|i: int| 0 <= i < repo.root@.len() && (#[trigger] repo.root@[i])@ == name;
            let xcode = exists|i: int, x: Seq<char>|
                0 <= i < repo.root@.len() && (#[trigger] repo.root@[i])@ == #[trigger] (x
                    + ".xcodeproj"@);
            let plugin = |p: Seq<char>|
                holds_in(repo.gradle, p) || holds_in(repo.app_gradle, p);
            kind_of(repo) == if has("Cargo.toml"@) {
                RepoKind::Rust
            } else if has("Package.swift"@) || xcode {
                RepoKind::Swift
            } else if plugin("com.android."@) {
                RepoKind::Android
            } else if plugin("kotlin(\"multiplatform\")"@) {
                RepoKind::Kotlin
            } else if has("package.json"@) {
                RepoKind::Js
            } else {
                RepoKind::Generic
            }
        }),
{
    lemma_has(repo.root@, "Cargo.toml"@);
    lemma_has(repo.root@, "Package.swift"@);
    lemma_has(repo.root@, "package.json"@);
    lemma_mentions(repo.gradle, "com.android."@);
    lemma_mentions(repo.app_gradle, "com.android."@);
    lemma_mentions(repo.gradle, "kotlin(\"multiplatform\")"@);
    lemma_mentions(repo.app_gradle, "kotlin(\"multiplatform\")"@);
    let root = texts(repo.root@);
    let suffix = ".xcodeproj"@;
    if has_xcodeproj(root) {
        let i = choose|i: int| 0 <= i < root.len() && ends_with(#[trigger] root[i], suffix);
        law_starts_and_ends(root[i], suffix, Seq::empty());
        let x = root[i].take(root[i].len() - suffix.len());
        assert(repo.root@[i]@ == x + suffix);
    }
    if exists|i: int, x: Seq<char>|
        0 <= i < repo.root@.len() && (#[trigger] repo.root@[i])@ == #[trigger] (x + suffix) {
        let (i, x) = choose|i: int, x: Seq<char>|
            0 <= i < repo.root@.len() && (#[trigger] repo.root@[i])@ == #[trigger] (x + suffix);
        law_starts_and_ends(Seq::empty(), suffix, x);
        assert(ends_with(root[i], suffix));
    }
}

/// Whether a file is there and can be cut in two with this text between.
pub open spec fn holds_in(file: Option<String>, p: Seq<char>) -> bool {
    file is Some && exists|x: Seq<char>, y: Seq<char>| file->0@ == #[trigger] (x + p + y)
}

proof fn lemma_has(root: Seq<String>, name: Seq<char>)
    ensures
        texts(root).contains(name) <==> exists|i: int|
            0 <= i < root.len() && (#[trigger] root[i])@ == name,
{
    if texts(root).contains(name) {
        let i = choose|i: int| 0 <= i < texts(root).len() && texts(root)[i] == name;
        assert(root[i]@ == name);
    }
    if exists|i: int| 0 <= i < root.len() && (#[trigger] root[i])@ == name {
        let i = choose|i: int| 0 <= i < root.len() && (#[trigger] root[i])@ == name;
        assert(texts(root)[i] == name);
    }
}

proof fn lemma_mentions(file: Option<String>, p: Seq<char>)
    ensures
        mentions(file, p) <==> holds_in(file, p),
{
    if file is Some {
        law_contains(file->0@, p, Seq::empty(), Seq::empty());
        if holds_in(file, p) {
            let (x, y) = choose|x: Seq<char>, y: Seq<char>| file->0@ == #[trigger] (x + p + y);
            law_contains(file->0@, p, x, y);
        }
    }
}

} // verus!
