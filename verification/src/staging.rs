//! Staged files: what each of them is, and which of them the model gets to see.

use crate::globs::{ignored, is_ignored, matches_any, picked};
use crate::text::{decimal, push_decimal, texts, to_chars};
use vstd::prelude::*;

verus! {

/// One difference between HEAD and the index: the path of the file on either
/// side, if it has one, and whether it is binary there.
#[derive(Debug)]
pub struct FileDelta {
    pub new_path: Option<String>,
    pub old_path: Option<String>,
    pub new_binary: bool,
    pub old_binary: bool,
}

/// What a staged file is to the commit message.
#[derive(Clone, Copy, Debug, PartialEq, Eq, Structural)]
pub enum FileKind {
    /// Bytes that the model cannot read.
    Binary,
    /// Excluded by a pattern.
    Ignored,
    /// Markdown documentation.
    Markdown,
    /// Everything else: the model sees its diff.
    Real,
}

/// Where the commit message comes from.
#[derive(Debug)]
pub enum MessagePlan {
    /// The message is known: no file is for the model to read.
    Fixed(String),
    /// The model writes it from the diff of these paths, of which there is at
    /// least one.
    Ask(Vec<String>),
}

// ---------------------------------------------------------------------------
// The model
// ---------------------------------------------------------------------------

/// The staged files: the path of each, and whether it is binary.
pub open spec fn inventory(files: Seq<(String, bool)>) -> Seq<(Seq<char>, bool)> {
    files.map_values(|f: (String, bool)| (f.0@, f.1))
}

/// The path of the file that differs: the new one, or the old one where there
/// is no new one.
pub open spec fn delta_path(delta: FileDelta) -> Option<Seq<char>> {
    match (delta.new_path, delta.old_path) {
        (Some(path), _) => Some(path@),
        (None, Some(path)) => Some(path@),
        (None, None) => None,
    }
}

/// The staged files: of each difference the path, and whether the file is
/// binary on either side. Differences without a path are left out.
pub open spec fn delta_files(deltas: Seq<FileDelta>) -> Seq<(Seq<char>, bool)>
    decreases deltas.len(),
{
    if deltas.len() == 0 {
        Seq::empty()
    } else {
        let before = delta_files(deltas.drop_last());
        let delta = deltas.last();
        match delta_path(delta) {
            Some(path) => before.push((path, delta.new_binary || delta.old_binary)),
            None => before,
        }
    }
}

/// Whether each difference has a path.
pub open spec fn all_named(deltas: Seq<FileDelta>) -> bool {
    forall|i: int| 0 <= i < deltas.len() ==> delta_path(#[trigger] deltas[i]) is Some
}

/// The patterns of an optional list.
pub open spec fn patterns_of(globs: Option<&[String]>) -> Seq<Seq<char>> {
    match globs {
        Some(g) => texts(g@),
        None => Seq::empty(),
    }
}

/// Whether a path ends in `.md`, in upper or lower case.
pub open spec fn is_markdown(path: Seq<char>) -> bool {
    let n = path.len();
    &&& n >= 3
    &&& path[n - 3] == '.'
    &&& path[n - 2] == 'm' || path[n - 2] == 'M'
    &&& path[n - 1] == 'd' || path[n - 1] == 'D'
}

/// What a file is to a release: binary, excluded by `commitIgnore`, or real.
pub open spec fn release_kind(file: (Seq<char>, bool), globs: Seq<Seq<char>>) -> FileKind {
    if file.1 {
        FileKind::Binary
    } else if picked(globs, file.0) {
        FileKind::Ignored
    } else {
        FileKind::Real
    }
}

/// What a file is to the `commit` command: binary, ignored, Markdown, or real.
pub open spec fn commit_kind(file: (Seq<char>, bool), patterns: Seq<Seq<char>>) -> FileKind {
    if file.1 {
        FileKind::Binary
    } else if ignored(patterns, file.0) {
        FileKind::Ignored
    } else if is_markdown(file.0) {
        FileKind::Markdown
    } else {
        FileKind::Real
    }
}

/// What the `android` command calls a file in its report. Ignored files are
/// never staged there, so it has no such label.
pub open spec fn android_kind(file: (Seq<char>, bool)) -> FileKind {
    if file.1 {
        FileKind::Binary
    } else if is_markdown(file.0) {
        FileKind::Markdown
    } else {
        FileKind::Real
    }
}

pub open spec fn release_kinds(
    files: Seq<(Seq<char>, bool)>,
    globs: Seq<Seq<char>>,
) -> Seq<FileKind> {
    files.map_values(|f: (Seq<char>, bool)| release_kind(f, globs))
}

pub open spec fn commit_kinds(
    files: Seq<(Seq<char>, bool)>,
    patterns: Seq<Seq<char>>,
) -> Seq<FileKind> {
    files.map_values(|f: (Seq<char>, bool)| commit_kind(f, patterns))
}

pub open spec fn android_kinds(files: Seq<(Seq<char>, bool)>) -> Seq<FileKind> {
    files.map_values(|f: (Seq<char>, bool)| android_kind(f))
}

/// The paths of the files that are real, in their order.
pub open spec fn real_paths(files: Seq<(Seq<char>, bool)>, kinds: Seq<FileKind>) -> Seq<Seq<char>>
    recommends
        files.len() == kinds.len(),
    decreases files.len(),
{
    if files.len() == 0 {
        Seq::empty()
    } else {
        let before = real_paths(files.drop_last(), kinds.drop_last());
        if kinds.last() == FileKind::Real {
            before.push(files.last().0)
        } else {
            before
        }
    }
}

/// Whether one of the files is Markdown.
pub open spec fn has_markdown(files: Seq<(Seq<char>, bool)>) -> bool {
    exists|i: int| 0 <= i < files.len() && is_markdown(#[trigger] files[i].0)
}

/// Whether a plan is the right one where the model may read `paths`, and the
/// message is `otherwise` where it may read nothing.
pub open spec fn plan_is(
    plan: MessagePlan,
    paths: Seq<Seq<char>>,
    otherwise: Seq<char>,
) -> bool {
    match plan {
        MessagePlan::Fixed(message) => paths.len() == 0 && message@ == otherwise,
        MessagePlan::Ask(asked) => paths.len() > 0 && texts(asked@) == paths,
    }
}

/// The message of a commit without real files, as the `commit` and `android`
/// commands write it.
pub open spec fn quiet_message(files: Seq<(Seq<char>, bool)>) -> Seq<char> {
    if has_markdown(files) {
        "docs: update documentation"@
    } else {
        "chore: update"@
    }
}

/// The label of a kind, filled up to seven characters from the left.
pub open spec fn label(kind: FileKind) -> Seq<char> {
    match kind {
        FileKind::Binary => " binary"@,
        FileKind::Ignored => "ignored"@,
        FileKind::Markdown => "     md"@,
        FileKind::Real => "   REAL"@,
    }
}

/// The heading of the report on staged files.
pub open spec fn report_head(n: nat) -> Seq<char> {
    "[buidl] "@ + decimal(n) + " staged file(s):"@
}

/// The line of the report for one file.
pub open spec fn report_line(path: Seq<char>, kind: FileKind) -> Seq<char> {
    "[buidl]   "@ + label(kind) + "  "@ + path
}

/// The report on staged files: the heading, then one line for each.
pub open spec fn report(files: Seq<(Seq<char>, bool)>, kinds: Seq<FileKind>) -> Seq<Seq<char>> {
    seq![report_head(files.len())] + Seq::new(
        files.len(),
        |i: int| report_line(files[i].0, kinds[i]),
    )
}

// ---------------------------------------------------------------------------
// The functions
// ---------------------------------------------------------------------------

/// The staged files, without the differences that have no path.
pub fn known_files(deltas: &Vec<FileDelta>) -> (r: Vec<(String, bool)>)
    ensures
        inventory(r@) == delta_files(deltas@),
{
    let mut r: Vec<(String, bool)> = Vec::new();
    let mut i: usize = 0;
    assert(inventory(r@) =~= delta_files(deltas@.take(0)));
    while i < deltas.len()
        invariant
            i <= deltas@.len(),
            inventory(r@) == delta_files(deltas@.take(i as int)),
        decreases deltas@.len() - i,
    {
        let ghost was = r@;
        let delta = &deltas[i];
        let binary = delta.new_binary || delta.old_binary;
        match (&delta.new_path, &delta.old_path) {
            (Some(path), _) => r.push((path.clone(), binary)),
            (None, Some(path)) => r.push((path.clone(), binary)),
            (None, None) => {},
        }
        i = i + 1;
        assert(deltas@.take(i as int).drop_last() =~= deltas@.take(i - 1));
        assert(inventory(r@) =~= delta_files(deltas@.take(i as int)));
    }
    assert(deltas@.take(i as int) =~= deltas@);
    r
}

/// The staged files, or nothing where a difference has no path.
pub fn diff_files(deltas: &Vec<FileDelta>) -> (r: Option<Vec<(String, bool)>>)
    ensures
        match r {
            Some(files) => all_named(deltas@) && inventory(files@) == delta_files(deltas@),
            None => !all_named(deltas@),
        },
{
    let mut i: usize = 0;
    while i < deltas.len()
        invariant
            i <= deltas@.len(),
            forall|j: int| 0 <= j < i ==> delta_path(#[trigger] deltas@[j]) is Some,
        decreases deltas@.len() - i,
    {
        if deltas[i].new_path.is_none() && deltas[i].old_path.is_none() {
            assert(delta_path(deltas@[i as int]) is None);
            return None;
        }
        i = i + 1;
    }
    Some(known_files(deltas))
}

/// Whether a path ends in `.md`, in upper or lower case.
pub fn is_md(path: &str) -> (r: bool)
    ensures
        r == is_markdown(path@),
{
    let all = to_chars(path);
    let n = all.len();
    n >= 3 && all[n - 3] == '.' && (all[n - 2] == 'm' || all[n - 2] == 'M') && (all[n - 1] == 'd'
        || all[n - 1] == 'D')
}

/// What each staged file is to a release. Where the patterns hold `*`, none is
/// real.
pub fn kinds_for_release(files: &[(String, bool)], ignore_globs: Option<&[String]>) -> (r: Vec<
    FileKind,
>)
    ensures
        r@ == release_kinds(inventory(files@), patterns_of(ignore_globs)),
        patterns_of(ignore_globs).contains(seq!['*']) ==> forall|i: int|
            0 <= i < r@.len() ==> #[trigger] r@[i] != FileKind::Real,
{
    let ghost all = release_kinds(inventory(files@), patterns_of(ignore_globs));
    let mut r: Vec<FileKind> = Vec::new();
    let mut i: usize = 0;
    while i < files.len()
        invariant
            i <= files@.len(),
            all == release_kinds(inventory(files@), patterns_of(ignore_globs)),
            r@ == all.take(i as int),
            patterns_of(ignore_globs).contains(seq!['*']) ==> forall|j: int|
                0 <= j < i ==> #[trigger] r@[j] != FileKind::Real,
        decreases files@.len() - i,
    {
        let kind = if files[i].1 {
            FileKind::Binary
        } else {
            let out = match ignore_globs {
                Some(g) => matches_any(g, files[i].0.as_str()),
                None => false,
            };
            if out {
                FileKind::Ignored
            } else {
                FileKind::Real
            }
        };
        assert(inventory(files@)[i as int] == (files@[i as int].0@, files@[i as int].1));
        assert(kind == all[i as int]);
        r.push(kind);
        i = i + 1;
        assert(all.take(i as int) =~= all.take(i - 1).push(all[i - 1]));
    }
    assert(all.take(i as int) =~= all);
    r
}

/// What each staged file is to the `commit` command.
pub fn kinds_for_commit(files: &[(String, bool)], patterns: &[String]) -> (r: Vec<FileKind>)
    ensures
        r@ == commit_kinds(inventory(files@), texts(patterns@)),
{
    let ghost all = commit_kinds(inventory(files@), texts(patterns@));
    let mut r: Vec<FileKind> = Vec::new();
    let mut i: usize = 0;
    while i < files.len()
        invariant
            i <= files@.len(),
            all == commit_kinds(inventory(files@), texts(patterns@)),
            r@ == all.take(i as int),
        decreases files@.len() - i,
    {
        let kind = if files[i].1 {
            FileKind::Binary
        } else if is_ignored(patterns, files[i].0.as_str()) {
            FileKind::Ignored
        } else if is_md(files[i].0.as_str()) {
            FileKind::Markdown
        } else {
            FileKind::Real
        };
        assert(inventory(files@)[i as int] == (files@[i as int].0@, files@[i as int].1));
        assert(kind == all[i as int]);
        r.push(kind);
        i = i + 1;
        assert(all.take(i as int) =~= all.take(i - 1).push(all[i - 1]));
    }
    assert(all.take(i as int) =~= all);
    r
}

/// What the `android` command calls each staged file in its report.
pub fn kinds_for_android(files: &[(String, bool)]) -> (r: Vec<FileKind>)
    ensures
        r@ == android_kinds(inventory(files@)),
{
    let ghost all = android_kinds(inventory(files@));
    let mut r: Vec<FileKind> = Vec::new();
    let mut i: usize = 0;
    while i < files.len()
        invariant
            i <= files@.len(),
            all == android_kinds(inventory(files@)),
            r@ == all.take(i as int),
        decreases files@.len() - i,
    {
        let kind = if files[i].1 {
            FileKind::Binary
        } else if is_md(files[i].0.as_str()) {
            FileKind::Markdown
        } else {
            FileKind::Real
        };
        assert(inventory(files@)[i as int] == (files@[i as int].0@, files@[i as int].1));
        assert(kind == all[i as int]);
        r.push(kind);
        i = i + 1;
        assert(all.take(i as int) =~= all.take(i - 1).push(all[i - 1]));
    }
    assert(all.take(i as int) =~= all);
    r
}

/// The paths of the files that are real, in their order.
fn paths_to_show(files: &[(String, bool)], kinds: &Vec<FileKind>) -> (r: Vec<String>)
    requires
        files@.len() == kinds@.len(),
    ensures
        texts(r@) == real_paths(inventory(files@), kinds@),
{
    let ghost all = inventory(files@);
    let mut r: Vec<String> = Vec::new();
    let mut i: usize = 0;
    assert(texts(r@) =~= real_paths(all.take(0), kinds@.take(0)));
    while i < files.len()
        invariant
            i <= files@.len(),
            files@.len() == kinds@.len(),
            all == inventory(files@),
            texts(r@) == real_paths(all.take(i as int), kinds@.take(i as int)),
        decreases files@.len() - i,
    {
        let ghost was = r@;
        assert(all.take(i + 1).drop_last() =~= all.take(i as int));
        assert(kinds@.take(i + 1).drop_last() =~= kinds@.take(i as int));
        assert(all[i as int].0 == files@[i as int].0@);
        if kinds[i] == FileKind::Real {
            r.push(files[i].0.clone());
            assert(texts(r@) =~= texts(was).push(files@[i as int].0@));
        }
        i = i + 1;
    }
    assert(all.take(i as int) =~= all);
    assert(kinds@.take(i as int) =~= kinds@);
    r
}

/// Where the message of a release commit comes from: the model, which sees
/// every staged file that is neither binary nor excluded by `commitIgnore`, or
/// `chore: update` where that leaves nothing. In particular the pattern `*`
/// leaves nothing.
pub fn commit_msg_for_diff(files: &[(String, bool)], ignore_globs: Option<&[String]>) -> (r:
    MessagePlan)
    ensures
        plan_is(
            r,
            real_paths(
                inventory(files@),
                release_kinds(inventory(files@), patterns_of(ignore_globs)),
            ),
            "chore: update"@,
        ),
        patterns_of(ignore_globs).contains(seq!['*']) ==> r is Fixed,
{
    let kinds = kinds_for_release(files, ignore_globs);
    let paths = paths_to_show(files, &kinds);
    proof {
        if patterns_of(ignore_globs).contains(seq!['*']) {
            lemma_nothing_real(inventory(files@), kinds@);
        }
        assert(texts(paths@).len() == paths@.len());
    }
    if paths.len() == 0 {
        MessagePlan::Fixed("chore: update".to_owned())
    } else {
        MessagePlan::Ask(paths)
    }
}

/// Where the message comes from in the `commit` and `android` commands: the
/// model, which sees the real files, or a fixed message where there are none.
pub fn commit_msg_for_staged(files: &[(String, bool)], patterns: &[String]) -> (r: MessagePlan)
    ensures
        plan_is(
            r,
            real_paths(
                inventory(files@),
                commit_kinds(inventory(files@), texts(patterns@)),
            ),
            quiet_message(inventory(files@)),
        ),
{
    let kinds = kinds_for_commit(files, patterns);
    let paths = paths_to_show(files, &kinds);
    assert(texts(paths@).len() == paths@.len());
    if paths.len() > 0 {
        return MessagePlan::Ask(paths);
    }
    let mut i: usize = 0;
    while i < files.len()
        invariant
            i <= files@.len(),
            real_paths(
                inventory(files@),
                commit_kinds(inventory(files@), texts(patterns@)),
            ).len() == 0,
            forall|j: int| 0 <= j < i ==> !is_markdown(#[trigger] inventory(files@)[j].0),
        decreases files@.len() - i,
    {
        assert(inventory(files@)[i as int].0 == files@[i as int].0@);
        if is_md(files[i].0.as_str()) {
            return MessagePlan::Fixed("docs: update documentation".to_owned());
        }
        i = i + 1;
    }
    MessagePlan::Fixed("chore: update".to_owned())
}

/// The label of a kind in the report.
fn label_of(kind: FileKind) -> (r: &'static str)
    ensures
        r@ == label(kind),
{
    match kind {
        FileKind::Binary => " binary",
        FileKind::Ignored => "ignored",
        FileKind::Markdown => "     md",
        FileKind::Real => "   REAL",
    }
}

/// The staged-file inventory of a release, one line per path with whether the
/// file reaches the model.
pub fn print_staged(files: &[(String, bool)], ignore_globs: Option<&[String]>) -> (r: Vec<String>)
    ensures
        texts(r@) == report(
            inventory(files@),
            release_kinds(inventory(files@), patterns_of(ignore_globs)),
        ),
{
    let kinds = kinds_for_release(files, ignore_globs);
    staged_report(files, &kinds)
}

/// The staged-file inventory, one line per path with what the file is.
pub fn staged_report(files: &[(String, bool)], kinds: &Vec<FileKind>) -> (r: Vec<String>)
    requires
        files@.len() == kinds@.len(),
    ensures
        texts(r@) == report(inventory(files@), kinds@),
{
    let ghost all = report(inventory(files@), kinds@);
    let mut head: String = "[buidl] ".to_owned();
    push_decimal(&mut head, files.len() as u64);
    head.append(" staged file(s):");
    let mut r: Vec<String> = Vec::new();
    r.push(head);
    assert(texts(r@) =~= all.take(1));
    let mut i: usize = 0;
    while i < files.len()
        invariant
            i <= files@.len(),
            files@.len() == kinds@.len(),
            all == report(inventory(files@), kinds@),
            texts(r@) == all.take(i + 1),
        decreases files@.len() - i,
    {
        let ghost was = r@;
        let mut line: String = "[buidl]   ".to_owned();
        line.append(label_of(kinds[i]));
        line.append("  ");
        line.append(files[i].0.as_str());
        r.push(line);
        i = i + 1;
        assert(inventory(files@)[i - 1].0 == files@[i - 1].0@);
        assert(all[i as int] == line@);
        assert(texts(r@) =~= texts(was).push(line@));
        assert(all.take(i + 1) =~= all.take(i as int).push(all[i as int]));
    }
    assert(all.take(i + 1) =~= all);
    r
}

// ---------------------------------------------------------------------------
// Facts and laws
// ---------------------------------------------------------------------------

/// Where each difference has a path, there is one staged file for each, in
/// their order.
pub proof fn law_one_file_per_difference(deltas: Seq<FileDelta>)
    requires
        all_named(deltas),
    ensures
        delta_files(deltas) == deltas.map_values(
            |d: FileDelta| (delta_path(d)->0, d.new_binary || d.old_binary),
        ),
    decreases deltas.len(),
{
    let f = |d: FileDelta| (delta_path(d)->0, d.new_binary || d.old_binary);
    if deltas.len() > 0 {
        let rest = deltas.drop_last();
        assert forall|i: int| 0 <= i < rest.len() implies delta_path(#[trigger] rest[i]) is Some by {
            assert(rest[i] == deltas[i]);
        }
        law_one_file_per_difference(rest);
        assert(delta_path(deltas[deltas.len() - 1]) is Some);
        assert(delta_files(deltas) =~= rest.map_values(f).push(f(deltas.last())));
        assert(deltas.map_values(f) =~= rest.map_values(f).push(f(deltas.last())));
    } else {
        assert(deltas.map_values(f) =~= Seq::empty());
    }
}

proof fn lemma_nothing_real(files: Seq<(Seq<char>, bool)>, kinds: Seq<FileKind>)
    requires
        files.len() == kinds.len(),
        forall|i: int| 0 <= i < kinds.len() ==> #[trigger] kinds[i] != FileKind::Real,
    ensures
        real_paths(files, kinds).len() == 0,
    decreases files.len(),
{
    if files.len() > 0 {
        assert(kinds[kinds.len() - 1] == kinds.last());
        assert forall|i: int| 0 <= i < kinds.drop_last().len() implies #[trigger] kinds.drop_last()[i]
            != FileKind::Real by {
            assert(kinds.drop_last()[i] == kinds[i]);
        }
        lemma_nothing_real(files.drop_last(), kinds.drop_last());
    }
}

/// The model sees no path but that of a staged file that is real.
pub proof fn law_only_real_files_are_shown(
    files: Seq<(Seq<char>, bool)>,
    kinds: Seq<FileKind>,
    path: Seq<char>,
)
    requires
        files.len() == kinds.len(),
    ensures
        real_paths(files, kinds).contains(path) <==> exists|i: int|
            0 <= i < files.len() && (#[trigger] files[i]).0 == path && kinds[i] == FileKind::Real,
    decreases files.len(),
{
    if files.len() > 0 {
        let n = files.len() - 1;
        let before = real_paths(files.drop_last(), kinds.drop_last());
        let shown = real_paths(files, kinds);
        law_only_real_files_are_shown(files.drop_last(), kinds.drop_last(), path);
        if shown.contains(path) {
            let k = choose|k: int| 0 <= k < shown.len() && shown[k] == path;
            if k < before.len() {
                assert(before[k] == path);
                let i = choose|i: int|
                    0 <= i < n && (#[trigger] files.drop_last()[i]).0 == path
                        && kinds.drop_last()[i] == FileKind::Real;
                assert(files[i].0 == path);
            } else {
                assert(files[n].0 == path);
            }
        }
        if exists|i: int|
            0 <= i < files.len() && (#[trigger] files[i]).0 == path && kinds[i] == FileKind::Real {
            let i = choose|i: int|
                0 <= i < files.len() && (#[trigger] files[i]).0 == path && kinds[i]
                    == FileKind::Real;
            if i < n {
                assert(files.drop_last()[i].0 == path);
                let k = choose|k: int| 0 <= k < before.len() && before[k] == path;
                assert(shown[k] == path);
            } else {
                assert(shown[shown.len() - 1] == path);
            }
        }
    }
}

/// Where every staged file is binary, no file is for the model to read, in a
/// release and in the other commands.
pub proof fn law_binary_files_are_not_shown(
    files: Seq<(Seq<char>, bool)>,
    patterns: Seq<Seq<char>>,
)
    requires
        forall|i: int| 0 <= i < files.len() ==> (#[trigger] files[i]).1,
    ensures
        real_paths(files, release_kinds(files, patterns)).len() == 0,
        real_paths(files, commit_kinds(files, patterns)).len() == 0,
{
    lemma_nothing_real(files, release_kinds(files, patterns));
    lemma_nothing_real(files, commit_kinds(files, patterns));
}

/// A difference gives one staged file: under its new path, or under the old one
/// where it has no new one, and binary where it is so on either side. Without
/// a path it gives none. Differences give their files one by one.
pub proof fn law_files_of_differences(a: Seq<FileDelta>, b: Seq<FileDelta>, d: FileDelta)
    ensures
        delta_files(a + b) == delta_files(a) + delta_files(b),
        delta_files(Seq::empty()) == Seq::<(Seq<char>, bool)>::empty(),
        ({
            let files = delta_files(seq![d]);
            let binary = d.new_binary || d.old_binary;
            &&& d.new_path is Some ==> files == seq![(d.new_path->0@, binary)]
            &&& d.new_path is None && d.old_path is Some ==> files == seq![(d.old_path->0@, binary)]
            &&& d.new_path is None && d.old_path is None ==> files.len() == 0
        }),
        all_named(a) <==> forall|i: int|
            0 <= i < a.len() ==> (#[trigger] a[i]).new_path is Some || a[i].old_path is Some,
    decreases b.len(),
{
    let one = seq![d];
    let none = Seq::<(Seq<char>, bool)>::empty();
    assert(one.drop_last() =~= Seq::<FileDelta>::empty());
    assert(delta_files(one.drop_last()) =~= none);
    assert(forall|x: (Seq<char>, bool)| #[trigger] none.push(x) =~= seq![x]);
    if all_named(a) {
        assert forall|i: int| 0 <= i < a.len() implies (#[trigger] a[i]).new_path is Some
            || a[i].old_path is Some by {
            assert(delta_path(a[i]) is Some);
        }
    }
    if b.len() == 0 {
        assert(a + b =~= a);
        assert(delta_files(a) + delta_files(b) =~= delta_files(a));
    } else {
        assert((a + b).drop_last() =~= a + b.drop_last());
        assert((a + b).last() == b.last());
        law_files_of_differences(a, b.drop_last(), d);
        assert(delta_files(a + b) =~= delta_files(a) + delta_files(b));
    }
}

/// The staged files are taken as they are, one by one.
pub proof fn law_inventory(files: Seq<(String, bool)>, i: int)
    ensures
        inventory(files).len() == files.len(),
        0 <= i < files.len() ==> inventory(files)[i] == (files[i].0@, files[i].1),
{
}

/// A path is Markdown exactly where it ends in a dot, an `m` and a `d`, each
/// letter in either case.
pub proof fn law_markdown(stem: Seq<char>, path: Seq<char>)
    ensures
        is_markdown(stem + seq!['.', 'm', 'd']),
        is_markdown(stem + seq!['.', 'M', 'D']),
        is_markdown(stem + seq!['.', 'm', 'D']),
        is_markdown(stem + seq!['.', 'M', 'd']),
        is_markdown(path) ==> exists|x: Seq<char>, m: char, d: char|
            (m == 'm' || m == 'M') && (d == 'd' || d == 'D') && path == x + #[trigger] seq!['.', m, d],
{
    if is_markdown(path) {
        let n = path.len();
        let x = path.take(n - 3);
        let m = path[n - 2];
        let d = path[n - 1];
        assert(path =~= x + seq!['.', m, d]);
    }
}

/// To a release a file is binary where it is, ignored where it is not but a
/// pattern picks it out, and real in all other cases.
pub proof fn law_release_kinds(files: Seq<(Seq<char>, bool)>, globs: Seq<Seq<char>>, i: int)
    requires
        0 <= i < files.len(),
    ensures
        release_kinds(files, globs).len() == files.len(),
        release_kinds(files, globs)[i] is Binary <==> files[i].1,
        release_kinds(files, globs)[i] is Ignored <==> !files[i].1 && picked(globs, files[i].0),
        release_kinds(files, globs)[i] is Real <==> !files[i].1 && !picked(globs, files[i].0),
{
}

/// To the `commit` and `android` commands Markdown is apart as well.
pub proof fn law_commit_kinds(files: Seq<(Seq<char>, bool)>, patterns: Seq<Seq<char>>, i: int)
    requires
        0 <= i < files.len(),
    ensures
        ({
            let kinds = commit_kinds(files, patterns);
            let (path, binary) = files[i];
            &&& kinds.len() == files.len()
            &&& kinds[i] is Binary <==> binary
            &&& kinds[i] is Ignored <==> !binary && ignored(patterns, path)
            &&& kinds[i] is Markdown <==> !binary && !ignored(patterns, path) && is_markdown(path)
            &&& kinds[i] is Real <==> !binary && !ignored(patterns, path) && !is_markdown(path)
        }),
        ({
            let kinds = android_kinds(files);
            let (path, binary) = files[i];
            &&& kinds.len() == files.len()
            &&& kinds[i] is Binary <==> binary
            &&& kinds[i] is Markdown <==> !binary && is_markdown(path)
            &&& kinds[i] is Real <==> !binary && !is_markdown(path)
        }),
{
}

/// The files that are shown among two lists are those among the first and then
/// those among the second, and a single file is shown exactly where it is real.
/// So the files that are shown keep their order.
pub proof fn law_real_paths_one_by_one(
    a: Seq<(Seq<char>, bool)>,
    ka: Seq<FileKind>,
    b: Seq<(Seq<char>, bool)>,
    kb: Seq<FileKind>,
    file: (Seq<char>, bool),
    kind: FileKind,
)
    requires
        a.len() == ka.len(),
        b.len() == kb.len(),
    ensures
        real_paths(a + b, ka + kb) == real_paths(a, ka) + real_paths(b, kb),
        real_paths(seq![file], seq![kind]) == if kind == FileKind::Real {
            seq![file.0]
        } else {
            Seq::empty()
        },
        real_paths(Seq::empty(), Seq::empty()) == Seq::<Seq<char>>::empty(),
    decreases b.len(),
{
    let one = seq![file];
    let none = Seq::<Seq<char>>::empty();
    assert(one.drop_last() =~= Seq::<(Seq<char>, bool)>::empty());
    assert(real_paths(one.drop_last(), seq![kind].drop_last()) =~= none);
    assert(none.push(file.0) =~= seq![file.0]);
    if b.len() == 0 {
        assert(a + b =~= a);
        assert(ka + kb =~= ka);
        assert(real_paths(a, ka) + real_paths(b, kb) =~= real_paths(a, ka));
    } else {
        assert((a + b).drop_last() =~= a + b.drop_last());
        assert((ka + kb).drop_last() =~= ka + kb.drop_last());
        assert((a + b).last() == b.last());
        assert((ka + kb).last() == kb.last());
        law_real_paths_one_by_one(a, ka, b.drop_last(), kb.drop_last(), file, kind);
        assert(real_paths(a + b, ka + kb) =~= real_paths(a, ka) + real_paths(b, kb));
    }
}

/// A release shows the model exactly those staged files that are not binary and
/// that no pattern of `commitIgnore` picks out.
pub proof fn law_what_a_release_shows(
    files: Seq<(Seq<char>, bool)>,
    globs: Seq<Seq<char>>,
    path: Seq<char>,
)
    ensures
        real_paths(files, release_kinds(files, globs)).contains(path) <==> files.contains(
            (path, false),
        ) && !picked(globs, path),
{
    let kinds = release_kinds(files, globs);
    law_only_real_files_are_shown(files, kinds, path);
    if real_paths(files, kinds).contains(path) {
        let i = choose|i: int|
            0 <= i < files.len() && (#[trigger] files[i]).0 == path && kinds[i] == FileKind::Real;
        assert(files[i] == (path, false));
    }
    if files.contains((path, false)) && !picked(globs, path) {
        let i = choose|i: int| 0 <= i < files.len() && files[i] == (path, false);
        assert(files[i].0 == path && kinds[i] == FileKind::Real);
    }
}

/// The other two commands show it exactly those that are not binary, not
/// ignored and not Markdown.
pub proof fn law_what_a_command_shows(
    files: Seq<(Seq<char>, bool)>,
    patterns: Seq<Seq<char>>,
    path: Seq<char>,
)
    ensures
        real_paths(files, commit_kinds(files, patterns)).contains(path) <==> files.contains(
            (path, false),
        ) && !ignored(patterns, path) && !is_markdown(path),
{
    let kinds = commit_kinds(files, patterns);
    law_only_real_files_are_shown(files, kinds, path);
    if real_paths(files, kinds).contains(path) {
        let i = choose|i: int|
            0 <= i < files.len() && (#[trigger] files[i]).0 == path && kinds[i] == FileKind::Real;
        assert(files[i] == (path, false));
    }
    if files.contains((path, false)) && !ignored(patterns, path) && !is_markdown(path) {
        let i = choose|i: int| 0 <= i < files.len() && files[i] == (path, false);
        assert(files[i].0 == path && kinds[i] == FileKind::Real);
    }
}

/// A commit without real files is one of documentation exactly where one of
/// its files is Markdown, binary or not.
pub proof fn law_quiet_message(files: Seq<(Seq<char>, bool)>)
    ensures
        (exists|i: int| 0 <= i < files.len() && is_markdown((#[trigger] files[i]).0))
            ==> quiet_message(files) == "docs: update documentation"@,
        (forall|i: int| 0 <= i < files.len() ==> !is_markdown((#[trigger] files[i]).0))
            ==> quiet_message(files) == "chore: update"@,
{
    if exists|i: int| 0 <= i < files.len() && is_markdown((#[trigger] files[i]).0) {
        let i = choose|i: int| 0 <= i < files.len() && is_markdown((#[trigger] files[i]).0);
        assert(is_markdown(files[i].0));
    }
}

/// The model is asked about exactly the paths that it may read, and only where
/// there is one; else the message is the fixed one.
pub proof fn law_plan(plan: MessagePlan, paths: Seq<Seq<char>>, otherwise: Seq<char>)
    requires
        plan_is(plan, paths, otherwise),
    ensures
        paths.len() == 0 ==> (plan matches MessagePlan::Fixed(message) && message@ == otherwise),
        paths.len() > 0 ==> (plan matches MessagePlan::Ask(asked) && texts(asked@) == paths),
{
}

/// The report has a heading with the number of files, and then a line for each
/// file, with its label and its path, in their order.
pub proof fn law_report(files: Seq<(Seq<char>, bool)>, kinds: Seq<FileKind>, i: int)
    requires
        files.len() == kinds.len(),
    ensures
        report(files, kinds).len() == files.len() + 1,
        report(files, kinds)[0] == "[buidl] "@ + decimal(files.len()) + " staged file(s):"@,
        0 <= i < files.len() ==> report(files, kinds)[i + 1] == "[buidl]   "@ + (match kinds[i] {
            FileKind::Binary => " binary"@,
            FileKind::Ignored => "ignored"@,
            FileKind::Markdown => "     md"@,
            FileKind::Real => "   REAL"@,
        }) + "  "@ + files[i].0,
{
}

/// The patterns of a list are its texts, and without a list there are none.
pub proof fn law_patterns_of(globs: Option<&[String]>)
    ensures
        globs is Some ==> patterns_of(globs) == texts(globs->0@),
        globs is None ==> patterns_of(globs).len() == 0,
{
}

} // verus!
