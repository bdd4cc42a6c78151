//! Release tags: reading them, ordering them, and cutting the next one.

use crate::text::{
    decimal, is_digit, lemma_decimal_value, lemma_join_split, lemma_parse_decimal, lemma_split_head,
    lemma_split_none, of_chars, parse_u32, part, pieces, push_decimal, same_str, split, split_char,
    texts, to_chars, u32_of_chars,
};
use vstd::prelude::*;

verus! {

/// First tag a release cuts when no tag exists yet. Pre-1.0 signals the API
/// isn't stable: bump major to 1.0.0 when you'd feel bad breaking it.
pub const DEFAULT_VERSION: &'static str = "v0.1.0";

/// A version: major, minor and patch.
#[derive(Clone, Copy, Debug, PartialEq, Eq, Structural)]
pub struct Semver {
    pub major: u32,
    pub minor: u32,
    pub patch: u32,
}

/// Why a tag is not a version.
#[derive(Clone, Copy, Debug, PartialEq, Eq, Structural)]
pub enum TagProblem {
    MissingMinor,
    MissingPatch,
    MajorNotU32,
    MinorNotU32,
    PatchNotU32,
    TooManyParts,
}

/// How much of a tag has to be a version.
#[derive(Clone, Copy, Debug, PartialEq, Eq, Structural)]
pub enum Reading {
    /// All of it: `vX.Y.Z` or `X.Y.Z`, and nothing else.
    Whole,
    /// Its first three parts: what follows a third dot is not looked at.
    Leading,
}

/// Why no new tag can be cut.
#[derive(Debug)]
pub enum TagError {
    /// This tag of the repository is not a version.
    Malformed { tag: String, problem: TagProblem },
    /// The part that is to be raised is already the largest 32-bit number.
    Overflow,
}

// ---------------------------------------------------------------------------
// The model
// ---------------------------------------------------------------------------

/// A tag without the one leading `v` that it may have.
pub open spec fn bare(tag: Seq<char>) -> Seq<char> {
    if tag.len() > 0 && tag[0] == 'v' {
        tag.drop_first()
    } else {
        tag
    }
}

/// The version in the first three of the parts between the dots of a tag, which
/// may have a leading `v`. What follows a third dot is not looked at.
pub open spec fn leading_version(tag: Seq<char>) -> Result<Semver, TagProblem> {
    let parts = split(bare(tag), '.');
    if parts.len() < 2 {
        Err(TagProblem::MissingMinor)
    } else if parts.len() < 3 {
        Err(TagProblem::MissingPatch)
    } else {
        match (parse_u32(parts[0]), parse_u32(parts[1]), parse_u32(parts[2])) {
            (Some(major), Some(minor), Some(patch)) => Ok(Semver { major, minor, patch }),
            (None, _, _) => Err(TagProblem::MajorNotU32),
            (Some(_), None, _) => Err(TagProblem::MinorNotU32),
            (Some(_), Some(_), None) => Err(TagProblem::PatchNotU32),
        }
    }
}

/// The version that a tag names, `vX.Y.Z` or `X.Y.Z`: it has these three parts
/// and no other.
pub open spec fn parse_tag(tag: Seq<char>) -> Result<Semver, TagProblem> {
    match leading_version(tag) {
        Ok(v) => if split(bare(tag), '.').len() > 3 {
            Err(TagProblem::TooManyParts)
        } else {
            Ok(v)
        },
        Err(problem) => Err(problem),
    }
}

/// The version of a tag, read in this way.
pub open spec fn version_of(tag: Seq<char>, how: Reading) -> Result<Semver, TagProblem> {
    match how {
        Reading::Whole => parse_tag(tag),
        Reading::Leading => leading_version(tag),
    }
}

/// Whether a tag names a version.
pub open spec fn is_semver(tag: Seq<char>) -> bool {
    parse_tag(tag) is Ok
}

/// The order of versions: by major, then minor, then patch.
pub open spec fn older(a: Semver, b: Semver) -> bool {
    ||| a.major < b.major
    ||| a.major == b.major && a.minor < b.minor
    ||| a.major == b.major && a.minor == b.minor && a.patch < b.patch
}

/// The versions of the tags, read in this way, in the order of the tags and
/// without those tags that have none.
pub open spec fn versions(tags: Seq<Seq<char>>, how: Reading) -> Seq<Semver>
    decreases tags.len(),
{
    if tags.len() == 0 {
        Seq::empty()
    } else {
        match version_of(tags.last(), how) {
            Ok(v) => versions(tags.drop_last(), how).push(v),
            Err(_) => versions(tags.drop_last(), how),
        }
    }
}

/// The newest of the versions, if there is one.
pub open spec fn newest(all: Seq<Semver>) -> Option<Semver>
    decreases all.len(),
{
    if all.len() == 0 {
        None
    } else {
        match newest(all.drop_last()) {
            Some(v) if older(all.last(), v) => Some(v),
            _ => Some(all.last()),
        }
    }
}

/// The newest version that the tags name, if one names any.
pub open spec fn newest_tag(tags: Seq<Seq<char>>) -> Option<Semver> {
    newest(versions(tags, Reading::Whole))
}

/// The newest version that the tags begin with, if one begins with any.
pub open spec fn newest_leading(tags: Seq<Seq<char>>) -> Option<Semver> {
    newest(versions(tags, Reading::Leading))
}

/// The version without the leading `v`: `X.Y.Z`.
pub open spec fn bare_text(v: Semver) -> Seq<char> {
    decimal(v.major as nat) + seq!['.'] + decimal(v.minor as nat) + seq!['.'] + decimal(
        v.patch as nat,
    )
}

/// The tag of a version: `vX.Y.Z`.
pub open spec fn tag_text(v: Semver) -> Seq<char> {
    seq!['v'] + bare_text(v)
}

/// The version one step on: `major` and `minor` raise that part and set those
/// behind it to zero, anything else raises the patch. `None` where the part
/// to be raised has no successor.
pub open spec fn bumped(v: Semver, kind: Seq<char>) -> Option<Semver> {
    if kind == "major"@ {
        if v.major < u32::MAX {
            Some(Semver { major: (v.major + 1) as u32, minor: 0, patch: 0 })
        } else {
            None
        }
    } else if kind == "minor"@ {
        if v.minor < u32::MAX {
            Some(Semver { major: v.major, minor: (v.minor + 1) as u32, patch: 0 })
        } else {
            None
        }
    } else {
        if v.patch < u32::MAX {
            Some(Semver { major: v.major, minor: v.minor, patch: (v.patch + 1) as u32 })
        } else {
            None
        }
    }
}

/// The tag that follows the newest version, or the first tag of all. `None`
/// where the newest version has no successor of this kind.
pub open spec fn next_tag(last: Option<Semver>, kind: Seq<char>) -> Option<Seq<char>> {
    match last {
        None => Some(DEFAULT_VERSION@),
        Some(v) => match bumped(v, kind) {
            Some(next) => Some(tag_text(next)),
            None => None,
        },
    }
}

/// The place of the first tag that names no version, or the number of tags.
pub open spec fn first_malformed(tags: Seq<Seq<char>>) -> int
    decreases tags.len(),
{
    if tags.len() == 0 || !is_semver(tags[0]) {
        0
    } else {
        1 + first_malformed(tags.drop_first())
    }
}

/// Whether every tag names a version.
pub open spec fn all_semver(tags: Seq<Seq<char>>) -> bool {
    forall|i: int| 0 <= i < tags.len() ==> is_semver(#[trigger] tags[i])
}

/// Whether this is why `compute_new_tag` cannot cut a tag.
pub open spec fn tag_error_is(tags: Seq<Seq<char>>, kind: Seq<char>, e: TagError) -> bool {
    match e {
        TagError::Malformed { tag, problem } => {
            let i = first_malformed(tags);
            &&& 0 <= i < tags.len()
            &&& tag@ == tags[i]
            &&& parse_tag(tag@) == Err::<Semver, TagProblem>(problem)
        },
        TagError::Overflow => all_semver(tags) && next_tag(newest_tag(tags), kind) is None,
    }
}

/// The newest version among the tags, without a leading `v`, or that of
/// `DEFAULT_VERSION`.
pub open spec fn last_text(tags: Seq<Seq<char>>) -> Seq<char> {
    match newest_tag(tags) {
        Some(v) => bare_text(v),
        None => bare(DEFAULT_VERSION@),
    }
}

// ---------------------------------------------------------------------------
// The functions
// ---------------------------------------------------------------------------

/// The version that a tag names, or what is wrong with the tag.
pub fn read_tag(tag: &str) -> (r: Result<Semver, TagProblem>)
    ensures
        r == parse_tag(tag@),
{
    read_tag_as(tag, Reading::Whole)
}

/// The version of a tag, read in this way, or what is wrong with the tag.
fn read_tag_as(tag: &str, how: Reading) -> (r: Result<Semver, TagProblem>)
    ensures
        r == version_of(tag@, how),
{
    let all = to_chars(tag);
    let from: usize = if all.len() > 0 && all[0] == 'v' {
        1
    } else {
        0
    };
    let body = part(all.as_slice(), from, all.len());
    assert(body@ =~= bare(tag@));
    let parts = split_char(body, '.');
    assert(pieces(parts@).len() == parts@.len());
    if parts.len() < 2 {
        return Err(TagProblem::MissingMinor);
    }
    if parts.len() < 3 {
        return Err(TagProblem::MissingPatch);
    }
    assert(pieces(parts@)[0] == parts@[0]@);
    assert(pieces(parts@)[1] == parts@[1]@);
    assert(pieces(parts@)[2] == parts@[2]@);
    let major = match u32_of_chars(parts[0].as_slice()) {
        Some(n) => n,
        None => return Err(TagProblem::MajorNotU32),
    };
    let minor = match u32_of_chars(parts[1].as_slice()) {
        Some(n) => n,
        None => return Err(TagProblem::MinorNotU32),
    };
    let patch = match u32_of_chars(parts[2].as_slice()) {
        Some(n) => n,
        None => return Err(TagProblem::PatchNotU32),
    };
    if how == Reading::Whole && parts.len() > 3 {
        return Err(TagProblem::TooManyParts);
    }
    Ok(Semver { major, minor, patch })
}

/// Whether `a` is older than `b`.
fn is_older(a: Semver, b: Semver) -> (r: bool)
    ensures
        r == older(a, b),
{
    a.major < b.major || (a.major == b.major && (a.minor < b.minor || (a.minor == b.minor && a.patch
        < b.patch)))
}

/// The newest version of the tags, read in this way. Tags that have none are
/// skipped.
fn newest_of(tags: &[String], how: Reading) -> (r: Option<Semver>)
    ensures
        r == newest(versions(texts(tags@), how)),
{
    let mut best: Option<Semver> = None;
    let mut i: usize = 0;
    assert(texts(tags@).take(0) =~= Seq::<Seq<char>>::empty());
    while i < tags.len()
        invariant
            i <= tags@.len(),
            best == newest(versions(texts(tags@).take(i as int), how)),
        decreases tags@.len() - i,
    {
        let ghost now = texts(tags@).take(i + 1);
        assert(now.drop_last() =~= texts(tags@).take(i as int));
        assert(now.last() == tags@[i as int]@);
        match read_tag_as(tags[i].as_str(), how) {
            Ok(v) => {
                assert(versions(now, how).drop_last() =~= versions(now.drop_last(), how));
                assert(versions(now, how).last() == v);
                best =
                match best {
                    Some(b) => if is_older(v, b) {
                        Some(b)
                    } else {
                        Some(v)
                    },
                    None => Some(v),
                };
            },
            Err(_) => {},
        }
        i = i + 1;
    }
    assert(texts(tags@).take(i as int) =~= texts(tags@));
    best
}

/// The version one step on, if there is one.
fn bump(v: Semver, kind: &str) -> (r: Option<Semver>)
    ensures
        r == bumped(v, kind@),
{
    if same_str(kind, "major") {
        if v.major < u32::MAX {
            Some(Semver { major: v.major + 1, minor: 0, patch: 0 })
        } else {
            None
        }
    } else if same_str(kind, "minor") {
        if v.minor < u32::MAX {
            Some(Semver { major: v.major, minor: v.minor + 1, patch: 0 })
        } else {
            None
        }
    } else {
        if v.patch < u32::MAX {
            Some(Semver { major: v.major, minor: v.minor, patch: v.patch + 1 })
        } else {
            None
        }
    }
}

/// Appends a version without a leading `v`.
fn push_version(s: &mut String, v: Semver)
    ensures
        final(s)@ == old(s)@ + bare_text(v),
{
    let ghost start = s@;
    push_decimal(s, v.major as u64);
    s.push('.');
    push_decimal(s, v.minor as u64);
    s.push('.');
    push_decimal(s, v.patch as u64);
    assert(s@ =~= start + bare_text(v));
}

/// The tag that follows `last`, if there is one.
fn tag_after(last: Option<Semver>, kind: &str) -> (r: Option<String>)
    ensures
        match r {
            Some(t) => next_tag(last, kind@) == Some(t@),
            None => next_tag(last, kind@) is None,
        },
{
    match last {
        None => Some(DEFAULT_VERSION.to_owned()),
        Some(v) => match bump(v, kind) {
            Some(next) => {
                let mut s: String = String::new();
                s.push('v');
                push_version(&mut s, next);
                assert(s@ =~= tag_text(next));
                Some(s)
            },
            None => None,
        },
    }
}

/// Highest existing tag by semver tuple, then bump by `kind`. Returns
/// `DEFAULT_VERSION` if no tags exist. Deterministic even when multiple tags
/// point at the same commit.
pub fn compute_new_tag(tags: &[String], kind: &str) -> (r: String)
    requires
        all_semver(texts(tags@)),
        next_tag(newest_tag(texts(tags@)), kind@) is Some,
    ensures
        Some(r@) == next_tag(newest_tag(texts(tags@)), kind@),
{
    match tag_after(newest_of(tags, Reading::Whole), kind) {
        Some(t) => t,
        None => String::new(),
    }
}

/// `compute_new_tag` for tags that nobody has looked at: the first tag that is
/// neither `vX.Y.Z` nor `X.Y.Z` is reported, so that one knows which to delete,
/// and so is a version that cannot be raised.
pub fn checked_new_tag(tags: &[String], kind: &str) -> (r: Result<String, TagError>)
    ensures
        match r {
            Ok(t) => all_semver(texts(tags@)) && Some(t@) == next_tag(
                newest_tag(texts(tags@)),
                kind@,
            ),
            Err(e) => tag_error_is(texts(tags@), kind@, e),
        },
{
    let mut i: usize = 0;
    while i < tags.len()
        invariant
            i <= tags@.len(),
            forall|j: int| 0 <= j < i ==> is_semver(#[trigger] texts(tags@)[j]),
        decreases tags@.len() - i,
    {
        assert(texts(tags@)[i as int] == tags@[i as int]@);
        match read_tag(tags[i].as_str()) {
            Ok(_) => {},
            Err(problem) => {
                proof {
                    lemma_first_malformed(texts(tags@), i as int);
                }
                return Err(TagError::Malformed { tag: tags[i].clone(), problem });
            },
        }
        i = i + 1;
    }
    match tag_after(newest_of(tags, Reading::Whole), kind) {
        Some(t) => Ok(t),
        None => Err(TagError::Overflow),
    }
}

/// The tag that follows the newest of those tags whose first three parts are a
/// version; the others are skipped.
pub fn new_tag_among(tags: &[String], kind: &str) -> (r: Result<String, TagError>)
    ensures
        match r {
            Ok(t) => Some(t@) == next_tag(newest_leading(texts(tags@)), kind@),
            Err(e) => e is Overflow && next_tag(newest_leading(texts(tags@)), kind@) is None,
        },
{
    match tag_after(newest_of(tags, Reading::Leading), kind) {
        Some(t) => Ok(t),
        None => Err(TagError::Overflow),
    }
}

/// The newest version among the tags, without a leading `v`. Tags that name no
/// version are skipped. Where none does, `DEFAULT_VERSION` without its `v`.
pub fn last_tag(tags: &[String]) -> (r: String)
    ensures
        r@ == last_text(texts(tags@)),
{
    match newest_of(tags, Reading::Whole) {
        Some(v) => {
            let mut s: String = String::new();
            push_version(&mut s, v);
            assert(s@ =~= bare_text(v));
            s
        },
        None => without_v(DEFAULT_VERSION),
    }
}

/// A tag without the one leading `v` that it may have.
pub fn without_v(tag: &str) -> (r: String)
    ensures
        r@ == bare(tag@),
{
    let all = to_chars(tag);
    let from: usize = if all.len() > 0 && all[0] == 'v' {
        1
    } else {
        0
    };
    let body = part(all.as_slice(), from, all.len());
    assert(body@ =~= bare(tag@));
    of_chars(body)
}

// ---------------------------------------------------------------------------
// Facts about the model
// ---------------------------------------------------------------------------

proof fn lemma_first_malformed(tags: Seq<Seq<char>>, i: int)
    requires
        0 <= i < tags.len(),
        forall|j: int| 0 <= j < i ==> is_semver(#[trigger] tags[j]),
        !is_semver(tags[i]),
    ensures
        first_malformed(tags) == i,
    decreases i,
{
    if i > 0 {
        assert(is_semver(tags[0]));
        assert forall|j: int| 0 <= j < i - 1 implies is_semver(#[trigger] tags.drop_first()[j]) by {
            assert(tags.drop_first()[j] == tags[j + 1]);
        }
        lemma_first_malformed(tags.drop_first(), i - 1);
    }
}

/// The newest of some versions is one of them, and none is newer.
proof fn lemma_newest(all: Seq<Semver>)
    ensures
        newest(all) is Some <==> all.len() > 0,
        newest(all) matches Some(v) ==> all.contains(v) && forall|i: int|
            0 <= i < all.len() ==> !older(v, #[trigger] all[i]),
    decreases all.len(),
{
    if all.len() > 0 {
        lemma_newest(all.drop_last());
        let v = newest(all)->0;
        assert(all[all.len() - 1] == all.last());
        if newest(all.drop_last()) is Some {
            let w = newest(all.drop_last())->0;
            let k = choose|k: int| 0 <= k < all.drop_last().len() && all.drop_last()[k] == w;
            assert(all[k] == w);
        }
        assert forall|i: int| 0 <= i < all.len() implies !older(v, #[trigger] all[i]) by {
            if i < all.len() - 1 {
                assert(all[i] == all.drop_last()[i]);
            }
        }
    }
}

/// Whether this is the version of a tag, read in this way.
spec fn has_version(tag: Seq<char>, how: Reading, v: Semver) -> bool {
    version_of(tag, how) == Ok::<Semver, TagProblem>(v)
}

/// The versions of some tags are those of one of the tags.
proof fn lemma_versions(tags: Seq<Seq<char>>, how: Reading, v: Semver)
    ensures
        versions(tags, how).contains(v) <==> exists|i: int|
            0 <= i < tags.len() && has_version(#[trigger] tags[i], how, v),
    decreases tags.len(),
{
    if tags.len() > 0 {
        let rest = tags.drop_last();
        lemma_versions(rest, how, v);
        let all = versions(tags, how);
        if all.contains(v) {
            let k = choose|k: int| 0 <= k < all.len() && all[k] == v;
            if version_of(tags.last(), how) is Ok && k == all.len() - 1 {
                assert(tags[tags.len() - 1] == tags.last());
            } else {
                assert(versions(rest, how)[k] == v);
                let i = choose|i: int|
                    0 <= i < rest.len() && has_version(#[trigger] rest[i], how, v);
                assert(tags[i] == rest[i]);
            }
        }
        if exists|i: int|
            0 <= i < tags.len() && has_version(#[trigger] tags[i], how, v) {
            let i = choose|i: int|
                0 <= i < tags.len() && has_version(#[trigger] tags[i], how, v);
            if i == tags.len() - 1 {
                assert(all[all.len() - 1] == v);
            } else {
                assert(rest[i] == tags[i]);
                let others = versions(rest, how);
                let k = choose|k: int| 0 <= k < others.len() && others[k] == v;
                assert(all[k] == v);
            }
        }
    }
}

/// The newest version of some tags is that of a tag, and no tag has a newer
/// one.
proof fn lemma_newest_tag(tags: Seq<Seq<char>>, how: Reading)
    ensures
        newest(versions(tags, how)) is None <==> forall|i: int|
            0 <= i < tags.len() ==> version_of(#[trigger] tags[i], how) is Err,
        newest(versions(tags, how)) matches Some(v) ==> forall|i: int|
            0 <= i < tags.len() && version_of(#[trigger] tags[i], how) is Ok ==> !older(
                v,
                version_of(tags[i], how)->Ok_0,
            ),
{
    let all = versions(tags, how);
    lemma_newest(all);
    if newest(all) is Some {
        lemma_versions(tags, how, newest(all)->0);
    }
    assert forall|i: int|
        0 <= i < tags.len() && version_of(#[trigger] tags[i], how) is Ok implies newest(all) is Some
        && !older(newest(all)->0, version_of(tags[i], how)->Ok_0) by {
        let w = version_of(tags[i], how)->Ok_0;
        lemma_versions(tags, how, w);
        let k = choose|k: int| 0 <= k < all.len() && all[k] == w;
        assert(!older(newest(all)->0, all[k]));
    }
}

/// The tag that follows the newest version of some tags, read in this way,
/// names a version that is newer than that of each of them.
proof fn lemma_new_tag(tags: Seq<Seq<char>>, how: Reading, kind: Seq<char>)
    requires
        next_tag(newest(versions(tags, how)), kind) is Some,
    ensures
        ({
            let new = next_tag(newest(versions(tags, how)), kind)->0;
            &&& is_semver(new)
            &&& forall|i: int|
                0 <= i < tags.len() && version_of(#[trigger] tags[i], how) is Ok ==> older(
                    version_of(tags[i], how)->Ok_0,
                    parse_tag(new)->Ok_0,
                )
            &&& !tags.contains(new)
        }),
{
    let new = next_tag(newest(versions(tags, how)), kind)->0;
    lemma_newest_tag(tags, how);
    match newest(versions(tags, how)) {
        None => {
            law_default_version();
            law_tag_read_back(Semver { major: 0, minor: 1, patch: 0 });
        },
        Some(v) => {
            law_tag_read_back(bumped(v, kind)->0);
        },
    }
    if tags.contains(new) {
        let i = choose|i: int| 0 <= i < tags.len() && tags[i] == new;
        assert(version_of(tags[i], how) == parse_tag(new));
        assert(older(version_of(tags[i], how)->Ok_0, parse_tag(new)->Ok_0));
    }
}

proof fn lemma_decimal_has(n: nat, c: char)
    requires
        !is_digit(c),
    ensures
        !decimal(n).contains(c),
        decimal(n).len() > 0,
{
    lemma_decimal_value(n);
    if decimal(n).contains(c) {
        let i = choose|i: int| 0 <= i < decimal(n).len() && decimal(n)[i] == c;
        assert(is_digit(decimal(n)[i]));
    }
}

// ---------------------------------------------------------------------------
// Laws
// ---------------------------------------------------------------------------

/// The text of a version has its three numbers between the dots, and no leading
/// `v`.
proof fn lemma_version_parts(v: Semver)
    ensures
        split(bare_text(v), '.') == seq![
            decimal(v.major as nat),
            decimal(v.minor as nat),
            decimal(v.patch as nat),
        ],
        bare(bare_text(v)) == bare_text(v),
        bare(tag_text(v)) == bare_text(v),
{
    let a = decimal(v.major as nat);
    let b = decimal(v.minor as nat);
    let c = decimal(v.patch as nat);
    lemma_decimal_has(v.major as nat, '.');
    lemma_decimal_has(v.minor as nat, '.');
    lemma_decimal_has(v.patch as nat, '.');
    lemma_decimal_has(v.major as nat, 'v');
    let dot = seq!['.'];
    let s = bare_text(v);
    assert(s =~= a + dot + (b + dot + c));
    lemma_split_head(a, '.', b + dot + c);
    lemma_split_head(b, '.', c);
    lemma_split_none(c, '.');
    assert(split(s, '.') =~= seq![a, b, c]);
    assert(s[0] == a[0]);
    assert(a.contains(a[0]));
    assert(bare(tag_text(v)) =~= s);
}

/// A version is read back from its tag, with the leading `v` and without it.
pub proof fn law_tag_read_back(v: Semver)
    ensures
        parse_tag(tag_text(v)) == Ok::<Semver, TagProblem>(v),
        parse_tag(bare_text(v)) == Ok::<Semver, TagProblem>(v),
{
    lemma_version_parts(v);
    lemma_parse_decimal(v.major);
    lemma_parse_decimal(v.minor);
    lemma_parse_decimal(v.patch);
}

/// `DEFAULT_VERSION` is a tag like any other: that of version 0.1.0.
pub proof fn law_default_version()
    ensures
        DEFAULT_VERSION@ == tag_text(Semver { major: 0, minor: 1, patch: 0 }),
{
    reveal_strlit("v0.1.0");
    assert(DEFAULT_VERSION@ =~= seq!['v', '0', '.', '1', '.', '0']);
    assert(tag_text(Semver { major: 0, minor: 1, patch: 0 }) =~= seq![
        'v',
        '0',
        '.',
        '1',
        '.',
        '0',
    ]);
}

/// The new tag names a version that is newer than each one that is tagged,
/// and so it is not there yet.
pub proof fn law_new_tag_is_newest(tags: Seq<Seq<char>>, kind: Seq<char>)
    requires
        next_tag(newest_tag(tags), kind) is Some,
    ensures
        ({
            let new = next_tag(newest_tag(tags), kind)->0;
            &&& is_semver(new)
            &&& forall|i: int|
                0 <= i < tags.len() && is_semver(#[trigger] tags[i]) ==> older(
                    parse_tag(tags[i])->Ok_0,
                    parse_tag(new)->Ok_0,
                )
            &&& !tags.contains(new)
        }),
{
    lemma_new_tag(tags, Reading::Whole, kind);
    let new = next_tag(newest_tag(tags), kind)->0;
    assert forall|i: int| 0 <= i < tags.len() && is_semver(#[trigger] tags[i]) implies older(
        parse_tag(tags[i])->Ok_0,
        parse_tag(new)->Ok_0,
    ) by {
        assert(version_of(tags[i], Reading::Whole) is Ok);
    }
}

/// The same of a new tag that follows the newest version which a tag begins
/// with.
pub proof fn law_new_tag_is_newest_leading(tags: Seq<Seq<char>>, kind: Seq<char>)
    requires
        next_tag(newest_leading(tags), kind) is Some,
    ensures
        ({
            let new = next_tag(newest_leading(tags), kind)->0;
            &&& is_semver(new)
            &&& forall|i: int|
                0 <= i < tags.len() && leading_version(#[trigger] tags[i]) is Ok ==> older(
                    leading_version(tags[i])->Ok_0,
                    parse_tag(new)->Ok_0,
                )
            &&& !tags.contains(new)
        }),
{
    lemma_new_tag(tags, Reading::Leading, kind);
    let new = next_tag(newest_leading(tags), kind)->0;
    assert forall|i: int|
        0 <= i < tags.len() && leading_version(#[trigger] tags[i]) is Ok implies older(
        leading_version(tags[i])->Ok_0,
        parse_tag(new)->Ok_0,
    ) by {
        assert(version_of(tags[i], Reading::Leading) is Ok);
    }
}

/// A tag with more than three parts names no version, whatever its parts are.
pub proof fn law_version_has_three_parts(tag: Seq<char>)
    requires
        is_semver(tag),
    ensures
        split(bare(tag), '.').len() == 3,
{
}

/// Only which versions are tagged counts: not the order of the tags, not how
/// often a version is tagged, with a leading `v` or without, and no tag that
/// has no version.
pub proof fn law_only_versions_count(a: Seq<Seq<char>>, b: Seq<Seq<char>>, how: Reading)
    requires
        forall|v: Semver| #[trigger]
            versions(a, how).contains(v) <==> versions(b, how).contains(v),
    ensures
        newest(versions(a, how)) == newest(versions(b, how)),
{
    let all = versions(a, how);
    let others = versions(b, how);
    lemma_newest(all);
    lemma_newest(others);
    if all.len() > 0 {
        let v = newest(all)->0;
        assert(all.contains(v));
        let k = choose|k: int| 0 <= k < others.len() && others[k] == v;
        let w = newest(others)->0;
        assert(!older(w, others[k]));
        assert(all.contains(w));
        let l = choose|l: int| 0 <= l < all.len() && all[l] == w;
        assert(!older(v, all[l]));
    } else if others.len() > 0 {
        let w = newest(others)->0;
        assert(all.contains(w));
    }
}

/// Once a new tag is there, it is the last one: the version that the next
/// generator run is seeded with is the one that was just released.
pub proof fn law_released_version_is_the_next_seed(tags: Seq<Seq<char>>, kind: Seq<char>)
    requires
        next_tag(newest_tag(tags), kind) is Some,
    ensures
        last_text(tags.push(next_tag(newest_tag(tags), kind)->0)) == bare(
            next_tag(newest_tag(tags), kind)->0,
        ),
{
    let new = next_tag(newest_tag(tags), kind)->0;
    let after = tags.push(new);
    assert(after.drop_last() =~= tags);
    law_default_version();
    let v = match newest_tag(tags) {
        None => Semver { major: 0, minor: 1, patch: 0 },
        Some(last) => bumped(last, kind)->0,
    };
    law_tag_read_back(v);
    assert(versions(after, Reading::Whole) == versions(tags, Reading::Whole).push(v));
    assert(versions(after, Reading::Whole).drop_last() =~= versions(tags, Reading::Whole));
    assert(newest_tag(after) == Some(v));
    assert(bare(tag_text(v)) =~= bare_text(v));
}

/// One leading `v` is taken off a tag, and nothing else.
pub proof fn law_bare(rest: Seq<char>)
    ensures
        bare(seq!['v'] + rest) == rest,
        rest.len() == 0 || rest[0] != 'v' ==> bare(rest) == rest,
{
    assert((seq!['v'] + rest).drop_first() =~= rest);
}

/// A tag names the version of the three numbers between its dots, with a
/// leading `v` or without, exactly where it has three parts and each of them is
/// a 32-bit number. The first of the parts that is none is what is wrong.
pub proof fn law_tag_of_three_parts(a: Seq<char>, b: Seq<char>, c: Seq<char>)
    requires
        !a.contains('.'),
        !b.contains('.'),
        !c.contains('.'),
        a.len() == 0 || a[0] != 'v',
    ensures
        ({
            let tag = a + seq!['.'] + b + seq!['.'] + c;
            &&& parse_tag(seq!['v'] + tag) == parse_tag(tag)
            &&& leading_version(tag) == parse_tag(tag)
            &&& parse_u32(a) is None ==> parse_tag(tag) == Err::<Semver, _>(TagProblem::MajorNotU32)
            &&& parse_u32(a) is Some && parse_u32(b) is None ==> parse_tag(tag) == Err::<Semver, _>(
                TagProblem::MinorNotU32,
            )
            &&& parse_u32(a) is Some && parse_u32(b) is Some && parse_u32(c) is None ==> parse_tag(
                tag,
            ) == Err::<Semver, _>(TagProblem::PatchNotU32)
            &&& parse_u32(a) is Some && parse_u32(b) is Some && parse_u32(c) is Some ==> parse_tag(
                tag,
            ) == Ok::<_, TagProblem>(
                Semver {
                    major: parse_u32(a)->0,
                    minor: parse_u32(b)->0,
                    patch: parse_u32(c)->0,
                },
            )
        }),
{
    let dot = seq!['.'];
    let tag = a + dot + b + dot + c;
    assert(tag =~= a + dot + (b + dot + c));
    lemma_split_head(a, '.', b + dot + c);
    lemma_split_head(b, '.', c);
    lemma_split_none(c, '.');
    assert(split(tag, '.') =~= seq![a, b, c]);
    assert(tag[0] == if a.len() > 0 {
        a[0]
    } else {
        '.'
    });
    law_bare(tag);
}

/// A tag with fewer parts names no version.
pub proof fn law_short_tags_name_no_version(a: Seq<char>, b: Seq<char>)
    requires
        !a.contains('.'),
        !b.contains('.'),
        a.len() == 0 || a[0] != 'v',
    ensures
        parse_tag(a) == Err::<Semver, _>(TagProblem::MissingMinor),
        parse_tag(a + seq!['.'] + b) == Err::<Semver, _>(TagProblem::MissingPatch),
{
    law_bare(a);
    lemma_split_none(a, '.');
    lemma_split_head(a, '.', b);
    lemma_split_none(b, '.');
    let two = a + seq!['.'] + b;
    assert(two[0] == if a.len() > 0 {
        a[0]
    } else {
        '.'
    });
    law_bare(two);
    assert(split(two, '.') =~= seq![a, b]);
}

/// The pieces of three parts, and of three parts and more.
proof fn lemma_more_parts(a: Seq<char>, b: Seq<char>, c: Seq<char>, more: Seq<char>)
    requires
        !a.contains('.'),
        !b.contains('.'),
        !c.contains('.'),
    ensures
        split(a + seq!['.'] + b + seq!['.'] + c, '.') == seq![a, b, c],
        split(a + seq!['.'] + b + seq!['.'] + c + seq!['.'] + more, '.') == seq![a, b, c] + split(
            more,
            '.',
        ),
        split(more, '.').len() > 0,
{
    let dot = seq!['.'];
    let three = a + dot + b + dot + c;
    assert(three =~= a + dot + (b + dot + c));
    lemma_split_head(a, '.', b + dot + c);
    lemma_split_head(b, '.', c);
    lemma_split_none(c, '.');
    assert(split(three, '.') =~= seq![a, b, c]);
    assert(three + dot + more =~= a + dot + (b + dot + (c + dot + more)));
    lemma_split_head(a, '.', b + dot + (c + dot + more));
    lemma_split_head(b, '.', c + dot + more);
    lemma_split_head(c, '.', more);
    assert(split(three + dot + more, '.') =~= seq![a, b, c] + split(more, '.'));
    lemma_join_split(more, '.');
}

/// A tag with more than three parts names no version. Its first three parts may
/// still be one, and what is wrong with them is named first.
pub proof fn law_long_tags_name_no_version(
    a: Seq<char>,
    b: Seq<char>,
    c: Seq<char>,
    more: Seq<char>,
)
    requires
        !a.contains('.'),
        !b.contains('.'),
        !c.contains('.'),
        a.len() == 0 || a[0] != 'v',
    ensures
        ({
            let three = a + seq!['.'] + b + seq!['.'] + c;
            let tag = three + seq!['.'] + more;
            &&& leading_version(tag) == leading_version(three)
            &&& parse_tag(tag) == match parse_tag(three) {
                Ok(_) => Err::<Semver, _>(TagProblem::TooManyParts),
                Err(problem) => Err::<Semver, _>(problem),
            }
        }),
{
    let three = a + seq!['.'] + b + seq!['.'] + c;
    let tag = three + seq!['.'] + more;
    lemma_more_parts(a, b, c, more);
    let head = if a.len() > 0 {
        a[0]
    } else {
        '.'
    };
    assert(three[0] == head && tag[0] == head);
    assert(bare(three) == three && bare(tag) == tag);
    let parts = split(tag, '.');
    assert(parts[0] == a && parts[1] == b && parts[2] == c && parts.len() > 3);
}

/// Versions are ordered as the numbers that their three parts make, the major
/// one counting most.
pub proof fn law_older_is_by_number(a: Semver, b: Semver)
    ensures
        older(a, b) <==> a.major * 0x1_0000_0000_0000_0000 + a.minor * 0x1_0000_0000 + a.patch
            < b.major * 0x1_0000_0000_0000_0000 + b.minor * 0x1_0000_0000 + b.patch,
{
}

/// The newest version of some tags is one that a tag names, and none that a tag
/// names is newer. There is one as soon as one tag names a version.
pub proof fn law_newest_tag(tags: Seq<Seq<char>>)
    ensures
        newest_tag(tags) is Some <==> exists|i: int| 0 <= i < tags.len() && is_semver(#[trigger] tags[i]),
        newest_tag(tags) matches Some(v) ==> exists|i: int|
            0 <= i < tags.len() && parse_tag(#[trigger] tags[i]) == Ok::<Semver, TagProblem>(v),
        newest_tag(tags) matches Some(v) ==> forall|i: int|
            0 <= i < tags.len() && is_semver(#[trigger] tags[i]) ==> !older(
                v,
                parse_tag(tags[i])->Ok_0,
            ),
{
    lemma_newest_among(tags, Reading::Whole);
    if newest_tag(tags) is Some {
        let v = newest_tag(tags)->0;
        let i = choose|i: int| 0 <= i < tags.len() && has_version(#[trigger] tags[i], Reading::Whole, v);
        assert(is_semver(tags[i]));
        assert forall|i: int| 0 <= i < tags.len() && is_semver(#[trigger] tags[i]) implies !older(
            v,
            parse_tag(tags[i])->Ok_0,
        ) by {
            assert(version_of(tags[i], Reading::Whole) is Ok);
        }
    }
    if exists|i: int| 0 <= i < tags.len() && is_semver(#[trigger] tags[i]) {
        let i = choose|i: int| 0 <= i < tags.len() && is_semver(#[trigger] tags[i]);
        assert(version_of(tags[i], Reading::Whole) is Ok);
    }
}

/// The same of the newest version that a tag begins with.
pub proof fn law_newest_leading(tags: Seq<Seq<char>>)
    ensures
        newest_leading(tags) is Some <==> exists|i: int|
            0 <= i < tags.len() && leading_version(#[trigger] tags[i]) is Ok,
        newest_leading(tags) matches Some(v) ==> exists|i: int|
            0 <= i < tags.len() && leading_version(#[trigger] tags[i]) == Ok::<Semver, TagProblem>(
                v,
            ),
        newest_leading(tags) matches Some(v) ==> forall|i: int|
            0 <= i < tags.len() && leading_version(#[trigger] tags[i]) is Ok ==> !older(
                v,
                leading_version(tags[i])->Ok_0,
            ),
{
    lemma_newest_among(tags, Reading::Leading);
    if newest_leading(tags) is Some {
        let v = newest_leading(tags)->0;
        let i = choose|i: int|
            0 <= i < tags.len() && has_version(#[trigger] tags[i], Reading::Leading, v);
        assert(leading_version(tags[i]) is Ok);
        assert forall|i: int|
            0 <= i < tags.len() && leading_version(#[trigger] tags[i]) is Ok implies !older(
            v,
            leading_version(tags[i])->Ok_0,
        ) by {
            assert(version_of(tags[i], Reading::Leading) is Ok);
        }
    }
    if exists|i: int| 0 <= i < tags.len() && leading_version(#[trigger] tags[i]) is Ok {
        let i = choose|i: int| 0 <= i < tags.len() && leading_version(#[trigger] tags[i]) is Ok;
        assert(version_of(tags[i], Reading::Leading) is Ok);
    }
}

proof fn lemma_newest_among(tags: Seq<Seq<char>>, how: Reading)
    ensures
        newest(versions(tags, how)) is None <==> forall|i: int|
            0 <= i < tags.len() ==> version_of(#[trigger] tags[i], how) is Err,
        newest(versions(tags, how)) matches Some(v) ==> exists|i: int|
            0 <= i < tags.len() && has_version(#[trigger] tags[i], how, v),
        newest(versions(tags, how)) matches Some(v) ==> forall|i: int|
            0 <= i < tags.len() && version_of(#[trigger] tags[i], how) is Ok ==> !older(
                v,
                version_of(tags[i], how)->Ok_0,
            ),
{
    lemma_newest_tag(tags, how);
    lemma_newest(versions(tags, how));
    if newest(versions(tags, how)) is Some {
        lemma_versions(tags, how, newest(versions(tags, how))->0);
    }
}

/// The tag that follows a version is read back as that version with the part
/// of its kind raised by one and the parts behind that part at zero: of a major
/// bump the major part, of a minor bump the minor part, of any other the patch.
/// There is such a tag wherever the part can be raised.
pub proof fn law_next_tag_is_one_step_on(v: Semver, kind: Seq<char>)
    ensures
        ({
            let next = next_tag(Some(v), kind);
            let read = parse_tag(next->0);
            &&& kind == "major"@ ==> {
                &&& next is Some <==> v.major < u32::MAX
                &&& next is Some ==> read is Ok && read->Ok_0.major == v.major + 1
                    && read->Ok_0.minor == 0 && read->Ok_0.patch == 0
            }
            &&& kind == "minor"@ ==> {
                &&& next is Some <==> v.minor < u32::MAX
                &&& next is Some ==> read is Ok && read->Ok_0.major == v.major && read->Ok_0.minor
                    == v.minor + 1 && read->Ok_0.patch == 0
            }
            &&& kind != "major"@ && kind != "minor"@ ==> {
                &&& next is Some <==> v.patch < u32::MAX
                &&& next is Some ==> read is Ok && read->Ok_0.major == v.major && read->Ok_0.minor
                    == v.minor && read->Ok_0.patch == v.patch + 1
            }
        }),
{
    reveal_strlit("major");
    reveal_strlit("minor");
    assert("major"@[1] == 'a' && "minor"@[1] == 'i');
    if bumped(v, kind) is Some {
        law_tag_read_back(bumped(v, kind)->0);
    }
}

/// A tag that is cut is `v` and three numbers in decimal with a dot between
/// each two; where no tag names a version it is `v0.1.0`.
pub proof fn law_next_tag_is_written_out(last: Option<Semver>, kind: Seq<char>)
    requires
        next_tag(last, kind) is Some,
    ensures
        last is None ==> next_tag(last, kind)->0 == seq!['v', '0', '.', '1', '.', '0'],
        exists|a: nat, b: nat, c: nat|
            next_tag(last, kind)->0 == seq!['v'] + #[trigger] decimal(a) + seq!['.']
                + #[trigger] decimal(b) + seq!['.'] + #[trigger] decimal(c),
{
    law_default_version();
    reveal_strlit("v0.1.0");
    assert(DEFAULT_VERSION@ =~= seq!['v', '0', '.', '1', '.', '0']);
    let v = match last {
        None => Semver { major: 0, minor: 1, patch: 0 },
        Some(w) => bumped(w, kind)->0,
    };
    let a = v.major as nat;
    let b = v.minor as nat;
    let c = v.patch as nat;
    assert(tag_text(v) =~= seq!['v'] + decimal(a) + seq!['.'] + decimal(b) + seq!['.'] + decimal(c));
}

/// The text of the last version reads back as the newest version that a tag
/// names, and is `0.1.0` where none names one.
pub proof fn law_last_text(tags: Seq<Seq<char>>)
    ensures
        newest_tag(tags) matches Some(v) ==> {
            &&& parse_tag(last_text(tags)) == Ok::<Semver, TagProblem>(v)
            &&& last_text(tags) == decimal(v.major as nat) + seq!['.'] + decimal(v.minor as nat)
                + seq!['.'] + decimal(v.patch as nat)
        },
        newest_tag(tags) is None ==> last_text(tags) == seq!['0', '.', '1', '.', '0'],
{
    match newest_tag(tags) {
        Some(v) => {
            law_tag_read_back(v);
        },
        None => {
            reveal_strlit("v0.1.0");
            assert(DEFAULT_VERSION@ =~= seq!['v'] + seq!['0', '.', '1', '.', '0']);
            law_bare(seq!['0', '.', '1', '.', '0']);
        },
    }
}

/// A tag is refused as malformed only where it names no version and each tag
/// before it does, with what is wrong with it; a bump is refused only where all
/// tags name versions and the part to be raised is at its largest.
pub proof fn law_tag_errors(tags: Seq<Seq<char>>, kind: Seq<char>, e: TagError)
    requires
        tag_error_is(tags, kind, e),
    ensures
        match e {
            TagError::Malformed { tag, problem } => exists|i: int|
                0 <= i < tags.len() && #[trigger] tags[i] == tag@ && parse_tag(tags[i]) == Err::<
                    Semver,
                    _,
                >(problem) && forall|j: int| 0 <= j < i ==> is_semver(#[trigger] tags[j]),
            TagError::Overflow => {
                &&& forall|i: int| 0 <= i < tags.len() ==> is_semver(#[trigger] tags[i])
                &&& newest_tag(tags) matches Some(v) && (if kind == "major"@ {
                    v.major == u32::MAX
                } else if kind == "minor"@ {
                    v.minor == u32::MAX
                } else {
                    v.patch == u32::MAX
                })
            },
        },
{
    match e {
        TagError::Malformed { tag, problem } => {
            let i = first_malformed(tags);
            lemma_before_malformed(tags);
            assert(tags[i] == tag@);
        },
        TagError::Overflow => {},
    }
}

proof fn lemma_before_malformed(tags: Seq<Seq<char>>)
    ensures
        forall|j: int| 0 <= j < first_malformed(tags) && j < tags.len() ==> is_semver(#[trigger] tags[j]),
    decreases tags.len(),
{
    if tags.len() > 0 && is_semver(tags[0]) {
        lemma_before_malformed(tags.drop_first());
        assert forall|j: int| 0 <= j < first_malformed(tags) && j < tags.len() implies is_semver(
            #[trigger] tags[j],
        ) by {
            if j > 0 {
                assert(tags[j] == tags.drop_first()[j - 1]);
            }
        }
    }
}

/// A tag names a version exactly where one can be read from all of it, and some
/// tags all do exactly where each of them does.
pub proof fn law_semver_tags(tags: Seq<Seq<char>>, tag: Seq<char>)
    ensures
        is_semver(tag) <==> parse_tag(tag) is Ok,
        all_semver(tags) <==> forall|i: int|
            0 <= i < tags.len() ==> parse_tag(#[trigger] tags[i]) is Ok,
{
    if all_semver(tags) {
        assert forall|i: int| 0 <= i < tags.len() implies parse_tag(#[trigger] tags[i]) is Ok by {
            assert(is_semver(tags[i]));
        }
    }
}

} // verus!
