//! Conventional Commits messages: asking for one, checking it, and what it
//! means for the version.

use crate::staging::quiet_message;
use crate::text::{
    before, before_char, contains, contains_chars, find, find_char, first_line, first_line_of,
    law_before, law_contains, lemma_find, lemma_find_is, of_chars, part, same_chars, to_chars,
    trim_end_char, trim_end_matches,
};
use crate::utf8::{decoded, utf8_text};
use vstd::prelude::*;
use vstd::utf8::{decode_utf8, valid_utf8};

verus! {

/// What the model is told before it is shown a diff.
pub const COMMIT_PROMPT: &'static str = "Write a Conventional Commits message (type(scope): description). Types: feat|fix|docs|style|refactor|perf|test|build|ci|chore. Output a single line, no quotes, no markdown, no explanation.\n\nDIFF:\n";

/// Why a message is not a Conventional Commits message.
#[derive(Debug)]
pub enum MessageError {
    /// Its first line has no colon.
    NoHeader { message: String },
    /// What stands before the colon is no known type.
    UnknownType { type_part: String, message: String },
}

// ---------------------------------------------------------------------------
// The model
// ---------------------------------------------------------------------------

/// What stands before the first colon of the first line, or all of that line.
pub open spec fn header(message: Seq<char>) -> Seq<char> {
    before(first_line(message), ':')
}

/// Whether a message announces a breaking change: a `!` before the colon, or
/// the words `BREAKING CHANGE` anywhere.
pub open spec fn is_breaking(message: Seq<char>) -> bool {
    ||| header(message).len() > 0 && header(message).last() == '!'
    ||| contains(message, "BREAKING CHANGE"@)
}

/// What a message means for the version: a breaking change is major, a feature
/// is minor, and all else is patch.
pub open spec fn bump_of(message: Seq<char>) -> Seq<char> {
    if is_breaking(message) {
        "major"@
    } else if before(header(message), '(') == "feat"@ {
        "minor"@
    } else {
        "patch"@
    }
}

/// The types of Conventional Commits.
pub open spec fn is_commit_type(t: Seq<char>) -> bool {
    ||| t == "feat"@
    ||| t == "fix"@
    ||| t == "docs"@
    ||| t == "style"@
    ||| t == "refactor"@
    ||| t == "perf"@
    ||| t == "test"@
    ||| t == "build"@
    ||| t == "ci"@
    ||| t == "chore"@
}

/// Whether the first line of a message has a colon.
pub open spec fn has_header(message: Seq<char>) -> bool {
    first_line(message).contains(':')
}

/// The type of a message: its header without the `!`s at its end and without
/// the scope.
pub open spec fn commit_type(message: Seq<char>) -> Seq<char> {
    before(trim_end_matches(header(message), '!'), '(')
}

/// Whether a message is a Conventional Commits message.
pub open spec fn is_conventional(message: Seq<char>) -> bool {
    has_header(message) && is_commit_type(commit_type(message))
}

/// Whether this is what is wrong with a message.
pub open spec fn message_error_is(message: Seq<char>, e: MessageError) -> bool {
    match e {
        MessageError::NoHeader { message: m } => !has_header(message) && m@ == message,
        MessageError::UnknownType { type_part, message: m } => {
            &&& has_header(message)
            &&& !is_commit_type(commit_type(message))
            &&& type_part@ == commit_type(message)
            &&& m@ == message
        },
    }
}

/// One line of a patch: added, removed and context lines have their origin in
/// front, all other lines are as they are. A line that is not UTF-8 has no
/// text.
pub open spec fn diff_line(line: (char, Seq<u8>)) -> Seq<char> {
    let text = match decoded(line.1) {
        Some(t) => t,
        None => Seq::empty(),
    };
    if line.0 == '+' || line.0 == '-' || line.0 == ' ' {
        seq![line.0] + text
    } else {
        text
    }
}

/// The lines of a patch one after the other.
pub open spec fn diff_text(lines: Seq<(char, Seq<u8>)>) -> Seq<char>
    decreases lines.len(),
{
    if lines.len() == 0 {
        Seq::empty()
    } else {
        diff_text(lines.drop_last()) + diff_line(lines.last())
    }
}

/// The lines of a patch as a sequence of origins and bytes.
pub open spec fn patch_lines(lines: Seq<(char, Vec<u8>)>) -> Seq<(char, Seq<u8>)> {
    lines.map_values(|l: (char, Vec<u8>)| (l.0, l.1@))
}

/// Whether every line of a patch is UTF-8.
pub open spec fn all_utf8(lines: Seq<(char, Seq<u8>)>) -> bool {
    forall|i: int| 0 <= i < lines.len() ==> decoded((#[trigger] lines[i]).1) is Some
}

// ---------------------------------------------------------------------------
// The functions
// ---------------------------------------------------------------------------

/// Convert a Conventional Commits header to a semver bump kind:
///  - `!` before `:` or "BREAKING CHANGE" in body: major
///  - `feat`: minor
///  - anything else: patch
pub fn bump_kind(commit_msg: &str) -> (r: &'static str)
    requires
        commit_msg@.len() > 0,
    ensures
        r@ == bump_of(commit_msg@),
{
    bump_of_message(commit_msg)
}

/// What a message means for the version; an empty one means a patch.
pub(crate) fn bump_of_message(commit_msg: &str) -> (r: &'static str)
    ensures
        r@ == bump_of(commit_msg@),
{
    let all = to_chars(commit_msg);
    let first = first_line_of(all.as_slice());
    let head = before_char(first, ':');
    let mark = to_chars("BREAKING CHANGE");
    if (head.len() > 0 && head[head.len() - 1] == '!') || contains_chars(
        all.as_slice(),
        mark.as_slice(),
    ) {
        "major"
    } else {
        let feat = to_chars("feat");
        if same_chars(before_char(head, '('), feat.as_slice()) {
            "minor"
        } else {
            "patch"
        }
    }
}

/// Whether these characters are a type of Conventional Commits.
fn is_type(t: &[char]) -> (r: bool)
    ensures
        r == is_commit_type(t@),
{
    same_chars(t, to_chars("feat").as_slice()) || same_chars(t, to_chars("fix").as_slice())
        || same_chars(t, to_chars("docs").as_slice()) || same_chars(
        t,
        to_chars("style").as_slice(),
    ) || same_chars(t, to_chars("refactor").as_slice()) || same_chars(
        t,
        to_chars("perf").as_slice(),
    ) || same_chars(t, to_chars("test").as_slice()) || same_chars(t, to_chars("build").as_slice())
        || same_chars(t, to_chars("ci").as_slice()) || same_chars(t, to_chars("chore").as_slice())
}

/// Lets a Conventional Commits message pass as it is, and says of any other
/// what is wrong with it.
pub fn check_message(message: String) -> (r: Result<String, MessageError>)
    ensures
        match r {
            Ok(m) => is_conventional(message@) && m@ == message@,
            Err(e) => message_error_is(message@, e),
        },
{
    let all = to_chars(message.as_str());
    let first = first_line_of(all.as_slice());
    let colon = find_char(first, ':');
    proof {
        lemma_find(first@, ':');
        if first@.contains(':') {
            let i = choose|i: int| 0 <= i < first@.len() && first@[i] == ':';
            assert(colon <= i);
        }
    }
    if colon >= first.len() {
        return Err(MessageError::NoHeader { message });
    }
    assert(first@.contains(first@[colon as int]));
    let head = part(first, 0, colon);
    assert(head@ =~= header(message@));
    let kind = before_char(trim_end_char(head, '!'), '(');
    if is_type(kind) {
        Ok(message)
    } else {
        Err(MessageError::UnknownType { type_part: of_chars(kind), message })
    }
}

/// What the model is asked, for a message on this diff.
pub fn commit_prompt(diff: &str) -> (r: String)
    ensures
        r@ == COMMIT_PROMPT@ + diff@,
{
    let mut r: String = COMMIT_PROMPT.to_owned();
    r.append(diff);
    r
}

/// The text of a patch. A line that is not UTF-8 adds nothing but its origin.
pub fn render_diff(lines: &Vec<(char, Vec<u8>)>) -> (r: String)
    ensures
        r@ == diff_text(patch_lines(lines@)),
{
    let ghost all = patch_lines(lines@);
    let mut r: String = String::new();
    let mut i: usize = 0;
    assert(all.take(0) =~= Seq::<(char, Seq<u8>)>::empty());
    while i < lines.len()
        invariant
            i <= lines@.len(),
            all == patch_lines(lines@),
            r@ == diff_text(all.take(i as int)),
        decreases lines@.len() - i,
    {
        let ghost was = r@;
        let origin = lines[i].0;
        if origin == '+' || origin == '-' || origin == ' ' {
            r.push(origin);
        }
        match utf8_text(lines[i].1.as_slice()) {
            Some(t) => r.append(t),
            None => {},
        }
        assert(all[i as int] == (lines@[i as int].0, lines@[i as int].1@));
        assert(r@ =~= was + diff_line(all[i as int]));
        i = i + 1;
        assert(all.take(i as int).drop_last() =~= all.take(i - 1));
    }
    assert(all.take(i as int) =~= all);
    r
}

/// The text of a patch of text files, or nothing where a line is not UTF-8.
pub fn render_text_diff(lines: &Vec<(char, Vec<u8>)>) -> (r: Option<String>)
    ensures
        match r {
            Some(t) => all_utf8(patch_lines(lines@)) && t@ == diff_text(patch_lines(lines@)),
            None => !all_utf8(patch_lines(lines@)),
        },
{
    let ghost all = patch_lines(lines@);
    let mut i: usize = 0;
    while i < lines.len()
        invariant
            i <= lines@.len(),
            all == patch_lines(lines@),
            forall|j: int| 0 <= j < i ==> decoded((#[trigger] all[j]).1) is Some,
        decreases lines@.len() - i,
    {
        assert(all[i as int] == (lines@[i as int].0, lines@[i as int].1@));
        if utf8_text(lines[i].1.as_slice()).is_none() {
            return None;
        }
        i = i + 1;
    }
    Some(render_diff(lines))
}

// ---------------------------------------------------------------------------
// Laws
// ---------------------------------------------------------------------------

/// Of a Conventional Commits message that announces no breaking change the
/// type alone decides: a feature is minor, any other type is patch.
pub proof fn law_type_decides_bump(message: Seq<char>)
    requires
        is_conventional(message),
        !is_breaking(message),
    ensures
        bump_of(message) == (if commit_type(message) == "feat"@ {
            "minor"@
        } else {
            "patch"@
        }),
{
}

/// A `!` before the colon of a Conventional Commits message makes it major,
/// whatever its type.
pub proof fn law_exclamation_mark_is_major(prefix: Seq<char>, rest: Seq<char>)
    requires
        !prefix.contains(':'),
        !prefix.contains('\n'),
    ensures
        bump_of(prefix + seq!['!', ':'] + rest) == "major"@,
{
    let message = prefix + seq!['!', ':'] + rest;
    let n = prefix.len() as int;
    assert forall|j: int| 0 <= j < n implies message[j] != ':' && message[j] != '\n' by {
        assert(prefix.contains(prefix[j]));
        assert(message[j] == prefix[j]);
    }
    assert(message[n] == '!' && message[n + 1] == ':');
    lemma_find(message, '\n');
    let k = find(message, '\n');
    assert(k > n + 1) by {
        if k <= n + 1 {
            assert(message[k] == '\n');
        }
    }
    let line = first_line(message);
    assert(line.len() > n + 1);
    assert forall|j: int| 0 <= j <= n + 1 implies line[j] == message[j] by {}
    lemma_find_is(line, ':', n + 1);
    assert(header(message) == line.take(n + 1));
    assert(header(message).last() == '!');
}

/// The words `BREAKING CHANGE` anywhere in a message make it major, whatever
/// its type.
pub proof fn law_breaking_change_is_major(head: Seq<char>, rest: Seq<char>)
    ensures
        bump_of(head + "BREAKING CHANGE"@ + rest) == "major"@,
{
    let words = "BREAKING CHANGE"@;
    let message = head + words + rest;
    let n = head.len() as int;
    assert(message.subrange(n, n + words.len()) =~= words);
}

/// The messages that are used without asking the model are Conventional Commits
/// messages like any other, and mean a patch.
pub proof fn law_fixed_messages_are_conventional(files: Seq<(Seq<char>, bool)>)
    ensures
        is_conventional(quiet_message(files)),
        bump_of(quiet_message(files)) == "patch"@,
        is_conventional("chore: update"@),
        bump_of("chore: update"@) == "patch"@,
{
    reveal_strlit("chore: update");
    reveal_strlit("docs: update documentation");
    reveal_strlit("chore");
    reveal_strlit("docs");
    reveal_strlit("feat");
    reveal_strlit("BREAKING CHANGE");
    reveal_strlit(" update");
    reveal_strlit(" update documentation");
    assert("chore: update"@ =~= "chore"@ + seq![':'] + " update"@);
    assert("docs: update documentation"@ =~= "docs"@ + seq![':'] + " update documentation"@);
    assert("docs"@[0] == 'd' && "feat"@[0] == 'f');
    lemma_plain_message("chore"@, " update"@, "chore: update"@);
    lemma_plain_message("docs"@, " update documentation"@, "docs: update documentation"@);
}

/// A message of one type, a colon, and a text without line feed or capital B.
proof fn lemma_plain_message(kind: Seq<char>, rest: Seq<char>, message: Seq<char>)
    requires
        message == kind + seq![':'] + rest,
        is_commit_type(kind),
        kind != "feat"@,
        forall|i: int|
            0 <= i < kind.len() ==> kind[i] != ':' && kind[i] != '!' && kind[i] != '(' && kind[i]
                != '\n' && kind[i] != 'B',
        forall|i: int| 0 <= i < rest.len() ==> rest[i] != '\n' && rest[i] != 'B',
    ensures
        is_conventional(message),
        bump_of(message) == "patch"@,
{
    lemma_find_is(message, '\n', message.len() as int);
    assert(first_line(message) == message);
    assert(message[kind.len() as int] == ':');
    assert forall|j: int| 0 <= j < kind.len() implies message[j] != ':' by {
        assert(message[j] == kind[j]);
    }
    lemma_find_is(message, ':', kind.len() as int);
    assert(header(message) =~= kind);
    assert(trim_end_matches(kind, '!') == kind);
    lemma_find_is(kind, '(', kind.len() as int);
    assert(before(kind, '(') =~= kind);
    reveal_strlit("BREAKING CHANGE");
    if contains(message, "BREAKING CHANGE"@) {
        let needle = "BREAKING CHANGE"@;
        let i = choose|i: int|
            0 <= i <= message.len() - needle.len() && #[trigger] message.subrange(
                i,
                i + needle.len(),
            ) == needle;
        assert(message.subrange(i, i + needle.len())[0] == message[i]);
        assert(needle[0] == 'B');
    }
}

/// Where the first line of a text up to a colon in it is `head`: the text is
/// `head` and nothing more, or a colon or the end of the line follows.
pub open spec fn follows_header(head: Seq<char>, tail: Seq<char>) -> bool {
    &&& !head.contains(':')
    &&& !head.contains('\n')
    &&& {
        ||| tail.len() == 0
        ||| tail[0] == ':'
        ||| tail[0] == '\n' && (head.len() > 0 ==> head.last() != '\r')
        ||| tail.len() > 1 && tail[0] == '\r' && tail[1] == '\n'
    }
}

/// The header of a message is what stands in its first line before the first
/// colon, and there is a colon in that line exactly where one follows.
proof fn lemma_header(head: Seq<char>, tail: Seq<char>)
    requires
        follows_header(head, tail),
    ensures
        header(head + tail) == head,
        has_header(head + tail) <==> tail.len() > 0 && tail[0] == ':',
{
    let message = head + tail;
    let n = head.len() as int;
    assert forall|j: int| 0 <= j < n implies message[j] != ':' && message[j] != '\n' by {
        assert(head.contains(head[j]));
        assert(message[j] == head[j]);
    }
    lemma_find(message, '\n');
    let k = find(message, '\n');
    let line = first_line(message);
    if tail.len() == 0 {
        assert(message =~= head);
        lemma_find_is(message, '\n', n);
        lemma_find_is(line, ':', n);
        assert(line.take(n) =~= head);
        assert(!line.contains(':'));
    } else if tail[0] == ':' {
        assert(message[n] == ':');
        assert(k > n) by {
            if k <= n {
                assert(message[k] == '\n');
            }
        }
        assert(line.len() > n) by {
            if k < message.len() && message.take(k).last() == '\r' {
                assert(message.take(k).last() == message[k - 1]);
            }
        }
        assert forall|j: int| 0 <= j <= n implies line[j] == message[j] by {}
        lemma_find_is(line, ':', n);
        assert(line.take(n) =~= head);
        assert(line[n] == ':');
    } else {
        if tail[0] == '\n' {
            assert(message[n] == '\n');
            lemma_find_is(message, '\n', n);
            assert(message.take(n) =~= head);
        } else {
            assert(message[n] == '\r' && message[n + 1] == '\n');
            lemma_find_is(message, '\n', n + 1);
            assert(message.take(n + 1).drop_last() =~= head);
        }
        assert(line =~= head);
        lemma_find_is(line, ':', n);
        assert(line.take(n) =~= head);
        assert(!line.contains(':'));
    }
}

/// What any message means for the version, by the part `head` of its first line
/// before the first colon: it is major exactly where `head` ends in a `!` or
/// the words BREAKING CHANGE stand somewhere in the message; else it is minor
/// exactly where `head` is `feat` or goes on behind it with a `(`; else it is
/// patch.
pub proof fn law_bump_of_any_message(head: Seq<char>, tail: Seq<char>)
    requires
        follows_header(head, tail),
    ensures
        ({
            let message = head + tail;
            let feat = seq!['f', 'e', 'a', 't'];
            let major = (head.len() > 0 && head[head.len() - 1] == '!') || (exists|
                x: Seq<char>,
                y: Seq<char>,
            | message == #[trigger] (x + "BREAKING CHANGE"@ + y));
            let minor = head == feat || (head.len() > 4 && head.take(5) == feat.push('('));
            &&& major ==> bump_of(message) == "major"@
            &&& !major && minor ==> bump_of(message) == "minor"@
            &&& !major && !minor ==> bump_of(message) == "patch"@
        }),
{
    let message = head + tail;
    let words = "BREAKING CHANGE"@;
    let feat = seq!['f', 'e', 'a', 't'];
    lemma_header(head, tail);
    law_contains(message, words, Seq::empty(), Seq::empty());
    if exists|x: Seq<char>, y: Seq<char>| message == #[trigger] (x + words + y) {
        let (x, y) = choose|x: Seq<char>, y: Seq<char>| message == #[trigger] (x + words + y);
        law_contains(message, words, x, y);
    }
    reveal_strlit("feat");
    assert("feat"@ =~= feat);
    lemma_before_is(head, feat);
}

/// What stands before the first `(` is this text exactly where it is all there
/// is, or a `(` follows it.
proof fn lemma_before_is(s: Seq<char>, t: Seq<char>)
    requires
        !t.contains('('),
    ensures
        before(s, '(') == t <==> s == t || (s.len() > t.len() && s.take(t.len() as int + 1)
            == t.push('(')),
{
    let n = t.len() as int;
    lemma_find(s, '(');
    if before(s, '(') == t {
        let k = find(s, '(');
        assert(k == n);
        if k < s.len() {
            assert(s.take(n + 1) =~= s.take(n).push('('));
        } else {
            assert(s.take(n) =~= s);
        }
    }
    if s == t {
        law_before(t, '(', Seq::empty());
    }
    if s.len() > n && s.take(n + 1) == t.push('(') {
        let rest = s.skip(n + 1);
        assert(s =~= s.take(n + 1) + rest);
        assert(s =~= t + seq!['('] + rest);
        law_before(t, '(', rest);
    }
}

/// A scoped message, `t(scope): rest`, without a `!` before the colon and
/// without the words BREAKING CHANGE, is minor where `t` is `feat` and patch
/// for every other type.
pub proof fn law_scope_does_not_count(t: Seq<char>, scope: Seq<char>, rest: Seq<char>)
    requires
        !t.contains('('),
        !t.contains(':') && !scope.contains(':'),
        !t.contains('\n') && !scope.contains('\n'),
        forall|x: Seq<char>, y: Seq<char>|
            t + seq!['('] + scope + seq![')', ':'] + rest != #[trigger] (x + "BREAKING CHANGE"@ + y),
    ensures
        bump_of(t + seq!['('] + scope + seq![')', ':'] + rest) == (if t == "feat"@ {
            "minor"@
        } else {
            "patch"@
        }),
{
    let head = t + seq!['('] + scope + seq![')'];
    let tail = seq![':'] + rest;
    let message = t + seq!['('] + scope + seq![')', ':'] + rest;
    assert(head + tail =~= message);
    assert(!head.contains(':') && !head.contains('\n')) by {
        assert forall|i: int| 0 <= i < head.len() implies head[i] != ':' && head[i] != '\n' by {
            if i < t.len() {
                assert(t.contains(t[i]));
            } else if i > t.len() && i < head.len() - 1 {
                assert(head[i] == scope[i - t.len() - 1]);
                assert(scope.contains(scope[i - t.len() - 1]));
            }
        }
    }
    law_bump_of_any_message(head, tail);
    reveal_strlit("feat");
    let feat = seq!['f', 'e', 'a', 't'];
    assert("feat"@ =~= feat);
    law_before(t, '(', scope + seq![')']);
    assert(head =~= t + seq!['('] + (scope + seq![')']));
    lemma_before_is(head, feat);
    assert(!feat.contains('('));
}

/// A message is a Conventional Commits message exactly where its first line has
/// a colon and one of the ten types stands at its start: alone before the
/// colon, with nothing but `!`s behind it, or with a `(` behind it.
pub proof fn law_conventional_messages(head: Seq<char>, tail: Seq<char>)
    requires
        follows_header(head, tail),
    ensures
        is_conventional(head + tail) <==> tail.len() > 0 && tail[0] == ':' && (is_headed(
            head,
            "feat"@,
        ) || is_headed(head, "fix"@) || is_headed(head, "docs"@) || is_headed(head, "style"@)
            || is_headed(head, "refactor"@) || is_headed(head, "perf"@) || is_headed(head, "test"@)
            || is_headed(head, "build"@) || is_headed(head, "ci"@) || is_headed(head, "chore"@)),
{
    lemma_header(head, tail);
    reveal_strlit("feat");
    reveal_strlit("fix");
    reveal_strlit("docs");
    reveal_strlit("style");
    reveal_strlit("refactor");
    reveal_strlit("perf");
    reveal_strlit("test");
    reveal_strlit("build");
    reveal_strlit("ci");
    reveal_strlit("chore");
    lemma_headed(head, "feat"@);
    lemma_headed(head, "fix"@);
    lemma_headed(head, "docs"@);
    lemma_headed(head, "style"@);
    lemma_headed(head, "refactor"@);
    lemma_headed(head, "perf"@);
    lemma_headed(head, "test"@);
    lemma_headed(head, "build"@);
    lemma_headed(head, "ci"@);
    lemma_headed(head, "chore"@);
}

/// Whether a header is this type, with `!`s or a `(` and more behind it.
pub open spec fn is_headed(head: Seq<char>, t: Seq<char>) -> bool {
    &&& head.len() >= t.len()
    &&& head.take(t.len() as int) == t
    &&& {
        ||| head.len() > t.len() && head[t.len() as int] == '('
        ||| forall|i: int| t.len() <= i < head.len() ==> #[trigger] head[i] == '!'
    }
}

proof fn lemma_headed(head: Seq<char>, t: Seq<char>)
    requires
        t.len() > 0,
        !t.contains('('),
        !t.contains('!'),
    ensures
        is_headed(head, t) <==> before(trim_end_matches(head, '!'), '(') == t,
{
    let n = t.len() as int;
    let cut = trim_end_matches(head, '!');
    lemma_bangs(head);
    lemma_before_is(cut, t);
    let m = cut.len() as int;
    assert(t.contains(t[n - 1]));
    if is_headed(head, t) {
        assert(head[n - 1] == head.take(n)[n - 1]);
        if head.len() > n && head[n] == '(' {
            assert(m > n) by {
                if m <= n {
                    assert(head[n] == '!');
                }
            }
            assert(cut.take(n + 1) =~= t.push('(')) by {
                assert forall|i: int| 0 <= i < n implies cut[i] == t[i] by {
                    assert(head.take(n)[i] == t[i]);
                }
            }
        } else {
            assert(m >= n) by {
                if m < n {
                    assert(head[n - 1] == '!');
                }
            }
            if m > n {
                assert(cut.last() == head[m - 1]);
            }
            assert(cut =~= t) by {
                assert forall|i: int| 0 <= i < n implies cut[i] == t[i] by {
                    assert(head.take(n)[i] == t[i]);
                }
            }
        }
    }
    if before(cut, '(') == t {
        assert(head.take(n) =~= t) by {
            assert forall|i: int| 0 <= i < n implies head[i] == t[i] by {
                assert(cut[i] == head[i]);
                if cut != t {
                    assert(cut.take(n + 1)[i] == t.push('(')[i]);
                }
            }
        }
        if cut != t {
            assert(cut.take(n + 1)[n] == '(');
            assert(head[n] == cut[n]);
        }
    }
}

/// The `!`s at the end of a text are gone when they are trimmed, and nothing
/// else is.
proof fn lemma_bangs(s: Seq<char>)
    ensures
        trim_end_matches(s, '!').len() <= s.len(),
        trim_end_matches(s, '!') == s.take(trim_end_matches(s, '!').len() as int),
        trim_end_matches(s, '!').len() > 0 ==> trim_end_matches(s, '!').last() != '!',
        forall|i: int| trim_end_matches(s, '!').len() <= i < s.len() ==> #[trigger] s[i] == '!',
    decreases s.len(),
{
    if s.len() > 0 && s.last() == '!' {
        lemma_bangs(s.drop_last());
        let n = trim_end_matches(s, '!').len() as int;
        assert(s.drop_last().take(n) =~= s.take(n));
        assert forall|i: int| n <= i < s.len() implies #[trigger] s[i] == '!' by {
            if i < s.len() - 1 {
                assert(s.drop_last()[i] == s[i]);
            }
        }
    } else {
        assert(s.take(s.len() as int) =~= s);
    }
}

/// What is wrong with a message that is refused: there is no colon in its first
/// line, or what stands there before the colon, without `!`s at its end and
/// from a `(` on, is no type. The message is handed back as it was.
pub proof fn law_refused_messages(head: Seq<char>, tail: Seq<char>, e: MessageError)
    requires
        follows_header(head, tail),
        message_error_is(head + tail, e),
    ensures
        !is_conventional(head + tail),
        match e {
            MessageError::NoHeader { message } => {
                &&& message@ == head + tail
                &&& tail.len() == 0 || tail[0] != ':'
            },
            MessageError::UnknownType { type_part, message } => {
                &&& message@ == head + tail
                &&& tail.len() > 0 && tail[0] == ':'
                &&& type_part@ == before(trim_end_matches(head, '!'), '(')
            },
        },
{
    lemma_header(head, tail);
}

/// The text of a patch is made of the texts of its lines, none left out: the
/// text of two patches one after the other is that of the first and then that
/// of the second.
pub proof fn law_diff_text_of_two(a: Seq<(char, Seq<u8>)>, b: Seq<(char, Seq<u8>)>)
    ensures
        diff_text(a + b) == diff_text(a) + diff_text(b),
    decreases b.len(),
{
    if b.len() == 0 {
        assert(a + b =~= a);
        assert(diff_text(a) + diff_text(b) =~= diff_text(a));
    } else {
        assert((a + b).drop_last() =~= a + b.drop_last());
        assert((a + b).last() == b.last());
        law_diff_text_of_two(a, b.drop_last());
        assert(diff_text(a) + (diff_text(b.drop_last()) + diff_line(b.last())) =~= diff_text(a)
            + diff_text(b.drop_last()) + diff_line(b.last()));
    }
}

/// The text of a patch of one line is that line, with its origin in front where
/// the origin says that the line was added or removed or is context. Of a line
/// that is not UTF-8 only the origin is left.
pub proof fn law_diff_text_of_one(origin: char, bytes: Seq<u8>)
    ensures
        ({
            let text = if valid_utf8(bytes) {
                decode_utf8(bytes)
            } else {
                Seq::empty()
            };
            diff_text(seq![(origin, bytes)]) == if origin == '+' || origin == '-' || origin == ' ' {
                seq![origin] + text
            } else {
                text
            }
        }),
        diff_text(Seq::empty()) == Seq::<char>::empty(),
{
    let line = seq![(origin, bytes)];
    assert(line.drop_last() =~= Seq::<(char, Seq<u8>)>::empty());
    assert(diff_text(line.drop_last()) =~= Seq::<char>::empty());
    assert(diff_text(line) =~= diff_line((origin, bytes)));
}

/// The lines of a patch are taken as they are, one by one.
pub proof fn law_patch_lines(lines: Seq<(char, Vec<u8>)>, i: int)
    ensures
        patch_lines(lines).len() == lines.len(),
        0 <= i < lines.len() ==> patch_lines(lines)[i] == (lines[i].0, lines[i].1@),
        all_utf8(patch_lines(lines)) <==> forall|j: int|
            0 <= j < lines.len() ==> valid_utf8((#[trigger] lines[j]).1@),
{
    let all = patch_lines(lines);
    if all_utf8(all) {
        assert forall|j: int| 0 <= j < lines.len() implies valid_utf8((#[trigger] lines[j]).1@) by {
            assert(decoded(all[j].1) is Some);
        }
    }
}

} // verus!
