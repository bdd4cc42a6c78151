//! Glob patterns: which repository paths they pick out.

use crate::text::{of_chars, part, texts, to_chars};
use vstd::prelude::*;

verus! {

// ---------------------------------------------------------------------------
// The model
// ---------------------------------------------------------------------------

/// What matching `path` against the Unix shell style `pattern` gives: `None`
/// for a pattern that is not valid. Letter case counts and a leading dot is
/// nothing special. With `literal_separator`, only a `/` of the pattern matches
/// a `/` of the path; without it, wildcards match one too.
pub uninterp spec fn glob_outcome(
    pattern: Seq<char>,
    path: Seq<char>,
    literal_separator: bool,
) -> Option<bool>;

/// What stands behind the last `/` of a path: the name of the file.
pub open spec fn file_name(path: Seq<char>) -> Seq<char>
    decreases path.len(),
{
    if path.len() == 0 || path.last() == '/' {
        Seq::empty()
    } else {
        file_name(path.drop_last()).push(path.last())
    }
}

/// Whether a pattern of the configuration picks out a path. A pattern without
/// a `/` is held against the name of the file, so that it matches at any
/// depth; one with a `/` is held against the whole path. An invalid pattern
/// picks out nothing.
pub open spec fn picks(pattern: Seq<char>, path: Seq<char>) -> bool {
    let subject = if pattern.contains('/') {
        path
    } else {
        file_name(path)
    };
    glob_outcome(pattern, subject, true) == Some(true)
}

/// Whether one of the patterns of the configuration picks out a path.
pub open spec fn picked(globs: Seq<Seq<char>>, path: Seq<char>) -> bool {
    exists|i: int| 0 <= i < globs.len() && picks(#[trigger] globs[i], path)
}

/// Whether one of the patterns matches the whole path, its `/`s like any other
/// character. An invalid pattern matches nothing.
pub open spec fn ignored(patterns: Seq<Seq<char>>, path: Seq<char>) -> bool {
    exists|i: int|
        0 <= i < patterns.len() && glob_outcome(#[trigger] patterns[i], path, false) == Some(true)
}

// ---------------------------------------------------------------------------
// The functions
// ---------------------------------------------------------------------------

/// `glob::Pattern::new`, and `glob::Pattern::matches_with` of the pattern that
/// it made: the outcome is a function of the two texts and of the one option
/// that is set here, and `None` says that the pattern is not valid. The lone
/// `*` is valid and matches every text without a `/`. This is said of systems
/// whose only path separator is `/`.
#[verifier::external_body]
fn glob_match(pattern: &str, path: &str, literal_separator: bool) -> (r: Option<bool>)
    ensures
        r == glob_outcome(pattern@, path@, literal_separator),
        pattern@ == seq!['*'] && !path@.contains('/') ==> r == Some(true),
{
    let options = glob::MatchOptions {
        case_sensitive: true,
        require_literal_separator: literal_separator,
        require_literal_leading_dot: false,
    };
    glob::Pattern::new(pattern).ok().map(|p| p.matches_with(path, options))
}

/// The name of the file at the end of a path.
pub(crate) fn file_name_of(path: &str) -> (r: String)
    ensures
        r@ == file_name(path@),
{
    let all = to_chars(path);
    let mut from: usize = all.len();
    assert(path@.take(from as int) =~= path@);
    assert(file_name(path@) + path@.skip(from as int) =~= file_name(path@));
    while from > 0 && all[from - 1] != '/'
        invariant
            from <= all@.len(),
            all@ == path@,
            file_name(path@) == file_name(path@.take(from as int)) + path@.skip(from as int),
        decreases from,
    {
        let ghost head = path@.take(from as int);
        assert(head.drop_last() =~= path@.take(from - 1));
        assert(file_name(head.drop_last()).push(head.last()) + path@.skip(from as int)
            =~= file_name(head.drop_last()) + path@.skip(from - 1));
        from = from - 1;
    }
    assert(file_name(path@.take(from as int)) =~= Seq::<char>::empty());
    assert(Seq::<char>::empty() + path@.skip(from as int) =~= path@.skip(from as int));
    let name = part(all.as_slice(), from, all.len());
    assert(name@ =~= path@.skip(from as int));
    of_chars(name)
}

/// Whether a pattern of the configuration picks out a path. The pattern `*`
/// picks out every path.
pub fn path_matches(pattern: &str, path: &str) -> (r: bool)
    ensures
        r == picks(pattern@, path@),
        pattern@ == seq!['*'] ==> r,
{
    let chars = to_chars(pattern);
    let mut anchored = false;
    let mut i: usize = 0;
    while i < chars.len()
        invariant
            i <= chars@.len(),
            chars@ == pattern@,
            anchored <==> exists|j: int| 0 <= j < i && pattern@[j] == '/',
        decreases chars@.len() - i,
    {
        if chars[i] == '/' {
            anchored = true;
        }
        i = i + 1;
    }
    if anchored {
        match glob_match(pattern, path, true) {
            Some(m) => m,
            None => false,
        }
    } else {
        let name = file_name_of(path);
        proof {
            lemma_file_name(path@);
        }
        match glob_match(pattern, name.as_str(), true) {
            Some(m) => m,
            None => false,
        }
    }
}

/// Whether one of the patterns of the configuration picks out a path. A list
/// that holds `*` picks out every path, and an empty list none.
pub fn matches_any(globs: &[String], path: &str) -> (r: bool)
    ensures
        r == picked(texts(globs@), path@),
        texts(globs@).contains(seq!['*']) ==> r,
{
    let mut i: usize = 0;
    while i < globs.len()
        invariant
            i <= globs@.len(),
            forall|j: int| 0 <= j < i ==> !picks(#[trigger] texts(globs@)[j], path@),
            forall|j: int| 0 <= j < i ==> #[trigger] texts(globs@)[j] != seq!['*'],
        decreases globs@.len() - i,
    {
        assert(texts(globs@)[i as int] == globs@[i as int]@);
        if path_matches(globs[i].as_str(), path) {
            return true;
        }
        i = i + 1;
    }
    false
}

/// Whether one of the patterns matches the whole path, with wildcards that
/// match a `/` too.
pub fn is_ignored(patterns: &[String], path: &str) -> (r: bool)
    ensures
        r == ignored(texts(patterns@), path@),
{
    let mut i: usize = 0;
    while i < patterns.len()
        invariant
            i <= patterns@.len(),
            forall|j: int|
                0 <= j < i ==> glob_outcome(#[trigger] texts(patterns@)[j], path@, false) != Some(
                    true,
                ),
        decreases patterns@.len() - i,
    {
        assert(texts(patterns@)[i as int] == patterns@[i as int]@);
        match glob_match(patterns[i].as_str(), path, false) {
            Some(true) => {
                return true;
            },
            _ => {},
        }
        i = i + 1;
    }
    false
}

// ---------------------------------------------------------------------------
// Facts and laws
// ---------------------------------------------------------------------------

/// The name of a file holds no `/`.
pub proof fn lemma_file_name(path: Seq<char>)
    ensures
        !file_name(path).contains('/'),
    decreases path.len(),
{
    if path.len() > 0 && path.last() != '/' {
        let rest = file_name(path.drop_last());
        lemma_file_name(path.drop_last());
        if file_name(path).contains('/') {
            let i = choose|i: int| 0 <= i < file_name(path).len() && file_name(path)[i] == '/';
            if i < rest.len() {
                assert(rest[i] == '/');
                assert(rest.contains('/'));
            }
        }
    }
}

/// The name of the file in a directory is that of the file alone.
proof fn lemma_file_name_below(dir: Seq<char>, path: Seq<char>)
    ensures
        file_name(dir + seq!['/'] + path) == file_name(path),
    decreases path.len(),
{
    let whole = dir + seq!['/'] + path;
    if path.len() == 0 {
        assert(whole =~= dir + seq!['/']);
    } else {
        assert(whole.last() == path.last());
        assert(whole.drop_last() =~= dir + seq!['/'] + path.drop_last());
        lemma_file_name_below(dir, path.drop_last());
    }
}

/// A pattern without a `/` matches at any depth: whether it picks out a path
/// does not depend on the directory that the path lies in.
pub proof fn law_plain_pattern_matches_at_any_depth(
    pattern: Seq<char>,
    dir: Seq<char>,
    path: Seq<char>,
)
    requires
        !pattern.contains('/'),
    ensures
        picks(pattern, dir + seq!['/'] + path) == picks(pattern, path),
{
    lemma_file_name_below(dir, path);
}

/// The name of a file is what stands behind the last `/` of its path, and all of
/// a path without one.
pub proof fn law_file_name(dir: Seq<char>, name: Seq<char>)
    requires
        !name.contains('/'),
    ensures
        file_name(dir + seq!['/'] + name) == name,
        file_name(name) == name,
    decreases name.len(),
{
    lemma_file_name_below(dir, name);
    if name.len() > 0 {
        assert(name.contains(name.last()));
        let rest = name.drop_last();
        assert(!rest.contains('/')) by {
            if rest.contains('/') {
                let i = choose|i: int| 0 <= i < rest.len() && rest[i] == '/';
                assert(name[i] == '/');
            }
        }
        law_file_name(dir, rest);
        assert(rest.push(name.last()) =~= name);
    } else {
        assert(name =~= Seq::<char>::empty());
    }
}

/// A pattern with a `/` is matched against the whole path, and one without it
/// against the name of the file; only a `/` matches a `/`.
pub proof fn law_what_a_pattern_picks(pattern: Seq<char>, dir: Seq<char>, name: Seq<char>)
    requires
        !name.contains('/'),
    ensures
        ({
            let path = dir + seq!['/'] + name;
            &&& pattern.contains('/') ==> {
                &&& picks(pattern, path) <==> glob_outcome(pattern, path, true) == Some(true)
                &&& picks(pattern, name) <==> glob_outcome(pattern, name, true) == Some(true)
            }
            &&& !pattern.contains('/') ==> {
                &&& picks(pattern, path) <==> glob_outcome(pattern, name, true) == Some(true)
                &&& picks(pattern, name) <==> glob_outcome(pattern, name, true) == Some(true)
            }
        }),
{
    law_file_name(dir, name);
}

/// A list of patterns picks out a path exactly where one of its patterns alone
/// does, wherever that one stands: two lists together pick out what either of
/// them does, and an empty list nothing.
pub proof fn law_patterns_pick_one_by_one(
    a: Seq<Seq<char>>,
    b: Seq<Seq<char>>,
    pattern: Seq<char>,
    path: Seq<char>,
)
    ensures
        picked(a + b, path) <==> picked(a, path) || picked(b, path),
        picked(a + b, path) <==> picked(b + a, path),
        picked(seq![pattern], path) <==> picks(pattern, path),
        !picked(Seq::empty(), path),
{
    lemma_picked_of_two(a, b, path);
    lemma_picked_of_two(b, a, path);
    let one = seq![pattern];
    assert(one[0] == pattern);
    if picks(pattern, path) {
        assert(picks(one[0], path));
    }
}

proof fn lemma_picked_of_two(a: Seq<Seq<char>>, b: Seq<Seq<char>>, path: Seq<char>)
    ensures
        picked(a + b, path) <==> picked(a, path) || picked(b, path),
{
    let all = a + b;
    if picked(all, path) {
        let i = choose|i: int| 0 <= i < all.len() && picks(#[trigger] all[i], path);
        if i < a.len() {
            assert(picks(a[i], path));
        } else {
            assert(picks(b[i - a.len()], path));
        }
    }
    if picked(a, path) {
        let i = choose|i: int| 0 <= i < a.len() && picks(#[trigger] a[i], path);
        assert(picks(all[i], path));
    }
    if picked(b, path) {
        let i = choose|i: int| 0 <= i < b.len() && picks(#[trigger] b[i], path);
        assert(all[a.len() + i] == b[i]);
        assert(picks(all[a.len() + i], path));
    }
}

/// Ignore patterns work one by one too; each is matched against the whole path,
/// and its wildcards match a `/` as well.
pub proof fn law_patterns_ignore_one_by_one(
    a: Seq<Seq<char>>,
    b: Seq<Seq<char>>,
    pattern: Seq<char>,
    path: Seq<char>,
)
    ensures
        ignored(a + b, path) <==> ignored(a, path) || ignored(b, path),
        ignored(seq![pattern], path) <==> glob_outcome(pattern, path, false) == Some(true),
        !ignored(Seq::empty(), path),
{
    let all = a + b;
    if ignored(all, path) {
        let i = choose|i: int|
            0 <= i < all.len() && glob_outcome(#[trigger] all[i], path, false) == Some(true);
        if i < a.len() {
            assert(glob_outcome(a[i], path, false) == Some(true));
        } else {
            assert(glob_outcome(b[i - a.len()], path, false) == Some(true));
        }
    }
    if ignored(a, path) {
        let i = choose|i: int|
            0 <= i < a.len() && glob_outcome(#[trigger] a[i], path, false) == Some(true);
        assert(glob_outcome(all[i], path, false) == Some(true));
    }
    if ignored(b, path) {
        let i = choose|i: int|
            0 <= i < b.len() && glob_outcome(#[trigger] b[i], path, false) == Some(true);
        assert(all[a.len() + i] == b[i]);
        assert(glob_outcome(all[a.len() + i], path, false) == Some(true));
    }
    let one = seq![pattern];
    assert(one[0] == pattern);
}

} // verus!
