//! Version markers in generated files, brought in line with a release.

use crate::tags::{bare_text, Semver};
use crate::text::{
    copy_chars, decimal, find, find_char, is_digit, join, join_pieces, law_join,
    lemma_decimal_value, lemma_find, lemma_find_is, lemma_join_split, lemma_split_join,
    lemma_split_none, lemma_split_of_two, lemma_split_pieces, part, pieces, split, split_char,
    starts_with, starts_with_chars, to_chars,
};
use vstd::prelude::*;

verus! {

// ---------------------------------------------------------------------------
// The model
// ---------------------------------------------------------------------------

/// The length of what stands between the first two double quotes of a line,
/// or -1 where there are no two.
pub open spec fn quoted_len(line: Seq<char>) -> int {
    let a = find(line, '"');
    if a < line.len() {
        let rest = line.skip(a + 1);
        let b = find(rest, '"');
        if b < rest.len() {
            b
        } else {
            -1
        }
    } else {
        -1
    }
}

/// A line with `version` between its first two double quotes. A line without
/// two double quotes stays as it is.
pub open spec fn requoted(line: Seq<char>, version: Seq<char>) -> Seq<char> {
    let a = find(line, '"');
    let b = quoted_len(line);
    if b >= 0 {
        line.take(a + 1) + version + line.skip(a + 1 + b)
    } else {
        line
    }
}

/// A line of `build.gradle.kts`: where it begins with `version = `, the first
/// string in it becomes the version.
pub open spec fn gradle_line(line: Seq<char>, version: Seq<char>) -> Seq<char> {
    if starts_with(line, "version = "@) {
        requoted(line, version)
    } else {
        line
    }
}

/// A line of `package.json`: where it holds the top-level `version`, the string
/// behind that name becomes the version.
pub open spec fn package_line(line: Seq<char>, version: Seq<char>) -> Seq<char> {
    let name = "  \"version\": "@;
    if starts_with(line, name) {
        name + requoted(line.skip(name.len() as int), version)
    } else {
        line
    }
}

/// `build.gradle.kts` with the version in each line that gives one. All else,
/// line ends included, stays.
pub open spec fn gradle_synced(content: Seq<char>, version: Seq<char>) -> Seq<char> {
    join(split(content, '\n').map_values(|l: Seq<char>| gradle_line(l, version)), seq!['\n'])
}

/// `package.json` with the version in the line that gives it. All else stays.
pub open spec fn package_synced(content: Seq<char>, version: Seq<char>) -> Seq<char> {
    join(split(content, '\n').map_values(|l: Seq<char>| package_line(l, version)), seq!['\n'])
}

/// The number of digits at the start of a text.
pub open spec fn digit_run(s: Seq<char>) -> nat
    decreases s.len(),
{
    if s.len() > 0 && is_digit(s[0]) {
        1 + digit_run(s.drop_first())
    } else {
        0
    }
}

/// The length of the version `X.Y.Z` that a text begins with, or 0 where it
/// begins with none.
pub open spec fn version_len(s: Seq<char>) -> nat {
    let a = digit_run(s);
    let b = digit_run(s.skip(a as int + 1));
    let c = digit_run(s.skip(a as int + 1 + b as int + 1));
    if a > 0 && a < s.len() && s[a as int] == '.' && b > 0 && a + 1 + b < s.len() && s[a as int + 1
        + b as int] == '.' && c > 0 {
        a + 1 + b + 1 + c
    } else {
        0
    }
}

/// `README.md` with the version behind each `@` that a version stands behind,
/// as in `npm install client@1.2.3`. All else stays.
pub open spec fn readme_synced(s: Seq<char>, version: Seq<char>) -> Seq<char>
    decreases s.len(),
{
    if s.len() == 0 {
        s
    } else {
        let n = version_len(s.drop_first());
        if s[0] == '@' && 0 < n < s.len() {
            seq!['@'] + version + readme_synced(s.skip(1 + n as int), version)
        } else {
            seq![s[0]] + readme_synced(s.drop_first(), version)
        }
    }
}

// ---------------------------------------------------------------------------
// The functions
// ---------------------------------------------------------------------------

/// A line with `version` between its first two double quotes.
fn requote(line: &[char], version: &[char]) -> (r: Vec<char>)
    ensures
        r@ == requoted(line@, version@),
{
    let a = find_char(line, '"');
    if a < line.len() {
        let rest = part(line, a + 1, line.len());
        assert(rest@ =~= line@.skip(a + 1));
        let b = find_char(rest, '"');
        if b < rest.len() {
            let head = part(line, 0, a + 1);
            assert(head@ =~= line@.take(a + 1));
            let tail = part(rest, b, rest.len());
            assert(tail@ =~= line@.skip(a + 1 + b));
            return concat3(head, version, tail);
        }
    }
    copy_chars(line)
}

/// Three pieces one after the other.
fn concat3(a: &[char], b: &[char], c: &[char]) -> (r: Vec<char>)
    ensures
        r@ == a@ + b@ + c@,
{
    let mut r = copy_chars(a);
    extend(&mut r, b);
    extend(&mut r, c);
    r
}

/// Appends characters to characters.
fn extend(r: &mut Vec<char>, v: &[char])
    ensures
        final(r)@ == old(r)@ + v@,
{
    let ghost start = r@;
    let mut i: usize = 0;
    assert(start + v@.take(0) =~= start);
    while i < v.len()
        invariant
            i <= v@.len(),
            r@ == start + v@.take(i as int),
        decreases v@.len() - i,
    {
        r.push(v[i]);
        i = i + 1;
        assert(start + v@.take(i as int) =~= (start + v@.take(i - 1)).push(v@[i - 1]));
    }
    assert(v@.take(v@.len() as int) =~= v@);
}

/// Update the `version = "X.Y.Z"` lines of `build.gradle.kts` to the released
/// version: in each line that begins with `version = `, the first string is
/// replaced, and nothing else.
pub fn sync_kotlin_versions(content: &str, version: &str) -> (r: String)
    ensures
        r@ == gradle_synced(content@, version@),
{
    let all = to_chars(content);
    let new = to_chars(version);
    let marker = to_chars("version = ");
    let rows = split_char(all.as_slice(), '\n');
    let ghost target = split(content@, '\n').map_values(|l: Seq<char>| gradle_line(l, version@));
    let mut out: Vec<Vec<char>> = Vec::new();
    let mut i: usize = 0;
    while i < rows.len()
        invariant
            i <= rows@.len(),
            marker@ == "version = "@,
            new@ == version@,
            pieces(rows@) == split(content@, '\n'),
            target == split(content@, '\n').map_values(|l: Seq<char>| gradle_line(l, version@)),
            pieces(out@) == target.take(i as int),
        decreases rows@.len() - i,
    {
        let ghost was = out@;
        let row = rows[i].as_slice();
        assert(pieces(rows@)[i as int] == row@);
        let line = if starts_with_chars(row, marker.as_slice()) {
            requote(row, new.as_slice())
        } else {
            copy_chars(row)
        };
        assert(line@ == target[i as int]);
        out.push(line);
        i = i + 1;
        assert(pieces(out@) =~= pieces(was).push(line@));
        assert(target.take(i as int) =~= target.take(i - 1).push(target[i - 1]));
    }
    assert(target.take(i as int) =~= target);
    proof {
        reveal_strlit("\n");
        assert("\n"@ =~= seq!['\n']);
    }
    join_pieces(&out, "\n")
}

/// Update the top-level `version` of `package.json` to the released version.
pub fn sync_package_version(content: &str, version: &str) -> (r: String)
    ensures
        r@ == package_synced(content@, version@),
{
    let all = to_chars(content);
    let new = to_chars(version);
    let name = to_chars("  \"version\": ");
    let none: Vec<char> = Vec::new();
    let rows = split_char(all.as_slice(), '\n');
    let ghost target = split(content@, '\n').map_values(|l: Seq<char>| package_line(l, version@));
    let mut out: Vec<Vec<char>> = Vec::new();
    let mut i: usize = 0;
    while i < rows.len()
        invariant
            i <= rows@.len(),
            name@ == "  \"version\": "@,
            new@ == version@,
            none@ == Seq::<char>::empty(),
            pieces(rows@) == split(content@, '\n'),
            target == split(content@, '\n').map_values(|l: Seq<char>| package_line(l, version@)),
            pieces(out@) == target.take(i as int),
        decreases rows@.len() - i,
    {
        let ghost was = out@;
        let row = rows[i].as_slice();
        assert(pieces(rows@)[i as int] == row@);
        let line = if starts_with_chars(row, name.as_slice()) {
            let value = part(row, name.len(), row.len());
            assert(value@ =~= row@.skip(name@.len() as int));
            let changed = requote(value, new.as_slice());
            assert(name@ + changed@ + none@ =~= name@ + changed@);
            concat3(name.as_slice(), changed.as_slice(), none.as_slice())
        } else {
            copy_chars(row)
        };
        assert(line@ == target[i as int]);
        out.push(line);
        i = i + 1;
        assert(pieces(out@) =~= pieces(was).push(line@));
        assert(target.take(i as int) =~= target.take(i - 1).push(target[i - 1]));
    }
    assert(target.take(i as int) =~= target);
    proof {
        reveal_strlit("\n");
        assert("\n"@ =~= seq!['\n']);
    }
    join_pieces(&out, "\n")
}

/// The number of digits at the start of a text.
fn count_digits(s: &[char]) -> (r: usize)
    ensures
        r == digit_run(s@),
        r <= s@.len(),
{
    let mut i: usize = 0;
    assert(s@.skip(0) =~= s@);
    while i < s.len() && '0' <= s[i] && s[i] <= '9'
        invariant
            i <= s@.len(),
            digit_run(s@) == i + digit_run(s@.skip(i as int)),
        decreases s@.len() - i,
    {
        assert(s@.skip(i as int).drop_first() =~= s@.skip(i + 1));
        i = i + 1;
    }
    i
}

/// The length of the version that a text begins with, or 0.
fn version_at(s: &[char]) -> (r: usize)
    ensures
        r == version_len(s@),
        r <= s@.len(),
{
    let a = count_digits(s);
    if a == 0 || a >= s.len() || s[a] != '.' {
        return 0;
    }
    let second = part(s, a + 1, s.len());
    assert(second@ =~= s@.skip(a + 1));
    let b = count_digits(second);
    if b == 0 || b >= second.len() || second[b] != '.' {
        return 0;
    }
    let third = part(second, b + 1, second.len());
    assert(third@ =~= s@.skip(a + 1 + b + 1));
    let c = count_digits(third);
    if c == 0 {
        return 0;
    }
    a + 1 + b + 1 + c
}

/// Update each `@X.Y.Z` of `README.md` to the released version.
pub fn sync_readme_version(content: &str, version: &str) -> (r: String)
    ensures
        r@ == readme_synced(content@, version@),
{
    let all = to_chars(content);
    let mut r: String = String::new();
    let mut i: usize = 0;
    assert(content@.skip(0) =~= content@);
    assert(r@ + readme_synced(content@, version@) =~= readme_synced(content@, version@));
    while i < all.len()
        invariant
            i <= all@.len(),
            all@ == content@,
            r@ + readme_synced(content@.skip(i as int), version@) == readme_synced(
                content@,
                version@,
            ),
        decreases all@.len() - i,
    {
        let ghost was = r@;
        let ghost rest = content@.skip(i as int);
        let behind = part(all.as_slice(), i + 1, all.len());
        assert(behind@ =~= rest.drop_first());
        let n = if all[i] == '@' {
            version_at(behind)
        } else {
            0
        };
        r.push(all[i]);
        if n > 0 {
            r.append(version);
            assert(rest.skip(1 + n as int) =~= content@.skip(i + 1 + n));
            assert(r@ =~= was + (seq!['@'] + version@));
            assert(was + (seq!['@'] + version@ + readme_synced(rest.skip(1 + n as int), version@))
                =~= r@ + readme_synced(content@.skip(i + 1 + n), version@));
        } else {
            assert(rest.drop_first() =~= content@.skip(i + 1));
            assert(was + (seq![rest[0]] + readme_synced(rest.drop_first(), version@)) =~= r@
                + readme_synced(content@.skip(i + 1), version@));
        }
        i = i + 1 + n;
    }
    assert(content@.skip(i as int) =~= Seq::<char>::empty());
    assert(r@ + Seq::<char>::empty() =~= r@);
    r
}

// ---------------------------------------------------------------------------
// Facts and laws
// ---------------------------------------------------------------------------

/// A version is written with digits and dots alone.
proof fn lemma_version_chars(v: Semver, c: char)
    requires
        !is_digit(c),
        c != '.',
    ensures
        !bare_text(v).contains(c),
{
    lemma_decimal_value(v.major as nat);
    lemma_decimal_value(v.minor as nat);
    lemma_decimal_value(v.patch as nat);
    let a = decimal(v.major as nat);
    let b = decimal(v.minor as nat);
    let d = decimal(v.patch as nat);
    let s = bare_text(v);
    assert forall|i: int| 0 <= i < s.len() implies s[i] != c by {
        if i < a.len() {
            assert(s[i] == a[i]);
            assert(is_digit(a[i]));
        } else if i == a.len() {
        } else if i < a.len() + 1 + b.len() {
            assert(s[i] == b[i - a.len() - 1]);
            assert(is_digit(b[i - a.len() - 1]));
        } else if i == a.len() + 1 + b.len() {
        } else {
            assert(s[i] == d[i - a.len() - 1 - b.len() - 1]);
            assert(is_digit(d[i - a.len() - 1 - b.len() - 1]));
        }
    }
}

/// Changing the quoted text twice is changing it once, to the second text; what
/// stands before the first quote is not touched.
proof fn lemma_requoted_twice(line: Seq<char>, v: Seq<char>, w: Seq<char>)
    requires
        !v.contains('"'),
    ensures
        requoted(requoted(line, v), w) == requoted(line, w),
        find(requoted(line, v), '"') == find(line, '"'),
        requoted(line, v).take(find(line, '"')) == line.take(find(line, '"')),
        forall|c: char|
            #![auto]
            !line.contains(c) && !v.contains(c) ==> !requoted(line, v).contains(c),
{
    let a = find(line, '"');
    lemma_find(line, '"');
    let b = quoted_len(line);
    let new = requoted(line, v);
    if b >= 0 {
        let rest = line.skip(a + 1);
        lemma_find(rest, '"');
        let tail = line.skip(a + 1 + b);
        assert(tail[0] == rest[b]);
        assert forall|j: int| 0 <= j < a implies new[j] != '"' by {
            assert(new[j] == line[j]);
        }
        assert(new[a] == line[a]);
        lemma_find_is(new, '"', a);
        let behind = new.skip(a + 1);
        assert(behind =~= v + tail);
        assert forall|j: int| 0 <= j < v.len() implies behind[j] != '"' by {
            assert(behind[j] == v[j]);
            assert(v.contains(v[j]));
        }
        assert(behind[v.len() as int] == tail[0]);
        lemma_find_is(behind, '"', v.len() as int);
        assert(quoted_len(new) == v.len());
        assert(new.take(a + 1) =~= line.take(a + 1));
        assert(new.skip(a + 1 + v.len()) =~= tail);
        assert(new.take(a) =~= line.take(a));
        assert forall|c: char| #![auto] !line.contains(c) && !v.contains(c) implies !new.contains(
            c,
        ) by {
            if new.contains(c) {
                let i = choose|i: int| 0 <= i < new.len() && new[i] == c;
                if i < a + 1 {
                    assert(line[i] == c);
                } else if i < a + 1 + v.len() {
                    assert(v[i - a - 1] == c);
                } else {
                    assert(line[i - v.len() + b] == c);
                }
            }
        }
    }
}

/// A marker without a double quote that a line begins with is still there when
/// the quoted text has changed.
proof fn lemma_marker_stays(line: Seq<char>, marker: Seq<char>, v: Seq<char>)
    requires
        starts_with(line, marker),
        !marker.contains('"'),
        !v.contains('"'),
    ensures
        starts_with(requoted(line, v), marker),
{
    lemma_requoted_twice(line, v, v);
    lemma_find(line, '"');
    let a = find(line, '"');
    let n = marker.len() as int;
    if a < n {
        assert(line.take(n)[a] == line[a]);
        assert(marker[a] == '"');
    }
    let new = requoted(line, v);
    assert(new.take(a).take(n) =~= line.take(n));
    assert(new.take(a).take(n) =~= new.take(n));
    assert(new.len() >= a) by {
        lemma_find(new, '"');
    }
}

/// Bringing `build.gradle.kts` in line with one release and then with another
/// is bringing it in line with the other: no trace of the first is left. In
/// particular, doing it again changes nothing.
pub proof fn law_gradle_sync_leaves_no_trace(content: Seq<char>, first: Semver, then: Semver)
    ensures
        gradle_synced(gradle_synced(content, bare_text(first)), bare_text(then)) == gradle_synced(
            content,
            bare_text(then),
        ),
{
    lemma_version_chars(first, '"');
    lemma_version_chars(first, '\n');
    law_gradle_sync_leaves_no_trace_of_any(content, bare_text(first), bare_text(then));
}

/// The same of any two texts in place of the releases, as long as the first
/// holds neither a double quote nor a line feed.
pub proof fn law_gradle_sync_leaves_no_trace_of_any(
    content: Seq<char>,
    first: Seq<char>,
    then: Seq<char>,
)
    requires
        !first.contains('"'),
        !first.contains('\n'),
    ensures
        gradle_synced(gradle_synced(content, first), then) == gradle_synced(content, then),
{
    let v = first;
    let w = then;
    let rows = split(content, '\n');
    let once = rows.map_values(|l: Seq<char>| gradle_line(l, v));
    let marker = "version = "@;
    reveal_strlit("version = ");
    assert(!marker.contains('"'));
    lemma_split_pieces(content, '\n');
    lemma_join_split(content, '\n');
    assert forall|i: int| 0 <= i < once.len() implies !(#[trigger] once[i]).contains('\n')
        && gradle_line(once[i], w) == gradle_line(rows[i], w) by {
        assert(!rows[i].contains('\n'));
        lemma_requoted_twice(rows[i], v, w);
        if starts_with(rows[i], marker) {
            lemma_marker_stays(rows[i], marker, v);
        }
    }
    lemma_split_join(once, '\n');
    assert(once.map_values(|l: Seq<char>| gradle_line(l, w)) =~= rows.map_values(
        |l: Seq<char>| gradle_line(l, w),
    ));
}

/// The same of `package.json`.
pub proof fn law_package_sync_leaves_no_trace(content: Seq<char>, first: Semver, then: Semver)
    ensures
        package_synced(package_synced(content, bare_text(first)), bare_text(then))
            == package_synced(content, bare_text(then)),
{
    lemma_version_chars(first, '"');
    lemma_version_chars(first, '\n');
    law_package_sync_leaves_no_trace_of_any(content, bare_text(first), bare_text(then));
}

/// The same of any two texts in place of the releases, as long as the first
/// holds neither a double quote nor a line feed.
pub proof fn law_package_sync_leaves_no_trace_of_any(
    content: Seq<char>,
    first: Seq<char>,
    then: Seq<char>,
)
    requires
        !first.contains('"'),
        !first.contains('\n'),
    ensures
        package_synced(package_synced(content, first), then) == package_synced(content, then),
{
    let v = first;
    let w = then;
    let rows = split(content, '\n');
    let once = rows.map_values(|l: Seq<char>| package_line(l, v));
    let name = "  \"version\": "@;
    reveal_strlit("  \"version\": ");
    assert(!name.contains('\n'));
    lemma_split_pieces(content, '\n');
    lemma_join_split(content, '\n');
    assert forall|i: int| 0 <= i < once.len() implies !(#[trigger] once[i]).contains('\n')
        && package_line(once[i], w) == package_line(rows[i], w) by {
        assert(!rows[i].contains('\n'));
        if starts_with(rows[i], name) {
            let value = rows[i].skip(name.len() as int);
            assert(!value.contains('\n')) by {
                if value.contains('\n') {
                    let k = choose|k: int| 0 <= k < value.len() && value[k] == '\n';
                    assert(rows[i][k + name.len()] == '\n');
                }
            }
            lemma_requoted_twice(value, v, w);
            let changed = requoted(value, v);
            assert(once[i] == name + changed);
            assert((name + changed).take(name.len() as int) =~= name);
            assert((name + changed).skip(name.len() as int) =~= changed);
            if once[i].contains('\n') {
                let k = choose|k: int| 0 <= k < once[i].len() && once[i][k] == '\n';
                if k < name.len() {
                    assert(name[k] == '\n');
                } else {
                    assert(changed[k - name.len()] == '\n');
                }
            }
        }
    }
    lemma_split_join(once, '\n');
    assert(once.map_values(|l: Seq<char>| package_line(l, w)) =~= rows.map_values(
        |l: Seq<char>| package_line(l, w),
    ));
}

/// The number of digits at the start of a text is within it; there are digits
/// up to there, and none at that place.
proof fn lemma_digit_run(s: Seq<char>)
    ensures
        digit_run(s) <= s.len(),
        forall|i: int| 0 <= i < digit_run(s) ==> is_digit(#[trigger] s[i]),
        digit_run(s) < s.len() ==> !is_digit(s[digit_run(s) as int]),
    decreases s.len(),
{
    if s.len() > 0 && is_digit(s[0]) {
        lemma_digit_run(s.drop_first());
        assert forall|i: int| 0 <= i < digit_run(s) implies is_digit(#[trigger] s[i]) by {
            if i > 0 {
                assert(s[i] == s.drop_first()[i - 1]);
            }
        }
    }
}

/// Digits that no digit follows are counted as they are.
proof fn lemma_digit_run_is(s: Seq<char>, n: int)
    requires
        0 <= n <= s.len(),
        forall|i: int| 0 <= i < n ==> is_digit(#[trigger] s[i]),
        n < s.len() ==> !is_digit(s[n]),
    ensures
        digit_run(s) == n,
{
    lemma_digit_run(s);
    let k = digit_run(s) as int;
    if k < n {
        assert(is_digit(s[k]));
    } else if n < k {
        assert(is_digit(s[n]));
    }
}

/// The text of a version is a version from end to end.
proof fn lemma_version_len_of(v: Semver)
    ensures
        version_len(bare_text(v)) == bare_text(v).len(),
        bare_text(v).len() > 0,
{
    let a = decimal(v.major as nat);
    let b = decimal(v.minor as nat);
    let c = decimal(v.patch as nat);
    lemma_decimal_value(v.major as nat);
    lemma_decimal_value(v.minor as nat);
    lemma_decimal_value(v.patch as nat);
    let s = bare_text(v);
    let second = s.skip(a.len() as int + 1);
    let third = s.skip(a.len() as int + 1 + b.len() as int + 1);
    assert(s[a.len() as int] == '.');
    assert forall|i: int| 0 <= i < a.len() implies is_digit(#[trigger] s[i]) by {
        assert(s[i] == a[i]);
    }
    lemma_digit_run_is(s, a.len() as int);
    assert(second[b.len() as int] == '.');
    assert forall|i: int| 0 <= i < b.len() implies is_digit(#[trigger] second[i]) by {
        assert(second[i] == b[i]);
    }
    lemma_digit_run_is(second, b.len() as int);
    assert(third =~= c);
    assert forall|i: int| 0 <= i < c.len() implies is_digit(#[trigger] third[i]) by {
        assert(third[i] == c[i]);
    }
    lemma_digit_run_is(third, c.len() as int);
}

/// A text that is a version from end to end, with no digit behind it.
proof fn lemma_version_len_before(v: Seq<char>, tail: Seq<char>)
    requires
        v.len() > 0,
        version_len(v) == v.len(),
        tail.len() > 0 ==> !is_digit(tail[0]),
    ensures
        version_len(v + tail) == v.len(),
{
    let s = v + tail;
    let a = digit_run(v) as int;
    let v2 = v.skip(a + 1);
    let b = digit_run(v2) as int;
    let v3 = v.skip(a + 1 + b + 1);
    lemma_digit_run(v);
    lemma_digit_run(v2);
    lemma_digit_run(v3);
    assert forall|i: int| 0 <= i < a implies is_digit(#[trigger] s[i]) by {
        assert(s[i] == v[i]);
    }
    assert(s[a] == v[a]);
    lemma_digit_run_is(s, a);
    let s2 = s.skip(a + 1);
    assert forall|i: int| 0 <= i < b implies is_digit(#[trigger] s2[i]) by {
        assert(s2[i] == v2[i]);
    }
    assert(s2[b] == v[a + 1 + b]);
    lemma_digit_run_is(s2, b);
    let s3 = s.skip(a + 1 + b + 1);
    assert(s3 =~= v3 + tail);
    assert forall|i: int| 0 <= i < v3.len() implies is_digit(#[trigger] s3[i]) by {
        assert(s3[i] == v3[i]);
    }
    lemma_digit_run_is(s3, v3.len() as int);
}

/// A version ends where no digit follows.
proof fn lemma_version_end(s: Seq<char>)
    ensures
        version_len(s) <= s.len(),
        0 < version_len(s) < s.len() ==> !is_digit(s[version_len(s) as int]),
{
    let a = digit_run(s) as int;
    let second = s.skip(a + 1);
    let b = digit_run(second) as int;
    let third = s.skip(a + 1 + b + 1);
    lemma_digit_run(s);
    lemma_digit_run(third);
}

/// The first character stays.
proof fn lemma_synced_head(s: Seq<char>, v: Seq<char>)
    ensures
        readme_synced(s, v).len() == 0 <==> s.len() == 0,
        s.len() > 0 ==> readme_synced(s, v)[0] == s[0],
{
}

/// What begins with digits is changed only behind them.
proof fn lemma_synced_digits(s: Seq<char>, v: Seq<char>)
    ensures
        digit_run(readme_synced(s, v)) == digit_run(s),
        readme_synced(s, v).skip(digit_run(s) as int) == readme_synced(
            s.skip(digit_run(s) as int),
            v,
        ),
    decreases s.len(),
{
    lemma_synced_head(s, v);
    let new = readme_synced(s, v);
    if s.len() > 0 && is_digit(s[0]) {
        lemma_synced_digits(s.drop_first(), v);
        lemma_digit_run(s.drop_first());
        lemma_digit_run(readme_synced(s.drop_first(), v));
        assert(new.drop_first() =~= readme_synced(s.drop_first(), v));
        let n = digit_run(s) as int;
        assert(new.skip(n) =~= new.drop_first().skip(n - 1));
        assert(s.skip(n) =~= s.drop_first().skip(n - 1));
    } else {
        assert(new.skip(0) =~= new);
        assert(s.skip(0) =~= s);
    }
}

/// Whether, and how far, a text begins with a version does not change.
proof fn lemma_synced_version_len(s: Seq<char>, v: Seq<char>)
    ensures
        version_len(readme_synced(s, v)) == version_len(s),
{
    let new = readme_synced(s, v);
    let a = digit_run(s) as int;
    lemma_digit_run(s);
    lemma_digit_run(new);
    lemma_synced_digits(s, v);
    let s1 = s.skip(a);
    let n1 = readme_synced(s1, v);
    assert(new.skip(a) == n1);
    lemma_synced_head(s1, v);
    if a > 0 && a < s.len() && s[a] == '.' {
        assert(s1[0] == s[a]);
        assert(new[a] == n1[0]);
        let s2 = s.skip(a + 1);
        let n2 = new.skip(a + 1);
        assert(s2 =~= s1.drop_first());
        assert(n2 =~= n1.drop_first());
        assert(n1.drop_first() =~= readme_synced(s1.drop_first(), v));
        let b = digit_run(s2) as int;
        lemma_digit_run(s2);
        lemma_digit_run(n2);
        lemma_synced_digits(s2, v);
        let s3 = s2.skip(b);
        let n3 = readme_synced(s3, v);
        assert(n2.skip(b) == n3);
        lemma_synced_head(s3, v);
        if b > 0 && a + 1 + b < s.len() && s[a + 1 + b] == '.' {
            assert(s3[0] == s[a + 1 + b]);
            assert(new[a + 1 + b] == n3[0]);
            let s4 = s.skip(a + 1 + b + 1);
            let n4 = new.skip(a + 1 + b + 1);
            assert(s4 =~= s3.drop_first());
            assert(n4 =~= n3.drop_first());
            assert(n3.drop_first() =~= readme_synced(s3.drop_first(), v));
            lemma_synced_digits(s4, v);
        } else {
            if b > 0 && a + 1 + b < s.len() {
                assert(s3[0] == s[a + 1 + b]);
                assert(new[a + 1 + b] == n3[0]);
            } else if b > 0 {
                assert(s3.len() == 0);
                assert(n3.len() == 0);
            }
        }
    } else {
        if a > 0 && a < s.len() {
            assert(s1[0] == s[a]);
            assert(new[a] == n1[0]);
        } else if a > 0 {
            assert(s1.len() == 0);
            assert(n1.len() == 0);
        }
    }
}

/// The same of `README.md`.
pub proof fn law_readme_sync_leaves_no_trace(content: Seq<char>, first: Semver, then: Semver)
    ensures
        readme_synced(readme_synced(content, bare_text(first)), bare_text(then)) == readme_synced(
            content,
            bare_text(then),
        ),
{
    lemma_version_len_of(first);
    law_readme_sync_leaves_no_trace_of_any(content, bare_text(first), bare_text(then));
}

/// The same of any two texts in place of the releases, as long as the first is
/// an `X.Y.Z` from end to end, its numbers however large.
pub proof fn law_readme_sync_leaves_no_trace_of_any(
    content: Seq<char>,
    first: Seq<char>,
    then: Seq<char>,
)
    requires
        first.len() > 0,
        version_len(first) == first.len(),
    ensures
        readme_synced(readme_synced(content, first), then) == readme_synced(content, then),
    decreases content.len(),
{
    if content.len() > 0 {
        let new = readme_synced(content, first);
        let n = version_len(content.drop_first()) as int;
        if content[0] == '@' && 0 < n < content.len() {
            let rest = content.skip(1 + n);
            let tail = readme_synced(rest, first);
            lemma_version_end(content.drop_first());
            lemma_synced_head(rest, first);
            if rest.len() > 0 {
                assert(rest[0] == content.drop_first()[n]);
            }
            lemma_version_len_before(first, tail);
            assert(new.drop_first() =~= first + tail);
            assert(new.skip(1 + first.len() as int) =~= tail);
            law_readme_sync_leaves_no_trace_of_any(rest, first, then);
        } else {
            let rest = content.drop_first();
            let tail = readme_synced(rest, first);
            assert(new.drop_first() =~= tail);
            lemma_synced_version_len(rest, first);
            lemma_version_end(rest);
            law_readme_sync_leaves_no_trace_of_any(rest, first, then);
        }
    }
}

/// A text without a line feed is its own only line.
proof fn lemma_one_line(line: Seq<char>)
    requires
        !line.contains('\n'),
    ensures
        split(line, '\n') == seq![line],
        join(seq![line], seq!['\n']) == line,
{
    lemma_split_none(line, '\n');
}

/// What stands between the first two double quotes becomes the version.
proof fn lemma_requoted(pre: Seq<char>, was: Seq<char>, rest: Seq<char>, version: Seq<char>)
    requires
        !pre.contains('"') && !was.contains('"'),
    ensures
        requoted(pre + seq!['"'] + was + seq!['"'] + rest, version) == pre + seq!['"'] + version
            + seq!['"'] + rest,
{
    let q = seq!['"'];
    let line = pre + q + was + q + rest;
    let a = pre.len() as int;
    assert forall|j: int| 0 <= j < a implies line[j] != '"' by {
        assert(pre.contains(pre[j]));
        assert(line[j] == pre[j]);
    }
    assert(line[a] == '"');
    lemma_find_is(line, '"', a);
    let behind = line.skip(a + 1);
    assert(behind =~= was + q + rest);
    assert forall|j: int| 0 <= j < was.len() implies behind[j] != '"' by {
        assert(was.contains(was[j]));
        assert(behind[j] == was[j]);
    }
    assert(behind[was.len() as int] == '"');
    lemma_find_is(behind, '"', was.len() as int);
    assert(line.take(a + 1) =~= pre + q);
    assert(line.skip(a + 1 + was.len()) =~= q + rest);
    assert(pre + q + version + (q + rest) =~= pre + q + version + q + rest);
}

/// Without two double quotes nothing changes.
proof fn lemma_not_requoted(line: Seq<char>, version: Seq<char>)
    requires
        forall|i: int, j: int|
            0 <= i < j < line.len() ==> !(#[trigger] line[i] == '"' && #[trigger] line[j] == '"'),
    ensures
        requoted(line, version) == line,
{
    lemma_find(line, '"');
    let a = find(line, '"');
    if a < line.len() {
        let rest = line.skip(a + 1);
        lemma_find(rest, '"');
        let b = find(rest, '"');
        if b < rest.len() {
            assert(rest[b] == line[a + 1 + b]);
            assert(line[a] == '"' && line[a + 1 + b] == '"');
        }
    }
}

/// `build.gradle.kts` is brought in line one line at a time: what one line becomes does
/// not depend on the others, and the line feeds between them stay.
pub proof fn law_gradle_sync_goes_line_by_line(a: Seq<char>, b: Seq<char>, version: Seq<char>)
    ensures
        gradle_synced(a + seq!['\n'] + b, version) == gradle_synced(a, version) + seq!['\n']
            + gradle_synced(b, version),
{
    let f = |l: Seq<char>| gradle_line(l, version);
    let lf = seq!['\n'];
    let xs = split(a, '\n');
    let ys = split(b, '\n');
    lemma_split_of_two(a, b, '\n');
    lemma_join_split(a, '\n');
    lemma_join_split(b, '\n');
    assert((xs + ys).map_values(f) =~= xs.map_values(f) + ys.map_values(f));
    law_join(xs.map_values(f), ys.map_values(f), Seq::empty(), lf);
}

/// In the line of `build.gradle.kts` that gives the version, what stands between the
/// first two double quotes behind its start becomes the version, and nothing
/// else changes.
pub proof fn law_gradle_version_is_set(
    pre: Seq<char>,
    was: Seq<char>,
    rest: Seq<char>,
    version: Seq<char>,
)
    requires
        !pre.contains('"') && !was.contains('"'),
        !pre.contains('\n') && !was.contains('\n') && !rest.contains('\n'),
    ensures
        gradle_synced("version = "@ + pre + seq!['"'] + was + seq!['"'] + rest, version)
            == "version = "@ + pre + seq!['"'] + version + seq!['"'] + rest,
{
    let start = "version = "@;
    reveal_strlit("version = ");
    let q = seq!['"'];
    let line = start + pre + q + was + q + rest;
    assert(!start.contains('\n'));
    assert(!line.contains('\n')) by {
        if line.contains('\n') {
            let i = choose|i: int| 0 <= i < line.len() && line[i] == '\n';
            let n = start.len() as int;
            if i < n {
                assert(start.contains(start[i]));
            } else if i < n + pre.len() {
                assert(pre.contains(pre[i - n]));
            } else if n + pre.len() < i < n + pre.len() + 1 + was.len() {
                assert(was.contains(was[i - n - pre.len() - 1]));
            } else if i > n + pre.len() + 1 + was.len() {
                assert(rest.contains(rest[i - n - pre.len() - 1 - was.len() - 1]));
            }
        }
    }
    lemma_one_line(line);
    assert(line.take(start.len() as int) =~= start);
    let head = start + pre;
    assert(!head.contains('"')) by {
        if head.contains('"') {
            let i = choose|i: int| 0 <= i < head.len() && head[i] == '"';
            if i >= start.len() {
                assert(pre.contains(pre[i - start.len()]));
            }
        }
    }
    lemma_requoted(head, was, rest, version);
    let f = |l: Seq<char>| gradle_line(l, version);
    assert(split(line, '\n').map_values(f) =~= seq![gradle_line(line, version)]);
}

/// A line of `build.gradle.kts` stays as it is where it does not begin with
/// `version = `, or holds no two double quotes.
pub proof fn law_gradle_other_lines_stay(line: Seq<char>, version: Seq<char>)
    requires
        !line.contains('\n'),
        ({
            ||| !starts_with(line, "version = "@)
            ||| forall|i: int, j: int|
                0 <= i < j < line.len() ==> !(#[trigger] line[i] == '"' && #[trigger] line[j] == '"')
        }),
    ensures
        gradle_synced(line, version) == line,
{
    lemma_one_line(line);
    if starts_with(line, "version = "@) {
        lemma_not_requoted(line, version);
    }
    let f = |l: Seq<char>| gradle_line(l, version);
    assert(split(line, '\n').map_values(f) =~= seq![line]);
}

/// `package.json` is brought in line one line at a time: what one line becomes does
/// not depend on the others, and the line feeds between them stay.
pub proof fn law_package_sync_goes_line_by_line(a: Seq<char>, b: Seq<char>, version: Seq<char>)
    ensures
        package_synced(a + seq!['\n'] + b, version) == package_synced(a, version) + seq!['\n']
            + package_synced(b, version),
{
    let f = |l: Seq<char>| package_line(l, version);
    let lf = seq!['\n'];
    let xs = split(a, '\n');
    let ys = split(b, '\n');
    lemma_split_of_two(a, b, '\n');
    lemma_join_split(a, '\n');
    lemma_join_split(b, '\n');
    assert((xs + ys).map_values(f) =~= xs.map_values(f) + ys.map_values(f));
    law_join(xs.map_values(f), ys.map_values(f), Seq::empty(), lf);
}

/// In the line of `package.json` that gives the version, what stands between the
/// first two double quotes behind its start becomes the version, and nothing
/// else changes.
pub proof fn law_package_version_is_set(
    pre: Seq<char>,
    was: Seq<char>,
    rest: Seq<char>,
    version: Seq<char>,
)
    requires
        !pre.contains('"') && !was.contains('"'),
        !pre.contains('\n') && !was.contains('\n') && !rest.contains('\n'),
    ensures
        package_synced("  \"version\": "@ + pre + seq!['"'] + was + seq!['"'] + rest, version)
            == "  \"version\": "@ + pre + seq!['"'] + version + seq!['"'] + rest,
{
    let start = "  \"version\": "@;
    reveal_strlit("  \"version\": ");
    let q = seq!['"'];
    let line = start + pre + q + was + q + rest;
    assert(!start.contains('\n'));
    assert(!line.contains('\n')) by {
        if line.contains('\n') {
            let i = choose|i: int| 0 <= i < line.len() && line[i] == '\n';
            let n = start.len() as int;
            if i < n {
                assert(start.contains(start[i]));
            } else if i < n + pre.len() {
                assert(pre.contains(pre[i - n]));
            } else if n + pre.len() < i < n + pre.len() + 1 + was.len() {
                assert(was.contains(was[i - n - pre.len() - 1]));
            } else if i > n + pre.len() + 1 + was.len() {
                assert(rest.contains(rest[i - n - pre.len() - 1 - was.len() - 1]));
            }
        }
    }
    lemma_one_line(line);
    assert(line.take(start.len() as int) =~= start);
    let value = pre + q + was + q + rest;
    assert(line.skip(start.len() as int) =~= value);
    lemma_requoted(pre, was, rest, version);
    let f = |l: Seq<char>| package_line(l, version);
    assert(split(line, '\n').map_values(f) =~= seq![package_line(line, version)]);
    assert(start + (pre + q + version + q + rest) =~= start + pre + q + version + q + rest);
}

/// A line of `package.json` stays as it is where it does not begin with the
/// top-level `"version": `, or holds no two double quotes behind that.
pub proof fn law_package_other_lines_stay(line: Seq<char>, version: Seq<char>)
    requires
        !line.contains('\n'),
        ({
            ||| !starts_with(line, "  \"version\": "@)
            ||| forall|i: int, j: int|
                "  \"version\": "@.len() <= i < j < line.len() ==> !(#[trigger] line[i] == '"'
                    && #[trigger] line[j] == '"')
        }),
    ensures
        package_synced(line, version) == line,
{
    lemma_one_line(line);
    let name = "  \"version\": "@;
    if starts_with(line, name) {
        let n = name.len() as int;
        let value = line.skip(n);
        assert forall|i: int, j: int| 0 <= i < j < value.len() implies !(#[trigger] value[i] == '"'
            && #[trigger] value[j] == '"') by {
            assert(value[i] == line[n + i]);
            assert(value[j] == line[n + j]);
        }
        lemma_not_requoted(value, version);
        assert(name + value =~= line) by {
            assert(line.take(n) + line.skip(n) =~= line);
        }
    }
    let f = |l: Seq<char>| package_line(l, version);
    assert(split(line, '\n').map_values(f) =~= seq![line]);
}

/// Whether a text is digits, at least one, from end to end.
pub open spec fn is_digits(s: Seq<char>) -> bool {
    s.len() > 0 && forall|i: int| 0 <= i < s.len() ==> '0' <= #[trigger] s[i] <= '9'
}

/// A text begins with a version exactly where it begins with three runs of
/// digits with a dot between each two, and the version goes on to the last of
/// these digits.
pub proof fn law_version_at_the_start(
    a: Seq<char>,
    b: Seq<char>,
    c: Seq<char>,
    tail: Seq<char>,
    s: Seq<char>,
)
    requires
        is_digits(a) && is_digits(b) && is_digits(c),
        tail.len() > 0 ==> !('0' <= tail[0] <= '9'),
    ensures
        version_len(a + seq!['.'] + b + seq!['.'] + c + tail) == a.len() + 1 + b.len() + 1
            + c.len(),
        version_len(s) > 0 ==> exists|x: Seq<char>, y: Seq<char>, z: Seq<char>|
            is_digits(x) && is_digits(y) && is_digits(z) && s.take(version_len(s) as int)
                == #[trigger] (x + seq!['.'] + y + seq!['.'] + z),
{
    let whole = a + seq!['.'] + b + seq!['.'] + c + tail;
    let n = a.len() as int;
    let m = b.len() as int;
    assert forall|i: int| 0 <= i < n implies is_digit(#[trigger] whole[i]) by {
        assert(whole[i] == a[i]);
    }
    assert(whole[n] == '.');
    lemma_digit_run_is(whole, n);
    let second = whole.skip(n + 1);
    assert forall|i: int| 0 <= i < m implies is_digit(#[trigger] second[i]) by {
        assert(second[i] == b[i]);
    }
    assert(second[m] == '.');
    lemma_digit_run_is(second, m);
    let third = whole.skip(n + 1 + m + 1);
    assert(third =~= c + tail);
    assert forall|i: int| 0 <= i < c.len() implies is_digit(#[trigger] third[i]) by {
        assert(third[i] == c[i]);
    }
    lemma_digit_run_is(third, c.len() as int);
    assert(whole[n + 1 + m] == '.');
    if version_len(s) > 0 {
        let p = digit_run(s) as int;
        let s2 = s.skip(p + 1);
        let q = digit_run(s2) as int;
        let s3 = s.skip(p + 1 + q + 1);
        let r = digit_run(s3) as int;
        lemma_digit_run(s);
        lemma_digit_run(s2);
        lemma_digit_run(s3);
        let x = s.take(p);
        let y = s2.take(q);
        let z = s3.take(r);
        assert forall|i: int| 0 <= i < x.len() implies '0' <= #[trigger] x[i] <= '9' by {
            assert(is_digit(s[i]));
        }
        assert forall|i: int| 0 <= i < y.len() implies '0' <= #[trigger] y[i] <= '9' by {
            assert(is_digit(s2[i]));
        }
        assert forall|i: int| 0 <= i < z.len() implies '0' <= #[trigger] z[i] <= '9' by {
            assert(is_digit(s3[i]));
        }
        assert(s.take(version_len(s) as int) =~= x + seq!['.'] + y + seq!['.'] + z);
    }
}

/// `README.md` is brought in line from one `@` to the next: a text without one
/// stays as it is, whatever follows it.
pub proof fn law_readme_sync_goes_from_mark_to_mark(
    a: Seq<char>,
    rest: Seq<char>,
    version: Seq<char>,
)
    requires
        !a.contains('@'),
    ensures
        readme_synced(a + rest, version) == a + readme_synced(rest, version),
        readme_synced(a, version) == a,
    decreases a.len(),
{
    let none = Seq::<char>::empty();
    if a.len() == 0 {
        assert(a + rest =~= rest);
        assert(a + readme_synced(rest, version) =~= readme_synced(rest, version));
    } else {
        let tail = a.drop_first();
        assert(a.contains(a[0]));
        assert(!tail.contains('@')) by {
            if tail.contains('@') {
                let i = choose|i: int| 0 <= i < tail.len() && tail[i] == '@';
                assert(a[i + 1] == '@');
            }
        }
        law_readme_sync_goes_from_mark_to_mark(tail, rest, version);
        assert((a + rest).drop_first() =~= tail + rest);
        assert(seq![a[0]] + (tail + readme_synced(rest, version)) =~= a + readme_synced(
            rest,
            version,
        ));
        assert(seq![a[0]] + tail =~= a);
    }
}

/// Behind an `@`, a version up to its last digit becomes the new version; where
/// none stands there, the `@` is a character like any other.
pub proof fn law_readme_version_is_set(
    a: Seq<char>,
    b: Seq<char>,
    c: Seq<char>,
    tail: Seq<char>,
    version: Seq<char>,
)
    requires
        is_digits(a) && is_digits(b) && is_digits(c),
        tail.len() > 0 ==> !('0' <= tail[0] <= '9'),
    ensures
        readme_synced(
            seq!['@'] + (a + seq!['.'] + b + seq!['.'] + c + tail),
            version,
        ) == seq!['@'] + version + readme_synced(tail, version),
        version_len(tail) == 0 ==> readme_synced(seq!['@'] + tail, version) == seq!['@']
            + readme_synced(tail, version),
{
    let old = a + seq!['.'] + b + seq!['.'] + c;
    let s = seq!['@'] + (old + tail);
    law_version_at_the_start(a, b, c, tail, Seq::empty());
    assert(s.drop_first() =~= old + tail);
    assert(s.skip(1 + old.len() as int) =~= tail);
    assert((seq!['@'] + tail).drop_first() =~= tail);
}

} // verus!
