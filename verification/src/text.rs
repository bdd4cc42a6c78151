//! Text as a sequence of characters: what it means to search, cut, trim and
//! join it, and the functions that do so.

use vstd::prelude::*;

verus! {

// ---------------------------------------------------------------------------
// The model
// ---------------------------------------------------------------------------

/// The place of the first `c` in `s`, or the length of `s` where there is none.
pub open spec fn find(s: Seq<char>, c: char) -> int
    decreases s.len(),
{
    if s.len() == 0 || s[0] == c {
        0
    } else {
        1 + find(s.drop_first(), c)
    }
}

/// What stands before the first `c`, or all of `s` where there is none.
pub open spec fn before(s: Seq<char>, c: char) -> Seq<char> {
    s.take(find(s, c))
}

/// The pieces of `s` between one `c` and the next. There is always at least one.
pub open spec fn split(s: Seq<char>, c: char) -> Seq<Seq<char>>
    decreases s.len(),
{
    let i = find(s, c);
    if 0 <= i < s.len() {
        seq![s.take(i)] + split(s.skip(i + 1), c)
    } else {
        seq![s]
    }
}

/// `s` without a carriage return at its end.
pub open spec fn without_cr(s: Seq<char>) -> Seq<char> {
    if s.len() > 0 && s.last() == '\r' {
        s.drop_last()
    } else {
        s
    }
}

/// The lines of `s`: a line ends in a line feed, or in a carriage return and
/// a line feed, and neither belongs to it. The last one needs no ending.
pub open spec fn lines(s: Seq<char>) -> Seq<Seq<char>>
    decreases s.len(),
{
    let i = find(s, '\n');
    if s.len() == 0 {
        Seq::empty()
    } else if 0 <= i < s.len() {
        seq![without_cr(s.take(i))] + lines(s.skip(i + 1))
    } else {
        seq![s]
    }
}

/// The first line of `s`, which is empty where `s` is.
pub open spec fn first_line(s: Seq<char>) -> Seq<char> {
    let i = find(s, '\n');
    if i < s.len() {
        without_cr(s.take(i))
    } else {
        s
    }
}

/// The parts one after the other, with `sep` between each two.
pub open spec fn join(parts: Seq<Seq<char>>, sep: Seq<char>) -> Seq<char>
    decreases parts.len(),
{
    if parts.len() == 0 {
        Seq::empty()
    } else if parts.len() == 1 {
        parts[0]
    } else {
        parts[0] + sep + join(parts.drop_first(), sep)
    }
}

/// Whether `needle` stands somewhere in `s`.
pub open spec fn contains(s: Seq<char>, needle: Seq<char>) -> bool {
    exists|i: int|
        0 <= i <= s.len() - needle.len() && #[trigger] s.subrange(i, i + needle.len()) == needle
}

/// Whether `s` begins with `prefix`.
pub open spec fn starts_with(s: Seq<char>, prefix: Seq<char>) -> bool {
    prefix.len() <= s.len() && s.take(prefix.len() as int) == prefix
}

/// Whether `s` ends in `suffix`.
pub open spec fn ends_with(s: Seq<char>, suffix: Seq<char>) -> bool {
    suffix.len() <= s.len() && s.skip(s.len() - suffix.len()) == suffix
}

/// The characters with the Unicode property White_Space.
pub open spec fn is_white_space(c: char) -> bool {
    ||| '\u{9}' <= c <= '\u{d}'
    ||| c == ' '
    ||| c == '\u{85}'
    ||| c == '\u{a0}'
    ||| c == '\u{1680}'
    ||| '\u{2000}' <= c <= '\u{200a}'
    ||| c == '\u{2028}'
    ||| c == '\u{2029}'
    ||| c == '\u{202f}'
    ||| c == '\u{205f}'
    ||| c == '\u{3000}'
}

/// `s` without the white space at its start.
pub open spec fn trim_start(s: Seq<char>) -> Seq<char>
    decreases s.len(),
{
    if s.len() > 0 && is_white_space(s[0]) {
        trim_start(s.drop_first())
    } else {
        s
    }
}

/// `s` without the white space at its end.
pub open spec fn trim_end(s: Seq<char>) -> Seq<char>
    decreases s.len(),
{
    if s.len() > 0 && is_white_space(s.last()) {
        trim_end(s.drop_last())
    } else {
        s
    }
}

/// `s` without the white space at either end.
pub open spec fn trim(s: Seq<char>) -> Seq<char> {
    trim_end(trim_start(s))
}

/// `s` without the `c`s at its end.
pub open spec fn trim_end_matches(s: Seq<char>, c: char) -> Seq<char>
    decreases s.len(),
{
    if s.len() > 0 && s.last() == c {
        trim_end_matches(s.drop_last(), c)
    } else {
        s
    }
}

/// The decimal digit of a number below ten.
pub open spec fn digit(d: nat) -> char {
    (0x30 + d) as char
}

/// The decimal digits of a number, without leading zeros.
pub open spec fn decimal(n: nat) -> Seq<char>
    decreases n,
{
    if n < 10 {
        seq![digit(n)]
    } else {
        decimal(n / 10).push(digit(n % 10))
    }
}

/// Whether `c` is one of the ten ASCII digits.
pub open spec fn is_digit(c: char) -> bool {
    '0' <= c <= '9'
}

/// Whether `s` holds ASCII digits, at least one, and nothing else.
pub open spec fn is_number(s: Seq<char>) -> bool {
    s.len() > 0 && forall|i: int| 0 <= i < s.len() ==> is_digit(#[trigger] s[i])
}

/// The value of a sequence of decimal digits.
pub open spec fn number_value(s: Seq<char>) -> nat
    decreases s.len(),
{
    if s.len() == 0 {
        0
    } else {
        number_value(s.drop_last()) * 10 + ((s.last() as int - 0x30) as nat)
    }
}

/// The 32-bit number that `s` writes down in decimal: digits, at least one,
/// after at most one plus sign. `None` for any other text and for a number
/// that does not fit.
pub open spec fn parse_u32(s: Seq<char>) -> Option<u32> {
    let digits = if s.len() > 0 && s[0] == '+' {
        s.drop_first()
    } else {
        s
    };
    if is_number(digits) && number_value(digits) <= u32::MAX {
        Some(number_value(digits) as u32)
    } else {
        None
    }
}

/// The texts of a list of strings.
pub open spec fn texts(v: Seq<String>) -> Seq<Seq<char>> {
    v.map_values(|s: String| s@)
}

/// The texts of a list of pieces.
pub open spec fn pieces(v: Seq<Vec<char>>) -> Seq<Seq<char>> {
    v.map_values(|s: Vec<char>| s@)
}

// ---------------------------------------------------------------------------
// Facts about the model
// ---------------------------------------------------------------------------

/// `find` gives a place in `s` or its length, no `c` stands before it, and
/// one stands there unless it is the length.
pub proof fn lemma_find(s: Seq<char>, c: char)
    ensures
        0 <= find(s, c) <= s.len(),
        forall|j: int| 0 <= j < find(s, c) ==> s[j] != c,
        find(s, c) < s.len() ==> s[find(s, c)] == c,
    decreases s.len(),
{
    if s.len() > 0 && s[0] != c {
        lemma_find(s.drop_first(), c);
        assert forall|j: int| 0 <= j < find(s, c) implies s[j] != c by {
            if j > 0 {
                assert(s[j] == s.drop_first()[j - 1]);
            }
        }
    }
}

/// Only one place is the first of its kind.
pub proof fn lemma_find_is(s: Seq<char>, c: char, i: int)
    requires
        0 <= i <= s.len(),
        forall|j: int| 0 <= j < i ==> s[j] != c,
        i < s.len() ==> s[i] == c,
    ensures
        find(s, c) == i,
{
    lemma_find(s, c);
    let k = find(s, c);
    if k < i {
        assert(s[k] != c);
    }
}

/// What is left of a text when the white space at its start is gone does not
/// begin with white space, and is the end of the text.
pub proof fn lemma_trim_start(s: Seq<char>)
    ensures
        trim_start(s).len() > 0 ==> !is_white_space(trim_start(s)[0]),
        trim_start(s).len() <= s.len(),
        trim_start(s) == s.skip(s.len() - trim_start(s).len()),
    decreases s.len(),
{
    if s.len() > 0 && is_white_space(s[0]) {
        lemma_trim_start(s.drop_first());
        let t = trim_start(s);
        assert(s.drop_first().skip(s.drop_first().len() - t.len()) =~= s.skip(s.len() - t.len()));
    } else {
        assert(s.skip(0) =~= s);
    }
}

/// What is left of a text when the white space at its end is gone does not end
/// in white space, and is the start of the text.
pub proof fn lemma_trim_end(s: Seq<char>)
    ensures
        trim_end(s).len() > 0 ==> !is_white_space(trim_end(s).last()),
        trim_end(s).len() <= s.len(),
        trim_end(s) == s.take(trim_end(s).len() as int),
    decreases s.len(),
{
    if s.len() > 0 && is_white_space(s.last()) {
        lemma_trim_end(s.drop_last());
        let n = trim_end(s).len() as int;
        assert(s.drop_last().take(n) =~= s.take(n));
    } else {
        assert(s.take(s.len() as int) =~= s);
    }
}

/// There is nothing left to trim after trimming.
pub proof fn lemma_trim_twice(s: Seq<char>)
    ensures
        trim(trim(s)) == trim(s),
{
    let a = trim_start(s);
    lemma_trim_start(s);
    lemma_trim_end(a);
    let t = trim(s);
    if t.len() > 0 {
        assert(t[0] == a[0]);
    }
}

/// A piece that holds no `c`, a `c`, and more text: the piece comes first, and
/// behind it stand the pieces of the text.
pub proof fn lemma_split_head(a: Seq<char>, c: char, rest: Seq<char>)
    requires
        !a.contains(c),
    ensures
        split(a + seq![c] + rest, c) == seq![a] + split(rest, c),
{
    let s = a + seq![c] + rest;
    assert forall|j: int| 0 <= j < a.len() implies s[j] != c by {
        assert(a.contains(a[j]));
    }
    lemma_find_is(s, c, a.len() as int);
    assert(s.take(a.len() as int) =~= a);
    assert(s.skip(a.len() as int + 1) =~= rest);
}

/// A text without `c` is its own only piece.
pub proof fn lemma_split_none(a: Seq<char>, c: char)
    requires
        !a.contains(c),
    ensures
        split(a, c) == seq![a],
{
    assert forall|j: int| 0 <= j < a.len() implies a[j] != c by {
        assert(a.contains(a[j]));
    }
    lemma_find_is(a, c, a.len() as int);
}

/// Joining one more part puts the separator and the part behind the others.
pub proof fn lemma_join_push(parts: Seq<Seq<char>>, x: Seq<char>, sep: Seq<char>)
    ensures
        join(parts.push(x), sep) == if parts.len() == 0 {
            x
        } else {
            join(parts, sep) + sep + x
        },
    decreases parts.len(),
{
    if parts.len() == 0 {
    } else if parts.len() == 1 {
        assert(parts.push(x).drop_first() =~= seq![x]);
        assert(join(seq![x], sep) == x);
    } else {
        assert(parts.push(x).drop_first() =~= parts.drop_first().push(x));
        lemma_join_push(parts.drop_first(), x, sep);
        assert(join(parts.push(x), sep) =~= join(parts, sep) + sep + x);
    }
}

/// Joining the pieces between the `c`s with a `c` gives the text back.
pub proof fn lemma_join_split(s: Seq<char>, c: char)
    ensures
        join(split(s, c), seq![c]) == s,
        split(s, c).len() > 0,
    decreases s.len(),
{
    lemma_find(s, c);
    let i = find(s, c);
    if i < s.len() {
        let rest = s.skip(i + 1);
        lemma_join_split(rest, c);
        assert(split(s, c).drop_first() =~= split(rest, c));
        assert(split(s, c)[0] == s.take(i));
        assert(s.take(i) + seq![c] + rest =~= s);
    }
}

/// Parts without a `c`, joined with a `c`, are the pieces of the whole.
pub proof fn lemma_split_join(parts: Seq<Seq<char>>, c: char)
    requires
        parts.len() > 0,
        forall|i: int| 0 <= i < parts.len() ==> !(#[trigger] parts[i]).contains(c),
    ensures
        split(join(parts, seq![c]), c) == parts,
    decreases parts.len(),
{
    if parts.len() == 1 {
        lemma_split_none(parts[0], c);
        assert(parts =~= seq![parts[0]]);
    } else {
        let rest = parts.drop_first();
        assert forall|i: int| 0 <= i < rest.len() implies !(#[trigger] rest[i]).contains(c) by {
            assert(rest[i] == parts[i + 1]);
        }
        lemma_split_join(rest, c);
        lemma_split_head(parts[0], c, join(rest, seq![c]));
        assert(parts =~= seq![parts[0]] + rest);
    }
}

/// No piece between the `c`s holds a `c`.
pub proof fn lemma_split_pieces(s: Seq<char>, c: char)
    ensures
        forall|i: int| 0 <= i < split(s, c).len() ==> !(#[trigger] split(s, c)[i]).contains(c),
    decreases s.len(),
{
    lemma_find(s, c);
    let k = find(s, c);
    if k < s.len() {
        lemma_split_pieces(s.skip(k + 1), c);
        assert(!s.take(k).contains(c));
        assert forall|i: int| 0 <= i < split(s, c).len() implies !(#[trigger] split(
            s,
            c,
        )[i]).contains(c) by {
            if i > 0 {
                assert(split(s, c)[i] == split(s.skip(k + 1), c)[i - 1]);
            }
        }
    }
}

/// The pieces of two texts with a `c` between them are those of the one and then
/// those of the other.
pub proof fn lemma_split_of_two(a: Seq<char>, b: Seq<char>, c: char)
    ensures
        split(a + seq![c] + b, c) == split(a, c) + split(b, c),
    decreases a.len(),
{
    lemma_find(a, c);
    let i = find(a, c);
    if i < a.len() {
        let head = a.take(i);
        let rest = a.skip(i + 1);
        assert(!head.contains(c));
        assert(a =~= head + seq![c] + rest);
        assert(a + seq![c] + b =~= head + seq![c] + (rest + seq![c] + b));
        lemma_split_head(head, c, rest + seq![c] + b);
        lemma_split_head(head, c, rest);
        lemma_split_of_two(rest, b, c);
        assert(seq![head] + (split(rest, c) + split(b, c)) =~= seq![head] + split(rest, c) + split(
            b,
            c,
        ));
    } else {
        assert(!a.contains(c));
        lemma_split_head(a, c, b);
        lemma_split_none(a, c);
    }
}

/// A number is no smaller than what its first digits write down.
pub proof fn lemma_number_value_grows(s: Seq<char>, i: int)
    requires
        0 <= i <= s.len(),
    ensures
        number_value(s.take(i)) <= number_value(s),
    decreases s.len() - i,
{
    if i == s.len() {
        assert(s.take(i) =~= s);
    } else {
        lemma_number_value_grows(s, i + 1);
        assert(s.take(i + 1).drop_last() =~= s.take(i));
    }
}

/// The decimal digits of a number are digits, and write it down.
pub proof fn lemma_decimal_value(n: nat)
    ensures
        is_number(decimal(n)),
        number_value(decimal(n)) == n,
    decreases n,
{
    reveal_with_fuel(number_value, 2);
    if n < 10 {
        assert(decimal(n).drop_last() =~= Seq::<char>::empty());
    } else {
        lemma_decimal_value(n / 10);
        assert(decimal(n).drop_last() =~= decimal(n / 10));
        assert(decimal(n).last() == digit(n % 10));
    }
}

/// Reading back a number that was written in decimal gives the number.
pub proof fn lemma_parse_decimal(n: u32)
    ensures
        parse_u32(decimal(n as nat)) == Some(n),
{
    lemma_decimal_value(n as nat);
    let d = decimal(n as nat);
    assert(is_digit(d[0]));
}

// ---------------------------------------------------------------------------
// Laws
// ---------------------------------------------------------------------------

/// A list of strings has as many texts, and each is that of its string.
pub proof fn law_texts(v: Seq<String>, i: int)
    ensures
        texts(v).len() == v.len(),
        0 <= i < v.len() ==> texts(v)[i] == v[i]@,
{
}

/// A text up to its first `c`: all that stands before it, and the whole text
/// where there is none.
pub proof fn law_before(a: Seq<char>, c: char, rest: Seq<char>)
    requires
        !a.contains(c),
    ensures
        before(a + seq![c] + rest, c) == a,
        before(a, c) == a,
{
    let s = a + seq![c] + rest;
    assert forall|j: int| 0 <= j < a.len() implies s[j] != c && a[j] != c by {
        assert(a.contains(a[j]));
    }
    lemma_find_is(s, c, a.len() as int);
    lemma_find_is(a, c, a.len() as int);
    assert(s.take(a.len() as int) =~= a);
    assert(a.take(a.len() as int) =~= a);
}

/// A line, a line feed and more text: the line comes first, without the
/// carriage return that it may end in, and behind it come the lines of the
/// text. What no line feed follows is a line as it is, unless it is empty.
pub proof fn law_lines(a: Seq<char>, rest: Seq<char>)
    requires
        !a.contains('\n'),
    ensures
        ({
            let line = if a.len() > 0 && a.last() == '\r' {
                a.drop_last()
            } else {
                a
            };
            &&& lines(a + seq!['\n'] + rest) == seq![line] + lines(rest)
            &&& first_line(a + seq!['\n'] + rest) == line
        }),
        a.len() > 0 ==> lines(a) == seq![a],
        first_line(a) == a,
        lines(Seq::empty()) == Seq::<Seq<char>>::empty(),
{
    let s = a + seq!['\n'] + rest;
    assert forall|j: int| 0 <= j < a.len() implies s[j] != '\n' && a[j] != '\n' by {
        assert(a.contains(a[j]));
    }
    lemma_find_is(s, '\n', a.len() as int);
    lemma_find_is(a, '\n', a.len() as int);
    assert(s.take(a.len() as int) =~= a);
    assert(s.skip(a.len() as int + 1) =~= rest);
}

/// Joining no parts gives nothing, and joining two lists of parts puts the
/// separator between what each of them gives.
pub proof fn law_join(a: Seq<Seq<char>>, b: Seq<Seq<char>>, x: Seq<char>, sep: Seq<char>)
    ensures
        join(Seq::empty(), sep) == Seq::<char>::empty(),
        join(seq![x], sep) == x,
        a.len() > 0 && b.len() > 0 ==> join(a + b, sep) == join(a, sep) + sep + join(b, sep),
    decreases b.len(),
{
    if a.len() > 0 && b.len() > 0 {
        let rest = b.drop_last();
        assert(a + b =~= (a + rest).push(b.last()));
        assert(b =~= rest.push(b.last()));
        lemma_join_push(a + rest, b.last(), sep);
        lemma_join_push(rest, b.last(), sep);
        if rest.len() == 0 {
            assert(a + rest =~= a);
        } else {
            law_join(a, rest, x, sep);
            assert(join(a, sep) + sep + join(rest, sep) + sep + b.last() =~= join(a, sep) + sep + (
            join(rest, sep) + sep + b.last()));
        }
    }
}

/// A text holds another exactly where it can be cut into what stands before
/// the other, the other, and what stands behind it.
pub proof fn law_contains(s: Seq<char>, needle: Seq<char>, a: Seq<char>, b: Seq<char>)
    ensures
        contains(a + needle + b, needle),
        contains(s, needle) ==> exists|x: Seq<char>, y: Seq<char>| s == #[trigger] (x + needle + y),
{
    let whole = a + needle + b;
    let n = a.len() as int;
    assert(whole.subrange(n, n + needle.len()) =~= needle);
    if contains(s, needle) {
        let i = choose|i: int|
            0 <= i <= s.len() - needle.len() && #[trigger] s.subrange(i, i + needle.len()) == needle;
        let x = s.take(i);
        let y = s.skip(i + needle.len());
        assert(s =~= x + s.subrange(i, i + needle.len()) + y);
        assert(s == x + needle + y);
    }
}

/// A text begins with another exactly where it is the other and some more, and
/// ends in it exactly where it is some text and the other.
pub proof fn law_starts_and_ends(s: Seq<char>, part: Seq<char>, more: Seq<char>)
    ensures
        starts_with(part + more, part),
        starts_with(s, part) ==> part.len() <= s.len() && s == part + s.skip(part.len() as int),
        ends_with(more + part, part),
        ends_with(s, part) ==> part.len() <= s.len() && s == s.take(s.len() - part.len()) + part,
{
    assert((part + more).take(part.len() as int) =~= part);
    assert((more + part).skip(more.len() as int) =~= part);
    if starts_with(s, part) {
        assert(s =~= s.take(part.len() as int) + s.skip(part.len() as int));
    }
    if ends_with(s, part) {
        let n = s.len() - part.len();
        assert(s =~= s.take(n) + s.skip(n));
    }
}

/// Whether a text is white space from end to end.
pub open spec fn is_blank(s: Seq<char>) -> bool {
    forall|i: int| 0 <= i < s.len() ==> is_white_space(#[trigger] s[i])
}

/// White space before a text that does not begin with any is what trimming at
/// the start takes away, and all that it takes away.
pub proof fn law_trim_start(a: Seq<char>, t: Seq<char>)
    requires
        is_blank(a),
        t.len() > 0 ==> !is_white_space(t[0]),
    ensures
        trim_start(a + t) == t,
    decreases a.len(),
{
    if a.len() > 0 {
        assert((a + t)[0] == a[0]);
        assert((a + t).drop_first() =~= a.drop_first() + t);
        law_trim_start(a.drop_first(), t);
    } else {
        assert(a + t =~= t);
    }
}

/// The same at the end.
pub proof fn law_trim_end(t: Seq<char>, b: Seq<char>)
    requires
        is_blank(b),
        t.len() > 0 ==> !is_white_space(t.last()),
    ensures
        trim_end(t + b) == t,
    decreases b.len(),
{
    if b.len() > 0 {
        assert(is_white_space(b[b.len() - 1]));
        assert((t + b).last() == b.last());
        assert((t + b).drop_last() =~= t + b.drop_last());
        law_trim_end(t, b.drop_last());
    } else {
        assert(t + b =~= t);
    }
}

/// Trimming takes away the white space around a text, whatever stands within
/// it, and nothing else; of white space alone nothing is left.
pub proof fn law_trim(a: Seq<char>, t: Seq<char>, b: Seq<char>)
    requires
        is_blank(a),
        is_blank(b),
        t.len() > 0 ==> !is_white_space(t[0]) && !is_white_space(t.last()),
    ensures
        trim(a + t + b) == t,
{
    if t.len() > 0 {
        assert(a + t + b =~= a + (t + b));
        assert((t + b)[0] == t[0]);
        law_trim_start(a, t + b);
        law_trim_end(t, b);
    } else {
        let all = a + t + b;
        let none = Seq::<char>::empty();
        assert forall|i: int| 0 <= i < all.len() implies is_white_space(#[trigger] all[i]) by {
            if i < a.len() {
                assert(all[i] == a[i]);
            } else {
                assert(all[i] == b[i - a.len()]);
            }
        }
        assert(all + none =~= all);
        law_trim_start(all, none);
        assert(t =~= none);
    }
}

/// The `c`s at the end of a text are taken away, all of them and no other
/// character.
pub proof fn law_trim_end_matches(t: Seq<char>, n: nat, c: char)
    requires
        t.len() > 0 ==> t.last() != c,
    ensures
        trim_end_matches(t + Seq::new(n, |i: int| c), c) == t,
    decreases n,
{
    let b = Seq::new(n, |i: int| c);
    if n > 0 {
        assert((t + b).last() == c);
        assert((t + b).drop_last() =~= t + Seq::new((n - 1) as nat, |i: int| c));
        law_trim_end_matches(t, (n - 1) as nat, c);
    } else {
        assert(t + b =~= t);
    }
}

/// The digits are those from `0` to `9`, and each stands for its number.
pub proof fn law_digits(c: char, d: nat)
    ensures
        is_digit(c) <==> (c == '0' || c == '1' || c == '2' || c == '3' || c == '4' || c == '5' || c
            == '6' || c == '7' || c == '8' || c == '9'),
        d < 10 ==> is_digit(digit(d)) && number_value(seq![digit(d)]) == d,
        digit(0) == '0' && digit(1) == '1' && digit(2) == '2' && digit(3) == '3' && digit(4) == '4',
        digit(5) == '5' && digit(6) == '6' && digit(7) == '7' && digit(8) == '8' && digit(9) == '9',
{
    reveal_with_fuel(number_value, 2);
    assert(seq![digit(d)].drop_last() =~= Seq::<char>::empty());
}

/// One more digit makes a number ten times what it was, and adds the digit.
pub proof fn law_number_value(s: Seq<char>, d: nat)
    requires
        d < 10,
    ensures
        number_value(Seq::empty()) == 0,
        number_value(s.push(digit(d))) == 10 * number_value(s) + d,
{
    assert(s.push(digit(d)).drop_last() =~= s);
}

/// A number is written in decimal digits that stand for it, without leading
/// zeros.
pub proof fn law_decimal(n: nat)
    ensures
        is_number(decimal(n)),
        number_value(decimal(n)) == n,
        n > 0 ==> decimal(n)[0] != '0',
        n == 0 ==> decimal(n) == seq!['0'],
    decreases n,
{
    lemma_decimal_value(n);
    if n >= 10 {
        law_decimal(n / 10);
        assert(decimal(n)[0] == decimal(n / 10)[0]);
    }
}

/// A 32-bit number is read from digits, with a plus sign before them or
/// without, where their number fits; nothing is read from a text that is empty,
/// a lone plus sign, or holds anything else.
pub proof fn law_parse_u32(s: Seq<char>)
    ensures
        s.len() > 0 && (forall|i: int| 0 <= i < s.len() ==> '0' <= #[trigger] s[i] <= '9') ==> {
            &&& parse_u32(s) is Some <==> number_value(s) <= u32::MAX
            &&& number_value(s) <= u32::MAX ==> parse_u32(s) == Some(number_value(s) as u32)
            &&& parse_u32(seq!['+'] + s) == parse_u32(s)
        },
        parse_u32(s) is Some ==> s.len() > 0 && (s[0] == '+' ==> s.len() > 1) && forall|i: int|
            0 <= i < s.len() && !(i == 0 && s[0] == '+') ==> '0' <= #[trigger] s[i] <= '9',
{
    assert((seq!['+'] + s).drop_first() =~= s);
    if parse_u32(s) is Some && s.len() > 0 && s[0] == '+' {
        let digits = s.drop_first();
        assert forall|i: int| 0 < i < s.len() implies '0' <= #[trigger] s[i] <= '9' by {
            assert(is_digit(digits[i - 1]));
        }
    }
}

// ---------------------------------------------------------------------------
// The functions
// ---------------------------------------------------------------------------

/// `String::push` of std: puts one more character at the end of the string
/// and leaves what it held before as it was.
pub assume_specification[ String::push ](s: &mut String, c: char)
    ensures
        final(s)@ == old(s)@.push(c),
;

/// The characters of a string, in order.
pub(crate) fn to_chars(s: &str) -> (v: Vec<char>)
    ensures
        v@ == s@,
{
    let mut v: Vec<char> = Vec::new();
    for c in it: s.chars()
        invariant
            v@ == it.seq().take(it.index()),
            it.seq() == s@,
    {
        v.push(c);
        assert(it.seq().take(it.index() + 1) =~= it.seq().take(it.index()).push(c));
    }
    assert(s@.take(s@.len() as int) =~= s@);
    v
}

/// The string that holds exactly these characters.
pub(crate) fn of_chars(v: &[char]) -> (s: String)
    ensures
        s@ == v@,
{
    let mut s: String = String::new();
    push_chars(&mut s, v);
    assert(Seq::<char>::empty() + v@ =~= v@);
    s
}

/// Appends these characters to the string.
pub(crate) fn push_chars(s: &mut String, v: &[char])
    ensures
        final(s)@ == old(s)@ + v@,
{
    let ghost start = s@;
    let mut i: usize = 0;
    assert(start + v@.take(0) =~= start);
    while i < v.len()
        invariant
            i <= v@.len(),
            s@ == start + v@.take(i as int),
        decreases v@.len() - i,
    {
        s.push(v[i]);
        i = i + 1;
        assert(start + v@.take(i as int) =~= (start + v@.take(i - 1)).push(v@[i - 1]));
    }
    assert(v@.take(v@.len() as int) =~= v@);
}

/// A copy of these characters.
pub(crate) fn copy_chars(v: &[char]) -> (r: Vec<char>)
    ensures
        r@ == v@,
{
    let mut r: Vec<char> = Vec::new();
    let mut i: usize = 0;
    while i < v.len()
        invariant
            i <= v@.len(),
            r@ == v@.take(i as int),
        decreases v@.len() - i,
    {
        r.push(v[i]);
        i = i + 1;
        assert(v@.take(i as int) =~= v@.take(i - 1).push(v@[i - 1]));
    }
    assert(v@.take(v@.len() as int) =~= v@);
    r
}

/// A copy of a list of strings.
pub(crate) fn copy_strings(v: &Vec<String>) -> (r: Vec<String>)
    ensures
        texts(r@) == texts(v@),
{
    let mut r: Vec<String> = Vec::new();
    let mut i: usize = 0;
    while i < v.len()
        invariant
            i <= v@.len(),
            texts(r@) == texts(v@).take(i as int),
        decreases v@.len() - i,
    {
        let ghost was = r@;
        r.push(v[i].clone());
        i = i + 1;
        assert(texts(r@) =~= texts(was).push(texts(v@)[i - 1]));
        assert(texts(v@).take(i as int) =~= texts(v@).take(i - 1).push(texts(v@)[i - 1]));
    }
    assert(texts(v@).take(v@.len() as int) =~= texts(v@));
    r
}

/// Whether the two hold the same characters.
pub(crate) fn same_chars(a: &[char], b: &[char]) -> (r: bool)
    ensures
        r == (a@ == b@),
{
    if a.len() != b.len() {
        return false;
    }
    let mut i: usize = 0;
    while i < a.len()
        invariant
            i <= a@.len(),
            a@.len() == b@.len(),
            forall|j: int| 0 <= j < i ==> a@[j] == b@[j],
        decreases a@.len() - i,
    {
        if a[i] != b[i] {
            return false;
        }
        i = i + 1;
    }
    assert(a@ =~= b@);
    true
}

/// Whether the two strings are the same.
pub(crate) fn same_str(a: &str, b: &str) -> (r: bool)
    ensures
        r == (a@ == b@),
{
    let x = to_chars(a);
    let y = to_chars(b);
    same_chars(x.as_slice(), y.as_slice())
}

/// The place of the first `c`, or the length where there is none.
pub(crate) fn find_char(s: &[char], c: char) -> (r: usize)
    ensures
        r == find(s@, c),
        r <= s@.len(),
{
    let mut i: usize = 0;
    while i < s.len()
        invariant
            i <= s@.len(),
            forall|j: int| 0 <= j < i ==> s@[j] != c,
        decreases s@.len() - i,
    {
        if s[i] == c {
            proof {
                lemma_find_is(s@, c, i as int);
            }
            return i;
        }
        i = i + 1;
    }
    proof {
        lemma_find_is(s@, c, i as int);
    }
    i
}

/// The characters from `from` up to, and without, `to`.
pub(crate) fn part(s: &[char], from: usize, to: usize) -> (r: &[char])
    requires
        from <= to <= s@.len(),
    ensures
        r@ == s@.subrange(from as int, to as int),
{
    vstd::slice::slice_subrange(s, from, to)
}

/// What stands before the first `c`, or all where there is none.
pub(crate) fn before_char(s: &[char], c: char) -> (r: &[char])
    ensures
        r@ == before(s@, c),
{
    let i = find_char(s, c);
    let r = part(s, 0, i);
    assert(s@.subrange(0, i as int) =~= s@.take(i as int));
    r
}

/// The pieces between one `c` and the next.
pub(crate) fn split_char(s: &[char], c: char) -> (r: Vec<Vec<char>>)
    ensures
        pieces(r@) == split(s@, c),
        r@.len() > 0,
{
    let mut r: Vec<Vec<char>> = Vec::new();
    let mut from: usize = 0;
    assert(s@.skip(0) =~= s@);
    assert(pieces(r@) + split(s@, c) =~= split(s@, c));
    loop
        invariant
            from <= s@.len(),
            pieces(r@) + split(s@.skip(from as int), c) == split(s@, c),
        decreases s@.len() - from,
    {
        let rest = part(s, from, s.len());
        assert(rest@ =~= s@.skip(from as int));
        let i = find_char(rest, c);
        let piece = copy_chars(part(rest, 0, i));
        assert(piece@ =~= rest@.take(i as int));
        let ghost was = r@;
        r.push(piece);
        assert(pieces(r@) =~= pieces(was).push(rest@.take(i as int)));
        if i >= rest.len() {
            assert(rest@.take(i as int) =~= rest@);
            assert(pieces(was) + seq![rest@] =~= pieces(r@));
            return r;
        }
        assert(rest@.skip(i + 1) =~= s@.skip(from + i + 1));
        assert(pieces(was) + (seq![rest@.take(i as int)] + split(rest@.skip(i + 1), c)) =~= pieces(
            r@,
        ) + split(s@.skip(from + i + 1), c));
        from = from + i + 1;
    }
}

/// `s` without a carriage return at its end.
pub(crate) fn drop_cr(s: &[char]) -> (r: &[char])
    ensures
        r@ == without_cr(s@),
{
    if s.len() > 0 && s[s.len() - 1] == '\r' {
        let r = part(s, 0, s.len() - 1);
        assert(r@ =~= s@.drop_last());
        r
    } else {
        s
    }
}

/// The lines of a text.
pub(crate) fn lines_of(s: &[char]) -> (r: Vec<Vec<char>>)
    ensures
        pieces(r@) == lines(s@),
{
    let mut r: Vec<Vec<char>> = Vec::new();
    let mut from: usize = 0;
    assert(s@.skip(0) =~= s@);
    assert(pieces(r@) + lines(s@) =~= lines(s@));
    while from < s.len()
        invariant
            from <= s@.len(),
            pieces(r@) + lines(s@.skip(from as int)) == lines(s@),
        decreases s@.len() - from,
    {
        let rest = part(s, from, s.len());
        assert(rest@ =~= s@.skip(from as int));
        let i = find_char(rest, '\n');
        let head = part(rest, 0, i);
        assert(head@ =~= rest@.take(i as int));
        let ghost was = r@;
        if i >= rest.len() {
            r.push(copy_chars(head));
            assert(rest@.take(i as int) =~= rest@);
            assert(pieces(r@) =~= pieces(was).push(rest@));
            assert(pieces(was) + seq![rest@] =~= pieces(r@));
            return r;
        }
        r.push(copy_chars(drop_cr(head)));
        assert(pieces(r@) =~= pieces(was).push(without_cr(head@)));
        assert(rest@.skip(i + 1) =~= s@.skip(from + i + 1));
        assert(pieces(was) + (seq![without_cr(head@)] + lines(rest@.skip(i + 1))) =~= pieces(r@)
            + lines(s@.skip(from + i + 1)));
        from = from + i + 1;
    }
    assert(lines(s@.skip(from as int)) =~= Seq::<Seq<char>>::empty());
    assert(pieces(r@) + Seq::<Seq<char>>::empty() =~= pieces(r@));
    r
}

/// The first line of a text.
pub(crate) fn first_line_of(s: &[char]) -> (r: &[char])
    ensures
        r@ == first_line(s@),
{
    let i = find_char(s, '\n');
    let head = part(s, 0, i);
    assert(head@ =~= s@.take(i as int));
    if i < s.len() {
        drop_cr(head)
    } else {
        s
    }
}

/// Whether `needle` stands in `s` at the place `at`.
fn stands_at(s: &[char], needle: &[char], at: usize) -> (r: bool)
    requires
        at + needle@.len() <= s@.len(),
    ensures
        r == (s@.subrange(at as int, at + needle@.len()) == needle@),
{
    assert(s@.len() == s.len());
    same_chars(part(s, at, at + needle.len()), needle)
}

/// Whether `needle` stands somewhere in `s`.
pub(crate) fn contains_chars(s: &[char], needle: &[char]) -> (r: bool)
    ensures
        r == contains(s@, needle@),
{
    if needle.len() > s.len() {
        return false;
    }
    let last = s.len() - needle.len();
    let mut i: usize = 0;
    while i <= last
        invariant
            needle@.len() <= s@.len(),
            last == s@.len() - needle@.len(),
            i <= last + 1,
            forall|j: int|
                0 <= j < i ==> #[trigger] s@.subrange(j, j + needle@.len()) != needle@,
        decreases last + 1 - i,
    {
        if stands_at(s, needle, i) {
            return true;
        }
        if i == last {
            return false;
        }
        i = i + 1;
    }
    false
}

/// Whether `needle` stands somewhere in `s`.
pub(crate) fn contains_str(s: &str, needle: &str) -> (r: bool)
    ensures
        r == contains(s@, needle@),
{
    let x = to_chars(s);
    let y = to_chars(needle);
    contains_chars(x.as_slice(), y.as_slice())
}

/// Whether `s` begins with `prefix`.
pub(crate) fn starts_with_chars(s: &[char], prefix: &[char]) -> (r: bool)
    ensures
        r == starts_with(s@, prefix@),
{
    if prefix.len() > s.len() {
        return false;
    }
    assert(s@.subrange(0, prefix@.len() as int) =~= s@.take(prefix@.len() as int));
    stands_at(s, prefix, 0)
}

/// Whether `s` ends in `suffix`.
pub(crate) fn ends_with_chars(s: &[char], suffix: &[char]) -> (r: bool)
    ensures
        r == ends_with(s@, suffix@),
{
    if suffix.len() > s.len() {
        return false;
    }
    let at = s.len() - suffix.len();
    assert(s@.subrange(at as int, s@.len() as int) =~= s@.skip(at as int));
    stands_at(s, suffix, at)
}

/// Whether `s` ends in `suffix`.
pub(crate) fn ends_with_str(s: &str, suffix: &str) -> (r: bool)
    ensures
        r == ends_with(s@, suffix@),
{
    let x = to_chars(s);
    let y = to_chars(suffix);
    ends_with_chars(x.as_slice(), y.as_slice())
}

/// Whether `c` has the Unicode property White_Space.
pub fn white_space(c: char) -> (r: bool)
    ensures
        r == is_white_space(c),
{
    ('\u{9}' <= c && c <= '\u{d}') || c == ' ' || c == '\u{85}' || c == '\u{a0}' || c == '\u{1680}'
        || ('\u{2000}' <= c && c <= '\u{200a}') || c == '\u{2028}' || c == '\u{2029}' || c
        == '\u{202f}' || c == '\u{205f}' || c == '\u{3000}'
}

/// `s` without the white space at its start.
pub(crate) fn trim_start_chars(s: &[char]) -> (r: &[char])
    ensures
        r@ == trim_start(s@),
{
    let mut i: usize = 0;
    assert(s@.skip(0) =~= s@);
    while i < s.len() && white_space(s[i])
        invariant
            i <= s@.len(),
            trim_start(s@.skip(i as int)) == trim_start(s@),
        decreases s@.len() - i,
    {
        assert(s@.skip(i as int).drop_first() =~= s@.skip(i + 1));
        i = i + 1;
    }
    let r = part(s, i, s.len());
    assert(r@ =~= s@.skip(i as int));
    r
}

/// `s` without the white space at its end.
pub(crate) fn trim_end_chars(s: &[char]) -> (r: &[char])
    ensures
        r@ == trim_end(s@),
{
    let mut n: usize = s.len();
    assert(s@.take(n as int) =~= s@);
    while n > 0 && white_space(s[n - 1])
        invariant
            n <= s@.len(),
            trim_end(s@.take(n as int)) == trim_end(s@),
        decreases n,
    {
        assert(s@.take(n as int).drop_last() =~= s@.take(n - 1));
        n = n - 1;
    }
    let r = part(s, 0, n);
    assert(r@ =~= s@.take(n as int));
    r
}

/// `s` without the white space at either end.
pub(crate) fn trim_chars(s: &[char]) -> (r: &[char])
    ensures
        r@ == trim(s@),
{
    trim_end_chars(trim_start_chars(s))
}

/// `s` without the `c`s at its end.
pub(crate) fn trim_end_char(s: &[char], c: char) -> (r: &[char])
    ensures
        r@ == trim_end_matches(s@, c),
{
    let mut n: usize = s.len();
    assert(s@.take(n as int) =~= s@);
    while n > 0 && s[n - 1] == c
        invariant
            n <= s@.len(),
            trim_end_matches(s@.take(n as int), c) == trim_end_matches(s@, c),
        decreases n,
    {
        assert(s@.take(n as int).drop_last() =~= s@.take(n - 1));
        n = n - 1;
    }
    let r = part(s, 0, n);
    assert(r@ =~= s@.take(n as int));
    r
}

/// Joining one piece more gives what the pieces before it give, the separator
/// and the piece; of the first piece alone it gives that piece.
proof fn lemma_join_step(parts: Seq<Seq<char>>, sep: Seq<char>, i: int)
    requires
        0 <= i < parts.len(),
    ensures
        join(parts.take(i + 1), sep) == if i == 0 {
            parts[0]
        } else {
            join(parts.take(i), sep) + sep + parts[i]
        },
{
    assert(parts.take(i + 1) =~= parts.take(i).push(parts[i]));
    lemma_join_push(parts.take(i), parts[i], sep);
    if i == 0 {
        assert(parts.take(1) =~= seq![parts[0]]);
    }
}

/// The pieces with `sep` between each two.
pub(crate) fn join_pieces(parts: &Vec<Vec<char>>, sep: &str) -> (r: String)
    ensures
        r@ == join(pieces(parts@), sep@),
{
    let mut r: String = String::new();
    let mut i: usize = 0;
    assert(pieces(parts@).take(0) =~= Seq::<Seq<char>>::empty());
    while i < parts.len()
        invariant
            i <= parts@.len(),
            r@ == join(pieces(parts@).take(i as int), sep@),
        decreases parts@.len() - i,
    {
        proof {
            lemma_join_step(pieces(parts@), sep@, i as int);
        }
        if i > 0 {
            r.append(sep);
        } else {
            assert(r@ + parts@[0]@ =~= parts@[0]@);
        }
        push_chars(&mut r, parts[i].as_slice());
        i = i + 1;
    }
    assert(pieces(parts@).take(i as int) =~= pieces(parts@));
    r
}

/// The strings with `sep` between each two.
pub(crate) fn join_strings(parts: &Vec<String>, sep: &str) -> (r: String)
    ensures
        r@ == join(texts(parts@), sep@),
{
    let mut r: String = String::new();
    let mut i: usize = 0;
    assert(texts(parts@).take(0) =~= Seq::<Seq<char>>::empty());
    while i < parts.len()
        invariant
            i <= parts@.len(),
            r@ == join(texts(parts@).take(i as int), sep@),
        decreases parts@.len() - i,
    {
        proof {
            lemma_join_step(texts(parts@), sep@, i as int);
        }
        if i > 0 {
            r.append(sep);
        } else {
            assert(r@ + parts@[0]@ =~= parts@[0]@);
        }
        r.append(parts[i].as_str());
        i = i + 1;
    }
    assert(texts(parts@).take(i as int) =~= texts(parts@));
    r
}

/// The decimal digit of a number below ten.
fn digit_char(d: u64) -> (c: char)
    requires
        d < 10,
    ensures
        c == digit(d as nat),
{
    (0x30u8 + d as u8) as char
}

/// Appends a number in decimal.
pub(crate) fn push_decimal(s: &mut String, n: u64)
    ensures
        final(s)@ == old(s)@ + decimal(n as nat),
    decreases n,
{
    let ghost start = s@;
    if n >= 10 {
        push_decimal(s, n / 10);
    }
    s.push(digit_char(n % 10));
    assert(s@ =~= start + decimal(n as nat));
}

/// The 32-bit number that these characters write down, if they do.
pub(crate) fn u32_of_chars(s: &[char]) -> (r: Option<u32>)
    ensures
        r == parse_u32(s@),
{
    let from: usize = if s.len() > 0 && s[0] == '+' {
        1
    } else {
        0
    };
    let digits = part(s, from, s.len());
    let ghost plain = if s@.len() > 0 && s@[0] == '+' {
        s@.drop_first()
    } else {
        s@
    };
    assert(digits@ =~= plain);
    if digits.len() == 0 {
        return None;
    }
    let mut value: u64 = 0;
    let mut i: usize = 0;
    while i < digits.len()
        invariant
            i <= digits@.len(),
            value == number_value(digits@.take(i as int)),
            value <= u32::MAX,
            forall|j: int| 0 <= j < i ==> is_digit(#[trigger] digits@[j]),
            digits@ == plain,
            plain == (if s@.len() > 0 && s@[0] == '+' {
                s@.drop_first()
            } else {
                s@
            }),
        decreases digits@.len() - i,
    {
        let c = digits[i];
        if c < '0' || c > '9' {
            assert(!is_digit(digits@[i as int]));
            return None;
        }
        value = value * 10 + (c as u64 - 0x30);
        i = i + 1;
        assert(digits@.take(i as int).drop_last() =~= digits@.take(i - 1));
        if value > u32::MAX as u64 {
            proof {
                lemma_number_value_grows(digits@, i as int);
            }
            return None;
        }
    }
    assert(digits@.take(i as int) =~= digits@);
    Some(value as u32)
}

} // verus!
