//! README regeneration: what the model is shown, and what is made of its reply.

use crate::globs::{matches_any, picked};
use crate::text::{
    ends_with, find, is_blank, is_white_space, join, join_pieces, join_strings, law_trim,
    lemma_find, lemma_find_is, lemma_join_push, lemma_join_split, lemma_trim_start, lines, lines_of,
    of_chars, pieces, same_chars, same_str, split, starts_with, starts_with_chars, texts, to_chars,
    trim, trim_chars, trim_end, trim_start, trim_start_chars, without_cr,
};
use crate::utf8::{decoded, utf8_text};
use vstd::prelude::*;
use vstd::utf8::{decode_utf8, valid_utf8};

verus! {

/// The file that is regenerated.
pub const README_FILE: &'static str = "README.md";

/// What the model is told before it is shown the repository.
pub const README_PROMPT: &'static str = "You are generating a README.md for the software project below. The existing README is excluded so you write fresh — don't anchor to anything pre-existing.\n\nProduce a comprehensive, accurate README that documents the project as it actually exists today: what it does, how to install/build/run, how to use it, the architecture and key files, any non-obvious conventions. Cite specific file paths where it helps a reader orient. \n\nOutput ONLY the markdown body of README.md — no commentary, no preface, no surrounding code fences. Start with a `# <project name>` heading.\n\nREPOSITORY:\n";

/// What the model is asked for a README, and which files it is shown.
#[derive(Debug)]
pub struct ReadmePrompt {
    pub prompt: String,
    /// The path of each file that is part of the prompt, and its size in bytes.
    pub included: Vec<(String, usize)>,
}

// ---------------------------------------------------------------------------
// The model
// ---------------------------------------------------------------------------

/// Whether a file is a source of the README: one of the patterns picks
/// it out, and it is not the README itself.
pub open spec fn is_source(path: Seq<char>, globs: Seq<Seq<char>>) -> bool {
    path != README_FILE@ && picked(globs, path)
}

/// The sources of the README among the files of the index, in their order.
pub open spec fn sources(indexed: Seq<Seq<char>>, globs: Seq<Seq<char>>) -> Seq<Seq<char>>
    decreases indexed.len(),
{
    if indexed.len() == 0 {
        Seq::empty()
    } else if is_source(indexed.last(), globs) {
        sources(indexed.drop_last(), globs).push(indexed.last())
    } else {
        sources(indexed.drop_last(), globs)
    }
}

/// The files of the index without the README, in their order.
pub open spec fn all_but_readme(indexed: Seq<Seq<char>>) -> Seq<Seq<char>>
    decreases indexed.len(),
{
    if indexed.len() == 0 {
        Seq::empty()
    } else if indexed.last() != README_FILE@ {
        all_but_readme(indexed.drop_last()).push(indexed.last())
    } else {
        all_but_readme(indexed.drop_last())
    }
}

/// The paths and contents of some files.
pub open spec fn contents(files: Seq<(String, Vec<u8>)>) -> Seq<(Seq<char>, Seq<u8>)> {
    files.map_values(|f: (String, Vec<u8>)| (f.0@, f.1@))
}

/// A file as it is shown to the model.
pub open spec fn section(path: Seq<char>, text: Seq<char>) -> Seq<char> {
    "=== "@ + path + " ===\n"@ + text + "\n"@
}

/// The files as they are shown to the model. Those that are not UTF-8 cannot
/// be, and are left out.
pub open spec fn sections(files: Seq<(Seq<char>, Seq<u8>)>) -> Seq<Seq<char>>
    decreases files.len(),
{
    if files.len() == 0 {
        Seq::empty()
    } else {
        let before = sections(files.drop_last());
        match decoded(files.last().1) {
            Some(text) => before.push(section(files.last().0, text)),
            None => before,
        }
    }
}

/// The paths and sizes of the files that are UTF-8.
pub open spec fn readable(files: Seq<(Seq<char>, Seq<u8>)>) -> Seq<(Seq<char>, nat)>
    decreases files.len(),
{
    if files.len() == 0 {
        Seq::empty()
    } else {
        let before = readable(files.drop_last());
        match decoded(files.last().1) {
            Some(_) => before.push((files.last().0, files.last().1.len())),
            None => before,
        }
    }
}

/// The paths and sizes of a list of files.
pub open spec fn sizes(v: Seq<(String, usize)>) -> Seq<(Seq<char>, nat)> {
    v.map_values(|f: (String, usize)| (f.0@, f.1 as nat))
}

/// Everything that the model is asked for a README.
pub open spec fn readme_request(files: Seq<(Seq<char>, Seq<u8>)>) -> Seq<char> {
    README_PROMPT@ + join(sections(files), "\n"@)
}

/// Whether a text stands, as a whole, in a Markdown code fence.
pub open spec fn is_fenced(text: Seq<char>) -> bool {
    let all = lines(text);
    &&& all.len() > 0
    &&& starts_with(trim_start(all[0]), "```"@)
    &&& trim(all.last()) == "```"@
}

/// The lines without the first and the last.
pub open spec fn inner(all: Seq<Seq<char>>) -> Seq<Seq<char>> {
    if all.len() < 2 {
        Seq::empty()
    } else {
        all.subrange(1, all.len() - 1)
    }
}

/// A text without the white space around it, and without the code fence that
/// all of it stands in, if it does.
pub open spec fn unfenced(s: Seq<char>) -> Seq<char> {
    let text = trim(s);
    if is_fenced(text) {
        join(inner(lines(text)), "\n"@)
    } else {
        text
    }
}

/// Whether no line of a text ends in a carriage return.
pub open spec fn plain_line_ends(s: Seq<char>) -> bool {
    forall|i: int|
        0 <= i < s.len() && #[trigger] s[i] == '\r' ==> i + 1 < s.len() && s[i + 1] != '\n'
}

// ---------------------------------------------------------------------------
// The functions
// ---------------------------------------------------------------------------

/// The files of the index that the model is shown for the README: those that one of
/// the patterns picks out, without the README itself, so that the model does
/// not anchor to it. Where there are none, nothing is to be regenerated.
pub fn readme_sources(indexed: &[String], globs: &[String]) -> (r: Vec<String>)
    ensures
        texts(r@) == sources(texts(indexed@), texts(globs@)),
{
    let ghost all = texts(indexed@);
    let mut r: Vec<String> = Vec::new();
    let mut i: usize = 0;
    assert(texts(r@) =~= sources(all.take(0), texts(globs@)));
    while i < indexed.len()
        invariant
            i <= indexed@.len(),
            all == texts(indexed@),
            texts(r@) == sources(all.take(i as int), texts(globs@)),
        decreases indexed@.len() - i,
    {
        let ghost was = r@;
        assert(all.take(i + 1).drop_last() =~= all.take(i as int));
        assert(all.take(i + 1).last() == indexed@[i as int]@);
        if !same_str(indexed[i].as_str(), README_FILE) && matches_any(globs, indexed[i].as_str()) {
            r.push(indexed[i].clone());
            assert(texts(r@) =~= texts(was).push(indexed@[i as int]@));
        }
        i = i + 1;
    }
    assert(all.take(i as int) =~= all);
    r
}

/// Every file of the index but the README itself.
pub fn whole_index(indexed: &[String]) -> (r: Vec<String>)
    ensures
        texts(r@) == all_but_readme(texts(indexed@)),
{
    let ghost all = texts(indexed@);
    let mut r: Vec<String> = Vec::new();
    let mut i: usize = 0;
    assert(texts(r@) =~= all_but_readme(all.take(0)));
    while i < indexed.len()
        invariant
            i <= indexed@.len(),
            all == texts(indexed@),
            texts(r@) == all_but_readme(all.take(i as int)),
        decreases indexed@.len() - i,
    {
        let ghost was = r@;
        assert(all.take(i + 1).drop_last() =~= all.take(i as int));
        assert(all.take(i + 1).last() == indexed@[i as int]@);
        if !same_str(indexed[i].as_str(), README_FILE) {
            r.push(indexed[i].clone());
            assert(texts(r@) =~= texts(was).push(indexed@[i as int]@));
        }
        i = i + 1;
    }
    assert(all.take(i as int) =~= all);
    r
}

/// What the model is asked for a README of these files. Files that are not
/// UTF-8 are silently left out: they are committed for runtime use, not for
/// README content.
pub fn readme_prompt(files: &Vec<(String, Vec<u8>)>) -> (r: ReadmePrompt)
    ensures
        r.prompt@ == readme_request(contents(files@)),
        sizes(r.included@) == readable(contents(files@)),
{
    let ghost all = contents(files@);
    let mut shown: Vec<String> = Vec::new();
    let mut included: Vec<(String, usize)> = Vec::new();
    let mut i: usize = 0;
    assert(texts(shown@) =~= sections(all.take(0)));
    assert(sizes(included@) =~= readable(all.take(0)));
    while i < files.len()
        invariant
            i <= files@.len(),
            all == contents(files@),
            texts(shown@) == sections(all.take(i as int)),
            sizes(included@) == readable(all.take(i as int)),
        decreases files@.len() - i,
    {
        let ghost was = shown@;
        let ghost had = included@;
        assert(all.take(i + 1).drop_last() =~= all.take(i as int));
        assert(all.take(i + 1).last() == (files@[i as int].0@, files@[i as int].1@));
        match utf8_text(files[i].1.as_slice()) {
            Some(text) => {
                let mut part: String = "=== ".to_owned();
                part.append(files[i].0.as_str());
                part.append(" ===\n");
                part.append(text);
                part.append("\n");
                included.push((files[i].0.clone(), files[i].1.len()));
                shown.push(part);
                assert(texts(shown@) =~= texts(was).push(part@));
                assert(sizes(included@) =~= sizes(had).push(
                    (files@[i as int].0@, files@[i as int].1@.len()),
                ));
            },
            None => {},
        }
        i = i + 1;
    }
    assert(all.take(i as int) =~= all);
    let mut prompt: String = README_PROMPT.to_owned();
    prompt.append(join_strings(&shown, "\n").as_str());
    ReadmePrompt { prompt, included }
}

/// If the model wrapped the entire response in a code fence, with a language
/// or without, strip it. Without this the README starts and ends with literal
/// fence lines.
pub fn strip_outer_fence(s: &str) -> (r: String)
    ensures
        r@ == unfenced(s@),
{
    let all = to_chars(s);
    let text = trim_chars(all.as_slice());
    let mut rows = lines_of(text);
    let fence = to_chars("```");
    let n = rows.len();
    if n == 0 {
        return of_chars(text);
    }
    let ghost whole = lines(text@);
    assert(whole.len() == n);
    assert(whole[0] == rows@[0]@);
    assert(whole.last() == rows@[n - 1]@);
    if starts_with_chars(trim_start_chars(rows[0].as_slice()), fence.as_slice()) && same_chars(
        trim_chars(rows[n - 1].as_slice()),
        fence.as_slice(),
    ) {
        rows.remove(0);
        rows.pop();
        assert(pieces(rows@) =~= inner(whole));
        return join_pieces(&rows, "\n");
    }
    of_chars(text)
}

// ---------------------------------------------------------------------------
// Facts and laws
// ---------------------------------------------------------------------------

/// The lines of a text, a line feed and one last line are the pieces between
/// the line feeds of the text, and the last line.
proof fn lemma_lines_with_last(s: Seq<char>, last: Seq<char>)
    requires
        plain_line_ends(s),
        !last.contains('\n'),
        last.len() > 0,
    ensures
        lines(s + seq!['\n'] + last) == split(s, '\n').push(last),
    decreases s.len(),
{
    lemma_find(s, '\n');
    let i = find(s, '\n');
    let whole = s + seq!['\n'] + last;
    assert forall|j: int| 0 <= j < i implies whole[j] != '\n' by {
        assert(whole[j] == s[j]);
    }
    if i < s.len() {
        assert(whole[i] == '\n');
        lemma_find_is(whole, '\n', i);
        let rest = s.skip(i + 1);
        assert(whole.take(i) =~= s.take(i));
        assert(whole.skip(i + 1) =~= rest + seq!['\n'] + last);
        if i > 0 {
            assert(s.take(i).last() == s[i - 1]);
        }
        assert forall|j: int| 0 <= j < rest.len() && #[trigger] rest[j] == '\r' implies j + 1
            < rest.len()
            && rest[j + 1] != '\n' by {
            assert(s[i + 1 + j] == '\r');
        }
        lemma_lines_with_last(rest, last);
        assert(lines(whole) =~= seq![s.take(i)] + split(rest, '\n').push(last));
    } else {
        assert(whole[i] == '\n');
        lemma_find_is(whole, '\n', i);
        assert(whole.take(i) =~= s);
        assert(whole.skip(i + 1) =~= last);
        assert forall|j: int| 0 <= j < last.len() implies last[j] != '\n' by {
            assert(last.contains(last[j]));
        }
        lemma_find_is(last, '\n', last.len() as int);
        assert(lines(last) == seq![last]);
        if s.len() > 0 {
            assert(s.last() == s[s.len() - 1]);
        }
        assert(lines(whole) =~= seq![s, last]);
    }
}

/// A text that stands in a code fence comes out of it unchanged, whatever the
/// fence is opened with. A carriage return at the end of a line would not
/// survive.
pub proof fn law_fence_is_stripped(opening: Seq<char>, body: Seq<char>)
    requires
        starts_with(opening, "```"@),
        !opening.contains('\n'),
        plain_line_ends(body),
    ensures
        unfenced(opening + seq!['\n'] + body + seq!['\n'] + "```"@) == body,
{
    let fence = "```"@;
    reveal_strlit("```");
    assert(fence =~= seq!['`', '`', '`']);
    let lf = seq!['\n'];
    let text = opening + lf + body + lf + fence;
    assert(opening.take(3)[0] == opening[0]);
    assert(text[0] == '`');
    assert(text.last() == '`');
    assert(trim(text) == text);
    // The lines of the whole: the opening, the pieces of the body, the fence.
    assert forall|j: int| 0 <= j < opening.len() implies text[j] != '\n' by {
        assert(text[j] == opening[j]);
        assert(opening.contains(opening[j]));
    }
    let n = opening.len() as int;
    assert(text[n] == '\n');
    lemma_find_is(text, '\n', n);
    assert(text.take(n) =~= opening);
    assert(text.skip(n + 1) =~= body + lf + fence);
    assert(!fence.contains('\n'));
    lemma_lines_with_last(body, fence);
    let rows = lines(text);
    let first = without_cr(opening);
    assert(rows =~= seq![first] + split(body, '\n').push(fence));
    assert(opening[0] == '`' && opening[1] == '`' && opening[2] == '`') by {
        assert(opening.take(3)[1] == opening[1]);
        assert(opening.take(3)[2] == opening[2]);
    }
    assert(first.len() >= 3);
    assert(trim_start(first) == first);
    assert(first.take(3) =~= fence);
    assert(trim(fence) == fence);
    lemma_join_split(body, '\n');
    assert(inner(rows) =~= split(body, '\n'));
    reveal_strlit("\n");
    assert("\n"@ =~= lf);
}

/// The README is never shown to the model that writes it, and of the other
/// files of the index those are that a pattern picks out.
pub proof fn law_sources(indexed: Seq<Seq<char>>, globs: Seq<Seq<char>>, path: Seq<char>)
    ensures
        sources(indexed, globs).contains(path) <==> indexed.contains(path) && path != README_FILE@
            && picked(globs, path),
    decreases indexed.len(),
{
    if indexed.len() > 0 {
        let rest = indexed.drop_last();
        let shown = sources(indexed, globs);
        let before = sources(rest, globs);
        law_sources(rest, globs, path);
        assert(indexed[indexed.len() - 1] == indexed.last());
        if shown.contains(path) {
            let k = choose|k: int| 0 <= k < shown.len() && shown[k] == path;
            if k < before.len() {
                assert(before[k] == path);
                let i = choose|i: int| 0 <= i < rest.len() && rest[i] == path;
                assert(indexed[i] == path);
            }
        }
        if indexed.contains(path) && is_source(path, globs) {
            let i = choose|i: int| 0 <= i < indexed.len() && indexed[i] == path;
            if i < indexed.len() - 1 {
                assert(rest[i] == path);
                let k = choose|k: int| 0 <= k < before.len() && before[k] == path;
                assert(shown[k] == path);
            } else {
                assert(shown[shown.len() - 1] == path);
            }
        }
    }
}

/// Without patterns there are no sources, and so nothing is regenerated.
pub proof fn law_no_patterns_no_sources(indexed: Seq<Seq<char>>)
    ensures
        sources(indexed, Seq::empty()) == Seq::<Seq<char>>::empty(),
    decreases indexed.len(),
{
    if indexed.len() > 0 {
        law_no_patterns_no_sources(indexed.drop_last());
    }
}

/// The sources among two lists of files are those among the first and then those
/// among the second, and a single file is one exactly where it is not the
/// README and a pattern picks it out. So the sources keep their order.
pub proof fn law_sources_one_by_one(
    a: Seq<Seq<char>>,
    b: Seq<Seq<char>>,
    path: Seq<char>,
    globs: Seq<Seq<char>>,
)
    ensures
        sources(a + b, globs) == sources(a, globs) + sources(b, globs),
        sources(seq![path], globs) == if path != "README.md"@ && picked(globs, path) {
            seq![path]
        } else {
            Seq::empty()
        },
        sources(Seq::empty(), globs) == Seq::<Seq<char>>::empty(),
    decreases b.len(),
{
    let one = seq![path];
    assert(one.drop_last() =~= Seq::<Seq<char>>::empty());
    assert(sources(one.drop_last(), globs).push(path) =~= one);
    if b.len() == 0 {
        assert(a + b =~= a);
        assert(sources(a, globs) + sources(b, globs) =~= sources(a, globs));
    } else {
        assert((a + b).drop_last() =~= a + b.drop_last());
        assert((a + b).last() == b.last());
        law_sources_one_by_one(a, b.drop_last(), path, globs);
        assert(sources(a + b, globs) =~= sources(a, globs) + sources(b, globs));
    }
}

/// The same of all files but the README.
pub proof fn law_all_but_readme_one_by_one(a: Seq<Seq<char>>, b: Seq<Seq<char>>, path: Seq<char>)
    ensures
        all_but_readme(a + b) == all_but_readme(a) + all_but_readme(b),
        all_but_readme(seq![path]) == if path != "README.md"@ {
            seq![path]
        } else {
            Seq::empty()
        },
        all_but_readme(Seq::empty()) == Seq::<Seq<char>>::empty(),
    decreases b.len(),
{
    let one = seq![path];
    assert(one.drop_last() =~= Seq::<Seq<char>>::empty());
    assert(all_but_readme(one.drop_last()).push(path) =~= one);
    if b.len() == 0 {
        assert(a + b =~= a);
        assert(all_but_readme(a) + all_but_readme(b) =~= all_but_readme(a));
    } else {
        assert((a + b).drop_last() =~= a + b.drop_last());
        assert((a + b).last() == b.last());
        law_all_but_readme_one_by_one(a, b.drop_last(), path);
        assert(all_but_readme(a + b) =~= all_but_readme(a) + all_but_readme(b));
    }
}

/// The paths and the contents of files are taken as they are, one by one.
pub proof fn law_contents(files: Seq<(String, Vec<u8>)>, i: int)
    ensures
        contents(files).len() == files.len(),
        0 <= i < files.len() ==> contents(files)[i] == (files[i].0@, files[i].1@),
{
}

/// One more file in the request: where it is UTF-8, all of its text comes behind
/// the others, right behind a line with its path, and its path and size are
/// listed; where it is not, nothing changes. Without files the prompt stands
/// alone.
pub proof fn law_request_grows_by_the_whole_file(
    files: Seq<(Seq<char>, Seq<u8>)>,
    path: Seq<char>,
    bytes: Seq<u8>,
)
    ensures
        ({
            let more = files.push((path, bytes));
            let shown = "=== "@ + path + " ===\n"@ + decode_utf8(bytes) + "\n"@;
            &&& readme_request(Seq::empty()) == README_PROMPT@
            &&& readable(Seq::empty()) == Seq::<(Seq<char>, nat)>::empty()
            &&& !valid_utf8(bytes) ==> readme_request(more) == readme_request(files) && readable(
                more,
            ) == readable(files)
            &&& valid_utf8(bytes) ==> readable(more) == readable(files).push((path, bytes.len()))
            &&& valid_utf8(bytes) && readable(files).len() == 0 ==> readme_request(more)
                == README_PROMPT@ + shown
            &&& valid_utf8(bytes) && readable(files).len() > 0 ==> readme_request(more)
                == readme_request(files) + "\n"@ + shown
        }),
{
    let more = files.push((path, bytes));
    assert(more.drop_last() =~= files);
    assert(more.last() == (path, bytes));
    lemma_as_many_sections(files);
    assert(README_PROMPT@ + join(sections(Seq::empty()), "\n"@) =~= README_PROMPT@);
    if valid_utf8(bytes) {
        let shown = "=== "@ + path + " ===\n"@ + decode_utf8(bytes) + "\n"@;
        assert(sections(more) == sections(files).push(shown));
        lemma_join_push(sections(files), shown, "\n"@);
        assert(README_PROMPT@ + (join(sections(files), "\n"@) + "\n"@ + shown) =~= README_PROMPT@
            + join(sections(files), "\n"@) + "\n"@ + shown);
    }
}

proof fn lemma_as_many_sections(files: Seq<(Seq<char>, Seq<u8>)>)
    ensures
        sections(files).len() == readable(files).len(),
    decreases files.len(),
{
    if files.len() > 0 {
        lemma_as_many_sections(files.drop_last());
    }
}

/// Each file of the request that is UTF-8 stands in the prompt with all of its
/// text, right behind the line with its path.
pub proof fn law_request_shows_each_file(files: Seq<(Seq<char>, Seq<u8>)>, i: int)
    requires
        0 <= i < files.len(),
        valid_utf8(files[i].1),
    ensures
        exists|x: Seq<char>, y: Seq<char>|
            readme_request(files) == #[trigger] (README_PROMPT@ + x + ("=== "@ + files[i].0
                + " ===\n"@ + decode_utf8(files[i].1) + "\n"@) + y),
    decreases files.len(),
{
    let before = files.drop_last();
    let last = files.last();
    assert(files =~= before.push(last));
    law_request_grows_by_the_whole_file(before, last.0, last.1);
    let shown = "=== "@ + files[i].0 + " ===\n"@ + decode_utf8(files[i].1) + "\n"@;
    let none = Seq::<char>::empty();
    if i == files.len() - 1 {
        if readable(before).len() == 0 {
            assert(README_PROMPT@ + shown =~= README_PROMPT@ + none + shown + none);
        } else {
            let x = join(sections(before), "\n"@) + "\n"@;
            assert(readme_request(before) + "\n"@ + shown =~= README_PROMPT@ + x + shown + none);
        }
    } else {
        assert(before[i] == files[i]);
        law_request_shows_each_file(before, i);
        let (x, y) = choose|x: Seq<char>, y: Seq<char>|
            readme_request(before) == #[trigger] (README_PROMPT@ + x + shown + y);
        if valid_utf8(last.1) {
            lemma_readable_has(before, i);
            let added = "\n"@ + ("=== "@ + last.0 + " ===\n"@ + decode_utf8(last.1) + "\n"@);
            assert(readme_request(files) =~= readme_request(before) + added);
            assert(README_PROMPT@ + x + shown + y + added =~= README_PROMPT@ + x + shown + (y
                + added));
        }
    }
}

proof fn lemma_readable_has(files: Seq<(Seq<char>, Seq<u8>)>, i: int)
    requires
        0 <= i < files.len(),
        valid_utf8(files[i].1),
    ensures
        readable(files).len() > 0,
    decreases files.len(),
{
    if i < files.len() - 1 {
        assert(files.drop_last()[i] == files[i]);
        lemma_readable_has(files.drop_last(), i);
    }
}

/// White space around a reply does not count, and a reply that does not stand
/// in a fence, because it does not begin with one or because its last line is
/// none, stays as it is.
pub proof fn law_unfenced_text_stays(a: Seq<char>, text: Seq<char>, b: Seq<char>)
    requires
        is_blank(a),
        is_blank(b),
        text.len() > 0 ==> !is_white_space(text[0]) && !is_white_space(text.last()),
    ensures
        unfenced(a + text + b) == unfenced(text),
        !starts_with(text, "```"@) ==> unfenced(text) == text,
        !ends_with(text, "```"@) ==> unfenced(text) == text,
{
    let none = Seq::<char>::empty();
    law_trim(a, text, b);
    law_trim(none, text, none);
    assert(none + text + none =~= text);
    reveal_strlit("```");
    let fence = "```"@;
    if is_fenced(text) {
        let all = lines(text);
        lemma_ends_of_lines(text);
        let head = all[0];
        let last = all.last();
        assert(head[0] == text[0]);
        assert(trim_start(head) == head);
        assert(text.take(3) =~= head.take(3));
        lemma_trim_ends(last);
        assert(text.skip(text.len() - 3) =~= fence);
    }
}

/// The first and the last line of a text that white space neither begins nor
/// ends: the text begins with the one and ends in the other.
proof fn lemma_ends_of_lines(text: Seq<char>)
    requires
        text.len() > 0,
        !is_white_space(text[0]),
        !is_white_space(text.last()),
    ensures
        lines(text).len() > 0,
        0 < lines(text)[0].len() <= text.len(),
        lines(text)[0] == text.take(lines(text)[0].len() as int),
        lines(text).last().len() <= text.len(),
        lines(text).last() == text.skip(text.len() - lines(text).last().len()),
        lines(text).last().len() > 0 && !is_white_space(lines(text).last().last()),
    decreases text.len(),
{
    lemma_find(text, '\n');
    let i = find(text, '\n');
    if i < text.len() {
        assert(i > 0);
        let head = text.take(i);
        let line = without_cr(head);
        assert(line.len() > 0) by {
            if i == 1 {
                assert(head.last() == text[0]);
            }
        }
        assert(line =~= text.take(line.len() as int));
        let rest = text.skip(i + 1);
        assert(i < text.len() - 1) by {
            if i == text.len() - 1 {
                assert(text.last() == '\n');
            }
        }
        lemma_last_line(rest);
        assert(rest.last() == text.last());
        let last = lines(rest).last();
        assert(lines(text).last() == last);
        assert(rest.skip(rest.len() - last.len()) =~= text.skip(text.len() - last.len()));
    } else {
        assert(text.take(text.len() as int) =~= text);
        assert(text.skip(0) =~= text);
    }
}

proof fn lemma_last_line(text: Seq<char>)
    requires
        text.len() > 0,
        !is_white_space(text.last()),
    ensures
        lines(text).len() > 0,
        0 < lines(text).last().len() <= text.len(),
        lines(text).last() == text.skip(text.len() - lines(text).last().len()),
        lines(text).last().last() == text.last(),
    decreases text.len(),
{
    lemma_find(text, '\n');
    let i = find(text, '\n');
    if i < text.len() {
        let rest = text.skip(i + 1);
        assert(i < text.len() - 1) by {
            if i == text.len() - 1 {
                assert(text.last() == '\n');
            }
        }
        lemma_last_line(rest);
        let last = lines(rest).last();
        assert(rest.skip(rest.len() - last.len()) =~= text.skip(text.len() - last.len()));
    } else {
        assert(text.skip(0) =~= text);
    }
}

/// A text whose trimmed form is a fence, and which does not end in white space,
/// ends in the fence.
proof fn lemma_trim_ends(s: Seq<char>)
    requires
        s.len() > 0,
        !is_white_space(s.last()),
        trim(s) == "```"@,
    ensures
        s.len() >= 3,
        s.skip(s.len() - 3) == "```"@,
{
    reveal_strlit("```");
    lemma_trim_start(s);
    let t = trim_start(s);
    if t.len() > 0 {
        assert(t.last() == s.last());
    }
    assert(trim_end(t) == t);
}

/// The same where white space stands before the fence at the end.
pub proof fn law_indented_fence_is_stripped(opening: Seq<char>, body: Seq<char>, blank: Seq<char>)
    requires
        starts_with(opening, "```"@),
        !opening.contains('\n'),
        plain_line_ends(body),
        is_blank(blank),
        !blank.contains('\n'),
    ensures
        unfenced(opening + seq!['\n'] + body + seq!['\n'] + (blank + "```"@)) == body,
{
    let fence = "```"@;
    reveal_strlit("```");
    assert(fence =~= seq!['`', '`', '`']);
    let closing = blank + fence;
    let lf = seq!['\n'];
    let text = opening + lf + body + lf + closing;
    assert(opening.take(3)[0] == opening[0]);
    assert(opening.take(3)[1] == opening[1]);
    assert(opening.take(3)[2] == opening[2]);
    assert(text[0] == '`');
    assert(text.last() == '`');
    assert(trim(text) == text);
    assert forall|j: int| 0 <= j < opening.len() implies text[j] != '\n' by {
        assert(text[j] == opening[j]);
        assert(opening.contains(opening[j]));
    }
    let n = opening.len() as int;
    assert(text[n] == '\n');
    lemma_find_is(text, '\n', n);
    assert(text.take(n) =~= opening);
    assert(text.skip(n + 1) =~= body + lf + closing);
    assert(!closing.contains('\n')) by {
        if closing.contains('\n') {
            let i = choose|i: int| 0 <= i < closing.len() && closing[i] == '\n';
            if i < blank.len() {
                assert(blank.contains(blank[i]));
            }
        }
    }
    lemma_lines_with_last(body, closing);
    let rows = lines(text);
    let first = without_cr(opening);
    assert(rows =~= seq![first] + split(body, '\n').push(closing));
    assert(trim_start(first) == first);
    assert(first.take(3) =~= fence);
    law_trim(blank, fence, Seq::empty());
    assert(blank + fence + Seq::<char>::empty() =~= closing);
    lemma_join_split(body, '\n');
    assert(inner(rows) =~= split(body, '\n'));
    reveal_strlit("\n");
    assert("\n"@ =~= lf);
}

/// A reply whose last line holds more than a fence stays as it is, whatever it
/// begins with.
pub proof fn law_only_a_fence_line_closes(rest: Seq<char>, last: Seq<char>)
    requires
        rest.len() > 0 ==> rest.last() == '\n' && !is_white_space(rest[0]),
        rest.len() == 0 ==> last.len() > 0 && !is_white_space(last[0]),
        last.len() > 0 && !is_white_space(last.last()),
        !last.contains('\n'),
        trim(last) != "```"@,
    ensures
        unfenced(rest + last) == rest + last,
{
    let text = rest + last;
    let none = Seq::<char>::empty();
    law_trim(none, text, none);
    assert(none + text + none =~= text);
    lemma_last_line_is(rest, last);
}

proof fn lemma_last_line_is(rest: Seq<char>, last: Seq<char>)
    requires
        rest.len() > 0 ==> rest.last() == '\n',
        last.len() > 0,
        !last.contains('\n'),
    ensures
        lines(rest + last).len() > 0,
        lines(rest + last).last() == last,
    decreases rest.len(),
{
    let text = rest + last;
    if rest.len() == 0 {
        assert(text =~= last);
        assert forall|j: int| 0 <= j < last.len() implies last[j] != '\n' by {
            assert(last.contains(last[j]));
        }
        lemma_find_is(last, '\n', last.len() as int);
    } else {
        lemma_find(text, '\n');
        let i = find(text, '\n');
        assert(i < rest.len()) by {
            assert(text[rest.len() - 1] == '\n');
        }
        let tail = rest.skip(i + 1);
        assert(text.skip(i + 1) =~= tail + last);
        if tail.len() > 0 {
            assert(tail.last() == rest.last());
        }
        lemma_last_line_is(tail, last);
    }
}

/// What the model is told, word for word.
pub proof fn law_readme_prompt()
    ensures
        README_PROMPT@ == "You are generating a README.md for the software project below. The existing README is excluded so you write fresh — don't anchor to anything pre-existing.\n\nProduce a comprehensive, accurate README that documents the project as it actually exists today: what it does, how to install/build/run, how to use it, the architecture and key files, any non-obvious conventions. Cite specific file paths where it helps a reader orient. \n\nOutput ONLY the markdown body of README.md — no commentary, no preface, no surrounding code fences. Start with a `# <project name>` heading.\n\nREPOSITORY:\n"@,
{
}

/// The paths and sizes of a list are taken as they are, one by one.
pub proof fn law_sizes(v: Seq<(String, usize)>, i: int)
    ensures
        sizes(v).len() == v.len(),
        0 <= i < v.len() ==> sizes(v)[i] == (v[i].0@, v[i].1 as nat),
{
}

/// What becomes of any reply without white space around it, by its lines: where
/// the first begins with a fence and the last is one, the lines between the two
/// are left, with a line feed between each two; else all of it is left.
pub proof fn law_unfenced_by_lines(text: Seq<char>)
    requires
        text.len() > 0,
        !is_white_space(text[0]),
        !is_white_space(text.last()),
    ensures
        ({
            let all = lines(text);
            let n = all.len();
            &&& n > 0
            &&& starts_with(text, "```"@) && trim(all[n - 1]) == "```"@ && n >= 2 ==> unfenced(text)
                == join(all.subrange(1, n - 1), seq!['\n'])
            &&& starts_with(text, "```"@) && trim(all[n - 1]) == "```"@ && n == 1 ==> unfenced(text)
                == Seq::<char>::empty()
            &&& !starts_with(text, "```"@) || trim(all[n - 1]) != "```"@ ==> unfenced(text) == text
        }),
{
    let none = Seq::<char>::empty();
    law_trim(none, text, none);
    assert(none + text + none =~= text);
    lemma_ends_of_lines(text);
    reveal_strlit("```");
    reveal_strlit("\n");
    assert("\n"@ =~= seq!['\n']);
    let head = lines(text)[0];
    assert(head[0] == text[0]);
    assert(trim_start(head) == head);
    if starts_with(head, "```"@) {
        assert(text.take(3) =~= head.take(3));
    }
    if starts_with(text, "```"@) {
        lemma_fence_is_in_the_first_line(text);
        assert(text.take(3) =~= head.take(3));
    }
}

proof fn lemma_fence_is_in_the_first_line(text: Seq<char>)
    requires
        starts_with(text, "```"@),
    ensures
        lines(text).len() > 0,
        lines(text)[0].len() >= 3,
{
    reveal_strlit("```");
    lemma_find(text, '\n');
    let i = find(text, '\n');
    assert(text.take(3)[0] == text[0] && text.take(3)[1] == text[1] && text.take(3)[2] == text[2]);
    if i < text.len() {
        assert(i >= 3) by {
            if i < 3 {
                assert(text[i] == '\n');
            }
        }
        let line = text.take(i);
        if i == 3 {
            assert(line.last() == text[2]);
        }
    }
}

} // verus!
