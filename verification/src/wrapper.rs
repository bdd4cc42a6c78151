//! The Gradle wrapper of generated Kotlin multiplatform clients.

use crate::text::{contains, part, same_chars, starts_with, to_chars};
use vstd::prelude::*;

verus! {

/// The Gradle version that the generator bundles, whose compiler crashes on
/// JDK 25.
pub const BUNDLED_GRADLE: &'static str = "8.14.3";

/// The Gradle version that takes its place.
pub const PATCHED_GRADLE: &'static str = "9.1.0";

/// `s` with each `from`, read from the left, replaced by `to`.
pub open spec fn replaced(s: Seq<char>, from: Seq<char>, to: Seq<char>) -> Seq<char>
    decreases s.len(),
{
    if from.len() == 0 || s.len() == 0 {
        s
    } else if starts_with(s, from) {
        to + replaced(s.skip(from.len() as int), from, to)
    } else {
        seq![s[0]] + replaced(s.drop_first(), from, to)
    }
}

/// `s` with each `from`, read from the left, replaced by `to`.
fn replace(s: &str, from: &str, to: &str) -> (r: String)
    requires
        from@.len() > 0,
    ensures
        r@ == replaced(s@, from@, to@),
{
    let all = to_chars(s);
    let what = to_chars(from);
    let mut r: String = String::new();
    let mut i: usize = 0;
    assert(s@.skip(0) =~= s@);
    assert(r@ + replaced(s@, from@, to@) =~= replaced(s@, from@, to@));
    while i < all.len()
        invariant
            i <= all@.len(),
            all@ == s@,
            what@ == from@,
            from@.len() > 0,
            r@ + replaced(s@.skip(i as int), from@, to@) == replaced(s@, from@, to@),
        decreases all@.len() - i,
    {
        let ghost was = r@;
        let ghost rest = s@.skip(i as int);
        if what.len() <= all.len() - i && same_chars(
            part(all.as_slice(), i, i + what.len()),
            what.as_slice(),
        ) {
            assert(rest.take(from@.len() as int) =~= s@.subrange(i as int, i + from@.len()));
            r.append(to);
            assert(rest.skip(from@.len() as int) =~= s@.skip(i + from@.len()));
            assert(was + (to@ + replaced(rest.skip(from@.len() as int), from@, to@)) =~= r@
                + replaced(s@.skip(i + from@.len()), from@, to@));
            i = i + what.len();
        } else {
            proof {
                if starts_with(rest, from@) {
                    assert(rest.take(from@.len() as int) =~= s@.subrange(
                        i as int,
                        i + from@.len(),
                    ));
                }
            }
            r.push(all[i]);
            assert(rest.drop_first() =~= s@.skip(i + 1));
            assert(was + (seq![rest[0]] + replaced(rest.drop_first(), from@, to@)) =~= r@
                + replaced(s@.skip(i + 1), from@, to@));
            i = i + 1;
        }
    }
    assert(s@.skip(i as int) =~= Seq::<char>::empty());
    assert(r@ + Seq::<char>::empty() =~= r@);
    r
}

/// The properties of the Gradle wrapper with the bundled Gradle version
/// replaced by the one that works.
pub fn patch_gradle_wrapper(content: &str) -> (r: String)
    ensures
        r@ == replaced(content@, BUNDLED_GRADLE@, PATCHED_GRADLE@),
{
    proof {
        reveal_strlit("8.14.3");
    }
    replace(content, BUNDLED_GRADLE, PATCHED_GRADLE)
}

/// Where the result of replacing begins with a text that the replacement does
/// not begin within, what it was made from begins with it too.
proof fn lemma_replaced_prefix(s: Seq<char>, from: Seq<char>, to: Seq<char>, q: Seq<char>)
    requires
        from.len() > 0,
        to.len() > 0,
        !q.contains(to[0]),
        starts_with(replaced(s, from, to), q),
    ensures
        starts_with(s, q),
    decreases q.len(),
{
    let new = replaced(s, from, to);
    if q.len() == 0 {
        assert(s.take(0) =~= q);
    } else {
        assert(new.take(q.len() as int)[0] == new[0]);
        assert(q.contains(q[0]));
        if s.len() > 0 {
            if starts_with(s, from) {
                assert(new[0] == to[0]);
            } else {
                let rest = s.drop_first();
                let t = q.drop_first();
                assert(new.drop_first() =~= replaced(rest, from, to));
                assert(new.drop_first().take(t.len() as int) =~= t) by {
                    assert forall|i: int| 0 <= i < t.len() implies new.drop_first()[i] == t[i] by {
                        assert(new.take(q.len() as int)[i + 1] == q[i + 1]);
                    }
                }
                assert(!t.contains(to[0])) by {
                    if t.contains(to[0]) {
                        let k = choose|k: int| 0 <= k < t.len() && t[k] == to[0];
                        assert(q[k + 1] == to[0]);
                    }
                }
                lemma_replaced_prefix(rest, from, to, t);
                assert(s.take(q.len() as int) =~= q) by {
                    assert forall|i: int| 0 <= i < q.len() implies s[i] == q[i] by {
                        if i > 0 {
                            assert(rest.take(t.len() as int)[i - 1] == t[i - 1]);
                        }
                    }
                }
            }
        }
    }
}

/// The bundled Gradle version is nowhere to be found after the patch.
pub proof fn law_bundled_gradle_is_gone(content: Seq<char>)
    ensures
        !contains(replaced(content, BUNDLED_GRADLE@, PATCHED_GRADLE@), BUNDLED_GRADLE@),
    decreases content.len(),
{
    let from = BUNDLED_GRADLE@;
    let to = PATCHED_GRADLE@;
    reveal_strlit("8.14.3");
    reveal_strlit("9.1.0");
    assert(from =~= seq!['8', '.', '1', '4', '.', '3']);
    assert(to =~= seq!['9', '.', '1', '.', '0']);
    let new = replaced(content, from, to);
    if contains(new, from) {
        let i = choose|i: int|
            0 <= i <= new.len() - from.len() && #[trigger] new.subrange(i, i + from.len()) == from;
        assert(new.subrange(i, i + 6)[0] == new[i]);
        if content.len() > 0 {
            if starts_with(content, from) {
                let rest = content.skip(6);
                law_bundled_gradle_is_gone(rest);
                if i >= 5 {
                    assert(replaced(rest, from, to).subrange(i - 5, i - 5 + 6) =~= new.subrange(
                        i,
                        i + 6,
                    ));
                } else {
                    assert(new[i] == to[i]);
                }
            } else {
                let rest = content.drop_first();
                let behind = replaced(rest, from, to);
                law_bundled_gradle_is_gone(rest);
                if i >= 1 {
                    assert(behind.subrange(i - 1, i - 1 + 6) =~= new.subrange(i, i + 6));
                } else {
                    let q = from.drop_first();
                    assert(new.subrange(0, 6) == from);
                    assert(behind.take(5) =~= q) by {
                        assert forall|k: int| 0 <= k < 5 implies behind[k] == q[k] by {
                            assert(new.subrange(0, 6)[k + 1] == from[k + 1]);
                        }
                    }
                    assert(!q.contains('9'));
                    lemma_replaced_prefix(rest, from, to, q);
                    assert(content.take(6) =~= from) by {
                        assert forall|k: int| 0 <= k < 6 implies content[k] == from[k] by {
                            if k > 0 {
                                assert(rest.take(5)[k - 1] == q[k - 1]);
                            }
                        }
                    }
                }
            }
        }
    }
}

/// What the patch does not find, it leaves alone, and the first bundled version
/// that it finds becomes the other one, with what follows patched in turn.
pub proof fn law_patch_replaces_one_by_one(a: Seq<char>, b: Seq<char>)
    requires
        forall|i: int|
            0 <= i < a.len() ==> !starts_with(
                #[trigger] (a + "8.14.3"@ + b).skip(i),
                "8.14.3"@,
            ),
    ensures
        replaced(a + "8.14.3"@ + b, BUNDLED_GRADLE@, PATCHED_GRADLE@) == a + "9.1.0"@ + replaced(
            b,
            BUNDLED_GRADLE@,
            PATCHED_GRADLE@,
        ),
    decreases a.len(),
{
    let from = "8.14.3"@;
    let to = "9.1.0"@;
    reveal_strlit("8.14.3");
    reveal_strlit("9.1.0");
    let s = a + from + b;
    if a.len() == 0 {
        assert(s.take(6) =~= from);
        assert(s.skip(6) =~= b);
        assert(a + to =~= to);
    } else {
        assert(s.skip(0) =~= s);
        let rest = a.drop_first();
        let t = rest + from + b;
        assert(s.drop_first() =~= t);
        assert forall|i: int| 0 <= i < rest.len() implies !starts_with(#[trigger] t.skip(i), from) by {
            assert(t.skip(i) =~= s.skip(i + 1));
        }
        law_patch_replaces_one_by_one(rest, b);
        assert(seq![s[0]] + (rest + to + replaced(b, from, to)) =~= a + to + replaced(b, from, to));
    }
}

/// A text without the bundled version is not changed.
pub proof fn law_patch_leaves_the_rest(content: Seq<char>)
    requires
        !contains(content, "8.14.3"@),
    ensures
        replaced(content, BUNDLED_GRADLE@, PATCHED_GRADLE@) == content,
    decreases content.len(),
{
    let from = "8.14.3"@;
    reveal_strlit("8.14.3");
    if content.len() > 0 {
        let rest = content.drop_first();
        assert(!starts_with(content, from)) by {
            if starts_with(content, from) {
                assert(content.subrange(0, 0int + from.len()) =~= content.take(6));
            }
        }
        assert(!contains(rest, from)) by {
            if contains(rest, from) {
                let i = choose|i: int|
                    0 <= i <= rest.len() - from.len() && #[trigger] rest.subrange(
                        i,
                        i + from.len(),
                    ) == from;
                assert(content.subrange(i + 1, i + 1 + from.len()) =~= rest.subrange(
                    i,
                    i + from.len(),
                ));
            }
        }
        law_patch_leaves_the_rest(rest);
        assert(seq![content[0]] + rest =~= content);
    }
}

} // verus!
