//! Wildcard patterns: '*' stands for any run of characters.

use vstd::prelude::*;
use vstd::slice::slice_subrange;
use crate::text;

verus! {

/// Whether `name` matches a pattern in which '*' stands for any run of
/// characters, empty or not, and everything else for itself.
pub open spec fn glob(pattern: Seq<char>, name: Seq<char>) -> bool
    decreases pattern.len(), name.len(),
{
    if pattern.len() == 0 {
        name.len() == 0
    } else if pattern[0] == '*' {
        glob(pattern.drop_first(), name) || (name.len() > 0 && glob(pattern, name.drop_first()))
    } else {
        name.len() > 0 && name[0] == pattern[0] && glob(pattern.drop_first(), name.drop_first())
    }
}

/// A leading '*' stands for any run of characters.
pub proof fn law_star_is_any_run(rest: Seq<char>, name: Seq<char>)
    ensures
        glob(seq!['*'] + rest, name) <==> exists|k: int|
            0 <= k <= name.len() && #[trigger] glob(rest, name.skip(k)),
    decreases name.len(),
{
    let pattern = seq!['*'] + rest;
    assert(pattern.drop_first() =~= rest);
    assert(name.skip(0) =~= name);
    assert(glob(rest, name.skip(0)) == glob(rest, name));
    if name.len() > 0 {
        let short = name.drop_first();
        law_star_is_any_run(rest, short);
        if glob(pattern, short) {
            let k = choose|k: int| 0 <= k <= short.len() && #[trigger] glob(rest, short.skip(k));
            assert(short.skip(k) =~= name.skip(k + 1));
            assert(glob(rest, name.skip(k + 1)));
        }
        if exists|k: int| 0 <= k <= name.len() && #[trigger] glob(rest, name.skip(k)) {
            let k = choose|k: int| 0 <= k <= name.len() && #[trigger] glob(rest, name.skip(k));
            if k > 0 {
                assert(short.skip(k - 1) =~= name.skip(k));
                assert(glob(rest, short.skip(k - 1)));
            }
        }
    }
}

/// A text without wildcards matches itself only.
pub proof fn law_plain_text_matches_itself(pattern: Seq<char>, name: Seq<char>)
    requires
        !pattern.contains('*'),
    ensures
        glob(pattern, name) <==> name == pattern,
    decreases pattern.len(),
{
    if pattern.len() > 0 {
        assert(pattern[0] != '*') by {
            if pattern[0] == '*' {
                assert(pattern.contains('*'));
            }
        }
        let rest = pattern.drop_first();
        assert(!rest.contains('*')) by {
            if rest.contains('*') {
                let k = choose|k: int| 0 <= k < rest.len() && rest[k] == '*';
                assert(pattern[k + 1] == '*');
            }
        }
        if name.len() > 0 && name[0] == pattern[0] {
            law_plain_text_matches_itself(rest, name.drop_first());
            assert(name =~= seq![name[0]] + name.drop_first());
            assert(pattern =~= seq![pattern[0]] + rest);
        }
    } else {
        assert(name.len() == 0 ==> name =~= pattern);
    }
}

/// Whether `name` is made of the segments in order, with any run of characters
/// between each two of them.
spec fn in_segments(segments: Seq<Seq<char>>, name: Seq<char>) -> bool
    decreases segments.len(), 0nat, 0nat,
{
    if segments.len() <= 1 {
        segments.len() == 1 && name == segments[0]
    } else {
        text::occurs_at(name, segments[0], 0) && behind_run(
            segments.drop_first(),
            name.skip(segments[0].len() as int),
        )
    }
}

/// Whether the segments make up what is left of `name` behind some run of
/// characters.
spec fn behind_run(segments: Seq<Seq<char>>, name: Seq<char>) -> bool
    decreases segments.len(), 1nat, name.len(),
{
    in_segments(segments, name) || name.len() > 0 && behind_run(segments, name.drop_first())
}

/// A place where the segments make up the rest.
proof fn lemma_run_end(segments: Seq<Seq<char>>, name: Seq<char>) -> (k: int)
    requires
        behind_run(segments, name),
    ensures
        0 <= k <= name.len(),
        in_segments(segments, name.skip(k)),
    decreases name.len(),
{
    if in_segments(segments, name) {
        assert(name.skip(0) =~= name);
        0
    } else {
        let k = lemma_run_end(segments, name.drop_first());
        assert(name.drop_first().skip(k) =~= name.skip(k + 1));
        k + 1
    }
}

/// A run may start earlier.
proof fn lemma_longer_run(segments: Seq<Seq<char>>, name: Seq<char>, j: int)
    requires
        0 <= j <= name.len(),
        behind_run(segments, name.skip(j)),
    ensures
        behind_run(segments, name),
    decreases j,
{
    if j > 0 {
        assert(name.skip(j) =~= name.drop_first().skip(j - 1));
        lemma_longer_run(segments, name.drop_first(), j - 1);
    } else {
        assert(name.skip(0) =~= name);
    }
}

/// Cutting a pattern at its wildcards keeps its meaning.
proof fn lemma_glob_by_segments(pattern: Seq<char>, name: Seq<char>)
    ensures
        text::split(pattern, '*').len() > 0,
        glob(pattern, name) == in_segments(text::split(pattern, '*'), name),
    decreases pattern.len(), name.len(),
{
    let segments = text::split(pattern, '*');
    if pattern.len() == 0 {
        assert(name.len() == 0 ==> name =~= pattern);
    } else {
        let rest = pattern.drop_first();
        let tail = text::split(rest, '*');
        lemma_glob_by_segments(rest, name);
        if pattern[0] == '*' {
            assert(pattern.take(0) =~= seq![]);
            assert(pattern.skip(1) =~= rest);
            assert(segments =~= seq![Seq::<char>::empty()] + tail);
            assert(segments.drop_first() =~= tail);
            assert(name.subrange(0, 0) =~= segments[0]);
            assert(name.skip(0) =~= name);
            assert(in_segments(tail, name) == glob(rest, name));
            assert(in_segments(segments, name) == behind_run(tail, name));
            if name.len() > 0 {
                let short = name.drop_first();
                lemma_glob_by_segments(pattern, short);
                assert(short.subrange(0, 0) =~= segments[0]);
                assert(short.skip(0) =~= short);
                assert(in_segments(segments, short) == behind_run(tail, short));
            }
        } else {
            lemma_split_step(pattern);
            let c = pattern[0];
            if name.len() > 0 && name[0] == c {
                let short = name.drop_first();
                lemma_glob_by_segments(rest, short);
                if tail.len() == 1 {
                    assert(segments[0] =~= seq![c] + tail[0]);
                    if short == tail[0] {
                        assert(name =~= segments[0]);
                    }
                    if name == segments[0] {
                        assert(short =~= tail[0]);
                    }
                } else {
                    let n = tail[0].len() as int;
                    assert(segments.drop_first() =~= tail.drop_first());
                    if n <= short.len() {
                        assert(name.skip(n + 1) =~= short.skip(n));
                    }
                    if text::occurs_at(short, tail[0], 0) {
                        assert(name.subrange(0, n + 1) =~= seq![c] + short.subrange(0, n));
                        assert(text::occurs_at(name, segments[0], 0));
                    }
                    if text::occurs_at(name, segments[0], 0) {
                        assert(short.subrange(0, n) =~= name.subrange(0, n + 1).drop_first());
                        assert(segments[0].drop_first() =~= tail[0]);
                    }
                }
            } else if in_segments(segments, name) {
                if segments.len() == 1 {
                    assert(name[0] == segments[0][0]);
                } else {
                    assert(name.subrange(0, segments[0].len() as int)[0] == segments[0][0]);
                }
            }
        }
    }
}

/// A character that is no wildcard belongs to the first segment.
proof fn lemma_split_step(pattern: Seq<char>)
    requires
        pattern.len() > 0,
        pattern[0] != '*',
    ensures
        text::split(pattern.drop_first(), '*').len() > 0,
        text::split(pattern, '*') == text::split(pattern.drop_first(), '*').update(
            0,
            seq![pattern[0]] + text::split(pattern.drop_first(), '*')[0],
        ),
{
    let rest = pattern.drop_first();
    let i = text::index_of(rest, '*');
    text::lemma_index_of(rest, '*');
    assert(text::index_of(pattern, '*') == i + 1);
    if i < rest.len() {
        assert(pattern.take(i + 1) =~= seq![pattern[0]] + rest.take(i));
        assert(pattern.skip(i + 2) =~= rest.skip(i + 1));
    } else {
        assert(pattern =~= seq![pattern[0]] + rest);
    }
    assert(text::split(pattern, '*') =~= text::split(rest, '*').update(
        0,
        seq![pattern[0]] + text::split(rest, '*')[0],
    ));
}

/// What segments make up ends with the last of them.
proof fn lemma_segments_end(segments: Seq<Seq<char>>, name: Seq<char>)
    requires
        in_segments(segments, name),
    ensures
        segments.len() > 0,
        segments.last().len() <= name.len(),
        name.skip(name.len() - segments.last().len()) == segments.last(),
    decreases segments.len(),
{
    if segments.len() > 1 {
        let n = segments[0].len() as int;
        let k = lemma_run_end(segments.drop_first(), name.skip(n));
        let rest = name.skip(n).skip(k);
        lemma_segments_end(segments.drop_first(), rest);
        let m = segments.last().len();
        assert(segments.drop_first().last() == segments.last());
        assert(name.skip(name.len() - m) =~= rest.skip(rest.len() - m));
    } else {
        assert(name.skip(0) =~= name);
    }
}

/// The last segment may stand behind any run.
proof fn lemma_last_segment(last: Seq<char>, middle: Seq<char>)
    ensures
        behind_run(seq![last], middle + last),
{
    let name = middle + last;
    assert(name.skip(middle.len() as int) =~= last);
    assert(in_segments(seq![last], name.skip(middle.len() as int)));
    assert(behind_run(seq![last], name.skip(middle.len() as int)));
    lemma_longer_run(seq![last], name, middle.len() as int);
}

/// A segment behind a run and before the last one may be taken where it first
/// stands.
proof fn lemma_first_place(segments: Seq<Seq<char>>, middle: Seq<char>, found: Option<usize>)
    requires
        segments.len() >= 2,
        match found {
            Some(i) => text::occurs_at(middle, segments[0], i as int) && forall|k: int|
                0 <= k < i ==> !text::occurs_at(middle, segments[0], k),
            None => !text::contains(middle, segments[0]),
        },
    ensures
        match found {
            Some(i) => behind_run(segments, middle + segments.last()) == behind_run(
                segments.drop_first(),
                middle.skip(i + segments[0].len()) + segments.last(),
            ),
            None => !behind_run(segments, middle + segments.last()),
        },
{
    let last = segments.last();
    let name = middle + last;
    let s = segments[0];
    let n = s.len() as int;
    let tail = segments.drop_first();
    assert(tail.last() == last);
    if behind_run(segments, name) {
        let k = lemma_run_end(segments, name);
        let here = name.skip(k);
        let j = lemma_run_end(tail, here.skip(n));
        lemma_segments_end(tail, here.skip(n).skip(j));
        assert(middle.subrange(k, k + n) =~= here.subrange(0, n));
        assert(text::occurs_at(middle, s, k));
        assert(found is Some);
        let i = found->Some_0 as int;
        assert(i <= k);
        assert(here.skip(n) =~= name.skip(k + n));
        assert(behind_run(tail, name.skip(k + n)));
        assert(name.skip(k + n) =~= name.skip(i + n).skip(k - i));
        lemma_longer_run(tail, name.skip(i + n), k - i);
        assert(name.skip(i + n) =~= middle.skip(i + n) + last);
    }
    if let Some(at) = found {
        let i = at as int;
        assert(name.skip(i + n) =~= middle.skip(i + n) + last);
        if behind_run(tail, middle.skip(i + n) + last) {
            let here = name.skip(i);
            assert(here.skip(n) =~= name.skip(i + n));
            assert(here.subrange(0, n) =~= middle.subrange(i, i + n));
            assert(in_segments(segments, here));
            assert(behind_run(segments, here));
            lemma_longer_run(segments, name, i);
        }
    }
}

/// Whether a name matches a pattern with at least one wildcard.
pub fn matches(pattern: &[char], name: &[char]) -> (r: bool)
    requires
        pattern@.contains('*'),
    ensures
        r == glob(pattern@, name@),
{
    let segments = text::pieces(pattern, '*');
    let ghost all = text::slices(segments@);
    proof {
        lemma_glob_by_segments(pattern@, name@);
        text::lemma_index_of(pattern@, '*');
        let i = text::index_of(pattern@, '*');
        assert(text::split(pattern@.skip(i + 1), '*').len() > 0) by {
            lemma_glob_by_segments(pattern@.skip(i + 1), name@);
        }
    }
    let first = segments[0];
    let last = segments[segments.len() - 1];
    if name.len() < first.len() || name.len() - first.len() < last.len() || !text::stands_at(
        name,
        first,
        0,
    ) || !text::stands_at(name, last, name.len() - last.len()) {
        proof {
            if in_segments(all, name@) {
                lemma_segments_end(all, name@);
                assert(name@.subrange(name@.len() - last@.len(), name@.len() as int) =~= name@.skip(
                    name@.len() - last@.len(),
                ));
                let k = lemma_run_end(all.drop_first(), name@.skip(first@.len() as int));
                lemma_segments_end(all.drop_first(), name@.skip(first@.len() as int).skip(k));
                assert(all.drop_first().last() == last@);
            }
        }
        return false;
    }
    // Middle segments must appear in order between the anchored ends.
    let mut rest = slice_subrange(name, first.len(), name.len() - last.len());
    let mut j: usize = 1;
    proof {
        let tail = name@.skip(first@.len() as int);
        assert(name@.subrange(name@.len() - last@.len(), name@.len() as int) == last@);
        assert(tail =~= rest@ + last@);
        assert(in_segments(all, name@) == behind_run(all.drop_first(), tail));
        assert(all.skip(1) =~= all.drop_first());
    }
    while j < segments.len() - 1
        invariant
            1 <= j <= segments.len() - 1,
            all == text::slices(segments@),
            last@ == all.last(),
            glob(pattern@, name@) == behind_run(all.skip(j as int), rest@ + last@),
        decreases segments.len() - j,
    {
        let seg = segments[j];
        let found = text::find(rest, seg);
        proof {
            lemma_first_place(all.skip(j as int), rest@, found);
            assert(all.skip(j as int).drop_first() =~= all.skip(j + 1));
        }
        match found {
            Some(i) => {
                let end: usize = rest.len();
                assert(i + seg@.len() <= end);
                rest = slice_subrange(rest, i + seg.len(), end);
            },
            None => {
                return false;
            },
        }
        j += 1;
    }
    proof {
        assert(all.skip(j as int) =~= seq![last@]);
        lemma_last_segment(last@, rest@);
    }
    true
}

/// Any character but '*' stands for itself, at the start of a pattern and at its end,
/// and an empty pattern for nothing.
pub proof fn law_other_characters(c: char, rest: Seq<char>, d: char, name: Seq<char>)
    requires
        c != '*',
    ensures
        glob(seq![], name) <==> name.len() == 0,
        glob(seq![c] + rest, seq![d] + name) <==> c == d && glob(rest, name),
        !glob(seq![c] + rest, seq![]),
{
    assert((seq![c] + rest).drop_first() =~= rest);
    assert((seq![d] + name).drop_first() =~= name);
}

} // verus!
