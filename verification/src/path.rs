//! Paths: their canonical form, a sequence of non-empty segments without `/`.

use vstd::prelude::*;
use vstd::string::StringExecFns;
use crate::text::views;

verus! {

/// Splitting at `/`, one character at a time: `current` is the segment that is being read.
/// Empty segments are dropped.
pub open spec fn split_from(s: Seq<char>, current: Seq<char>) -> Seq<Seq<char>>
    decreases s.len(),
{
    if s.len() == 0 {
        if current.len() == 0 {
            Seq::empty()
        } else {
            seq![current]
        }
    } else if s[0] == '/' {
        if current.len() == 0 {
            split_from(s.drop_first(), Seq::empty())
        } else {
            seq![current] + split_from(s.drop_first(), Seq::empty())
        }
    } else {
        split_from(s.drop_first(), current.push(s[0]))
    }
}

/// The canonical form of a path: its non-empty `/`-delimited segments, in order.
pub open spec fn split_segments(path: Seq<char>) -> Seq<Seq<char>> {
    split_from(path, Seq::empty())
}

/// The segments joined with `/` between them.
pub open spec fn join_segments(segments: Seq<Seq<char>>) -> Seq<char>
    decreases segments.len(),
{
    if segments.len() == 0 {
        Seq::empty()
    } else if segments.len() == 1 {
        segments[0]
    } else {
        join_segments(segments.drop_last()) + seq!['/'] + segments.last()
    }
}

/// A segment of the canonical form: not empty, and without `/`.
pub open spec fn is_segment(text: Seq<char>) -> bool {
    text.len() > 0 && !text.contains('/')
}

/// Every segment that splitting gives is not empty and holds no `/`.
pub proof fn lemma_split_gives_segments(s: Seq<char>, current: Seq<char>)
    requires
        !current.contains('/'),
    ensures
        forall|i: int|
            0 <= i < split_from(s, current).len() ==> is_segment(#[trigger] split_from(s, current)[i]),
    decreases s.len(),
{
    let empty = Seq::<char>::empty();
    let result = split_from(s, current);
    if s.len() == 0 {
        if current.len() > 0 {
            assert(result[0] == current);
        }
    } else if s[0] == '/' {
        let rest = split_from(s.drop_first(), empty);
        lemma_split_gives_segments(s.drop_first(), empty);
        assert forall|i: int| 0 <= i < result.len() implies is_segment(#[trigger] result[i]) by {
            if current.len() > 0 {
                if i > 0 {
                    assert(result[i] == rest[i - 1]);
                }
            }
        }
    } else {
        let next = current.push(s[0]);
        assert(!next.contains('/')) by {
            if next.contains('/') {
                let j = choose|j: int| 0 <= j < next.len() && next[j] == '/';
                assert(current[j] == '/');
            }
        }
        lemma_split_gives_segments(s.drop_first(), next);
        assert(result == split_from(s.drop_first(), next));
    }
}

/// A slash at the end of a text changes nothing, whatever has been read before.
pub proof fn lemma_split_trailing_slash(s: Seq<char>, current: Seq<char>)
    ensures
        split_from(s + seq!['/'], current) == split_from(s, current),
    decreases s.len(),
{
    let longer = s + seq!['/'];
    let empty = Seq::<char>::empty();
    if s.len() == 0 {
        assert(longer.drop_first() == empty);
        assert(split_from(empty, empty) == Seq::<Seq<char>>::empty());
        if current.len() > 0 {
            assert(seq![current] + Seq::<Seq<char>>::empty() == seq![current]);
        }
    } else {
        assert(longer[0] == s[0]);
        assert(longer.drop_first() == s.drop_first() + seq!['/']);
        if s[0] == '/' {
            lemma_split_trailing_slash(s.drop_first(), empty);
        } else {
            lemma_split_trailing_slash(s.drop_first(), current.push(s[0]));
        }
    }
}

/// Slashes around a path collapse: a path, the path after a slash and the path before
/// a slash have the same canonical form.
pub proof fn outer_slashes_collapse(path: Seq<char>)
    ensures
        split_segments(seq!['/'] + path) == split_segments(path),
        split_segments(path + seq!['/']) == split_segments(path),
{
    let longer = seq!['/'] + path;
    assert(longer.drop_first() == path);
    lemma_split_trailing_slash(path, Seq::empty());
}

/// Splitting a text with a slash in it is splitting what stands before the slash and
/// what stands after it.
pub proof fn lemma_split_at_slash(before: Seq<char>, after: Seq<char>, current: Seq<char>)
    ensures
        split_from(before + seq!['/'] + after, current) == split_from(before, current)
            + split_segments(after),
    decreases before.len(),
{
    let whole = before + seq!['/'] + after;
    let empty = Seq::<char>::empty();
    if before.len() == 0 {
        assert(whole[0] == '/');
        assert(whole.drop_first() == after);
        if current.len() > 0 {
        } else {
            assert(Seq::<Seq<char>>::empty() + split_segments(after) == split_segments(after));
        }
    } else {
        assert(whole[0] == before[0]);
        assert(whole.drop_first() == before.drop_first() + seq!['/'] + after);
        if before[0] == '/' {
            lemma_split_at_slash(before.drop_first(), after, empty);
            if current.len() > 0 {
                assert(seq![current] + (split_from(before.drop_first(), empty) + split_segments(
                    after,
                )) == (seq![current] + split_from(before.drop_first(), empty)) + split_segments(
                    after,
                ));
            }
        } else {
            lemma_split_at_slash(before.drop_first(), after, current.push(before[0]));
        }
    }
}

/// A text without a slash is read into the segment that is being read.
pub proof fn lemma_split_run(run: Seq<char>, current: Seq<char>)
    requires
        !run.contains('/'),
        run.len() + current.len() > 0,
    ensures
        split_from(run, current) == seq![current + run],
    decreases run.len(),
{
    if run.len() == 0 {
        assert(current + run == current);
    } else {
        assert(run[0] != '/') by {
            assert(run.contains(run[0]));
        }
        let rest = run.drop_first();
        assert(!rest.contains('/')) by {
            if rest.contains('/') {
                let j = choose|j: int| 0 <= j < rest.len() && rest[j] == '/';
                assert(run[j + 1] == '/');
            }
        }
        lemma_split_run(rest, current.push(run[0]));
        assert(current.push(run[0]) + rest == current + run);
    }
}

/// Splitting undoes joining: segments that are joined with `/` and split again are
/// the same segments. So what a wildcard captures splits back into the segments that
/// it was made of.
pub proof fn split_undoes_join(segments: Seq<Seq<char>>)
    requires
        forall|i: int| 0 <= i < segments.len() ==> is_segment(#[trigger] segments[i]),
    ensures
        split_segments(join_segments(segments)) == segments,
    decreases segments.len(),
{
    let empty = Seq::<char>::empty();
    if segments.len() == 0 {
    } else if segments.len() == 1 {
        lemma_split_run(segments[0], empty);
        assert(empty + segments[0] == segments[0]);
    } else {
        let before = segments.drop_last();
        let last = segments.last();
        assert forall|i: int| 0 <= i < before.len() implies is_segment(#[trigger] before[i]) by {
            assert(before[i] == segments[i]);
        }
        split_undoes_join(before);
        lemma_split_at_slash(join_segments(before), last, empty);
        lemma_split_run(last, empty);
        assert(empty + last == last);
        assert(before + seq![last] == segments);
    }
}

/// The non-empty `/`-delimited segments of `path`, in order.
pub fn split_path(path: &str) -> (segments: Vec<String>)
    ensures
        views(segments@) == split_segments(path@),
        forall|i: int| 0 <= i < segments@.len() ==> is_segment(#[trigger] segments@[i]@),
{
    proof {
        lemma_split_gives_segments(path@, Seq::empty());
    }
    let mut segments: Vec<String> = Vec::new();
    let mut current = String::new();
    assert(path@.skip(0) == path@);
    assert(views(segments@) + split_segments(path@) == split_segments(path@));
    for c in it: path.chars()
        invariant
            it.seq() == path@,
            views(segments@) + split_from(path@.skip(it.index() as int), current@)
                == split_segments(path@),
    {
        let ghost rest = path@.skip(it.index() as int);
        let ghost before = views(segments@);
        let ghost read = current@;
        assert(rest.len() > 0 && rest[0] == c);
        assert(rest.drop_first() == path@.skip(it.index() + 1));
        if c == '/' {
            if !current.as_str().is_empty() {
                let ghost tail = split_from(rest.drop_first(), Seq::empty());
                assert(split_from(rest, read) == seq![read] + tail);
                segments.push(current);
                assert(views(segments@) == before.push(read));
                assert(before.push(read) + tail == before + (seq![read] + tail));
                current = String::new();
            } else {
                assert(split_from(rest, read) == split_from(rest.drop_first(), Seq::empty()));
                assert(read == Seq::<char>::empty());
            }
        } else {
            current.push(c);
            assert(split_from(rest, read) == split_from(rest.drop_first(), read.push(c)));
        }
    }
    assert(path@.skip(path@.len() as int) == Seq::<char>::empty());
    if !current.as_str().is_empty() {
        let ghost before = views(segments@);
        segments.push(current);
        assert(views(segments@) == before.push(current@));
        assert(before.push(current@) == before + seq![current@]);
    } else {
        assert(views(segments@) + Seq::<Seq<char>>::empty() == views(segments@));
    }
    assert forall|i: int| 0 <= i < segments@.len() implies is_segment(
        #[trigger] segments@[i]@,
    ) by {
        assert(views(segments@)[i] == segments@[i]@);
    }
    segments
}

/// The segments from index `from` on, joined with `/`.
pub fn join_from(segments: &Vec<String>, from: usize) -> (joined: String)
    requires
        from <= segments.len(),
    ensures
        joined@ == join_segments(views(segments@).skip(from as int)),
{
    let ghost all = views(segments@);
    let mut joined = String::new();
    let mut i: usize = from;
    assert(all.subrange(from as int, from as int) == Seq::<Seq<char>>::empty());
    while i < segments.len()
        invariant
            from <= i <= segments.len(),
            all == views(segments@),
            joined@ == join_segments(all.subrange(from as int, i as int)),
        decreases segments.len() - i,
    {
        let ghost done = all.subrange(from as int, i as int);
        let ghost next = all.subrange(from as int, i + 1);
        assert(next.drop_last() == done);
        assert(next.last() == segments@[i as int]@);
        if i > from {
            joined.push('/');
            assert(done.len() > 0);
            assert(join_segments(next) == join_segments(done) + seq!['/'] + next.last());
            assert(join_segments(done).push('/') == join_segments(done) + seq!['/']);
        } else {
            assert(join_segments(done) == Seq::<char>::empty());
            assert(join_segments(next) == next[0]);
            assert(Seq::<char>::empty() + next[0] == next[0]);
        }
        joined.append(segments[i].as_str());
        i += 1;
    }
    assert(all.subrange(from as int, segments.len() as int) == all.skip(from as int));
    joined
}

} // verus!
