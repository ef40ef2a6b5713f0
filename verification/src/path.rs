//! Paths as sequences of `/`-separated segments.
//!
//! A path is split at every `/`, so `/a/b` has the three segments ``, `a`
//! and `b`, and joining the segments with `/` gives the path back.

use vstd::prelude::*;
use crate::bytes::{append_bytes, copy_range};

verus! {

/// The byte that separates two segments.
pub const SLASH: u8 = 47;

/// A byte string without a separator in it.
pub open spec fn slash_free(s: Seq<u8>) -> bool {
    forall|i: int| 0 <= i < s.len() ==> s[i] != SLASH
}

/// Index of the first separator in `s`, or `s.len()` where it has none.
pub open spec fn first_slash(s: Seq<u8>) -> int
    decreases s.len(),
{
    if s.len() == 0 || s[0] == SLASH {
        0
    } else {
        1 + first_slash(s.skip(1))
    }
}

/// The segments of `s`: the pieces between its separators, in order.
pub open spec fn split(s: Seq<u8>) -> Seq<Seq<u8>>
    decreases s.len(),
    via split_decreases
{
    let k = first_slash(s);
    if k >= s.len() {
        seq![s]
    } else {
        seq![s.take(k)] + split(s.skip(k + 1))
    }
}

#[via_fn]
proof fn split_decreases(s: Seq<u8>) {
    lemma_first_slash_bounds(s);
}

/// The segments put together again, with one separator between neighbours.
pub open spec fn join(segments: Seq<Seq<u8>>) -> Seq<u8>
    decreases segments.len(),
{
    if segments.len() == 0 {
        Seq::empty()
    } else if segments.len() == 1 {
        segments[0]
    } else {
        segments[0] + seq![SLASH] + join(segments.skip(1))
    }
}

/// `first_slash` stays inside the string, passes over no separator and
/// stops on one unless it reaches the end.
pub proof fn lemma_first_slash_bounds(s: Seq<u8>)
    ensures
        0 <= first_slash(s) <= s.len(),
        slash_free(s.take(first_slash(s))),
        first_slash(s) < s.len() ==> s[first_slash(s)] == SLASH,
    decreases s.len(),
{
    if s.len() == 0 || s[0] == SLASH {
    } else {
        let t = s.skip(1);
        lemma_first_slash_bounds(t);
        let k = first_slash(t);
        let head = s.take(k + 1);
        assert forall|i: int| 0 <= i < head.len() implies head[i] != SLASH by {
            if i > 0 {
                assert(t.take(k)[i - 1] == s[i]);
            }
        }
    }
}

/// A position that has no separator before it and is the end of the string
/// or a separator is the one that `first_slash` finds.
pub proof fn lemma_first_slash_is(s: Seq<u8>, k: int)
    requires
        0 <= k <= s.len(),
        slash_free(s.take(k)),
        k < s.len() ==> s[k] == SLASH,
    ensures
        first_slash(s) == k,
    decreases k,
{
    if k == 0 {
    } else {
        assert(s.take(k)[0] == s[0]);
        let t = s.skip(1);
        let head = t.take(k - 1);
        assert forall|i: int| 0 <= i < head.len() implies head[i] != SLASH by {
            assert(s.take(k)[i + 1] == t[i]);
        }
        lemma_first_slash_is(t, k - 1);
    }
}

/// A path always has at least one segment, and no segment holds a separator.
pub proof fn lemma_split_segments(s: Seq<u8>)
    ensures
        split(s).len() >= 1,
        forall|i: int| 0 <= i < split(s).len() ==> slash_free(#[trigger] split(s)[i]),
    decreases s.len(),
{
    lemma_first_slash_bounds(s);
    let k = first_slash(s);
    if k >= s.len() {
        assert(s.take(k) =~= s);
    } else {
        let rest = split(s.skip(k + 1));
        lemma_split_segments(s.skip(k + 1));
        assert forall|i: int| 0 <= i < split(s).len() implies slash_free(
            #[trigger] split(s)[i],
        ) by {
            if i > 0 {
                assert(split(s)[i] == rest[i - 1]);
            }
        }
    }
}

/// Joining the segments of a path gives the path back.
pub proof fn lemma_join_split(s: Seq<u8>)
    ensures
        join(split(s)) == s,
    decreases s.len(),
{
    lemma_first_slash_bounds(s);
    let k = first_slash(s);
    if k >= s.len() {
    } else {
        let rest = split(s.skip(k + 1));
        lemma_split_segments(s.skip(k + 1));
        lemma_join_split(s.skip(k + 1));
        assert(split(s).skip(1) =~= rest);
        assert(join(split(s)) == s.take(k) + seq![SLASH] + s.skip(k + 1));
        assert(s.take(k) + seq![SLASH] + s.skip(k + 1) =~= s);
    }
}

/// Splitting what was joined from separator-free segments gives the
/// segments back.
pub proof fn lemma_split_join(segments: Seq<Seq<u8>>)
    requires
        segments.len() >= 1,
        forall|i: int| 0 <= i < segments.len() ==> slash_free(#[trigger] segments[i]),
    ensures
        split(join(segments)) == segments,
    decreases segments.len(),
{
    let head = segments[0];
    let whole = join(segments);
    if segments.len() == 1 {
        assert(whole.take(head.len() as int) =~= head);
        lemma_first_slash_is(whole, head.len() as int);
        assert(split(whole) =~= segments);
    } else {
        let tail = segments.skip(1);
        assert forall|i: int| 0 <= i < tail.len() implies slash_free(#[trigger] tail[i]) by {
            assert(tail[i] == segments[i + 1]);
        }
        lemma_split_join(tail);
        let k = head.len() as int;
        assert(whole.take(k) =~= head);
        assert(whole[k] == SLASH);
        lemma_first_slash_is(whole, k);
        assert(whole.skip(k + 1) =~= join(tail));
        assert(split(whole) =~= segments);
    }
}

/// Joining with one more segment at the end adds a separator and the segment.
pub proof fn lemma_join_push(segments: Seq<Seq<u8>>, last: Seq<u8>)
    requires
        segments.len() >= 1,
    ensures
        join(segments.push(last)) == join(segments) + seq![SLASH] + last,
    decreases segments.len(),
{
    let all = segments.push(last);
    if segments.len() == 1 {
        assert(all.skip(1) =~= seq![last]);
        assert(join(all.skip(1)) == last);
    } else {
        lemma_join_push(segments.skip(1), last);
        assert(all.skip(1) =~= segments.skip(1).push(last));
        assert(join(all) =~= join(segments) + seq![SLASH] + last);
    }
}

/// The byte strings that a vector of segments holds.
pub open spec fn segments_view(v: Seq<Vec<u8>>) -> Seq<Seq<u8>> {
    Seq::new(v.len(), |i: int| v[i]@)
}

/// One more segment at the end of the vector is one more byte string at the
/// end of what it holds.
pub proof fn lemma_segments_view_push(before: Seq<Vec<u8>>, after: Seq<Vec<u8>>, x: Vec<u8>)
    requires
        after == before.push(x),
    ensures
        segments_view(after) == segments_view(before).push(x@),
{
    assert(segments_view(after) =~= segments_view(before).push(x@));
}

/// Splits `path` at every separator.
pub fn split_path(path: &[u8]) -> (out: Vec<Vec<u8>>)
    ensures
        segments_view(out@) == split(path@),
{
    let mut out: Vec<Vec<u8>> = Vec::new();
    let mut start: usize = 0;
    proof {
        assert(path@.skip(0) =~= path@);
        assert(segments_view(out@) + split(path@) =~= split(path@));
    }
    loop
        invariant
            start <= path.len(),
            split(path@) == segments_view(out@) + split(path@.skip(start as int)),
        decreases path.len() - start,
    {
        let mut end: usize = start;
        while end < path.len() && path[end] != SLASH
            invariant
                start <= end <= path.len(),
                forall|i: int| start <= i < end ==> path@[i] != SLASH,
            decreases path.len() - end,
        {
            end += 1;
        }
        let ghost rest = path@.skip(start as int);
        let ghost k = end - start;
        proof {
            let head = rest.take(k);
            assert forall|i: int| 0 <= i < head.len() implies head[i] != SLASH by {
                assert(head[i] == path@[start + i]);
            }
            lemma_first_slash_is(rest, k);
            assert(rest.take(k) =~= path@.subrange(start as int, end as int));
        }
        let segment = copy_range(path, start, end);
        let ghost before = out@;
        out.push(segment);
        proof {
            lemma_segments_view_push(before, out@, segment);
        }
        if end == path.len() {
            proof {
                assert(rest.take(k) =~= rest);
                assert(split(rest) =~= seq![rest]);
                assert(segments_view(out@) =~= segments_view(before) + split(rest));
            }
            return out;
        }
        proof {
            assert(rest.skip(k + 1) =~= path@.skip(end + 1));
            assert(segments_view(out@) + split(path@.skip(end + 1)) =~= segments_view(before)
                + split(rest));
        }
        start = end + 1;
    }
}

/// Joins `segments` with one separator between neighbours.
pub fn join_segments(segments: &Vec<Vec<u8>>) -> (out: Vec<u8>)
    ensures
        out@ == join(segments_view(segments@)),
{
    let mut out: Vec<u8> = Vec::new();
    let ghost all = segments_view(segments@);
    let mut i: usize = 0;
    while i < segments.len()
        invariant
            i <= segments.len(),
            all == segments_view(segments@),
            out@ == join(all.take(i as int)),
        decreases segments.len() - i,
    {
        if i > 0 {
            out.push(SLASH);
        }
        append_bytes(&mut out, segments[i].as_slice());
        proof {
            let done = all.take(i as int);
            assert(all.take(i + 1) =~= done.push(all[i as int]));
            if i > 0 {
                lemma_join_push(done, all[i as int]);
            } else {
                assert(out@ =~= all[0]);
            }
        }
        i += 1;
    }
    assert(all.take(segments.len() as int) =~= all);
    out
}

} // verus!
