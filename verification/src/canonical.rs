//! Segment sequences in the shape that the tokenizer gives: the shape from
//! which a document's text determines its segments.

use vstd::prelude::*;
use crate::merge::{
    can_splice, first_splice_from, lemma_first_splice_from, lemma_merge_idempotent, merged,
    splice,
};
use crate::segment::{
    balanced, lemma_next_index_bounds, lemma_segment_end_bounds, lemma_serialized_concat,
    nesting_step, next_index, open_elements, segment_at, segment_end, serialized, tag_closed,
    tag_of, tags_closed, tokens, tokens_from, well_formed, SegmentSpec,
};

verus! {

/// A tag text from `<` to the first `>` with no second `<`.
pub open spec fn canonical_tag(raw: Seq<char>) -> bool {
    &&& tag_closed(raw)
    &&& raw[0] == '<'
    &&& forall|k: int| 0 <= k < raw.len() - 1 ==> raw[k] != '>'
}

/// A tag that is classified by its text, or a literal that is not empty and
/// holds no `<`.
pub open spec fn canonical_segment(seg: SegmentSpec) -> bool {
    match seg {
        SegmentSpec::Tag { raw, .. } => canonical_tag(raw) && seg == tag_of(raw),
        SegmentSpec::Literal { text } => text.len() > 0 && forall|k: int|
            0 <= k < text.len() ==> text[k] != '<',
    }
}

/// Every segment is canonical and no literal follows a literal.
pub open spec fn canonical(segs: Seq<SegmentSpec>) -> bool {
    &&& forall|j: int| 0 <= j < segs.len() ==> canonical_segment(#[trigger] segs[j])
    &&& forall|j: int|
        0 <= j < segs.len() - 1 ==> !(#[trigger] segs[j] is Literal && segs[j + 1] is Literal)
}

/// Joining the segments after the first to the first gives the whole.
pub proof fn lemma_serialized_front(segs: Seq<SegmentSpec>)
    requires
        segs.len() > 0,
    ensures
        serialized(segs) == segs[0].raw_text() + serialized(segs.drop_first()),
{
    let first = seq![segs[0]];
    assert(first + segs.drop_first() =~= segs);
    lemma_serialized_concat(first, segs.drop_first());
    assert(first.drop_last() =~= Seq::<SegmentSpec>::empty());
    assert(serialized(first.drop_last()) =~= Seq::<char>::empty());
    assert(serialized(first) =~= segs[0].raw_text());
}

/// Where no position from `i` up to `k` holds `c` and `k` does or is the
/// end, `k` is the next position that holds `c`.
pub proof fn lemma_next_index_is(s: Seq<char>, c: char, i: int, k: int)
    requires
        0 <= i <= k <= s.len(),
        forall|j: int| i <= j < k ==> s[j] != c,
        k < s.len() ==> s[k] == c,
    ensures
        next_index(s, c, i) == k,
    decreases k - i,
{
    if i < k {
        lemma_next_index_is(s, c, i + 1, k);
    }
}

/// Text put in front moves the next position that holds `c` by its length.
pub proof fn lemma_next_index_shift(a: Seq<char>, b: Seq<char>, c: char, i: int)
    requires
        0 <= i <= b.len(),
    ensures
        next_index(a + b, c, a.len() + i) == a.len() + next_index(b, c, i),
    decreases b.len() - i,
{
    let s = a + b;
    if i < b.len() {
        assert(s[a.len() + i] == b[i]);
        if b[i] != c {
            lemma_next_index_shift(a, b, c, i + 1);
        }
    }
}

/// Text put in front moves the segments by its length and leaves them as
/// they are.
pub proof fn lemma_tokens_shift(a: Seq<char>, b: Seq<char>, i: int)
    requires
        0 <= i <= b.len(),
    ensures
        tokens_from(a + b, a.len() + i) == tokens_from(b, i),
    decreases b.len() - i,
{
    let s = a + b;
    let n = a.len() as int;
    if i < b.len() {
        assert(s[n + i] == b[i]);
        lemma_next_index_shift(a, b, '>', i + 1);
        lemma_next_index_shift(a, b, '<', i + 1);
        lemma_segment_end_bounds(b, i);
        let e = segment_end(b, i);
        assert(segment_end(s, n + i) == n + e);
        assert(s.subrange(n + i, n + e) =~= b.subrange(i, e));
        assert(segment_at(s, n + i, n + e) == segment_at(b, i, e));
        lemma_tokens_shift(a, b, e);
    }
}

/// The segments of a text whose tags are closed are canonical.
pub proof fn lemma_tokens_canonical(s: Seq<char>, i: int)
    requires
        0 <= i <= s.len(),
        tags_closed(tokens_from(s, i)),
    ensures
        canonical(tokens_from(s, i)),
        i < s.len() ==> tokens_from(s, i).len() > 0 && (tokens_from(s, i)[0] is Tag <==> s[i]
            == '<'),
    decreases s.len() - i,
{
    if i < s.len() {
        lemma_segment_end_bounds(s, i);
        lemma_next_index_bounds(s, '>', i + 1);
        lemma_next_index_bounds(s, '<', i + 1);
        let e = segment_end(s, i);
        let seg = segment_at(s, i, e);
        let rest = tokens_from(s, e);
        let all = tokens_from(s, i);
        assert(all =~= seq![seg] + rest);
        assert(all[0] == seg);
        assert forall|j: int| 0 <= j < rest.len() implies (#[trigger] rest[j] matches SegmentSpec::Tag {
            raw,
            ..
        } ==> tag_closed(raw)) by {
            assert(all[j + 1] == rest[j]);
        }
        lemma_tokens_canonical(s, e);
        let raw = s.subrange(i, e);
        assert(canonical_segment(seg)) by {
            if s[i] == '<' {
                assert(tag_closed(raw));
                let k = next_index(s, '>', i + 1);
                if k >= s.len() {
                    assert(raw.last() == s[s.len() - 1]);
                    assert(false);
                }
                assert forall|m: int| 0 <= m < raw.len() - 1 implies raw[m] != '>' by {
                    assert(raw[m] == s[i + m]);
                }
            } else {
                assert forall|m: int| 0 <= m < raw.len() implies raw[m] != '<' by {
                    assert(raw[m] == s[i + m]);
                }
            }
        }
        assert forall|j: int| 0 <= j < all.len() implies canonical_segment(#[trigger] all[j]) by {
            if j > 0 {
                assert(all[j] == rest[j - 1]);
            }
        }
        assert forall|j: int| 0 <= j < all.len() - 1 implies !(#[trigger] all[j] is Literal
            && all[j + 1] is Literal) by {
            if j > 0 {
                assert(all[j] == rest[j - 1]);
                assert(all[j + 1] == rest[j]);
            } else {
                assert(all[1] == rest[0]);
                if seg is Literal {
                    assert(e < s.len());
                    assert(s[e] == '<');
                }
            }
        }
    }
}

/// Canonical segments are the segments of their joined text.
pub proof fn lemma_canonical_round_trip(segs: Seq<SegmentSpec>)
    requires
        canonical(segs),
    ensures
        tokens(serialized(segs)) == segs,
    decreases segs.len(),
{
    if segs.len() == 0 {
        assert(tokens(serialized(segs)) =~= segs);
    } else {
        let first = segs[0];
        let rest = segs.drop_first();
        let head = first.raw_text();
        let tail = serialized(rest);
        let s = head + tail;
        lemma_serialized_front(segs);
        assert(canonical_segment(first));
        assert forall|j: int| 0 <= j < rest.len() implies canonical_segment(#[trigger] rest[j]) by {
            assert(rest[j] == segs[j + 1]);
        }
        assert forall|j: int| 0 <= j < rest.len() - 1 implies !(#[trigger] rest[j] is Literal
            && rest[j + 1] is Literal) by {
            assert(rest[j] == segs[j + 1]);
            assert(rest[j + 1] == segs[j + 2]);
        }
        lemma_canonical_round_trip(rest);
        lemma_tokens_shift(head, tail, 0);
        assert forall|m: int| 0 <= m < head.len() implies s[m] == head[m] by {}
        let n = head.len() as int;
        if first is Tag {
            lemma_next_index_is(s, '>', 1, n - 1);
            assert(segment_end(s, 0) == n);
        } else {
            if rest.len() > 0 {
                lemma_serialized_front(rest);
                assert(segs[1] == rest[0]);
                assert(canonical_segment(rest[0]));
                assert(rest[0] is Tag);
                assert(tail[0] == rest[0].raw_text()[0]);
                assert(s[n] == tail[0]);
                assert(s[n] == '<');
            } else {
                assert(tail =~= Seq::<char>::empty());
            }
            lemma_next_index_is(s, '<', 1, n);
            assert(segment_end(s, 0) == n);
        }
        assert(s.subrange(0, n) =~= head);
        assert(segment_at(s, 0, n) == first);
        assert(tokens_from(s, 0) =~= seq![first] + tokens_from(s, n));
        assert(seq![first] + rest =~= segs);
    }
}

/// Closing a splice point keeps the segments canonical.
pub proof fn lemma_splice_canonical(segs: Seq<SegmentSpec>, j: int)
    requires
        canonical(segs),
        can_splice(segs, j),
    ensures
        canonical(splice(segs, j)),
{
    let out = splice(segs, j);
    let a = segs[j - 1].raw_text();
    let b = segs[j + 2].raw_text();
    assert(canonical_segment(segs[j - 1]));
    assert(canonical_segment(segs[j + 2]));
    assert forall|m: int| 0 <= m < out.len() implies canonical_segment(#[trigger] out[m]) by {
        if m < j - 1 {
            assert(out[m] == segs[m]);
        } else if m == j - 1 {
            assert(out[m] == (SegmentSpec::Literal { text: a + b }));
            assert forall|k: int| 0 <= k < (a + b).len() implies (a + b)[k] != '<' by {
                if k < a.len() {
                    assert((a + b)[k] == a[k]);
                } else {
                    assert((a + b)[k] == b[k - a.len()]);
                }
            }
        } else {
            assert(out[m] == segs[m + 3]);
        }
    }
    assert forall|m: int| 0 <= m < out.len() - 1 implies !(#[trigger] out[m] is Literal && out[m
        + 1] is Literal) by {
        if m < j - 2 {
            assert(out[m] == segs[m]);
            assert(out[m + 1] == segs[m + 1]);
        } else if m == j - 2 {
            assert(out[m] == segs[m]);
            assert(!(segs[j - 2] is Literal && segs[j - 1] is Literal));
        } else if m == j - 1 {
            assert(out[m + 1] == segs[j + 3]);
            assert(!(segs[j + 2] is Literal && segs[j + 3] is Literal));
        } else {
            assert(out[m] == segs[m + 3]);
            assert(out[m + 1] == segs[m + 4]);
        }
    }
}

/// The span-merge engine keeps canonical segments canonical.
pub proof fn lemma_merged_canonical(segs: Seq<SegmentSpec>)
    requires
        canonical(segs),
    ensures
        canonical(merged(segs)),
    decreases segs.len(),
{
    lemma_first_splice_from(segs, 0);
    let j = first_splice_from(segs, 0);
    if 1 <= j && j + 2 < segs.len() {
        lemma_splice_canonical(segs, j);
        lemma_merged_canonical(splice(segs, j));
    }
}

/// The elements left open after more segments, starting from `open`.
pub open spec fn open_after_segments(open: Option<Seq<Seq<char>>>, segs: Seq<SegmentSpec>) -> Option<
    Seq<Seq<char>>,
>
    decreases segs.len(),
{
    if segs.len() == 0 {
        open
    } else {
        match open_after_segments(open, segs.drop_last()) {
            None => None,
            Some(names) => nesting_step(names, segs.last()),
        }
    }
}

/// The elements left open after two runs of segments are those left open
/// after the second, starting from those left open after the first.
pub proof fn lemma_open_elements_concat(a: Seq<SegmentSpec>, b: Seq<SegmentSpec>)
    ensures
        open_elements(a + b) == open_after_segments(open_elements(a), b),
    decreases b.len(),
{
    if b.len() == 0 {
        assert(a + b =~= a);
    } else {
        assert((a + b).drop_last() =~= a + b.drop_last());
        assert((a + b).last() == b.last());
        lemma_open_elements_concat(a, b.drop_last());
    }
}

/// Once a closing tag has failed to match, no later segment mends it.
pub proof fn lemma_open_after_none(segs: Seq<SegmentSpec>)
    ensures
        open_after_segments(None, segs) is None,
    decreases segs.len(),
{
    if segs.len() > 0 {
        lemma_open_after_none(segs.drop_last());
    }
}

/// Closing a splice point of canonical segments leaves the same elements
/// open, where the segments nest at all.
pub proof fn lemma_splice_open_elements(segs: Seq<SegmentSpec>, j: int)
    requires
        canonical(segs),
        can_splice(segs, j),
        open_elements(segs) is Some,
    ensures
        open_elements(splice(segs, j)) == open_elements(segs),
{
    let n = segs.len() as int;
    let post = segs.subrange(j + 3, n);
    let head = segs.subrange(0, j + 3);
    let joined = SegmentSpec::Literal { text: segs[j - 1].raw_text() + segs[j + 2].raw_text() };
    let short = segs.subrange(0, j - 1).push(joined);
    assert(head + post =~= segs);
    assert(short + post =~= splice(segs, j));
    lemma_open_elements_concat(head, post);
    lemma_open_elements_concat(short, post);
    if open_elements(head) is None {
        lemma_open_after_none(post);
    }
    let h3 = segs.subrange(0, j + 2);
    let h2 = segs.subrange(0, j + 1);
    let h1 = segs.subrange(0, j);
    let h0 = segs.subrange(0, j - 1);
    assert(head.drop_last() =~= h3 && head.last() == segs[j + 2]);
    assert(h3.drop_last() =~= h2 && h3.last() == segs[j + 1]);
    assert(h2.drop_last() =~= h1 && h2.last() == segs[j]);
    assert(h1.drop_last() =~= h0 && h1.last() == segs[j - 1]);
    assert(short.drop_last() =~= h0 && short.last() == joined);
    assert(open_elements(head) is Some);
    assert(open_elements(h3) is Some);
    assert(open_elements(h2) is Some);
    assert(open_elements(h1) is Some);
    let before = open_elements(h0);
    assert(before is Some);
    let names = before->0;
    let name = segs[j]->name;
    assert(canonical_segment(segs[j]));
    assert(open_elements(h1) == Some(names));
    assert(open_elements(h2) == nesting_step(names, segs[j]));
    assert(names.len() > 0 && names.last() == name);
    assert(open_elements(h2) == Some(names.drop_last()));
    assert(open_elements(h3) == Some(names.drop_last().push(name)));
    assert(names.drop_last().push(name) =~= names);
    assert(open_elements(head) == Some(names));
    assert(open_elements(short) == Some(names));
}

/// The span-merge engine keeps balanced canonical segments balanced.
pub proof fn lemma_merged_balanced(segs: Seq<SegmentSpec>)
    requires
        canonical(segs),
        balanced(segs),
    ensures
        balanced(merged(segs)),
    decreases segs.len(),
{
    lemma_first_splice_from(segs, 0);
    let j = first_splice_from(segs, 0);
    if 1 <= j && j + 2 < segs.len() {
        lemma_splice_open_elements(segs, j);
        lemma_splice_canonical(segs, j);
        lemma_merged_balanced(splice(segs, j));
    }
}

/// What the span-merge engine makes of well-formed markup is well-formed
/// markup on which the engine changes nothing more: rejoining split
/// expressions twice gives what rejoining them once gives.
pub proof fn lemma_merged_markup_is_settled(xml: Seq<char>)
    requires
        well_formed(xml),
    ensures
        well_formed(serialized(merged(tokens(xml)))),
        tokens(serialized(merged(tokens(xml)))) == merged(tokens(xml)),
        serialized(merged(tokens(serialized(merged(tokens(xml)))))) == serialized(
            merged(tokens(xml)),
        ),
{
    let segs = tokens(xml);
    let out = merged(segs);
    lemma_tokens_canonical(xml, 0);
    lemma_merged_canonical(segs);
    lemma_canonical_round_trip(out);
    lemma_merged_balanced(segs);
    lemma_merge_idempotent(segs);
    assert forall|j: int| 0 <= j < out.len() implies (#[trigger] out[j] matches SegmentSpec::Tag {
        raw,
        ..
    } ==> tag_closed(raw)) by {
        assert(canonical_segment(out[j]));
    }
}

} // verus!
