//! The span-merge engine: template expressions that the document's run
//! boundaries have cut into several literal segments are joined again.
//!
//! A splice point is a closing tag directly followed by an opening tag of the
//! same element, with a literal on either side, reached while a `{{` that a
//! literal holds is still unmatched. Splicing joins the two literals and
//! drops the two tags. The engine splices until no splice point is left. A
//! brace that stands alone opens nothing.

use vstd::prelude::*;
use vstd::string::*;
use crate::segment::{Segment, SegmentSpec, views};
use crate::strategy::EXPRESSION_MARKER;
use crate::text::{has_at, occurs_in, to_chars};

verus! {

/// The number of unmatched `{{` after the text from position `i` on,
/// starting from `open`. The text is read from left to right: `{{` opens
/// an expression, `}}` closes one where one is open, and a brace belongs to
/// one pair at most. A brace that stands alone counts for nothing.
pub open spec fn open_from(open: nat, text: Seq<char>, i: int) -> nat
    decreases text.len() - i,
{
    if i < 0 || i + 1 >= text.len() {
        open
    } else if text[i] == '{' && text[i + 1] == '{' {
        open_from(open + 1, text, i + 2)
    } else if text[i] == '}' && text[i + 1] == '}' {
        open_from(
            if open > 0 {
                (open - 1) as nat
            } else {
                open
            },
            text,
            i + 2,
        )
    } else {
        open_from(open, text, i + 1)
    }
}

/// The number of unmatched `{{` after `text`, starting from `open`.
pub open spec fn open_after(open: nat, text: Seq<char>) -> nat {
    open_from(open, text, 0)
}

/// The number of unmatched `{{` after the literals among the first `j`
/// segments, each read by itself, in order; tags do not count.
pub open spec fn brace_depth(segs: Seq<SegmentSpec>, j: int) -> nat
    decreases j,
{
    if j <= 0 {
        0
    } else {
        let before = brace_depth(segs, j - 1);
        match segs[j - 1] {
            SegmentSpec::Literal { text } => open_after(before, text),
            SegmentSpec::Tag { .. } => before,
        }
    }
}

/// A literal, the closing tag of an element, an opening tag of the same
/// element, and a literal.
pub open spec fn splice_pattern(
    before: SegmentSpec,
    close: SegmentSpec,
    open: SegmentSpec,
    after: SegmentSpec,
) -> bool {
    &&& before is Literal
    &&& close matches SegmentSpec::Tag { is_end, name, .. }
    &&& is_end
    &&& open.opens(name)
    &&& after is Literal
}

/// Position `j` holds the closing tag of a splice point: the tags of a
/// splice pattern, reached while an expression is open.
pub open spec fn can_splice(segs: Seq<SegmentSpec>, j: int) -> bool {
    &&& 1 <= j
    &&& j + 2 < segs.len()
    &&& splice_pattern(segs[j - 1], segs[j], segs[j + 1], segs[j + 2])
    &&& brace_depth(segs, j) != 0
}

/// The first splice point at or after `j`; the number of segments where
/// there is none.
pub open spec fn first_splice_from(segs: Seq<SegmentSpec>, j: int) -> int
    decreases segs.len() - j,
{
    if j >= segs.len() {
        segs.len() as int
    } else if can_splice(segs, j) {
        j
    } else {
        first_splice_from(segs, j + 1)
    }
}

/// The segments with the splice point at `j` closed: the literals on either
/// side become one, the two tags between them are gone.
pub open spec fn splice(segs: Seq<SegmentSpec>, j: int) -> Seq<SegmentSpec> {
    segs.subrange(0, j - 1).push(
        SegmentSpec::Literal { text: segs[j - 1].raw_text() + segs[j + 2].raw_text() },
    ) + segs.subrange(j + 3, segs.len() as int)
}

/// The segments after every splice point has been closed, first one first.
pub open spec fn merged(segs: Seq<SegmentSpec>) -> Seq<SegmentSpec>
    decreases segs.len(),
{
    let j = first_splice_from(segs, 0);
    if 1 <= j && j + 2 < segs.len() {
        merged(splice(segs, j))
    } else {
        segs
    }
}

/// No position holds a splice point.
pub open spec fn settled(segs: Seq<SegmentSpec>) -> bool {
    forall|j: int| 0 <= j < segs.len() ==> !can_splice(segs, j)
}

/// The brace depth at `j` depends on the first `j` segments only.
pub proof fn lemma_brace_depth_prefix(a: Seq<SegmentSpec>, b: Seq<SegmentSpec>, j: int)
    requires
        0 <= j <= a.len(),
        j <= b.len(),
        forall|k: int| 0 <= k < j ==> a[k] == b[k],
    ensures
        brace_depth(a, j) == brace_depth(b, j),
    decreases j,
{
    if j > 0 {
        lemma_brace_depth_prefix(a, b, j - 1);
    }
}

/// The position that [`first_splice_from`] gives is a splice point where it
/// is not the end, and no position from `j` up to it is one.
pub proof fn lemma_first_splice_from(segs: Seq<SegmentSpec>, j: int)
    requires
        0 <= j <= segs.len(),
    ensures
        j <= first_splice_from(segs, j) <= segs.len(),
        first_splice_from(segs, j) < segs.len() ==> can_splice(segs, first_splice_from(segs, j)),
        forall|k: int| j <= k < first_splice_from(segs, j) ==> !can_splice(segs, k),
    decreases segs.len() - j,
{
    if j < segs.len() && !can_splice(segs, j) {
        lemma_first_splice_from(segs, j + 1);
    }
}

/// Where nothing before `k` is a splice point and `k` is one, or is the end,
/// `k` is the first splice point.
pub proof fn lemma_first_splice_is(segs: Seq<SegmentSpec>, k: int)
    requires
        0 <= k <= segs.len(),
        forall|j: int| 0 <= j < k ==> !can_splice(segs, j),
        k < segs.len() ==> can_splice(segs, k),
    ensures
        first_splice_from(segs, 0) == k,
{
    lemma_first_splice_from(segs, 0);
}

/// Settled segments are left as they are.
pub proof fn lemma_merged_of_settled(segs: Seq<SegmentSpec>)
    requires
        settled(segs),
    ensures
        merged(segs) == segs,
{
    lemma_first_splice_is(segs, segs.len() as int);
}

/// What the engine gives back holds no splice point.
pub proof fn lemma_merged_is_settled(segs: Seq<SegmentSpec>)
    ensures
        settled(merged(segs)),
    decreases segs.len(),
{
    lemma_first_splice_from(segs, 0);
    let j = first_splice_from(segs, 0);
    if 1 <= j && j + 2 < segs.len() {
        lemma_merged_is_settled(splice(segs, j));
    }
}

/// Running the engine on its own output changes nothing.
pub proof fn lemma_merge_idempotent(segs: Seq<SegmentSpec>)
    ensures
        merged(merged(segs)) == merged(segs),
{
    lemma_merged_is_settled(segs);
    lemma_merged_of_settled(merged(segs));
}

/// A text that holds no `{{` opens no expression.
pub proof fn lemma_open_without_marker(text: Seq<char>, i: int)
    requires
        0 <= i,
        !occurs_in(text, EXPRESSION_MARKER@),
    ensures
        open_from(0, text, i) == 0,
    decreases text.len() - i,
{
    if i + 1 < text.len() {
        reveal_strlit("{{");
        if text[i] == '{' && text[i + 1] == '{' {
            assert(text.subrange(i, i + 2) =~= EXPRESSION_MARKER@);
            assert(has_at(text, i, EXPRESSION_MARKER@));
        } else if text[i] == '}' && text[i + 1] == '}' {
            lemma_open_without_marker(text, i + 2);
        } else {
            lemma_open_without_marker(text, i + 1);
        }
    }
}

/// Where no literal holds `{{`, no expression is ever open.
pub proof fn lemma_depth_without_marker(segs: Seq<SegmentSpec>, j: int)
    requires
        0 <= j <= segs.len(),
        forall|k: int|
            0 <= k < segs.len() ==> (#[trigger] segs[k] matches SegmentSpec::Literal { text }
                ==> !occurs_in(text, EXPRESSION_MARKER@)),
    ensures
        brace_depth(segs, j) == 0,
    decreases j,
{
    if j > 0 {
        lemma_depth_without_marker(segs, j - 1);
        match segs[j - 1] {
            SegmentSpec::Literal { text } => {
                lemma_open_without_marker(text, 0);
            },
            SegmentSpec::Tag { .. } => {},
        }
    }
}

/// Segments none of whose literals holds `{{` are left as they are: a brace
/// that stands alone joins nothing.
pub proof fn lemma_merged_without_marker(segs: Seq<SegmentSpec>)
    requires
        forall|k: int|
            0 <= k < segs.len() ==> (#[trigger] segs[k] matches SegmentSpec::Literal { text }
                ==> !occurs_in(text, EXPRESSION_MARKER@)),
    ensures
        merged(segs) == segs,
{
    assert forall|j: int| 0 <= j < segs.len() implies !can_splice(segs, j) by {
        lemma_depth_without_marker(segs, j);
    }
    lemma_merged_of_settled(segs);
}

/// The texts of the literal segments, joined in order.
pub open spec fn literal_text(segs: Seq<SegmentSpec>) -> Seq<char>
    decreases segs.len(),
{
    if segs.len() == 0 {
        Seq::empty()
    } else {
        match segs.last() {
            SegmentSpec::Literal { text } => literal_text(segs.drop_last()) + text,
            SegmentSpec::Tag { .. } => literal_text(segs.drop_last()),
        }
    }
}

/// The literal text of two runs of segments is the text of the first
/// followed by the text of the second.
pub proof fn lemma_literal_text_concat(a: Seq<SegmentSpec>, b: Seq<SegmentSpec>)
    ensures
        literal_text(a + b) == literal_text(a) + literal_text(b),
    decreases b.len(),
{
    if b.len() == 0 {
        assert(a + b =~= a);
        assert(literal_text(a) + literal_text(b) =~= literal_text(a));
    } else {
        assert((a + b).drop_last() =~= a + b.drop_last());
        assert((a + b).last() == b.last());
        lemma_literal_text_concat(a, b.drop_last());
        assert(literal_text(a + b) =~= literal_text(a) + literal_text(b));
    }
}

/// Closing a splice point drops two tags and no text.
pub proof fn lemma_splice_keeps_text(segs: Seq<SegmentSpec>, j: int)
    requires
        can_splice(segs, j),
    ensures
        literal_text(splice(segs, j)) == literal_text(segs),
{
    let n = segs.len() as int;
    let front = segs.subrange(0, j - 1);
    let post = segs.subrange(j + 3, n);
    let a = segs[j - 1].raw_text();
    let b = segs[j + 2].raw_text();
    let four = seq![segs[j - 1], segs[j], segs[j + 1], segs[j + 2]];
    let one = seq![SegmentSpec::Literal { text: a + b }];
    assert(front + four + post =~= segs);
    assert(front + one + post =~= splice(segs, j));
    lemma_literal_text_concat(front + four, post);
    lemma_literal_text_concat(front, four);
    lemma_literal_text_concat(front + one, post);
    lemma_literal_text_concat(front, one);
    let three = four.drop_last();
    let two = three.drop_last();
    let single = two.drop_last();
    assert(single.drop_last() =~= Seq::<SegmentSpec>::empty());
    assert(literal_text(single.drop_last()) =~= Seq::<char>::empty());
    assert(literal_text(single) =~= a);
    assert(literal_text(two) =~= a);
    assert(literal_text(three) =~= a);
    assert(literal_text(four) =~= a + b);
    assert(one.drop_last() =~= Seq::<SegmentSpec>::empty());
    assert(literal_text(one.drop_last()) =~= Seq::<char>::empty());
    assert(literal_text(one) =~= a + b);
}

/// The span-merge engine moves no text: the literal text after it is the
/// literal text before it.
pub proof fn lemma_merged_keeps_text(segs: Seq<SegmentSpec>)
    ensures
        literal_text(merged(segs)) == literal_text(segs),
    decreases segs.len(),
{
    lemma_first_splice_from(segs, 0);
    let j = first_splice_from(segs, 0);
    if 1 <= j && j + 2 < segs.len() {
        lemma_splice_keeps_text(segs, j);
        lemma_merged_keeps_text(splice(segs, j));
    }
}

/// The number of unmatched `{{` after `text`, starting from `open`.
fn count_open(open: u128, text: &str) -> (after: u128)
    requires
        open + usize::MAX <= u128::MAX,
    ensures
        after == open_after(open as nat, text@),
        after <= open + usize::MAX,
{
    let chars = to_chars(text);
    let n = chars.len();
    let mut depth: u128 = open;
    let mut i: usize = 0;
    while i < n && n - i > 1
        invariant
            i <= n,
            n == chars.len(),
            chars@ == text@,
            open_from(open as nat, chars@, 0) == open_from(depth as nat, chars@, i as int),
            depth <= open + i,
            open + usize::MAX <= u128::MAX,
        decreases n - i,
    {
        if chars[i] == '{' && chars[i + 1] == '{' {
            depth = depth + 1;
            i = i + 2;
        } else if chars[i] == '}' && chars[i + 1] == '}' {
            if depth > 0 {
                depth = depth - 1;
            }
            i = i + 2;
        } else {
            i = i + 1;
        }
    }
    depth
}

/// Whether the four segments form a splice pattern.
fn is_splice_pattern(before: &Segment, close: &Segment, open: &Segment, after: &Segment) -> (r:
    bool)
    ensures
        r == splice_pattern(before@, close@, open@, after@),
{
    match (before, close, open, after) {
        (
            Segment::Literal { .. },
            Segment::Tag { is_end, name, .. },
            Segment::Tag { is_start, name: open_name, .. },
            Segment::Literal { .. },
        ) => *is_end && *is_start && *open_name == *name,
        _ => false,
    }
}

/// Joins the literals that run boundaries have cut apart inside a template
/// expression: the result is what [`merged`] describes.
pub fn merge_segments(segs: &Vec<Segment>) -> (out: Vec<Segment>)
    ensures
        views(out@) == merged(views(segs@)),
{
    let n = segs.len();
    let mut out: Vec<Segment> = Vec::new();
    let mut depth: u128 = 0;
    let mut base: u128 = 0;
    let mut i: usize = 0;
    let ghost all = views(segs@);
    assert(views(out@) + all.subrange(0, n as int) =~= all);
    while i < n
        invariant
            i <= n,
            n == segs.len(),
            all == views(segs@),
            merged(views(out@) + all.subrange(i as int, n as int)) == merged(all),
            forall|j: int|
                0 <= j < out.len() ==> !can_splice(
                    views(out@) + all.subrange(i as int, n as int),
                    j,
                ),
            depth == brace_depth(
                views(out@) + all.subrange(i as int, n as int),
                out.len() as int,
            ),
            out.len() >= 1 && out@[out.len() - 1] is Literal ==> base == brace_depth(
                views(out@) + all.subrange(i as int, n as int),
                out.len() - 1,
            ),
            depth <= i * 0x1_0000_0000_0000_0000,
            base <= i * 0x1_0000_0000_0000_0000,
        decreases n - i,
    {
        let ghost done = views(out@);
        let ghost cur = done + all.subrange(i as int, n as int);
        let k = out.len();
        assert(cur[k as int] == segs@[i as int]@);
        assert(k >= 1 ==> cur[k - 1] == out@[k - 1]@);
        assert((i + 1) * 0x1_0000_0000_0000_0000 <= 0xffff_ffff_ffff_ffff
            * 0x1_0000_0000_0000_0000) by (nonlinear_arith)
            requires
                i + 1 <= 0xffff_ffff_ffff_ffff,
        ;
        let splice_here = depth != 0 && k >= 1 && n - i > 2 && is_splice_pattern(
            &out[k - 1],
            &segs[i],
            &segs[i + 1],
            &segs[i + 2],
        );
        proof {
            if n - i > 2 {
                assert(cur[k + 1] == segs@[i + 1]@);
                assert(cur[k + 2] == segs@[i + 2]@);
            }
            assert(splice_here == can_splice(cur, k as int));
        }
        if splice_here {
            let joined = match (out.pop(), &segs[i + 2]) {
                (Some(Segment::Literal { text }), Segment::Literal { text: more }) => text.concat(
                    more.as_str(),
                ),
                (_, _) => String::new(),
            };
            depth = count_open(base, joined.as_str());
            out.push(Segment::Literal { text: joined });
            proof {
                let next = views(out@) + all.subrange(i + 3, n as int);
                assert(next =~= splice(cur, k as int));
                lemma_first_splice_is(cur, k as int);
                assert(merged(cur) == merged(splice(cur, k as int)));
                let a = cur[k - 1].raw_text();
                let b = cur[k + 2].raw_text();
                lemma_brace_depth_prefix(next, cur, k - 1);
                assert(brace_depth(next, k as int) == open_after(
                    brace_depth(next, k - 1),
                    a + b,
                ));
                assert forall|j: int| 0 <= j < out.len() implies !can_splice(next, j) by {
                    assert(next[k - 1] is Literal);
                    if 1 <= j <= k - 3 {
                        lemma_brace_depth_prefix(next, cur, j);
                        assert(!can_splice(cur, j));
                        assert(next[j - 1] == cur[j - 1]);
                        assert(next[j] == cur[j]);
                        assert(next[j + 1] == cur[j + 1]);
                        assert(cur[k - 1] is Literal);
                        assert(next[j + 2] is Literal ==> cur[j + 2] is Literal);
                    } else if j == k - 2 {
                        assert(next[j + 1] is Literal);
                    } else if j == k - 1 {
                        assert(next[j] is Literal);
                    }
                }
            }
            i = i + 3;
        } else {
            let seg = segs[i].duplicate();
            match &seg {
                Segment::Literal { text } => {
                    base = depth;
                    depth = count_open(base, text.as_str());
                },
                Segment::Tag { .. } => {},
            }
            out.push(seg);
            proof {
                let next = views(out@) + all.subrange(i + 1, n as int);
                assert(next =~= cur);
            }
            i = i + 1;
        }
    }
    proof {
        assert(views(out@) + all.subrange(n as int, n as int) =~= views(out@));
        lemma_merged_of_settled(views(out@));
    }
    out
}

} // verus!
