//! The structural reconstructor: rendered text written back into markup.
//!
//! Paragraph-scoped reconstruction keeps the document's segments and puts
//! each rendered paragraph into the paragraph's first text leaf.
//! Document-scoped and hybrid reconstruction lay rendered text out anew, one
//! paragraph per line. In each, a region whose evaluation fails keeps its
//! own text.

use vstd::prelude::*;
use vstd::string::*;
use crate::evaluator::{settle, settled, try_render, verdict_view};
use crate::segment::{serialize, serialized, views, Segment, SegmentSpec};
use crate::strategy::EXPRESSION_MARKER;
use crate::text::{contains_text, from_chars, occurs_in, to_chars};
use crate::variables::{char_views, string_views};

verus! {

/// The element name of a paragraph.
pub const PARAGRAPH_NAME: &'static str = "w:p";

/// The element name of a text run's text.
pub const TEXT_RUN_NAME: &'static str = "w:t";

/// The element name of a table.
pub const TABLE_NAME: &'static str = "w:tbl";

/// Position `j` holds a text leaf: a literal directly after the opening tag
/// of a text run.
pub open spec fn is_text_leaf(segs: Seq<SegmentSpec>, j: int) -> bool {
    1 <= j < segs.len() && segs[j] is Literal && segs[j - 1].opens(TEXT_RUN_NAME@)
}

/// The texts of the text leaves at positions `from..to`, joined in order.
pub open spec fn leaf_text(segs: Seq<SegmentSpec>, from: int, to: int) -> Seq<char>
    decreases to - from,
{
    if to <= from {
        Seq::empty()
    } else if is_text_leaf(segs, to - 1) {
        leaf_text(segs, from, to - 1) + segs[to - 1].raw_text()
    } else {
        leaf_text(segs, from, to - 1)
    }
}

/// Where the paragraph whose content starts at `i` ends (exclusive): just
/// after the next closing paragraph tag, or at the end of the segments.
pub open spec fn paragraph_end(segs: Seq<SegmentSpec>, i: int) -> int
    decreases segs.len() - i,
{
    if i < 0 || i >= segs.len() {
        segs.len() as int
    } else if segs[i].closes(PARAGRAPH_NAME@) {
        i + 1
    } else {
        paragraph_end(segs, i + 1)
    }
}

/// The text holds a template expression.
pub open spec fn has_expression(text: Seq<char>) -> bool {
    occurs_in(text, EXPRESSION_MARKER@)
}

/// The first text leaf at positions `from..to`; `to` where there is none.
pub open spec fn first_leaf(segs: Seq<SegmentSpec>, from: int, to: int) -> int
    decreases to - from,
{
    if from >= to {
        to
    } else if is_text_leaf(segs, from) {
        from
    } else {
        first_leaf(segs, from + 1, to)
    }
}

/// The segment at position `j` of a paragraph at `from..to` that has been
/// given `text`: the first text leaf holds the text, every other text leaf
/// is empty, and every other segment is as it was.
pub open spec fn with_text_at(
    segs: Seq<SegmentSpec>,
    from: int,
    to: int,
    text: Seq<char>,
    j: int,
) -> SegmentSpec {
    if is_text_leaf(segs, j) {
        if j == first_leaf(segs, from, to) {
            SegmentSpec::Literal { text }
        } else {
            SegmentSpec::Literal { text: Seq::empty() }
        }
    } else {
        segs[j]
    }
}

/// The paragraph at `from..to` given `text`.
pub open spec fn with_text(segs: Seq<SegmentSpec>, from: int, to: int, text: Seq<char>) -> Seq<
    SegmentSpec,
> {
    Seq::new((to - from) as nat, |k: int| with_text_at(segs, from, to, text, from + k))
}

/// The texts of the paragraphs that hold a template expression, in order,
/// from position `i` on.
pub open spec fn templates_from(segs: Seq<SegmentSpec>, i: int) -> Seq<Seq<char>>
    decreases segs.len() - i,
{
    if i < 0 || i >= segs.len() {
        Seq::empty()
    } else if segs[i].opens(PARAGRAPH_NAME@) {
        let e = paragraph_end(segs, i + 1);
        if i < e <= segs.len() {
            if has_expression(leaf_text(segs, i, e)) {
                seq![leaf_text(segs, i, e)] + templates_from(segs, e)
            } else {
                templates_from(segs, e)
            }
        } else {
            Seq::empty()
        }
    } else {
        templates_from(segs, i + 1)
    }
}

/// The paragraph at `from..to` after evaluation: given the rendered text
/// where there is one, as it was otherwise.
pub open spec fn paragraph_after(
    segs: Seq<SegmentSpec>,
    from: int,
    to: int,
    verdict: Option<Seq<char>>,
) -> Seq<SegmentSpec> {
    match verdict {
        Some(rendered) => with_text(segs, from, to, rendered),
        None => segs.subrange(from, to),
    }
}

/// The verdict for the next paragraph that holds an expression: the first
/// of the verdicts, a failure where none is left.
pub open spec fn next_verdict(verdicts: Seq<Option<Seq<char>>>) -> Option<Seq<char>> {
    if verdicts.len() > 0 {
        verdicts[0]
    } else {
        None
    }
}

/// The verdicts for the paragraphs after the next.
pub open spec fn later_verdicts(verdicts: Seq<Option<Seq<char>>>) -> Seq<Option<Seq<char>>> {
    if verdicts.len() > 0 {
        verdicts.drop_first()
    } else {
        verdicts
    }
}

/// The segments from position `i` on after paragraph-scoped rendering: the
/// paragraphs that hold a template expression take the verdicts in order;
/// every other segment is as it was.
pub open spec fn rebuilt_from(
    segs: Seq<SegmentSpec>,
    i: int,
    verdicts: Seq<Option<Seq<char>>>,
) -> Seq<SegmentSpec>
    decreases segs.len() - i,
{
    if i < 0 || i >= segs.len() {
        Seq::empty()
    } else if segs[i].opens(PARAGRAPH_NAME@) {
        let e = paragraph_end(segs, i + 1);
        if i < e <= segs.len() {
            if has_expression(leaf_text(segs, i, e)) {
                paragraph_after(segs, i, e, next_verdict(verdicts)) + rebuilt_from(
                    segs,
                    e,
                    later_verdicts(verdicts),
                )
            } else {
                segs.subrange(i, e) + rebuilt_from(segs, e, verdicts)
            }
        } else {
            Seq::empty()
        }
    } else {
        seq![segs[i]] + rebuilt_from(segs, i + 1, verdicts)
    }
}

/// The values of a list of verdicts.
pub open spec fn verdict_views(verdicts: Seq<Option<String>>) -> Seq<Option<Seq<char>>> {
    Seq::new(verdicts.len(), |k: int| verdict_view(verdicts[k]))
}

/// `out` is a paragraph-scoped rendering of `segs`: the segments rebuilt
/// with one verdict for each paragraph that holds a template expression.
pub open spec fn paragraph_rendering(segs: Seq<SegmentSpec>, out: Seq<SegmentSpec>) -> bool {
    exists|verdicts: Seq<Option<Seq<char>>>|
        verdicts.len() == templates_from(segs, 0).len() && out == rebuilt_from(segs, 0, verdicts)
}

/// A paragraph ends at or after the position its content starts at, and
/// behind it where there is any content.
pub proof fn lemma_paragraph_end(segs: Seq<SegmentSpec>, i: int)
    requires
        0 <= i <= segs.len(),
    ensures
        i <= paragraph_end(segs, i) <= segs.len(),
        i < segs.len() ==> i < paragraph_end(segs, i),
    decreases segs.len() - i,
{
    if i < segs.len() && !segs[i].closes(PARAGRAPH_NAME@) {
        lemma_paragraph_end(segs, i + 1);
    }
}

/// The position that [`first_leaf`] gives is a text leaf where it is not
/// `to`, and no position from `from` up to it is one.
pub proof fn lemma_first_leaf(segs: Seq<SegmentSpec>, from: int, to: int)
    requires
        from <= to,
    ensures
        from <= first_leaf(segs, from, to) <= to,
        first_leaf(segs, from, to) < to ==> is_text_leaf(segs, first_leaf(segs, from, to)),
        forall|j: int| from <= j < first_leaf(segs, from, to) ==> !is_text_leaf(segs, j),
    decreases to - from,
{
    if from < to && !is_text_leaf(segs, from) {
        lemma_first_leaf(segs, from + 1, to);
    }
}

/// Rendering keeps the skeleton: the rebuilt segments are as many as
/// before, and every segment that is not a text leaf is as it was.
pub proof fn lemma_rebuilt_skeleton(
    segs: Seq<SegmentSpec>,
    i: int,
    verdicts: Seq<Option<Seq<char>>>,
)
    requires
        0 <= i <= segs.len(),
    ensures
        rebuilt_from(segs, i, verdicts).len() == segs.len() - i,
        forall|j: int|
            i <= j < segs.len() && !is_text_leaf(segs, j) ==> rebuilt_from(segs, i, verdicts)[j
                - i] == segs[j],
    decreases segs.len() - i,
{
    if i < segs.len() {
        if segs[i].opens(PARAGRAPH_NAME@) {
            lemma_paragraph_end(segs, i + 1);
            let e = paragraph_end(segs, i + 1);
            if has_expression(leaf_text(segs, i, e)) {
                lemma_rebuilt_skeleton(segs, e, later_verdicts(verdicts));
            } else {
                lemma_rebuilt_skeleton(segs, e, verdicts);
            }
        } else {
            lemma_rebuilt_skeleton(segs, i + 1, verdicts);
        }
    }
}

/// Where every evaluation fails, the segments are as they were.
pub proof fn lemma_rebuilt_all_failed(
    segs: Seq<SegmentSpec>,
    i: int,
    verdicts: Seq<Option<Seq<char>>>,
)
    requires
        0 <= i <= segs.len(),
        forall|k: int| 0 <= k < verdicts.len() ==> verdicts[k] is None,
    ensures
        rebuilt_from(segs, i, verdicts) == segs.subrange(i, segs.len() as int),
    decreases segs.len() - i,
{
    if i < segs.len() {
        if segs[i].opens(PARAGRAPH_NAME@) {
            lemma_paragraph_end(segs, i + 1);
            let e = paragraph_end(segs, i + 1);
            if has_expression(leaf_text(segs, i, e)) {
                let later = later_verdicts(verdicts);
                assert forall|k: int| 0 <= k < later.len() implies later[k] is None by {
                    if verdicts.len() > 0 {
                        assert(later[k] == verdicts[k + 1]);
                    }
                }
                lemma_rebuilt_all_failed(segs, e, later);
            } else {
                lemma_rebuilt_all_failed(segs, e, verdicts);
            }
            assert(segs.subrange(i, e) + segs.subrange(e, segs.len() as int) =~= segs.subrange(
                i,
                segs.len() as int,
            ));
        } else {
            lemma_rebuilt_all_failed(segs, i + 1, verdicts);
            assert(seq![segs[i]] + segs.subrange(i + 1, segs.len() as int) =~= segs.subrange(
                i,
                segs.len() as int,
            ));
        }
    } else {
        assert(segs.subrange(i, segs.len() as int) =~= Seq::<SegmentSpec>::empty());
    }
}

/// Whether position `j` holds a text leaf.
fn check_text_leaf(segs: &Vec<Segment>, j: usize) -> (r: bool)
    requires
        j < segs.len(),
    ensures
        r == is_text_leaf(views(segs@), j as int),
{
    if j == 0 {
        return false;
    }
    match &segs[j] {
        Segment::Literal { .. } => segs[j - 1].is_opening(TEXT_RUN_NAME),
        Segment::Tag { .. } => false,
    }
}

/// Where the paragraph whose content starts at `i` ends.
fn find_paragraph_end(segs: &Vec<Segment>, i: usize) -> (e: usize)
    requires
        i <= segs.len(),
    ensures
        e == paragraph_end(views(segs@), i as int),
        i <= e <= segs.len(),
        i < segs.len() ==> i < e,
{
    let mut k: usize = i;
    while k < segs.len()
        invariant
            i <= k <= segs.len(),
            paragraph_end(views(segs@), i as int) == paragraph_end(views(segs@), k as int),
        decreases segs.len() - k,
    {
        if segs[k].is_closing(PARAGRAPH_NAME) {
            return k + 1;
        }
        k += 1;
    }
    k
}

/// The texts of the text leaves at positions `from..to`, joined.
fn gather_leaf_text(segs: &Vec<Segment>, from: usize, to: usize) -> (text: String)
    requires
        from <= to <= segs.len(),
    ensures
        text@ == leaf_text(views(segs@), from as int, to as int),
{
    let mut text = String::new();
    let mut k: usize = from;
    while k < to
        invariant
            from <= k <= to <= segs.len(),
            text@ == leaf_text(views(segs@), from as int, k as int),
        decreases to - k,
    {
        if check_text_leaf(segs, k) {
            match &segs[k] {
                Segment::Literal { text: piece } => text.append(piece.as_str()),
                Segment::Tag { .. } => {},
            }
        }
        k += 1;
    }
    text
}

/// Whether the text holds a template expression.
fn check_has_expression(text: &str) -> (r: bool)
    ensures
        r == has_expression(text@),
{
    contains_text(&to_chars(text), &to_chars(EXPRESSION_MARKER))
}

/// The texts of the paragraphs that hold a template expression, in order:
/// what paragraph-scoped rendering hands to the evaluator.
pub fn paragraph_templates(segs: &Vec<Segment>) -> (templates: Vec<String>)
    ensures
        string_views(templates@) == templates_from(views(segs@), 0),
{
    let mut templates: Vec<String> = Vec::new();
    let mut i: usize = 0;
    let ghost all = views(segs@);
    assert(string_views(templates@) + templates_from(all, 0) =~= templates_from(all, 0));
    while i < segs.len()
        invariant
            i <= segs.len(),
            all == views(segs@),
            string_views(templates@) + templates_from(all, i as int) == templates_from(all, 0),
        decreases segs.len() - i,
    {
        let ghost before = string_views(templates@);
        if segs[i].is_opening(PARAGRAPH_NAME) {
            let e = find_paragraph_end(segs, i + 1);
            let text = gather_leaf_text(segs, i, e);
            if check_has_expression(text.as_str()) {
                templates.push(text);
                assert(string_views(templates@) =~= before.push(leaf_text(all, i as int, e as int)));
                assert(string_views(templates@) + templates_from(all, e as int) =~= before + (
                seq![leaf_text(all, i as int, e as int)] + templates_from(all, e as int)));
            }
            i = e;
        } else {
            i = i + 1;
        }
    }
    assert(string_views(templates@) + templates_from(all, segs.len() as int) =~= string_views(
        templates@,
    ));
    templates
}

/// Puts `rendered` into the first text leaf of the paragraph at `from..to`
/// and empties its other text leaves; the result is appended to `out`.
fn push_with_text(out: &mut Vec<Segment>, segs: &Vec<Segment>, from: usize, to: usize, rendered: &str)
    requires
        from <= to <= segs.len(),
    ensures
        views(final(out)@) == views(old(out)@) + with_text(
            views(segs@),
            from as int,
            to as int,
            rendered@,
        ),
{
    let ghost all = views(segs@);
    let ghost start = views(out@);
    let ghost goal = with_text(all, from as int, to as int, rendered@);
    let mut placed = false;
    let mut j: usize = from;
    assert(views(out@) =~= start + goal.take(0));
    while j < to
        invariant
            from <= j <= to <= segs.len(),
            all == views(segs@),
            goal == with_text(all, from as int, to as int, rendered@),
            views(out@) == start + goal.take(j - from),
            placed ==> first_leaf(all, from as int, to as int) < j,
            !placed ==> first_leaf(all, from as int, to as int) == first_leaf(
                all,
                j as int,
                to as int,
            ),
        decreases to - j,
    {
        let ghost before = views(out@);
        proof {
            lemma_first_leaf(all, j as int, to as int);
            lemma_first_leaf(all, from as int, to as int);
        }
        let seg = if check_text_leaf(segs, j) {
            if placed {
                Segment::literal("")
            } else {
                placed = true;
                Segment::literal(rendered)
            }
        } else {
            segs[j].duplicate()
        };
        assert(seg@ == goal[j - from]) by {
            reveal_strlit("");
            assert(""@ =~= Seq::<char>::empty());
        }
        out.push(seg);
        assert(views(out@) =~= before.push(goal[j - from]));
        assert(goal.take(j + 1 - from) =~= goal.take(j - from).push(goal[j - from]));
        assert(views(out@) =~= start + goal.take(j + 1 - from));
        j += 1;
    }
    assert(goal.take(to - from) =~= goal);
}

/// Appends the segments at positions `from..to` to `out`.
fn push_range(out: &mut Vec<Segment>, segs: &Vec<Segment>, from: usize, to: usize)
    requires
        from <= to <= segs.len(),
    ensures
        views(final(out)@) == views(old(out)@) + views(segs@).subrange(from as int, to as int),
{
    let ghost start = views(out@);
    let ghost all = views(segs@);
    let mut j: usize = from;
    assert(views(out@) =~= start + all.subrange(from as int, from as int));
    while j < to
        invariant
            from <= j <= to <= segs.len(),
            all == views(segs@),
            views(out@) == start + all.subrange(from as int, j as int),
        decreases to - j,
    {
        let ghost before = views(out@);
        out.push(segs[j].duplicate());
        assert(views(out@) =~= before.push(all[j as int]));
        assert(all.subrange(from as int, j + 1) =~= all.subrange(from as int, j as int).push(
            all[j as int],
        ));
        assert(views(out@) =~= start + all.subrange(from as int, j + 1));
        j += 1;
    }
}

/// Writes the evaluator's verdicts back into the segments: each paragraph
/// that holds a template expression takes the next verdict; a rendered text
/// goes into the paragraph's first text leaf and empties the others, a
/// failure leaves the paragraph as it was.
pub fn rebuild_paragraphs(segs: &Vec<Segment>, verdicts: &Vec<Option<String>>) -> (out: Vec<
    Segment,
>)
    ensures
        views(out@) == rebuilt_from(views(segs@), 0, verdict_views(verdicts@)),
{
    let mut out: Vec<Segment> = Vec::new();
    let mut i: usize = 0;
    let mut v: usize = 0;
    let ghost all = views(segs@);
    let ghost given = verdict_views(verdicts@);
    assert(given.subrange(0, given.len() as int) =~= given);
    assert(views(out@) + rebuilt_from(all, 0, given) =~= rebuilt_from(all, 0, given));
    while i < segs.len()
        invariant
            i <= segs.len(),
            v <= verdicts.len(),
            all == views(segs@),
            given == verdict_views(verdicts@),
            views(out@) + rebuilt_from(
                all,
                i as int,
                given.subrange(v as int, given.len() as int),
            ) == rebuilt_from(all, 0, given),
        decreases segs.len() - i,
    {
        let ghost before = views(out@);
        let ghost left = given.subrange(v as int, given.len() as int);
        if segs[i].is_opening(PARAGRAPH_NAME) {
            let e = find_paragraph_end(segs, i + 1);
            let text = gather_leaf_text(segs, i, e);
            if check_has_expression(text.as_str()) {
                proof {
                    if v < verdicts.len() {
                        assert(left[0] == given[v as int]);
                        assert(left.drop_first() =~= given.subrange(v + 1, given.len() as int));
                    } else {
                        assert(left.len() == 0);
                    }
                }
                if v < verdicts.len() {
                    match &verdicts[v] {
                        Some(rendered) => push_with_text(&mut out, segs, i, e, rendered.as_str()),
                        None => push_range(&mut out, segs, i, e),
                    }
                    v = v + 1;
                } else {
                    push_range(&mut out, segs, i, e);
                }
                assert(views(out@) + rebuilt_from(
                    all,
                    e as int,
                    given.subrange(v as int, given.len() as int),
                ) =~= before + (paragraph_after(all, i as int, e as int, next_verdict(left))
                    + rebuilt_from(all, e as int, later_verdicts(left))));
            } else {
                push_range(&mut out, segs, i, e);
                assert(views(out@) + rebuilt_from(all, e as int, left) =~= before + (all.subrange(
                    i as int,
                    e as int,
                ) + rebuilt_from(all, e as int, left)));
            }
            i = e;
        } else {
            out.push(segs[i].duplicate());
            assert(views(out@) =~= before.push(all[i as int]));
            assert(views(out@) + rebuilt_from(all, i + 1, left) =~= before + (seq![all[i as int]]
                + rebuilt_from(all, i + 1, left)));
            i = i + 1;
        }
    }
    assert(views(out@) + rebuilt_from(
        all,
        segs.len() as int,
        given.subrange(v as int, given.len() as int),
    ) =~= views(out@));
    out
}

/// Renders each paragraph that holds a template expression by itself and
/// writes the result back into the paragraph. A paragraph whose evaluation
/// fails is left as it was.
pub fn render_paragraphs(
    segs: &Vec<Segment>,
    engine: &handlebars::Handlebars<'static>,
    data: &serde_json::Value,
) -> (out: Vec<Segment>)
    ensures
        paragraph_rendering(views(segs@), views(out@)),
{
    let templates = paragraph_templates(segs);
    let mut verdicts: Vec<Option<String>> = Vec::new();
    let mut k: usize = 0;
    while k < templates.len()
        invariant
            k <= templates.len(),
            verdicts.len() == k,
        decreases templates.len() - k,
    {
        verdicts.push(try_render(engine, templates[k].as_str(), data));
        k += 1;
    }
    let out = rebuild_paragraphs(segs, &verdicts);
    assert(verdict_views(verdicts@).len() == templates_from(views(segs@), 0).len());
    out
}

/// The markup that opens the minimal document envelope.
pub const ENVELOPE_OPEN: &'static str =
    "<?xml version=\"1.0\" encoding=\"UTF-8\" standalone=\"yes\"?><w:document xmlns:w=\"http://schemas.openxmlformats.org/wordprocessingml/2006/main\"><w:body>";

/// The markup that closes the minimal document envelope.
pub const ENVELOPE_CLOSE: &'static str = "</w:body></w:document>";

/// The markup before the text of a laid-out paragraph: a paragraph with one
/// run of default formatting that keeps its white space.
pub const RUN_OPEN: &'static str = "<w:p><w:r><w:t xml:space=\"preserve\">";

/// The markup after the text of a laid-out paragraph.
pub const RUN_CLOSE: &'static str = "</w:t></w:r></w:p>";

/// The markup of a paragraph without text.
pub const EMPTY_PARAGRAPH: &'static str = "<w:p></w:p>";

/// A paragraph opens at one of the positions `from..n`.
pub open spec fn opened_in(segs: Seq<SegmentSpec>, from: int, n: int) -> bool
    decreases n - from,
{
    from < n && (segs[n - 1].opens(PARAGRAPH_NAME@) || opened_in(segs, from, n - 1))
}

/// The text of the region at positions `from..n`: the texts of its text
/// leaves, with a line break wherever a paragraph opens after the region's
/// first.
pub open spec fn region_text(segs: Seq<SegmentSpec>, from: int, n: int) -> Seq<char>
    decreases n - from,
{
    if n <= from {
        Seq::empty()
    } else {
        let before = region_text(segs, from, n - 1);
        if segs[n - 1].opens(PARAGRAPH_NAME@) && opened_in(segs, from, n - 1) {
            before.push('\n')
        } else if is_text_leaf(segs, n - 1) {
            before + segs[n - 1].raw_text()
        } else {
            before
        }
    }
}

/// The lines of a text: the pieces between its line breaks, so one more
/// than it has line breaks.
pub open spec fn split_lines(text: Seq<char>) -> Seq<Seq<char>>
    decreases text.len(),
{
    if text.len() == 0 {
        seq![Seq::<char>::empty()]
    } else {
        let before = split_lines(text.drop_last());
        if text.last() == '\n' {
            before.push(Seq::<char>::empty())
        } else {
            before.drop_last().push(before.last().push(text.last()))
        }
    }
}

/// The markup of one laid-out paragraph.
pub open spec fn paragraph_markup(line: Seq<char>) -> Seq<char> {
    if line.len() == 0 {
        EMPTY_PARAGRAPH@
    } else {
        RUN_OPEN@ + line + RUN_CLOSE@
    }
}

/// The markup of one paragraph per line, in order.
pub open spec fn paragraphs_markup(lines: Seq<Seq<char>>) -> Seq<char>
    decreases lines.len(),
{
    if lines.len() == 0 {
        Seq::empty()
    } else {
        paragraphs_markup(lines.drop_last()) + paragraph_markup(lines.last())
    }
}

/// The markup of a region laid out anew: one paragraph per line of its
/// text, an empty paragraph for an empty line, and nothing for no text.
pub open spec fn region_markup(text: Seq<char>) -> Seq<char> {
    if text.len() == 0 {
        Seq::empty()
    } else {
        paragraphs_markup(split_lines(text))
    }
}

/// The body inside the minimal document envelope.
pub open spec fn envelope(body: Seq<char>) -> Seq<char> {
    ENVELOPE_OPEN@ + body + ENVELOPE_CLOSE@
}

/// The document after document-scoped rendering: its text, rendered or on
/// failure as it was, laid out anew inside the envelope.
pub open spec fn document_scoped(segs: Seq<SegmentSpec>, verdict: Option<Seq<char>>) -> Seq<char> {
    envelope(region_markup(settled(region_text(segs, 0, segs.len() as int), verdict)))
}

/// The first position at or after `i` that opens the element `name`; the
/// number of segments where none does.
pub open spec fn first_opening(segs: Seq<SegmentSpec>, name: Seq<char>, i: int) -> int
    decreases segs.len() - i,
{
    if i < 0 || i >= segs.len() {
        segs.len() as int
    } else if segs[i].opens(name) {
        i
    } else {
        first_opening(segs, name, i + 1)
    }
}

/// The end (exclusive) of the last closing tag of `name` among the first
/// `n` segments; 0 where there is none.
pub open spec fn last_closing_end(segs: Seq<SegmentSpec>, name: Seq<char>, n: int) -> int
    decreases n,
{
    if n <= 0 {
        0
    } else if segs[n - 1].closes(name) {
        n
    } else {
        last_closing_end(segs, name, n - 1)
    }
}

/// Where the table block starts: at the first opening table tag, or at the
/// end where there is no table.
pub open spec fn block_start(segs: Seq<SegmentSpec>) -> int {
    first_opening(segs, TABLE_NAME@, 0)
}

/// Where the table block ends (exclusive): just after the last closing
/// table tag behind its start, or at the end where there is none.
pub open spec fn block_end(segs: Seq<SegmentSpec>) -> int {
    let closing = last_closing_end(segs, TABLE_NAME@, segs.len() as int);
    if closing > block_start(segs) {
        closing
    } else {
        segs.len() as int
    }
}

/// The document after hybrid rendering: the text before the table block and
/// the text after it, each rendered or on failure as it was, laid out anew;
/// between them the block's markup as it stands; all inside the envelope.
///
/// One table is assumed. Where there are several, the block runs from the
/// first table's opening tag to the last table's closing tag, and what
/// stands between the tables is copied with them.
pub open spec fn hybrid(
    segs: Seq<SegmentSpec>,
    before: Option<Seq<char>>,
    after: Option<Seq<char>>,
) -> Seq<char> {
    let a = block_start(segs);
    let b = block_end(segs);
    envelope(
        region_markup(settled(region_text(segs, 0, a), before)) + serialized(segs.subrange(a, b))
            + region_markup(settled(region_text(segs, b, segs.len() as int), after)),
    )
}

/// `out` is a document-scoped rendering of `segs`.
pub open spec fn document_rendering(segs: Seq<SegmentSpec>, out: Seq<char>) -> bool {
    exists|verdict: Option<Seq<char>>| out == document_scoped(segs, verdict)
}

/// `out` is a hybrid rendering of `segs`.
pub open spec fn hybrid_rendering(segs: Seq<SegmentSpec>, out: Seq<char>) -> bool {
    exists|before: Option<Seq<char>>, after: Option<Seq<char>>| out == hybrid(segs, before, after)
}

/// A region whose evaluation fails keeps its text, in every strategy: a
/// failed paragraph is emitted as it was, and a failed region of the
/// document-scoped or hybrid strategy is laid out from its own text.
pub proof fn lemma_fail_soft(segs: Seq<SegmentSpec>, from: int, to: int, text: Seq<char>)
    ensures
        settled(text, None) == text,
        paragraph_after(segs, from, to, None) == segs.subrange(from, to),
        document_scoped(segs, None) == envelope(
            region_markup(region_text(segs, 0, segs.len() as int)),
        ),
        hybrid(segs, None, None) == envelope(
            region_markup(region_text(segs, 0, block_start(segs))) + serialized(
                segs.subrange(block_start(segs), block_end(segs)),
            ) + region_markup(region_text(segs, block_end(segs), segs.len() as int)),
        ),
{
}

/// The text of the region at positions `from..to`.
pub fn gather_region_text(segs: &Vec<Segment>, from: usize, to: usize) -> (text: String)
    ensures
        from <= to <= segs.len() ==> text@ == region_text(views(segs@), from as int, to as int),
        !(from <= to <= segs.len()) ==> text@ == Seq::<char>::empty(),
{
    let mut text = String::new();
    if from > to || to > segs.len() {
        return text;
    }
    let mut opened = false;
    let mut k: usize = from;
    while k < to
        invariant
            from <= k <= to <= segs.len(),
            text@ == region_text(views(segs@), from as int, k as int),
            opened == opened_in(views(segs@), from as int, k as int),
        decreases to - k,
    {
        if segs[k].is_opening(PARAGRAPH_NAME) {
            if opened {
                text.push('\n');
            }
            opened = true;
        } else if check_text_leaf(segs, k) {
            match &segs[k] {
                Segment::Literal { text: piece } => text.append(piece.as_str()),
                Segment::Tag { .. } => {},
            }
        }
        k += 1;
    }
    text
}

/// The lines of a text.
pub fn split_text(text: &str) -> (lines: Vec<Vec<char>>)
    ensures
        char_views(lines@) == split_lines(text@),
{
    let chars = to_chars(text);
    let mut lines: Vec<Vec<char>> = Vec::new();
    let mut current: Vec<char> = Vec::new();
    let mut k: usize = 0;
    assert(chars@.take(0) =~= Seq::<char>::empty());
    assert(char_views(lines@).push(current@) =~= split_lines(chars@.take(0)));
    while k < chars.len()
        invariant
            k <= chars.len(),
            chars@ == text@,
            char_views(lines@).push(current@) == split_lines(chars@.take(k as int)),
        decreases chars.len() - k,
    {
        let ghost done = char_views(lines@);
        let ghost line = current@;
        proof {
            let now = chars@.take(k + 1);
            assert(now.drop_last() =~= chars@.take(k as int));
            assert(now.last() == chars@[k as int]);
            assert(done.push(line).drop_last() =~= done);
        }
        if chars[k] == '\n' {
            lines.push(current);
            current = Vec::new();
            assert(char_views(lines@) =~= done.push(line));
        } else {
            current.push(chars[k]);
        }
        k += 1;
    }
    assert(chars@.take(chars.len() as int) =~= chars@);
    let ghost done = char_views(lines@);
    lines.push(current);
    assert(char_views(lines@) =~= done.push(current@));
    lines
}

/// Lays a text out anew: the markup of one paragraph per line, an empty
/// paragraph for an empty line, and nothing for no text.
pub fn lay_out(text: &str) -> (markup: String)
    ensures
        markup@ == region_markup(text@),
{
    let mut markup = String::new();
    if text.is_empty() {
        return markup;
    }
    let lines = split_text(text);
    let mut k: usize = 0;
    assert(char_views(lines@).take(0) =~= Seq::<Seq<char>>::empty());
    while k < lines.len()
        invariant
            k <= lines.len(),
            markup@ == paragraphs_markup(char_views(lines@).take(k as int)),
        decreases lines.len() - k,
    {
        proof {
            let now = char_views(lines@).take(k + 1);
            assert(now.drop_last() =~= char_views(lines@).take(k as int));
            assert(now.last() == lines@[k as int]@);
        }
        let ghost before = markup@;
        if lines[k].len() == 0 {
            markup.append(EMPTY_PARAGRAPH);
        } else {
            markup.append(RUN_OPEN);
            markup.append(from_chars(&lines[k]).as_str());
            markup.append(RUN_CLOSE);
            assert(markup@ =~= before + (RUN_OPEN@ + lines@[k as int]@ + RUN_CLOSE@));
        }
        k += 1;
    }
    assert(char_views(lines@).take(lines.len() as int) =~= char_views(lines@));
    markup
}

/// Puts a body inside the minimal document envelope.
pub fn wrap_in_envelope(body: &str) -> (markup: String)
    ensures
        markup@ == envelope(body@),
{
    let mut markup = String::from_str(ENVELOPE_OPEN);
    markup.append(body);
    markup.append(ENVELOPE_CLOSE);
    markup
}

/// The document after document-scoped rendering, given the evaluator's
/// verdict on the document's text.
pub fn document_scoped_markup(segs: &Vec<Segment>, verdict: Option<String>) -> (markup: String)
    ensures
        markup@ == document_scoped(views(segs@), verdict_view(verdict)),
{
    let text = gather_region_text(segs, 0, segs.len());
    let shown = settle(text.as_str(), verdict);
    let body = lay_out(shown.as_str());
    wrap_in_envelope(body.as_str())
}

/// Where the table block starts and ends.
pub fn table_bounds(segs: &Vec<Segment>) -> (bounds: (usize, usize))
    ensures
        bounds.0 == block_start(views(segs@)),
        bounds.1 == block_end(views(segs@)),
        bounds.0 <= bounds.1 <= segs.len(),
{
    let ghost all = views(segs@);
    let mut a: usize = 0;
    while a < segs.len() && !segs[a].is_opening(TABLE_NAME)
        invariant
            a <= segs.len(),
            all == views(segs@),
            first_opening(all, TABLE_NAME@, 0) == first_opening(all, TABLE_NAME@, a as int),
        decreases segs.len() - a,
    {
        a += 1;
    }
    let mut b: usize = segs.len();
    while b > 0 && !segs[b - 1].is_closing(TABLE_NAME)
        invariant
            b <= segs.len(),
            all == views(segs@),
            last_closing_end(all, TABLE_NAME@, segs.len() as int) == last_closing_end(
                all,
                TABLE_NAME@,
                b as int,
            ),
        decreases b,
    {
        b -= 1;
    }
    if b > a {
        (a, b)
    } else {
        (a, segs.len())
    }
}

/// The document after hybrid rendering, given the evaluator's verdicts on
/// the text before the table block and on the text after it.
pub fn hybrid_markup(segs: &Vec<Segment>, before: Option<String>, after: Option<String>) -> (markup:
    String)
    ensures
        markup@ == hybrid(views(segs@), verdict_view(before), verdict_view(after)),
{
    let (a, b) = table_bounds(segs);
    let head = settle(gather_region_text(segs, 0, a).as_str(), before);
    let tail = settle(gather_region_text(segs, b, segs.len()).as_str(), after);
    let mut block: Vec<Segment> = Vec::new();
    push_range(&mut block, segs, a, b);
    assert(views(block@) =~= views(segs@).subrange(a as int, b as int));
    let mut body = lay_out(head.as_str());
    body.append(serialize(&block).as_str());
    body.append(lay_out(tail.as_str()).as_str());
    wrap_in_envelope(body.as_str())
}

/// Renders the document's text as one template and lays the result out
/// anew. Where the evaluation fails the document's own text is laid out.
pub fn render_document_scoped(
    segs: &Vec<Segment>,
    engine: &handlebars::Handlebars<'static>,
    data: &serde_json::Value,
) -> (markup: String)
    ensures
        document_rendering(views(segs@), markup@),
{
    let text = gather_region_text(segs, 0, segs.len());
    let verdict = try_render(engine, text.as_str(), data);
    document_scoped_markup(segs, verdict)
}

/// Renders the text before the table block and the text after it, each as
/// one template, lays both out anew and puts the block's markup between
/// them as it stands. A region whose evaluation fails is laid out from its
/// own text.
pub fn render_hybrid(
    segs: &Vec<Segment>,
    engine: &handlebars::Handlebars<'static>,
    data: &serde_json::Value,
) -> (markup: String)
    ensures
        hybrid_rendering(views(segs@), markup@),
{
    let (a, b) = table_bounds(segs);
    let before = try_render(engine, gather_region_text(segs, 0, a).as_str(), data);
    let after = try_render(engine, gather_region_text(segs, b, segs.len()).as_str(), data);
    hybrid_markup(segs, before, after)
}

} // verus!
