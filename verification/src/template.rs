//! The render pipeline: from the bytes of a document and JSON data to the
//! bytes of the rendered document.

use vstd::prelude::*;
use vstd::slice::slice_to_vec;
use vstd::string::*;
use vstd::utf8::{decode_utf8, encode_utf8, valid_utf8};
use crate::archive::{
    contents, first_unreadable, lemma_first_unreadable, member_views, pack, packed, strict_text,
    unpack, zip_listing, ArchiveMember,
};
use crate::docx::{body_encoding_message, index_of_name, missing_body_message};
use crate::error::DocxHandlebarsError;
use crate::errors::DocxError;
use crate::merge::{lemma_merged_without_marker, merge_segments, merged};
use crate::reconstruct::{
    block_start, document_rendering, first_opening, gather_region_text, has_expression,
    hybrid_rendering, is_text_leaf, lemma_paragraph_end, leaf_text, opened_in, paragraph_end,
    paragraph_rendering, rebuilt_from, region_text, render_document_scoped, render_hybrid,
    render_paragraphs, table_bounds, templates_from, PARAGRAPH_NAME, TABLE_NAME,
};
use crate::segment::{
    lemma_name_end_bounds, lemma_round_trip, lemma_segment_end_bounds, name_end, segment_at,
    segment_end, serialize, serialized, tokenize, tokens, tokens_from, views, well_formed,
    Segment, SegmentSpec,
};
use crate::strategy::{
    choose_strategy, has_block, has_table, strategy_for, RenderStrategy, BLOCK_MARKER,
    EXPRESSION_MARKER, TABLE_MARKER,
};
use crate::text::{contains_text, has_at, occurs_in, to_chars};
use crate::utils::{format_verdict, reports, validate_docx_format, DOCUMENT_PATH};

verus! {

/// The strategy that a document's segments call for: by whether a table
/// opens among them, and whether their text holds a block construct.
pub open spec fn segments_strategy(segs: Seq<SegmentSpec>) -> RenderStrategy {
    strategy_for(
        block_start(segs) < segs.len(),
        has_block(region_text(segs, 0, segs.len() as int)),
    )
}

/// Chooses the strategy that a document's segments call for. The text is
/// looked at as a reader sees it, so a block construct counts also where run
/// boundaries cut through its opening.
pub fn classify_segments(segs: &Vec<Segment>) -> (s: RenderStrategy)
    ensures
        s == segments_strategy(views(segs@)),
{
    let (start, _) = table_bounds(segs);
    let text = gather_region_text(segs, 0, segs.len());
    let block = contains_text(&to_chars(text.as_str()), &to_chars(BLOCK_MARKER));
    choose_strategy(start < segs.len(), block)
}

/// `out` is a rendering of the segments by the strategy that they call for.
pub open spec fn rendering_of(segs: Seq<SegmentSpec>, out: Seq<char>) -> bool {
    match segments_strategy(segs) {
        RenderStrategy::ParagraphScoped => exists|rebuilt: Seq<SegmentSpec>|
            paragraph_rendering(segs, rebuilt) && out == serialized(rebuilt),
        RenderStrategy::DocumentScoped => document_rendering(segs, out),
        RenderStrategy::Hybrid => hybrid_rendering(segs, out),
    }
}

/// `out` is a rendering of the markup `xml`: of its segments, after the
/// span-merge engine has joined what run boundaries split.
pub open spec fn rendered_markup(xml: Seq<char>, out: Seq<char>) -> bool {
    rendering_of(merged(tokens(xml)), out)
}

/// The segments hold no template expression: no literal holds `{{`, no
/// paragraph's text does, and the text of the whole does not.
pub open spec fn without_expression(segs: Seq<SegmentSpec>) -> bool {
    &&& forall|k: int|
        0 <= k < segs.len() ==> (#[trigger] segs[k] matches SegmentSpec::Literal { text }
            ==> !occurs_in(text, EXPRESSION_MARKER@))
    &&& templates_from(segs, 0).len() == 0
    &&& !has_expression(region_text(segs, 0, segs.len() as int))
}

/// The markup holds no template expression and no table.
pub open spec fn plain_markup(xml: Seq<char>) -> bool {
    without_expression(tokens(xml)) && block_start(tokens(xml)) == tokens(xml).len()
}

/// A text that holds a block construct holds a template expression.
pub proof fn lemma_block_is_expression(text: Seq<char>)
    requires
        has_block(text),
    ensures
        has_expression(text),
{
    reveal_strlit("{{#");
    reveal_strlit("{{");
    let i = choose|i: int| has_at(text, i, BLOCK_MARKER@);
    assert(text.subrange(i, i + 2) =~= text.subrange(i, i + 3).subrange(0, 2));
    assert(text.subrange(i, i + 3).subrange(0, 2) =~= EXPRESSION_MARKER@);
    assert(has_at(text, i, EXPRESSION_MARKER@));
}

/// Where no paragraph holds a template expression, paragraph-scoped
/// rendering leaves every segment as it is, whatever the evaluator gives.
pub proof fn lemma_rebuilt_without_templates(
    segs: Seq<SegmentSpec>,
    i: int,
    verdicts: Seq<Option<Seq<char>>>,
)
    requires
        0 <= i <= segs.len(),
        templates_from(segs, i).len() == 0,
    ensures
        rebuilt_from(segs, i, verdicts) == segs.subrange(i, segs.len() as int),
    decreases segs.len() - i,
{
    if i < segs.len() {
        if segs[i].opens(PARAGRAPH_NAME@) {
            lemma_paragraph_end(segs, i + 1);
            let e = paragraph_end(segs, i + 1);
            assert(!has_expression(leaf_text(segs, i, e)));
            lemma_rebuilt_without_templates(segs, e, verdicts);
            assert(segs.subrange(i, e) + segs.subrange(e, segs.len() as int) =~= segs.subrange(
                i,
                segs.len() as int,
            ));
        } else {
            lemma_rebuilt_without_templates(segs, i + 1, verdicts);
            assert(seq![segs[i]] + segs.subrange(i + 1, segs.len() as int) =~= segs.subrange(
                i,
                segs.len() as int,
            ));
        }
    } else {
        assert(segs.subrange(i, segs.len() as int) =~= Seq::<SegmentSpec>::empty());
    }
}

/// Markup without a template expression and without a table is rendered to
/// itself, whatever the data and whatever the evaluator gives.
pub proof fn lemma_plain_markup_unchanged(xml: Seq<char>, out: Seq<char>)
    requires
        plain_markup(xml),
        rendered_markup(xml, out),
    ensures
        out == xml,
{
    let segs = tokens(xml);
    lemma_merged_without_marker(segs);
    if has_block(region_text(segs, 0, segs.len() as int)) {
        lemma_block_is_expression(region_text(segs, 0, segs.len() as int));
    }
    assert(segments_strategy(segs) == RenderStrategy::ParagraphScoped);
    let rebuilt = choose|rebuilt: Seq<SegmentSpec>|
        paragraph_rendering(segs, rebuilt) && out == serialized(rebuilt);
    let verdicts = choose|verdicts: Seq<Option<Seq<char>>>|
        verdicts.len() == templates_from(segs, 0).len() && rebuilt == rebuilt_from(
            segs,
            0,
            verdicts,
        );
    lemma_rebuilt_without_templates(segs, 0, verdicts);
    assert(segs.subrange(0, segs.len() as int) =~= segs);
    lemma_round_trip(xml);
}

/// No literal among the segments holds a `{`.
pub open spec fn braceless(segs: Seq<SegmentSpec>) -> bool {
    forall|j: int, k: int|
        0 <= j < segs.len() && 0 <= k < segs[j].raw_text().len() && segs[j] is Literal
            ==> #[trigger] segs[j].raw_text()[k] != '{'
}

/// A text without `{` holds no template expression.
pub proof fn lemma_braceless_text(text: Seq<char>)
    requires
        forall|k: int| 0 <= k < text.len() ==> text[k] != '{',
    ensures
        !has_expression(text),
{
    reveal_strlit("{{");
    if has_expression(text) {
        let i = choose|i: int| has_at(text, i, EXPRESSION_MARKER@);
        assert(text.subrange(i, i + 2)[0] == text[i]);
    }
}

/// The literals of a text without `{` hold no `{`.
pub proof fn lemma_tokens_braceless(xml: Seq<char>, i: int)
    requires
        0 <= i <= xml.len(),
        forall|k: int| 0 <= k < xml.len() ==> xml[k] != '{',
    ensures
        braceless(tokens_from(xml, i)),
    decreases xml.len() - i,
{
    if i < xml.len() {
        lemma_segment_end_bounds(xml, i);
        let e = segment_end(xml, i);
        let first = segment_at(xml, i, e);
        let rest = tokens_from(xml, e);
        let all = tokens_from(xml, i);
        lemma_tokens_braceless(xml, e);
        assert(all =~= seq![first] + rest);
        assert forall|j: int, k: int|
            0 <= j < all.len() && 0 <= k < all[j].raw_text().len() && all[j] is Literal implies #[trigger] all[j].raw_text()[k]
            != '{' by {
            if j == 0 {
                assert(all[0] == first);
                assert(first.raw_text()[k] == xml[i + k]);
            } else {
                assert(all[j] == rest[j - 1]);
            }
        }
    }
}

/// The text of the leaves of braceless segments holds no `{`.
pub proof fn lemma_leaf_text_braceless(segs: Seq<SegmentSpec>, from: int, to: int)
    requires
        braceless(segs),
        0 <= from,
        to <= segs.len(),
    ensures
        forall|k: int|
            0 <= k < leaf_text(segs, from, to).len() ==> leaf_text(segs, from, to)[k] != '{',
    decreases to - from,
{
    if from < to {
        lemma_leaf_text_braceless(segs, from, to - 1);
        let before = leaf_text(segs, from, to - 1);
        if is_text_leaf(segs, to - 1) {
            let piece = segs[to - 1].raw_text();
            assert forall|k: int| 0 <= k < (before + piece).len() implies (before + piece)[k]
                != '{' by {
                if k >= before.len() {
                    assert((before + piece)[k] == piece[k - before.len()]);
                }
            }
        }
    }
}

/// The text of a region of braceless segments holds no `{`.
pub proof fn lemma_region_text_braceless(segs: Seq<SegmentSpec>, from: int, n: int)
    requires
        braceless(segs),
        0 <= from,
        n <= segs.len(),
    ensures
        forall|k: int|
            0 <= k < region_text(segs, from, n).len() ==> region_text(segs, from, n)[k] != '{',
    decreases n - from,
{
    if from < n {
        lemma_region_text_braceless(segs, from, n - 1);
        let before = region_text(segs, from, n - 1);
        if !(segs[n - 1].opens(PARAGRAPH_NAME@) && opened_in(segs, from, n - 1)) && is_text_leaf(
            segs,
            n - 1,
        ) {
            let piece = segs[n - 1].raw_text();
            assert forall|k: int| 0 <= k < (before + piece).len() implies (before + piece)[k]
                != '{' by {
                if k >= before.len() {
                    assert((before + piece)[k] == piece[k - before.len()]);
                }
            }
        }
    }
}

/// No paragraph of braceless segments is handed to the evaluator.
pub proof fn lemma_templates_braceless(segs: Seq<SegmentSpec>, i: int)
    requires
        braceless(segs),
        0 <= i <= segs.len(),
    ensures
        templates_from(segs, i).len() == 0,
    decreases segs.len() - i,
{
    if i < segs.len() {
        if segs[i].opens(PARAGRAPH_NAME@) {
            lemma_paragraph_end(segs, i + 1);
            let e = paragraph_end(segs, i + 1);
            lemma_leaf_text_braceless(segs, i, e);
            lemma_braceless_text(leaf_text(segs, i, e));
            lemma_templates_braceless(segs, e);
        } else {
            lemma_templates_braceless(segs, i + 1);
        }
    }
}

/// Where the markup holds no table marker, no segment opens a table.
pub proof fn lemma_tokens_without_table(xml: Seq<char>, i: int)
    requires
        0 <= i <= xml.len(),
        !has_table(xml),
    ensures
        forall|j: int|
            0 <= j < tokens_from(xml, i).len() ==> !(#[trigger] tokens_from(xml, i)[j]).opens(
                TABLE_NAME@,
            ),
    decreases xml.len() - i,
{
    if i < xml.len() {
        lemma_segment_end_bounds(xml, i);
        let e = segment_end(xml, i);
        let first = segment_at(xml, i, e);
        let rest = tokens_from(xml, e);
        let all = tokens_from(xml, i);
        lemma_tokens_without_table(xml, e);
        assert(all =~= seq![first] + rest);
        assert forall|j: int| 0 <= j < all.len() implies !(#[trigger] all[j]).opens(
            TABLE_NAME@,
        ) by {
            if j == 0 {
                assert(all[0] == first);
                if first.opens(TABLE_NAME@) {
                    reveal_strlit("w:tbl");
                    reveal_strlit("<w:tbl");
                    let raw = xml.subrange(i, e);
                    lemma_name_end_bounds(raw, 1);
                    let name = raw.subrange(1, name_end(raw, 1));
                    assert(name == TABLE_NAME@);
                    assert forall|k: int| 0 <= k < 6 implies xml.subrange(i, i + 6)[k]
                        == TABLE_MARKER@[k] by {
                        if k > 0 {
                            assert(name[k - 1] == raw[k]);
                        }
                    }
                    assert(xml.subrange(i, i + 6) =~= TABLE_MARKER@);
                    assert(has_at(xml, i, TABLE_MARKER@));
                }
            } else {
                assert(all[j] == rest[j - 1]);
            }
        }
    }
}

/// Where no segment opens a table, the table block starts at the end.
pub proof fn lemma_no_table_block(segs: Seq<SegmentSpec>, i: int)
    requires
        0 <= i <= segs.len(),
        forall|j: int| 0 <= j < segs.len() ==> !(#[trigger] segs[j]).opens(TABLE_NAME@),
    ensures
        first_opening(segs, TABLE_NAME@, i) == segs.len(),
    decreases segs.len() - i,
{
    if i < segs.len() {
        lemma_no_table_block(segs, i + 1);
    }
}

/// Markup that holds no `{` and no table marker is plain: it holds no
/// template expression, in no literal, paragraph or text, and no table.
pub proof fn lemma_braceless_markup_is_plain(xml: Seq<char>)
    requires
        forall|k: int| 0 <= k < xml.len() ==> xml[k] != '{',
        !has_table(xml),
    ensures
        plain_markup(xml),
{
    let segs = tokens(xml);
    lemma_tokens_braceless(xml, 0);
    lemma_templates_braceless(segs, 0);
    lemma_region_text_braceless(segs, 0, segs.len() as int);
    lemma_braceless_text(region_text(segs, 0, segs.len() as int));
    assert forall|k: int| 0 <= k < segs.len() implies (#[trigger] segs[k] matches SegmentSpec::Literal {
        text,
    } ==> !occurs_in(text, EXPRESSION_MARKER@)) by {
        if segs[k] is Literal {
            let text = segs[k].raw_text();
            assert forall|m: int| 0 <= m < text.len() implies text[m] != '{' by {
                assert(segs[k].raw_text()[m] != '{');
            }
            lemma_braceless_text(text);
        }
    }
    lemma_tokens_without_table(xml, 0);
    lemma_no_table_block(segs, 0);
}

/// Renders the markup of a document body: tokenizes it, joins the template
/// expressions that run boundaries split, picks the strategy that the
/// segments call for and reconstructs the body by it.
///
/// Malformed markup is an `Xml` error. A failing template is none: the
/// region that holds it keeps its text. Markup without a template
/// expression and without a table comes back as it is.
pub fn process_xml(
    content: &str,
    engine: &handlebars::Handlebars<'static>,
    data: &serde_json::Value,
) -> (r: std::result::Result<String, DocxHandlebarsError>)
    ensures
        r is Ok <==> well_formed(content@),
        r matches Ok(out) ==> rendered_markup(content@, out@),
        r matches Ok(out) ==> (plain_markup(content@) ==> out@ == content@),
        r matches Err(e) ==> e is Xml,
{
    let segs = match tokenize(content) {
        Ok(segs) => segs,
        Err(e) => {
            return Err(e);
        },
    };
    let joined = merge_segments(&segs);
    let out = match classify_segments(&joined) {
        RenderStrategy::ParagraphScoped => {
            let rebuilt = render_paragraphs(&joined, engine, data);
            serialize(&rebuilt)
        },
        RenderStrategy::DocumentScoped => render_document_scoped(&joined, engine, data),
        RenderStrategy::Hybrid => render_hybrid(&joined, engine, data),
    };
    proof {
        if plain_markup(content@) {
            lemma_plain_markup_unchanged(content@, out@);
        }
    }
    Ok(out)
}

/// The members with the body at position `k` replaced: as many, under the
/// same paths, every other member with the bytes it had.
pub open spec fn body_replaced(
    members: Seq<(Seq<char>, Seq<u8>)>,
    out: Seq<(Seq<char>, Seq<u8>)>,
    k: int,
    body: Seq<u8>,
) -> bool {
    &&& out.len() == members.len()
    &&& forall|j: int| 0 <= j < members.len() ==> (#[trigger] out[j]).0 == members[j].0
    &&& forall|j: int| 0 <= j < members.len() && j != k ==> (#[trigger] out[j]).1 == members[j].1
    &&& 0 <= k < members.len() ==> out[k].1 == body
}

/// Copies the members of a document and gives the member at position `k`
/// the new body.
pub fn replace_body(members: &Vec<ArchiveMember>, k: usize, body: &str) -> (out: Vec<
    ArchiveMember,
>)
    ensures
        body_replaced(member_views(members@), member_views(out@), k as int, body.spec_bytes()),
{
    let mut out: Vec<ArchiveMember> = Vec::new();
    let mut j: usize = 0;
    while j < members.len()
        invariant
            j <= members.len(),
            out.len() == j,
            forall|i: int| 0 <= i < j ==> (#[trigger] out@[i]).name@ == members@[i].name@,
            forall|i: int| 0 <= i < j && i != k ==> (#[trigger] out@[i]).data@ == members@[i].data@,
            k < j ==> out@[k as int].data@ == body.spec_bytes(),
        decreases members.len() - j,
    {
        let data = if j == k {
            slice_to_vec(body.as_bytes())
        } else {
            slice_to_vec(members[j].data.as_slice())
        };
        out.push(ArchiveMember { name: members[j].name.clone(), data });
        j += 1;
    }
    out
}

/// The position of the first member at the document path.
fn find_body(members: &Vec<ArchiveMember>) -> (k: usize)
    ensures
        k == index_of_name(member_views(members@), DOCUMENT_PATH@, 0),
        k <= members.len(),
{
    let ghost all = member_views(members@);
    let mut k: usize = 0;
    while k < members.len()
        invariant
            k <= members.len(),
            all == member_views(members@),
            index_of_name(all, DOCUMENT_PATH@, 0) == index_of_name(all, DOCUMENT_PATH@, k as int),
        decreases members.len() - k,
    {
        assert(all[k as int] == members@[k as int]@);
        if members[k].name == String::from_str(DOCUMENT_PATH) {
            return k;
        }
        k += 1;
    }
    k
}

/// Renders the body among the members of a document.
///
/// Fails with `DocumentFormat` where no member is at the document path,
/// with `Utf8` where the body is not UTF-8, with `Xml` where its markup is
/// malformed. Otherwise every member is there again under its path, every
/// member but the body with the bytes it had, and the body is a rendering
/// of what it was.
pub fn render_members(
    members: &Vec<ArchiveMember>,
    engine: &handlebars::Handlebars<'static>,
    data: &serde_json::Value,
) -> (r: std::result::Result<Vec<ArchiveMember>, DocxHandlebarsError>)
    ensures
        ({
            let all = member_views(members@);
            let k = index_of_name(all, DOCUMENT_PATH@, 0);
            if k >= all.len() {
                r matches Err(DocxHandlebarsError::DocumentFormat(d)) && d@
                    == missing_body_message()
            } else if !valid_utf8(all[k].1) {
                r matches Err(DocxHandlebarsError::Utf8(d)) && d@ == body_encoding_message()
            } else if !well_formed(decode_utf8(all[k].1)) {
                r matches Err(DocxHandlebarsError::Xml(_))
            } else {
                r matches Ok(out) && exists|body: Seq<char>|
                    rendered_markup(decode_utf8(all[k].1), body) && body_replaced(
                        all,
                        member_views(out@),
                        k,
                        encode_utf8(body),
                    )
            }
        }),
{
    let k = find_body(members);
    if k >= members.len() {
        return Err(DocxHandlebarsError::document_format("无法找到 word/document.xml 文件"));
    }
    assert(member_views(members@)[k as int] == members@[k as int]@);
    let text = match strict_text(slice_to_vec(members[k].data.as_slice())) {
        Some(text) => text,
        None => {
            return Err(
                DocxHandlebarsError::Utf8(String::from_str("word/document.xml is not valid UTF-8")),
            );
        },
    };
    let body = match process_xml(text.as_str(), engine, data) {
        Ok(body) => body,
        Err(e) => {
            return Err(e);
        },
    };
    let out = replace_body(members, k, body.as_str());
    assert(rendered_markup(decode_utf8(member_views(members@)[k as int].1), body@)
        && body_replaced(
        member_views(members@),
        member_views(out@),
        k as int,
        encode_utf8(body@),
    ));
    Ok(out)
}

/// What stops the rendering of the body among the members.
pub enum RenderFault {
    /// No member is at the document path.
    Body,
    /// The body is not UTF-8.
    Encoding,
    /// The body's markup is malformed.
    Markup,
}

/// What stops the rendering of the body among the members, if anything.
pub open spec fn members_fault(all: Seq<(Seq<char>, Seq<u8>)>) -> Option<RenderFault> {
    let k = index_of_name(all, DOCUMENT_PATH@, 0);
    if k >= all.len() {
        Some(RenderFault::Body)
    } else if !valid_utf8(all[k].1) {
        Some(RenderFault::Encoding)
    } else if !well_formed(decode_utf8(all[k].1)) {
        Some(RenderFault::Markup)
    } else {
        None
    }
}

/// The error that stands for a fault.
pub open spec fn reports_fault(e: DocxHandlebarsError, fault: RenderFault) -> bool {
    match fault {
        RenderFault::Body => e matches DocxHandlebarsError::DocumentFormat(d) && d@
            == missing_body_message(),
        RenderFault::Encoding => e matches DocxHandlebarsError::Utf8(d) && d@
            == body_encoding_message(),
        RenderFault::Markup => e is Xml,
    }
}

/// Why a document could not be rendered: the validation refused the
/// container, or a later step failed.
#[derive(Debug, Clone, PartialEq, Eq)]
pub enum RenderError {
    /// The validation's own error.
    Validation(DocxError),
    /// The error of unpacking, rendering or packing.
    Document(DocxHandlebarsError),
}

impl RenderError {
    /// The text shown to a user: that of the error it holds.
    pub open spec fn message(&self) -> Seq<char> {
        match self {
            RenderError::Validation(e) => e.message(),
            RenderError::Document(e) => e.message(),
        }
    }

    /// Renders the error as the text shown to a user.
    pub fn to_string(&self) -> (s: String)
        ensures
            s@ == self.message(),
    {
        match self {
            RenderError::Validation(e) => e.to_string(),
            RenderError::Document(e) => e.to_string(),
        }
    }
}

/// The compression level of the members of a rendered document.
pub const OUTPUT_LEVEL: i64 = 6;

/// The result of the steps after validation, where the validation passed.
pub open spec fn document_result(r: std::result::Result<Vec<u8>, RenderError>) -> Option<
    std::result::Result<Vec<u8>, DocxHandlebarsError>,
> {
    match r {
        Ok(bytes) => Some(Ok(bytes)),
        Err(RenderError::Document(e)) => Some(Err(e)),
        Err(RenderError::Validation(_)) => None,
    }
}

/// `r` is what rendering the document in `bytes` returns.
///
/// Bytes that the validation refuses give the validation's error. A member
/// that cannot be read gives `Zip` (it does not open) or `Io`. A missing
/// body gives `DocumentFormat`, a body that is not UTF-8 `Utf8`, malformed
/// body markup `Xml`. Otherwise the body is rendered, and `r` is what
/// packing gives for the members with the rendering in the body's place
/// and every other member as it was, each deflated at [`OUTPUT_LEVEL`]: it
/// succeeds exactly where the archive writer takes in every member and
/// finishes.
pub open spec fn render_outcome(bytes: Seq<u8>, r: std::result::Result<Vec<u8>, RenderError>) -> bool {
    if !(format_verdict(bytes) is Valid) {
        r matches Err(RenderError::Validation(e)) && reports(
            Err::<(), DocxError>(e),
            format_verdict(bytes),
        )
    } else {
        &&& zip_listing(bytes) matches Some(listing)
        &&& document_result(r) matches Some(inner)
        &&& {
            let k = first_unreadable(listing, 0);
            let all = contents(listing, listing.len() as int);
            if k < listing.len() {
                if listing[k].1 is None {
                    inner matches Err(DocxHandlebarsError::Zip(_))
                } else {
                    inner matches Err(DocxHandlebarsError::Io(_))
                }
            } else {
                match members_fault(all) {
                    Some(fault) => inner matches Err(e) && reports_fault(e, fault),
                    None => exists|body: Seq<char>, members: Seq<(Seq<char>, Seq<u8>)>|
                        {
                            &&& rendered_markup(
                                decode_utf8(all[index_of_name(all, DOCUMENT_PATH@, 0)].1),
                                body,
                            )
                            &&& body_replaced(
                                all,
                                members,
                                index_of_name(all, DOCUMENT_PATH@, 0),
                                encode_utf8(body),
                            )
                            &&& packed(members, Some(OUTPUT_LEVEL), inner)
                        },
                }
            }
        }
    }
}

/// Renders a document: validates the container, unpacks it, renders its
/// body against the data, and packs every member again, as
/// [`render_outcome`] describes.
pub fn render_handlebars(
    zip_bytes: Vec<u8>,
    engine: &handlebars::Handlebars<'static>,
    data: &serde_json::Value,
) -> (r: std::result::Result<Vec<u8>, RenderError>)
    ensures
        render_outcome(zip_bytes@, r),
{
    match validate_docx_format(zip_bytes.as_slice()) {
        Ok(()) => {},
        Err(e) => {
            return Err(RenderError::Validation(e));
        },
    }
    let ghost listing = zip_listing(zip_bytes@)->0;
    let ghost all = contents(listing, listing.len() as int);
    proof {
        lemma_first_unreadable(listing, 0);
    }
    let members = match unpack(zip_bytes) {
        Ok(members) => members,
        Err(e) => {
            return Err(RenderError::Document(e));
        },
    };
    let rendered = match render_members(&members, engine, data) {
        Ok(rendered) => rendered,
        Err(e) => {
            return Err(RenderError::Document(e));
        },
    };
    let packing = pack(&rendered, Some(OUTPUT_LEVEL));
    proof {
        let k = index_of_name(all, DOCUMENT_PATH@, 0);
        let body = choose|body: Seq<char>|
            rendered_markup(decode_utf8(all[k].1), body) && body_replaced(
                all,
                member_views(rendered@),
                k,
                encode_utf8(body),
            );
        assert(rendered_markup(decode_utf8(all[k].1), body) && body_replaced(
            all,
            member_views(rendered@),
            k,
            encode_utf8(body),
        ) && packed(member_views(rendered@), Some(OUTPUT_LEVEL), packing));
    }
    match packing {
        Ok(bytes) => Ok(bytes),
        Err(e) => Err(RenderError::Document(e)),
    }
}

} // verus!
