//! Container validation, entity unescaping and the text-to-text form of the
//! span-merge engine.

use vstd::prelude::*;
use vstd::string::*;
use vstd::slice::slice_to_vec;
use crate::archive::{
    has_member, member_text, open_archive, opens_member, text_of_member, zip_listing,
    MemberListing,
};
use crate::error::DocxHandlebarsError;
use crate::errors::DocxError;
use crate::evaluator::{evaluate, rendered_or_error};
use crate::merge::{merge_segments, merged};
use crate::segment::{
    serialize, serialized, tags_closed, tokenize, tokens, unbalanced_message,
    unclosed_tag_message, well_formed,
};
use crate::text::{contains_text, from_chars, has_at, matches_at, occurs_in, to_chars};

verus! {

/// The path of the content-type manifest.
pub const CONTENT_TYPES_PATH: &'static str = "[Content_Types].xml";

/// The path of the root relationship descriptor.
pub const RELATIONSHIPS_PATH: &'static str = "_rels/.rels";

/// The path of the document body.
pub const DOCUMENT_PATH: &'static str = "word/document.xml";

/// The content type that the manifest of a word-processing document names.
pub const DOCUMENT_CONTENT_TYPE: &'static str =
    "application/vnd.openxmlformats-officedocument.wordprocessingml.document.main+xml";

/// What the validation finds in a byte sequence.
pub enum FormatVerdict {
    /// A word-processing document.
    Valid,
    /// Fewer than 22 bytes.
    TooSmall,
    /// The first four bytes are no ZIP signature.
    BadSignature,
    /// The archive reader refuses the bytes.
    Unreadable,
    /// The member of this path is absent or cannot be opened.
    Missing(Seq<char>),
    /// The manifest does not name the document content type.
    NotADocument,
}

/// The bytes begin with `PK` and one of the three ZIP record marks: a local
/// file header, the end of the central directory, or a data descriptor.
pub open spec fn has_zip_signature(bytes: Seq<u8>) -> bool {
    &&& bytes.len() >= 4
    &&& bytes[0] == 0x50
    &&& bytes[1] == 0x4b
    &&& ((bytes[2] == 0x03 && bytes[3] == 0x04) || (bytes[2] == 0x05 && bytes[3] == 0x06) || (
    bytes[2] == 0x07 && bytes[3] == 0x08))
}

/// What the validation finds in an archive with this listing: the three
/// mandatory members are looked for in a fixed order, then the manifest is
/// read as text and must name the document content type.
pub open spec fn structure_verdict(listing: Option<Seq<MemberListing>>) -> FormatVerdict {
    match listing {
        None => FormatVerdict::Unreadable,
        Some(members) => {
            if !opens_member(members, CONTENT_TYPES_PATH@) {
                FormatVerdict::Missing(CONTENT_TYPES_PATH@)
            } else if !opens_member(members, RELATIONSHIPS_PATH@) {
                FormatVerdict::Missing(RELATIONSHIPS_PATH@)
            } else if !opens_member(members, DOCUMENT_PATH@) {
                FormatVerdict::Missing(DOCUMENT_PATH@)
            } else {
                match text_of_member(members, CONTENT_TYPES_PATH@) {
                    Some(manifest) => if occurs_in(manifest, DOCUMENT_CONTENT_TYPE@) {
                        FormatVerdict::Valid
                    } else {
                        FormatVerdict::NotADocument
                    },
                    None => FormatVerdict::NotADocument,
                }
            }
        },
    }
}

/// What the validation finds in `bytes`.
pub open spec fn format_verdict(bytes: Seq<u8>) -> FormatVerdict {
    if bytes.len() < 22 {
        FormatVerdict::TooSmall
    } else if !has_zip_signature(bytes) {
        FormatVerdict::BadSignature
    } else {
        structure_verdict(zip_listing(bytes))
    }
}

/// `r` is what the validation returns on a finding: `Ok` for a valid
/// document, and for each other finding its own error.
pub open spec fn reports(r: std::result::Result<(), DocxError>, verdict: FormatVerdict) -> bool {
    match verdict {
        FormatVerdict::Valid => r is Ok,
        FormatVerdict::TooSmall => r matches Err(DocxError::FileTooSmall),
        FormatVerdict::BadSignature => r matches Err(DocxError::InvalidZipSignature),
        FormatVerdict::Unreadable => r matches Err(DocxError::ZipReadError(detail)) && has_at(
            detail@,
            0,
            "无法读取 ZIP 文件: "@,
        ),
        FormatVerdict::Missing(path) => r matches Err(DocxError::MissingRequiredFile(name))
            && name@ == path,
        FormatVerdict::NotADocument => r matches Err(DocxError::InvalidZipFormat),
    }
}

/// Checks that the archive holds the members of a word-processing document.
fn validate_docx_structure(file_data: &[u8]) -> (r: std::result::Result<(), DocxError>)
    ensures
        reports(r, structure_verdict(zip_listing(file_data@))),
{
    let mut archive = match open_archive(slice_to_vec(file_data)) {
        Ok(archive) => archive,
        Err(detail) => {
            let prefix = String::from_str("无法读取 ZIP 文件: ");
            let text = prefix.concat(detail.as_str());
            assert(text@.subrange(0, "无法读取 ZIP 文件: "@.len() as int) =~= "无法读取 ZIP 文件: "@);
            return Err(DocxError::ZipReadError(text));
        },
    };
    if !has_member(&mut archive, CONTENT_TYPES_PATH) {
        return Err(DocxError::MissingRequiredFile(String::from_str(CONTENT_TYPES_PATH)));
    }
    if !has_member(&mut archive, RELATIONSHIPS_PATH) {
        return Err(DocxError::MissingRequiredFile(String::from_str(RELATIONSHIPS_PATH)));
    }
    if !has_member(&mut archive, DOCUMENT_PATH) {
        return Err(DocxError::MissingRequiredFile(String::from_str(DOCUMENT_PATH)));
    }
    match member_text(&mut archive, CONTENT_TYPES_PATH) {
        Some(manifest) => {
            let found = contains_text(
                &to_chars(manifest.as_str()),
                &to_chars(DOCUMENT_CONTENT_TYPE),
            );
            if !found {
                return Err(DocxError::InvalidZipFormat);
            }
        },
        None => {
            return Err(DocxError::InvalidZipFormat);
        },
    }
    Ok(())
}

/// Checks that the bytes are a DOCX container: at least 22 bytes, a ZIP
/// signature, an archive that opens, the three mandatory members, and a
/// manifest that names the document content type.
pub fn validate_docx_format(file_data: &[u8]) -> (r: std::result::Result<(), DocxError>)
    ensures
        reports(r, format_verdict(file_data@)),
{
    if file_data.len() < 22 {
        return Err(DocxError::FileTooSmall);
    }
    let marked = file_data[0] == 0x50 && file_data[1] == 0x4b && ((file_data[2] == 0x03
        && file_data[3] == 0x04) || (file_data[2] == 0x05 && file_data[3] == 0x06) || (
    file_data[2] == 0x07 && file_data[3] == 0x08));
    if !marked {
        return Err(DocxError::InvalidZipSignature);
    }
    validate_docx_structure(file_data)
}

/// The character that the entity at position `i` stands for, and the
/// entity's length; `None` where none of the five predefined XML entities
/// stands there.
pub open spec fn entity_at(s: Seq<char>, i: int) -> Option<(char, int)> {
    if has_at(s, i, "&lt;"@) {
        Some(('<', 4))
    } else if has_at(s, i, "&gt;"@) {
        Some(('>', 4))
    } else if has_at(s, i, "&amp;"@) {
        Some(('&', 5))
    } else if has_at(s, i, "&quot;"@) {
        Some(('"', 6))
    } else if has_at(s, i, "&apos;"@) {
        Some(('\'', 6))
    } else {
        None
    }
}

/// `s` from position `i` on, unescaped in one pass from left to right.
pub open spec fn unescaped_from(s: Seq<char>, i: int) -> Seq<char>
    decreases s.len() - i,
{
    if i < 0 || i >= s.len() {
        Seq::empty()
    } else {
        match entity_at(s, i) {
            Some((c, n)) => if 0 < n && i + n <= s.len() {
                seq![c] + unescaped_from(s, i + n)
            } else {
                Seq::empty()
            },
            None => seq![s[i]] + unescaped_from(s, i + 1),
        }
    }
}

/// `s` with each of the five predefined XML entities turned into the
/// character it stands for: `&lt;`, `&gt;`, `&amp;`, `&quot;`, `&apos;`.
/// One level of escaping is removed: what an entity gives is not read again.
pub open spec fn unescaped(s: Seq<char>) -> Seq<char> {
    unescaped_from(s, 0)
}

/// One character as it stands in escaped text: the five markup characters
/// as their entities, every other as itself.
pub open spec fn escaped_char(c: char) -> Seq<char> {
    if c == '<' {
        "&lt;"@
    } else if c == '>' {
        "&gt;"@
    } else if c == '&' {
        "&amp;"@
    } else if c == '"' {
        "&quot;"@
    } else if c == '\'' {
        "&apos;"@
    } else {
        seq![c]
    }
}

/// A text with its markup characters escaped.
pub open spec fn escaped(text: Seq<char>) -> Seq<char>
    decreases text.len(),
{
    if text.len() == 0 {
        Seq::empty()
    } else {
        escaped(text.drop_last()) + escaped_char(text.last())
    }
}

/// An entity begins with `&`: where another character stands, no entity
/// does.
pub proof fn lemma_no_entity(s: Seq<char>, i: int)
    requires
        0 <= i < s.len(),
        s[i] != '&',
    ensures
        entity_at(s, i) is None,
{
    reveal_strlit("&lt;");
    reveal_strlit("&gt;");
    reveal_strlit("&amp;");
    reveal_strlit("&quot;");
    reveal_strlit("&apos;");
    if has_at(s, i, "&lt;"@) {
        assert(s.subrange(i, i + 4)[0] == s[i]);
    }
    if has_at(s, i, "&gt;"@) {
        assert(s.subrange(i, i + 4)[0] == s[i]);
    }
    if has_at(s, i, "&amp;"@) {
        assert(s.subrange(i, i + 5)[0] == s[i]);
    }
    if has_at(s, i, "&quot;"@) {
        assert(s.subrange(i, i + 6)[0] == s[i]);
    }
    if has_at(s, i, "&apos;"@) {
        assert(s.subrange(i, i + 6)[0] == s[i]);
    }
}

/// Where an entity stands, it lies inside the text.
pub proof fn lemma_entity_bounds(s: Seq<char>, i: int)
    ensures
        entity_at(s, i) matches Some((c, n)) ==> 0 < n && 0 <= i && i + n <= s.len(),
{
    reveal_strlit("&lt;");
    reveal_strlit("&gt;");
    reveal_strlit("&amp;");
    reveal_strlit("&quot;");
    reveal_strlit("&apos;");
}

/// Escaping two texts in a row is escaping each.
pub proof fn lemma_escaped_concat(a: Seq<char>, b: Seq<char>)
    ensures
        escaped(a + b) == escaped(a) + escaped(b),
    decreases b.len(),
{
    if b.len() == 0 {
        assert(a + b =~= a);
        assert(escaped(a) + escaped(b) =~= escaped(a));
    } else {
        assert((a + b).drop_last() =~= a + b.drop_last());
        assert((a + b).last() == b.last());
        lemma_escaped_concat(a, b.drop_last());
        assert(escaped(a + b) =~= escaped(a) + escaped(b));
    }
}

/// Text put in front moves what is unescaped by its length and leaves it as
/// it is.
pub proof fn lemma_unescaped_shift(a: Seq<char>, b: Seq<char>, i: int)
    requires
        0 <= i <= b.len(),
    ensures
        unescaped_from(a + b, a.len() + i) == unescaped_from(b, i),
    decreases b.len() - i,
{
    let s = a + b;
    let n = a.len() as int;
    if i < b.len() {
        assert(s[n + i] == b[i]);
        assert forall|pat: Seq<char>| has_at(s, n + i, pat) == has_at(b, i, pat) by {
            if n + i + pat.len() <= s.len() {
                assert(s.subrange(n + i, n + i + pat.len()) =~= b.subrange(i, i + pat.len()));
            }
        }
        assert(entity_at(s, n + i) == entity_at(b, i));
        lemma_entity_bounds(b, i);
        match entity_at(b, i) {
            Some((c, k)) => {
                lemma_unescaped_shift(a, b, i + k);
            },
            None => {
                lemma_unescaped_shift(a, b, i + 1);
            },
        }
    }
}

/// Unescaping undoes escaping: whatever text is escaped, unescaping gives it
/// back.
pub proof fn lemma_unescape_inverts_escape(text: Seq<char>)
    ensures
        unescaped(escaped(text)) == text,
    decreases text.len(),
{
    if text.len() > 0 {
        let c = text[0];
        let rest = text.drop_first();
        let head = escaped_char(c);
        let tail = escaped(rest);
        let e = head + tail;
        assert(seq![c] + rest =~= text);
        lemma_escaped_concat(seq![c], rest);
        assert(seq![c].drop_last() =~= Seq::<char>::empty());
        assert(escaped(seq![c].drop_last()) =~= Seq::<char>::empty());
        assert(escaped(seq![c]) =~= head);
        assert(escaped(text) == e);
        lemma_unescape_inverts_escape(rest);
        lemma_unescaped_shift(head, tail, 0);
        reveal_strlit("&lt;");
        reveal_strlit("&gt;");
        reveal_strlit("&amp;");
        reveal_strlit("&quot;");
        reveal_strlit("&apos;");
        assert(e[0] == head[0]);
        assert forall|pat: Seq<char>| pat.len() <= head.len() implies has_at(e, 0, pat) == (
        head.subrange(0, pat.len() as int) == pat) by {
            assert(e.subrange(0, pat.len() as int) =~= head.subrange(0, pat.len() as int));
        }
        if c == '<' {
            assert(head.subrange(0, 4) =~= "&lt;"@);
            assert(entity_at(e, 0) == Some(('<', 4int)));
        } else if c == '>' {
            assert(head.subrange(0, 4) =~= "&gt;"@);
            assert(head.subrange(0, 4)[1] != "&lt;"@[1]);
            assert(entity_at(e, 0) == Some(('>', 4int)));
        } else if c == '&' {
            assert(head.subrange(0, 5) =~= "&amp;"@);
            assert(head.subrange(0, 4)[1] != "&lt;"@[1]);
            assert(head.subrange(0, 4)[1] != "&gt;"@[1]);
            assert(entity_at(e, 0) == Some(('&', 5int)));
        } else if c == '"' {
            assert(head.subrange(0, 6) =~= "&quot;"@);
            assert(head.subrange(0, 4)[1] != "&lt;"@[1]);
            assert(head.subrange(0, 4)[1] != "&gt;"@[1]);
            assert(head.subrange(0, 5)[1] != "&amp;"@[1]);
            assert(entity_at(e, 0) == Some(('"', 6int)));
        } else if c == '\'' {
            assert(head.subrange(0, 6) =~= "&apos;"@);
            assert(head.subrange(0, 4)[1] != "&lt;"@[1]);
            assert(head.subrange(0, 4)[1] != "&gt;"@[1]);
            assert(head.subrange(0, 5)[2] != "&amp;"@[2]);
            assert(head.subrange(0, 6)[1] != "&quot;"@[1]);
            assert(entity_at(e, 0) == Some(('\'', 6int)));
        } else {
            assert(e[0] != '&');
            lemma_no_entity(e, 0);
        }
        lemma_entity_bounds(e, 0);
        assert(unescaped_from(e, 0) =~= seq![c] + unescaped_from(e, head.len() as int));
    } else {
        assert(escaped(text) =~= Seq::<char>::empty());
    }
}

/// Unescaping touches entities only: a text without `&` is left as it is.
pub proof fn lemma_unescaped_plain(s: Seq<char>)
    requires
        forall|j: int| 0 <= j < s.len() ==> s[j] != '&',
    ensures
        unescaped(s) == s,
{
    lemma_unescaped_plain_from(s, 0);
    assert(s.subrange(0, s.len() as int) =~= s);
}

/// A text without `&` is left as it is from every position on.
pub proof fn lemma_unescaped_plain_from(s: Seq<char>, i: int)
    requires
        0 <= i <= s.len(),
        forall|j: int| 0 <= j < s.len() ==> s[j] != '&',
    ensures
        unescaped_from(s, i) == s.subrange(i, s.len() as int),
    decreases s.len() - i,
{
    if i < s.len() {
        lemma_no_entity(s, i);
        lemma_unescaped_plain_from(s, i + 1);
        assert(seq![s[i]] + s.subrange(i + 1, s.len() as int) =~= s.subrange(i, s.len() as int));
    } else {
        assert(s.subrange(i, s.len() as int) =~= Seq::<char>::empty());
    }
}

/// Turns each of the five predefined XML entities into the character it
/// stands for, in one pass: one level of escaping is removed.
pub fn xml_escape_to_normal(xml_content: String) -> (r: String)
    ensures
        r@ == unescaped(xml_content@),
{
    let chars = to_chars(xml_content.as_str());
    let lt = to_chars("&lt;");
    let gt = to_chars("&gt;");
    let amp = to_chars("&amp;");
    let quot = to_chars("&quot;");
    let apos = to_chars("&apos;");
    let mut out: Vec<char> = Vec::new();
    let mut i: usize = 0;
    proof {
        reveal_strlit("&lt;");
        reveal_strlit("&gt;");
        reveal_strlit("&amp;");
        reveal_strlit("&quot;");
        reveal_strlit("&apos;");
        assert(out@ + unescaped_from(chars@, 0) =~= unescaped(chars@));
    }
    while i < chars.len()
        invariant
            i <= chars.len(),
            chars@ == xml_content@,
            lt@ == "&lt;"@ && lt@.len() == 4,
            gt@ == "&gt;"@ && gt@.len() == 4,
            amp@ == "&amp;"@ && amp@.len() == 5,
            quot@ == "&quot;"@ && quot@.len() == 6,
            apos@ == "&apos;"@ && apos@.len() == 6,
            out@ + unescaped_from(chars@, i as int) == unescaped(chars@),
        decreases chars.len() - i,
    {
        let ghost before = out@;
        let (c, n): (char, usize) = if matches_at(&chars, i, &lt) {
            ('<', 4)
        } else if matches_at(&chars, i, &gt) {
            ('>', 4)
        } else if matches_at(&chars, i, &amp) {
            ('&', 5)
        } else if matches_at(&chars, i, &quot) {
            ('"', 6)
        } else if matches_at(&chars, i, &apos) {
            ('\'', 6)
        } else {
            (chars[i], 1)
        };
        out.push(c);
        assert(out@ + unescaped_from(chars@, i + n) =~= before + (seq![c] + unescaped_from(
            chars@,
            i + n,
        )));
        i = i + n;
    }
    assert(out@ + unescaped_from(chars@, chars.len() as int) =~= out@);
    from_chars(&out)
}

/// Renders a template against JSON data with the given engine.
///
/// A template that the engine cannot parse is a `Template` error, one that
/// fails while rendering a `Render` error. What the text renders to is the
/// engine's matter: it depends on the helpers registered with it. What
/// becomes of each outcome of the engine is stated by
/// [`rendered_or_error`].
pub fn apply_handlebars_template(
    engine: &handlebars::Handlebars<'static>,
    template_content: &str,
    data: &serde_json::Value,
) -> (r: std::result::Result<String, DocxHandlebarsError>)
    ensures
        r matches Err(e) ==> e is Template || e is Render,
{
    rendered_or_error(evaluate(engine, template_content, data))
}

/// Rejoins the template expressions that run boundaries have split.
///
/// The markup is tokenized, the span-merge engine closes every splice point,
/// and the segments are joined again. Malformed markup is rejected.
pub fn merge_handlebars_in_xml(xml_content: String) -> (r: std::result::Result<
    String,
    DocxHandlebarsError,
>)
    ensures
        r is Ok <==> well_formed(xml_content@),
        r matches Ok(s) ==> s@ == serialized(merged(tokens(xml_content@))),
        r matches Err(e) ==> (e matches DocxHandlebarsError::Xml(d) && d@ == (if !tags_closed(
            tokens(xml_content@),
        ) {
            unclosed_tag_message()
        } else {
            unbalanced_message()
        })),
{
    match tokenize(xml_content.as_str()) {
        Ok(segs) => {
            let joined = merge_segments(&segs);
            Ok(serialize(&joined))
        },
        Err(e) => Err(e),
    }
}

} // verus!
