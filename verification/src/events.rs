//! The document body seen through the event-based markup reader.
//!
//! Parsing markup into events is the `quick_xml` crate's work. This module
//! states what the library relies on when it calls it, and holds the two
//! verified passes over a document's events: gathering the text of its text
//! runs, and writing the document out again event by event.

use vstd::prelude::*;
use vstd::string::*;
use quick_xml::events::Event;
use crate::error::DocxHandlebarsError;
use crate::text::to_chars;

verus! {

/// `quick_xml::Reader`, a reader part-way through a document. What it has
/// yet to give is spoken of through [`reader_events`].
#[verifier::external_type_specification]
#[verifier::external_body]
#[verifier::reject_recursive_types(R)]
pub struct ExReader<R>(quick_xml::Reader<R>);

/// The kinds of markup event.
#[derive(Debug, Clone, Copy, PartialEq, Eq)]
pub enum EventKind {
    /// An opening tag, `<name attributes>`.
    Start,
    /// A closing tag, `</name>`.
    End,
    /// An empty element, `<name attributes/>`.
    Empty,
    /// Character data between tags, escaped as in the document.
    Text,
    /// A section of unescaped character data, `<![CDATA[...]]>`.
    CData,
    /// A comment, `<!--...-->`.
    Comment,
    /// The declaration, `<?xml ...?>`.
    Decl,
    /// A processing instruction, `<?...?>`.
    PI,
    /// A document type definition, `<!DOCTYPE ...>`.
    DocType,
    /// The end of the document.
    Eof,
}

/// One markup event: its kind and its content, which is what stands
/// between the delimiters of its kind.
#[derive(Debug, Clone, PartialEq, Eq)]
pub struct MarkupEvent {
    pub kind: EventKind,
    pub content: String,
}

/// The mathematical value of a [`MarkupEvent`].
pub struct MarkupEventSpec {
    pub kind: EventKind,
    pub content: Seq<char>,
}

impl View for MarkupEvent {
    type V = MarkupEventSpec;

    open spec fn view(&self) -> MarkupEventSpec {
        MarkupEventSpec { kind: self.kind, content: self.content@ }
    }
}

/// Escaped character data with its entities resolved, as
/// `BytesText::unescape` gives it; `None` where that fails.
pub uninterp spec fn unescaped_text(content: Seq<char>) -> Option<Seq<char>>;

/// The events that a reader over `doc` gives before it reaches the end of
/// the document or fails, and whether it fails.
pub uninterp spec fn document_events(doc: Seq<char>) -> (Seq<MarkupEventSpec>, bool);

/// The events that the reader has yet to give before it reaches the end of
/// its input or fails, and whether it fails.
pub uninterp spec fn reader_events(reader: quick_xml::Reader<&[u8]>) -> (
    Seq<MarkupEventSpec>,
    bool,
);

/// `Reader::from_str`: a reader at the start of `doc`.
#[verifier::external_body]
fn open_reader<'a>(doc: &'a str) -> (reader: quick_xml::Reader<&'a [u8]>)
    ensures
        reader_events(reader) == document_events(doc@),
{
    quick_xml::Reader::from_str(doc)
}

/// `Reader::read_event_into`: the next event, by its kind and its content.
/// At the end of the input it gives `Eof` and the reader stays there; a
/// failure comes only when no event is left before it.
#[verifier::external_body]
fn next_event(reader: &mut quick_xml::Reader<&[u8]>) -> (r: Result<MarkupEvent, String>)
    ensures
        match r {
            Ok(event) => if event.kind is Eof {
                &&& reader_events(*old(reader)).0.len() == 0
                &&& !reader_events(*old(reader)).1
                &&& reader_events(*final(reader)) == reader_events(*old(reader))
            } else {
                &&& reader_events(*old(reader)).0.len() > 0
                &&& event@ == reader_events(*old(reader)).0[0]
                &&& reader_events(*final(reader)) == (
                    reader_events(*old(reader)).0.drop_first(),
                    reader_events(*old(reader)).1,
                )
            },
            Err(_) => reader_events(*old(reader)).0.len() == 0 && reader_events(*old(reader)).1,
        },
{
    let mut buffer = Vec::new();
    let source = reader.read_event_into(&mut buffer).map_err(|e| e.to_string())?;
    let kind = match &source {
        Event::Start(_) => EventKind::Start,
        Event::End(_) => EventKind::End,
        Event::Empty(_) => EventKind::Empty,
        Event::Text(_) => EventKind::Text,
        Event::CData(_) => EventKind::CData,
        Event::Comment(_) => EventKind::Comment,
        Event::Decl(_) => EventKind::Decl,
        Event::PI(_) => EventKind::PI,
        Event::DocType(_) => EventKind::DocType,
        Event::Eof => EventKind::Eof,
    };
    Ok(MarkupEvent { kind, content: String::from_utf8_lossy(&source).into_owned() })
}

/// `BytesText::unescape` on escaped character data: the text with its
/// entities resolved, or the failure's description.
#[verifier::external_body]
fn unescape_text(content: &str) -> (r: Result<String, String>)
    ensures
        r is Ok <==> unescaped_text(content@) is Some,
        r matches Ok(text) ==> unescaped_text(content@) == Some(text@),
{
    quick_xml::events::BytesText::from_escaped(content).unescape().map(|t| t.into_owned()).map_err(
        |e| e.to_string(),
    )
}

/// White space inside a tag.
pub open spec fn is_markup_space(c: char) -> bool {
    c == ' ' || c == '\r' || c == '\n' || c == '\t'
}

/// The first position at or after `k` that holds white space.
pub open spec fn name_length(content: Seq<char>, k: int) -> int
    decreases content.len() - k,
{
    if k < 0 || k >= content.len() {
        content.len() as int
    } else if is_markup_space(content[k]) {
        k
    } else {
        name_length(content, k + 1)
    }
}

/// The element name of an opening tag: its content up to the first white
/// space.
pub open spec fn element_name(content: Seq<char>) -> Seq<char> {
    content.subrange(0, name_length(content, 0))
}

/// The element name of a text run.
pub const TEXT_RUN: &'static str = "w:t";

/// The event opens a text run.
pub open spec fn opens_text_run(event: MarkupEventSpec) -> bool {
    event.kind is Start && element_name(event.content) == TEXT_RUN@
}

/// The event closes a text run.
pub open spec fn closes_text_run(event: MarkupEventSpec) -> bool {
    event.kind is End && event.content == TEXT_RUN@
}

/// The event as it stands in a document: its content between the
/// delimiters of its kind.
#[verifier::opaque]
pub open spec fn event_markup(event: MarkupEventSpec) -> Seq<char> {
    match event.kind {
        EventKind::Start => "<"@ + event.content + ">"@,
        EventKind::End => "</"@ + event.content + ">"@,
        EventKind::Empty => "<"@ + event.content + "/>"@,
        EventKind::Text => event.content,
        EventKind::CData => "<![CDATA["@ + event.content + "]]>"@,
        EventKind::Comment => "<!--"@ + event.content + "-->"@,
        EventKind::Decl => "<?"@ + event.content + "?>"@,
        EventKind::PI => "<?"@ + event.content + "?>"@,
        EventKind::DocType => "<!DOCTYPE "@ + event.content + ">"@,
        EventKind::Eof => Seq::empty(),
    }
}

/// `front` put before a result that may be a failure.
pub open spec fn after(front: Seq<char>, rest: Option<Seq<char>>) -> Option<Seq<char>> {
    match rest {
        Some(tail) => Some(front + tail),
        None => None,
    }
}

/// Whether a text run is open after an event.
pub open spec fn in_run_after(in_run: bool, event: MarkupEventSpec) -> bool {
    if opens_text_run(event) {
        true
    } else if closes_text_run(event) {
        false
    } else {
        in_run
    }
}

/// The unescaped text of the character data inside text runs, in order;
/// `None` where such character data cannot be unescaped, or where reading
/// ends in a failure.
pub open spec fn gathered(events: Seq<MarkupEventSpec>, fails: bool, in_run: bool) -> Option<
    Seq<char>,
>
    decreases events.len(),
{
    if events.len() == 0 {
        if fails {
            None
        } else {
            Some(Seq::empty())
        }
    } else {
        let event = events[0];
        let rest = gathered(events.drop_first(), fails, in_run_after(in_run, event));
        if event.kind is Text && in_run {
            match unescaped_text(event.content) {
                Some(text) => after(text, rest),
                None => None,
            }
        } else {
            rest
        }
    }
}

/// The text of the document's text runs.
pub open spec fn document_text_runs(doc: Seq<char>) -> Option<Seq<char>> {
    gathered(document_events(doc).0, document_events(doc).1, false)
}

/// The markup of the events written out again, in order, each as it
/// stands; `None` where reading ends in a failure.
pub open spec fn rewritten(events: Seq<MarkupEventSpec>, fails: bool) -> Option<Seq<char>>
    decreases events.len(),
{
    if events.len() == 0 {
        if fails {
            None
        } else {
            Some(Seq::empty())
        }
    } else {
        after(event_markup(events[0]), rewritten(events.drop_first(), fails))
    }
}

/// The document written out again event by event.
pub open spec fn document_rewritten(doc: Seq<char>) -> Option<Seq<char>> {
    rewritten(document_events(doc).0, document_events(doc).1)
}

/// Whether the event opens a text run.
fn check_opens_text_run(event: &MarkupEvent) -> (r: bool)
    ensures
        r == opens_text_run(event@),
{
    match event.kind {
        EventKind::Start => {
            let chars = to_chars(event.content.as_str());
            let mut k: usize = 0;
            while k < chars.len() && !(chars[k] == ' ' || chars[k] == '\r' || chars[k] == '\n'
                || chars[k] == '\t')
                invariant
                    k <= chars.len(),
                    name_length(chars@, 0) == name_length(chars@, k as int),
                decreases chars.len() - k,
            {
                k += 1;
            }
            let name = crate::text::text_of_range(&chars, 0, k);
            name == String::from_str(TEXT_RUN)
        },
        _ => false,
    }
}

/// Whether the event closes a text run.
fn check_closes_text_run(event: &MarkupEvent) -> (r: bool)
    ensures
        r == closes_text_run(event@),
{
    match event.kind {
        EventKind::End => event.content == String::from_str(TEXT_RUN),
        _ => false,
    }
}

/// Appends the event as it stands in a document.
pub fn push_markup(out: &mut String, event: &MarkupEvent)
    ensures
        final(out)@ == old(out)@ + event_markup(event@),
{
    let ghost before = out@;
    let content = event.content.as_str();
    proof {
        reveal(event_markup);
    }
    match event.kind {
        EventKind::Start => {
            out.append("<");
            out.append(content);
            out.append(">");
            assert(out@ =~= before + ("<"@ + content@ + ">"@));
        },
        EventKind::End => {
            out.append("</");
            out.append(content);
            out.append(">");
            assert(out@ =~= before + ("</"@ + content@ + ">"@));
        },
        EventKind::Empty => {
            out.append("<");
            out.append(content);
            out.append("/>");
            assert(out@ =~= before + ("<"@ + content@ + "/>"@));
        },
        EventKind::Text => {
            out.append(content);
        },
        EventKind::CData => {
            out.append("<![CDATA[");
            out.append(content);
            out.append("]]>");
            assert(out@ =~= before + ("<![CDATA["@ + content@ + "]]>"@));
        },
        EventKind::Comment => {
            out.append("<!--");
            out.append(content);
            out.append("-->");
            assert(out@ =~= before + ("<!--"@ + content@ + "-->"@));
        },
        EventKind::Decl => {
            out.append("<?");
            out.append(content);
            out.append("?>");
            assert(out@ =~= before + ("<?"@ + content@ + "?>"@));
        },
        EventKind::PI => {
            out.append("<?");
            out.append(content);
            out.append("?>");
            assert(out@ =~= before + ("<?"@ + content@ + "?>"@));
        },
        EventKind::DocType => {
            out.append("<!DOCTYPE ");
            out.append(content);
            out.append(">");
            assert(out@ =~= before + ("<!DOCTYPE "@ + content@ + ">"@));
        },
        EventKind::Eof => {
            assert(out@ =~= before + Seq::<char>::empty());
        },
    }
}

/// Gathers the text of the document's text runs, with entities resolved.
///
/// Fails with `Xml` where the markup reader fails or character data inside
/// a text run cannot be unescaped.
pub fn gather_text(doc: &str) -> (r: std::result::Result<String, DocxHandlebarsError>)
    ensures
        match document_text_runs(doc@) {
            Some(text) => r matches Ok(s) && s@ == text,
            None => r matches Err(DocxHandlebarsError::Xml(_)),
        },
{
    let mut reader = open_reader(doc);
    let mut text = String::new();
    let mut in_run = false;
    let ghost goal = document_text_runs(doc@);
    assert(after(text@, gathered(reader_events(reader).0, reader_events(reader).1, in_run))
        =~= goal) by {
        let rest = gathered(reader_events(reader).0, reader_events(reader).1, in_run);
        if rest is Some {
            assert(text@ + rest->0 =~= rest->0);
        }
    }
    loop
        invariant
            goal == document_text_runs(doc@),
            after(text@, gathered(reader_events(reader).0, reader_events(reader).1, in_run))
                == goal,
        decreases reader_events(reader).0.len(),
    {
        let ghost pending = reader_events(reader).0;
        let ghost fails = reader_events(reader).1;
        let ghost before = text@;
        let event = match next_event(&mut reader) {
            Ok(event) => event,
            Err(detail) => {
                return Err(DocxHandlebarsError::Xml(detail));
            },
        };
        match event.kind {
            EventKind::Eof => {
                assert(before + Seq::<char>::empty() =~= before);
                return Ok(text);
            },
            EventKind::Text => {
                if in_run {
                    match unescape_text(event.content.as_str()) {
                        Ok(piece) => {
                            text.append(piece.as_str());
                            proof {
                                let rest = gathered(pending.drop_first(), fails, in_run);
                                if rest is Some {
                                    assert(before + (piece@ + rest->0) =~= (before + piece@)
                                        + rest->0);
                                }
                            }
                        },
                        Err(detail) => {
                            return Err(DocxHandlebarsError::Xml(detail));
                        },
                    }
                }
            },
            _ => {
                if check_opens_text_run(&event) {
                    in_run = true;
                } else if check_closes_text_run(&event) {
                    in_run = false;
                }
            },
        }
    }
}

/// Writes the document out again, event by event, as [`document_rewritten`]
/// describes: every event that the reader gives is written as it stands.
///
/// Fails with `Xml` where the markup reader fails.
pub fn rewrite_markup(doc: &str) -> (r: std::result::Result<String, DocxHandlebarsError>)
    ensures
        match document_rewritten(doc@) {
            Some(markup) => r matches Ok(s) && s@ == markup,
            None => r matches Err(DocxHandlebarsError::Xml(_)),
        },
{
    let mut reader = open_reader(doc);
    let mut out = String::new();
    let ghost goal = document_rewritten(doc@);
    assert(after(out@, rewritten(reader_events(reader).0, reader_events(reader).1)) =~= goal) by {
        let rest = rewritten(reader_events(reader).0, reader_events(reader).1);
        if rest is Some {
            assert(out@ + rest->0 =~= rest->0);
        }
    }
    loop
        invariant
            goal == document_rewritten(doc@),
            after(out@, rewritten(reader_events(reader).0, reader_events(reader).1)) == goal,
        decreases reader_events(reader).0.len(),
    {
        let ghost pending = reader_events(reader).0;
        let ghost fails = reader_events(reader).1;
        let ghost before = out@;
        let event = match next_event(&mut reader) {
            Ok(event) => event,
            Err(detail) => {
                return Err(DocxHandlebarsError::Xml(detail));
            },
        };
        match event.kind {
            EventKind::Eof => {
                assert(before + Seq::<char>::empty() =~= before);
                return Ok(out);
            },
            _ => {
                let ghost rest = rewritten(pending.drop_first(), fails);
                proof {
                    if rest is Some {
                        assert(before + (event_markup(event@) + rest->0) =~= (before
                            + event_markup(event@)) + rest->0);
                    }
                }
                push_markup(&mut out, &event);
            },
        }
    }
}

} // verus!
