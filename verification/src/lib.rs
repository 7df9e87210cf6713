//! Handlebars templates inside DOCX documents: tokenizing the document
//! markup, rejoining template expressions that run boundaries have split,
//! choosing a rendering strategy and writing rendered text back.

pub mod archive;
pub mod canonical;
pub mod docx;
pub mod error;
pub mod errors;
pub mod evaluator;
pub mod events;
pub mod merge;
pub mod reconstruct;
pub mod segment;
pub mod strategy;
pub mod template;
pub mod text;
pub mod utils;
pub mod variables;

pub use docx::DocxProcessor;
pub use error::{DocxHandlebarsError, Result};

use vstd::prelude::*;
use vstd::utf8::encode_utf8;
use crate::archive::packed;
use crate::docx::loaded;
use crate::evaluator::{
    engine_strict, json_of_strings, new_engine, parse_json, parsed_json, strings_to_json,
};
use crate::merge::{merge_segments, merged};
use crate::reconstruct::{gather_region_text, region_text};
use crate::segment::{tokenize, tokens, well_formed};
use crate::template::{process_xml, rendered_markup};
use crate::utils::{unescaped, xml_escape_to_normal};
use crate::variables::{extract_variables, extracted, string_views};

verus! {

/// The text of a document body as a reader sees it: the text of its
/// segments after the span-merge engine, with entities resolved.
pub open spec fn visible_text(markup: Seq<char>) -> Seq<char> {
    let segs = merged(tokens(markup));
    unescaped(region_text(segs, 0, segs.len() as int))
}

/// `r` is what rendering the loaded document returns.
///
/// Where no body is loaded the error is `TemplateNotLoaded`; where the
/// body's markup is malformed it is `Xml`. Otherwise the body is rendered,
/// and `r` is what packing the document's members, with the rendering in
/// the body's place, returns: it succeeds exactly where the archive writer
/// takes in every member and finishes.
pub open spec fn render_report(document: DocxProcessor, r: Result<Vec<u8>>) -> bool {
    if document.content().len() == 0 {
        r matches Err(DocxHandlebarsError::TemplateNotLoaded)
    } else if !well_formed(document.content()) {
        r matches Err(DocxHandlebarsError::Xml(_))
    } else {
        exists|body: Seq<char>|
            rendered_markup(document.content(), body) && packed(
                document.members_with_body(encode_utf8(body)),
                None,
                r,
            )
    }
}

/// A document template together with the engine that renders it.
pub struct DocxHandlebars {
    processor: DocxProcessor,
    engine: handlebars::Handlebars<'static>,
}

impl DocxHandlebars {
    /// The loaded document.
    pub closed spec fn document(&self) -> DocxProcessor {
        self.processor
    }

    /// The engine that renders the document.
    pub closed spec fn engine(&self) -> handlebars::Handlebars<'static> {
        self.engine
    }

    /// Nothing is loaded: no archive, no body, no other member.
    pub open spec fn is_empty(&self) -> bool {
        &&& self.document().source() == Seq::<u8>::empty()
        &&& self.document().content() == Seq::<char>::empty()
        &&& self.document().others() == Seq::<(Seq<char>, Seq<u8>)>::empty()
    }

    /// A renderer with nothing loaded and an engine that has the built-in
    /// helpers and is not strict: a variable that the data lacks renders as
    /// empty text.
    pub fn new() -> (h: DocxHandlebars)
        ensures
            h.is_empty(),
            !engine_strict(h.engine()),
    {
        DocxHandlebars { processor: DocxProcessor::new(), engine: new_engine() }
    }

    /// A renderer with nothing loaded that renders with the given engine,
    /// and so with the helpers registered on it.
    pub fn with_engine(engine: handlebars::Handlebars<'static>) -> (h: DocxHandlebars)
        ensures
            h.is_empty(),
            h.engine() == engine,
    {
        DocxHandlebars { processor: DocxProcessor::new(), engine }
    }

    /// Loads the template from the bytes of its archive, as
    /// [`DocxProcessor::load_from_bytes`] does.
    pub fn load_template_bytes(&mut self, bytes: &[u8]) -> (r: Result<()>)
        ensures
            loaded(old(self).document(), final(self).document(), bytes@, r),
    {
        self.processor.load_from_bytes(bytes)
    }

    /// Renders the loaded template against data and packs the document, as
    /// [`render_report`] describes.
    pub fn render_with_data(&self, data: &serde_json::Value) -> (r: Result<Vec<u8>>)
        ensures
            render_report(self.document(), r),
    {
        if self.processor.get_content().is_empty() {
            return Err(DocxHandlebarsError::TemplateNotLoaded);
        }
        let body = match process_xml(self.processor.get_content(), &self.engine, data) {
            Ok(body) => body,
            Err(e) => {
                return Err(e);
            },
        };
        let r = self.processor.create_docx_with_content(body.as_str());
        assert(rendered_markup(self.document().content(), body@) && packed(
            self.document().members_with_body(encode_utf8(body@)),
            None,
            r,
        ));
        r
    }

    /// Renders the loaded template against data given as JSON text.
    ///
    /// Text that is not JSON is a `Json` error, whatever is loaded. For text
    /// that is JSON the document is rendered against the value it denotes,
    /// as [`render_report`] describes.
    pub fn render(&self, data_json: &str) -> (r: Result<Vec<u8>>)
        ensures
            match parsed_json(data_json@) {
                None => r matches Err(DocxHandlebarsError::Json(_)),
                Some(_) => render_report(self.document(), r),
            },
    {
        let data = match parse_json(data_json) {
            Ok(data) => data,
            Err(e) => {
                return Err(e);
            },
        };
        self.render_with_data(&data)
    }

    /// The variables that the loaded template refers to: those of the
    /// expressions in the body's visible text.
    pub fn extract_template_variables(&self) -> (r: Result<Vec<String>>)
        ensures
            r is Ok <==> well_formed(self.document().content()),
            r matches Ok(variables) ==> string_views(variables@) == extracted(
                visible_text(self.document().content()),
            ),
            r matches Err(e) ==> e is Xml,
    {
        let segs = match tokenize(self.processor.get_content()) {
            Ok(segs) => segs,
            Err(e) => {
                return Err(e);
            },
        };
        let joined = merge_segments(&segs);
        let text = xml_escape_to_normal(gather_region_text(&joined, 0, joined.len()));
        Ok(extract_variables(text.as_str()))
    }

    /// The variables that the loaded template refers to, as the text of a
    /// JSON array of strings.
    pub fn get_template_variables(&self) -> (r: Result<String>)
        ensures
            r is Ok <==> well_formed(self.document().content()),
            r matches Ok(text) ==> text@ == json_of_strings(
                extracted(visible_text(self.document().content())),
            ),
            r matches Err(e) ==> e is Xml,
    {
        let variables = match self.extract_template_variables() {
            Ok(variables) => variables,
            Err(e) => {
                return Err(e);
            },
        };
        match strings_to_json(&variables) {
            Ok(text) => Ok(text),
            Err(detail) => Err(DocxHandlebarsError::Json(detail)),
        }
    }
}

impl Default for DocxHandlebars {
    fn default() -> (h: DocxHandlebars)
        ensures
            h.is_empty(),
            !engine_strict(h.engine()),
    {
        Self::new()
    }
}

} // verus!
