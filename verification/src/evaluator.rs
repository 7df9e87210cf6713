//! The template evaluator: the `handlebars` engine that renders a template
//! against JSON data.
//!
//! What a template renders to depends on the helpers that the caller has
//! registered with the engine, so nothing is claimed of the rendered text.
//! The library's own part, what becomes of a region whose evaluation fails,
//! is stated here on the evaluator's outcome.

use vstd::prelude::*;
use vstd::string::*;
use crate::error::DocxHandlebarsError;

verus! {

/// `handlebars::Handlebars`, the engine with its registered helpers. It is
/// carried through; of what is inside only [`engine_strict`] is spoken of.
#[verifier::external_type_specification]
#[verifier::external_body]
pub struct ExRegistry<'reg>(handlebars::Handlebars<'reg>);

/// `serde_json::Value`, the data that a template is rendered against. It is
/// carried through; nothing is known of what is inside.
#[verifier::external_type_specification]
#[verifier::external_body]
pub struct ExValue(serde_json::Value);

/// Whether the engine is in strict mode, in which a reference to a variable
/// that the data lacks is an error instead of empty text.
pub uninterp spec fn engine_strict(engine: handlebars::Handlebars<'static>) -> bool;

/// Why the evaluator gave up on a template; each holds the engine's error
/// in its debug form.
#[derive(Debug, Clone, PartialEq, Eq)]
pub enum EvaluationFault {
    /// The template's syntax was rejected.
    Syntax(String),
    /// The template failed while it was rendered.
    Render(String),
}

/// `Handlebars::new`: an engine with the built-in helpers.
#[verifier::external_body]
fn fresh_engine() -> (engine: handlebars::Handlebars<'static>) {
    handlebars::Handlebars::new()
}

/// `Handlebars::set_strict_mode`: the engine is in strict mode afterwards
/// exactly if `enabled`.
#[verifier::external_body]
fn set_strict(engine: &mut handlebars::Handlebars<'static>, enabled: bool)
    ensures
        engine_strict(*final(engine)) == enabled,
{
    engine.set_strict_mode(enabled)
}

/// `Handlebars::render_template`: the rendered text, or the fault with the
/// engine's error in its debug form. A failure to parse the template is a
/// `Syntax` fault, any other a `Render` fault.
#[verifier::external_body]
pub(crate) fn evaluate(
    engine: &handlebars::Handlebars<'static>,
    template: &str,
    data: &serde_json::Value,
) -> (r: Result<String, EvaluationFault>) {
    match engine.render_template(template, data) {
        Ok(text) => Ok(text),
        Err(e) => Err(
            match e.reason() {
                handlebars::RenderErrorReason::TemplateError(_) => EvaluationFault::Syntax(
                    format!("{e:#?}"),
                ),
                _ => EvaluationFault::Render(format!("{e:#?}")),
            },
        ),
    }
}

/// The JSON value that `serde_json::from_str` reads from a text; `None`
/// where the text is not JSON.
pub uninterp spec fn parsed_json(text: Seq<char>) -> Option<serde_json::Value>;

/// `serde_json::from_str`: the JSON value that the text denotes, or the
/// parser's description of what is wrong with it.
#[verifier::external_body]
pub(crate) fn parse_value(text: &str) -> (r: Result<serde_json::Value, String>)
    ensures
        r is Ok <==> parsed_json(text@) is Some,
        r matches Ok(value) ==> parsed_json(text@) == Some(value),
{
    serde_json::from_str::<serde_json::Value>(text).map_err(|e| e.to_string())
}

/// The JSON text that `serde_json::to_string` makes of a list of strings.
pub uninterp spec fn json_of_strings(items: Seq<Seq<char>>) -> Seq<char>;

/// `serde_json::to_string` on a list of strings: the list as the text of a
/// JSON array. It does not fail: a list of strings has no map key and no
/// value whose serialization could fail.
#[verifier::external_body]
pub(crate) fn strings_to_json(items: &Vec<String>) -> (r: Result<String, String>)
    ensures
        r is Ok,
        r matches Ok(text) ==> text@ == json_of_strings(
            Seq::new(items@.len(), |i: int| items@[i]@),
        ),
{
    serde_json::to_string(items).map_err(|e| e.to_string())
}

/// An engine with the built-in helpers, not in strict mode: a variable that
/// the data lacks renders as empty text.
pub fn new_engine() -> (engine: handlebars::Handlebars<'static>)
    ensures
        !engine_strict(engine),
{
    let mut engine = fresh_engine();
    set_strict(&mut engine, false);
    engine
}

/// Parses JSON data: the value that the text denotes. Text that is not
/// JSON is a `Json` error.
pub fn parse_json(text: &str) -> (r: std::result::Result<serde_json::Value, DocxHandlebarsError>)
    ensures
        match parsed_json(text@) {
            Some(value) => r == Ok::<serde_json::Value, DocxHandlebarsError>(value),
            None => r matches Err(DocxHandlebarsError::Json(_)),
        },
{
    match parse_value(text) {
        Ok(value) => Ok(value),
        Err(detail) => Err(DocxHandlebarsError::Json(detail)),
    }
}

/// The error that an evaluator's fault becomes.
pub fn fault_to_error(fault: EvaluationFault) -> (e: DocxHandlebarsError)
    ensures
        match fault {
            EvaluationFault::Syntax(d) => e matches DocxHandlebarsError::Template(t) && t@ == d@,
            EvaluationFault::Render(d) => e matches DocxHandlebarsError::Render(t) && t@ == d@,
        },
{
    match fault {
        EvaluationFault::Syntax(d) => DocxHandlebarsError::Template(d),
        EvaluationFault::Render(d) => DocxHandlebarsError::Render(d),
    }
}

/// What the evaluator's outcome means for a caller that asks for the
/// rendered text: the text on success, and for each fault its error.
pub fn rendered_or_error(outcome: Result<String, EvaluationFault>) -> (r: std::result::Result<
    String,
    DocxHandlebarsError,
>)
    ensures
        match outcome {
            Ok(text) => r == Ok::<String, DocxHandlebarsError>(text),
            Err(EvaluationFault::Syntax(d)) => r matches Err(DocxHandlebarsError::Template(t))
                && t@ == d@,
            Err(EvaluationFault::Render(d)) => r matches Err(DocxHandlebarsError::Render(t))
                && t@ == d@,
        },
{
    match outcome {
        Ok(text) => Ok(text),
        Err(fault) => Err(fault_to_error(fault)),
    }
}

/// The text of a region after evaluation: the rendered text, or, where the
/// evaluation failed, the region's own text.
pub open spec fn settled(own: Seq<char>, verdict: Option<Seq<char>>) -> Seq<char> {
    match verdict {
        Some(rendered) => rendered,
        None => own,
    }
}

/// The value of an optional string.
pub open spec fn verdict_view(verdict: Option<String>) -> Option<Seq<char>> {
    match verdict {
        Some(text) => Some(text@),
        None => None,
    }
}

/// What the evaluator's outcome means for a region: the rendered text on
/// success, nothing on any fault.
pub fn verdict_of(outcome: Result<String, EvaluationFault>) -> (verdict: Option<String>)
    ensures
        match outcome {
            Ok(text) => verdict == Some(text),
            Err(_) => verdict is None,
        },
{
    match outcome {
        Ok(text) => Some(text),
        Err(_) => None,
    }
}

/// The text of a region after evaluation: a failed evaluation leaves the
/// region's text as it was.
pub fn settle(own: &str, verdict: Option<String>) -> (text: String)
    ensures
        text@ == settled(own@, verdict_view(verdict)),
        verdict is None ==> text@ == own@,
{
    match verdict {
        Some(rendered) => rendered,
        None => String::from_str(own),
    }
}

/// Evaluates a template and keeps only whether it rendered, and to what.
pub(crate) fn try_render(
    engine: &handlebars::Handlebars<'static>,
    template: &str,
    data: &serde_json::Value,
) -> (verdict: Option<String>) {
    verdict_of(evaluate(engine, template, data))
}

} // verus!
