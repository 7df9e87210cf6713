//! The render strategy dispatcher: which of the three reconstruction
//! strategies a document calls for.

use vstd::prelude::*;
use crate::text::{contains_text, occurs_in, to_chars};

verus! {

/// How rendered text is written back into a document.
#[derive(Debug, Clone, Copy, PartialEq, Eq)]
pub enum RenderStrategy {
    /// Each paragraph is rendered by itself and keeps its markup.
    ParagraphScoped,
    /// The whole text is rendered as one template and laid out anew, one
    /// paragraph per line.
    DocumentScoped,
    /// The text before and after a table is rendered and laid out anew; the
    /// table's markup is copied as it stands.
    Hybrid,
}

/// The markup that opens a table, or one of its property elements.
pub const TABLE_MARKER: &'static str = "<w:tbl";

/// The text that opens a block construct such as `{{#each ...}}` or
/// `{{#if ...}}`.
pub const BLOCK_MARKER: &'static str = "{{#";

/// The text that opens any template expression.
pub const EXPRESSION_MARKER: &'static str = "{{";

/// The markup holds a table.
pub open spec fn has_table(markup: Seq<char>) -> bool {
    occurs_in(markup, TABLE_MARKER@)
}

/// The markup holds a block construct.
pub open spec fn has_block(markup: Seq<char>) -> bool {
    occurs_in(markup, BLOCK_MARKER@)
}

/// The strategy for a document, by its table and its block constructs: both
/// call for the hybrid; a table alone, or neither, for paragraphs; blocks
/// alone for the whole document.
pub open spec fn strategy_for(table: bool, block: bool) -> RenderStrategy {
    if table && block {
        RenderStrategy::Hybrid
    } else if table {
        RenderStrategy::ParagraphScoped
    } else if block {
        RenderStrategy::DocumentScoped
    } else {
        RenderStrategy::ParagraphScoped
    }
}

/// The strategy that a document's markup calls for.
pub open spec fn strategy_of(markup: Seq<char>) -> RenderStrategy {
    strategy_for(has_table(markup), has_block(markup))
}

/// Chooses the strategy for a document with or without a table and with or
/// without block constructs.
pub fn choose_strategy(table: bool, block: bool) -> (s: RenderStrategy)
    ensures
        s == strategy_for(table, block),
        s is Hybrid <==> table && block,
        s is DocumentScoped <==> !table && block,
        s is ParagraphScoped <==> !block,
{
    if table && block {
        RenderStrategy::Hybrid
    } else if table {
        RenderStrategy::ParagraphScoped
    } else if block {
        RenderStrategy::DocumentScoped
    } else {
        RenderStrategy::ParagraphScoped
    }
}

/// Chooses the strategy that a document's markup calls for.
pub fn classify(markup: &str) -> (s: RenderStrategy)
    ensures
        s == strategy_of(markup@),
        s is Hybrid <==> has_table(markup@) && has_block(markup@),
        s is DocumentScoped <==> !has_table(markup@) && has_block(markup@),
        s is ParagraphScoped <==> !has_block(markup@),
{
    let chars = to_chars(markup);
    let table = contains_text(&chars, &to_chars(TABLE_MARKER));
    let block = contains_text(&chars, &to_chars(BLOCK_MARKER));
    choose_strategy(table, block)
}

} // verus!
