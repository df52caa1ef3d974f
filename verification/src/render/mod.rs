pub mod ansi;
pub mod blocks;
pub mod inline;
pub mod plain;
pub mod table;
pub mod wrap;
pub mod wrap_words;

use vstd::prelude::*;

use crate::highlight::highlighter::{chosen_theme_name, default_theme_names, Highlighter};
use crate::kitty::graphics::LoadedImage;
use crate::markdown::ast::Block;
use crate::util::text::{push_str, to_owned};
use blocks::{blocks_text, code_theme, lemma_blocks_text_concat, render_blocks, RenderState};
use crate::theme::Theme;

verus! {

/// What the terminal can show.
#[derive(Debug, Clone, Copy)]
pub struct Capabilities {
    pub ansi: bool,
    pub kitty_text_size: bool,
    pub kitty_graphics: bool,
    pub kitty_hyperlinks: bool,
}

impl Default for Capabilities {
    fn default() -> (r: Capabilities)
        ensures
            !r.ansi && !r.kitty_text_size && !r.kitty_graphics && !r.kitty_hyperlinks,
    {
        Capabilities {
            ansi: false,
            kitty_text_size: false,
            kitty_graphics: false,
            kitty_hyperlinks: false,
        }
    }
}

/// Everything rendering needs besides the document.
pub struct RenderContext {
    pub width: usize,
    pub theme: Theme,
    pub capabilities: Capabilities,
    /// The directory that relative image paths of the document start from.
    pub source_dir: String,
    pub no_highlight: bool,
    /// The images of the document that could be loaded, by the path the document gives.
    pub images: Vec<LoadedImage>,
}

/// Why a document could not be rendered.
#[derive(Debug)]
pub enum RenderError {
    /// No built-in theme has the requested name.
    UnknownTheme(String),
}

impl RenderError {
    /// What went wrong, in words: `unknown theme: <name>`.
    pub fn message(&self) -> (r: String)
        ensures
            match self {
                RenderError::UnknownTheme(name) => r@ == "unknown theme: "@ + name@,
            },
    {
        match self {
            RenderError::UnknownTheme(name) => {
                let mut m = to_owned("unknown theme: ");
                push_str(&mut m, name.as_str());
                m
            },
        }
    }
}

/// The theme a document's code blocks are highlighted in: the one chosen for the context's
/// theme among the default themes, where colour is on and highlighting is not switched off;
/// none otherwise.
pub open spec fn document_theme(ctx: RenderContext) -> Option<Seq<char>> {
    if ctx.capabilities.ansi && !ctx.no_highlight {
        Some(chosen_theme_name(ctx.theme.name@, default_theme_names()))
    } else {
        None
    }
}

/// The rendered text of a document: its blocks one after another, code blocks highlighted
/// in `document_theme`.
pub open spec fn document_text(blocks: Seq<Block>, ctx: RenderContext) -> Seq<char> {
    blocks_text(blocks, ctx, document_theme(ctx))
}

/// `text` is `blocks` rendered in `ctx`.
pub open spec fn rendered_document(text: Seq<char>, blocks: Seq<Block>, ctx: RenderContext) -> bool {
    text == document_text(blocks, ctx)
}

/// Blocks render independently: a document made of two runs of blocks renders as the first
/// run followed by the second, and no blocks render as nothing.
pub proof fn lemma_document_concat(a: Seq<Block>, b: Seq<Block>, ctx: RenderContext)
    ensures
        document_text(a + b, ctx) == document_text(a, ctx) + document_text(b, ctx),
        document_text(seq![], ctx) == Seq::<char>::empty(),
{
    lemma_blocks_text_concat(a, b, ctx, document_theme(ctx));
}

/// Renders a document (see `document_text`): where colour is on and highlighting is not
/// switched off, with a highlighter for the context's theme.
pub fn render_document(blocks: &[Block], ctx: &RenderContext) -> (r: Result<String, RenderError>)
    ensures
        r matches Ok(text) && rendered_document(text@, blocks@, *ctx),
{
    let highlighter = if ctx.capabilities.ansi && !ctx.no_highlight {
        Some(Highlighter::new(ctx.theme.name))
    } else {
        None
    };
    let mut state = RenderState { highlighter };
    assert(code_theme(state, *ctx) == document_theme(*ctx));
    let mut out = String::new();
    render_blocks(blocks, ctx, &mut state, &mut out);
    Ok(out)
}

} // verus!
