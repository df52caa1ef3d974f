pub mod cli;
pub mod highlight;
pub mod kitty;
pub mod markdown;
pub mod render;
pub mod theme;
pub mod util;

use vstd::prelude::*;

use crate::cli::Cli;
use crate::kitty::detect::{detect_capabilities, feature_on};
use crate::kitty::graphics::LoadedImage;
use crate::markdown::ast::Block;
use crate::markdown::parser::{parse_markdown, parsed_from};
use crate::markdown::parser::lemma_parse_determined;
use crate::render::blocks::{lemma_blocks_by_model, renders_alike};
use crate::render::{
    document_text, document_theme, render_document, rendered_document, Capabilities, RenderContext,
    RenderError,
};
use crate::theme::builtin::{default_theme_name, find_theme, spec_find_theme};
use crate::theme::Theme;
use crate::util::text::to_owned;

verus! {

/// How to render a document.
#[derive(Debug, Clone)]
pub struct RenderOptions {
    pub width: usize,
    pub theme: String,
    pub ansi: bool,
    pub kitty_text_size: bool,
    pub kitty_graphics: bool,
    pub kitty_hyperlinks: bool,
    pub no_highlight: bool,
    /// The directory that relative image paths of the document start from.
    pub source_dir: String,
    /// The images of the document that could be loaded, by the path the document gives.
    pub images: Vec<LoadedImage>,
}


/// `width`, or 20 when narrower.
pub open spec fn clamped_width(width: usize) -> usize {
    if width < 20 {
        20
    } else {
        width
    }
}

impl RenderOptions {
    /// Default options for a terminal `term_width` columns wide (80 when that is unknown,
    /// never under 20): the default theme, ANSI styling on, no kitty features.
    pub fn for_terminal(term_width: Option<usize>, source_dir: String) -> (r: Self)
        ensures
            r.width == clamped_width(
                match term_width {
                    Some(w) => w,
                    None => 80,
                },
            ),
            r.theme@ == "ansi"@,
            r.ansi,
            !r.kitty_text_size,
            !r.kitty_graphics,
            !r.kitty_hyperlinks,
            !r.no_highlight,
            r.source_dir == source_dir,
            r.images@.len() == 0,
    {
        let w = match term_width {
            Some(w) => w,
            None => 80,
        };
        RenderOptions {
            width: if w < 20 {
                20
            } else {
                w
            },
            theme: to_owned(default_theme_name()),
            ansi: true,
            kitty_text_size: false,
            kitty_graphics: false,
            kitty_hyperlinks: false,
            no_highlight: false,
            source_dir,
            images: Vec::new(),
        }
    }
}

impl Default for RenderOptions {
    /// The options for an output whose width is unknown: 80 columns, paths from the
    /// current directory `.`.
    fn default() -> (r: Self)
        ensures
            r.width == 80,
            r.theme@ == "ansi"@,
            r.ansi,
            !r.kitty_text_size,
            !r.kitty_graphics,
            !r.kitty_hyperlinks,
            !r.no_highlight,
            r.source_dir@ == "."@,
            r.images@.len() == 0,
    {
        RenderOptions::for_terminal(None, to_owned("."))
    }
}

/// The options the command line asks for, on a terminal `term_width` columns wide (when
/// known) that is kitty or not: `--width` wins over the terminal's width, 80 without
/// either, never under 20.
pub fn options_for(cli: &Cli, term_width: Option<usize>, is_kitty: bool, source_dir: String) -> (r:
    RenderOptions)
    ensures
        r.width == clamped_width(
            match cli.width {
                Some(w) => w,
                None => match term_width {
                    Some(t) => t,
                    None => 80,
                },
            },
        ),
        r.theme == cli.theme,
        r.ansi == !cli.plain,
        r.kitty_text_size == feature_on(cli.kitty, cli.plain, is_kitty),
        r.kitty_graphics == feature_on(cli.images, cli.plain, is_kitty),
        r.kitty_hyperlinks == feature_on(cli.kitty, cli.plain, is_kitty),
        r.no_highlight == cli.no_highlight,
        r.source_dir == source_dir,
        r.images@.len() == 0,
{
    let w = match cli.width {
        Some(w) => w,
        None => match term_width {
            Some(t) => t,
            None => 80,
        },
    };
    let capabilities = detect_capabilities(cli, is_kitty);
    RenderOptions {
        width: if w < 20 {
            20
        } else {
            w
        },
        theme: cli.theme.clone(),
        ansi: capabilities.ansi,
        kitty_text_size: capabilities.kitty_text_size,
        kitty_graphics: capabilities.kitty_graphics,
        kitty_hyperlinks: capabilities.kitty_hyperlinks,
        no_highlight: cli.no_highlight,
        source_dir,
        images: Vec::new(),
    }
}

/// Two lists of loaded images that hold the same images, in the same order.
pub open spec fn same_images(a: Seq<LoadedImage>, b: Seq<LoadedImage>) -> bool {
    &&& a.len() == b.len()
    &&& forall|k: int|
        0 <= k < a.len() ==> {
            &&& #[trigger] a[k].path == b[k].path
            &&& a[k].png@ == b[k].png@
            &&& a[k].width == b[k].width
            &&& a[k].height == b[k].height
        }
}

fn copy_bytes(bytes: &[u8]) -> (r: Vec<u8>)
    ensures
        r@ == bytes@,
{
    let mut out: Vec<u8> = Vec::new();
    for i in 0..bytes.len()
        invariant
            out@ == bytes@.take(i as int),
    {
        out.push(bytes[i]);
        assert(out@ =~= bytes@.take(i + 1));
    }
    assert(bytes@.take(bytes@.len() as int) =~= bytes@);
    out
}

fn copy_images(images: &[LoadedImage]) -> (r: Vec<LoadedImage>)
    ensures
        same_images(r@, images@),
{
    let mut out: Vec<LoadedImage> = Vec::new();
    for i in 0..images.len()
        invariant
            out@.len() == i,
            same_images(out@, images@.take(i as int)),
    {
        let img = &images[i];
        out.push(
            LoadedImage {
                path: img.path.clone(),
                png: copy_bytes(img.png.as_slice()),
                width: img.width,
                height: img.height,
            },
        );
        assert(same_images(out@, images@.take(i + 1)));
    }
    assert(images@.take(images@.len() as int) =~= images@);
    out
}

/// The context `opts` asks for with `theme`: the width at least 20, the features and
/// images as given.
pub open spec fn context_for(ctx: RenderContext, opts: RenderOptions, theme: Theme) -> bool {
    &&& ctx.width == clamped_width(opts.width)
    &&& ctx.theme == theme
    &&& ctx.capabilities == Capabilities {
        ansi: opts.ansi,
        kitty_text_size: opts.kitty_text_size,
        kitty_graphics: opts.kitty_graphics,
        kitty_hyperlinks: opts.kitty_hyperlinks,
    }
    &&& ctx.source_dir == opts.source_dir
    &&& ctx.no_highlight == opts.no_highlight
    &&& same_images(ctx.images@, opts.images@)
}

/// The rendering of a text is determined: every document parsed from `input`, rendered in
/// any context that the options ask for with `theme`, gives the same text.
pub proof fn lemma_markdown_determined(
    input: Seq<char>,
    b1: Seq<Block>,
    b2: Seq<Block>,
    c1: RenderContext,
    c2: RenderContext,
    opts: RenderOptions,
    theme: Theme,
)
    requires
        parsed_from(b1, input),
        parsed_from(b2, input),
        context_for(c1, opts, theme),
        context_for(c2, opts, theme),
    ensures
        document_text(b1, c1) == document_text(b2, c2),
{
    lemma_parse_determined(b1, b2, input);
    assert forall|k: int| 0 <= k < c1.images@.len() implies {
        &&& #[trigger] c1.images@[k].path == c2.images@[k].path
        &&& c1.images@[k].png@ == c2.images@[k].png@
        &&& c1.images@[k].width == c2.images@[k].width
        &&& c1.images@[k].height == c2.images@[k].height
    } by {
        assert(c1.images@[k].path == opts.images@[k].path);
        assert(c2.images@[k].path == opts.images@[k].path);
    }
    assert(renders_alike(c1, c2));
    assert(document_theme(c1) == document_theme(c2));
    lemma_blocks_by_model(b1, b2, c1, c2, document_theme(c1));
}

/// Renders Markdown text for a terminal: fails when no built-in theme has the name
/// `opts.theme`; otherwise the document that `input` parses to, rendered in that theme.
pub fn render_markdown_str(input: &str, opts: &RenderOptions) -> (r: Result<String, RenderError>)
    ensures
        match spec_find_theme(opts.theme@) {
            None => r matches Err(RenderError::UnknownTheme(name)) && name@ == opts.theme@,
            Some(theme) => r matches Ok(text) && (exists|blocks: Seq<Block>, ctx: RenderContext|
                #![trigger parsed_from(blocks, input@), context_for(ctx, *opts, theme)]
                parsed_from(blocks, input@) && context_for(ctx, *opts, theme) && rendered_document(
                    text@,
                    blocks,
                    ctx,
                )) && (forall|b: Seq<Block>, c: RenderContext|
                #![trigger parsed_from(b, input@), context_for(c, *opts, theme)]
                parsed_from(b, input@) && context_for(c, *opts, theme) ==> rendered_document(
                    text@,
                    b,
                    c,
                )),
        },
{
    let theme = match find_theme(opts.theme.as_str()) {
        Some(t) => t,
        None => {
            return Err(RenderError::UnknownTheme(opts.theme.clone()));
        },
    };
    let blocks = parse_markdown(input);
    let ctx = RenderContext {
        width: if opts.width < 20 {
            20
        } else {
            opts.width
        },
        theme,
        capabilities: Capabilities {
            ansi: opts.ansi,
            kitty_text_size: opts.kitty_text_size,
            kitty_graphics: opts.kitty_graphics,
            kitty_hyperlinks: opts.kitty_hyperlinks,
        },
        source_dir: opts.source_dir.clone(),
        no_highlight: opts.no_highlight,
        images: copy_images(opts.images.as_slice()),
    };
    assert(context_for(ctx, *opts, theme));
    let r = render_document(blocks.as_slice(), &ctx);
    assert forall|b: Seq<Block>, c: RenderContext|
        #![trigger parsed_from(b, input@), context_for(c, *opts, theme)]
        parsed_from(b, input@) && context_for(c, *opts, theme) implies document_text(b, c)
            == document_text(blocks@, ctx) by {
        lemma_markdown_determined(input@, b, blocks@, c, ctx, *opts, theme);
    }
    r
}

} // verus!
