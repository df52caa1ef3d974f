use vstd::prelude::*;

use crate::kitty::graphics::{kitty_image, kitty_image_sequence, KittyImageOptions, LoadedImage};
use crate::kitty::text_size::{sized, sized_text, TextSize};
use crate::kitty::{lemma_escaped_has_no_terminator, osc_escaped};
use crate::markdown::ast::{
    bv, bvs, inlines_text, items_view, ivs, lemma_text_of_view, opt_view, row_view, rows_view,
    Alignment, Block, Inline,
};
use crate::render::ansi::{apply_style, styled};
use crate::render::inline::{
    lemma_spans_by_model, render_inlines_to_spans, rendered_spans, span_views, Span, SpanV,
};
use crate::same_images;
use crate::render::table::{render_table, rows_strs, strs, table_text, RenderedTable};
use crate::render::wrap::{lines_view, wrap_spans, wrapped};
use crate::highlight::highlighter::{highlighted_code, Highlighter};
use crate::render::{RenderContext, RenderError};
use crate::theme::{Style, Theme};
use crate::util::text::{
    chars_of, decimal, lines, lines_of, push_char, push_chars, push_repeat, push_str, repeat_char,
    push_decimal, str_equals, string_of, to_owned, trim, trim_chars, trim_end_char,
    trim_end_matches_char,
};

verus! {

/// The styled text of one line of spans.
pub open spec fn line_text(line: Seq<SpanV>, ansi: bool) -> Seq<char>
    decreases line.len(),
{
    if line.len() == 0 {
        seq![]
    } else {
        line_text(line.drop_last(), ansi) + styled(line.last().0, line.last().1, ansi)
    }
}

/// Lines of spans, each followed by a newline.
pub open spec fn lines_text(ls: Seq<Seq<SpanV>>, ansi: bool) -> Seq<char>
    decreases ls.len(),
{
    if ls.len() == 0 {
        seq![]
    } else {
        lines_text(ls.drop_last(), ansi) + line_text(ls.last(), ansi) + seq!['\n']
    }
}

/// The style of a heading of `level`: levels past 4 share the fourth style.
pub open spec fn heading_style(theme: Theme, level: u8) -> Style {
    if level == 1 {
        theme.heading1
    } else if level == 2 {
        theme.heading2
    } else if level == 3 {
        theme.heading3
    } else {
        theme.heading4
    }
}

/// A heading's trimmed text: drawn large with the text-sizing protocol for levels up to
/// 2 when the terminal has it (scale 3 for level 1, 2 otherwise), else in the level's style.
pub open spec fn heading_text(level: u8, content: Seq<Inline>, ctx: RenderContext) -> Seq<char> {
    let raw = trim(inlines_text(content));
    if ctx.capabilities.kitty_text_size && level <= 2 {
        sized(
            raw,
            TextSize::Scale(
                if level == 1 {
                    3u8
                } else {
                    2u8
                },
            ),
        )
    } else {
        styled(raw, heading_style(ctx.theme, level), ctx.capabilities.ansi)
    }
}

/// A large heading is a single OSC 66 sequence at scale 3 (level 1) or 2, whose payload is
/// the heading's trimmed text escaped: it holds no ESC or BEL, so no styling is nested in it
/// and nothing ends the sequence early.
pub proof fn lemma_large_heading_unstyled(level: u8, content: Seq<Inline>, ctx: RenderContext)
    requires
        ctx.capabilities.kitty_text_size,
        level <= 2,
    ensures
        heading_text(level, content, ctx) == seq!['\u{1b}', ']', '6', '6', ';', 's', '=']
            + decimal(
            if level == 1 {
                3
            } else {
                2
            },
        ) + seq![';'] + osc_escaped(trim(inlines_text(content))) + seq!['\u{7}'],
        !osc_escaped(trim(inlines_text(content))).contains('\u{1b}'),
        !osc_escaped(trim(inlines_text(content))).contains('\u{7}'),
{
    lemma_escaped_has_no_terminator(trim(inlines_text(content)));
}

/// Newlines after a heading: more under large headings, so the text below clears them.
pub open spec fn heading_gap(kitty_text_size: bool, level: u8) -> nat {
    if kitty_text_size && level == 1 {
        4
    } else if kitty_text_size && level == 2 {
        3
    } else {
        2
    }
}

/// A paragraph: its spans wrapped to the width, line by line, then a blank line.
pub open spec fn paragraph_text(inlines: Seq<Inline>, ctx: RenderContext) -> Seq<char> {
    lines_text(
        wrapped(
            rendered_spans(inlines, ctx.theme, ctx.capabilities.kitty_hyperlinks),
            ctx.width,
        ),
        ctx.capabilities.ansi,
    ) + seq!['\n']
}

/// The text a code block shows: its code highlighted for its language in the theme `hl`,
/// or, without one, the code itself.
pub open spec fn shown_code(code: Seq<char>, lang: Option<Seq<char>>, hl: Option<Seq<char>>) -> Seq<
    char,
> {
    match hl {
        Some(t) => highlighted_code(t, lang, code),
        None => code,
    }
}

/// The lines of a code block's text; an empty text still shows one empty line.
pub open spec fn code_lines(src: Seq<char>) -> Seq<Seq<char>> {
    if src.len() == 0 {
        seq![seq![]]
    } else {
        lines(src)
    }
}

/// Each line after `pipe`, each followed by a newline.
pub open spec fn piped(ls: Seq<Seq<char>>, pipe: Seq<char>) -> Seq<char>
    decreases ls.len(),
{
    if ls.len() == 0 {
        seq![]
    } else {
        piped(ls.drop_last(), pipe) + pipe + ls.last() + seq!['\n']
    }
}

/// A code block in a frame: a top line naming the language (`code` without one), each
/// line behind `| `, and a bottom line.
pub open spec fn code_block_text(lang: Option<Seq<char>>, src: Seq<char>, ctx: RenderContext) -> Seq<
    char,
> {
    let label = match lang {
        Some(l) => l,
        None => seq!['c', 'o', 'd', 'e'],
    };
    let border = ctx.theme.table_border;
    let ansi = ctx.capabilities.ansi;
    styled(seq!['+', '-', '-', ' '] + label + seq![' ', '-', '-'], border, ansi) + seq!['\n']
        + piped(code_lines(src), styled(seq!['|', ' '], border, ansi)) + styled(
        seq!['+', '-', '-'],
        border,
        ansi,
    ) + seq!['\n']
}

/// Quoted lines: an empty line stays empty, any other gets the quote marker.
pub open spec fn quote_lines(ls: Seq<Seq<char>>, ctx: RenderContext) -> Seq<char>
    decreases ls.len(),
{
    if ls.len() == 0 {
        seq![]
    } else {
        quote_lines(ls.drop_last(), ctx) + if ls.last().len() == 0 {
            seq!['\n']
        } else {
            styled(seq!['|', ' '], ctx.theme.quote_marker, ctx.capabilities.ansi) + styled(
                ls.last(),
                ctx.theme.text,
                ctx.capabilities.ansi,
            ) + seq!['\n']
        }
    }
}

/// A block quote around the rendered text `quoted`, then a blank line.
pub open spec fn quote_text(quoted: Seq<char>, ctx: RenderContext) -> Seq<char> {
    quote_lines(lines(quoted), ctx) + seq!['\n']
}

/// Lines after the first of an indented body: an empty one stays empty, any other
/// is indented.
pub open spec fn rest_indented(ls: Seq<Seq<char>>, indent: Seq<char>) -> Seq<char>
    decreases ls.len(),
{
    if ls.len() == 0 {
        seq![]
    } else {
        rest_indented(ls.drop_last(), indent) + if ls.last().len() == 0 {
            seq!['\n']
        } else {
            indent + ls.last() + seq!['\n']
        }
    }
}

/// `body` behind `label`: its first line right after the label, the others indented.
pub open spec fn indented(label: Seq<char>, indent: Seq<char>, body: Seq<char>) -> Seq<char> {
    let ls = lines(body);
    if ls.len() == 0 {
        label + seq!['\n']
    } else {
        label + ls[0] + seq!['\n'] + rest_indented(ls.drop_first(), indent)
    }
}

/// The number of the list item at `idx`: `start` (1 without one) plus `idx`, wrapping
/// around past `u64::MAX`.
pub open spec fn list_number(start: Option<u64>, idx: int) -> u64 {
    let first: u64 = match start {
        Some(s) => s,
        None => 1u64,
    };
    let sum = first + idx;
    if sum > u64::MAX {
        (sum - 0x1_0000_0000_0000_0000) as u64
    } else {
        sum as u64
    }
}

/// The marker of a list item before styling: `n.` in an ordered list, `*` otherwise.
pub open spec fn marker_plain(ordered: bool, start: Option<u64>, idx: int) -> Seq<char> {
    if ordered {
        decimal(list_number(start, idx) as nat) + seq!['.']
    } else {
        seq!['*']
    }
}

/// The list item at `idx` of `n` items, whose blocks rendered to `body`: the body without
/// its final newlines behind the marker, continued lines indented past the marker, and a
/// blank line between non-empty items.
pub open spec fn list_item_text(
    ordered: bool,
    start: Option<u64>,
    idx: int,
    n: int,
    body: Seq<char>,
    ctx: RenderContext,
) -> Seq<char> {
    let item = trim_end_char(body, '\n');
    let mp = marker_plain(ordered, start, idx);
    indented(
        styled(mp, ctx.theme.list_marker, ctx.capabilities.ansi) + seq![' '],
        repeat_char(' ', mp.len() + 1),
        item,
    ) + if idx + 1 < n && item.len() > 0 {
        seq!['\n']
    } else {
        seq![]
    }
}

/// The plain texts of a table's header cells.
pub open spec fn header_texts(hs: Seq<Vec<Inline>>) -> Seq<Seq<char>> {
    hs.map_values(|h: Vec<Inline>| inlines_text(h@))
}

/// The plain texts of a table's body cells.
pub open spec fn row_texts(rows: Seq<Vec<Vec<Inline>>>) -> Seq<Seq<Seq<char>>> {
    rows.map_values(|r: Vec<Vec<Inline>>| header_texts(r@))
}

/// A table of the cells' plain texts, then a blank line.
pub open spec fn table_block_text(
    headers: Seq<Vec<Inline>>,
    rows: Seq<Vec<Vec<Inline>>>,
    aligns: Seq<Alignment>,
    ctx: RenderContext,
) -> Seq<char> {
    table_text(
        header_texts(headers),
        row_texts(rows),
        aligns,
        ctx.width,
        ctx.capabilities.ansi,
        ctx.theme.table_header,
        ctx.theme.table_border,
    ) + seq!['\n', '\n']
}

/// The label of a footnote definition: `[^name]: `.
pub open spec fn footnote_label(name: Seq<char>) -> Seq<char> {
    seq!['[', '^'] + name + seq![']', ':', ' ']
}

/// A footnote definition whose blocks rendered to `body`: the body behind the styled
/// label, continued lines indented by the label's length in bytes.
pub open spec fn footnote_text(name: Seq<char>, body: Seq<char>, ctx: RenderContext) -> Seq<char> {
    let label = footnote_label(name);
    indented(
        styled(label, ctx.theme.link_url, ctx.capabilities.ansi),
        repeat_char(' ', (vstd::utf8::encode_utf8(label).len() as usize) as nat),
        trim_end_char(body, '\n'),
    )
}

/// The width of a horizontal rule: the text width, kept between 3 and 60.
pub open spec fn rule_width(width: usize) -> nat {
    if width < 3 {
        3
    } else if width > 60 {
        60
    } else {
        width as nat
    }
}

/// A horizontal rule of dashes, then a blank line.
pub open spec fn rule_text(ctx: RenderContext) -> Seq<char> {
    styled(repeat_char('-', rule_width(ctx.width)), ctx.theme.rule, ctx.capabilities.ansi) + seq![
        '\n',
        '\n',
    ]
}

/// A rule is as wide as the text, kept between 3 and 60 dashes: never wider than the width
/// when that is at least 3, exactly the width from 3 to 60. Without styling it is just the
/// dashes and a blank line.
pub proof fn lemma_rule_fits_width(ctx: RenderContext, hl: Option<Seq<char>>)
    ensures
        block_text(Block::Rule, ctx, hl) == styled(
            repeat_char('-', rule_width(ctx.width)),
            ctx.theme.rule,
            ctx.capabilities.ansi,
        ) + seq!['\n', '\n'],
        3 <= rule_width(ctx.width) <= 60,
        ctx.width >= 3 ==> rule_width(ctx.width) <= ctx.width,
        3 <= ctx.width <= 60 ==> rule_width(ctx.width) == ctx.width,
        ctx.width > 60 ==> rule_width(ctx.width) == 60,
        ctx.width < 3 ==> rule_width(ctx.width) == 3,
        !ctx.capabilities.ansi ==> {
            let t = block_text(Block::Rule, ctx, hl);
            &&& t.len() == rule_width(ctx.width) + 2
            &&& forall|k: int| 0 <= k < rule_width(ctx.width) ==> #[trigger] t[k] == '-'
            &&& t[t.len() - 1] == '\n' && t[t.len() - 2] == '\n'
        },
{
}

/// The index of the first image loaded from `path`.
pub open spec fn image_index(images: Seq<LoadedImage>, path: Seq<char>) -> Option<int>
    decreases images.len(),
{
    if images.len() == 0 {
        None
    } else {
        match image_index(images.drop_last(), path) {
            Some(k) => Some(k),
            None => if images.last().path@ == path {
                Some(images.len() - 1)
            } else {
                None
            },
        }
    }
}

/// The cells an image may take across: the text width, at most 80.
pub open spec fn image_options(width: usize) -> KittyImageOptions {
    KittyImageOptions {
        max_width_cells: (if width < 80 {
            width
        } else {
            80
        }) as u16,
        max_height_cells: None,
    }
}

/// An image: drawn with the graphics protocol, its alt text below unless blank, when the
/// terminal has it and the image could be loaded; else `[image: alt - path]`.
pub open spec fn image_text(alt: Seq<char>, path: Seq<char>, ctx: RenderContext) -> Seq<char> {
    let found = if ctx.capabilities.kitty_graphics {
        image_index(ctx.images@, path)
    } else {
        None
    };
    match found {
        Some(k) => {
            let img = ctx.images@[k];
            kitty_image(img.png@, img.width, img.height, image_options(ctx.width)) + if trim(
                alt,
            ).len() > 0 {
                seq!['\n'] + alt
            } else {
                seq![]
            }
        },
        None => seq!['[', 'i', 'm', 'a', 'g', 'e', ':', ' '] + alt + seq![' ', '-', ' '] + path
            + seq![']'],
    }
}

/// The rendered text of a block, code blocks highlighted in the theme `hl` where there is
/// one.
pub open spec fn block_text(b: Block, ctx: RenderContext, hl: Option<Seq<char>>) -> Seq<char>
    decreases b,
{
    match b {
        Block::Heading { level, content } => heading_text(level, content@, ctx) + repeat_char(
            '\n',
            heading_gap(ctx.capabilities.kitty_text_size, level),
        ),
        Block::Paragraph(v) => paragraph_text(v@, ctx),
        Block::CodeBlock { lang, code } => code_block_text(
            opt_view(lang),
            shown_code(code@, opt_view(lang), hl),
            ctx,
        ) + seq!['\n'],
        Block::BlockQuote(v) => quote_text(blocks_text(v@, ctx, hl), ctx),
        Block::List { ordered, start, items } => list_text(
            ordered,
            start,
            items@,
            items@.len() as int,
            ctx,
            hl,
        ) + seq!['\n'],
        Block::Table { headers, rows, aligns } => table_block_text(headers@, rows@, aligns@, ctx),
        Block::FootnoteDefinition { name, content } => footnote_text(
            name@,
            blocks_text(content@, ctx, hl),
            ctx,
        ) + seq!['\n'],
        Block::Rule => rule_text(ctx),
        Block::Image { alt, path, .. } => image_text(alt@, path@, ctx) + seq!['\n', '\n'],
    }
}

/// The rendered text of blocks, one after another.
pub open spec fn blocks_text(s: Seq<Block>, ctx: RenderContext, hl: Option<Seq<char>>) -> Seq<char>
    decreases s,
{
    if s.len() == 0 {
        seq![]
    } else {
        blocks_text(s.drop_last(), ctx, hl) + block_text(s.last(), ctx, hl)
    }
}

/// The rendered text of the first `items.len()` items of a list of `n` items.
pub open spec fn list_text(
    ordered: bool,
    start: Option<u64>,
    items: Seq<Vec<Block>>,
    n: int,
    ctx: RenderContext,
    hl: Option<Seq<char>>,
) -> Seq<char>
    decreases items,
{
    if items.len() == 0 {
        seq![]
    } else {
        list_text(ordered, start, items.drop_last(), n, ctx, hl) + list_item_text(
            ordered,
            start,
            items.len() - 1,
            n,
            blocks_text(items.last()@, ctx, hl),
            ctx,
        )
    }
}

/// Rendering blocks one after another is rendering each run in turn.
pub proof fn lemma_blocks_text_concat(
    a: Seq<Block>,
    b: Seq<Block>,
    ctx: RenderContext,
    hl: Option<Seq<char>>,
)
    ensures
        blocks_text(a + b, ctx, hl) == blocks_text(a, ctx, hl) + blocks_text(b, ctx, hl),
        blocks_text(seq![], ctx, hl) == Seq::<char>::empty(),
    decreases b.len(),
{
    if b.len() == 0 {
        assert(a + b =~= a);
        assert(blocks_text(a, ctx, hl) + Seq::<char>::empty() =~= blocks_text(a, ctx, hl));
    } else {
        lemma_blocks_text_concat(a, b.drop_last(), ctx, hl);
        assert((a + b).drop_last() =~= a + b.drop_last());
        assert((a + b).last() == b.last());
        assert(blocks_text(a + b, ctx, hl) =~= blocks_text(a, ctx, hl) + blocks_text(b, ctx, hl));
    }
}

/// Two contexts render alike: the same width, theme and features, and the same images.
pub open spec fn renders_alike(c1: RenderContext, c2: RenderContext) -> bool {
    &&& c1.width == c2.width
    &&& c1.theme == c2.theme
    &&& c1.capabilities == c2.capabilities
    &&& same_images(c1.images@, c2.images@)
}

proof fn lemma_image_index_alike(i1: Seq<LoadedImage>, i2: Seq<LoadedImage>, path: Seq<char>)
    requires
        same_images(i1, i2),
    ensures
        image_index(i1, path) == image_index(i2, path),
    decreases i1.len(),
{
    if i1.len() > 0 {
        let (d1, d2) = (i1.drop_last(), i2.drop_last());
        assert forall|k: int| 0 <= k < d1.len() implies {
            &&& #[trigger] d1[k].path == d2[k].path
            &&& d1[k].png@ == d2[k].png@
            &&& d1[k].width == d2[k].width
            &&& d1[k].height == d2[k].height
        } by {
            assert(d1[k] == i1[k] && d2[k] == i2[k]);
            assert(i1[k].path == i2[k].path);
        }
        lemma_image_index_alike(d1, d2, path);
        assert(i1[i1.len() - 1].path == i2[i2.len() - 1].path);
    }
}

proof fn lemma_image_text_alike(alt: Seq<char>, path: Seq<char>, c1: RenderContext, c2: RenderContext)
    requires
        renders_alike(c1, c2),
    ensures
        image_text(alt, path, c1) == image_text(alt, path, c2),
{
    lemma_image_index_alike(c1.images@, c2.images@, path);
    lemma_image_index_in(c1.images@, path);
    if let Some(k) = image_index(c1.images@, path) {
        assert(c1.images@[k].path == c2.images@[k].path);
    }
}

proof fn lemma_image_index_in(images: Seq<LoadedImage>, path: Seq<char>)
    ensures
        image_index(images, path) matches Some(k) ==> 0 <= k < images.len(),
    decreases images.len(),
{
    if images.len() > 0 {
        lemma_image_index_in(images.drop_last(), path);
    }
}

proof fn lemma_quote_lines_alike(ls: Seq<Seq<char>>, c1: RenderContext, c2: RenderContext)
    requires
        renders_alike(c1, c2),
    ensures
        quote_lines(ls, c1) == quote_lines(ls, c2),
    decreases ls.len(),
{
    if ls.len() > 0 {
        lemma_quote_lines_alike(ls.drop_last(), c1, c2);
    }
}

proof fn lemma_header_texts_by_model(h1: Seq<Vec<Inline>>, h2: Seq<Vec<Inline>>)
    requires
        row_view(h1) == row_view(h2),
    ensures
        header_texts(h1) == header_texts(h2),
{
    assert(h1.len() == row_view(h1).len() && h2.len() == row_view(h2).len());
    assert forall|k: int| 0 <= k < h1.len() implies #[trigger] header_texts(h1)[k] == header_texts(
        h2,
    )[k] by {
        assert(row_view(h1)[k] == ivs(h1[k]@) && row_view(h2)[k] == ivs(h2[k]@));
        lemma_text_of_view(h1[k]@);
        lemma_text_of_view(h2[k]@);
    }
    assert(header_texts(h1) =~= header_texts(h2));
}

proof fn lemma_row_texts_by_model(r1: Seq<Vec<Vec<Inline>>>, r2: Seq<Vec<Vec<Inline>>>)
    requires
        rows_view(r1) == rows_view(r2),
    ensures
        row_texts(r1) == row_texts(r2),
{
    assert(r1.len() == rows_view(r1).len() && r2.len() == rows_view(r2).len());
    assert forall|k: int| 0 <= k < r1.len() implies #[trigger] row_texts(r1)[k] == row_texts(r2)[k] by {
        assert(rows_view(r1)[k] == row_view(r1[k]@) && rows_view(r2)[k] == row_view(r2[k]@));
        lemma_header_texts_by_model(r1[k]@, r2[k]@);
    }
    assert(row_texts(r1) =~= row_texts(r2));
}

proof fn lemma_items_view_len(s: Seq<Vec<Block>>)
    ensures
        items_view(s).len() == s.len(),
    decreases s.len(),
{
    if s.len() > 0 {
        lemma_items_view_len(s.drop_last());
    }
}

proof fn lemma_bvs_len(s: Seq<Block>)
    ensures
        bvs(s).len() == s.len(),
    decreases s.len(),
{
    if s.len() > 0 {
        lemma_bvs_len(s.drop_last());
    }
}

/// Blocks with the same model render alike in contexts that render alike.
pub proof fn lemma_blocks_by_model(
    a: Seq<Block>,
    b: Seq<Block>,
    c1: RenderContext,
    c2: RenderContext,
    hl: Option<Seq<char>>,
)
    requires
        bvs(a) == bvs(b),
        renders_alike(c1, c2),
    ensures
        blocks_text(a, c1, hl) == blocks_text(b, c2, hl),
    decreases a,
{
    lemma_bvs_len(a);
    lemma_bvs_len(b);
    if a.len() > 0 {
        assert(bvs(a).drop_last() == bvs(a.drop_last()));
        assert(bvs(b).drop_last() == bvs(b.drop_last()));
        lemma_blocks_by_model(a.drop_last(), b.drop_last(), c1, c2, hl);
        assert(bvs(a).last() == bv(a.last()));
        assert(bvs(b).last() == bv(b.last()));
        lemma_block_by_model(a.last(), b.last(), c1, c2, hl);
    }
}

proof fn lemma_list_by_model(
    ordered: bool,
    start: Option<u64>,
    i1: Seq<Vec<Block>>,
    i2: Seq<Vec<Block>>,
    n: int,
    c1: RenderContext,
    c2: RenderContext,
    hl: Option<Seq<char>>,
)
    requires
        items_view(i1) == items_view(i2),
        renders_alike(c1, c2),
    ensures
        list_text(ordered, start, i1, n, c1, hl) == list_text(ordered, start, i2, n, c2, hl),
    decreases i1,
{
    lemma_items_view_len(i1);
    lemma_items_view_len(i2);
    if i1.len() > 0 {
        assert(items_view(i1).drop_last() == items_view(i1.drop_last()));
        assert(items_view(i2).drop_last() == items_view(i2.drop_last()));
        lemma_list_by_model(ordered, start, i1.drop_last(), i2.drop_last(), n, c1, c2, hl);
        assert(items_view(i1).last() == bvs(i1.last()@));
        assert(items_view(i2).last() == bvs(i2.last()@));
        lemma_blocks_by_model(i1.last()@, i2.last()@, c1, c2, hl);
    }
}

#[verifier::rlimit(40)]
proof fn lemma_block_by_model(
    x: Block,
    y: Block,
    c1: RenderContext,
    c2: RenderContext,
    hl: Option<Seq<char>>,
)
    requires
        bv(x) == bv(y),
        renders_alike(c1, c2),
    ensures
        block_text(x, c1, hl) == block_text(y, c2, hl),
    decreases x,
{
    match x {
        Block::Heading { level, content } => {
            lemma_text_of_view(content@);
            lemma_text_of_view((y->Heading_content)@);
        },
        Block::Paragraph(v) => {
            lemma_spans_by_model(v@, (y->Paragraph_0)@, c1.theme.text, c1.theme, c1.capabilities.kitty_hyperlinks);
        },
        Block::BlockQuote(v) => {
            lemma_blocks_by_model(v@, (y->BlockQuote_0)@, c1, c2, hl);
            lemma_quote_lines_alike(lines(blocks_text(v@, c1, hl)), c1, c2);
        },
        Block::List { ordered, start, items } => {
            let i2 = y->List_items;
            lemma_items_view_len(items@);
            lemma_items_view_len(i2@);
            lemma_list_by_model(ordered, start, items@, i2@, items@.len() as int, c1, c2, hl);
        },
        Block::Table { headers, rows, aligns } => {
            lemma_header_texts_by_model(headers@, (y->Table_headers)@);
            lemma_row_texts_by_model(rows@, (y->Table_rows)@);
        },
        Block::FootnoteDefinition { name, content } => {
            lemma_blocks_by_model(content@, (y->FootnoteDefinition_content)@, c1, c2, hl);
        },
        Block::Image { alt, path, .. } => {
            lemma_image_text_alike(alt@, path@, c1, c2);
        },
        _ => {},
    }
}

/// What a render reads of the state: the highlighter code blocks are highlighted with.
pub struct RenderState {
    pub highlighter: Option<Highlighter>,
}

/// The theme code blocks are highlighted in: that of the state's highlighter where colour
/// is on and the highlighter has a theme at hand; none otherwise.
pub open spec fn code_theme(state: RenderState, ctx: RenderContext) -> Option<Seq<char>> {
    match state.highlighter {
        Some(h) => if ctx.capabilities.ansi {
            h.highlights_with()
        } else {
            None
        },
        None => None,
    }
}

/// The spans of one line, each in its style.
fn spans_to_ansi_line(spans: &[Span], ansi: bool) -> (r: String)
    ensures
        r@ == line_text(span_views(spans@), ansi),
{
    let mut line = String::new();
    for i in 0..spans.len()
        invariant
            line@ == line_text(span_views(spans@.take(i as int)), ansi),
    {
        let piece = apply_style(spans[i].text.as_str(), spans[i].style, ansi);
        push_str(&mut line, piece.as_str());
        assert(span_views(spans@.take(i + 1)).drop_last() =~= span_views(spans@.take(i as int)));
    }
    assert(spans@.take(spans@.len() as int) =~= spans@);
    line
}

/// Appends `body` behind `label`, its later lines indented (see `indented`).
fn push_indented(out: &mut String, label: &str, indent: &str, body: &str)
    ensures
        final(out)@ == old(out)@ + indented(label@, indent@, body@),
{
    let cs = chars_of(body);
    let ls = lines_of(cs.as_slice());
    let ghost lv = lines(body@);
    push_str(out, label);
    if ls.len() == 0 {
        push_char(out, '\n');
        return ;
    }
    push_chars(out, ls[0].as_slice());
    push_char(out, '\n');
    let ghost start = out@;
    assert(start == old(out)@ + label@ + lv[0] + seq!['\n']);
    let mut i: usize = 1;
    while i < ls.len()
        invariant
            1 <= i <= ls@.len(),
            ls@.len() == lv.len(),
            forall|k: int| 0 <= k < ls@.len() ==> #[trigger] ls@[k]@ == lv[k],
            out@ == start + rest_indented(lv.subrange(1, i as int), indent@),
        decreases ls@.len() - i,
    {
        assert(lv.subrange(1, i + 1).drop_last() =~= lv.subrange(1, i as int));
        assert(ls@[i as int]@ == lv[i as int]);
        if ls[i].len() == 0 {
            push_char(out, '\n');
        } else {
            push_str(out, indent);
            push_chars(out, ls[i].as_slice());
            push_char(out, '\n');
        }
        i = i + 1;
    }
    assert(lv.subrange(1, lv.len() as int) =~= lv.drop_first());
}

/// Appends a heading's text (see `heading_text`).
fn render_heading(level: u8, inlines: &[Inline], ctx: &RenderContext, out: &mut String)
    ensures
        final(out)@ == old(out)@ + heading_text(level, inlines@, *ctx),
{
    let plain = Inline::plain_text(inlines);
    let cs = chars_of(plain.as_str());
    let trimmed = trim_chars(cs.as_slice());
    let raw = string_of(trimmed.as_slice());
    let ansi = ctx.capabilities.ansi;
    let text = if ctx.capabilities.kitty_text_size && level <= 2 {
        let size = TextSize::Scale(
            if level == 1 {
                3
            } else {
                2
            },
        );
        sized_text(raw.as_str(), size)
    } else {
        let style = if level == 1 {
            ctx.theme.heading1
        } else if level == 2 {
            ctx.theme.heading2
        } else if level == 3 {
            ctx.theme.heading3
        } else {
            ctx.theme.heading4
        };
        apply_style(raw.as_str(), style, ansi)
    };
    push_str(out, text.as_str());
}

/// Appends a paragraph (see `paragraph_text`).
fn render_paragraph(inlines: &[Inline], ctx: &RenderContext, out: &mut String)
    ensures
        final(out)@ == old(out)@ + paragraph_text(inlines@, *ctx),
{
    let spans = render_inlines_to_spans(inlines, ctx);
    let lines = wrap_spans(spans.as_slice(), ctx.width);
    let ghost lv = lines_view(lines@);
    let ghost start = out@;
    for i in 0..lines.len()
        invariant
            lv == lines_view(lines@),
            out@ == start + lines_text(lv.take(i as int), ctx.capabilities.ansi),
    {
        assert(lv.take(i + 1).drop_last() =~= lv.take(i as int));
        assert(lv[i as int] == span_views(lines@[i as int]@));
        let line = spans_to_ansi_line(lines[i].as_slice(), ctx.capabilities.ansi);
        push_str(out, line.as_str());
        push_char(out, '\n');
    }
    assert(lv.take(lv.len() as int) =~= lv);
    push_char(out, '\n');
}

/// Appends the line `| line` for each line of `src` (see `code_lines`).
fn push_code_lines(out: &mut String, src: &str, pipe: &str)
    ensures
        final(out)@ == old(out)@ + piped(code_lines(src@), pipe@),
{
    let cs = chars_of(src);
    if cs.len() == 0 {
        push_str(out, pipe);
        push_char(out, '\n');
        let ghost one: Seq<Seq<char>> = seq![seq![]];
        assert(one.drop_last() =~= Seq::<Seq<char>>::empty());
        assert(piped(Seq::<Seq<char>>::empty(), pipe@) == Seq::<char>::empty());
        assert(piped(one, pipe@) =~= pipe@ + seq!['\n']);
        return ;
    }
    let ls = lines_of(cs.as_slice());
    let ghost lv = lines(src@);
    let ghost start = out@;
    for i in 0..ls.len()
        invariant
            ls@.len() == lv.len(),
            forall|k: int| 0 <= k < ls@.len() ==> #[trigger] ls@[k]@ == lv[k],
            out@ == start + piped(lv.take(i as int), pipe@),
    {
        assert(lv.take(i + 1).drop_last() =~= lv.take(i as int));
        assert(ls@[i as int]@ == lv[i as int]);
        push_str(out, pipe);
        push_chars(out, ls[i].as_slice());
        push_char(out, '\n');
    }
    assert(lv.take(lv.len() as int) =~= lv);
}

/// The model of an optional string slice.
pub open spec fn opt_str(o: Option<&str>) -> Option<Seq<char>> {
    match o {
        Some(s) => Some(s@),
        None => None,
    }
}

/// The top line of a code block's frame, before styling: `+-- lang --`.
fn frame_top(lang: Option<&str>) -> (r: String)
    ensures
        r@ == seq!['+', '-', '-', ' '] + match opt_str(lang) {
            Some(l) => l,
            None => seq!['c', 'o', 'd', 'e'],
        } + seq![' ', '-', '-'],
{
    let mut top = String::new();
    push_str(&mut top, "+-- ");
    match lang {
        Some(l) => push_str(&mut top, l),
        None => push_str(&mut top, "code"),
    }
    push_str(&mut top, " --");
    proof {
        reveal_strlit("+-- ");
        reveal_strlit("code");
        reveal_strlit(" --");
    }
    top
}

/// Appends a code block (see `code_block_text`), its code highlighted where colour is on
/// and `state` has a highlighter.
fn render_code_block(
    lang: Option<&str>,
    code: &str,
    ctx: &RenderContext,
    state: &RenderState,
    out: &mut String,
)
    ensures
        final(out)@ == old(out)@ + code_block_text(
            opt_str(lang),
            shown_code(code@, opt_str(lang), code_theme(*state, *ctx)),
            *ctx,
        ),
{
    let ghost src = shown_code(code@, opt_str(lang), code_theme(*state, *ctx));
    let rendered = match &state.highlighter {
        Some(h) => if ctx.capabilities.ansi {
            h.highlight_code(code, lang)
        } else {
            to_owned(code)
        },
        None => to_owned(code),
    };
    assert(rendered@ == src);
    let border = ctx.theme.table_border;
    let ansi = ctx.capabilities.ansi;
    let top = frame_top(lang);
    let ghost label = match opt_str(lang) {
        Some(l) => l,
        None => seq!['c', 'o', 'd', 'e'],
    };
    let top_styled = apply_style(top.as_str(), border, ansi);
    push_str(out, top_styled.as_str());
    push_char(out, '\n');
    let ghost o1 = out@;
    assert(o1 == old(out)@ + styled(seq!['+', '-', '-', ' '] + label + seq![' ', '-', '-'], border, ansi) + seq!['\n']);
    let pipe = apply_style("| ", border, ansi);
    proof {
        reveal_strlit("| ");
    }
    assert(pipe@ == styled(seq!['|', ' '], border, ansi));
    push_code_lines(out, rendered.as_str(), pipe.as_str());
    let ghost o2 = out@;
    assert(o2 == o1 + piped(code_lines(src), styled(seq!['|', ' '], border, ansi)));
    let bottom = apply_style("+--", border, ansi);
    proof {
        reveal_strlit("+--");
    }
    assert(bottom@ == styled(seq!['+', '-', '-'], border, ansi));
    push_str(out, bottom.as_str());
    push_char(out, '\n');
    assert(out@ =~= old(out)@ + code_block_text(opt_str(lang), src, *ctx));
}

/// Appends the block quote around `quoted` (see `quote_text`).
fn push_quoted(out: &mut String, quoted: &str, ctx: &RenderContext)
    ensures
        final(out)@ == old(out)@ + quote_text(quoted@, *ctx),
{
    let cs = chars_of(quoted);
    let ls = lines_of(cs.as_slice());
    let ghost lv = lines(quoted@);
    let ghost start = out@;
    let ansi = ctx.capabilities.ansi;
    for i in 0..ls.len()
        invariant
            ansi == ctx.capabilities.ansi,
            ls@.len() == lv.len(),
            forall|k: int| 0 <= k < ls@.len() ==> #[trigger] ls@[k]@ == lv[k],
            out@ == start + quote_lines(lv.take(i as int), *ctx),
    {
        assert(lv.take(i + 1).drop_last() =~= lv.take(i as int));
        assert(ls@[i as int]@ == lv[i as int]);
        if ls[i].len() == 0 {
            push_char(out, '\n');
        } else {
            let prefix = apply_style("| ", ctx.theme.quote_marker, ansi);
            proof {
                reveal_strlit("| ");
            }
            push_str(out, prefix.as_str());
            let line = string_of(ls[i].as_slice());
            let body = apply_style(line.as_str(), ctx.theme.text, ansi);
            push_str(out, body.as_str());
            push_char(out, '\n');
        }
    }
    assert(lv.take(lv.len() as int) =~= lv);
    push_char(out, '\n');
}

/// The plain texts of table cells.
fn cell_texts(cells: &[Vec<Inline>]) -> (r: Vec<String>)
    ensures
        r@.map_values(|s: String| s@) == header_texts(cells@),
{
    let mut out: Vec<String> = Vec::new();
    for i in 0..cells.len()
        invariant
            out@.len() == i,
            forall|j: int| 0 <= j < i ==> #[trigger] out@[j]@ == inlines_text(cells@[j]@),
    {
        let t = Inline::plain_text(cells[i].as_slice());
        out.push(t);
    }
    assert(out@.map_values(|s: String| s@) =~= header_texts(cells@));
    out
}

/// Appends a table (see `table_block_text`).
fn render_table_block(
    headers: &[Vec<Inline>],
    rows: &[Vec<Vec<Inline>>],
    aligns: &[Alignment],
    ctx: &RenderContext,
    out: &mut String,
)
    ensures
        final(out)@ == old(out)@ + table_block_text(headers@, rows@, aligns@, *ctx),
{
    let header_strs = cell_texts(headers);
    let mut row_strs: Vec<Vec<String>> = Vec::new();
    for i in 0..rows.len()
        invariant
            row_strs@.len() == i,
            forall|j: int| 0 <= j < i ==> #[trigger] strs(row_strs@[j]@) == header_texts(rows@[j]@),
    {
        let r = cell_texts(rows[i].as_slice());
        row_strs.push(r);
    }
    let mut align_copy: Vec<Alignment> = Vec::new();
    for i in 0..aligns.len()
        invariant
            align_copy@ == aligns@.take(i as int),
    {
        align_copy.push(aligns[i]);
        assert(align_copy@ =~= aligns@.take(i + 1));
    }
    assert(aligns@.take(aligns@.len() as int) =~= aligns@);
    let rendered = RenderedTable { headers: header_strs, rows: row_strs, aligns: align_copy };
    assert(strs(rendered.headers@) =~= header_texts(headers@));
    assert(rows_strs(rendered.rows@) =~= row_texts(rows@));
    let text = render_table(
        &rendered,
        ctx.width,
        ctx.capabilities.ansi,
        ctx.theme.table_header,
        ctx.theme.table_border,
    );
    push_str(out, text.as_str());
    push_char(out, '\n');
    push_char(out, '\n');
}

/// Appends a horizontal rule (see `rule_text`).
fn render_rule(ctx: &RenderContext, out: &mut String)
    ensures
        final(out)@ == old(out)@ + rule_text(*ctx),
{
    let rule_width = if ctx.width < 3 {
        3
    } else if ctx.width > 60 {
        60
    } else {
        ctx.width
    };
    let mut rule = String::new();
    push_repeat(&mut rule, '-', rule_width);
    let styled_rule = apply_style(rule.as_str(), ctx.theme.rule, ctx.capabilities.ansi);
    push_str(out, styled_rule.as_str());
    push_char(out, '\n');
    push_char(out, '\n');
}

/// The index of the first of `images` loaded from `path`.
fn find_image(images: &[LoadedImage], path: &str) -> (r: Option<usize>)
    ensures
        match r {
            Some(k) => k < images@.len() && image_index(images@, path@) == Some(k as int),
            None => image_index(images@, path@) is None,
        },
{
    for i in 0..images.len()
        invariant
            image_index(images@.take(i as int), path@) is None,
    {
        assert(images@.take(i + 1).drop_last() =~= images@.take(i as int));
        if str_equals(images[i].path.as_str(), path) {
            proof {
                lemma_image_index_prefix(images@, path@, i as int);
            }
            return Some(i);
        }
    }
    assert(images@.take(images@.len() as int) =~= images@);
    None
}

/// An image found in a prefix is found at the same index in the whole sequence.
proof fn lemma_image_index_prefix(images: Seq<LoadedImage>, path: Seq<char>, k: int)
    requires
        0 <= k < images.len(),
        image_index(images.take(k), path) is None,
        images[k].path@ == path,
    ensures
        image_index(images, path) == Some(k),
    decreases images.len(),
{
    if images.len() == k + 1 {
        assert(images.drop_last() =~= images.take(k));
    } else {
        assert(images.drop_last().take(k) =~= images.take(k));
        lemma_image_index_prefix(images.drop_last(), path, k);
    }
}

/// Appends an image (see `image_text`), without the blank line after it.
fn render_image_block(alt: &str, path: &str, ctx: &RenderContext, out: &mut String)
    ensures
        final(out)@ == old(out)@ + image_text(alt@, path@, *ctx),
{
    if ctx.capabilities.kitty_graphics {
        match find_image(ctx.images.as_slice(), path) {
            Some(k) => {
                let img = &ctx.images[k];
                let cells: u16 = if ctx.width < 80 {
                    ctx.width as u16
                } else {
                    80
                };
                let opts = KittyImageOptions { max_width_cells: cells, max_height_cells: None };
                assert(opts == image_options(ctx.width));
                let seq = kitty_image_sequence(img.png.as_slice(), img.width, img.height, opts);
                push_str(out, seq.as_str());
                let alt_chars = chars_of(alt);
                let trimmed = trim_chars(alt_chars.as_slice());
                if trimmed.len() > 0 {
                    push_char(out, '\n');
                    push_str(out, alt);
                }
                return ;
            },
            None => {},
        }
    }
    push_str(out, "[image: ");
    push_str(out, alt);
    push_str(out, " - ");
    push_str(out, path);
    push_char(out, ']');
    proof {
        reveal_strlit("[image: ");
        reveal_strlit(" - ");
    }
}

/// Appends every block in turn (see `blocks_text`).
pub(crate) fn render_blocks(blocks: &[Block], ctx: &RenderContext, state: &mut RenderState, out: &mut String)
    ensures
        *final(state) == *old(state),
        final(out)@ == old(out)@ + blocks_text(blocks@, *ctx, code_theme(*old(state), *ctx)),
    decreases blocks@, 0int,
{
    let ghost s0 = *state;
    let ghost hl = code_theme(s0, *ctx);
    let ghost start = out@;
    for i in 0..blocks.len()
        invariant
            *state == s0,
            hl == code_theme(s0, *ctx),
            out@ == start + blocks_text(blocks@.take(i as int), *ctx, hl),
    {
        assert(blocks@.take(i + 1).drop_last() =~= blocks@.take(i as int));
        let _ = render_block(&blocks[i], ctx, state, out);
    }
    assert(blocks@.take(blocks@.len() as int) =~= blocks@);
}

/// Appends the list item at `idx` of `n` items, whose blocks rendered to `body` (see
/// `list_item_text`).
fn push_list_item(
    ordered: bool,
    start: Option<u64>,
    idx: usize,
    n: usize,
    body: &str,
    ctx: &RenderContext,
    out: &mut String,
)
    requires
        idx < n,
    ensures
        final(out)@ == old(out)@ + list_item_text(ordered, start, idx as int, n as int, body@, *ctx),
{
    let trimmed = trim_end_matches_char(body, '\n');
    let mut marker_text = String::new();
    if ordered {
        let first: u64 = match start {
            Some(s) => s,
            None => 1,
        };
        let number = first.wrapping_add(idx as u64);
        assert(number == list_number(start, idx as int));
        push_decimal(&mut marker_text, number);
        push_char(&mut marker_text, '.');
    } else {
        push_char(&mut marker_text, '*');
    }
    assert(marker_text@ =~= marker_plain(ordered, start, idx as int));
    let mut label = apply_style(marker_text.as_str(), ctx.theme.list_marker, ctx.capabilities.ansi);
    push_char(&mut label, ' ');
    let marker_chars = chars_of(marker_text.as_str());
    let mut indent = String::new();
    push_repeat(&mut indent, ' ', marker_chars.len());
    push_char(&mut indent, ' ');
    assert(indent@ =~= repeat_char(' ', marker_text@.len() + 1));
    push_indented(out, label.as_str(), indent.as_str(), trimmed.as_str());
    if idx + 1 < n && !trimmed.as_str().is_empty() {
        push_char(out, '\n');
    }
}

/// Appends a list's items (see `list_text`).
#[verifier::rlimit(40)]
fn render_list(
    ordered: bool,
    start: Option<u64>,
    items: &[Vec<Block>],
    ctx: &RenderContext,
    state: &mut RenderState,
    out: &mut String,
)
    ensures
        *final(state) == *old(state),
        final(out)@ == old(out)@ + list_text(
            ordered,
            start,
            items@,
            items@.len() as int,
            *ctx,
            code_theme(*old(state), *ctx),
        ),
    decreases items@, 0int,
{
    let ghost s0 = *state;
    let ghost hl = code_theme(s0, *ctx);
    let ghost begin = out@;
    let n = items.len();
    for i in 0..n
        invariant
            n == items@.len(),
            *state == s0,
            hl == code_theme(s0, *ctx),
            out@ == begin + list_text(ordered, start, items@.take(i as int), n as int, *ctx, hl),
    {
        assert(items@.take(i + 1).drop_last() =~= items@.take(i as int));
        let mut item_text = String::new();
        render_blocks(items[i].as_slice(), ctx, state, &mut item_text);
        assert(item_text@ == blocks_text(items@.take(i + 1).last()@, *ctx, hl));
        push_list_item(ordered, start, i, n, item_text.as_str(), ctx, out);
    }
    assert(items@.take(n as int) =~= items@);
}

/// Appends a footnote definition (see `footnote_text`), without the blank line after it.
fn render_footnote_definition(
    name: &str,
    content: &[Block],
    ctx: &RenderContext,
    state: &mut RenderState,
    out: &mut String,
)
    ensures
        *final(state) == *old(state),
        final(out)@ == old(out)@ + footnote_text(
            name@,
            blocks_text(content@, *ctx, code_theme(*old(state), *ctx)),
            *ctx,
        ),
    decreases content@, 1int,
{
    let mut body = String::new();
    render_blocks(content, ctx, state, &mut body);
    let trimmed = trim_end_matches_char(body.as_str(), '\n');
    let mut label = String::new();
    push_str(&mut label, "[^");
    push_str(&mut label, name);
    push_str(&mut label, "]: ");
    proof {
        reveal_strlit("[^");
        reveal_strlit("]: ");
    }
    assert(label@ =~= footnote_label(name@));
    let label_styled = apply_style(label.as_str(), ctx.theme.link_url, ctx.capabilities.ansi);
    let mut indent = String::new();
    push_repeat(&mut indent, ' ', label.as_str().len());
    push_indented(out, label_styled.as_str(), indent.as_str(), trimmed.as_str());
}

/// Appends one block to `out` (see `block_text`): where colour is on and `state` has a
/// highlighter, code blocks are highlighted with it. The state is only read.
pub fn render_block(
    block: &Block,
    ctx: &RenderContext,
    state: &mut RenderState,
    out: &mut String,
) -> (r: Result<(), RenderError>)
    ensures
        r is Ok,
        *final(state) == *old(state),
        final(out)@ == old(out)@ + block_text(*block, *ctx, code_theme(*old(state), *ctx)),
    decreases block, 0int,
{
    match block {
        Block::Heading { level, content } => {
            render_heading(*level, content.as_slice(), ctx, out);
            let gap: usize = if ctx.capabilities.kitty_text_size && *level == 1 {
                4
            } else if ctx.capabilities.kitty_text_size && *level == 2 {
                3
            } else {
                2
            };
            push_repeat(out, '\n', gap);
        },
        Block::Paragraph(inlines) => {
            render_paragraph(inlines.as_slice(), ctx, out);
        },
        Block::CodeBlock { lang, code } => {
            let l: Option<&str> = match lang {
                Some(s) => Some(s.as_str()),
                None => None,
            };
            assert(opt_str(l) == opt_view(*lang));
            render_code_block(l, code.as_str(), ctx, &*state, out);
            push_char(out, '\n');
        },
        Block::BlockQuote(blocks) => {
            let mut quoted = String::new();
            render_blocks(blocks.as_slice(), ctx, state, &mut quoted);
            push_quoted(out, quoted.as_str(), ctx);
        },
        Block::List { ordered, start, items } => {
            render_list(*ordered, *start, items.as_slice(), ctx, state, out);
            push_char(out, '\n');
        },
        Block::Table { headers, rows, aligns } => {
            render_table_block(headers.as_slice(), rows.as_slice(), aligns.as_slice(), ctx, out);
        },
        Block::FootnoteDefinition { name, content } => {
            render_footnote_definition(name.as_str(), content.as_slice(), ctx, state, out);
            push_char(out, '\n');
        },
        Block::Rule => {
            render_rule(ctx, out);
        },
        Block::Image { alt, path, .. } => {
            render_image_block(alt.as_str(), path.as_str(), ctx, out);
            push_char(out, '\n');
            push_char(out, '\n');
        },
    }
    Ok(())
}

/// The paths of a block's images, in document order (images inside paragraphs are shown
/// as text and not counted).
pub open spec fn block_images(b: Block) -> Seq<Seq<char>>
    decreases b,
{
    match b {
        Block::Image { path, .. } => seq![path@],
        Block::BlockQuote(v) => blocks_images(v@),
        Block::List { items, .. } => items_images(items@),
        Block::FootnoteDefinition { content, .. } => blocks_images(content@),
        _ => seq![],
    }
}

/// The paths of the images of a sequence of blocks, in document order.
pub open spec fn blocks_images(s: Seq<Block>) -> Seq<Seq<char>>
    decreases s,
{
    if s.len() == 0 {
        seq![]
    } else {
        blocks_images(s.drop_last()) + block_images(s.last())
    }
}

/// The paths of the images of a list's items, in document order.
pub open spec fn items_images(items: Seq<Vec<Block>>) -> Seq<Seq<char>>
    decreases items,
{
    if items.len() == 0 {
        seq![]
    } else {
        items_images(items.drop_last()) + blocks_images(items.last()@)
    }
}

/// The paths of the images that `blocks` show as images, in document order: the files to
/// load before rendering with the graphics protocol.
pub fn image_paths(blocks: &[Block]) -> (r: Vec<String>)
    ensures
        r@.map_values(|p: String| p@) == blocks_images(blocks@),
{
    let mut out: Vec<String> = Vec::new();
    push_image_paths(blocks, &mut out);
    out
}

fn push_image_paths(blocks: &[Block], out: &mut Vec<String>)
    ensures
        final(out)@.map_values(|p: String| p@) == old(out)@.map_values(|p: String| p@)
            + blocks_images(blocks@),
    decreases blocks@, 0int,
{
    let ghost start = out@.map_values(|p: String| p@);
    for i in 0..blocks.len()
        invariant
            out@.map_values(|p: String| p@) == start + blocks_images(blocks@.take(i as int)),
    {
        assert(blocks@.take(i + 1).drop_last() =~= blocks@.take(i as int));
        push_block_image_paths(&blocks[i], out);
    }
    assert(blocks@.take(blocks@.len() as int) =~= blocks@);
}

fn push_items_image_paths(items: &[Vec<Block>], out: &mut Vec<String>)
    ensures
        final(out)@.map_values(|p: String| p@) == old(out)@.map_values(|p: String| p@)
            + items_images(items@),
    decreases items@, 0int,
{
    let ghost start = out@.map_values(|p: String| p@);
    for i in 0..items.len()
        invariant
            out@.map_values(|p: String| p@) == start + items_images(items@.take(i as int)),
    {
        assert(items@.take(i + 1).drop_last() =~= items@.take(i as int));
        push_image_paths(items[i].as_slice(), out);
    }
    assert(items@.take(items@.len() as int) =~= items@);
}

fn push_block_image_paths(block: &Block, out: &mut Vec<String>)
    ensures
        final(out)@.map_values(|p: String| p@) == old(out)@.map_values(|p: String| p@)
            + block_images(*block),
    decreases block, 0int,
{
    match block {
        Block::Image { path, .. } => {
            out.push(path.clone());
            assert(out@.map_values(|p: String| p@) =~= old(out)@.map_values(|p: String| p@)
                + seq![path@]);
        },
        Block::BlockQuote(v) => push_image_paths(v.as_slice(), out),
        Block::List { items, .. } => push_items_image_paths(items.as_slice(), out),
        Block::FootnoteDefinition { content, .. } => push_image_paths(content.as_slice(), out),
        _ => {
            assert(out@.map_values(|p: String| p@) =~= old(out)@.map_values(|p: String| p@)
                + seq![]);
        },
    }
}

} // verus!
