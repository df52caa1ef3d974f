use vstd::prelude::*;

use crate::kitty::hyperlink::{osc8, osc8_link};
use crate::markdown::ast::{inlines_text, iv, ivs, lemma_ivs_index, lemma_text_of_view, push_plain_text, Inline};
use crate::render::RenderContext;
use crate::theme::{Style, Theme};
use crate::util::text::{push_char, push_str};

verus! {

/// A run of text drawn in one style.
#[derive(Debug, Clone)]
pub struct Span {
    pub text: String,
    pub style: Style,
}

/// A span as its text and style.
pub type SpanV = (Seq<char>, Style);

/// The model of a sequence of spans.
pub open spec fn span_views(s: Seq<Span>) -> Seq<SpanV> {
    s.map_values(|sp: Span| (sp.text@, sp.style))
}

/// `overlay` laid over `base`: its colours win where it has them, attributes add up.
pub open spec fn merged(base: Style, overlay: Style) -> Style {
    Style {
        fg: if overlay.fg is Some {
            overlay.fg
        } else {
            base.fg
        },
        bg: if overlay.bg is Some {
            overlay.bg
        } else {
            base.bg
        },
        bold: base.bold || overlay.bold,
        italic: base.italic || overlay.italic,
        underline: base.underline || overlay.underline,
        dim: base.dim || overlay.dim,
    }
}

/// The spans one inline element turns into, in style `base` (before merging).
pub open spec fn inline_spans(i: Inline, base: Style, theme: Theme, links: bool) -> Seq<SpanV>
    decreases i,
{
    match i {
        Inline::Text(t) => seq![(t@, base)],
        Inline::Code(c) => seq![(c@, merged(base, theme.inline_code))],
        Inline::SoftBreak => seq![(seq![' '], base)],
        Inline::HardBreak => seq![(seq!['\n'], base)],
        Inline::Emph(v) => inlines_spans(v@, merged(base, theme.emphasis), theme, links),
        Inline::Strong(v) => inlines_spans(v@, merged(base, theme.strong), theme, links),
        Inline::Strike(v) => inlines_spans(v@, Style { dim: true, ..base }, theme, links),
        Inline::Link { text, dest, .. } => if links {
            seq![(osc8(inlines_text(text@), dest@), merged(base, theme.link_label))]
        } else {
            inlines_spans(text@, merged(base, theme.link_label), theme, links) + seq![
                (seq![' ', '('] + dest@ + seq![')'], merged(base, theme.link_url)),
            ]
        },
        Inline::Image { alt, .. } => seq![
            (seq!['['] + alt@ + seq![']'], merged(base, theme.link_label)),
        ],
        Inline::FootnoteRef(name) => seq![
            (seq!['[', '^'] + name@ + seq![']'], merged(base, theme.link_url)),
        ],
    }
}

/// The spans of a sequence of inline elements, one element after another.
pub open spec fn inlines_spans(s: Seq<Inline>, base: Style, theme: Theme, links: bool) -> Seq<
    SpanV,
>
    decreases s,
{
    if s.len() == 0 {
        seq![]
    } else {
        inlines_spans(s.drop_last(), base, theme, links) + inline_spans(
            s.last(),
            base,
            theme,
            links,
        )
    }
}

/// Inline elements with the same model turn into the same spans.
pub proof fn lemma_spans_by_model(a: Seq<Inline>, b: Seq<Inline>, base: Style, theme: Theme, links: bool)
    requires
        ivs(a) == ivs(b),
    ensures
        inlines_spans(a, base, theme, links) == inlines_spans(b, base, theme, links),
    decreases a,
{
    lemma_ivs_index(a);
    lemma_ivs_index(b);
    if a.len() > 0 {
        assert(ivs(a).drop_last() == ivs(a.drop_last()));
        assert(ivs(b).drop_last() == ivs(b.drop_last()));
        lemma_spans_by_model(a.drop_last(), b.drop_last(), base, theme, links);
        assert(ivs(a).last() == iv(a.last()));
        assert(ivs(b).last() == iv(b.last()));
        lemma_span_by_model(a.last(), b.last(), base, theme, links);
    }
}

proof fn lemma_span_by_model(x: Inline, y: Inline, base: Style, theme: Theme, links: bool)
    requires
        iv(x) == iv(y),
    ensures
        inline_spans(x, base, theme, links) == inline_spans(y, base, theme, links),
    decreases x,
{
    match x {
        Inline::Emph(v) => {
            let w = y->Emph_0;
            lemma_spans_by_model(v@, w@, merged(base, theme.emphasis), theme, links);
        },
        Inline::Strong(v) => {
            let w = y->Strong_0;
            lemma_spans_by_model(v@, w@, merged(base, theme.strong), theme, links);
        },
        Inline::Strike(v) => {
            let w = y->Strike_0;
            lemma_spans_by_model(v@, w@, Style { dim: true, ..base }, theme, links);
        },
        Inline::Link { text, .. } => {
            let t2 = y->Link_text;
            lemma_spans_by_model(text@, t2@, merged(base, theme.link_label), theme, links);
            lemma_text_of_view(text@);
            lemma_text_of_view(t2@);
        },
        _ => {},
    }
}

/// One step of merging: empty spans are dropped, a span in the style of the last one is
/// appended to it.
pub open spec fn merge_step(out: Seq<SpanV>, sp: SpanV) -> Seq<SpanV> {
    if sp.0.len() == 0 {
        out
    } else if out.len() > 0 && out.last().1 == sp.1 {
        out.drop_last().push((out.last().0 + sp.0, sp.1))
    } else {
        out.push(sp)
    }
}

/// `spans` with empty spans dropped and neighbours of equal style joined.
pub open spec fn merged_spans(spans: Seq<SpanV>) -> Seq<SpanV>
    decreases spans.len(),
{
    if spans.len() == 0 {
        seq![]
    } else {
        merge_step(merged_spans(spans.drop_last()), spans.last())
    }
}

/// The texts of spans, one after another.
pub open spec fn spans_text(s: Seq<SpanV>) -> Seq<char>
    decreases s.len(),
{
    if s.len() == 0 {
        seq![]
    } else {
        spans_text(s.drop_last()) + s.last().0
    }
}

proof fn lemma_text_of_concat(x: Seq<SpanV>, y: Seq<SpanV>)
    ensures
        spans_text(x + y) == spans_text(x) + spans_text(y),
    decreases y.len(),
{
    if y.len() == 0 {
        assert(x + y =~= x);
        assert(spans_text(x) + spans_text(y) =~= spans_text(x));
    } else {
        lemma_text_of_concat(x, y.drop_last());
        assert((x + y).drop_last() =~= x + y.drop_last());
        assert((x + y).last() == y.last());
        assert(spans_text(x + y) =~= spans_text(x) + spans_text(y));
    }
}

proof fn lemma_spans_of_concat(a: Seq<Inline>, b: Seq<Inline>, base: Style, theme: Theme, links: bool)
    ensures
        inlines_spans(a + b, base, theme, links) == inlines_spans(a, base, theme, links)
            + inlines_spans(b, base, theme, links),
    decreases b.len(),
{
    if b.len() == 0 {
        assert(a + b =~= a);
        assert(inlines_spans(a, base, theme, links) + inlines_spans(b, base, theme, links)
            =~= inlines_spans(a, base, theme, links));
    } else {
        lemma_spans_of_concat(a, b.drop_last(), base, theme, links);
        assert((a + b).drop_last() =~= a + b.drop_last());
        assert((a + b).last() == b.last());
        assert(inlines_spans(a + b, base, theme, links) =~= inlines_spans(a, base, theme, links)
            + inlines_spans(b, base, theme, links));
    }
}

/// A hard line break is a newline in the rendered text and a soft one a space: the text of
/// the spans of `a`, a break and `b` is the text of `a`'s spans, the newline (or space), and
/// the text of `b`'s spans.
pub proof fn lemma_breaks_in_text(a: Seq<Inline>, b: Seq<Inline>, theme: Theme, links: bool)
    ensures
        spans_text(rendered_spans(a + seq![Inline::HardBreak] + b, theme, links)) == spans_text(
            rendered_spans(a, theme, links),
        ) + seq!['\n'] + spans_text(rendered_spans(b, theme, links)),
        spans_text(rendered_spans(a + seq![Inline::SoftBreak] + b, theme, links)) == spans_text(
            rendered_spans(a, theme, links),
        ) + seq![' '] + spans_text(rendered_spans(b, theme, links)),
{
    let base = theme.text;
    let sa = inlines_spans(a, base, theme, links);
    let sb = inlines_spans(b, base, theme, links);
    lemma_merge_keeps_text(sa);
    lemma_merge_keeps_text(sb);
    let brk: Seq<Inline> = seq![Inline::HardBreak];
    let soft: Seq<Inline> = seq![Inline::SoftBreak];
    let nl: Seq<char> = seq!['\n'];
    let space: Seq<char> = seq![' '];
    let one: Seq<SpanV> = seq![(nl, base)];
    let sp: Seq<SpanV> = seq![(space, base)];
    assert(inlines_spans(brk, base, theme, links) == one) by {
        assert(brk.drop_last() =~= Seq::<Inline>::empty());
        assert(brk.last() == Inline::HardBreak);
        assert(inline_spans(Inline::HardBreak, base, theme, links) == one);
        assert(inlines_spans(Seq::<Inline>::empty(), base, theme, links) == Seq::<SpanV>::empty());
        assert(Seq::<SpanV>::empty() + one =~= one);
    }
    assert(inlines_spans(soft, base, theme, links) == sp) by {
        assert(soft.drop_last() =~= Seq::<Inline>::empty());
        assert(soft.last() == Inline::SoftBreak);
        assert(inline_spans(Inline::SoftBreak, base, theme, links) == sp);
        assert(inlines_spans(Seq::<Inline>::empty(), base, theme, links) == Seq::<SpanV>::empty());
        assert(Seq::<SpanV>::empty() + sp =~= sp);
    }
    assert(spans_text(one) == nl) by {
        assert(one.drop_last() =~= Seq::<SpanV>::empty());
        assert(spans_text(one.drop_last()) == Seq::<char>::empty());
        assert(spans_text(one) == spans_text(one.drop_last()) + one.last().0);
        assert(one.last().0 == nl);
        assert(Seq::<char>::empty() + nl =~= nl);
    }
    assert(spans_text(sp) == space) by {
        assert(sp.drop_last() =~= Seq::<SpanV>::empty());
        assert(sp.last().0 == space);
        assert(Seq::<char>::empty() + space =~= space);
    }
    assert(spans_text(sp) =~= seq![' ']) by {
        assert(sp.drop_last() =~= Seq::<SpanV>::empty());
    }
    lemma_spans_of_concat(a, brk, base, theme, links);
    lemma_spans_of_concat(a + brk, b, base, theme, links);
    lemma_text_of_concat(sa, one);
    lemma_text_of_concat(sa + one, sb);
    lemma_merge_keeps_text(inlines_spans(a + brk + b, base, theme, links));
    lemma_spans_of_concat(a, soft, base, theme, links);
    lemma_spans_of_concat(a + soft, b, base, theme, links);
    lemma_text_of_concat(sa, sp);
    lemma_text_of_concat(sa + sp, sb);
    lemma_merge_keeps_text(inlines_spans(a + soft + b, base, theme, links));
}

/// Merging keeps the text: the merged spans hold the same text, in the same order; none of
/// them is empty, and no two neighbours share a style.
pub proof fn lemma_merge_keeps_text(spans: Seq<SpanV>)
    ensures
        spans_text(merged_spans(spans)) == spans_text(spans),
        forall|k: int|
            0 <= k < merged_spans(spans).len() ==> #[trigger] merged_spans(spans)[k].0.len() > 0,
        forall|k: int|
            0 <= k < merged_spans(spans).len() - 1 ==> #[trigger] merged_spans(spans)[k].1
                != merged_spans(spans)[k + 1].1,
    decreases spans.len(),
{
    if spans.len() > 0 {
        let rest = spans.drop_last();
        let sp = spans.last();
        lemma_merge_keeps_text(rest);
        let m = merged_spans(rest);
        if sp.0.len() == 0 {
            assert(spans_text(spans) =~= spans_text(rest));
        } else if m.len() > 0 && m.last().1 == sp.1 {
            let r = m.drop_last().push((m.last().0 + sp.0, sp.1));
            assert(r.drop_last() =~= m.drop_last());
            assert(spans_text(m) == spans_text(m.drop_last()) + m.last().0);
            assert(spans_text(r) =~= spans_text(m) + sp.0);
            assert forall|k: int| 0 <= k < r.len() implies #[trigger] r[k].0.len() > 0 by {
                if k < r.len() - 1 {
                    assert(r[k] == m[k]);
                }
            }
            assert forall|k: int| 0 <= k < r.len() - 1 implies #[trigger] r[k].1 != r[k + 1].1 by {
                assert(r[k] == m[k]);
                if k + 1 < r.len() - 1 {
                    assert(r[k + 1] == m[k + 1]);
                } else {
                    assert(r[k + 1].1 == m[k + 1].1);
                }
            }
        } else {
            let r = m.push(sp);
            assert(r.drop_last() =~= m);
            assert forall|k: int| 0 <= k < r.len() implies #[trigger] r[k].0.len() > 0 by {
                if k < r.len() - 1 {
                    assert(r[k] == m[k]);
                }
            }
            assert forall|k: int| 0 <= k < r.len() - 1 implies #[trigger] r[k].1 != r[k + 1].1 by {
                assert(r[k] == m[k]);
                if k + 1 < r.len() - 1 {
                    assert(r[k + 1] == m[k + 1]);
                }
            }
        }
    }
}

/// The styled spans of a paragraph's inline elements.
pub open spec fn rendered_spans(inlines: Seq<Inline>, theme: Theme, links: bool) -> Seq<SpanV> {
    merged_spans(inlines_spans(inlines, theme.text, theme, links))
}

/// Turns inline elements into styled spans, neighbours of one style joined.
pub fn render_inlines_to_spans(inlines: &[Inline], ctx: &RenderContext) -> (r: Vec<Span>)
    ensures
        span_views(r@) == rendered_spans(inlines@, ctx.theme, ctx.capabilities.kitty_hyperlinks),
{
    let mut out: Vec<Span> = Vec::new();
    let base = ctx.theme.text;
    push_inlines(inlines, &base, ctx, &mut out);
    assert(span_views(out@) =~= inlines_spans(
        inlines@,
        base,
        ctx.theme,
        ctx.capabilities.kitty_hyperlinks,
    ));
    merge_spans(out)
}

/// The plain text of `inlines` (see `inlines_text`).
pub fn plain_text(inlines: &[Inline]) -> (r: String)
    ensures
        r@ == inlines_text(inlines@),
{
    let mut out = String::new();
    push_plain_text(&mut out, inlines);
    out
}

fn push_inlines(inlines: &[Inline], base: &Style, ctx: &RenderContext, out: &mut Vec<Span>)
    ensures
        span_views(final(out)@) == span_views(old(out)@) + inlines_spans(
            inlines@,
            *base,
            ctx.theme,
            ctx.capabilities.kitty_hyperlinks,
        ),
    decreases inlines@,
{
    let ghost start = span_views(out@);
    for i in 0..inlines.len()
        invariant
            span_views(out@) == start + inlines_spans(
                inlines@.take(i as int),
                *base,
                ctx.theme,
                ctx.capabilities.kitty_hyperlinks,
            ),
    {
        assert(inlines@.take(i + 1).drop_last() == inlines@.take(i as int));
        push_inline(&inlines[i], base, ctx, out);
    }
    assert(inlines@.take(inlines@.len() as int) == inlines@);
}

proof fn lemma_views_push(s: Seq<Span>, sp: Span)
    ensures
        span_views(s.push(sp)) == span_views(s).push((sp.text@, sp.style)),
{
    assert(span_views(s.push(sp)) =~= span_views(s).push((sp.text@, sp.style)));
}

fn push_span(out: &mut Vec<Span>, text: String, style: Style)
    ensures
        span_views(final(out)@) == span_views(old(out)@).push((text@, style)),
{
    proof {
        lemma_views_push(out@, Span { text, style });
    }
    out.push(Span { text, style });
}

fn push_inline(inline: &Inline, base: &Style, ctx: &RenderContext, out: &mut Vec<Span>)
    ensures
        span_views(final(out)@) == span_views(old(out)@) + inline_spans(
            *inline,
            *base,
            ctx.theme,
            ctx.capabilities.kitty_hyperlinks,
        ),
    decreases inline,
{
    let ghost start = span_views(out@);
    match inline {
        Inline::Text(text) => {
            push_span(out, text.clone(), *base);
        },
        Inline::Code(code) => {
            push_span(out, code.clone(), merge_style(base, &ctx.theme.inline_code));
        },
        Inline::SoftBreak => {
            let mut t = String::new();
            push_char(&mut t, ' ');
            push_span(out, t, *base);
        },
        Inline::HardBreak => {
            let mut t = String::new();
            push_char(&mut t, '\n');
            push_span(out, t, *base);
        },
        Inline::Emph(inner) => {
            let merged = merge_style(base, &ctx.theme.emphasis);
            push_inlines(inner.as_slice(), &merged, ctx, out);
        },
        Inline::Strong(inner) => {
            let merged = merge_style(base, &ctx.theme.strong);
            push_inlines(inner.as_slice(), &merged, ctx, out);
        },
        Inline::Strike(inner) => {
            let mut strike_style = *base;
            strike_style.dim = true;
            push_inlines(inner.as_slice(), &strike_style, ctx, out);
        },
        Inline::Link { text, dest, .. } => {
            if ctx.capabilities.kitty_hyperlinks {
                let mut label = String::new();
                push_plain_text(&mut label, text.as_slice());
                push_span(
                    out,
                    osc8_link(label.as_str(), dest.as_str()),
                    merge_style(base, &ctx.theme.link_label),
                );
            } else {
                let link_style = merge_style(base, &ctx.theme.link_label);
                push_inlines(text.as_slice(), &link_style, ctx, out);
                let mut t = String::new();
                push_char(&mut t, ' ');
                push_char(&mut t, '(');
                push_str(&mut t, dest.as_str());
                push_char(&mut t, ')');
                assert(t@ =~= seq![' ', '('] + dest@ + seq![')']);
                push_span(out, t, merge_style(base, &ctx.theme.link_url));
            }
        },
        Inline::Image { alt, .. } => {
            let mut t = String::new();
            push_char(&mut t, '[');
            push_str(&mut t, alt.as_str());
            push_char(&mut t, ']');
            assert(t@ =~= seq!['['] + alt@ + seq![']']);
            push_span(out, t, merge_style(base, &ctx.theme.link_label));
        },
        Inline::FootnoteRef(name) => {
            let mut t = String::new();
            push_char(&mut t, '[');
            push_char(&mut t, '^');
            push_str(&mut t, name.as_str());
            push_char(&mut t, ']');
            assert(t@ =~= seq!['[', '^'] + name@ + seq![']']);
            push_span(out, t, merge_style(base, &ctx.theme.link_url));
        },
    }
    assert(span_views(out@) =~= start + inline_spans(
        *inline,
        *base,
        ctx.theme,
        ctx.capabilities.kitty_hyperlinks,
    ));
}

fn merge_style(base: &Style, overlay: &Style) -> (r: Style)
    ensures
        r == merged(*base, *overlay),
{
    Style {
        fg: match overlay.fg {
            Some(c) => Some(c),
            None => base.fg,
        },
        bg: match overlay.bg {
            Some(c) => Some(c),
            None => base.bg,
        },
        bold: base.bold || overlay.bold,
        italic: base.italic || overlay.italic,
        underline: base.underline || overlay.underline,
        dim: base.dim || overlay.dim,
    }
}

fn merge_spans(spans: Vec<Span>) -> (r: Vec<Span>)
    ensures
        span_views(r@) == merged_spans(span_views(spans@)),
{
    let mut out: Vec<Span> = Vec::new();
    let n = spans.len();
    let mut rest = spans;
    let ghost all = span_views(rest@);
    assert(span_views(rest@).len() == n);
    let mut i: usize = 0;
    while i < n
        invariant
            i <= n,
            all.len() == n,
            span_views(out@) == merged_spans(all.take(i as int)),
            forall|k: int| 0 <= k < n ==> #[trigger] span_views(rest@)[k] == all[k],
            rest@.len() == n,
        decreases n - i,
    {
        assert(all.take(i + 1).drop_last() == all.take(i as int));
        let span = Span { text: rest[i].text.clone(), style: rest[i].style };
        assert(span_views(rest@)[i as int] == (rest@[i as int].text@, rest@[i as int].style));
        let ghost before = span_views(out@);
        if span.text.as_str().is_empty() {
        } else if out.len() > 0 && out[out.len() - 1].style == span.style {
            let mut last = out.pop().unwrap();
            assert(span_views(out@) =~= before.drop_last());
            push_str(&mut last.text, span.text.as_str());
            push_span(&mut out, last.text, last.style);
        } else {
            push_span(&mut out, span.text, span.style);
        }
        i = i + 1;
    }
    assert(all.take(n as int) == all);
    out
}

} // verus!
