use vstd::prelude::*;

use crate::markdown::ast::{inline_text, inlines_text, opt_view, Alignment, Block, Inline};
use crate::render::inline::{inline_spans, inlines_spans, merged, merged_spans, SpanV};
use crate::render::blocks::{
    block_text, blocks_text, code_block_text, shown_code, code_lines, heading_gap, list_text, rule_width, footnote_label, footnote_text, header_texts, image_text, indented,
    line_text, lines_text, list_item_text, list_number, marker_plain, piped, quote_lines,
    rest_indented, row_texts, table_block_text,
};
use crate::render::{rendered_document, RenderContext};
use crate::render::wrap::{
    break_line, flushed, parts_fold, place, push_span_v, span_tokens, split_fold, split_long,
    tok_fold, tokens, trim_spaces, tw, wrap_fold, wrapped, TokenKind, TokenV, WrapV,
};
use crate::render::table::{
    align_at, body_rows, border, cell_at, col_widths, fallback_row, fallback_rows, padded,
    row_text, table_text, vw,
};
use crate::theme::{plain_style, Style, Theme};
use crate::util::text::{
    decimal, digit_char, lines, lines_fold, repeat_char, strip_cr, trim, trim_end, trim_end_char,
    trim_start,
};

verus! {

/// Text holding no ESC, so it starts no escape sequence.
pub open spec fn no_esc(s: Seq<char>) -> bool {
    !s.contains('\u{1b}')
}

/// Texts none of which holds an ESC.
pub open spec fn all_no_esc(ss: Seq<Seq<char>>) -> bool {
    forall|k: int| 0 <= k < ss.len() ==> no_esc(#[trigger] ss[k])
}

proof fn lemma_concat(a: Seq<char>, b: Seq<char>)
    ensures
        no_esc(a + b) == (no_esc(a) && no_esc(b)),
{
    if (a + b).contains('\u{1b}') {
        let k = choose|k: int| 0 <= k < (a + b).len() && (a + b)[k] == '\u{1b}';
        if k < a.len() {
            assert(a[k] == '\u{1b}');
        } else {
            assert(b[k - a.len()] == '\u{1b}');
        }
    }
    if a.contains('\u{1b}') {
        let k = choose|k: int| 0 <= k < a.len() && a[k] == '\u{1b}';
        assert((a + b)[k] == '\u{1b}');
    }
    if b.contains('\u{1b}') {
        let k = choose|k: int| 0 <= k < b.len() && b[k] == '\u{1b}';
        assert((a + b)[a.len() + k] == '\u{1b}');
    }
}

proof fn lemma_sub(s: Seq<char>, i: int, j: int)
    requires
        no_esc(s),
        0 <= i <= j <= s.len(),
    ensures
        no_esc(s.subrange(i, j)),
{
    if s.subrange(i, j).contains('\u{1b}') {
        let k = choose|k: int| 0 <= k < j - i && s.subrange(i, j)[k] == '\u{1b}';
        assert(s[i + k] == '\u{1b}');
    }
}

proof fn lemma_push(s: Seq<char>, c: char)
    ensures
        no_esc(s.push(c)) == (no_esc(s) && c != '\u{1b}'),
{
    lemma_concat(s, seq![c]);
    assert(s.push(c) =~= s + seq![c]);
    assert(seq![c][0] == c);
}

proof fn lemma_repeat(c: char, n: nat)
    requires
        c != '\u{1b}',
    ensures
        no_esc(repeat_char(c, n)),
{
}

proof fn lemma_decimal(n: nat)
    ensures
        no_esc(decimal(n)),
    decreases n,
{
    if n >= 10 {
        lemma_decimal(n / 10);
        lemma_push(decimal(n / 10), digit_char(n % 10));
    }
}

proof fn lemma_trim_end(s: Seq<char>)
    requires
        no_esc(s),
    ensures
        no_esc(trim_end(s)),
    decreases s.len(),
{
    if s.len() > 0 {
        lemma_sub(s, 0, s.len() - 1);
        assert(s.drop_last() == s.subrange(0, s.len() - 1));
        lemma_trim_end(s.drop_last());
    }
}

proof fn lemma_trim_end_char(s: Seq<char>, c: char)
    requires
        no_esc(s),
    ensures
        no_esc(trim_end_char(s, c)),
    decreases s.len(),
{
    if s.len() > 0 {
        lemma_sub(s, 0, s.len() - 1);
        assert(s.drop_last() == s.subrange(0, s.len() - 1));
        lemma_trim_end_char(s.drop_last(), c);
    }
}

proof fn lemma_trim(s: Seq<char>)
    requires
        no_esc(s),
    ensures
        no_esc(trim(s)),
{
    lemma_trim_end(s);
    lemma_trim_start(trim_end(s));
}

proof fn lemma_trim_start(s: Seq<char>)
    requires
        no_esc(s),
    ensures
        no_esc(trim_start(s)),
    decreases s.len(),
{
    if s.len() > 0 {
        lemma_sub(s, 1, s.len() as int);
        assert(s.drop_first() == s.subrange(1, s.len() as int));
        lemma_trim_start(s.drop_first());
    }
}

proof fn lemma_lines_fold(s: Seq<char>)
    requires
        no_esc(s),
    ensures
        all_no_esc(lines_fold(s).0),
        no_esc(lines_fold(s).1),
    decreases s.len(),
{
    if s.len() > 0 {
        lemma_sub(s, 0, s.len() - 1);
        assert(s.drop_last() == s.subrange(0, s.len() - 1));
        lemma_lines_fold(s.drop_last());
        let (done, cur) = lines_fold(s.drop_last());
        assert(s[s.len() - 1] == s.last());
        if s.last() == '\n' {
            if cur.len() > 0 {
                lemma_sub(cur, 0, cur.len() - 1);
                assert(cur.drop_last() == cur.subrange(0, cur.len() - 1));
            }
            let d = done.push(strip_cr(cur));
            assert forall|k: int| 0 <= k < d.len() implies no_esc(#[trigger] d[k]) by {
                if k < done.len() {
                    assert(d[k] == done[k]);
                }
            }
        } else {
            assert(s.last() != '\u{1b}') by {
                assert(!s.contains('\u{1b}'));
            }
            lemma_push(cur, s.last());
        }
    }
}

proof fn lemma_lines(s: Seq<char>)
    requires
        no_esc(s),
    ensures
        all_no_esc(lines(s)),
{
    lemma_lines_fold(s);
    let (done, cur) = lines_fold(s);
    if cur.len() > 0 {
        let d = done.push(cur);
        assert forall|k: int| 0 <= k < d.len() implies no_esc(#[trigger] d[k]) by {
            if k < done.len() {
                assert(d[k] == done[k]);
            }
        }
    }
}

/// An inline element none of whose texts holds an ESC.
pub open spec fn inline_clean(i: Inline) -> bool
    decreases i,
{
    match i {
        Inline::Text(t) => no_esc(t@),
        Inline::Code(t) => no_esc(t@),
        Inline::Emph(v) => inlines_clean(v@),
        Inline::Strong(v) => inlines_clean(v@),
        Inline::Strike(v) => inlines_clean(v@),
        Inline::Link { text, dest, .. } => inlines_clean(text@) && no_esc(dest@),
        Inline::Image { alt, .. } => no_esc(alt@),
        Inline::FootnoteRef(name) => no_esc(name@),
        Inline::SoftBreak => true,
        Inline::HardBreak => true,
    }
}

/// Inline elements none of whose texts holds an ESC.
pub open spec fn inlines_clean(s: Seq<Inline>) -> bool
    decreases s,
{
    if s.len() == 0 {
        true
    } else {
        inlines_clean(s.drop_last()) && inline_clean(s.last())
    }
}

/// Spans none of whose texts holds an ESC.
pub open spec fn spans_clean(s: Seq<SpanV>) -> bool {
    forall|k: int| 0 <= k < s.len() ==> no_esc(#[trigger] s[k].0)
}

proof fn lemma_spans_concat(a: Seq<SpanV>, b: Seq<SpanV>)
    requires
        spans_clean(a),
        spans_clean(b),
    ensures
        spans_clean(a + b),
{
    assert forall|k: int| 0 <= k < (a + b).len() implies no_esc(#[trigger] (a + b)[k].0) by {
        if k < a.len() {
            assert((a + b)[k] == a[k]);
        } else {
            assert((a + b)[k] == b[k - a.len()]);
        }
    }
}

proof fn lemma_inlines_text(s: Seq<Inline>)
    requires
        inlines_clean(s),
    ensures
        no_esc(inlines_text(s)),
    decreases s,
{
    if s.len() > 0 {
        lemma_inlines_text(s.drop_last());
        lemma_inline_text(s.last());
        lemma_concat(inlines_text(s.drop_last()), inline_text(s.last()));
    }
}

proof fn lemma_inline_text(i: Inline)
    requires
        inline_clean(i),
    ensures
        no_esc(inline_text(i)),
    decreases i,
{
    match i {
        Inline::Emph(v) => lemma_inlines_text(v@),
        Inline::Strong(v) => lemma_inlines_text(v@),
        Inline::Strike(v) => lemma_inlines_text(v@),
        Inline::Link { text, .. } => lemma_inlines_text(text@),
        Inline::FootnoteRef(name) => {
            lemma_concat(seq!['[', '^'], name@);
            lemma_concat(seq!['[', '^'] + name@, seq![']']);
        },
        _ => {},
    }
}

proof fn lemma_inlines_spans(s: Seq<Inline>, base: Style, theme: Theme)
    requires
        inlines_clean(s),
    ensures
        spans_clean(inlines_spans(s, base, theme, false)),
    decreases s,
{
    if s.len() > 0 {
        lemma_inlines_spans(s.drop_last(), base, theme);
        lemma_inline_spans(s.last(), base, theme);
        lemma_spans_concat(
            inlines_spans(s.drop_last(), base, theme, false),
            inline_spans(s.last(), base, theme, false),
        );
    }
}

proof fn lemma_inline_spans(i: Inline, base: Style, theme: Theme)
    requires
        inline_clean(i),
    ensures
        spans_clean(inline_spans(i, base, theme, false)),
    decreases i,
{
    match i {
        Inline::Emph(v) => lemma_inlines_spans(v@, merged(base, theme.emphasis), theme),
        Inline::Strong(v) => lemma_inlines_spans(v@, merged(base, theme.strong), theme),
        Inline::Strike(v) => lemma_inlines_spans(v@, Style { dim: true, ..base }, theme),
        Inline::Link { text, dest, .. } => {
            lemma_inlines_spans(text@, merged(base, theme.link_label), theme);
            lemma_concat(seq![' ', '('], dest@);
            lemma_concat(seq![' ', '('] + dest@, seq![')']);
            let tail: Seq<SpanV> = seq![
                (seq![' ', '('] + dest@ + seq![')'], merged(base, theme.link_url)),
            ];
            assert(spans_clean(tail));
            lemma_spans_concat(inlines_spans(text@, merged(base, theme.link_label), theme, false), tail);
        },
        Inline::Image { alt, .. } => {
            lemma_concat(seq!['['], alt@);
            lemma_concat(seq!['['] + alt@, seq![']']);
        },
        Inline::FootnoteRef(name) => {
            lemma_concat(seq!['[', '^'], name@);
            lemma_concat(seq!['[', '^'] + name@, seq![']']);
        },
        _ => {},
    }
}

proof fn lemma_merged_spans(s: Seq<SpanV>)
    requires
        spans_clean(s),
    ensures
        spans_clean(merged_spans(s)),
    decreases s.len(),
{
    if s.len() > 0 {
        let p = s.drop_last();
        assert(spans_clean(p)) by {
            assert forall|k: int| 0 <= k < p.len() implies no_esc(#[trigger] p[k].0) by {
                assert(p[k] == s[k]);
            }
        }
        lemma_merged_spans(p);
        let m = merged_spans(p);
        let sp = s.last();
        assert(no_esc(sp.0)) by {
            assert(s[s.len() - 1] == sp);
        }
        if sp.0.len() == 0 {
        } else if m.len() > 0 && m.last().1 == sp.1 {
            let r = m.drop_last().push((m.last().0 + sp.0, sp.1));
            assert(no_esc(m[m.len() - 1].0));
            lemma_concat(m.last().0, sp.0);
            assert forall|k: int| 0 <= k < r.len() implies no_esc(#[trigger] r[k].0) by {
                if k < r.len() - 1 {
                    assert(r[k] == m[k]);
                }
            }
        } else {
            let r = m.push(sp);
            assert forall|k: int| 0 <= k < r.len() implies no_esc(#[trigger] r[k].0) by {
                if k < r.len() - 1 {
                    assert(r[k] == m[k]);
                }
            }
        }
    }
}

proof fn lemma_flushed_clean(ts: Seq<TokenV>, cur: Seq<char>, mode: Option<TokenKind>, style: Style)
    requires
        forall|j: int| 0 <= j < ts.len() ==> no_esc(#[trigger] ts[j].1),
        no_esc(cur),
    ensures
        forall|j: int|
            0 <= j < flushed(ts, cur, mode, style).len() ==> no_esc(
                #[trigger] flushed(ts, cur, mode, style)[j].1,
            ),
{
    let f = flushed(ts, cur, mode, style);
    assert forall|j: int| 0 <= j < f.len() implies no_esc(#[trigger] f[j].1) by {
        if j < ts.len() {
            assert(f[j] == ts[j]);
        }
    }
}

proof fn lemma_tok_fold_clean(s: Seq<char>, esc: bool, style: Style)
    requires
        no_esc(s),
    ensures
        forall|j: int|
            0 <= j < tok_fold(s, esc, style).0.len() ==> no_esc(
                #[trigger] tok_fold(s, esc, style).0[j].1,
            ),
        no_esc(tok_fold(s, esc, style).1),
    decreases s.len(),
{
    if s.len() > 0 {
        lemma_sub(s, 0, s.len() - 1);
        assert(s.drop_last() == s.subrange(0, s.len() - 1));
        lemma_tok_fold_clean(s.drop_last(), esc, style);
        let (ts, cur, mode) = tok_fold(s.drop_last(), esc, style);
        let c = s.last();
        assert(c != '\u{1b}') by {
            assert(s[s.len() - 1] == c);
        }
        lemma_flushed_clean(ts, cur, mode, style);
        if c == '\n' {
            let f = flushed(ts, cur, mode, style);
            let g = f.push((TokenKind::Newline, seq!['\n'], style));
            assert forall|j: int| 0 <= j < g.len() implies no_esc(#[trigger] g[j].1) by {
                if j < f.len() {
                    assert(g[j] == f[j]);
                } else {
                    lemma_push(seq![], '\n');
                    assert(seq![].push('\n') =~= seq!['\n']);
                }
            }
        } else {
            lemma_push(seq![], c);
            assert(seq![].push(c) =~= seq![c]);
            lemma_push(cur, c);
        }
    }
}

proof fn lemma_tokens_clean(spans: Seq<SpanV>)
    requires
        spans_clean(spans),
    ensures
        forall|j: int| 0 <= j < tokens(spans).len() ==> no_esc(#[trigger] tokens(spans)[j].1),
    decreases spans.len(),
{
    if spans.len() > 0 {
        let p = spans.drop_last();
        assert forall|k: int| 0 <= k < p.len() implies no_esc(#[trigger] p[k].0) by {
            assert(p[k] == spans[k]);
        }
        lemma_tokens_clean(p);
        let sp = spans.last();
        assert(no_esc(sp.0)) by {
            assert(spans[spans.len() - 1] == sp);
        }
        let esc = sp.0.contains('\u{1b}');
        lemma_tok_fold_clean(sp.0, esc, sp.1);
        let (ts, cur, mode) = tok_fold(sp.0, esc, sp.1);
        lemma_flushed_clean(ts, cur, mode, sp.1);
        let a = tokens(p);
        let b = span_tokens(sp);
        assert forall|j: int| 0 <= j < (a + b).len() implies no_esc(#[trigger] (a + b)[j].1) by {
            if j < a.len() {
                assert((a + b)[j] == a[j]);
            } else {
                assert((a + b)[j] == b[j - a.len()]);
            }
        }
    }
}

proof fn lemma_split_fold_clean(s: Seq<char>, width: int)
    requires
        no_esc(s),
    ensures
        all_no_esc(split_fold(s, width).0),
        no_esc(split_fold(s, width).1),
    decreases s.len(),
{
    if s.len() > 0 {
        lemma_sub(s, 0, s.len() - 1);
        assert(s.drop_last() == s.subrange(0, s.len() - 1));
        lemma_split_fold_clean(s.drop_last(), width);
        let (out, cur, cw) = split_fold(s.drop_last(), width);
        let c = s.last();
        assert(c != '\u{1b}') by {
            assert(s[s.len() - 1] == c);
        }
        lemma_push(seq![], c);
        assert(seq![].push(c) =~= seq![c]);
        lemma_push(cur, c);
        let o = out.push(cur);
        assert forall|k: int| 0 <= k < o.len() implies no_esc(#[trigger] o[k]) by {
            if k < out.len() {
                assert(o[k] == out[k]);
            }
        }
    }
}

proof fn lemma_split_long_clean(s: Seq<char>, width: int)
    requires
        no_esc(s),
    ensures
        all_no_esc(split_long(s, width)),
{
    lemma_split_fold_clean(s, width);
    let (out, cur, cw) = split_fold(s, width);
    let o = out.push(cur);
    assert forall|k: int| 0 <= k < o.len() implies no_esc(#[trigger] o[k]) by {
        if k < out.len() {
            assert(o[k] == out[k]);
        }
    }
}

/// A wrapping state none of whose texts holds an ESC.
pub open spec fn state_clean(st: WrapV) -> bool {
    &&& forall|k: int| 0 <= k < st.0.len() ==> spans_clean(#[trigger] st.0[k])
    &&& spans_clean(st.1)
}

proof fn lemma_push_span_clean(line: Seq<SpanV>, sp: SpanV)
    requires
        spans_clean(line),
        no_esc(sp.0),
    ensures
        spans_clean(push_span_v(line, sp)),
{
    if line.len() > 0 && line.last().1 == sp.1 {
        let r = line.drop_last().push((line.last().0 + sp.0, sp.1));
        assert(no_esc(line[line.len() - 1].0));
        lemma_concat(line.last().0, sp.0);
        assert forall|k: int| 0 <= k < r.len() implies no_esc(#[trigger] r[k].0) by {
            if k < r.len() - 1 {
                assert(r[k] == line[k]);
            }
        }
    } else {
        let r = line.push(sp);
        assert forall|k: int| 0 <= k < r.len() implies no_esc(#[trigger] r[k].0) by {
            if k < r.len() - 1 {
                assert(r[k] == line[k]);
            }
        }
    }
}

proof fn lemma_break_clean(st: WrapV)
    requires
        state_clean(st),
    ensures
        state_clean(break_line(st)),
{
    let line = st.1;
    let t = trim_spaces(line);
    assert(spans_clean(t)) by {
        if line.len() > 0 {
            assert(no_esc(line[line.len() - 1].0));
            lemma_trim_end(line.last().0);
            assert forall|k: int| 0 <= k < t.len() implies no_esc(#[trigger] t[k].0) by {
                if k < line.len() - 1 {
                    assert(t[k] == line[k]);
                }
            }
        }
    }
    let b = break_line(st);
    assert forall|k: int| 0 <= k < b.0.len() implies spans_clean(#[trigger] b.0[k]) by {
        if k < st.0.len() {
            assert(b.0[k] == st.0[k]);
        }
    }
}

proof fn lemma_place_clean(st: WrapV, sp: SpanV, w: int, width: int)
    requires
        state_clean(st),
        no_esc(sp.0),
    ensures
        state_clean(place(st, sp, w, width)),
{
    lemma_break_clean(st);
    let st1 = if st.2 + w > width && st.1.len() > 0 {
        break_line(st)
    } else {
        st
    };
    lemma_push_span_clean(st1.1, sp);
}

proof fn lemma_parts_clean(st: WrapV, parts: Seq<Seq<char>>, style: Style, width: int)
    requires
        state_clean(st),
        all_no_esc(parts),
    ensures
        state_clean(parts_fold(st, parts, style, width)),
    decreases parts.len(),
{
    if parts.len() > 0 {
        assert(all_no_esc(parts.drop_last())) by {
            assert forall|k: int| 0 <= k < parts.drop_last().len() implies no_esc(
                #[trigger] parts.drop_last()[k],
            ) by {
                assert(parts.drop_last()[k] == parts[k]);
            }
        }
        lemma_parts_clean(st, parts.drop_last(), style, width);
        let st0 = parts_fold(st, parts.drop_last(), style, width);
        assert(no_esc(parts[parts.len() - 1]));
        lemma_place_clean(st0, (parts.last(), style), tw(parts.last()), width);
        lemma_break_clean(place(st0, (parts.last(), style), tw(parts.last()), width));
    }
}

proof fn lemma_wrap_fold_clean(toks: Seq<TokenV>, width: int)
    requires
        forall|j: int| 0 <= j < toks.len() ==> no_esc(#[trigger] toks[j].1),
    ensures
        state_clean(wrap_fold(toks, width)),
    decreases toks.len(),
{
    if toks.len() > 0 {
        let p = toks.drop_last();
        assert forall|j: int| 0 <= j < p.len() implies no_esc(#[trigger] p[j].1) by {
            assert(p[j] == toks[j]);
        }
        lemma_wrap_fold_clean(p, width);
        let st = wrap_fold(p, width);
        let tok = toks.last();
        assert(no_esc(tok.1)) by {
            assert(toks[toks.len() - 1] == tok);
        }
        lemma_break_clean(st);
        lemma_push_span_clean(st.1, (tok.1, tok.2));
        lemma_place_clean(st, (tok.1, tok.2), tw(tok.1), width);
        lemma_split_long_clean(tok.1, width);
        lemma_parts_clean(st, split_long(tok.1, width), tok.2, width);
    }
}

/// Lines none of whose texts holds an ESC.
pub open spec fn lines_clean(ls: Seq<Seq<SpanV>>) -> bool {
    forall|k: int| 0 <= k < ls.len() ==> spans_clean(#[trigger] ls[k])
}

proof fn lemma_wrapped_clean(spans: Seq<SpanV>, width: usize)
    requires
        spans_clean(spans),
    ensures
        lines_clean(wrapped(spans, width)),
{
    let w = if width == 0 {
        1int
    } else {
        width as int
    };
    lemma_tokens_clean(spans);
    lemma_wrap_fold_clean(tokens(spans), w);
    let st = wrap_fold(tokens(spans), w);
    lemma_break_clean(st);
    let ls = if st.1.len() > 0 {
        st.0.push(trim_spaces(st.1))
    } else {
        st.0
    };
    assert(ls == break_line(st).0 || ls == st.0);
    let e: Seq<Seq<SpanV>> = seq![seq![]];
    assert(spans_clean(e[0]));
}

proof fn lemma_line_text(line: Seq<SpanV>)
    requires
        spans_clean(line),
    ensures
        no_esc(line_text(line, false)),
    decreases line.len(),
{
    if line.len() > 0 {
        let p = line.drop_last();
        assert forall|k: int| 0 <= k < p.len() implies no_esc(#[trigger] p[k].0) by {
            assert(p[k] == line[k]);
        }
        lemma_line_text(p);
        assert(no_esc(line[line.len() - 1].0));
        lemma_concat(line_text(p, false), line.last().0);
    }
}

proof fn lemma_lines_text(ls: Seq<Seq<SpanV>>)
    requires
        lines_clean(ls),
    ensures
        no_esc(lines_text(ls, false)),
    decreases ls.len(),
{
    if ls.len() > 0 {
        let p = ls.drop_last();
        assert forall|k: int| 0 <= k < p.len() implies spans_clean(#[trigger] p[k]) by {
            assert(p[k] == ls[k]);
        }
        lemma_lines_text(p);
        assert(spans_clean(ls[ls.len() - 1]));
        lemma_line_text(ls.last());
        lemma_concat(lines_text(p, false), line_text(ls.last(), false));
        lemma_concat(lines_text(p, false) + line_text(ls.last(), false), seq!['\n']);
    }
}

/// Rows of cells none of which holds an ESC.
pub open spec fn rows_clean(rows: Seq<Seq<Seq<char>>>) -> bool {
    forall|r: int| 0 <= r < rows.len() ==> all_no_esc(#[trigger] rows[r])
}

proof fn lemma_cell_at(row: Seq<Seq<char>>, i: int)
    requires
        all_no_esc(row),
    ensures
        no_esc(cell_at(row, i)),
{
}

proof fn lemma_padded(s: Seq<char>, width: int, align: Alignment)
    requires
        no_esc(s),
    ensures
        no_esc(padded(s, width, align)),
{
    let w = vw(s);
    if w < width {
        let diff = width - w;
        lemma_repeat(' ', diff as nat);
        lemma_repeat(' ', (diff / 2) as nat);
        lemma_repeat(' ', (diff - diff / 2) as nat);
        lemma_concat(repeat_char(' ', diff as nat), s);
        lemma_concat(repeat_char(' ', (diff / 2) as nat), s);
        lemma_concat(repeat_char(' ', (diff / 2) as nat) + s, repeat_char(' ', (diff - diff / 2) as nat));
        lemma_concat(s, repeat_char(' ', diff as nat));
    }
}

proof fn lemma_border(ws: Seq<usize>)
    ensures
        no_esc(border(ws)),
    decreases ws.len(),
{
    if ws.len() > 0 {
        lemma_border(ws.drop_last());
        lemma_repeat('-', (ws.last() + 2) as nat);
        lemma_concat(border(ws.drop_last()), repeat_char('-', (ws.last() + 2) as nat));
        lemma_concat(border(ws.drop_last()) + repeat_char('-', (ws.last() + 2) as nat), seq!['+']);
    }
}

proof fn lemma_row_text(row: Seq<Seq<char>>, ws: Seq<usize>, aligns: Seq<Alignment>, rs: Style, bs: Style)
    requires
        all_no_esc(row),
    ensures
        no_esc(row_text(row, ws, aligns, false, rs, bs)),
    decreases ws.len(),
{
    if ws.len() > 0 {
        let k = ws.len() - 1;
        lemma_row_text(row, ws.drop_last(), aligns, rs, bs);
        lemma_cell_at(row, k);
        let c = padded(cell_at(row, k), ws.last() as int, align_at(aligns, k));
        lemma_padded(cell_at(row, k), ws.last() as int, align_at(aligns, k));
        lemma_concat(seq![' '], c);
        lemma_concat(seq![' '] + c, seq![' ']);
        let a = row_text(row, ws.drop_last(), aligns, false, rs, bs);
        lemma_concat(a, seq![' '] + c + seq![' ']);
        lemma_concat(a + (seq![' '] + c + seq![' ']), seq!['|']);
    }
}

proof fn lemma_body_rows(rows: Seq<Seq<Seq<char>>>, ws: Seq<usize>, aligns: Seq<Alignment>, bs: Style)
    requires
        rows_clean(rows),
    ensures
        no_esc(body_rows(rows, ws, aligns, false, bs)),
    decreases rows.len(),
{
    if rows.len() > 0 {
        lemma_body_rows(rows.drop_last(), ws, aligns, bs);
        assert(all_no_esc(rows[rows.len() - 1]));
        lemma_row_text(rows.last(), ws, aligns, plain_style(), bs);
        let a = body_rows(rows.drop_last(), ws, aligns, false, bs);
        let b = row_text(rows.last(), ws, aligns, false, plain_style(), bs);
        lemma_concat(a, b);
        lemma_concat(a + b, seq!['\n']);
    }
}

proof fn lemma_fallback_row(headers: Seq<Seq<char>>, row: Seq<Seq<char>>)
    requires
        all_no_esc(headers),
        all_no_esc(row),
    ensures
        no_esc(fallback_row(headers, row)),
    decreases headers.len(),
{
    if headers.len() > 0 {
        assert(all_no_esc(headers.drop_last())) by {
            assert forall|k: int| 0 <= k < headers.drop_last().len() implies no_esc(
                #[trigger] headers.drop_last()[k],
            ) by {
                assert(headers.drop_last()[k] == headers[k]);
            }
        }
        lemma_fallback_row(headers.drop_last(), row);
        assert(no_esc(headers[headers.len() - 1]));
        lemma_cell_at(row, headers.len() - 1);
        let a = fallback_row(headers.drop_last(), row);
        lemma_concat(a, headers.last());
        lemma_concat(a + headers.last(), seq![':', ' ']);
        lemma_concat(a + headers.last() + seq![':', ' '], cell_at(row, headers.len() - 1));
        lemma_concat(
            a + headers.last() + seq![':', ' '] + cell_at(row, headers.len() - 1),
            seq!['\n'],
        );
    }
}

proof fn lemma_fallback_rows(headers: Seq<Seq<char>>, rows: Seq<Seq<Seq<char>>>)
    requires
        all_no_esc(headers),
        rows_clean(rows),
    ensures
        no_esc(fallback_rows(headers, rows)),
    decreases rows.len(),
{
    if rows.len() > 0 {
        lemma_fallback_rows(headers, rows.drop_last());
        assert(all_no_esc(rows[rows.len() - 1]));
        lemma_fallback_row(headers, rows.last());
        let a = fallback_rows(headers, rows.drop_last());
        lemma_concat(a, fallback_row(headers, rows.last()));
        lemma_concat(a + fallback_row(headers, rows.last()), seq!['\n']);
    }
}

proof fn lemma_table_text(
    hs: Seq<Seq<char>>,
    rows: Seq<Seq<Seq<char>>>,
    aligns: Seq<Alignment>,
    width: usize,
    header_style: Style,
    border_style: Style,
)
    requires
        all_no_esc(hs),
        rows_clean(rows),
    ensures
        no_esc(table_text(hs, rows, aligns, width, false, header_style, border_style)),
{
    let ws = col_widths(hs, rows);
    lemma_fallback_rows(hs, rows);
    let empty: Seq<Seq<char>> = seq![];
    lemma_fallback_row(hs, empty);
    lemma_concat(fallback_rows(hs, rows), fallback_row(hs, empty));
    lemma_trim_end(fallback_rows(hs, rows) + fallback_row(hs, empty));
    lemma_trim_end(fallback_rows(hs, rows));
    lemma_border(ws);
    lemma_row_text(hs, ws, aligns, header_style, border_style);
    lemma_body_rows(rows, ws, aligns, border_style);
    let b = border(ws);
    let h = row_text(hs, ws, aligns, false, header_style, border_style);
    let body = body_rows(rows, ws, aligns, false, border_style);
    lemma_concat(b, seq!['\n']);
    lemma_concat(b + seq!['\n'], h);
    lemma_concat(b + seq!['\n'] + h, seq!['\n']);
    lemma_concat(b + seq!['\n'] + h + seq!['\n'], b);
    lemma_concat(b + seq!['\n'] + h + seq!['\n'] + b, seq!['\n']);
    lemma_concat(b + seq!['\n'] + h + seq!['\n'] + b + seq!['\n'], body);
    lemma_concat(b + seq!['\n'] + h + seq!['\n'] + b + seq!['\n'] + body, b);
}

/// Table cells none of whose texts holds an ESC.
pub open spec fn cells_clean(cells: Seq<Vec<Inline>>) -> bool {
    forall|k: int| 0 <= k < cells.len() ==> inlines_clean(#[trigger] cells[k]@)
}

/// A block none of whose texts (code, language, names, paths) holds an ESC.
pub open spec fn block_clean(b: Block) -> bool
    decreases b,
{
    match b {
        Block::Heading { content, .. } => inlines_clean(content@),
        Block::Paragraph(v) => inlines_clean(v@),
        Block::CodeBlock { lang, code } => no_esc(code@) && match lang {
            Some(l) => no_esc(l@),
            None => true,
        },
        Block::BlockQuote(v) => blocks_clean(v@),
        Block::List { items, .. } => items_clean(items@),
        Block::Table { headers, rows, .. } => cells_clean(headers@) && forall|r: int|
            0 <= r < rows@.len() ==> cells_clean(#[trigger] rows@[r]@),
        Block::FootnoteDefinition { name, content } => no_esc(name@) && blocks_clean(content@),
        Block::Rule => true,
        Block::Image { alt, path, .. } => no_esc(alt@) && no_esc(path@),
    }
}

/// Blocks none of whose texts holds an ESC.
pub open spec fn blocks_clean(s: Seq<Block>) -> bool
    decreases s,
{
    if s.len() == 0 {
        true
    } else {
        blocks_clean(s.drop_last()) && block_clean(s.last())
    }
}

/// List items none of whose texts holds an ESC.
pub open spec fn items_clean(items: Seq<Vec<Block>>) -> bool
    decreases items,
{
    if items.len() == 0 {
        true
    } else {
        items_clean(items.drop_last()) && blocks_clean(items.last()@)
    }
}

/// A context that draws nothing but text: no styling and no kitty feature.
pub open spec fn plain_context(ctx: RenderContext) -> bool {
    &&& !ctx.capabilities.ansi
    &&& !ctx.capabilities.kitty_text_size
    &&& !ctx.capabilities.kitty_graphics
    &&& !ctx.capabilities.kitty_hyperlinks
}

proof fn lemma_piped(ls: Seq<Seq<char>>, pipe: Seq<char>)
    requires
        all_no_esc(ls),
        no_esc(pipe),
    ensures
        no_esc(piped(ls, pipe)),
    decreases ls.len(),
{
    if ls.len() > 0 {
        assert(all_no_esc(ls.drop_last())) by {
            assert forall|k: int| 0 <= k < ls.drop_last().len() implies no_esc(
                #[trigger] ls.drop_last()[k],
            ) by {
                assert(ls.drop_last()[k] == ls[k]);
            }
        }
        lemma_piped(ls.drop_last(), pipe);
        assert(no_esc(ls[ls.len() - 1]));
        let a = piped(ls.drop_last(), pipe);
        lemma_concat(a, pipe);
        lemma_concat(a + pipe, ls.last());
        lemma_concat(a + pipe + ls.last(), seq!['\n']);
    }
}

proof fn lemma_code_block(lang: Option<Seq<char>>, src: Seq<char>, ctx: RenderContext)
    requires
        no_esc(src),
        lang matches Some(l) ==> no_esc(l),
        !ctx.capabilities.ansi,
    ensures
        no_esc(code_block_text(lang, src, ctx)),
{
    let label = match lang {
        Some(l) => l,
        None => seq!['c', 'o', 'd', 'e'],
    };
    let top = seq!['+', '-', '-', ' '] + label + seq![' ', '-', '-'];
    lemma_concat(seq!['+', '-', '-', ' '], label);
    lemma_concat(seq!['+', '-', '-', ' '] + label, seq![' ', '-', '-']);
    lemma_lines(src);
    let one: Seq<Seq<char>> = seq![seq![]];
    assert(all_no_esc(one)) by {
        assert(no_esc(one[0]));
    }
    lemma_piped(code_lines(src), seq!['|', ' ']);
    let p = piped(code_lines(src), seq!['|', ' ']);
    lemma_concat(top, seq!['\n']);
    lemma_concat(top + seq!['\n'], p);
    lemma_concat(top + seq!['\n'] + p, seq!['+', '-', '-']);
    lemma_concat(top + seq!['\n'] + p + seq!['+', '-', '-'], seq!['\n']);
}

proof fn lemma_quote_lines(ls: Seq<Seq<char>>, ctx: RenderContext)
    requires
        all_no_esc(ls),
        !ctx.capabilities.ansi,
    ensures
        no_esc(quote_lines(ls, ctx)),
    decreases ls.len(),
{
    if ls.len() > 0 {
        assert(all_no_esc(ls.drop_last())) by {
            assert forall|k: int| 0 <= k < ls.drop_last().len() implies no_esc(
                #[trigger] ls.drop_last()[k],
            ) by {
                assert(ls.drop_last()[k] == ls[k]);
            }
        }
        lemma_quote_lines(ls.drop_last(), ctx);
        assert(no_esc(ls[ls.len() - 1]));
        let a = quote_lines(ls.drop_last(), ctx);
        lemma_concat(seq!['|', ' '], ls.last());
        lemma_concat(seq!['|', ' '] + ls.last(), seq!['\n']);
        lemma_concat(a, seq!['\n']);
        lemma_concat(a, seq!['|', ' '] + ls.last() + seq!['\n']);
    }
}

proof fn lemma_rest_indented(ls: Seq<Seq<char>>, indent: Seq<char>)
    requires
        all_no_esc(ls),
        no_esc(indent),
    ensures
        no_esc(rest_indented(ls, indent)),
    decreases ls.len(),
{
    if ls.len() > 0 {
        assert(all_no_esc(ls.drop_last())) by {
            assert forall|k: int| 0 <= k < ls.drop_last().len() implies no_esc(
                #[trigger] ls.drop_last()[k],
            ) by {
                assert(ls.drop_last()[k] == ls[k]);
            }
        }
        lemma_rest_indented(ls.drop_last(), indent);
        assert(no_esc(ls[ls.len() - 1]));
        let a = rest_indented(ls.drop_last(), indent);
        lemma_concat(indent, ls.last());
        lemma_concat(indent + ls.last(), seq!['\n']);
        lemma_concat(a, seq!['\n']);
        lemma_concat(a, indent + ls.last() + seq!['\n']);
    }
}

proof fn lemma_indented(label: Seq<char>, indent: Seq<char>, body: Seq<char>)
    requires
        no_esc(label),
        no_esc(indent),
        no_esc(body),
    ensures
        no_esc(indented(label, indent, body)),
{
    let ls = lines(body);
    lemma_lines(body);
    lemma_concat(label, seq!['\n']);
    if ls.len() > 0 {
        assert(no_esc(ls[0]));
        assert(all_no_esc(ls.drop_first())) by {
            assert forall|k: int| 0 <= k < ls.drop_first().len() implies no_esc(
                #[trigger] ls.drop_first()[k],
            ) by {
                assert(ls.drop_first()[k] == ls[k + 1]);
            }
        }
        lemma_rest_indented(ls.drop_first(), indent);
        lemma_concat(label, ls[0]);
        lemma_concat(label + ls[0], seq!['\n']);
        lemma_concat(label + ls[0] + seq!['\n'], rest_indented(ls.drop_first(), indent));
    }
}

proof fn lemma_list_item(
    ordered: bool,
    start: Option<u64>,
    idx: int,
    n: int,
    body: Seq<char>,
    ctx: RenderContext,
)
    requires
        no_esc(body),
        !ctx.capabilities.ansi,
    ensures
        no_esc(list_item_text(ordered, start, idx, n, body, ctx)),
{
    let item = trim_end_char(body, '\n');
    lemma_trim_end_char(body, '\n');
    let mp = marker_plain(ordered, start, idx);
    lemma_decimal(list_number(start, idx) as nat);
    lemma_concat(decimal(list_number(start, idx) as nat), seq!['.']);
    assert(no_esc(mp));
    lemma_concat(mp, seq![' ']);
    lemma_repeat(' ', mp.len() + 1);
    lemma_indented(mp + seq![' '], repeat_char(' ', mp.len() + 1), item);
    let t = indented(mp + seq![' '], repeat_char(' ', mp.len() + 1), item);
    lemma_concat(t, seq!['\n']);
    assert(t + seq![] =~= t);
}

proof fn lemma_table_block(
    headers: Seq<Vec<Inline>>,
    rows: Seq<Vec<Vec<Inline>>>,
    aligns: Seq<Alignment>,
    ctx: RenderContext,
)
    requires
        cells_clean(headers),
        forall|r: int| 0 <= r < rows.len() ==> cells_clean(#[trigger] rows[r]@),
        !ctx.capabilities.ansi,
    ensures
        no_esc(table_block_text(headers, rows, aligns, ctx)),
{
    assert forall|k: int| 0 <= k < header_texts(headers).len() implies no_esc(
        #[trigger] header_texts(headers)[k],
    ) by {
        lemma_inlines_text(headers[k]@);
    }
    assert forall|r: int| 0 <= r < row_texts(rows).len() implies all_no_esc(
        #[trigger] row_texts(rows)[r],
    ) by {
        assert(cells_clean(rows[r]@));
        assert forall|k: int| 0 <= k < row_texts(rows)[r].len() implies no_esc(
            #[trigger] row_texts(rows)[r][k],
        ) by {
            lemma_inlines_text(rows[r]@[k]@);
        }
    }
    lemma_table_text(
        header_texts(headers),
        row_texts(rows),
        aligns,
        ctx.width,
        ctx.theme.table_header,
        ctx.theme.table_border,
    );
    lemma_concat(
        table_text(
            header_texts(headers),
            row_texts(rows),
            aligns,
            ctx.width,
            false,
            ctx.theme.table_header,
            ctx.theme.table_border,
        ),
        seq!['\n', '\n'],
    );
}

proof fn lemma_footnote(name: Seq<char>, body: Seq<char>, ctx: RenderContext)
    requires
        no_esc(name),
        no_esc(body),
        !ctx.capabilities.ansi,
    ensures
        no_esc(footnote_text(name, body, ctx)),
{
    let label = footnote_label(name);
    lemma_concat(seq!['[', '^'], name);
    lemma_concat(seq!['[', '^'] + name, seq![']', ':', ' ']);
    lemma_trim_end_char(body, '\n');
    lemma_repeat(' ', (vstd::utf8::encode_utf8(label).len() as usize) as nat);
    lemma_indented(
        label,
        repeat_char(' ', (vstd::utf8::encode_utf8(label).len() as usize) as nat),
        trim_end_char(body, '\n'),
    );
}

proof fn lemma_image(alt: Seq<char>, path: Seq<char>, ctx: RenderContext)
    requires
        no_esc(alt),
        no_esc(path),
        !ctx.capabilities.kitty_graphics,
    ensures
        no_esc(image_text(alt, path, ctx)),
{
    let a = seq!['[', 'i', 'm', 'a', 'g', 'e', ':', ' '];
    lemma_concat(a, alt);
    lemma_concat(a + alt, seq![' ', '-', ' ']);
    lemma_concat(a + alt + seq![' ', '-', ' '], path);
    lemma_concat(a + alt + seq![' ', '-', ' '] + path, seq![']']);
}

proof fn lemma_block_plain(b: Block, ctx: RenderContext)
    requires
        block_clean(b),
        plain_context(ctx),
    ensures
        no_esc(block_text(b, ctx, None)),
    decreases b,
{
    match b {
        Block::Heading { level, content } => {
            lemma_inlines_text(content@);
            lemma_trim(inlines_text(content@));
            lemma_repeat('\n', heading_gap(false, level));
            lemma_concat(
                trim(inlines_text(content@)),
                repeat_char('\n', heading_gap(false, level)),
            );
        },
        Block::Paragraph(v) => {
            let spans = inlines_spans(v@, ctx.theme.text, ctx.theme, false);
            lemma_inlines_spans(v@, ctx.theme.text, ctx.theme);
            lemma_merged_spans(spans);
            lemma_wrapped_clean(merged_spans(spans), ctx.width);
            let ls = wrapped(merged_spans(spans), ctx.width);
            lemma_lines_text(ls);
            lemma_concat(lines_text(ls, false), seq!['\n']);
        },
        Block::CodeBlock { lang, code } => {
            lemma_code_block(opt_view(lang), code@, ctx);
            assert(shown_code(code@, opt_view(lang), None) == code@);
            lemma_concat(code_block_text(opt_view(lang), code@, ctx), seq!['\n']);
        },
        Block::BlockQuote(v) => {
            lemma_blocks_plain(v@, ctx);
            let t = blocks_text(v@, ctx, None);
            lemma_lines(t);
            lemma_quote_lines(lines(t), ctx);
            lemma_concat(quote_lines(lines(t), ctx), seq!['\n']);
        },
        Block::List { ordered, start, items } => {
            lemma_list_plain(ordered, start, items@, items@.len() as int, ctx);
            lemma_concat(
                list_text(ordered, start, items@, items@.len() as int, ctx, None),
                seq!['\n'],
            );
        },
        Block::Table { headers, rows, aligns } => {
            lemma_table_block(headers@, rows@, aligns@, ctx);
        },
        Block::FootnoteDefinition { name, content } => {
            lemma_blocks_plain(content@, ctx);
            let t = blocks_text(content@, ctx, None);
            lemma_footnote(name@, t, ctx);
            lemma_concat(footnote_text(name@, t, ctx), seq!['\n']);
        },
        Block::Rule => {
            lemma_repeat('-', rule_width(ctx.width));
            lemma_concat(repeat_char('-', rule_width(ctx.width)), seq!['\n', '\n']);
        },
        Block::Image { alt, path, .. } => {
            lemma_image(alt@, path@, ctx);
            lemma_concat(image_text(alt@, path@, ctx), seq!['\n', '\n']);
        },
    }
}

proof fn lemma_blocks_plain(s: Seq<Block>, ctx: RenderContext)
    requires
        blocks_clean(s),
        plain_context(ctx),
    ensures
        no_esc(blocks_text(s, ctx, None)),
    decreases s,
{
    if s.len() > 0 {
        lemma_blocks_plain(s.drop_last(), ctx);
        lemma_block_plain(s.last(), ctx);
        lemma_concat(
            blocks_text(s.drop_last(), ctx, None),
            block_text(s.last(), ctx, None),
        );
    }
}

proof fn lemma_list_plain(
    ordered: bool,
    start: Option<u64>,
    items: Seq<Vec<Block>>,
    n: int,
    ctx: RenderContext,
)
    requires
        items_clean(items),
        plain_context(ctx),
    ensures
        no_esc(list_text(ordered, start, items, n, ctx, None)),
    decreases items,
{
    if items.len() > 0 {
        lemma_list_plain(ordered, start, items.drop_last(), n, ctx);
        lemma_blocks_plain(items.last()@, ctx);
        let body = blocks_text(items.last()@, ctx, None);
        lemma_list_item(ordered, start, items.len() - 1, n, body, ctx);
        lemma_concat(
            list_text(ordered, start, items.drop_last(), n, ctx, None),
            list_item_text(ordered, start, items.len() - 1, n, body, ctx),
        );
    }
}

/// Plain output is plain: rendered without styling and without kitty features, a document
/// none of whose texts holds an ESC renders to text holding no ESC, so to no escape
/// sequence at all.
pub proof fn lemma_plain_document(blocks: Seq<Block>, ctx: RenderContext, text: Seq<char>)
    requires
        blocks_clean(blocks),
        plain_context(ctx),
        rendered_document(text, blocks, ctx),
    ensures
        no_esc(text),
{
    lemma_blocks_plain(blocks, ctx);
}

} // verus!
