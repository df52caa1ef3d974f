use vstd::prelude::*;

use crate::render::inline::{span_views, spans_text, Span, SpanV};
use crate::theme::Style;
use crate::util::acc::WidthSum;
use crate::util::text::{
    chars_of, is_whitespace, is_ws, push_char, push_str, string_of, trim_end, trim_end_len,
};
use crate::util::width::{
    char_display_width, char_width, is_printable_ascii, str_display_width, stripped, visible_width,
};

verus! {

/// What a token of wrapped text is.
#[derive(Clone, Copy, PartialEq, Eq, Structural)]
pub enum TokenKind {
    Word,
    Space,
    Newline,
}

/// A token as its kind, text and style.
pub type TokenV = (TokenKind, Seq<char>, Style);

struct Token {
    kind: TokenKind,
    text: String,
    style: Style,
}

spec fn token_views(s: Seq<Token>) -> Seq<TokenV> {
    s.map_values(|t: Token| (t.kind, t.text@, t.style))
}

/// The pending token, if any, added to `ts`.
pub open spec fn flushed(ts: Seq<TokenV>, cur: Seq<char>, mode: Option<TokenKind>, style: Style) -> Seq<
    TokenV,
> {
    match mode {
        Some(k) => if cur.len() > 0 {
            ts.push((k, cur, style))
        } else {
            ts
        },
        None => ts,
    }
}

/// One character of tokenizing: a newline ends the pending token and is a token of its
/// own; otherwise a change between whitespace and non-whitespace starts a new token. In a
/// span holding an escape sequence (`esc`) whitespace does not separate words.
pub open spec fn tok_step(
    st: (Seq<TokenV>, Seq<char>, Option<TokenKind>),
    c: char,
    esc: bool,
    style: Style,
) -> (Seq<TokenV>, Seq<char>, Option<TokenKind>) {
    let (ts, cur, mode) = st;
    if c == '\n' {
        (flushed(ts, cur, mode, style).push((TokenKind::Newline, seq!['\n'], style)), seq![], None)
    } else {
        let kind = if !esc && is_ws(c) {
            TokenKind::Space
        } else {
            TokenKind::Word
        };
        if mode != Some(kind) {
            (flushed(ts, cur, mode, style), seq![c], Some(kind))
        } else {
            (ts, cur.push(c), mode)
        }
    }
}

/// Tokenizing state after reading `s`.
pub open spec fn tok_fold(s: Seq<char>, esc: bool, style: Style) -> (
    Seq<TokenV>,
    Seq<char>,
    Option<TokenKind>,
)
    decreases s.len(),
{
    if s.len() == 0 {
        (seq![], seq![], None)
    } else {
        tok_step(tok_fold(s.drop_last(), esc, style), s.last(), esc, style)
    }
}

/// The tokens of one span.
pub open spec fn span_tokens(sp: SpanV) -> Seq<TokenV> {
    let (ts, cur, mode) = tok_fold(sp.0, sp.0.contains('\u{1b}'), sp.1);
    flushed(ts, cur, mode, sp.1)
}

/// The tokens of a sequence of spans, span after span.
pub open spec fn tokens(spans: Seq<SpanV>) -> Seq<TokenV>
    decreases spans.len(),
{
    if spans.len() == 0 {
        seq![]
    } else {
        tokens(spans.drop_last()) + span_tokens(spans.last())
    }
}

/// Width of a character for splitting long words (`None` counts as 0).
pub open spec fn cwidth(c: char) -> int {
    match char_display_width(c) {
        Some(w) => w as int,
        None => 0,
    }
}

/// Splitting state of a long word after reading `s`: finished parts, current part, its width.
pub open spec fn split_fold(s: Seq<char>, width: int) -> (Seq<Seq<char>>, Seq<char>, int)
    decreases s.len(),
{
    if s.len() == 0 {
        (seq![], seq![], 0)
    } else {
        let (out, cur, cw) = split_fold(s.drop_last(), width);
        let c = s.last();
        let w = cwidth(c);
        if cw + w > width && cur.len() > 0 {
            (out.push(cur), seq![c], w)
        } else {
            (out, cur.push(c), cw + w)
        }
    }
}

/// A word too long for a line cut into pieces of at most `width` columns (a single
/// character wider than that makes a piece of its own).
pub open spec fn split_long(s: Seq<char>, width: int) -> Seq<Seq<char>> {
    let (out, cur, cw) = split_fold(s, width);
    if cur.len() > 0 {
        out.push(cur)
    } else {
        out
    }
}

/// Columns a piece of text takes on screen.
pub open spec fn tw(t: Seq<char>) -> int {
    str_display_width(stripped(t)) as int
}

/// `sp` added to a line, joined to the last span when the styles match.
pub open spec fn push_span_v(line: Seq<SpanV>, sp: SpanV) -> Seq<SpanV> {
    if line.len() > 0 && line.last().1 == sp.1 {
        line.drop_last().push((line.last().0 + sp.0, sp.1))
    } else {
        line.push(sp)
    }
}

/// A line without trailing whitespace in its last span (and without that span if nothing
/// else is left of it).
pub open spec fn trim_spaces(line: Seq<SpanV>) -> Seq<SpanV> {
    if line.len() == 0 {
        line
    } else {
        let t = trim_end(line.last().0);
        if t.len() == 0 {
            line.drop_last()
        } else {
            line.drop_last().push((t, line.last().1))
        }
    }
}

/// Wrapping state: finished lines, the current line and its width.
pub type WrapV = (Seq<Seq<SpanV>>, Seq<SpanV>, int);

/// The current line finished.
pub open spec fn break_line(st: WrapV) -> WrapV {
    (st.0.push(trim_spaces(st.1)), seq![], 0)
}

/// `sp` of width `w` placed on the current line, or on a new one when it would not fit.
pub open spec fn place(st: WrapV, sp: SpanV, w: int, width: int) -> WrapV {
    let st1 = if st.2 + w > width && st.1.len() > 0 {
        break_line(st)
    } else {
        st
    };
    (st1.0, push_span_v(st1.1, sp), st1.2 + w)
}

/// Pieces of a long word placed one after another; a full line is finished at once.
pub open spec fn parts_fold(st: WrapV, parts: Seq<Seq<char>>, style: Style, width: int) -> WrapV
    decreases parts.len(),
{
    if parts.len() == 0 {
        st
    } else {
        let st0 = parts_fold(st, parts.drop_last(), style, width);
        let st1 = place(st0, (parts.last(), style), tw(parts.last()), width);
        if st1.2 >= width {
            break_line(st1)
        } else {
            st1
        }
    }
}

/// One token of wrapping: a newline finishes the line; a space is kept when it fits (and
/// dropped at the start of a line or where it would overflow, finishing the line); a word
/// goes on the line or starts a new one, and a word wider than a line is cut into pieces.
pub open spec fn wrap_step(st: WrapV, tok: TokenV, width: int) -> WrapV {
    match tok.0 {
        TokenKind::Newline => break_line(st),
        TokenKind::Space => if st.1.len() == 0 {
            st
        } else if st.2 + tw(tok.1) <= width {
            (st.0, push_span_v(st.1, (tok.1, tok.2)), st.2 + tw(tok.1))
        } else {
            break_line(st)
        },
        TokenKind::Word => if tok.1.contains('\u{1b}') || tw(tok.1) <= width {
            place(st, (tok.1, tok.2), tw(tok.1), width)
        } else {
            parts_fold(st, split_long(tok.1, width), tok.2, width)
        },
    }
}

/// Wrapping state after all of `toks`.
pub open spec fn wrap_fold(toks: Seq<TokenV>, width: int) -> WrapV
    decreases toks.len(),
{
    if toks.len() == 0 {
        (seq![], seq![], 0)
    } else {
        wrap_step(wrap_fold(toks.drop_last(), width), toks.last(), width)
    }
}

/// The lines that `spans` wrap into at `width` columns (at least one column): greedy
/// filling, trailing spaces trimmed, at least one (possibly empty) line.
pub open spec fn wrapped(spans: Seq<SpanV>, width: usize) -> Seq<Seq<SpanV>> {
    let w = if width == 0 {
        1int
    } else {
        width as int
    };
    let st = wrap_fold(tokens(spans), w);
    let ls = if st.1.len() > 0 {
        st.0.push(trim_spaces(st.1))
    } else {
        st.0
    };
    if ls.len() == 0 {
        seq![seq![]]
    } else {
        ls
    }
}

/// Printable ASCII text.
pub open spec fn printable(t: Seq<char>) -> bool {
    forall|k: int| 0 <= k < t.len() ==> is_printable_ascii(#[trigger] t[k])
}

/// Spans of printable ASCII text and line breaks: text whose width is its length.
pub open spec fn plain_spans(spans: Seq<SpanV>) -> bool {
    forall|i: int, k: int|
        0 <= i < spans.len() && 0 <= k < spans[i].0.len() ==> is_printable_ascii(
            #[trigger] spans[i].0[k],
        ) || spans[i].0[k] == '\n'
}

/// A token whose text is printable ASCII (a line break's text does not count).
pub open spec fn plain_token(t: TokenV) -> bool {
    t.0 != TokenKind::Newline ==> printable(t.1)
}

proof fn lemma_printable_push(t: Seq<char>, c: char)
    requires
        printable(t),
        is_printable_ascii(c),
    ensures
        printable(t.push(c)),
{
    assert forall|k: int| 0 <= k < t.push(c).len() implies is_printable_ascii(
        #[trigger] t.push(c)[k],
    ) by {
        if k < t.len() {
            assert(t.push(c)[k] == t[k]);
        }
    }
}

proof fn lemma_flushed_plain(ts: Seq<TokenV>, cur: Seq<char>, mode: Option<TokenKind>, style: Style)
    requires
        forall|j: int| 0 <= j < ts.len() ==> plain_token(#[trigger] ts[j]),
        printable(cur),
    ensures
        forall|j: int|
            0 <= j < flushed(ts, cur, mode, style).len() ==> plain_token(
                #[trigger] flushed(ts, cur, mode, style)[j],
            ),
{
    let f = flushed(ts, cur, mode, style);
    assert forall|j: int| 0 <= j < f.len() implies plain_token(#[trigger] f[j]) by {
        if j < ts.len() {
            assert(f[j] == ts[j]);
        }
    }
}

proof fn lemma_tok_fold_plain(s: Seq<char>, esc: bool, style: Style)
    requires
        forall|k: int| 0 <= k < s.len() ==> is_printable_ascii(#[trigger] s[k]) || s[k] == '\n',
    ensures
        forall|j: int|
            0 <= j < tok_fold(s, esc, style).0.len() ==> plain_token(
                #[trigger] tok_fold(s, esc, style).0[j],
            ),
        printable(tok_fold(s, esc, style).1),
    decreases s.len(),
{
    if s.len() > 0 {
        let p = s.drop_last();
        assert forall|k: int| 0 <= k < p.len() implies is_printable_ascii(#[trigger] p[k]) || p[k]
            == '\n' by {
            assert(p[k] == s[k]);
        }
        lemma_tok_fold_plain(p, esc, style);
        let (ts, cur, mode) = tok_fold(p, esc, style);
        let c = s.last();
        assert(is_printable_ascii(c) || c == '\n') by {
            assert(s[s.len() - 1] == c);
        }
        lemma_flushed_plain(ts, cur, mode, style);
        if c == '\n' {
            let f = flushed(ts, cur, mode, style);
            let g = f.push((TokenKind::Newline, seq!['\n'], style));
            assert forall|j: int| 0 <= j < g.len() implies plain_token(#[trigger] g[j]) by {
                if j < f.len() {
                    assert(g[j] == f[j]);
                }
            }
        } else {
            let kind = if !esc && is_ws(c) {
                TokenKind::Space
            } else {
                TokenKind::Word
            };
            if mode != Some(kind) {
                lemma_printable_push(seq![], c);
                assert(seq![].push(c) =~= seq![c]);
            } else {
                lemma_printable_push(cur, c);
            }
        }
    }
}

proof fn lemma_tokens_plain(spans: Seq<SpanV>)
    requires
        plain_spans(spans),
    ensures
        forall|j: int| 0 <= j < tokens(spans).len() ==> plain_token(#[trigger] tokens(spans)[j]),
    decreases spans.len(),
{
    if spans.len() > 0 {
        let p = spans.drop_last();
        assert forall|i: int, k: int| 0 <= i < p.len() && 0 <= k < p[i].0.len() implies is_printable_ascii(
            #[trigger] p[i].0[k],
        ) || p[i].0[k] == '\n' by {
            assert(p[i] == spans[i]);
        }
        lemma_tokens_plain(p);
        let sp = spans.last();
        assert forall|k: int| 0 <= k < sp.0.len() implies is_printable_ascii(#[trigger] sp.0[k])
            || sp.0[k] == '\n' by {
            assert(spans[spans.len() - 1] == sp);
            assert(is_printable_ascii(spans[spans.len() - 1].0[k]) || spans[spans.len() - 1].0[k]
                == '\n');
        }
        let esc = sp.0.contains('\u{1b}');
        lemma_tok_fold_plain(sp.0, esc, sp.1);
        let (ts, cur, mode) = tok_fold(sp.0, esc, sp.1);
        lemma_flushed_plain(ts, cur, mode, sp.1);
        let a = tokens(p);
        let b = span_tokens(sp);
        assert forall|j: int| 0 <= j < (a + b).len() implies plain_token(#[trigger] (a + b)[j]) by {
            if j < a.len() {
                assert((a + b)[j] == a[j]);
            } else {
                assert((a + b)[j] == b[j - a.len()]);
            }
        }
    }
}

proof fn lemma_trim_end_shorter(s: Seq<char>)
    ensures
        trim_end(s).len() <= s.len(),
    decreases s.len(),
{
    if s.len() > 0 && is_ws(s.last()) {
        lemma_trim_end_shorter(s.drop_last());
    }
}

pub(crate) proof fn lemma_push_span_text(line: Seq<SpanV>, sp: SpanV)
    ensures
        spans_text(push_span_v(line, sp)) == spans_text(line) + sp.0,
{
    if line.len() > 0 && line.last().1 == sp.1 {
        let r = line.drop_last().push((line.last().0 + sp.0, sp.1));
        assert(r.drop_last() =~= line.drop_last());
        assert(spans_text(r) =~= spans_text(line) + sp.0);
    } else {
        assert(line.push(sp).drop_last() =~= line);
    }
}

proof fn lemma_trim_spaces_shorter(line: Seq<SpanV>)
    ensures
        spans_text(trim_spaces(line)).len() <= spans_text(line).len(),
{
    if line.len() > 0 {
        let t = trim_end(line.last().0);
        lemma_trim_end_shorter(line.last().0);
        if t.len() > 0 {
            let r = line.drop_last().push((t, line.last().1));
            assert(r.drop_last() =~= line.drop_last());
        }
    }
}

/// Every finished line of a wrapping state is at most `width` characters long, and the
/// current line is exactly as long as the width the state counts, which is at most `width`.
pub open spec fn fits(st: WrapV, width: int) -> bool {
    &&& forall|k: int| 0 <= k < st.0.len() ==> #[trigger] spans_text(st.0[k]).len() <= width
    &&& spans_text(st.1).len() == st.2
    &&& st.2 <= width
}

proof fn lemma_break_fits(st: WrapV, width: int)
    requires
        fits(st, width),
        0 <= width,
    ensures
        fits(break_line(st), width),
{
    lemma_trim_spaces_shorter(st.1);
    let b = break_line(st);
    assert forall|k: int| 0 <= k < b.0.len() implies #[trigger] spans_text(b.0[k]).len()
        <= width by {
        if k < st.0.len() {
            assert(b.0[k] == st.0[k]);
        }
    }
}

proof fn lemma_push_fits(st: WrapV, sp: SpanV, width: int)
    requires
        fits(st, width),
        st.2 + sp.0.len() <= width,
    ensures
        fits((st.0, push_span_v(st.1, sp), st.2 + sp.0.len()), width),
{
    lemma_push_span_text(st.1, sp);
}

proof fn lemma_place_fits(st: WrapV, sp: SpanV, w: int, width: int)
    requires
        fits(st, width),
        w == sp.0.len(),
        w <= width,
        0 <= width,
    ensures
        fits(place(st, sp, w, width), width),
{
    if st.2 + w > width && st.1.len() > 0 {
        lemma_break_fits(st, width);
        lemma_push_fits(break_line(st), sp, width);
    } else {
        if st.1.len() == 0 {
            assert(spans_text(st.1) =~= Seq::<char>::empty());
        }
        lemma_push_fits(st, sp, width);
    }
}

/// Every word among `toks` is at most `width` columns wide.
pub open spec fn words_fit(toks: Seq<TokenV>, width: int) -> bool {
    forall|j: int| 0 <= j < toks.len() && toks[j].0 == TokenKind::Word ==> tw(#[trigger] toks[j].1) <= width
}

/// The width counted for the current line stays within `width`, and is 0 on an empty line.
spec fn counted_fits(st: WrapV, width: int) -> bool {
    &&& 0 <= st.2 <= width
    &&& st.1.len() == 0 ==> st.2 == 0
}

proof fn lemma_step_counted(st: WrapV, tok: TokenV, width: int)
    requires
        counted_fits(st, width),
        width >= 1,
        tok.0 == TokenKind::Word ==> tw(tok.1) <= width,
    ensures
        counted_fits(wrap_step(st, tok, width), width),
{
    let w = tw(tok.1);
    assert(w >= 0);
    match tok.0 {
        TokenKind::Newline => {},
        TokenKind::Space => {
            if st.1.len() > 0 && st.2 + w <= width {
                assert(push_span_v(st.1, (tok.1, tok.2)).len() > 0);
            }
        },
        TokenKind::Word => {
            let st1 = if st.2 + w > width && st.1.len() > 0 {
                break_line(st)
            } else {
                st
            };
            assert(push_span_v(st1.1, (tok.1, tok.2)).len() > 0);
        },
    }
}

/// When every word fits the width, the width counted for each line (the display widths of
/// the words and spaces put on it, by `str_display_width`) never exceeds the width: it is
/// within `width` after every token, so also when each line is finished.
pub proof fn lemma_counted_width_fits(toks: Seq<TokenV>, width: int)
    requires
        width >= 1,
        words_fit(toks, width),
    ensures
        forall|i: int| 0 <= i <= toks.len() ==> #[trigger] wrap_fold(toks.take(i), width).2 <= width,
{
    assert forall|i: int| 0 <= i <= toks.len() implies #[trigger] wrap_fold(toks.take(i), width).2
        <= width by {
        lemma_prefix_counted(toks, width, i);
    }
}

proof fn lemma_prefix_counted(toks: Seq<TokenV>, width: int, i: int)
    requires
        width >= 1,
        words_fit(toks, width),
        0 <= i <= toks.len(),
    ensures
        counted_fits(wrap_fold(toks.take(i), width), width),
    decreases i,
{
    if i > 0 {
        lemma_prefix_counted(toks, width, i - 1);
        let p = toks.take(i);
        assert(p.drop_last() =~= toks.take(i - 1));
        assert(p.last() == toks[i - 1]);
        lemma_step_counted(wrap_fold(toks.take(i - 1), width), toks[i - 1], width);
    }
}

/// Every line is at most `width` characters long (counting a width of 0 as 1).
pub open spec fn lines_fit(lines: Seq<Seq<SpanV>>, width: usize) -> bool {
    forall|k: int|
        0 <= k < lines.len() ==> #[trigger] spans_text(lines[k]).len() <= if width == 0 {
            1
        } else {
            width as int
        }
}

/// The model of a sequence of lines.
pub open spec fn lines_view(ls: Seq<Vec<Span>>) -> Seq<Seq<SpanV>> {
    ls.map_values(|l: Vec<Span>| span_views(l@))
}

/// Wraps styled spans into lines of at most `width` columns where words allow it. Plain
/// text (printable ASCII and line breaks) always fits: every line is at most `width`
/// characters long. For any text whose words each fit, the display width counted for each
/// line stays within the width (see `lemma_counted_width_fits`).
pub fn wrap_spans(spans: &[Span], width: usize) -> (r: Vec<Vec<Span>>)
    ensures
        lines_view(r@) == wrapped(span_views(spans@), width),
        plain_spans(span_views(spans@)) ==> lines_fit(lines_view(r@), width),
        ({
            let w = if width == 0 {
                1int
            } else {
                width as int
            };
            let toks = tokens(span_views(spans@));
            words_fit(toks, w) ==> forall|i: int|
                0 <= i <= toks.len() ==> #[trigger] wrap_fold(toks.take(i), w).2 <= w
        }),
{
    proof {
        let w = if width == 0 {
            1int
        } else {
            width as int
        };
        if words_fit(tokens(span_views(spans@)), w) {
            lemma_counted_width_fits(tokens(span_views(spans@)), w);
        }
    }
    let ghost asked = width;
    let width = if width == 0 {
        1
    } else {
        width
    };
    let toks = tokenize(spans);
    let ghost plain = plain_spans(span_views(spans@));
    proof {
        if plain {
            lemma_tokens_plain(span_views(spans@));
        }
    }
    let mut lines: Vec<Vec<Span>> = Vec::new();
    let mut line: Vec<Span> = Vec::new();
    let mut lw = WidthSum::zero();
    let ghost mut lwv: int = 0;
    let n = toks.len();
    let mut i: usize = 0;
    while i < n
        invariant
            i <= n,
            n == toks@.len(),
            width >= 1,
            lines_view(lines@) == wrap_fold(token_views(toks@).take(i as int), width as int).0,
            span_views(line@) == wrap_fold(token_views(toks@).take(i as int), width as int).1,
            lwv == wrap_fold(token_views(toks@).take(i as int), width as int).2,
            lwv >= 0,
            lw.holds(lwv, width),
            plain == plain_spans(span_views(spans@)),
            plain ==> forall|j: int|
                0 <= j < n ==> plain_token(#[trigger] token_views(toks@)[j]),
            plain ==> fits((lines_view(lines@), span_views(line@), lwv), width as int),
        decreases n - i,
    {
        let ghost tv = token_views(toks@);
        assert(tv.take(i + 1).drop_last() == tv.take(i as int));
        assert(tv[i as int] == (toks@[i as int].kind, toks@[i as int].text@, toks@[i as int].style));
        let ghost st: WrapV = (lines_view(lines@), span_views(line@), lwv);
        proof {
            if plain {
                assert(plain_token(tv[i as int]));
            }
        }
        let tok = &toks[i];
        match tok.kind {
            TokenKind::Newline => {
                finish_line(&mut lines, &mut line);
                lw = WidthSum::zero();
                proof {
                    lwv = 0;
                    if plain {
                        lemma_break_fits(st, width as int);
                    }
                }
            },
            TokenKind::Space => {
                if line.len() == 0 {
                } else {
                    let w = visible_width(tok.text.as_str());
                    if !lw.exceeds_with(w, width, Ghost(lwv)) {
                        push_line_span(&mut line, tok.text.clone(), tok.style);
                        lw = lw.add(w, width, Ghost(lwv));
                        proof {
                            if plain {
                                lemma_push_fits(st, (tok.text@, tok.style), width as int);
                            }
                            lwv = lwv + w;
                        }
                    } else {
                        finish_line(&mut lines, &mut line);
                        lw = WidthSum::zero();
                        proof {
                            lwv = 0;
                            if plain {
                                lemma_break_fits(st, width as int);
                            }
                        }
                    }
                }
            },
            TokenKind::Word => {
                let w = visible_width(tok.text.as_str());
                let tcs = chars_of(tok.text.as_str());
                if contains_char(&tcs, '\u{1b}') || w <= width {
                    let r = place_span(
                        &mut lines,
                        &mut line,
                        lw,
                        Ghost(lwv),
                        tok.text.clone(),
                        tok.style,
                        w,
                        width,
                    );
                    lw = r.0;
                    proof {
                        lwv = r.1@;
                        if plain {
                            lemma_place_fits(st, (tok.text@, tok.style), w as int, width as int);
                        }
                    }
                } else {
                    let parts = split_long_token(&tcs, width);
                    let ghost st0: WrapV = (lines_view(lines@), span_views(line@), lwv);
                    let np = parts.len();
                    let mut j: usize = 0;
                    while j < np
                        invariant
                            j <= np,
                            np == parts@.len(),
                            width >= 1,
                            (lines_view(lines@), span_views(line@), lwv) == parts_fold(
                                st0,
                                parts@.map_values(|p: Vec<char>| p@).take(j as int),
                                tok.style,
                                width as int,
                            ),
                            lwv >= 0,
                            lw.holds(lwv, width),
                            plain ==> printable(tcs@),
                            plain ==> forall|k: int|
                                0 <= k < parts@.len() ==> #[trigger] parts@[k]@.len() <= width
                                    && printable(parts@[k]@),
                            plain ==> fits(
                                (lines_view(lines@), span_views(line@), lwv),
                                width as int,
                            ),
                        decreases np - j,
                    {
                        let ghost pv = parts@.map_values(|p: Vec<char>| p@);
                        assert(pv.take(j + 1).drop_last() == pv.take(j as int));
                        let ghost sj: WrapV = (lines_view(lines@), span_views(line@), lwv);
                        let part = string_of(parts[j].as_slice());
                        proof {
                            if plain {
                                assert(parts@[j as int]@.len() <= width && printable(
                                    parts@[j as int]@,
                                ));
                            }
                        }
                        let pw = visible_width(part.as_str());
                        let r = place_span(
                            &mut lines,
                            &mut line,
                            lw,
                            Ghost(lwv),
                            part,
                            tok.style,
                            pw,
                            width,
                        );
                        lw = r.0;
                        proof {
                            lwv = r.1@;
                            if plain {
                                lemma_place_fits(sj, (part@, tok.style), pw as int, width as int);
                            }
                        }
                        let ghost sp: WrapV = (lines_view(lines@), span_views(line@), lwv);
                        if lw.reached(width, Ghost(lwv)) {
                            finish_line(&mut lines, &mut line);
                            lw = WidthSum::zero();
                            proof {
                                lwv = 0;
                                if plain {
                                    lemma_break_fits(sp, width as int);
                                }
                            }
                        }
                        j = j + 1;
                    }
                    assert(parts@.map_values(|p: Vec<char>| p@).take(np as int) == parts@.map_values(
                        |p: Vec<char>| p@,
                    ));
                }
            },
        }
        i = i + 1;
    }
    assert(token_views(toks@).take(n as int) == token_views(toks@));
    let ghost fin: WrapV = (lines_view(lines@), span_views(line@), lwv);
    if line.len() > 0 {
        finish_line(&mut lines, &mut line);
        proof {
            if plain {
                lemma_break_fits(fin, width as int);
                let b = break_line(fin);
                assert(lines_view(lines@) == b.0);
                assert(forall|k: int| 0 <= k < b.0.len() ==> #[trigger] spans_text(b.0[k]).len() <= width);
            }
        }
    } else {
        proof {
            if plain {
                assert(lines_view(lines@) == fin.0);
                assert(fits(fin, width as int));
                assert(forall|k: int| 0 <= k < fin.0.len() ==> #[trigger] spans_text(fin.0[k]).len() <= width);
            }
        }
    }
    assert(plain ==> forall|k: int|
        0 <= k < lines_view(lines@).len() ==> #[trigger] spans_text(lines_view(lines@)[k]).len()
            <= width);
    if lines.len() == 0 {
        let e: Vec<Span> = Vec::new();
        proof {
            lemma_lines_push(lines@, e);
            assert(span_views(e@) =~= Seq::<SpanV>::empty());
            assert(lines_view(lines@) =~= Seq::<Seq<SpanV>>::empty());
        }
        lines.push(e);
        assert(lines_view(lines@) =~= seq![Seq::<SpanV>::empty()]);
        assert(spans_text(Seq::<SpanV>::empty()) =~= Seq::<char>::empty());
    }
    lines
}

proof fn lemma_lines_push(ls: Seq<Vec<Span>>, l: Vec<Span>)
    ensures
        lines_view(ls.push(l)) == lines_view(ls).push(span_views(l@)),
{
    assert(lines_view(ls.push(l)) =~= lines_view(ls).push(span_views(l@)));
}

/// Finishes the current line: trims it and adds it to `lines`; the current line is empty.
fn finish_line(lines: &mut Vec<Vec<Span>>, line: &mut Vec<Span>)
    ensures
        lines_view(final(lines)@) == lines_view(old(lines)@).push(trim_spaces(span_views(old(line)@))),
        final(line)@.len() == 0,
        span_views(final(line)@) == Seq::<SpanV>::empty(),
{
    let mut l: Vec<Span> = Vec::new();
    std::mem::swap(&mut l, line);
    let t = trim_end_spaces(l);
    proof {
        lemma_lines_push(lines@, t);
    }
    lines.push(t);
    assert(span_views(line@) =~= Seq::<SpanV>::empty());
}

/// Places `text` (of width `w`) like `place`.
fn place_span(
    lines: &mut Vec<Vec<Span>>,
    line: &mut Vec<Span>,
    lw: WidthSum,
    Ghost(lwv): Ghost<int>,
    text: String,
    style: Style,
    w: usize,
    width: usize,
) -> (r: (WidthSum, Ghost<int>))
    requires
        lw.holds(lwv, width),
        lwv >= 0,
    ensures
        (lines_view(final(lines)@), span_views(final(line)@), r.1@) == place(
            (lines_view(old(lines)@), span_views(old(line)@), lwv),
            (text@, style),
            w as int,
            width as int,
        ),
        r.0.holds(r.1@, width),
        r.1@ >= 0,
{
    let mut lw = lw;
    let ghost mut v = lwv;
    if lw.exceeds_with(w, width, Ghost(lwv)) && line.len() > 0 {
        finish_line(lines, line);
        lw = WidthSum::zero();
        proof {
            v = 0;
        }
    }
    push_line_span(line, text, style);
    let r = lw.add(w, width, Ghost(v));
    (r, Ghost(v + w))
}

proof fn lemma_views_push(s: Seq<Span>, sp: Span)
    ensures
        span_views(s.push(sp)) == span_views(s).push((sp.text@, sp.style)),
{
    assert(span_views(s.push(sp)) =~= span_views(s).push((sp.text@, sp.style)));
}

/// Adds a span to a line, joining it to the last span when the styles match.
fn push_line_span(line: &mut Vec<Span>, text: String, style: Style)
    ensures
        span_views(final(line)@) == push_span_v(span_views(old(line)@), (text@, style)),
{
    let n = line.len();
    if n > 0 && line[n - 1].style == style {
        let mut last = line.pop().unwrap();
        assert(span_views(line@) =~= span_views(old(line)@).drop_last());
        push_str(&mut last.text, text.as_str());
        proof {
            lemma_views_push(line@, last);
        }
        line.push(last);
    } else {
        proof {
            lemma_views_push(line@, Span { text, style });
        }
        line.push(Span { text, style });
    }
}

/// A line with trailing whitespace removed from its last span (see `trim_spaces`).
fn trim_end_spaces(line: Vec<Span>) -> (r: Vec<Span>)
    ensures
        span_views(r@) == trim_spaces(span_views(line@)),
{
    let mut line = line;
    if line.len() == 0 {
        return line;
    }
    let ghost before = line@;
    let last = line.pop().unwrap();
    assert(span_views(line@) =~= span_views(before).drop_last());
    let cs = chars_of(last.text.as_str());
    let n = trim_end_len(&cs, cs.len());
    assert(cs@.take(cs@.len() as int) == cs@);
    if n == 0 {
        line
    } else {
        let text = string_of(&cs[0..n]);
        assert(cs@.subrange(0, n as int) == cs@.take(n as int));
        proof {
            lemma_views_push(line@, Span { text, style: last.style });
        }
        line.push(Span { text, style: last.style });
        line
    }
}

/// Whether `c` occurs in `s`.
pub fn contains_char(s: &[char], c: char) -> (r: bool)
    ensures
        r == s@.contains(c),
{
    let mut i: usize = 0;
    while i < s.len()
        invariant
            i <= s@.len(),
            forall|k: int| 0 <= k < i ==> s@[k] != c,
        decreases s@.len() - i,
    {
        if s[i] == c {
            assert(s@[i as int] == c);
            return true;
        }
        i = i + 1;
    }
    false
}

proof fn lemma_tokens_push(s: Seq<Token>, t: Token)
    ensures
        token_views(s.push(t)) == token_views(s).push((t.kind, t.text@, t.style)),
{
    assert(token_views(s.push(t)) =~= token_views(s).push((t.kind, t.text@, t.style)));
}

fn flush_token(out: &mut Vec<Token>, current: &mut Vec<char>, mode: &mut Option<TokenKind>, style: Style)
    ensures
        token_views(final(out)@) == flushed(token_views(old(out)@), old(current)@, *old(mode), style),
        final(current)@ == Seq::<char>::empty(),
        *final(mode) == None::<TokenKind>,
{
    if let Some(kind) = *mode {
        if current.len() > 0 {
            let text = string_of(current.as_slice());
            proof {
                lemma_tokens_push(out@, Token { kind, text, style });
            }
            out.push(Token { kind, text, style });
        }
    }
    *current = Vec::new();
    *mode = None;
}

/// The tokens of `spans` (see `tokens`).
fn tokenize(spans: &[Span]) -> (r: Vec<Token>)
    ensures
        token_views(r@) == tokens(span_views(spans@)),
{
    let mut out: Vec<Token> = Vec::new();
    for s in 0..spans.len()
        invariant
            token_views(out@) == tokens(span_views(spans@).take(s as int)),
    {
        let ghost sv = span_views(spans@);
        assert(sv.take(s + 1).drop_last() == sv.take(s as int));
        assert(sv[s as int] == (spans@[s as int].text@, spans@[s as int].style));
        let style = spans[s].style;
        let cs = chars_of(spans[s].text.as_str());
        let esc = contains_char(&cs, '\u{1b}');
        let ghost start = token_views(out@);
        let mut current: Vec<char> = Vec::new();
        let mut mode: Option<TokenKind> = None;
        for i in 0..cs.len()
            invariant
                cs@ == spans@[s as int].text@,
                esc == cs@.contains('\u{1b}'),
                ({
                    let f = tok_fold(cs@.take(i as int), esc, style);
                    &&& token_views(out@) == start + f.0
                    &&& current@ == f.1
                    &&& mode == f.2
                }),
        {
            assert(cs@.take(i + 1).drop_last() == cs@.take(i as int));
            let ghost f = tok_fold(cs@.take(i as int), esc, style);
            let c = cs[i];
            if c == '\n' {
                flush_token(&mut out, &mut current, &mut mode, style);
                assert(flushed(start + f.0, f.1, f.2, style) == start + flushed(f.0, f.1, f.2, style));
                let mut nl = String::new();
                push_char(&mut nl, '\n');
                proof {
                    lemma_tokens_push(out@, Token { kind: TokenKind::Newline, text: nl, style });
                }
                out.push(Token { kind: TokenKind::Newline, text: nl, style });
                assert(token_views(out@) =~= start + tok_fold(cs@.take(i + 1), esc, style).0);
            } else {
                let kind = if !esc && is_whitespace(c) {
                    TokenKind::Space
                } else {
                    TokenKind::Word
                };
                if mode != Some(kind) {
                    flush_token(&mut out, &mut current, &mut mode, style);
                    assert(flushed(start + f.0, f.1, f.2, style) =~= start + flushed(f.0, f.1, f.2, style));
                    mode = Some(kind);
                }
                current.push(c);
                assert(current@ =~= tok_fold(cs@.take(i + 1), esc, style).1);
            }
        }
        assert(cs@.take(cs@.len() as int) == cs@);
        let ghost f = tok_fold(cs@, esc, style);
        flush_token(&mut out, &mut current, &mut mode, style);
        assert(flushed(start + f.0, f.1, f.2, style) =~= start + flushed(f.0, f.1, f.2, style));
    }
    assert(span_views(spans@).take(spans@.len() as int) == span_views(spans@));
    out
}

/// The pieces of a too-long word (see `split_long`).
fn split_long_token(text: &[char], width: usize) -> (r: Vec<Vec<char>>)
    requires
        width >= 1,
    ensures
        r@.map_values(|p: Vec<char>| p@) == split_long(text@, width as int),
        printable(text@) ==> forall|k: int|
            0 <= k < r@.len() ==> #[trigger] r@[k]@.len() <= width && printable(r@[k]@),
{
    let mut out: Vec<Vec<char>> = Vec::new();
    let mut current: Vec<char> = Vec::new();
    let mut cw = WidthSum::zero();
    let ghost mut cwv: int = 0;
    for i in 0..text.len()
        invariant
            out@.map_values(|p: Vec<char>| p@) == split_fold(text@.take(i as int), width as int).0,
            current@ == split_fold(text@.take(i as int), width as int).1,
            cwv == split_fold(text@.take(i as int), width as int).2,
            cwv >= 0,
            cw.holds(cwv, width),
            width >= 1,
            printable(text@) ==> {
                &&& cwv == current@.len()
                &&& current@.len() <= width
                &&& printable(current@)
                &&& forall|k: int|
                    0 <= k < out@.len() ==> #[trigger] out@[k]@.len() <= width && printable(
                        out@[k]@,
                    )
            },
    {
        assert(text@.take(i + 1).drop_last() == text@.take(i as int));
        let c = text[i];
        let ghost cur0 = current@;
        proof {
            if printable(text@) {
                assert(is_printable_ascii(text@[i as int]));
            }
        }
        let w = match char_width(c) {
            Some(w) => w,
            None => 0,
        };
        if cw.exceeds_with(w, width, Ghost(cwv)) && current.len() > 0 {
            let ghost before = out@;
            let mut done: Vec<char> = Vec::new();
            std::mem::swap(&mut done, &mut current);
            out.push(done);
            assert(out@.map_values(|p: Vec<char>| p@) =~= before.map_values(|p: Vec<char>| p@).push(
                done@,
            ));
            current.push(c);
            cw = WidthSum::zero().add(w, width, Ghost(0));
            proof {
                cwv = w as int;
                if printable(text@) {
                    assert(current@ =~= seq![c]);
                    assert(out@[out@.len() - 1]@ == cur0);
                }
            }
        } else {
            current.push(c);
            cw = cw.add(w, width, Ghost(cwv));
            proof {
                cwv = cwv + w;
                if printable(text@) {
                    lemma_printable_push(cur0, c);
                }
            }
        }
        assert(current@ =~= split_fold(text@.take(i + 1), width as int).1);
    }
    assert(text@.take(text@.len() as int) == text@);
    if current.len() > 0 {
        let ghost before = out@;
        let ghost last = current@;
        out.push(current);
        assert(out@.map_values(|p: Vec<char>| p@) =~= before.map_values(|p: Vec<char>| p@).push(
            last,
        ));
        assert(out@[out@.len() - 1]@ == last);
    }
    out
}

} // verus!
