use vstd::prelude::*;

use crate::render::inline::{spans_text, SpanV};
use crate::render::wrap::{
    break_line, flushed, lemma_push_span_text, parts_fold, place, push_span_v, span_tokens,
    split_fold, split_long,
    tok_fold, tokens, trim_spaces, tw, wrap_fold, wrapped, TokenKind, TokenV, WrapV,
};
use crate::theme::Style;
use crate::util::text::{is_ws, trim_end};

verus! {

/// The characters of `s` that are not whitespace, in order.
pub open spec fn inked(s: Seq<char>) -> Seq<char>
    decreases s.len(),
{
    if s.len() == 0 {
        seq![]
    } else if is_ws(s.last()) {
        inked(s.drop_last())
    } else {
        inked(s.drop_last()).push(s.last())
    }
}

/// The non-whitespace characters of lines of spans, line after line.
pub open spec fn lines_inked(ls: Seq<Seq<SpanV>>) -> Seq<char>
    decreases ls.len(),
{
    if ls.len() == 0 {
        seq![]
    } else {
        lines_inked(ls.drop_last()) + inked(spans_text(ls.last()))
    }
}

proof fn lemma_inked_concat(a: Seq<char>, b: Seq<char>)
    ensures
        inked(a + b) == inked(a) + inked(b),
    decreases b.len(),
{
    if b.len() == 0 {
        assert(a + b =~= a);
        assert(inked(a) + inked(b) =~= inked(a));
    } else {
        assert((a + b).drop_last() =~= a + b.drop_last());
        assert((a + b).last() == b.last());
        lemma_inked_concat(a, b.drop_last());
        if !is_ws(b.last()) {
            assert(inked(a) + inked(b.drop_last()).push(b.last()) =~= (inked(a) + inked(
                b.drop_last(),
            )).push(b.last()));
        }
    }
}

proof fn lemma_inked_trim_end(s: Seq<char>)
    ensures
        inked(trim_end(s)) == inked(s),
    decreases s.len(),
{
    if s.len() > 0 && is_ws(s.last()) {
        lemma_inked_trim_end(s.drop_last());
    }
}

/// Whitespace only.
pub open spec fn all_ws(s: Seq<char>) -> bool {
    forall|k: int| 0 <= k < s.len() ==> is_ws(#[trigger] s[k])
}

proof fn lemma_inked_ws(s: Seq<char>)
    requires
        all_ws(s),
    ensures
        inked(s) == Seq::<char>::empty(),
    decreases s.len(),
{
    if s.len() > 0 {
        assert(is_ws(s[s.len() - 1]));
        lemma_inked_ws(s.drop_last());
    }
}

proof fn lemma_inked_trim_spaces(line: Seq<SpanV>)
    ensures
        inked(spans_text(trim_spaces(line))) == inked(spans_text(line)),
{
    if line.len() > 0 {
        let t = trim_end(line.last().0);
        lemma_inked_trim_end(line.last().0);
        lemma_inked_concat(spans_text(line.drop_last()), t);
        lemma_inked_concat(spans_text(line.drop_last()), line.last().0);
        if t.len() == 0 {
            assert(spans_text(line.drop_last()) + t =~= spans_text(line.drop_last()));
        } else {
            let r = line.drop_last().push((t, line.last().1));
            assert(r.drop_last() =~= line.drop_last());
        }
    }
}

/// The texts of tokens, one after another.
pub open spec fn toks_text(ts: Seq<TokenV>) -> Seq<char>
    decreases ts.len(),
{
    if ts.len() == 0 {
        seq![]
    } else {
        toks_text(ts.drop_last()) + ts.last().1
    }
}

/// Tokens other than words hold only whitespace.
pub open spec fn gaps_ws(ts: Seq<TokenV>) -> bool {
    forall|j: int| 0 <= j < ts.len() && ts[j].0 != TokenKind::Word ==> all_ws(#[trigger] ts[j].1)
}

proof fn lemma_toks_text_push(ts: Seq<TokenV>, t: TokenV)
    ensures
        toks_text(ts.push(t)) == toks_text(ts) + t.1,
{
    assert(ts.push(t).drop_last() =~= ts);
}

proof fn lemma_flushed_text(ts: Seq<TokenV>, cur: Seq<char>, mode: Option<TokenKind>, style: Style)
    requires
        mode is None ==> cur.len() == 0,
        gaps_ws(ts),
        mode == Some(TokenKind::Space) ==> all_ws(cur),
        mode != Some(TokenKind::Newline),
    ensures
        toks_text(flushed(ts, cur, mode, style)) == toks_text(ts) + cur,
        gaps_ws(flushed(ts, cur, mode, style)),
{
    let f = flushed(ts, cur, mode, style);
    if mode is Some && cur.len() > 0 {
        lemma_toks_text_push(ts, (mode->0, cur, style));
        assert forall|j: int| 0 <= j < f.len() && f[j].0 != TokenKind::Word implies all_ws(
            #[trigger] f[j].1,
        ) by {
            if j < ts.len() {
                assert(f[j] == ts[j]);
            }
        }
    } else {
        assert(toks_text(ts) + cur =~= toks_text(ts));
    }
}

proof fn lemma_tok_fold_text(s: Seq<char>, esc: bool, style: Style)
    ensures
        ({
            let (ts, cur, mode) = tok_fold(s, esc, style);
            &&& toks_text(ts) + cur == s
            &&& mode is None ==> cur.len() == 0
            &&& mode != Some(TokenKind::Newline)
            &&& gaps_ws(ts)
            &&& mode == Some(TokenKind::Space) ==> all_ws(cur)
        }),
    decreases s.len(),
{
    if s.len() > 0 {
        let p = s.drop_last();
        lemma_tok_fold_text(p, esc, style);
        let (ts, cur, mode) = tok_fold(p, esc, style);
        let c = s.last();
        lemma_flushed_text(ts, cur, mode, style);
        let f = flushed(ts, cur, mode, style);
        if c == '\n' {
            lemma_toks_text_push(f, (TokenKind::Newline, seq!['\n'], style));
            let g = f.push((TokenKind::Newline, seq!['\n'], style));
            assert(all_ws(seq!['\n']));
            assert(toks_text(g) + Seq::<char>::empty() =~= s);
            assert forall|j: int| 0 <= j < g.len() && g[j].0 != TokenKind::Word implies all_ws(
                #[trigger] g[j].1,
            ) by {
                if j < f.len() {
                    assert(g[j] == f[j]);
                }
            }
        } else {
            let kind = if !esc && is_ws(c) {
                TokenKind::Space
            } else {
                TokenKind::Word
            };
            if mode != Some(kind) {
                assert(toks_text(f) + seq![c] =~= s);
                if kind == TokenKind::Space {
                    assert(all_ws(seq![c]));
                }
            } else {
                assert(toks_text(ts) + cur == p);
                assert(s =~= p.push(c));
                assert(toks_text(ts) + cur.push(c) =~= s);
                if kind == TokenKind::Space {
                    assert forall|k: int| 0 <= k < cur.push(c).len() implies is_ws(
                        #[trigger] cur.push(c)[k],
                    ) by {
                        if k < cur.len() {
                            assert(cur.push(c)[k] == cur[k]);
                        }
                    }
                }
            }
        }
    }
}

proof fn lemma_toks_text_concat(a: Seq<TokenV>, b: Seq<TokenV>)
    ensures
        toks_text(a + b) == toks_text(a) + toks_text(b),
    decreases b.len(),
{
    if b.len() == 0 {
        assert(a + b =~= a);
        assert(toks_text(a) + toks_text(b) =~= toks_text(a));
    } else {
        assert((a + b).drop_last() =~= a + b.drop_last());
        assert((a + b).last() == b.last());
        lemma_toks_text_concat(a, b.drop_last());
        assert(toks_text(a) + toks_text(b.drop_last()) + b.last().1 =~= toks_text(a) + (
        toks_text(b.drop_last()) + b.last().1));
    }
}

proof fn lemma_tokens_text(spans: Seq<SpanV>)
    ensures
        toks_text(tokens(spans)) == spans_text(spans),
        gaps_ws(tokens(spans)),
    decreases spans.len(),
{
    if spans.len() > 0 {
        let p = spans.drop_last();
        lemma_tokens_text(p);
        let sp = spans.last();
        let esc = sp.0.contains('\u{1b}');
        lemma_tok_fold_text(sp.0, esc, sp.1);
        let (ts, cur, mode) = tok_fold(sp.0, esc, sp.1);
        lemma_flushed_text(ts, cur, mode, sp.1);
        lemma_toks_text_concat(tokens(p), span_tokens(sp));
        let a = tokens(p);
        let b = span_tokens(sp);
        assert forall|j: int| 0 <= j < (a + b).len() && (a + b)[j].0 != TokenKind::Word implies all_ws(
            #[trigger] (a + b)[j].1,
        ) by {
            if j < a.len() {
                assert((a + b)[j] == a[j]);
            } else {
                assert((a + b)[j] == b[j - a.len()]);
            }
        }
    }
}

/// The non-whitespace characters a wrapping state holds: finished lines, then the current.
pub open spec fn state_inked(st: WrapV) -> Seq<char> {
    lines_inked(st.0) + inked(spans_text(st.1))
}

proof fn lemma_break_inked(st: WrapV)
    ensures
        state_inked(break_line(st)) == state_inked(st),
{
    lemma_inked_trim_spaces(st.1);
    let b = break_line(st);
    assert(b.0.drop_last() =~= st.0);
    assert(spans_text(Seq::<SpanV>::empty()) =~= Seq::<char>::empty());
    assert(lines_inked(b.0) + Seq::<char>::empty() =~= lines_inked(b.0));
}

proof fn lemma_push_inked(st: WrapV, sp: SpanV, w: int)
    ensures
        state_inked((st.0, push_span_v(st.1, sp), w)) == state_inked(st) + inked(sp.0),
{
    lemma_push_span_text(st.1, sp);
    lemma_inked_concat(spans_text(st.1), sp.0);
    assert(lines_inked(st.0) + (inked(spans_text(st.1)) + inked(sp.0)) =~= lines_inked(st.0)
        + inked(spans_text(st.1)) + inked(sp.0));
}

proof fn lemma_place_inked(st: WrapV, sp: SpanV, w: int, width: int)
    ensures
        state_inked(place(st, sp, w, width)) == state_inked(st) + inked(sp.0),
{
    lemma_break_inked(st);
    let st1 = if st.2 + w > width && st.1.len() > 0 {
        break_line(st)
    } else {
        st
    };
    lemma_push_inked(st1, sp, st1.2 + w);
}

proof fn lemma_parts_inked(st: WrapV, parts: Seq<Seq<char>>, style: Style, width: int)
    ensures
        state_inked(parts_fold(st, parts, style, width)) == state_inked(st) + inked(parts.flatten_alt()),
    decreases parts.len(),
{
    if parts.len() == 0 {
        assert(state_inked(st) + inked(Seq::<char>::empty()) =~= state_inked(st));
    } else {
        lemma_parts_inked(st, parts.drop_last(), style, width);
        let st0 = parts_fold(st, parts.drop_last(), style, width);
        lemma_place_inked(st0, (parts.last(), style), tw(parts.last()), width);
        lemma_break_inked(place(st0, (parts.last(), style), tw(parts.last()), width));
        lemma_inked_concat(parts.drop_last().flatten_alt(), parts.last());
        assert(state_inked(st) + inked(parts.drop_last().flatten_alt()) + inked(parts.last())
            =~= state_inked(st) + (inked(parts.drop_last().flatten_alt()) + inked(parts.last())));
    }
}

proof fn lemma_split_fold_text(s: Seq<char>, width: int)
    ensures
        split_fold(s, width).0.flatten_alt() + split_fold(s, width).1 == s,
    decreases s.len(),
{
    if s.len() > 0 {
        lemma_split_fold_text(s.drop_last(), width);
        let (out, cur, cw) = split_fold(s.drop_last(), width);
        let c = s.last();
        assert(out.push(cur).drop_last() =~= out);
        assert(out.flatten_alt() + cur + seq![c] =~= s);
        assert(out.flatten_alt() + cur.push(c) =~= s);
    }
}

proof fn lemma_split_long_text(s: Seq<char>, width: int)
    ensures
        split_long(s, width).flatten_alt() == s,
{
    lemma_split_fold_text(s, width);
    let (out, cur, cw) = split_fold(s, width);
    assert(out.push(cur).drop_last() =~= out);
    assert(out.flatten_alt() + Seq::<char>::empty() =~= out.flatten_alt());
}

proof fn lemma_wrap_fold_inked(toks: Seq<TokenV>, width: int)
    requires
        gaps_ws(toks),
    ensures
        state_inked(wrap_fold(toks, width)) == inked(toks_text(toks)),
    decreases toks.len(),
{
    if toks.len() == 0 {
        assert(state_inked((seq![], seq![], 0)) =~= Seq::<char>::empty());
        assert(spans_text(Seq::<SpanV>::empty()) =~= Seq::<char>::empty());
    } else {
        let p = toks.drop_last();
        assert(gaps_ws(p)) by {
            assert forall|j: int| 0 <= j < p.len() && p[j].0 != TokenKind::Word implies all_ws(
                #[trigger] p[j].1,
            ) by {
                assert(p[j] == toks[j]);
            }
        }
        lemma_wrap_fold_inked(p, width);
        let st = wrap_fold(p, width);
        let tok = toks.last();
        assert(toks[toks.len() - 1] == tok);
        lemma_inked_concat(toks_text(p), tok.1);
        lemma_break_inked(st);
        lemma_push_inked(st, (tok.1, tok.2), st.2 + tw(tok.1));
        lemma_place_inked(st, (tok.1, tok.2), tw(tok.1), width);
        lemma_split_long_text(tok.1, width);
        lemma_parts_inked(st, split_long(tok.1, width), tok.2, width);
        if tok.0 != TokenKind::Word {
            lemma_inked_ws(tok.1);
            assert(state_inked(st) + Seq::<char>::empty() =~= state_inked(st));
        }
    }
}

/// Wrapping keeps every word: the wrapped lines hold the non-whitespace characters of the
/// spans, all of them and in the same order; only whitespace is dropped at line breaks.
pub proof fn lemma_wrap_keeps_words(spans: Seq<SpanV>, width: usize)
    ensures
        lines_inked(wrapped(spans, width)) == inked(spans_text(spans)),
{
    let w = if width == 0 {
        1int
    } else {
        width as int
    };
    lemma_tokens_text(spans);
    lemma_wrap_fold_inked(tokens(spans), w);
    let st = wrap_fold(tokens(spans), w);
    lemma_break_inked(st);
    let empty: Seq<SpanV> = seq![];
    assert(spans_text(empty) =~= Seq::<char>::empty());
    if st.1.len() == 0 {
        assert(st.1 =~= empty);
        assert(state_inked(st) =~= lines_inked(st.0));
        if st.0.len() == 0 {
            let one: Seq<Seq<SpanV>> = seq![empty];
            assert(one.drop_last() =~= Seq::<Seq<SpanV>>::empty());
            assert(one.last() == empty);
            assert(lines_inked(Seq::<Seq<SpanV>>::empty()) == Seq::<char>::empty());
            assert(inked(Seq::<char>::empty()) == Seq::<char>::empty());
            assert(lines_inked(one) =~= Seq::<char>::empty());
        }
    } else {
        let b = break_line(st);
        assert(state_inked(b) =~= lines_inked(b.0));
    }
}

} // verus!
