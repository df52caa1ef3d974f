use vstd::prelude::*;

use crate::theme::{Color, Style};
use crate::util::width::{
    lemma_plain_is_stripped, lemma_strip_csi_body, lemma_strip_fold_from, lemma_strip_from_append,
    lemma_strip_plain, strip_from, stripped, StripState,
};
use crate::util::text::{decimal, push_char, push_decimal, push_str, to_owned};

verus! {

/// The SGR parameter for a colour: `base` is `'3'` for foreground, `'4'` for background.
pub open spec fn color_param(base: char, c: Color) -> Seq<char> {
    match c {
        Color::Ansi(v) => seq![base, '8', ';', '5', ';'] + decimal(v as nat),
        Color::Rgb(r, g, b) => seq![base, '8', ';', '2', ';'] + decimal(r as nat) + seq![';']
            + decimal(g as nat) + seq![';'] + decimal(b as nat),
    }
}

/// `p` as a one-element list if `b`, else the empty list.
pub open spec fn param_if(b: bool, p: Seq<char>) -> Seq<Seq<char>> {
    if b {
        seq![p]
    } else {
        seq![]
    }
}

/// The SGR parameters of a style, in the order bold, dim, italic, underline,
/// foreground, background.
pub open spec fn sgr_params(style: Style) -> Seq<Seq<char>> {
    param_if(style.bold, seq!['1']) + param_if(style.dim, seq!['2']) + param_if(
        style.italic,
        seq!['3'],
    ) + param_if(style.underline, seq!['4']) + match style.fg {
        Some(c) => seq![color_param('3', c)],
        None => seq![],
    } + match style.bg {
        Some(c) => seq![color_param('4', c)],
        None => seq![],
    }
}

/// The items of `list` with `sep` between each two.
pub open spec fn join(list: Seq<Seq<char>>, sep: char) -> Seq<char>
    decreases list.len(),
{
    if list.len() == 0 {
        seq![]
    } else if list.len() == 1 {
        list[0]
    } else {
        join(list.drop_last(), sep) + seq![sep] + list.last()
    }
}

/// The SGR reset sequence `ESC [ 0 m`.
pub open spec fn sgr_reset() -> Seq<char> {
    seq!['\u{1b}', '[', '0', 'm']
}

/// `input` wrapped in the SGR sequence of `style` and a reset, when `ansi` is on and the
/// style sets anything; otherwise `input` unchanged.
pub open spec fn styled(input: Seq<char>, style: Style, ansi: bool) -> Seq<char> {
    let params = sgr_params(style);
    if !ansi || params.len() == 0 {
        input
    } else {
        seq!['\u{1b}', '['] + join(params, ';') + seq!['m'] + input + sgr_reset()
    }
}

fn push_color(codes: &mut String, base: char, c: Color)
    ensures
        final(codes)@ == old(codes)@ + color_param(base, c),
{
    push_char(codes, base);
    push_char(codes, '8');
    push_char(codes, ';');
    match c {
        Color::Ansi(v) => {
            push_char(codes, '5');
            push_char(codes, ';');
            push_decimal(codes, v as u64);
        },
        Color::Rgb(r, g, b) => {
            push_char(codes, '2');
            push_char(codes, ';');
            push_decimal(codes, r as u64);
            push_char(codes, ';');
            push_decimal(codes, g as u64);
            push_char(codes, ';');
            push_decimal(codes, b as u64);
        },
    }
    assert(final(codes)@ =~= old(codes)@ + color_param(base, c));
}

proof fn lemma_join_push(list: Seq<Seq<char>>, p: Seq<char>, sep: char)
    ensures
        join(list.push(p), sep) == if list.len() == 0 {
            p
        } else {
            join(list, sep) + seq![sep] + p
        },
{
    assert(list.push(p).drop_last() == list);
}

/// Appends parameter `p` (a single character, or a colour when `color` is some) to the
/// `;`-separated list `codes` holding the parameters `ps`, when `on`.
fn add_param(
    codes: &mut String,
    n: usize,
    Ghost(ps): Ghost<Seq<Seq<char>>>,
    on: bool,
    ch: char,
    color: Option<(char, Color)>,
) -> (r: (usize, Ghost<Seq<Seq<char>>>))
    requires
        old(codes)@ == join(ps, ';'),
        n == ps.len(),
        n < 8,
    ensures
        r.1@ == ps + param_if(
            on,
            match color {
                Some((b, c)) => color_param(b, c),
                None => seq![ch],
            },
        ),
        final(codes)@ == join(r.1@, ';'),
        r.0 == r.1@.len(),
{
    let ghost p = match color {
        Some((b, c)) => color_param(b, c),
        None => seq![ch],
    };
    if !on {
        assert(ps + param_if(on, p) =~= ps);
        return (n, Ghost(ps));
    }
    if n > 0 {
        push_char(codes, ';');
    }
    match color {
        Some((b, c)) => push_color(codes, b, c),
        None => push_char(codes, ch),
    }
    proof {
        lemma_join_push(ps, p, ';');
        assert(ps + param_if(on, p) =~= ps.push(p));
    }
    (n + 1, Ghost(ps.push(p)))
}

/// Wraps `input` in the SGR escape sequence of `style` (and a reset) when `ansi` is on.
pub fn apply_style(input: &str, style: Style, ansi: bool) -> (r: String)
    ensures
        r@ == styled(input@, style, ansi),
{
    if !ansi {
        return to_owned(input);
    }
    let mut codes = String::new();
    let ghost empty: Seq<Seq<char>> = seq![];
    let (n, ps) = add_param(&mut codes, 0, Ghost(empty), style.bold, '1', None);
    let (n, ps) = add_param(&mut codes, n, ps, style.dim, '2', None);
    let (n, ps) = add_param(&mut codes, n, ps, style.italic, '3', None);
    let (n, ps) = add_param(&mut codes, n, ps, style.underline, '4', None);
    let (n, ps) = match style.fg {
        Some(c) => add_param(&mut codes, n, ps, true, '3', Some(('3', c))),
        None => (n, ps),
    };
    let (n, ps) = match style.bg {
        Some(c) => add_param(&mut codes, n, ps, true, '4', Some(('4', c))),
        None => (n, ps),
    };
    assert(ps@ =~= sgr_params(style));
    if n == 0 {
        return to_owned(input);
    }
    wrap_sgr(codes.as_str(), input)
}

fn wrap_sgr(codes: &str, input: &str) -> (r: String)
    ensures
        r@ == seq!['\u{1b}', '['] + codes@ + seq!['m'] + input@ + sgr_reset(),
{
    let mut out = String::new();
    push_char(&mut out, '\u{1b}');
    push_char(&mut out, '[');
    push_str(&mut out, codes);
    push_char(&mut out, 'm');
    push_str(&mut out, input);
    push_char(&mut out, '\u{1b}');
    push_char(&mut out, '[');
    push_char(&mut out, '0');
    push_char(&mut out, 'm');
    assert(out@ =~= seq!['\u{1b}', '['] + codes@ + seq!['m'] + input@ + sgr_reset());
    out
}

/// No character of `s` could end a CSI sequence: none lies in `'@'..='~'`.
pub open spec fn csi_safe(s: Seq<char>) -> bool {
    forall|i: int| 0 <= i < s.len() ==> !('@' <= #[trigger] s[i] && s[i] <= '~')
}

proof fn lemma_decimal_safe(n: nat)
    ensures
        csi_safe(decimal(n)),
    decreases n,
{
    if n >= 10 {
        lemma_decimal_safe(n / 10);
        let d = decimal(n / 10);
        assert forall|i: int| 0 <= i < decimal(n).len() implies !('@' <= #[trigger] decimal(
            n,
        )[i] && decimal(n)[i] <= '~') by {
            if i < d.len() {
                assert(decimal(n)[i] == d[i]);
            }
        }
    }
}

proof fn lemma_concat_safe(a: Seq<char>, b: Seq<char>)
    requires
        csi_safe(a),
        csi_safe(b),
    ensures
        csi_safe(a + b),
{
    assert forall|i: int| 0 <= i < (a + b).len() implies !('@' <= #[trigger] (a + b)[i] && (a
        + b)[i] <= '~') by {
        if i < a.len() {
            assert((a + b)[i] == a[i]);
        } else {
            assert((a + b)[i] == b[i - a.len()]);
        }
    }
}

proof fn lemma_color_param_safe(base: char, c: Color)
    requires
        '0' <= base && base <= '9',
    ensures
        csi_safe(color_param(base, c)),
{
    match c {
        Color::Ansi(v) => {
            lemma_decimal_safe(v as nat);
            lemma_concat_safe(seq![base, '8', ';', '5', ';'], decimal(v as nat));
        },
        Color::Rgb(r, g, b) => {
            lemma_decimal_safe(r as nat);
            lemma_decimal_safe(g as nat);
            lemma_decimal_safe(b as nat);
            let a0 = seq![base, '8', ';', '2', ';'];
            lemma_concat_safe(a0, decimal(r as nat));
            lemma_concat_safe(a0 + decimal(r as nat), seq![';']);
            lemma_concat_safe(a0 + decimal(r as nat) + seq![';'], decimal(g as nat));
            lemma_concat_safe(a0 + decimal(r as nat) + seq![';'] + decimal(g as nat), seq![';']);
            lemma_concat_safe(
                a0 + decimal(r as nat) + seq![';'] + decimal(g as nat) + seq![';'],
                decimal(b as nat),
            );
        },
    }
}

proof fn lemma_join_safe(list: Seq<Seq<char>>)
    requires
        forall|k: int| 0 <= k < list.len() ==> csi_safe(#[trigger] list[k]),
    ensures
        csi_safe(join(list, ';')),
    decreases list.len(),
{
    if list.len() == 1 {
        assert(csi_safe(list[0]));
    } else if list.len() > 1 {
        lemma_join_safe(list.drop_last());
        assert(csi_safe(list[list.len() - 1]));
        lemma_concat_safe(join(list.drop_last(), ';'), seq![';']);
        lemma_concat_safe(join(list.drop_last(), ';') + seq![';'], list.last());
    }
}

proof fn lemma_sgr_params_safe(style: Style)
    ensures
        forall|k: int| 0 <= k < sgr_params(style).len() ==> csi_safe(#[trigger] sgr_params(style)[k]),
{
    let flags = param_if(style.bold, seq!['1']) + param_if(style.dim, seq!['2']) + param_if(
        style.italic,
        seq!['3'],
    ) + param_if(style.underline, seq!['4']);
    let fg: Seq<Seq<char>> = match style.fg {
        Some(c) => seq![color_param('3', c)],
        None => seq![],
    };
    let bg: Seq<Seq<char>> = match style.bg {
        Some(c) => seq![color_param('4', c)],
        None => seq![],
    };
    assert(sgr_params(style) == flags + fg + bg);
    if let Some(c) = style.fg {
        lemma_color_param_safe('3', c);
    }
    if let Some(c) = style.bg {
        lemma_color_param_safe('4', c);
    }
    assert forall|k: int| 0 <= k < flags.len() implies csi_safe(#[trigger] flags[k]) by {
        let p = flags[k];
        assert(p == seq!['1'] || p == seq!['2'] || p == seq!['3'] || p == seq!['4']);
    }
    assert forall|k: int| 0 <= k < sgr_params(style).len() implies csi_safe(
        #[trigger] sgr_params(style)[k],
    ) by {
        if k < flags.len() {
            assert(sgr_params(style)[k] == flags[k]);
        } else if k < flags.len() + fg.len() {
            assert(sgr_params(style)[k] == fg[k - flags.len()]);
        } else {
            assert(sgr_params(style)[k] == bg[k - flags.len() - fg.len()]);
        }
    }
}

proof fn lemma_strip_csi_start(o: Seq<char>)
    ensures
        strip_from(o, StripState::Text, seq!['\u{1b}', '[']) == (o, StripState::Csi),
{
    let h: Seq<char> = seq!['\u{1b}', '['];
    assert(h.drop_last() =~= seq!['\u{1b}']);
    assert(seq!['\u{1b}'].drop_last() =~= Seq::<char>::empty());
    reveal_with_fuel(strip_from, 3);
}

proof fn lemma_strip_csi_end(o: Seq<char>)
    ensures
        strip_from(o, StripState::Csi, seq!['m']) == (o, StripState::Text),
{
    assert(seq!['m'].drop_last() =~= Seq::<char>::empty());
    reveal_with_fuel(strip_from, 2);
}

pub(crate) proof fn lemma_strip_reset(o: Seq<char>)
    ensures
        strip_from(o, StripState::Text, sgr_reset()) == (o, StripState::Text),
{
    let r = sgr_reset();
    assert(r.drop_last() =~= seq!['\u{1b}', '[', '0']);
    assert(r.drop_last().drop_last() =~= seq!['\u{1b}', '[']);
    lemma_strip_csi_start(o);
    assert(strip_from(o, StripState::Text, r.drop_last()) == (o, StripState::Csi));
}

/// Styling adds only escape sequences: stripping them from a styled text that holds no ESC
/// of its own gives the text back, so styling never changes what is seen or how wide it is.
pub proof fn lemma_styled_strips_to_text(input: Seq<char>, style: Style, ansi: bool)
    requires
        !input.contains('\u{1b}'),
    ensures
        stripped(styled(input, style, ansi)) == input,
{
    let params = sgr_params(style);
    if !ansi || params.len() == 0 {
        lemma_plain_is_stripped(input);
    } else {
        lemma_sgr_params_safe(style);
        lemma_join_safe(params);
        let j = join(params, ';');
        let e: Seq<char> = seq![];
        let head: Seq<char> = seq!['\u{1b}', '['];
        let m: Seq<char> = seq!['m'];
        let s = head + j + m + input + sgr_reset();
        assert(styled(input, style, ansi) == s);
        lemma_strip_fold_from(s);
        lemma_strip_csi_start(e);
        lemma_strip_csi_body(e, j);
        lemma_strip_from_append(e, StripState::Text, head, j);
        lemma_strip_csi_end(e);
        lemma_strip_from_append(e, StripState::Text, head + j, m);
        lemma_strip_plain(e, input);
        lemma_strip_from_append(e, StripState::Text, head + j + m, input);
        lemma_strip_reset(e + input);
        lemma_strip_from_append(e, StripState::Text, head + j + m + input, sgr_reset());
        assert(e + input =~= input);
    }
}

} // verus!
