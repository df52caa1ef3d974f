use vstd::prelude::*;

use super::{osc_escaped, push_escape_osc};
use crate::util::text::{decimal, push_char, push_decimal, to_owned};

verus! {

/// How large the kitty text-sizing protocol (OSC 66) should draw a piece of text.
pub enum TextSize {
    Normal,
    Scale(u8),
    Fraction { numerator: u8, denominator: u8 },
}

/// `text` drawn at `size`: unchanged for `Normal`, otherwise an OSC 66 sequence ending in BEL.
pub open spec fn sized(text: Seq<char>, size: TextSize) -> Seq<char> {
    match size {
        TextSize::Normal => text,
        TextSize::Scale(s) => seq!['\u{1b}', ']', '6', '6', ';', 's', '='] + decimal(s as nat)
            + seq![';'] + osc_escaped(text) + seq!['\u{7}'],
        TextSize::Fraction { numerator, denominator } => seq![
            '\u{1b}',
            ']',
            '6',
            '6',
            ';',
            'n',
            '=',
        ] + decimal(numerator as nat) + seq![':', 'd', '='] + decimal(denominator as nat)
            + seq![';'] + osc_escaped(text) + seq!['\u{7}'],
    }
}

/// `text` wrapped in the kitty text-sizing sequence for `size`.
pub fn sized_text(text: &str, size: TextSize) -> (r: String)
    ensures
        r@ == sized(text@, size),
{
    match size {
        TextSize::Normal => to_owned(text),
        TextSize::Scale(scale) => {
            let mut out = String::new();
            push_osc66(&mut out);
            push_char(&mut out, 's');
            push_char(&mut out, '=');
            push_decimal(&mut out, scale as u64);
            push_char(&mut out, ';');
            push_escape_osc(&mut out, text);
            push_char(&mut out, '\u{7}');
            assert(out@ =~= sized(text@, size));
            out
        },
        TextSize::Fraction { numerator, denominator } => {
            let mut out = String::new();
            push_osc66(&mut out);
            push_char(&mut out, 'n');
            push_char(&mut out, '=');
            push_decimal(&mut out, numerator as u64);
            push_char(&mut out, ':');
            push_char(&mut out, 'd');
            push_char(&mut out, '=');
            push_decimal(&mut out, denominator as u64);
            push_char(&mut out, ';');
            push_escape_osc(&mut out, text);
            push_char(&mut out, '\u{7}');
            assert(out@ =~= sized(text@, size));
            out
        },
    }
}

fn push_osc66(out: &mut String)
    ensures
        final(out)@ == old(out)@ + seq!['\u{1b}', ']', '6', '6', ';'],
{
    push_char(out, '\u{1b}');
    push_char(out, ']');
    push_char(out, '6');
    push_char(out, '6');
    push_char(out, ';');
    assert(final(out)@ =~= old(out)@ + seq!['\u{1b}', ']', '6', '6', ';']);
}

} // verus!
