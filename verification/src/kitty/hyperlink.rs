use vstd::prelude::*;

use super::{lemma_escaped_has_no_terminator, osc_escaped, push_escape_osc};
use crate::util::width::{
    lemma_strip_fold_from, lemma_strip_from_append, lemma_strip_osc_body, lemma_strip_plain,
    strip_from, stripped, StripState,
};
use crate::util::text::push_char;

verus! {

/// `ESC ] 8 ; ;` opening an OSC 8 hyperlink sequence.
pub open spec fn osc8_open() -> Seq<char> {
    seq!['\u{1b}', ']', '8', ';', ';']
}

/// The string terminator `ESC \`.
pub open spec fn string_terminator() -> Seq<char> {
    seq!['\u{1b}', '\\']
}

/// The OSC 8 hyperlink showing `label` and pointing at `url`.
pub open spec fn osc8(label: Seq<char>, url: Seq<char>) -> Seq<char> {
    osc8_open() + osc_escaped(url) + string_terminator() + osc_escaped(label) + osc8_open()
        + string_terminator()
}

/// A terminal hyperlink (OSC 8) with text `label` to `url`; both are escaped.
pub fn osc8_link(label: &str, url: &str) -> (r: String)
    ensures
        r@ == osc8(label@, url@),
{
    let mut out = String::new();
    push_open(&mut out);
    push_escape_osc(&mut out, url);
    push_char(&mut out, '\u{1b}');
    push_char(&mut out, '\\');
    push_escape_osc(&mut out, label);
    push_open(&mut out);
    push_char(&mut out, '\u{1b}');
    push_char(&mut out, '\\');
    assert(out@ =~= osc8(label@, url@));
    out
}

fn push_open(out: &mut String)
    ensures
        final(out)@ == old(out)@ + osc8_open(),
{
    push_char(out, '\u{1b}');
    push_char(out, ']');
    push_char(out, '8');
    push_char(out, ';');
    push_char(out, ';');
    assert(final(out)@ =~= old(out)@ + osc8_open());
}

proof fn lemma_strip_open(o: Seq<char>)
    ensures
        strip_from(o, StripState::Text, osc8_open()) == (o, StripState::Osc { bel: true, prev: ';' }),
{
    let start: Seq<char> = seq!['\u{1b}', ']'];
    let body: Seq<char> = seq!['8', ';', ';'];
    assert(start.drop_last() =~= seq!['\u{1b}']);
    assert(seq!['\u{1b}'].drop_last() =~= Seq::<char>::empty());
    assert(strip_from(o, StripState::Text, start) == (o, StripState::Osc { bel: true, prev: '\0' })) by {
        reveal_with_fuel(strip_from, 3);
    }
    assert(!body.contains('\u{1b}') && !body.contains('\u{7}')) by {
        if body.contains('\u{1b}') || body.contains('\u{7}') {
            let k = choose|k: int| 0 <= k < body.len() && (body[k] == '\u{1b}' || body[k] == '\u{7}');
            assert(0 <= k < 3);
        }
    }
    lemma_strip_osc_body(o, true, '\0', body);
    lemma_strip_from_append(o, StripState::Text, start, body);
    assert(start + body =~= osc8_open());
}

proof fn lemma_strip_terminator(o: Seq<char>, bel: bool, prev: char)
    ensures
        strip_from(o, StripState::Osc { bel, prev }, string_terminator()) == (o, StripState::Text),
{
    assert(string_terminator().drop_last() =~= seq!['\u{1b}']);
    assert(seq!['\u{1b}'].drop_last() =~= Seq::<char>::empty());
    reveal_with_fuel(strip_from, 3);
}

/// A hyperlink shows only its label: stripping its escape sequences leaves the label as
/// the link carries it (escaped), and nothing of the URL.
pub proof fn lemma_link_shows_label(label: Seq<char>, url: Seq<char>)
    ensures
        stripped(osc8(label, url)) == osc_escaped(label),
{
    let e: Seq<char> = seq![];
    let u = osc_escaped(url);
    let l = osc_escaped(label);
    lemma_escaped_has_no_terminator(url);
    lemma_escaped_has_no_terminator(label);
    let s = osc8_open() + u + string_terminator() + l + osc8_open() + string_terminator();
    lemma_strip_fold_from(s);
    lemma_strip_open(e);
    lemma_strip_osc_body(e, true, ';', u);
    lemma_strip_from_append(e, StripState::Text, osc8_open(), u);
    let p = if u.len() > 0 {
        u.last()
    } else {
        ';'
    };
    lemma_strip_terminator(e, true, p);
    lemma_strip_from_append(e, StripState::Text, osc8_open() + u, string_terminator());
    lemma_strip_plain(e, l);
    lemma_strip_from_append(e, StripState::Text, osc8_open() + u + string_terminator(), l);
    lemma_strip_open(e + l);
    lemma_strip_from_append(
        e,
        StripState::Text,
        osc8_open() + u + string_terminator() + l,
        osc8_open(),
    );
    lemma_strip_terminator(e + l, true, ';');
    lemma_strip_from_append(
        e,
        StripState::Text,
        osc8_open() + u + string_terminator() + l + osc8_open(),
        string_terminator(),
    );
    assert(e + l =~= l);
}

} // verus!
