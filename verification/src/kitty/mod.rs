pub mod detect;
pub mod graphics;
pub mod hyperlink;
pub mod text_size;

use vstd::prelude::*;

use crate::util::text::{chars_of, push_char};

verus! {

/// What one character becomes inside an OSC payload: ESC and BEL are dropped, a backslash
/// is doubled, anything else is kept.
pub open spec fn osc_escaped_char(c: char) -> Seq<char> {
    if c == '\u{1b}' || c == '\u{7}' {
        seq![]
    } else if c == '\\' {
        seq!['\\', '\\']
    } else {
        seq![c]
    }
}

/// `s` made safe to embed in an OSC payload, character by character.
pub open spec fn osc_escaped(s: Seq<char>) -> Seq<char>
    decreases s.len(),
{
    if s.len() == 0 {
        seq![]
    } else {
        osc_escaped(s.drop_last()) + osc_escaped_char(s.last())
    }
}

/// Appends `osc_escaped(input)` to `out`.
pub fn push_escape_osc(out: &mut String, input: &str)
    ensures
        final(out)@ == old(out)@ + osc_escaped(input@),
{
    let cs = chars_of(input);
    let ghost start = out@;
    for i in 0..cs.len()
        invariant
            cs@ == input@,
            out@ == start + osc_escaped(cs@.take(i as int)),
    {
        assert(cs@.take(i + 1).drop_last() == cs@.take(i as int));
        let c = cs[i];
        if c == '\u{1b}' || c == '\u{7}' {
        } else if c == '\\' {
            push_char(out, '\\');
            push_char(out, '\\');
        } else {
            push_char(out, c);
        }
        assert(out@ =~= start + osc_escaped(cs@.take(i + 1)));
    }
    assert(cs@.take(cs@.len() as int) == cs@);
}

/// `input` without ESC and BEL, with each backslash doubled: safe inside an OSC payload.
pub fn escape_osc(input: &str) -> (r: String)
    ensures
        r@ == osc_escaped(input@),
{
    let mut out = String::new();
    push_escape_osc(&mut out, input);
    out
}

/// An escaped payload holds neither ESC nor BEL, so it cannot end the OSC sequence
/// that carries it.
pub proof fn lemma_escaped_has_no_terminator(s: Seq<char>)
    ensures
        !osc_escaped(s).contains('\u{1b}'),
        !osc_escaped(s).contains('\u{7}'),
    decreases s.len(),
{
    if s.len() > 0 {
        lemma_escaped_has_no_terminator(s.drop_last());
        let a = osc_escaped(s.drop_last());
        let b = osc_escaped_char(s.last());
        assert(osc_escaped(s) == a + b);
        assert forall|c: char| c == '\u{1b}' || c == '\u{7}' implies !(a + b).contains(c) by {
            if (a + b).contains(c) {
                let k = choose|k: int| 0 <= k < (a + b).len() && (a + b)[k] == c;
                if k < a.len() {
                    assert(a[k] == c);
                } else {
                    assert(b[k - a.len()] == c);
                }
            }
        }
    }
}

} // verus!
