use vstd::prelude::*;

use unicode_width::{UnicodeWidthChar, UnicodeWidthStr};

use crate::util::text::{chars_of, push_char};

verus! {

/// Display width in terminal columns that `unicode-width` gives a string.
pub uninterp spec fn str_display_width(s: Seq<char>) -> nat;

/// Display width that `unicode-width` gives one character (`None` for control characters).
pub uninterp spec fn char_display_width(c: char) -> Option<usize>;

/// Printable ASCII: `' '` to `'~'`.
pub open spec fn is_printable_ascii(c: char) -> bool {
    ' ' <= c && c <= '~'
}

/// `UnicodeWidthStr::width`: the display width of `s`. The crate documents that a string
/// of printable ASCII characters is as wide as it is long (each such character has width 1
/// and no multi-character rule involves them); for other strings the width is left unstated.
#[verifier::external_body]
pub(crate) fn display_width(s: &str) -> (r: usize)
    ensures
        r == str_display_width(s@),
        (forall|i: int| 0 <= i < s@.len() ==> is_printable_ascii(#[trigger] s@[i])) ==> r
            == s@.len(),
{
    UnicodeWidthStr::width(s)
}

/// `UnicodeWidthChar::width`: the display width of one character. The crate's source gives
/// printable ASCII width 1 and the C0 controls (below `' '`) no width.
#[verifier::external_body]
pub(crate) fn char_width(c: char) -> (r: Option<usize>)
    ensures
        r == char_display_width(c),
        is_printable_ascii(c) ==> r == Some(1usize),
        c < ' ' ==> r is None,
{
    UnicodeWidthChar::width(c)
}

/// Where `strip_ansi` is while it reads its input.
#[derive(Clone, Copy, PartialEq, Eq, Structural)]
pub enum StripState {
    /// Copying visible text.
    Text,
    /// Just read an ESC, not yet known whether a sequence starts.
    Escape,
    /// Inside a CSI sequence (`ESC [`), up to its final byte in `'@'..='~'`.
    Csi,
    /// Inside an OSC (`ESC ]`, ended by BEL or `ESC \`) or APC (`ESC _`, ended by `ESC \`)
    /// sequence; `prev` is the character read last.
    Osc { bel: bool, prev: char },
}

/// One step of `strip_ansi`: the output so far and the state after reading `c`.
pub open spec fn strip_step(out: Seq<char>, st: StripState, c: char) -> (Seq<char>, StripState) {
    match st {
        StripState::Text => if c == '\u{1b}' {
            (out, StripState::Escape)
        } else {
            (out.push(c), StripState::Text)
        },
        StripState::Escape => if c == '[' {
            (out, StripState::Csi)
        } else if c == ']' {
            (out, StripState::Osc { bel: true, prev: '\0' })
        } else if c == '_' {
            (out, StripState::Osc { bel: false, prev: '\0' })
        } else if c == '\u{1b}' {
            (out.push('\u{1b}'), StripState::Escape)
        } else {
            (out.push('\u{1b}').push(c), StripState::Text)
        },
        StripState::Csi => if '@' <= c && c <= '~' {
            (out, StripState::Text)
        } else {
            (out, StripState::Csi)
        },
        StripState::Osc { bel, prev } => if (bel && c == '\u{7}') || (prev == '\u{1b}' && c
            == '\\') {
            (out, StripState::Text)
        } else {
            (out, StripState::Osc { bel, prev: c })
        },
    }
}

/// The output and state of `strip_ansi` after reading all of `s`.
pub open spec fn strip_fold(s: Seq<char>) -> (Seq<char>, StripState)
    decreases s.len(),
{
    if s.len() == 0 {
        (seq![], StripState::Text)
    } else {
        let (o, st) = strip_fold(s.drop_last());
        strip_step(o, st, s.last())
    }
}

/// `s` without its CSI, OSC and APC escape sequences; an ESC that starts none of them is kept.
pub open spec fn stripped(s: Seq<char>) -> Seq<char> {
    let (o, st) = strip_fold(s);
    if st is Escape {
        o.push('\u{1b}')
    } else {
        o
    }
}

/// The output and state of `strip_ansi` after reading `s`, starting from output `out` in
/// state `st`.
pub open spec fn strip_from(out: Seq<char>, st: StripState, s: Seq<char>) -> (Seq<char>, StripState)
    decreases s.len(),
{
    if s.len() == 0 {
        (out, st)
    } else {
        let (o, t) = strip_from(out, st, s.drop_last());
        strip_step(o, t, s.last())
    }
}

/// Reading from the start is reading from the empty output in the text state.
pub proof fn lemma_strip_fold_from(s: Seq<char>)
    ensures
        strip_fold(s) == strip_from(seq![], StripState::Text, s),
    decreases s.len(),
{
    if s.len() > 0 {
        lemma_strip_fold_from(s.drop_last());
    }
}

/// Reading `a + b` is reading `a`, then `b` from where `a` left off.
pub proof fn lemma_strip_from_append(out: Seq<char>, st: StripState, a: Seq<char>, b: Seq<char>)
    ensures
        strip_from(out, st, a + b) == strip_from(
            strip_from(out, st, a).0,
            strip_from(out, st, a).1,
            b,
        ),
    decreases b.len(),
{
    if b.len() == 0 {
        assert(a + b =~= a);
    } else {
        assert((a + b).drop_last() =~= a + b.drop_last());
        assert((a + b).last() == b.last());
        lemma_strip_from_append(out, st, a, b.drop_last());
    }
}

/// Text without ESC read in the text state is copied as it is.
pub proof fn lemma_strip_plain(out: Seq<char>, t: Seq<char>)
    requires
        !t.contains('\u{1b}'),
    ensures
        strip_from(out, StripState::Text, t) == (out + t, StripState::Text),
    decreases t.len(),
{
    if t.len() > 0 {
        assert(!t.drop_last().contains('\u{1b}')) by {
            if t.drop_last().contains('\u{1b}') {
                let k = choose|k: int| 0 <= k < t.drop_last().len() && t.drop_last()[k] == '\u{1b}';
                assert(t[k] == '\u{1b}');
            }
        }
        lemma_strip_plain(out, t.drop_last());
        assert(t.last() != '\u{1b}') by {
            assert(t[t.len() - 1] == t.last());
        }
        assert(out + t.drop_last() + seq![t.last()] =~= out + t);
    }
}

/// Characters before a CSI sequence's final byte (`'@'..='~'`) are dropped.
pub proof fn lemma_strip_csi_body(out: Seq<char>, t: Seq<char>)
    requires
        forall|i: int| 0 <= i < t.len() ==> !('@' <= #[trigger] t[i] && t[i] <= '~'),
    ensures
        strip_from(out, StripState::Csi, t) == (out, StripState::Csi),
    decreases t.len(),
{
    if t.len() > 0 {
        lemma_strip_csi_body(out, t.drop_last());
        assert(t[t.len() - 1] == t.last());
    }
}

/// Characters of an OSC or APC payload that holds no ESC or BEL are dropped, the state
/// remembering the last of them.
pub proof fn lemma_strip_osc_body(out: Seq<char>, bel: bool, prev: char, t: Seq<char>)
    requires
        prev != '\u{1b}',
        !t.contains('\u{1b}'),
        !t.contains('\u{7}'),
    ensures
        strip_from(out, StripState::Osc { bel, prev }, t) == (
            out,
            StripState::Osc {
                bel,
                prev: if t.len() > 0 {
                    t.last()
                } else {
                    prev
                },
            },
        ),
    decreases t.len(),
{
    if t.len() > 0 {
        assert(!t.drop_last().contains('\u{1b}') && !t.drop_last().contains('\u{7}')) by {
            if t.drop_last().contains('\u{1b}') {
                let k = choose|k: int| 0 <= k < t.drop_last().len() && t.drop_last()[k] == '\u{1b}';
                assert(t[k] == '\u{1b}');
            }
            if t.drop_last().contains('\u{7}') {
                let k = choose|k: int| 0 <= k < t.drop_last().len() && t.drop_last()[k] == '\u{7}';
                assert(t[k] == '\u{7}');
            }
        }
        lemma_strip_osc_body(out, bel, prev, t.drop_last());
        assert(t[t.len() - 1] == t.last());
        if t.len() > 1 {
            assert(t.drop_last().last() == t[t.len() - 2]);
        }
    }
}

/// Text without ESC has nothing to strip.
pub proof fn lemma_plain_is_stripped(t: Seq<char>)
    requires
        !t.contains('\u{1b}'),
    ensures
        stripped(t) == t,
{
    lemma_strip_fold_from(t);
    lemma_strip_plain(seq![], t);
    assert(Seq::<char>::empty() + t =~= t);
}

/// The visible text of `input`: escape sequences removed.
pub fn strip_ansi(input: &str) -> (r: String)
    ensures
        r@ == stripped(input@),
{
    let cs = chars_of(input);
    let mut out = String::new();
    let mut st = StripState::Text;
    for i in 0..cs.len()
        invariant
            cs@ == input@,
            (out@, st) == strip_fold(cs@.take(i as int)),
    {
        assert(cs@.take(i + 1).drop_last() == cs@.take(i as int));
        let c = cs[i];
        st = match st {
            StripState::Text => if c == '\u{1b}' {
                StripState::Escape
            } else {
                push_char(&mut out, c);
                StripState::Text
            },
            StripState::Escape => if c == '[' {
                StripState::Csi
            } else if c == ']' {
                StripState::Osc { bel: true, prev: '\0' }
            } else if c == '_' {
                StripState::Osc { bel: false, prev: '\0' }
            } else if c == '\u{1b}' {
                push_char(&mut out, '\u{1b}');
                StripState::Escape
            } else {
                push_char(&mut out, '\u{1b}');
                push_char(&mut out, c);
                StripState::Text
            },
            StripState::Csi => if '@' <= c && c <= '~' {
                StripState::Text
            } else {
                StripState::Csi
            },
            StripState::Osc { bel, prev } => if (bel && c == '\u{7}') || (prev == '\u{1b}' && c
                == '\\') {
                StripState::Text
            } else {
                StripState::Osc { bel, prev: c }
            },
        };
    }
    assert(cs@.take(cs@.len() as int) == cs@);
    if st == StripState::Escape {
        push_char(&mut out, '\u{1b}');
    }
    out
}

/// Display width of `input` once its escape sequences are removed.
pub fn visible_width(input: &str) -> (r: usize)
    ensures
        r == str_display_width(stripped(input@)),
        (forall|i: int| 0 <= i < input@.len() ==> is_printable_ascii(#[trigger] input@[i])) ==> r
            == input@.len(),
{
    let s = strip_ansi(input);
    proof {
        if forall|i: int| 0 <= i < input@.len() ==> is_printable_ascii(#[trigger] input@[i]) {
            assert(!input@.contains('\u{1b}')) by {
                if input@.contains('\u{1b}') {
                    let k = choose|k: int| 0 <= k < input@.len() && input@[k] == '\u{1b}';
                    assert(is_printable_ascii(input@[k]));
                }
            }
            lemma_plain_is_stripped(input@);
        }
    }
    display_width(s.as_str())
}

} // verus!
