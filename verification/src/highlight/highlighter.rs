use vstd::prelude::*;

use syntect::easy::HighlightLines;
use syntect::highlighting::{Theme as SyntaxTheme, ThemeSet};
use syntect::parsing::{SyntaxReference, SyntaxSet};
use syntect::util::as_24_bit_terminal_escaped;

use crate::render::ansi::{lemma_strip_reset, sgr_reset};
use crate::render::blocks::opt_str;
use crate::util::text::{chars_of, lines_with_endings, lwe_fold, lines_with_endings_of, push_char, push_str, string_of, to_owned, str_equals};
use crate::util::width::{
    lemma_strip_fold_from, lemma_strip_from_append, lemma_strip_plain, strip_fold, strip_from,
    stripped, StripState,
};

verus! {

#[verifier::external_type_specification]
#[verifier::external_body]
pub struct ExSyntaxSet(SyntaxSet);

#[verifier::external_type_specification]
#[verifier::external_body]
pub struct ExThemeSet(ThemeSet);

#[verifier::external_type_specification]
#[verifier::external_body]
pub struct ExSyntaxTheme(SyntaxTheme);

#[verifier::external_type_specification]
#[verifier::external_body]
pub struct ExSyntaxReference(SyntaxReference);

#[verifier::external_type_specification]
#[verifier::external_body]
pub struct ExHighlightLines<'a>(HighlightLines<'a>);

/// The names (keys) of the themes in a theme set.
pub uninterp spec fn theme_names(ts: ThemeSet) -> Set<Seq<char>>;

/// The names of the syntaxes in a syntax set.
pub uninterp spec fn syntax_names(ss: SyntaxSet) -> Set<Seq<char>>;

/// The themes `syntect` ships, as its documentation of `ThemeSet::load_defaults` lists them.
pub open spec fn default_theme_names() -> Set<Seq<char>> {
    set![
        "base16-ocean.dark"@,
        "base16-eighties.dark"@,
        "base16-mocha.dark"@,
        "base16-ocean.light"@,
        "InspiredGitHub"@,
        "Solarized (dark)"@,
        "Solarized (light)"@,
    ]
}

/// Whether a theme set is the one `ThemeSet::load_defaults` gives.
pub uninterp spec fn default_themes(ts: ThemeSet) -> bool;

/// Whether a syntax set is the one `SyntaxSet::load_defaults_newlines` gives.
pub uninterp spec fn default_syntaxes(ss: SyntaxSet) -> bool;

/// `ThemeSet::load_defaults`: the default themes, whose keys its documentation lists.
#[verifier::external_body]
fn load_default_themes() -> (r: ThemeSet)
    ensures
        theme_names(r) == default_theme_names(),
        default_themes(r),
{
    ThemeSet::load_defaults()
}

/// `SyntaxSet::load_defaults_newlines`: the default syntaxes, which include the plain text
/// syntax (named `Plain Text`) that `find_syntax_plain_text` looks for.
#[verifier::external_body]
fn load_default_syntaxes() -> (r: SyntaxSet)
    ensures
        syntax_names(r).contains("Plain Text"@),
        default_syntaxes(r),
{
    SyntaxSet::load_defaults_newlines()
}

/// `ts.themes.contains_key(name)`.
#[verifier::external_body]
fn theme_set_contains(ts: &ThemeSet, name: &str) -> (r: bool)
    ensures
        r == theme_names(*ts).contains(name@),
{
    ts.themes.contains_key(name)
}

/// `a` comes before `b`, or equals it, in the order of their characters' code points (the
/// order of their UTF-8 bytes, in which `String`s compare).
pub open spec fn lex_le(a: Seq<char>, b: Seq<char>) -> bool
    decreases a.len(),
{
    if a.len() == 0 {
        true
    } else if b.len() == 0 {
        false
    } else if a[0] != b[0] {
        (a[0] as u32) < (b[0] as u32)
    } else {
        lex_le(a.drop_first(), b.drop_first())
    }
}

/// `k` is the first of `names` in that order.
pub open spec fn is_least(k: Seq<char>, names: Set<Seq<char>>) -> bool {
    &&& names.contains(k)
    &&& forall|n: Seq<char>| #[trigger] names.contains(n) ==> lex_le(k, n)
}

/// `ts.themes.keys().next()`: the least key of the map of themes (a `BTreeMap` of
/// `String`s, walked in order), or nothing when it is empty.
#[verifier::external_body]
fn first_theme_name(ts: &ThemeSet) -> (r: Option<String>)
    ensures
        r is None ==> theme_names(*ts) == Set::<Seq<char>>::empty(),
        r matches Some(k) ==> is_least(k@, theme_names(*ts)),
{
    ts.themes.keys().next().cloned()
}

/// The name of the syntax that `find_syntax_by_token` finds for a code fence's language
/// token among the default syntaxes.
pub uninterp spec fn syntax_for_token(token: Seq<char>) -> Option<Seq<char>>;

/// `SyntaxSet::find_syntax_by_token` on the default syntaxes, the syntax found given by its
/// `name`, which is one of the set's names.
#[verifier::external_body]
fn syntax_name_by_token(ss: &SyntaxSet, token: &str) -> (r: Option<String>)
    requires
        default_syntaxes(*ss),
    ensures
        match r {
            Some(n) => syntax_for_token(token@) == Some(n@) && syntax_names(*ss).contains(n@),
            None => syntax_for_token(token@) is None,
        },
{
    ss.find_syntax_by_token(token).map(|s| s.name.clone())
}

/// The lines a line highlighter has been fed so far.
pub uninterp spec fn fed_lines(h: HighlightLines) -> Seq<Seq<char>>;

/// The theme key and the syntax name a line highlighter was made with.
pub uninterp spec fn made_with(h: HighlightLines) -> (Seq<char>, Seq<char>);

/// Whether a line highlighter was made from the default syntaxes and themes.
pub uninterp spec fn from_defaults(h: HighlightLines) -> bool;

/// `HighlightLines::new` for the default syntax named `syntax` (as `find_syntax_by_name`
/// finds it) and the default theme with key `theme`: a highlighter made from the defaults
/// with that theme and syntax, fed no line yet. Both lookups succeed, as `requires` has the
/// names in the sets.
#[verifier::external_body]
fn new_highlight_lines<'a>(ss: &SyntaxSet, syntax: &str, ts: &'a ThemeSet, theme: &str) -> (r:
    HighlightLines<'a>)
    requires
        default_syntaxes(*ss),
        default_themes(*ts),
        syntax_names(*ss).contains(syntax@),
        theme_names(*ts).contains(theme@),
    ensures
        fed_lines(r) == Seq::<Seq<char>>::empty(),
        made_with(r) == (theme@, syntax@),
        from_defaults(r),
{
    HighlightLines::new(ss.find_syntax_by_name(syntax).unwrap(), &ts.themes[theme])
}

/// What `HighlightLines::highlight_line` gives for `line` after `before`, written by
/// `as_24_bit_terminal_escaped` without background, for a highlighter made with the
/// default theme `theme` and the default syntax `syntax`; `None` where it fails.
pub uninterp spec fn highlighted_line(
    theme: Seq<char>,
    syntax: Seq<char>,
    before: Seq<Seq<char>>,
    line: Seq<char>,
) -> Option<Seq<char>>;

/// `HighlightLines::highlight_line` on the next line, its tokens written by
/// `as_24_bit_terminal_escaped` without background; `None` where highlighting fails. The
/// result is named (`highlighted_line`) by the theme and syntax the highlighter was made
/// with and the lines fed before; the highlighter has then been fed the line. Stated
/// besides is what the crate documents and its source shows: the tokens concatenate to the
/// line, and each is preceded by one `ESC [ 38 ; 2 ; r ; g ; b m` sequence, so reading the
/// result the way `strip_ansi` does gives back the line and ends outside any escape
/// sequence (where the line itself holds no ESC). Which colours the theme gives, and when
/// highlighting fails, is left to the name.
#[verifier::external_body]
fn highlight_line_escaped(h: &mut HighlightLines<'_>, line: &str, ss: &SyntaxSet) -> (r: Option<
    String,
>)
    requires
        default_syntaxes(*ss),
        from_defaults(*old(h)),
    ensures
        match r {
            Some(s) => highlighted_line(
                made_with(*old(h)).0,
                made_with(*old(h)).1,
                fed_lines(*old(h)),
                line@,
            ) == Some(s@),
            None => highlighted_line(
                made_with(*old(h)).0,
                made_with(*old(h)).1,
                fed_lines(*old(h)),
                line@,
            ) is None,
        },
        fed_lines(*final(h)) == fed_lines(*old(h)).push(line@),
        made_with(*final(h)) == made_with(*old(h)),
        from_defaults(*final(h)),
        r matches Some(s) ==> (!line@.contains('\u{1b}') ==> strip_fold(s@) == (
            line@,
            StripState::Text,
        )),
{
    match h.highlight_line(line, ss) {
        Ok(ranges) => Some(as_24_bit_terminal_escaped(&ranges, false)),
        Err(_) => None,
    }
}

/// The `syntect` themes tried, in order, for one of this library's theme names.
pub open spec fn theme_candidates(theme: Seq<char>) -> Seq<Seq<char>> {
    if theme == "ansi"@ {
        seq!["base16-eighties.dark"@, "base16-ocean.dark"@, "InspiredGitHub"@]
    } else if theme == "dark"@ {
        seq!["base16-ocean.dark"@, "base16-eighties.dark"@, "InspiredGitHub"@]
    } else if theme == "light"@ {
        seq!["InspiredGitHub"@, "base16-ocean.light"@, "Solarized (light)"@]
    } else if theme == "nord"@ {
        seq!["Nord"@, "base16-ocean.dark"@, "Solarized (dark)"@]
    } else if theme == "gruvbox"@ {
        seq!["Gruvbox dark"@, "base16-mocha.dark"@, "base16-eighties.dark"@]
    } else {
        seq!["base16-ocean.dark"@, "InspiredGitHub"@]
    }
}

/// The first of `cands` that `names` holds.
pub open spec fn first_available(cands: Seq<Seq<char>>, names: Set<Seq<char>>) -> Option<Seq<char>>
    decreases cands.len(),
{
    if cands.len() == 0 {
        None
    } else if names.contains(cands[0]) {
        Some(cands[0])
    } else {
        first_available(cands.drop_first(), names)
    }
}

/// The theme `choose_theme_name` picks from a set with keys `names`: the first available
/// candidate; failing that, the least key of the set, or `base16-ocean.dark` when the set
/// is empty.
pub open spec fn chosen_theme_name(theme: Seq<char>, names: Set<Seq<char>>) -> Seq<char> {
    match first_available(theme_candidates(theme), names) {
        Some(n) => n,
        None => if names == Set::<Seq<char>>::empty() {
            "base16-ocean.dark"@
        } else {
            choose|k: Seq<char>| is_least(k, names)
        },
    }
}

proof fn lemma_lex_antisymmetric(a: Seq<char>, b: Seq<char>)
    requires
        lex_le(a, b),
        lex_le(b, a),
    ensures
        a == b,
    decreases a.len(),
{
    if a.len() > 0 && b.len() > 0 && a[0] == b[0] {
        lemma_lex_antisymmetric(a.drop_first(), b.drop_first());
        assert(a =~= seq![a[0]] + a.drop_first());
        assert(b =~= seq![b[0]] + b.drop_first());
    } else if a.len() == 0 && b.len() == 0 {
        assert(a =~= b);
    }
}

proof fn lemma_least_unique(k: Seq<char>, names: Set<Seq<char>>)
    requires
        is_least(k, names),
    ensures
        (choose|j: Seq<char>| is_least(j, names)) == k,
{
    let j = choose|j: Seq<char>| is_least(j, names);
    assert(is_least(j, names));
    assert(lex_le(k, j));
    assert(lex_le(j, k));
    lemma_lex_antisymmetric(k, j);
}

proof fn lemma_first_available_in(cands: Seq<Seq<char>>, names: Set<Seq<char>>)
    ensures
        first_available(cands, names) matches Some(n) ==> names.contains(n),
    decreases cands.len(),
{
    if cands.len() > 0 && !names.contains(cands[0]) {
        lemma_first_available_in(cands.drop_first(), names);
    }
}

proof fn lemma_candidate_available(cands: Seq<Seq<char>>, names: Set<Seq<char>>, i: int)
    requires
        0 <= i < cands.len(),
        names.contains(cands[i]),
    ensures
        first_available(cands, names) is Some,
    decreases cands.len(),
{
    if !names.contains(cands[0]) {
        assert(cands.drop_first()[i - 1] == cands[i]);
        lemma_candidate_available(cands.drop_first(), names, i - 1);
    }
}

/// Among the default themes, some candidate is always available.
proof fn lemma_default_candidate(theme: Seq<char>)
    ensures
        first_available(theme_candidates(theme), default_theme_names()) is Some,
{
    let c = theme_candidates(theme);
    let names = default_theme_names();
    if theme == "nord"@ || theme == "gruvbox"@ {
        lemma_candidate_available(c, names, 1);
    } else {
        lemma_candidate_available(c, names, 0);
    }
}

fn candidates(theme: &str) -> (r: Vec<&'static str>)
    ensures
        r@.map_values(|c: &str| c@) == theme_candidates(theme@),
{
    let v = if str_equals(theme, "ansi") {
        vec!["base16-eighties.dark", "base16-ocean.dark", "InspiredGitHub"]
    } else if str_equals(theme, "dark") {
        vec!["base16-ocean.dark", "base16-eighties.dark", "InspiredGitHub"]
    } else if str_equals(theme, "light") {
        vec!["InspiredGitHub", "base16-ocean.light", "Solarized (light)"]
    } else if str_equals(theme, "nord") {
        vec!["Nord", "base16-ocean.dark", "Solarized (dark)"]
    } else if str_equals(theme, "gruvbox") {
        vec!["Gruvbox dark", "base16-mocha.dark", "base16-eighties.dark"]
    } else {
        vec!["base16-ocean.dark", "InspiredGitHub"]
    };
    assert(v@.map_values(|c: &str| c@) =~= theme_candidates(theme@));
    v
}

/// The `syntect` theme to use for one of this library's theme names.
fn choose_theme_name(theme: &str, ts: &ThemeSet) -> (r: String)
    ensures
        r@ == chosen_theme_name(theme@, theme_names(*ts)),
{
    let cands = candidates(theme);
    let ghost cv = cands@.map_values(|c: &str| c@);
    assert(cv.skip(0) =~= cv);
    for i in 0..cands.len()
        invariant
            cv == cands@.map_values(|c: &str| c@),
            cv == theme_candidates(theme@),
            first_available(cv.skip(i as int), theme_names(*ts)) == first_available(
                cv,
                theme_names(*ts),
            ),
    {
        assert(cv.skip(i as int).drop_first() == cv.skip(i + 1));
        if theme_set_contains(ts, cands[i]) {
            return to_owned(cands[i]);
        }
    }
    assert(cv.skip(cv.len() as int) =~= Seq::<Seq<char>>::empty());
    match first_theme_name(ts) {
        Some(name) => {
            proof {
                lemma_least_unique(name@, theme_names(*ts));
            }
            name
        },
        None => to_owned("base16-ocean.dark"),
    }
}

/// The `syntect` theme chosen for `theme` among the default themes.
pub fn resolved_theme_name(theme: &str) -> (r: String)
    ensures
        r@ == chosen_theme_name(theme@, default_theme_names()),
{
    let ts = load_default_themes();
    choose_theme_name(theme, &ts)
}

/// Highlighted lines put together: each highlighted line followed by a reset, each line
/// that could not be highlighted as it was.
pub open spec fn assembled(lines: Seq<Seq<char>>, outs: Seq<Option<Seq<char>>>) -> Seq<char>
    decreases lines.len(),
{
    if lines.len() == 0 {
        seq![]
    } else {
        assembled(lines.drop_last(), outs) + match outs[lines.len() - 1] {
            Some(e) => e + sgr_reset(),
            None => lines.last(),
        }
    }
}

/// What highlighting `code` may give: line by line, either the line highlighted and a
/// reset, or the line unchanged. A highlighted line that holds no ESC reads, the way
/// `strip_ansi` reads it, as the line itself, ending outside any escape sequence.
pub open spec fn highlight_outcome(r: Seq<char>, code: Seq<char>) -> bool {
    let lines = lines_with_endings(code);
    exists|outs: Seq<Option<Seq<char>>>|
        #![trigger assembled(lines, outs)]
        outs.len() == lines.len() && r == assembled(lines, outs) && (forall|k: int|
            0 <= k < lines.len() ==> (#[trigger] outs[k] matches Some(e) ==> (!lines[k].contains(
                '\u{1b}',
            ) ==> strip_fold(e) == (lines[k], StripState::Text))))
}

proof fn lemma_lwe_concat(s: Seq<char>)
    ensures
        lwe_fold(s).0.flatten_alt() + lwe_fold(s).1 == s,
        lines_with_endings(s).flatten_alt() == s,
    decreases s.len(),
{
    if s.len() > 0 {
        lemma_lwe_concat(s.drop_last());
        let (done, cur) = lwe_fold(s.drop_last());
        assert(done.flatten_alt() + cur == s.drop_last());
        assert(s =~= s.drop_last().push(s.last()));
        if s.last() == '\n' {
            let d = done.push(cur.push('\n'));
            assert(d.drop_last() =~= done);
            assert(d.last() == cur.push('\n'));
            assert(d.flatten_alt() == done.flatten_alt() + cur.push('\n'));
            assert(d.flatten_alt() + Seq::<char>::empty() =~= s);
        } else {
            assert(done.flatten_alt() + cur.push(s.last()) =~= s);
        }
    }
    let (done, cur) = lwe_fold(s);
    if cur.len() > 0 {
        assert(done.push(cur).drop_last() =~= done);
    } else {
        assert(done.flatten_alt() + cur =~= done.flatten_alt());
    }
}

proof fn lemma_parts_without_esc(ls: Seq<Seq<char>>)
    requires
        !ls.flatten_alt().contains('\u{1b}'),
    ensures
        forall|k: int| 0 <= k < ls.len() ==> !(#[trigger] ls[k]).contains('\u{1b}'),
    decreases ls.len(),
{
    if ls.len() > 0 {
        let a = ls.drop_last().flatten_alt();
        let b = ls.last();
        assert(!a.contains('\u{1b}')) by {
            if a.contains('\u{1b}') {
                let k = choose|k: int| 0 <= k < a.len() && a[k] == '\u{1b}';
                assert((a + b)[k] == '\u{1b}');
            }
        }
        assert(!b.contains('\u{1b}')) by {
            if b.contains('\u{1b}') {
                let k = choose|k: int| 0 <= k < b.len() && b[k] == '\u{1b}';
                assert((a + b)[a.len() + k] == '\u{1b}');
            }
        }
        lemma_parts_without_esc(ls.drop_last());
        assert forall|k: int| 0 <= k < ls.len() implies !(#[trigger] ls[k]).contains('\u{1b}') by {
            if k < ls.len() - 1 {
                assert(ls[k] == ls.drop_last()[k]);
            }
        }
    }
}

proof fn lemma_assembled_strips(lines: Seq<Seq<char>>, outs: Seq<Option<Seq<char>>>)
    requires
        outs.len() >= lines.len(),
        forall|k: int| 0 <= k < lines.len() ==> !(#[trigger] lines[k]).contains('\u{1b}'),
        forall|k: int|
            0 <= k < lines.len() ==> (#[trigger] outs[k] matches Some(e) ==> strip_fold(e) == (
                lines[k],
                StripState::Text,
            )),
    ensures
        strip_from(seq![], StripState::Text, assembled(lines, outs)) == (
            lines.flatten_alt(),
            StripState::Text,
        ),
    decreases lines.len(),
{
    if lines.len() > 0 {
        let p = lines.drop_last();
        assert forall|k: int| 0 <= k < p.len() implies !(#[trigger] p[k]).contains('\u{1b}') by {
            assert(p[k] == lines[k]);
        }
        assert forall|k: int| 0 <= k < p.len() implies (#[trigger] outs[k] matches Some(e)
            ==> strip_fold(e) == (p[k], StripState::Text)) by {
            assert(p[k] == lines[k]);
        }
        lemma_assembled_strips(p, outs);
        let o = p.flatten_alt();
        let last = lines.last();
        let n = lines.len() - 1;
        assert(!lines[n].contains('\u{1b}'));
        let piece = match outs[n] {
            Some(e) => e + sgr_reset(),
            None => last,
        };
        lemma_strip_from_append(seq![], StripState::Text, assembled(p, outs), piece);
        match outs[n] {
            Some(e) => {
                assert(strip_fold(e) == (last, StripState::Text));
                lemma_strip_fold_from(e);
                lemma_strip_out_prefix(o, StripState::Text, e);
                assert(Seq::<char>::empty() + last =~= last);
                lemma_strip_from_append(o, StripState::Text, e, sgr_reset());
                lemma_strip_reset(o + last);
            },
            None => {
                lemma_strip_plain(o, last);
            },
        }
    }
}

/// Reading `s` from output `o` gives `o` followed by what reading it from nothing gives.
proof fn lemma_strip_out_prefix(o: Seq<char>, st: StripState, s: Seq<char>)
    ensures
        strip_from(o, st, s) == (
            o + strip_from(seq![], st, s).0,
            strip_from(seq![], st, s).1,
        ),
    decreases s.len(),
{
    if s.len() == 0 {
        assert(o + Seq::<char>::empty() =~= o);
    } else {
        lemma_strip_out_prefix(o, st, s.drop_last());
        let (a, t) = strip_from(seq![], st, s.drop_last());
        let c = s.last();
        assert((o + a).push(c) =~= o + a.push(c));
        assert((o + a).push('\u{1b}') =~= o + a.push('\u{1b}'));
        assert((o + a).push('\u{1b}').push(c) =~= o + a.push('\u{1b}').push(c));
    }
}

/// Highlighting only adds colour: once its escape sequences are stripped, any highlighting
/// of code that holds no ESC is the code itself, so the reader sees the same text.
pub proof fn lemma_highlight_keeps_code(r: Seq<char>, code: Seq<char>)
    requires
        highlight_outcome(r, code),
        !code.contains('\u{1b}'),
    ensures
        stripped(r) == code,
{
    let lines = lines_with_endings(code);
    let outs = choose|outs: Seq<Option<Seq<char>>>|
        #![trigger assembled(lines, outs)]
        outs.len() == lines.len() && r == assembled(lines, outs) && (forall|k: int|
            0 <= k < lines.len() ==> (#[trigger] outs[k] matches Some(e) ==> (!lines[k].contains(
                '\u{1b}',
            ) ==> strip_fold(e) == (lines[k], StripState::Text))));
    lemma_lwe_concat(code);
    lemma_parts_without_esc(lines);
    lemma_assembled_strips(lines, outs);
    lemma_strip_fold_from(r);
}

/// Syntax highlighting of code blocks with `syntect`.
pub struct Highlighter {
    syntax_set: SyntaxSet,
    theme_set: ThemeSet,
    theme_name: String,
}

proof fn lemma_assembled_ext(
    lines: Seq<Seq<char>>,
    o1: Seq<Option<Seq<char>>>,
    o2: Seq<Option<Seq<char>>>,
)
    requires
        lines.len() <= o1.len(),
        lines.len() <= o2.len(),
        forall|k: int| 0 <= k < lines.len() ==> o1[k] == o2[k],
    ensures
        assembled(lines, o1) == assembled(lines, o2),
    decreases lines.len(),
{
    if lines.len() > 0 {
        lemma_assembled_ext(lines.drop_last(), o1, o2);
    }
}

/// The syntax a code block is highlighted in: the one its language token names, else plain
/// text.
pub open spec fn syntax_choice(lang: Option<Seq<char>>) -> Seq<char> {
    match lang {
        Some(l) => match syntax_for_token(l) {
            Some(n) => n,
            None => "Plain Text"@,
        },
        None => "Plain Text"@,
    }
}

/// What highlighting each of `lines` gives, each after the lines before it.
pub open spec fn line_results(theme: Seq<char>, syntax: Seq<char>, lines: Seq<Seq<char>>) -> Seq<
    Option<Seq<char>>,
> {
    Seq::new(lines.len(), |k: int| highlighted_line(theme, syntax, lines.take(k), lines[k]))
}

/// `code` highlighted with the default theme `theme` in the syntax `lang` names: line by
/// line, each highlighted line followed by a reset, a line that fails kept as it is.
pub open spec fn highlighted_code(theme: Seq<char>, lang: Option<Seq<char>>, code: Seq<char>) -> Seq<
    char,
> {
    let lines = lines_with_endings(code);
    assembled(lines, line_results(theme, syntax_choice(lang), lines))
}

/// A fence's language picks the syntax: where its token names a syntax, the code is
/// highlighted in that syntax, line by line; only where it names none (or there is no
/// language) is it highlighted as plain text.
pub proof fn lemma_fence_language_picks_syntax(theme: Seq<char>, l: Seq<char>, code: Seq<char>)
    ensures
        syntax_for_token(l) matches Some(n) ==> syntax_choice(Some(l)) == n
            && highlighted_code(theme, Some(l), code) == assembled(
            lines_with_endings(code),
            line_results(theme, n, lines_with_endings(code)),
        ),
        syntax_for_token(l) is None ==> syntax_choice(Some(l)) == "Plain Text"@
            && highlighted_code(theme, Some(l), code) == highlighted_code(theme, None, code),
        syntax_choice(None) == "Plain Text"@,
{
}

impl Highlighter {
    #[verifier::type_invariant]
    spec fn uses_defaults(self) -> bool {
        &&& syntax_names(self.syntax_set).contains("Plain Text"@)
        &&& default_syntaxes(self.syntax_set)
        &&& default_themes(self.theme_set)
    }

    /// The `syntect` theme chosen for this highlighter.
    pub closed spec fn theme(self) -> Seq<char> {
        self.theme_name@
    }

    /// The default theme code is highlighted in: the chosen one when the set has it, else
    /// `base16-ocean.dark`; none when the set has neither.
    pub closed spec fn highlights_with(self) -> Option<Seq<char>> {
        if theme_names(self.theme_set).contains(self.theme_name@) {
            Some(self.theme_name@)
        } else if theme_names(self.theme_set).contains("base16-ocean.dark"@) {
            Some("base16-ocean.dark"@)
        } else {
            None
        }
    }

    /// A highlighter with the default syntaxes and themes and the theme chosen for
    /// `theme_name`, which it highlights with.
    pub fn new(theme_name: &str) -> (r: Self)
        ensures
            r.theme() == chosen_theme_name(theme_name@, default_theme_names()),
            r.highlights_with() == Some(chosen_theme_name(theme_name@, default_theme_names())),
    {
        let theme_set = load_default_themes();
        let chosen = choose_theme_name(theme_name, &theme_set);
        proof {
            lemma_default_candidate(theme_name@);
            lemma_first_available_in(theme_candidates(theme_name@), theme_names(theme_set));
        }
        Highlighter { syntax_set: load_default_syntaxes(), theme_set, theme_name: chosen }
    }

    /// `code` highlighted for the language `lang` (plain text when `lang` names none) in
    /// the theme this highlighter uses; `code` itself when it has no theme.
    pub fn highlight_code(&self, code: &str, lang: Option<&str>) -> (r: String)
        ensures
            match self.highlights_with() {
                Some(t) => r@ == highlighted_code(t, opt_str(lang), code@),
                None => r@ == code@,
            },
            self.highlights_with() is Some ==> highlight_outcome(r@, code@),
    {
        proof {
            use_type_invariant(self);
        }
        let theme: &str = if theme_set_contains(&self.theme_set, self.theme_name.as_str()) {
            self.theme_name.as_str()
        } else if theme_set_contains(&self.theme_set, "base16-ocean.dark") {
            "base16-ocean.dark"
        } else {
            return to_owned(code);
        };
        let ghost tv = self.highlights_with()->0;
        assert(theme@ == tv);
        let plain = "Plain Text";
        proof {
            reveal_strlit("Plain Text");
        }
        let syntax: String = match lang {
            Some(l) => match syntax_name_by_token(&self.syntax_set, l) {
                Some(n) => n,
                None => to_owned(plain),
            },
            None => to_owned(plain),
        };
        let ghost sv = syntax_choice(opt_str(lang));
        assert(syntax@ == sv);
        let mut h = new_highlight_lines(&self.syntax_set, syntax.as_str(), &self.theme_set, theme);
        let cs = chars_of(code);
        let lines = lines_with_endings_of(&cs);
        let ghost lv = lines@.map_values(|l: Vec<char>| l@);
        let ghost want = line_results(tv, sv, lv);
        let mut out = String::new();
        let ghost mut outs: Seq<Option<Seq<char>>> = seq![];
        for k in 0..lines.len()
            invariant
                lv == lines@.map_values(|l: Vec<char>| l@),
                want == line_results(tv, sv, lv),
                default_syntaxes(self.syntax_set),
                made_with(h) == (tv, sv),
                from_defaults(h),
                fed_lines(h) == lv.take(k as int),
                outs.len() == k,
                forall|j: int| 0 <= j < k ==> #[trigger] outs[j] == want[j],
                out@ == assembled(lv.take(k as int), outs),
                forall|j: int|
                    0 <= j < k ==> (#[trigger] outs[j] matches Some(e) ==> (!lv[j].contains(
                        '\u{1b}',
                    ) ==> strip_fold(e) == (lv[j], StripState::Text))),
        {
            let line = string_of(lines[k].as_slice());
            assert(line@ == lv[k as int]);
            let ghost prev = outs;
            assert(lv.take(k + 1) =~= lv.take(k as int).push(lv[k as int]));
            match highlight_line_escaped(&mut h, line.as_str(), &self.syntax_set) {
                Some(e) => {
                    push_str(&mut out, e.as_str());
                    push_char(&mut out, '\u{1b}');
                    push_char(&mut out, '[');
                    push_char(&mut out, '0');
                    push_char(&mut out, 'm');
                    proof {
                        outs = outs.push(Some(e@));
                    }
                },
                None => {
                    push_str(&mut out, line.as_str());
                    proof {
                        outs = outs.push(None);
                    }
                },
            }
            proof {
                assert(lv.take(k + 1).drop_last() == lv.take(k as int));
                lemma_assembled_ext(lv.take(k as int), prev, outs);
            }
            assert(out@ =~= assembled(lv.take(k + 1), outs));
        }
        assert(lv.take(lv.len() as int) == lv);
        assert(lv == lines_with_endings(code@));
        assert(highlight_outcome(out@, code@));
        proof {
            lemma_assembled_ext(lv, outs, want);
        }
        out
    }
}

} // verus!
