use vstd::prelude::*;

verus! {

/// A colour of a syntax theme, opaque (alpha 255) when made by `rgb`.
#[derive(Debug, Clone, Copy, PartialEq, Eq, Structural)]
pub struct ThemeColor {
    pub r: u8,
    pub g: u8,
    pub b: u8,
    pub a: u8,
}

/// A font attribute a syntax scope may set.
#[derive(Debug, Clone, Copy, PartialEq, Eq, Structural)]
pub enum FontStyle {
    Bold,
    Underline,
    Italic,
}

/// How the text a scope selector matches is drawn.
#[derive(Debug, Clone, Copy)]
pub struct ScopeStyle {
    /// The scope selector, as `syntect` would parse it.
    pub scope: &'static str,
    pub foreground: Option<ThemeColor>,
    pub background: Option<ThemeColor>,
    pub font_style: Option<FontStyle>,
}

/// The editor colours of a syntax theme; the others are left unset.
#[derive(Debug, Clone, Copy, PartialEq, Eq, Structural)]
pub struct ThemeSettings {
    pub foreground: Option<ThemeColor>,
    pub background: Option<ThemeColor>,
    pub caret: Option<ThemeColor>,
    pub line_highlight: Option<ThemeColor>,
    pub selection: Option<ThemeColor>,
    pub selection_foreground: Option<ThemeColor>,
    pub gutter_foreground: Option<ThemeColor>,
}

/// A syntax-highlighting theme: its name, author, editor colours and scope styles.
pub struct SyntaxThemeData {
    pub name: &'static str,
    pub author: &'static str,
    pub settings: ThemeSettings,
    pub scopes: Vec<ScopeStyle>,
}

/// The opaque colour `r`, `g`, `b`.
pub open spec fn rgb_spec(r: u8, g: u8, b: u8) -> ThemeColor {
    ThemeColor { r, g, b, a: 0xFF }
}

/// The opaque colour `r`, `g`, `b`.
pub fn rgb(r: u8, g: u8, b: u8) -> (c: ThemeColor)
    ensures
        c == rgb_spec(r, g, b),
{
    ThemeColor { r, g, b, a: 0xFF }
}

/// A scope style as its selector text and its colours and font attribute.
pub type ScopeStyleV = (Seq<char>, Option<ThemeColor>, Option<ThemeColor>, Option<FontStyle>);

/// The model of a scope style.
pub open spec fn scope_view(s: ScopeStyle) -> ScopeStyleV {
    (s.scope@, s.foreground, s.background, s.font_style)
}

/// The style for the text that `scope` selects.
pub fn scope_style(
    scope: &'static str,
    foreground: Option<ThemeColor>,
    background: Option<ThemeColor>,
    font_style: Option<FontStyle>,
) -> (r: ScopeStyle)
    ensures
        scope_view(r) == (scope@, foreground, background, font_style),
{
    ScopeStyle { scope, foreground, background, font_style }
}

/// The editor colours of the Nord theme.
pub open spec fn nord_settings() -> ThemeSettings {
    ThemeSettings {
        foreground: Some(rgb_spec(216, 222, 233)),
        background: Some(rgb_spec(46, 52, 64)),
        caret: Some(rgb_spec(229, 233, 240)),
        line_highlight: Some(rgb_spec(59, 66, 82)),
        selection: Some(rgb_spec(76, 86, 106)),
        selection_foreground: Some(rgb_spec(236, 239, 244)),
        gutter_foreground: Some(rgb_spec(136, 192, 208)),
    }
}

/// The scope styles of the Nord theme, in order.
pub open spec fn nord_scopes() -> Seq<ScopeStyleV> {
    seq![
        ("comment"@, Some(rgb_spec(129, 161, 193)), None, Some(FontStyle::Italic)),
        ("string"@, Some(rgb_spec(163, 190, 140)), None, None),
        ("constant, constant.numeric"@, Some(rgb_spec(180, 142, 173)), None, None),
        ("keyword"@, Some(rgb_spec(129, 161, 193)), None, None),
        ("keyword.control, storage.type"@, Some(rgb_spec(129, 161, 193)), None, Some(FontStyle::Bold)),
        ("entity.name.function"@, Some(rgb_spec(136, 192, 208)), None, None),
        ("variable.function, variable.function.shell"@, Some(rgb_spec(136, 192, 208)), None, Some(FontStyle::Bold)),
        ("entity.name.command.shell, meta.statement.command.name.basic.shell, meta.statement.command.name.quoted.shell"@, Some(rgb_spec(143, 188, 187)), None, Some(FontStyle::Bold)),
        ("meta.function-call.shell, meta.function-call.bash, entity.name.function.shell, entity.name.function.bash, support.function.builtin.shell, support.function.builtin.bash, support.function.builtin.zsh"@, Some(rgb_spec(136, 192, 208)), None, None),
        ("support.function, support.function.builtin"@, Some(rgb_spec(143, 188, 187)), None, None),
        ("variable"@, Some(rgb_spec(216, 222, 233)), None, None),
        ("variable.language"@, Some(rgb_spec(208, 135, 112)), None, None),
        ("punctuation, operator"@, Some(rgb_spec(229, 233, 240)), None, None),
        ("entity.name.type, support.type"@, Some(rgb_spec(143, 188, 187)), None, None),
        ("invalid"@, Some(rgb_spec(191, 97, 106)), Some(rgb_spec(67, 76, 94)), None),
        ("markup.bold"@, None, None, Some(FontStyle::Bold)),
        ("markup.italic"@, None, None, Some(FontStyle::Italic)),
        ("markup.heading"@, Some(rgb_spec(136, 192, 208)), None, Some(FontStyle::Bold)),
        ("markup.link"@, Some(rgb_spec(129, 161, 193)), None, None),
        ("markup.inserted"@, Some(rgb_spec(163, 190, 140)), Some(rgb_spec(59, 66, 82)), None),
        ("markup.deleted"@, Some(rgb_spec(191, 97, 106)), Some(rgb_spec(67, 76, 94)), None),
    ]
}

/// The Nord syntax theme: named `Nord Custom` by `mdlux`, with the Nord palette's editor
/// colours and scope styles.
pub fn theme() -> (r: SyntaxThemeData)
    ensures
        r.name@ == "Nord Custom"@,
        r.author@ == "mdlux"@,
        r.settings == nord_settings(),
        r.scopes@.map_values(|s: ScopeStyle| scope_view(s)) == nord_scopes(),
{
    let settings = ThemeSettings {
        foreground: Some(rgb(216, 222, 233)),
        background: Some(rgb(46, 52, 64)),
        caret: Some(rgb(229, 233, 240)),
        line_highlight: Some(rgb(59, 66, 82)),
        selection: Some(rgb(76, 86, 106)),
        selection_foreground: Some(rgb(236, 239, 244)),
        gutter_foreground: Some(rgb(136, 192, 208)),
    };
    let scopes = vec![
        scope_style(
            "comment",
            Some(rgb(129, 161, 193)),
            None,
            Some(FontStyle::Italic),
        ),
        scope_style(
            "string",
            Some(rgb(163, 190, 140)),
            None,
            None,
        ),
        scope_style(
            "constant, constant.numeric",
            Some(rgb(180, 142, 173)),
            None,
            None,
        ),
        scope_style(
            "keyword",
            Some(rgb(129, 161, 193)),
            None,
            None,
        ),
        scope_style(
            "keyword.control, storage.type",
            Some(rgb(129, 161, 193)),
            None,
            Some(FontStyle::Bold),
        ),
        scope_style(
            "entity.name.function",
            Some(rgb(136, 192, 208)),
            None,
            None,
        ),
        scope_style(
            "variable.function, variable.function.shell",
            Some(rgb(136, 192, 208)),
            None,
            Some(FontStyle::Bold),
        ),
        scope_style(
            "entity.name.command.shell, meta.statement.command.name.basic.shell, meta.statement.command.name.quoted.shell",
            Some(rgb(143, 188, 187)),
            None,
            Some(FontStyle::Bold),
        ),
        scope_style(
            "meta.function-call.shell, meta.function-call.bash, entity.name.function.shell, entity.name.function.bash, support.function.builtin.shell, support.function.builtin.bash, support.function.builtin.zsh",
            Some(rgb(136, 192, 208)),
            None,
            None,
        ),
        scope_style(
            "support.function, support.function.builtin",
            Some(rgb(143, 188, 187)),
            None,
            None,
        ),
        scope_style(
            "variable",
            Some(rgb(216, 222, 233)),
            None,
            None,
        ),
        scope_style(
            "variable.language",
            Some(rgb(208, 135, 112)),
            None,
            None,
        ),
        scope_style(
            "punctuation, operator",
            Some(rgb(229, 233, 240)),
            None,
            None,
        ),
        scope_style(
            "entity.name.type, support.type",
            Some(rgb(143, 188, 187)),
            None,
            None,
        ),
        scope_style(
            "invalid",
            Some(rgb(191, 97, 106)),
            Some(rgb(67, 76, 94)),
            None,
        ),
        scope_style(
            "markup.bold",
            None,
            None,
            Some(FontStyle::Bold),
        ),
        scope_style(
            "markup.italic",
            None,
            None,
            Some(FontStyle::Italic),
        ),
        scope_style(
            "markup.heading",
            Some(rgb(136, 192, 208)),
            None,
            Some(FontStyle::Bold),
        ),
        scope_style(
            "markup.link",
            Some(rgb(129, 161, 193)),
            None,
            None,
        ),
        scope_style(
            "markup.inserted",
            Some(rgb(163, 190, 140)),
            Some(rgb(59, 66, 82)),
            None,
        ),
        scope_style(
            "markup.deleted",
            Some(rgb(191, 97, 106)),
            Some(rgb(67, 76, 94)),
            None,
        ),
    ];
    assert(scopes@.map_values(|s: ScopeStyle| scope_view(s)) =~= nord_scopes());
    SyntaxThemeData { name: "Nord Custom", author: "mdlux", settings, scopes }
}

} // verus!
