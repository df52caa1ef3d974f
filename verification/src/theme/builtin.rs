use vstd::prelude::*;

use super::{Color, Style, Theme};
use crate::util::text::str_equals;

verus! {

/// Name of the theme used when none is chosen.
pub fn default_theme_name() -> (r: &'static str)
    ensures
        r@ == "ansi"@,
{
    "ansi"
}

/// Names of the built-in themes, in the order they are listed.
pub open spec fn theme_names() -> Seq<Seq<char>> {
    seq!["ansi"@, "dark"@, "light"@, "nord"@, "gruvbox"@]
}

/// Names of all built-in themes.
pub fn list_theme_names() -> (r: Vec<&'static str>)
    ensures
        r@.len() == theme_names().len(),
        forall|i: int| 0 <= i < r@.len() ==> #[trigger] r@[i]@ == theme_names()[i],
{
    let v = vec!["ansi", "dark", "light", "nord", "gruvbox"];
    assert(v@.len() == 5);
    v
}

/// The built-in theme called `name`, if there is one.
pub open spec fn spec_find_theme(name: Seq<char>) -> Option<Theme> {
    if name == "ansi"@ {
        Some(ansi_spec())
    } else if name == "dark"@ {
        Some(dark_spec())
    } else if name == "light"@ {
        Some(light_spec())
    } else if name == "nord"@ {
        Some(nord_spec())
    } else if name == "gruvbox"@ {
        Some(gruvbox_spec())
    } else {
        None
    }
}

/// Looks up a built-in theme by name.
pub fn find_theme(name: &str) -> (r: Option<Theme>)
    ensures
        r == spec_find_theme(name@),
{
    if str_equals(name, "ansi") {
        Some(ansi())
    } else if str_equals(name, "dark") {
        Some(dark())
    } else if str_equals(name, "light") {
        Some(light())
    } else if str_equals(name, "nord") {
        Some(nord())
    } else if str_equals(name, "gruvbox") {
        Some(gruvbox())
    } else {
        None
    }
}

/// The listed themes are exactly the ones found by name: a name is found if and only if it
/// is listed, the theme found carries that name, and the default theme is listed.
pub proof fn lemma_listed_themes_found(name: Seq<char>)
    ensures
        spec_find_theme(name) is Some <==> theme_names().contains(name),
        spec_find_theme(name) matches Some(t) ==> t.name@ == name,
        theme_names().contains("ansi"@),
{
    reveal_strlit("ansi");
    reveal_strlit("dark");
    reveal_strlit("light");
    reveal_strlit("nord");
    reveal_strlit("gruvbox");
    assert(theme_names()[0] == "ansi"@);
    if theme_names().contains(name) {
        let i = choose|i: int| 0 <= i < theme_names().len() && theme_names()[i] == name;
        assert(0 <= i < 5);
    }
    if name == "ansi"@ {
        assert(theme_names()[0] == name);
    } else if name == "dark"@ {
        assert(theme_names()[1] == name);
    } else if name == "light"@ {
        assert(theme_names()[2] == name);
    } else if name == "nord"@ {
        assert(theme_names()[3] == name);
    } else if name == "gruvbox"@ {
        assert(theme_names()[4] == name);
    }
}

/// A style with a foreground colour and attributes and no background.
pub open spec fn spec_s(fg: Option<Color>, bold: bool, italic: bool, underline: bool, dim: bool) -> Style {
    Style { fg, bg: None, bold, italic, underline, dim }
}

fn s(fg: Option<Color>, bold: bool, italic: bool, underline: bool, dim: bool) -> (r: Style)
    ensures
        r == spec_s(fg, bold, italic, underline, dim),
{
    Style { fg, bg: None, bold, italic, underline, dim }
}


pub open spec fn ansi_spec() -> Theme {
    Theme {
        name: "ansi",
        heading1: spec_s(Some(Color::Ansi(33)), true, false, true, false),
        heading2: spec_s(Some(Color::Ansi(39)), true, false, false, false),
        heading3: spec_s(Some(Color::Ansi(45)), true, false, false, false),
        heading4: spec_s(Some(Color::Ansi(37)), true, false, false, true),
        text: spec_s(None, false, false, false, false),
        emphasis: spec_s(None, false, true, false, false),
        strong: spec_s(None, true, false, false, false),
        inline_code: spec_s(Some(Color::Ansi(36)), false, false, false, false),
        code: spec_s(Some(Color::Ansi(250)), false, false, false, false),
        quote_marker: spec_s(Some(Color::Ansi(244)), false, false, false, false),
        link_label: spec_s(Some(Color::Ansi(39)), false, false, true, false),
        link_url: spec_s(Some(Color::Ansi(244)), false, false, false, false),
        rule: spec_s(Some(Color::Ansi(244)), false, false, false, false),
        table_header: spec_s(Some(Color::Ansi(33)), true, false, false, false),
        table_border: spec_s(Some(Color::Ansi(244)), false, false, false, false),
        list_marker: spec_s(Some(Color::Ansi(39)), true, false, false, false),
    }
}

fn ansi() -> (r: Theme)
    ensures
        r == ansi_spec(),
{
    Theme {
        name: "ansi",
        heading1: s(Some(Color::Ansi(33)), true, false, true, false),
        heading2: s(Some(Color::Ansi(39)), true, false, false, false),
        heading3: s(Some(Color::Ansi(45)), true, false, false, false),
        heading4: s(Some(Color::Ansi(37)), true, false, false, true),
        text: s(None, false, false, false, false),
        emphasis: s(None, false, true, false, false),
        strong: s(None, true, false, false, false),
        inline_code: s(Some(Color::Ansi(36)), false, false, false, false),
        code: s(Some(Color::Ansi(250)), false, false, false, false),
        quote_marker: s(Some(Color::Ansi(244)), false, false, false, false),
        link_label: s(Some(Color::Ansi(39)), false, false, true, false),
        link_url: s(Some(Color::Ansi(244)), false, false, false, false),
        rule: s(Some(Color::Ansi(244)), false, false, false, false),
        table_header: s(Some(Color::Ansi(33)), true, false, false, false),
        table_border: s(Some(Color::Ansi(244)), false, false, false, false),
        list_marker: s(Some(Color::Ansi(39)), true, false, false, false),
    }
}

pub open spec fn dark_spec() -> Theme {
    Theme {
        name: "dark",
        heading1: spec_s(Some(Color::Rgb(224, 108, 117)), true, false, true, false),
        heading2: spec_s(Some(Color::Rgb(97, 175, 239)), true, false, false, false),
        heading3: spec_s(Some(Color::Rgb(198, 120, 221)), true, false, false, false),
        heading4: spec_s(Some(Color::Rgb(171, 178, 191)), true, false, false, true),
        text: spec_s(Some(Color::Rgb(171, 178, 191)), false, false, false, false),
        emphasis: spec_s(None, false, true, false, false),
        strong: spec_s(None, true, false, false, false),
        inline_code: spec_s(Some(Color::Rgb(86, 182, 194)), false, false, false, false),
        code: spec_s(Some(Color::Rgb(171, 178, 191)), false, false, false, false),
        quote_marker: spec_s(Some(Color::Rgb(92, 99, 112)), false, false, false, false),
        link_label: spec_s(Some(Color::Rgb(97, 175, 239)), false, false, true, false),
        link_url: spec_s(Some(Color::Rgb(92, 99, 112)), false, false, false, false),
        rule: spec_s(Some(Color::Rgb(92, 99, 112)), false, false, false, false),
        table_header: spec_s(Some(Color::Rgb(224, 108, 117)), true, false, false, false),
        table_border: spec_s(Some(Color::Rgb(92, 99, 112)), false, false, false, false),
        list_marker: spec_s(Some(Color::Rgb(97, 175, 239)), true, false, false, false),
    }
}

fn dark() -> (r: Theme)
    ensures
        r == dark_spec(),
{
    Theme {
        name: "dark",
        heading1: s(Some(Color::Rgb(224, 108, 117)), true, false, true, false),
        heading2: s(Some(Color::Rgb(97, 175, 239)), true, false, false, false),
        heading3: s(Some(Color::Rgb(198, 120, 221)), true, false, false, false),
        heading4: s(Some(Color::Rgb(171, 178, 191)), true, false, false, true),
        text: s(Some(Color::Rgb(171, 178, 191)), false, false, false, false),
        emphasis: s(None, false, true, false, false),
        strong: s(None, true, false, false, false),
        inline_code: s(Some(Color::Rgb(86, 182, 194)), false, false, false, false),
        code: s(Some(Color::Rgb(171, 178, 191)), false, false, false, false),
        quote_marker: s(Some(Color::Rgb(92, 99, 112)), false, false, false, false),
        link_label: s(Some(Color::Rgb(97, 175, 239)), false, false, true, false),
        link_url: s(Some(Color::Rgb(92, 99, 112)), false, false, false, false),
        rule: s(Some(Color::Rgb(92, 99, 112)), false, false, false, false),
        table_header: s(Some(Color::Rgb(224, 108, 117)), true, false, false, false),
        table_border: s(Some(Color::Rgb(92, 99, 112)), false, false, false, false),
        list_marker: s(Some(Color::Rgb(97, 175, 239)), true, false, false, false),
    }
}

pub open spec fn light_spec() -> Theme {
    Theme {
        name: "light",
        heading1: spec_s(Some(Color::Rgb(196, 26, 22)), true, false, true, false),
        heading2: spec_s(Some(Color::Rgb(0, 64, 175)), true, false, false, false),
        heading3: spec_s(Some(Color::Rgb(111, 66, 193)), true, false, false, false),
        heading4: spec_s(Some(Color::Rgb(60, 60, 60)), true, false, false, true),
        text: spec_s(Some(Color::Rgb(30, 30, 30)), false, false, false, false),
        emphasis: spec_s(None, false, true, false, false),
        strong: spec_s(None, true, false, false, false),
        inline_code: spec_s(Some(Color::Rgb(10, 132, 255)), false, false, false, false),
        code: spec_s(Some(Color::Rgb(35, 35, 35)), false, false, false, false),
        quote_marker: spec_s(Some(Color::Rgb(140, 140, 140)), false, false, false, false),
        link_label: spec_s(Some(Color::Rgb(0, 64, 175)), false, false, true, false),
        link_url: spec_s(Some(Color::Rgb(100, 100, 100)), false, false, false, false),
        rule: spec_s(Some(Color::Rgb(160, 160, 160)), false, false, false, false),
        table_header: spec_s(Some(Color::Rgb(196, 26, 22)), true, false, false, false),
        table_border: spec_s(Some(Color::Rgb(160, 160, 160)), false, false, false, false),
        list_marker: spec_s(Some(Color::Rgb(0, 64, 175)), true, false, false, false),
    }
}

fn light() -> (r: Theme)
    ensures
        r == light_spec(),
{
    Theme {
        name: "light",
        heading1: s(Some(Color::Rgb(196, 26, 22)), true, false, true, false),
        heading2: s(Some(Color::Rgb(0, 64, 175)), true, false, false, false),
        heading3: s(Some(Color::Rgb(111, 66, 193)), true, false, false, false),
        heading4: s(Some(Color::Rgb(60, 60, 60)), true, false, false, true),
        text: s(Some(Color::Rgb(30, 30, 30)), false, false, false, false),
        emphasis: s(None, false, true, false, false),
        strong: s(None, true, false, false, false),
        inline_code: s(Some(Color::Rgb(10, 132, 255)), false, false, false, false),
        code: s(Some(Color::Rgb(35, 35, 35)), false, false, false, false),
        quote_marker: s(Some(Color::Rgb(140, 140, 140)), false, false, false, false),
        link_label: s(Some(Color::Rgb(0, 64, 175)), false, false, true, false),
        link_url: s(Some(Color::Rgb(100, 100, 100)), false, false, false, false),
        rule: s(Some(Color::Rgb(160, 160, 160)), false, false, false, false),
        table_header: s(Some(Color::Rgb(196, 26, 22)), true, false, false, false),
        table_border: s(Some(Color::Rgb(160, 160, 160)), false, false, false, false),
        list_marker: s(Some(Color::Rgb(0, 64, 175)), true, false, false, false),
    }
}

pub open spec fn nord_spec() -> Theme {
    Theme {
        name: "nord",
        heading1: spec_s(Some(Color::Rgb(191, 97, 106)), true, false, true, false),
        heading2: spec_s(Some(Color::Rgb(129, 161, 193)), true, false, false, false),
        heading3: spec_s(Some(Color::Rgb(180, 142, 173)), true, false, false, false),
        heading4: spec_s(Some(Color::Rgb(216, 222, 233)), true, false, false, true),
        text: spec_s(Some(Color::Rgb(216, 222, 233)), false, false, false, false),
        emphasis: spec_s(None, false, true, false, false),
        strong: spec_s(None, true, false, false, false),
        inline_code: spec_s(Some(Color::Rgb(136, 192, 208)), false, false, false, false),
        code: spec_s(Some(Color::Rgb(216, 222, 233)), false, false, false, false),
        quote_marker: spec_s(Some(Color::Rgb(76, 86, 106)), false, false, false, false),
        link_label: spec_s(Some(Color::Rgb(129, 161, 193)), false, false, true, false),
        link_url: spec_s(Some(Color::Rgb(94, 129, 172)), false, false, false, false),
        rule: spec_s(Some(Color::Rgb(76, 86, 106)), false, false, false, false),
        table_header: spec_s(Some(Color::Rgb(191, 97, 106)), true, false, false, false),
        table_border: spec_s(Some(Color::Rgb(76, 86, 106)), false, false, false, false),
        list_marker: spec_s(Some(Color::Rgb(129, 161, 193)), true, false, false, false),
    }
}

fn nord() -> (r: Theme)
    ensures
        r == nord_spec(),
{
    Theme {
        name: "nord",
        heading1: s(Some(Color::Rgb(191, 97, 106)), true, false, true, false),
        heading2: s(Some(Color::Rgb(129, 161, 193)), true, false, false, false),
        heading3: s(Some(Color::Rgb(180, 142, 173)), true, false, false, false),
        heading4: s(Some(Color::Rgb(216, 222, 233)), true, false, false, true),
        text: s(Some(Color::Rgb(216, 222, 233)), false, false, false, false),
        emphasis: s(None, false, true, false, false),
        strong: s(None, true, false, false, false),
        inline_code: s(Some(Color::Rgb(136, 192, 208)), false, false, false, false),
        code: s(Some(Color::Rgb(216, 222, 233)), false, false, false, false),
        quote_marker: s(Some(Color::Rgb(76, 86, 106)), false, false, false, false),
        link_label: s(Some(Color::Rgb(129, 161, 193)), false, false, true, false),
        link_url: s(Some(Color::Rgb(94, 129, 172)), false, false, false, false),
        rule: s(Some(Color::Rgb(76, 86, 106)), false, false, false, false),
        table_header: s(Some(Color::Rgb(191, 97, 106)), true, false, false, false),
        table_border: s(Some(Color::Rgb(76, 86, 106)), false, false, false, false),
        list_marker: s(Some(Color::Rgb(129, 161, 193)), true, false, false, false),
    }
}

pub open spec fn gruvbox_spec() -> Theme {
    Theme {
        name: "gruvbox",
        heading1: spec_s(Some(Color::Rgb(251, 73, 52)), true, false, true, false),
        heading2: spec_s(Some(Color::Rgb(131, 165, 152)), true, false, false, false),
        heading3: spec_s(Some(Color::Rgb(211, 134, 155)), true, false, false, false),
        heading4: spec_s(Some(Color::Rgb(235, 219, 178)), true, false, false, true),
        text: spec_s(Some(Color::Rgb(235, 219, 178)), false, false, false, false),
        emphasis: spec_s(None, false, true, false, false),
        strong: spec_s(None, true, false, false, false),
        inline_code: spec_s(Some(Color::Rgb(142, 192, 124)), false, false, false, false),
        code: spec_s(Some(Color::Rgb(235, 219, 178)), false, false, false, false),
        quote_marker: spec_s(Some(Color::Rgb(146, 131, 116)), false, false, false, false),
        link_label: spec_s(Some(Color::Rgb(131, 165, 152)), false, false, true, false),
        link_url: spec_s(Some(Color::Rgb(168, 153, 132)), false, false, false, false),
        rule: spec_s(Some(Color::Rgb(146, 131, 116)), false, false, false, false),
        table_header: spec_s(Some(Color::Rgb(251, 73, 52)), true, false, false, false),
        table_border: spec_s(Some(Color::Rgb(146, 131, 116)), false, false, false, false),
        list_marker: spec_s(Some(Color::Rgb(131, 165, 152)), true, false, false, false),
    }
}

fn gruvbox() -> (r: Theme)
    ensures
        r == gruvbox_spec(),
{
    Theme {
        name: "gruvbox",
        heading1: s(Some(Color::Rgb(251, 73, 52)), true, false, true, false),
        heading2: s(Some(Color::Rgb(131, 165, 152)), true, false, false, false),
        heading3: s(Some(Color::Rgb(211, 134, 155)), true, false, false, false),
        heading4: s(Some(Color::Rgb(235, 219, 178)), true, false, false, true),
        text: s(Some(Color::Rgb(235, 219, 178)), false, false, false, false),
        emphasis: s(None, false, true, false, false),
        strong: s(None, true, false, false, false),
        inline_code: s(Some(Color::Rgb(142, 192, 124)), false, false, false, false),
        code: s(Some(Color::Rgb(235, 219, 178)), false, false, false, false),
        quote_marker: s(Some(Color::Rgb(146, 131, 116)), false, false, false, false),
        link_label: s(Some(Color::Rgb(131, 165, 152)), false, false, true, false),
        link_url: s(Some(Color::Rgb(168, 153, 132)), false, false, false, false),
        rule: s(Some(Color::Rgb(146, 131, 116)), false, false, false, false),
        table_header: s(Some(Color::Rgb(251, 73, 52)), true, false, false, false),
        table_border: s(Some(Color::Rgb(146, 131, 116)), false, false, false, false),
        list_marker: s(Some(Color::Rgb(131, 165, 152)), true, false, false, false),
    }
}

} // verus!
