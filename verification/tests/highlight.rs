use mdlux::highlight::highlighter::{resolved_theme_name, Highlighter};

fn rendered(theme: &str) -> String {
    let h = Highlighter::new(theme);
    h.highlight_code("fn main() {}\n", Some("rust"))
}

#[test]
fn highlights_or_falls_back() {
    let h = Highlighter::new("ansi");
    let out = h.highlight_code("fn main() {}\n", Some("rust"));
    assert!(!out.is_empty());
    assert!(out.contains("\u{1b}[0m"));
}

#[test]
fn picks_distinct_theme_for_nord_vs_ansi() {
    let ansi = resolved_theme_name("ansi");
    let nord = resolved_theme_name("nord");
    assert_ne!(ansi, nord);
}

#[test]
fn output_differs_for_light_vs_dark_family() {
    let light = rendered("light");
    let dark = rendered("dark");
    assert_ne!(light, dark);
}

#[test]
fn theme_candidates_are_taken_in_order() {
    assert_eq!(resolved_theme_name("ansi"), "base16-eighties.dark");
    assert_eq!(resolved_theme_name("dark"), "base16-ocean.dark");
    assert_eq!(resolved_theme_name("light"), "InspiredGitHub");
    assert_eq!(resolved_theme_name("nord"), "base16-ocean.dark");
    assert_eq!(resolved_theme_name("gruvbox"), "base16-mocha.dark");
    assert_eq!(resolved_theme_name("something-else"), "base16-ocean.dark");
}

#[test]
fn highlighted_text_keeps_the_code_visible() {
    let h = Highlighter::new("dark");
    let out = h.highlight_code("let x = 1;\nlet y = 2;\n", Some("rust"));
    let visible = mdlux::util::width::strip_ansi(&out);
    assert_eq!(visible, "let x = 1;\nlet y = 2;\n");
    assert_eq!(out.matches("\u{1b}[0m").count(), 2);
}

#[test]
fn unknown_language_is_plain_text() {
    let h = Highlighter::new("ansi");
    let out = h.highlight_code("just words\n", Some("no-such-language"));
    assert_eq!(mdlux::util::width::strip_ansi(&out), "just words\n");
    let empty = h.highlight_code("", None);
    assert_eq!(empty, "");
}
