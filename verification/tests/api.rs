use mdlux::cli::{Cli, FeatureMode};
use mdlux::render::ansi::apply_style;
use mdlux::render::inline::plain_text;
use mdlux::markdown::ast::Inline;
use mdlux::theme::builtin::{default_theme_name, find_theme, list_theme_names};
use mdlux::theme::{Color, Style};
use mdlux::util::width::{strip_ansi, visible_width};
use mdlux::{options_for, render_markdown_str, RenderOptions};

#[test]
fn render_markdown_str_renders_basic_text() {
    let opts = RenderOptions { ansi: false, ..RenderOptions::default() };
    let out = render_markdown_str("# Hello\n\nworld\n", &opts).expect("should render");
    assert!(out.contains("Hello"));
    assert!(out.contains("world"));
}

#[test]
fn render_markdown_str_errors_on_unknown_theme() {
    let opts = RenderOptions { theme: "missing-theme".to_string(), ..RenderOptions::default() };
    let err = render_markdown_str("hello", &opts).expect_err("must fail");
    assert!(err.message().contains("unknown theme"));
}

#[test]
fn unknown_theme_message_names_the_theme() {
    let opts = RenderOptions { theme: "nope".to_string(), ..RenderOptions::default() };
    let err = render_markdown_str("hello", &opts).expect_err("must fail");
    assert_eq!(err.message(), "unknown theme: nope");
}

#[test]
fn render_markdown_str_exact_plain() {
    let opts = RenderOptions { ansi: false, ..RenderOptions::default() };
    let out = render_markdown_str("# Hello\n\nworld\n", &opts).expect("should render");
    assert_eq!(out, "Hello\n\nworld\n\n");
}

#[test]
fn narrow_width_is_raised_to_twenty() {
    let opts = RenderOptions { ansi: false, width: 5, ..RenderOptions::default() };
    let out = render_markdown_str("aaaa bbbb cccc dddd eeee", &opts).expect("should render");
    assert_eq!(out, "aaaa bbbb cccc dddd\neeee\n\n");
}

#[test]
fn default_options() {
    let o = RenderOptions::default();
    assert_eq!(o.width, 80);
    assert_eq!(o.theme, "ansi");
    assert!(o.ansi && !o.kitty_text_size && !o.kitty_graphics && !o.kitty_hyperlinks && !o.no_highlight);
    assert_eq!(o.source_dir, ".");
    assert!(o.images.is_empty());
    let t = RenderOptions::for_terminal(Some(10), "/docs".to_string());
    assert_eq!(t.width, 20);
    assert_eq!(t.source_dir, "/docs");
}

#[test]
fn options_follow_the_command_line() {
    let cli = Cli {
        file: None,
        width: Some(30),
        theme: "nord".to_string(),
        kitty: FeatureMode::Auto,
        images: FeatureMode::Never,
        no_highlight: true,
        plain: false,
        list_themes: false,
    };
    let o = options_for(&cli, Some(100), true, "d".to_string());
    assert_eq!(o.width, 30);
    assert_eq!(o.theme, "nord");
    assert!(o.ansi && o.kitty_text_size && o.kitty_hyperlinks && !o.kitty_graphics && o.no_highlight);
    let cli2 = Cli { width: None, ..cli };
    assert_eq!(options_for(&cli2, None, false, "d".to_string()).width, 80);
    assert_eq!(options_for(&cli2, Some(120), false, "d".to_string()).width, 120);
}

#[test]
fn themes_are_listed_and_found() {
    let names = list_theme_names();
    assert_eq!(names, vec!["ansi", "dark", "light", "nord", "gruvbox"]);
    for n in names {
        assert_eq!(find_theme(n).expect("listed theme").name, n);
    }
    assert_eq!(default_theme_name(), "ansi");
    assert!(find_theme("missing").is_none());
}

#[test]
fn apply_style_exact() {
    let plain = Style::default();
    assert_eq!(apply_style("x", plain, true), "x");
    let s = Style { fg: Some(Color::Rgb(1, 2, 3)), bg: Some(Color::Ansi(4)), bold: true, italic: true, underline: false, dim: true };
    assert_eq!(apply_style("x", s, true), "\u{1b}[1;2;3;38;2;1;2;3;48;5;4mx\u{1b}[0m");
    assert_eq!(apply_style("x", s, false), "x");
}

#[test]
fn strip_ansi_removes_sequences() {
    assert_eq!(strip_ansi("\u{1b}[1;31mred\u{1b}[0m"), "red");
    assert_eq!(strip_ansi("\u{1b}]8;;http://x\u{1b}\\label\u{1b}]8;;\u{1b}\\"), "label");
    assert_eq!(strip_ansi("\u{1b}]66;s=2;big\u{7}after"), "after");
    assert_eq!(strip_ansi("\u{1b}_Gdata\u{1b}\\x"), "x");
    assert_eq!(strip_ansi("a\u{1b}b"), "a\u{1b}b");
    assert_eq!(visible_width("\u{1b}[1mabc\u{1b}[0m"), 3);
    assert_eq!(visible_width("日本"), 4);
}

#[test]
fn plain_text_of_inlines() {
    let inlines = vec![
        Inline::Text("a".to_string()),
        Inline::Strong(vec![Inline::Code("b".to_string())]),
        Inline::HardBreak,
        Inline::Image { alt: "c".to_string(), path: "p".to_string(), title: None },
        Inline::FootnoteRef("d".to_string()),
    ];
    assert_eq!(plain_text(&inlines), "ab c[^d]");
    assert_eq!(Inline::plain_text(&inlines), "ab c[^d]");
}

#[test]
fn string_entry_is_parse_then_render() {
    let input = "# Title\n\nSome *text* here.\n\n```rust\nfn main() {}\n```\n\n> quoted\n";
    let opts = RenderOptions { ansi: true, width: 50, ..RenderOptions::default() };
    let via_str = render_markdown_str(input, &opts).expect("should render");
    let ctx = mdlux::render::RenderContext {
        width: 50,
        theme: find_theme(&opts.theme).expect("theme exists"),
        capabilities: mdlux::render::Capabilities {
            ansi: true,
            kitty_text_size: opts.kitty_text_size,
            kitty_graphics: opts.kitty_graphics,
            kitty_hyperlinks: opts.kitty_hyperlinks,
        },
        source_dir: opts.source_dir.clone(),
        no_highlight: opts.no_highlight,
        images: Vec::new(),
    };
    let blocks = mdlux::markdown::parser::parse_markdown(input);
    let via_blocks = mdlux::render::render_document(&blocks, &ctx).expect("should render");
    assert_eq!(via_str, via_blocks);
    assert_eq!(render_markdown_str(input, &opts).expect("should render"), via_str);
    assert!(via_str.contains("\u{1b}[0m"));
}
