use mdlux::highlight::nord::{theme, FontStyle};
use mdlux::kitty::escape_osc;
use mdlux::kitty::hyperlink::osc8_link;
use mdlux::markdown::ast::Inline;
use mdlux::render::ansi::apply_style;
use mdlux::render::inline::{render_inlines_to_spans, Span};
use mdlux::render::wrap::wrap_spans;
use mdlux::render::{Capabilities, RenderContext};
use mdlux::theme::builtin::find_theme;
use mdlux::theme::{Color, Style};
use mdlux::util::width::{strip_ansi, visible_width};
use mdlux::{render_markdown_str, RenderOptions};

#[test]
fn styling_is_invisible_once_stripped() {
    let styles = [
        Style::default(),
        Style { fg: Some(Color::Ansi(200)), bg: None, bold: true, italic: false, underline: true, dim: false },
        Style { fg: Some(Color::Rgb(10, 200, 0)), bg: Some(Color::Rgb(255, 255, 255)), bold: false, italic: true, underline: false, dim: true },
    ];
    for style in styles {
        for text in ["", "plain words", "tab\tand ~ symbols [x]", "日本語"] {
            let styled = apply_style(text, style, true);
            assert_eq!(strip_ansi(&styled), text);
            assert_eq!(visible_width(&styled), visible_width(text));
        }
    }
}

#[test]
fn link_shows_only_its_label() {
    assert_eq!(strip_ansi(&osc8_link("docs", "https://example.com")), "docs");
    assert_eq!(strip_ansi(&osc8_link("a\\b", "u")), escape_osc("a\\b"));
    assert_eq!(strip_ansi(&osc8_link("x\u{1b}y", "evil\u{7}url")), "xy");
}

#[test]
fn merged_spans_keep_text_and_differ_in_style() {
    let ctx = RenderContext {
        width: 80,
        theme: find_theme("ansi").expect("theme exists"),
        capabilities: Capabilities::default(),
        source_dir: ".".to_string(),
        no_highlight: true,
        images: Vec::new(),
    };
    let inlines = vec![
        Inline::Text("a".to_string()),
        Inline::Text(String::new()),
        Inline::Text("b".to_string()),
        Inline::Strong(vec![Inline::Text("c".to_string())]),
        Inline::Text("d".to_string()),
    ];
    let spans = render_inlines_to_spans(&inlines, &ctx);
    let texts: Vec<&str> = spans.iter().map(|s| s.text.as_str()).collect();
    assert_eq!(texts, vec!["ab", "c", "d"]);
    for pair in spans.windows(2) {
        assert_ne!(pair[0].style, pair[1].style);
    }
}

#[test]
fn nord_theme_data() {
    let t = theme();
    assert_eq!(t.name, "Nord Custom");
    assert_eq!(t.author, "mdlux");
    assert_eq!(t.scopes.len(), 21);
    assert_eq!(t.scopes[0].scope, "comment");
    assert_eq!(t.scopes[0].font_style, Some(FontStyle::Italic));
    let fg = t.settings.foreground.expect("foreground");
    assert_eq!((fg.r, fg.g, fg.b, fg.a), (216, 222, 233, 255));
    assert_eq!(t.scopes[20].scope, "markup.deleted");
}

#[test]
fn plain_text_lines_fit_the_width() {
    let text = "a bb ccc dddd eeeee ffffff ggggggg hhhhhhhhhhhh i\nj  k";
    let spans = vec![
        Span { text: text.to_string(), style: Style::default() },
        Span { text: " tail words".to_string(), style: Style { bold: true, ..Style::default() } },
    ];
    for width in [0usize, 1, 2, 3, 5, 7, 11] {
        let lines = wrap_spans(&spans, width);
        for line in &lines {
            let len: usize = line.iter().map(|s| s.text.chars().count()).sum();
            assert!(len <= width.max(1), "width {width}: {len}");
        }
    }
}

#[test]
fn plain_output_has_no_escape() {
    let input = "# Title\n\nSome *emph* and **strong** text with `code` and a [link](http://x) and\
                 a footnote[^n].\n\n> quoted\n\n- a\n- b\n\n1. one\n2. two\n\n| A | B |\n|---|--:|\n| x | 1 |\n\n\
                 ```rust\nfn main() {}\n```\n\n---\n\n![alt](pic.png)\n\n[^n]: the note\n";
    let opts = RenderOptions { ansi: false, ..RenderOptions::default() };
    let out = render_markdown_str(input, &opts).expect("renders");
    assert!(!out.contains('\u{1b}'));
    assert!(out.contains("Title") && out.contains("[image: alt - pic.png]") && out.contains("| x | 1 |"));
}

#[test]
fn wrapping_keeps_every_word() {
    let spans = vec![
        Span { text: "the quick  brown fox\njumps over".to_string(), style: Style::default() },
        Span { text: " the lazydoggggggggg".to_string(), style: Style { italic: true, ..Style::default() } },
        Span { text: osc8_link("link", "http://x"), style: Style::default() },
    ];
    let ink = |s: &str| s.chars().filter(|c| !c.is_whitespace()).collect::<String>();
    let all: String = spans.iter().map(|s| ink(&s.text)).collect();
    for width in [0usize, 1, 3, 6, 10, 40] {
        let lines = wrap_spans(&spans, width);
        let got: String = lines.iter().flat_map(|l| l.iter().map(|s| ink(&s.text))).collect();
        assert_eq!(got, all, "width {width}");
    }
}

#[test]
fn plain_text_distributes_over_concatenation() {
    let a = vec![
        Inline::Text("Hello ".to_string()),
        Inline::Strong(vec![Inline::Text("bold".to_string())]),
        Inline::SoftBreak,
    ];
    let b = vec![
        Inline::Link { text: vec![Inline::Code("x".to_string())], dest: "https://e.x".to_string(), title: None },
        Inline::FootnoteRef("n".to_string()),
    ];
    let mut both = Vec::new();
    both.extend(a.iter().cloned());
    both.extend(b.iter().cloned());
    assert_eq!(both[..3], a[..]);
    assert_eq!(Inline::plain_text(&both), format!("{}{}", Inline::plain_text(&a), Inline::plain_text(&b)));
    assert_eq!(Inline::plain_text(&both), "Hello bold x[^n]");
    assert_eq!(Inline::plain_text(&[]), "");
}

#[test]
fn wide_words_that_fit_keep_lines_within_the_width() {
    let spans = vec![Span { text: "漢字 かな 한국어 abc 日本".to_string(), style: Style::default() }];
    for width in [6usize, 7, 9, 12] {
        let lines = wrap_spans(&spans, width);
        assert!(lines.len() > 1 || width >= 12);
        for line in &lines {
            let text: String = line.iter().map(|s| s.text.as_str()).collect();
            assert!(visible_width(&text) <= width, "width {width}: {text:?}");
        }
    }
}
