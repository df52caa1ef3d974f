use mdlux::highlight::highlighter::Highlighter;
use mdlux::kitty::graphics::{kitty_image_sequence, KittyImageOptions, LoadedImage};
use mdlux::kitty::hyperlink::osc8_link;
use mdlux::markdown::ast::{Alignment, Block, Inline};
use mdlux::render::blocks::{render_block, RenderState};
use mdlux::render::inline::{render_inlines_to_spans, Span};
use mdlux::render::table::{pad_visible, render_table, RenderedTable};
use mdlux::render::wrap::wrap_spans;
use mdlux::render::{render_document, Capabilities, RenderContext};
use mdlux::theme::builtin::find_theme;
use mdlux::theme::Style;

fn text(s: &str) -> Inline {
    Inline::Text(s.to_string())
}

fn plain_ctx(width: usize) -> RenderContext {
    RenderContext {
        width,
        theme: find_theme("ansi").expect("theme exists"),
        capabilities: Capabilities::default(),
        source_dir: ".".to_string(),
        no_highlight: true,
        images: Vec::new(),
    }
}

#[test]
fn renders_paragraph_and_heading() {
    let blocks = vec![
        Block::Heading { level: 1, content: vec![Inline::Text("Title".to_string())] },
        Block::Paragraph(vec![Inline::Text("hello world".to_string())]),
    ];
    let ctx = RenderContext {
        width: 80,
        theme: find_theme("ansi").expect("theme exists"),
        capabilities: Capabilities::default(),
        source_dir: ".".to_string(),
        no_highlight: false,
        images: Vec::new(),
    };
    let out = render_document(&blocks, &ctx).expect("render should work");
    assert!(out.contains("Title"));
    assert!(out.contains("hello world"));
}

#[test]
fn image_fallback_is_readable() {
    let blocks = vec![Block::Image {
        alt: "Logo".to_string(),
        path: "assets/logo.png".to_string(),
        title: None,
    }];
    let ctx = RenderContext {
        width: 80,
        theme: find_theme("ansi").expect("theme exists"),
        capabilities: Capabilities::default(),
        source_dir: ".".to_string(),
        no_highlight: false,
        images: Vec::new(),
    };
    let out = render_document(&blocks, &ctx).expect("render should work");
    assert!(out.contains("[image: Logo - assets/logo.png]"));
}

#[test]
fn highlighted_code_does_not_bleed_into_following_text() {
    let blocks = vec![
        Block::CodeBlock { lang: Some("rust".to_string()), code: "fn main() {}\n".to_string() },
        Block::Paragraph(vec![Inline::Text("after".to_string())]),
    ];
    let ctx = RenderContext {
        width: 80,
        theme: find_theme("ansi").expect("theme exists"),
        capabilities: Capabilities { ansi: true, ..Capabilities::default() },
        source_dir: ".".to_string(),
        no_highlight: false,
        images: Vec::new(),
    };
    let out = render_document(&blocks, &ctx).expect("render should work");
    assert!(out.contains("\u{1b}[0m"));
    assert!(out.contains("\nafter\n"));
}

#[test]
fn kitty_h1_has_extra_spacing() {
    let blocks = vec![
        Block::Heading { level: 1, content: vec![Inline::Text("mdlux".to_string())] },
        Block::Paragraph(vec![Inline::Text("Terminal Markdown renderer".to_string())]),
    ];
    let ctx = RenderContext {
        width: 80,
        theme: find_theme("ansi").expect("theme exists"),
        capabilities: Capabilities { kitty_text_size: true, ..Capabilities::default() },
        source_dir: ".".to_string(),
        no_highlight: true,
        images: Vec::new(),
    };
    let out = render_document(&blocks, &ctx).expect("render should work");
    assert!(out.contains("\u{1b}]66;s=3;mdlux\u{7}\n\n\n\n"));
    assert!(out.contains("Terminal Markdown renderer"));
}

#[test]
fn link_includes_destination() {
    let ctx = RenderContext {
        width: 80,
        theme: find_theme("ansi").expect("theme exists"),
        capabilities: Capabilities {
            ansi: true,
            kitty_text_size: false,
            kitty_graphics: false,
            kitty_hyperlinks: false,
        },
        source_dir: ".".to_string(),
        no_highlight: false,
        images: Vec::new(),
    };
    let spans = render_inlines_to_spans(
        &[Inline::Link {
            text: vec![Inline::Text("x".to_string())],
            dest: "https://example.com".to_string(),
            title: None,
        }],
        &ctx,
    );
    let all = spans.iter().map(|s| s.text.clone()).collect::<String>();
    assert!(all.contains("https://example.com"));
}

#[test]
fn kitty_link_hides_raw_url() {
    let ctx = RenderContext {
        width: 80,
        theme: find_theme("ansi").expect("theme exists"),
        capabilities: Capabilities {
            ansi: true,
            kitty_text_size: true,
            kitty_graphics: false,
            kitty_hyperlinks: true,
        },
        source_dir: ".".to_string(),
        no_highlight: false,
        images: Vec::new(),
    };
    let spans = render_inlines_to_spans(
        &[Inline::Link {
            text: vec![Inline::Text("docs".to_string())],
            dest: "https://example.com".to_string(),
            title: None,
        }],
        &ctx,
    );
    let all = spans.iter().map(|s| s.text.clone()).collect::<String>();
    assert!(all.contains("\u{1b}]8;;https://example.com"));
    assert!(!all.contains(" (https://example.com)"));
}

#[test]
fn pads_right() {
    let s = pad_visible("7", 3, Alignment::Right);
    assert_eq!(s, "  7");
}

#[test]
fn pads_left_and_center() {
    assert_eq!(pad_visible("ab", 5, Alignment::Left), "ab   ");
    assert_eq!(pad_visible("ab", 5, Alignment::Unaligned), "ab   ");
    assert_eq!(pad_visible("ab", 5, Alignment::Center), " ab  ");
    assert_eq!(pad_visible("abcdef", 3, Alignment::Right), "abcdef");
    assert_eq!(pad_visible("\u{1b}[1mab\u{1b}[0m", 4, Alignment::Right), "  \u{1b}[1mab\u{1b}[0m");
}

#[test]
fn falls_back_when_narrow() {
    let table = RenderedTable {
        headers: vec!["Name".to_string(), "Value".to_string()],
        rows: vec![vec!["Alpha".to_string(), "123".to_string()]],
        aligns: vec![Alignment::Left, Alignment::Right],
    };
    let out = render_table(&table, 10, false, Style::default(), Style::default());
    assert!(out.contains("Name:"));
}

#[test]
fn table_boxed_exact() {
    let table = RenderedTable {
        headers: vec!["A".to_string(), "B".to_string()],
        rows: vec![vec!["x".to_string(), "1".to_string()]],
        aligns: vec![Alignment::Unaligned, Alignment::Right],
    };
    let out = render_table(&table, 80, false, Style::default(), Style::default());
    assert_eq!(out, "+---+---+\n| A | B |\n+---+---+\n| x | 1 |\n+---+---+");
}

#[test]
fn table_fallback_exact() {
    let table = RenderedTable {
        headers: vec!["Name".to_string(), "Value".to_string()],
        rows: vec![vec!["Alpha".to_string(), "123".to_string()]],
        aligns: vec![Alignment::Left, Alignment::Right],
    };
    let out = render_table(&table, 10, false, Style::default(), Style::default());
    assert_eq!(out, "Name: Alpha\nValue: 123");
}

#[test]
fn wraps_long_text() {
    let spans = vec![Span { text: "alpha beta gamma delta".to_string(), style: Style::default() }];
    let lines = wrap_spans(&spans, 10);
    assert!(lines.len() >= 2);
    for line in lines {
        let text = line.into_iter().map(|s| s.text).collect::<String>();
        assert!(text.len() <= 10 || text.contains(' '));
    }
}

#[test]
fn keeps_osc8_link_sequence_intact() {
    let spans = vec![Span { text: osc8_link("docs", "https://example.com"), style: Style::default() }];
    let lines = wrap_spans(&spans, 2);
    assert_eq!(lines.len(), 1);
    let text = lines[0].iter().map(|s| s.text.clone()).collect::<String>();
    assert!(text.contains("\u{1b}]8;;https://example.com"));
    assert!(text.contains("docs"));
}

fn joined(lines: &[Vec<Span>]) -> Vec<String> {
    lines.iter().map(|l| l.iter().map(|s| s.text.clone()).collect::<String>()).collect()
}

#[test]
fn wrap_exact_lines() {
    let spans = vec![Span { text: "alpha beta gamma delta epsilon".to_string(), style: Style::default() }];
    assert_eq!(joined(&wrap_spans(&spans, 20)), vec!["alpha beta gamma", "delta epsilon"]);
    let long = vec![Span { text: "abcdefghij".to_string(), style: Style::default() }];
    assert_eq!(joined(&wrap_spans(&long, 4)), vec!["abcd", "efgh", "ij"]);
    let empty: Vec<Span> = Vec::new();
    assert_eq!(joined(&wrap_spans(&empty, 10)), vec![""]);
    let broken = vec![Span { text: "a\nb".to_string(), style: Style::default() }];
    assert_eq!(joined(&wrap_spans(&broken, 10)), vec!["a", "b"]);
}

#[test]
fn plain_blocks_exact() {
    let ctx = plain_ctx(80);
    let blocks = vec![
        Block::Heading { level: 1, content: vec![text("  Title ")] },
        Block::Paragraph(vec![text("hello world")]),
        Block::CodeBlock { lang: Some("rust".to_string()), code: "fn main() {}\n".to_string() },
        Block::CodeBlock { lang: None, code: String::new() },
        Block::Rule,
    ];
    let out = render_document(&blocks, &ctx).expect("render");
    let rule = "-".repeat(60);
    let expected = format!(
        "Title\n\nhello world\n\n+-- rust --\n| fn main() {{}}\n+--\n\n+-- code --\n| \n+--\n\n{rule}\n\n"
    );
    assert_eq!(out, expected);
}

#[test]
fn paragraph_wraps_to_width() {
    let ctx = plain_ctx(20);
    let blocks = vec![Block::Paragraph(vec![text("alpha beta gamma delta epsilon")])];
    let out = render_document(&blocks, &ctx).expect("render");
    assert_eq!(out, "alpha beta gamma\ndelta epsilon\n\n");
}

#[test]
fn quote_list_and_footnote_exact() {
    let ctx = plain_ctx(80);
    let blocks = vec![
        Block::BlockQuote(vec![Block::Paragraph(vec![text("hi")])]),
        Block::List {
            ordered: false,
            start: None,
            items: vec![vec![Block::Paragraph(vec![text("a")])], vec![Block::Paragraph(vec![text("b")])]],
        },
        Block::List {
            ordered: true,
            start: Some(9),
            items: vec![
                vec![Block::Paragraph(vec![text("a")])],
                vec![Block::Paragraph(vec![text("b")]), Block::Paragraph(vec![text("c")])],
            ],
        },
        Block::FootnoteDefinition {
            name: "n".to_string(),
            content: vec![Block::Paragraph(vec![text("body")]), Block::Paragraph(vec![text("more")])],
        },
    ];
    let out = render_document(&blocks, &ctx).expect("render");
    let expected = "| hi\n\n\n* a\n\n* b\n\n9. a\n\n10. b\n\n    c\n\n[^n]: body\n\n      more\n\n";
    assert_eq!(out, expected);
}

#[test]
fn heading_styles_with_ansi() {
    let mut ctx = plain_ctx(80);
    ctx.capabilities.ansi = true;
    let blocks = vec![
        Block::Heading { level: 1, content: vec![text("T")] },
        Block::Heading { level: 7, content: vec![text("U")] },
    ];
    let out = render_document(&blocks, &ctx).expect("render");
    assert_eq!(out, "\u{1b}[1;4;38;5;33mT\u{1b}[0m\n\n\u{1b}[1;2;38;5;37mU\u{1b}[0m\n\n");
}

#[test]
fn kitty_h2_and_h3() {
    let mut ctx = plain_ctx(80);
    ctx.capabilities.kitty_text_size = true;
    let blocks = vec![
        Block::Heading { level: 2, content: vec![text("Two")] },
        Block::Heading { level: 3, content: vec![text("Three")] },
    ];
    let out = render_document(&blocks, &ctx).expect("render");
    assert_eq!(out, "\u{1b}]66;s=2;Two\u{7}\n\n\nThree\n\n");
}

#[test]
fn table_block_is_followed_by_blank_line() {
    let ctx = plain_ctx(80);
    let blocks = vec![Block::Table {
        headers: vec![vec![text("A")], vec![text("B")]],
        rows: vec![vec![vec![text("x")], vec![text("1")]]],
        aligns: vec![Alignment::Unaligned, Alignment::Right],
    }];
    let out = render_document(&blocks, &ctx).expect("render");
    assert_eq!(out, "+---+---+\n| A | B |\n+---+---+\n| x | 1 |\n+---+---+\n\n");
}

#[test]
fn image_with_graphics_uses_loaded_image() {
    let mut ctx = plain_ctx(100);
    ctx.capabilities.kitty_graphics = true;
    ctx.images = vec![LoadedImage { path: "a.png".to_string(), png: b"abc".to_vec(), width: 4, height: 5 }];
    let blocks = vec![
        Block::Image { alt: "Logo".to_string(), path: "a.png".to_string(), title: None },
        Block::Image { alt: " ".to_string(), path: "a.png".to_string(), title: None },
        Block::Image { alt: "Other".to_string(), path: "b.png".to_string(), title: None },
    ];
    let out = render_document(&blocks, &ctx).expect("render");
    let seq = kitty_image_sequence(b"abc", 4, 5, KittyImageOptions { max_width_cells: 80, max_height_cells: None });
    let expected = format!("{seq}\nLogo\n\n{seq}\n\n[image: Other - b.png]\n\n");
    assert_eq!(out, expected);
}

#[test]
fn code_block_without_colour_shows_its_code() {
    let ctx = plain_ctx(80);
    let mut state = RenderState { highlighter: Some(Highlighter::new("ansi")) };
    let mut out = String::new();
    let block = Block::CodeBlock { lang: Some("rust".to_string()), code: "fn a() {}\nlet b = 1;".to_string() };
    render_block(&block, &ctx, &mut state, &mut out).expect("render");
    assert_eq!(out, "+-- rust --\n| fn a() {}\n| let b = 1;\n+--\n\n");
    let empty = Block::CodeBlock { lang: None, code: String::new() };
    let mut out2 = String::new();
    render_block(&empty, &ctx, &mut state, &mut out2).expect("render");
    assert_eq!(out2, "+-- code --\n| \n+--\n\n");
    assert!(state.highlighter.is_some());
}

#[test]
fn code_block_with_colour_is_highlighted_for_its_own_code() {
    let mut ctx = plain_ctx(80);
    ctx.capabilities.ansi = true;
    let h = Highlighter::new("dark");
    let expected_first = h.highlight_code("one\n", Some("rust"));
    let expected_second = h.highlight_code("two\n", Some("rust"));
    let mut state = RenderState { highlighter: Some(h) };
    let mut first_out = String::new();
    let mut second_out = String::new();
    let first = Block::CodeBlock { lang: Some("rust".to_string()), code: "one\n".to_string() };
    let second = Block::CodeBlock { lang: Some("rust".to_string()), code: "two\n".to_string() };
    render_block(&first, &ctx, &mut state, &mut first_out).expect("render");
    render_block(&second, &ctx, &mut state, &mut second_out).expect("render");
    assert!(expected_first.contains("\u{1b}[0m"));
    for line in expected_first.lines() {
        assert!(first_out.contains(line));
    }
    for line in expected_second.lines() {
        assert!(second_out.contains(line));
    }
    assert!(!first_out.contains("two"));
    // The same block renders the same way again: the state is only read.
    let mut again = String::new();
    render_block(&first, &ctx, &mut state, &mut again).expect("render");
    assert_eq!(again, first_out);
}

#[test]
fn documents_render_block_by_block() {
    let mut ctx = plain_ctx(40);
    ctx.capabilities.ansi = true;
    ctx.no_highlight = false;
    let a = vec![
        Block::Heading { level: 2, content: vec![text("Intro")] },
        Block::CodeBlock { lang: Some("rust".to_string()), code: "fn main() {}\n".to_string() },
    ];
    let b = vec![Block::Paragraph(vec![text("after the code")]), Block::Rule];
    let whole: Vec<Block> = a.iter().cloned().chain(b.iter().cloned()).collect();
    assert_eq!(whole.len(), 4);
    assert_eq!(whole[..2], a[..]);
    assert!(whole[3] == Block::Rule);
    let ra = render_document(&a, &ctx).expect("render");
    let rb = render_document(&b, &ctx).expect("render");
    let rw = render_document(&whole, &ctx).expect("render");
    assert_eq!(rw, format!("{ra}{rb}"));
    assert_eq!(render_document(&[], &ctx).expect("render"), "");
    assert_eq!(render_document(&whole, &ctx).expect("render"), rw);
}

#[test]
fn links_render_label_and_destination_plain() {
    let ctx = plain_ctx(80);
    let blocks = vec![Block::Paragraph(vec![
        text("see "),
        Inline::Link { text: vec![text("docs")], dest: "https://e.x".to_string(), title: None },
        Inline::FootnoteRef("1".to_string()),
    ])];
    let out = render_document(&blocks, &ctx).expect("render");
    assert_eq!(out, "see docs (https://e.x)[^1]\n\n");
}

#[test]
fn large_heading_payload_has_no_escape() {
    let mut ctx = plain_ctx(80);
    ctx.capabilities.kitty_text_size = true;
    ctx.capabilities.ansi = true;
    let blocks = vec![Block::Heading { level: 1, content: vec![text("a\u{1b}b\u{7}c")] }];
    let out = render_document(&blocks, &ctx).expect("render");
    assert_eq!(out, "\u{1b}]66;s=3;abc\u{7}\n\n\n\n");
}
