use mdlux::markdown::ast::{Alignment, Block, Inline};
use mdlux::markdown::parser::parse_markdown;

fn collect_block_text(blocks: &[Block]) -> String {
    let mut out = String::new();
    for block in blocks {
        match block {
            Block::Paragraph(inlines) | Block::Heading { content: inlines, .. } => {
                out.push_str(&collect_inline_text(inlines));
                out.push('\n');
            }
            Block::CodeBlock { code, .. } => {
                out.push_str(code);
                out.push('\n');
            }
            Block::BlockQuote(inner) => out.push_str(&collect_block_text(inner)),
            Block::List { items, .. } => {
                for item in items {
                    out.push_str(&collect_block_text(item));
                }
            }
            Block::Table { headers, rows, .. } => {
                for h in headers {
                    out.push_str(&collect_inline_text(h));
                }
                for row in rows {
                    for cell in row {
                        out.push_str(&collect_inline_text(cell));
                    }
                }
            }
            Block::Image { alt, path, .. } => {
                out.push_str(alt);
                out.push_str(path);
            }
            Block::FootnoteDefinition { name, content } => {
                out.push_str(name);
                out.push_str(&collect_block_text(content));
            }
            Block::Rule => {}
        }
    }
    out
}

fn collect_inline_text(inlines: &[Inline]) -> String {
    let mut out = String::new();
    for inline in inlines {
        match inline {
            Inline::Text(t) | Inline::Code(t) => out.push_str(t),
            Inline::Emph(i) | Inline::Strong(i) | Inline::Strike(i) => {
                out.push_str(&collect_inline_text(i))
            }
            Inline::Link { text, .. } => out.push_str(&collect_inline_text(text)),
            Inline::Image { alt, path, .. } => {
                out.push_str(alt);
                out.push_str(path);
            }
            Inline::FootnoteRef(name) => {
                out.push_str("[^");
                out.push_str(name);
                out.push(']');
            }
            Inline::SoftBreak | Inline::HardBreak => out.push(' '),
        }
    }
    out
}

#[test]
fn parses_heading() {
    let blocks = parse_markdown("# Hello");
    assert_eq!(blocks.len(), 1);
    match &blocks[0] {
        Block::Heading { level, content } => {
            assert_eq!(*level, 1);
            assert_eq!(content, &vec![Inline::Text("Hello".to_string())]);
        }
        _ => panic!("expected heading"),
    }
}

#[test]
fn parses_fenced_code() {
    let input = "```rust\nfn main() {}\n```\n";
    let blocks = parse_markdown(input);
    assert_eq!(blocks.len(), 1);
    match &blocks[0] {
        Block::CodeBlock { lang, code } => {
            assert_eq!(lang.as_deref(), Some("rust"));
            assert!(code.contains("fn main()"));
        }
        _ => panic!("expected code block"),
    }
}

#[test]
fn parses_four_tick_fence_with_inner_triple_ticks() {
    let input = "````md\n```ts\nconst x: number = 1\n```\n````\n";
    let blocks = parse_markdown(input);
    assert_eq!(blocks.len(), 1);
    match &blocks[0] {
        Block::CodeBlock { lang, code } => {
            assert_eq!(lang.as_deref(), Some("md"));
            assert!(code.contains("```ts"));
            assert!(code.contains("const x: number = 1"));
            assert!(code.contains("```"));
        }
        _ => panic!("expected code block"),
    }
}

#[test]
fn parses_table() {
    let input = "| A | B |\n| - | -: |\n| x | 1 |\n";
    let blocks = parse_markdown(input);
    assert_eq!(blocks.len(), 1);
    match &blocks[0] {
        Block::Table { headers, rows, aligns } => {
            assert_eq!(headers.len(), 2);
            assert_eq!(rows.len(), 1);
            assert_eq!(aligns.len(), 2);
            assert_eq!(aligns[0], Alignment::Unaligned);
            assert_eq!(aligns[1], Alignment::Right);
        }
        _ => panic!("expected table"),
    }
}

#[test]
fn parses_nested_list() {
    let input = "- a\n  - b\n";
    let blocks = parse_markdown(input);
    assert_eq!(blocks.len(), 1);
    match &blocks[0] {
        Block::List { items, .. } => {
            assert_eq!(items.len(), 1);
            assert!(!items[0].is_empty());
            let item_text = collect_block_text(&items[0]);
            assert!(item_text.contains("a"));
            assert!(item_text.contains("b"));
        }
        _ => panic!("expected list"),
    }
}

#[test]
fn parses_tight_ordered_list_text() {
    let input = "1. first item\n2. second item\n";
    let blocks = parse_markdown(input);
    assert_eq!(blocks.len(), 1);
    match &blocks[0] {
        Block::List { ordered, items, start } => {
            assert!(*ordered);
            assert_eq!(*start, Some(1));
            assert_eq!(items.len(), 2);
            let text1 = collect_block_text(&items[0]);
            let text2 = collect_block_text(&items[1]);
            assert!(text1.contains("first item"));
            assert!(text2.contains("second item"));
        }
        _ => panic!("expected ordered list"),
    }
}

#[test]
fn parses_task_list_markers() {
    let input = "- [x] done\n- [ ] todo\n";
    let blocks = parse_markdown(input);
    assert_eq!(blocks.len(), 1);
    match &blocks[0] {
        Block::List { items, .. } => {
            assert_eq!(items.len(), 2);
            let text1 = collect_block_text(&items[0]);
            let text2 = collect_block_text(&items[1]);
            assert!(text1.contains("[x]"));
            assert!(text1.contains("done"));
            assert!(text2.contains("[ ]"));
            assert!(text2.contains("todo"));
        }
        _ => panic!("expected list"),
    }
}

#[test]
fn parses_strikethrough_inline() {
    let blocks = parse_markdown("A ~~deprecated~~ flag");
    assert_eq!(blocks.len(), 1);
    match &blocks[0] {
        Block::Paragraph(inlines) => {
            let text = collect_inline_text(inlines);
            assert!(text.contains("deprecated"));
        }
        _ => panic!("expected paragraph"),
    }
}

#[test]
fn parses_footnotes() {
    let input = "Uses note[^a].\n\n[^a]: footnote body\n";
    let blocks = parse_markdown(input);
    assert_eq!(blocks.len(), 2);
    match &blocks[0] {
        Block::Paragraph(inlines) => {
            let text = collect_inline_text(inlines);
            assert!(text.contains("[^a]"));
        }
        _ => panic!("expected paragraph"),
    }
    match &blocks[1] {
        Block::FootnoteDefinition { name, content } => {
            assert_eq!(name, "a");
            let text = collect_block_text(content);
            assert!(text.contains("footnote body"));
        }
        _ => panic!("expected footnote definition"),
    }
}

#[test]
fn parses_image_only_paragraph_as_block_image() {
    let input = "![Logo](assets/logo.png)\n";
    let blocks = parse_markdown(input);
    assert_eq!(blocks.len(), 1);
    match &blocks[0] {
        Block::Image { alt, path, .. } => {
            assert_eq!(alt, "Logo");
            assert_eq!(path, "assets/logo.png");
        }
        _ => panic!("expected image block"),
    }
}

#[test]
fn parses_emphasis_links_and_breaks() {
    let blocks = parse_markdown("*a* **b** `c` [d](http://e)\nf");
    assert_eq!(blocks.len(), 1);
    match &blocks[0] {
        Block::Paragraph(inlines) => {
            assert!(matches!(&inlines[0], Inline::Emph(v) if v.len() == 1));
            assert!(inlines.iter().any(|i| matches!(i, Inline::Strong(_))));
            assert!(inlines.iter().any(|i| matches!(i, Inline::Code(c) if c == "c")));
            assert!(inlines
                .iter()
                .any(|i| matches!(i, Inline::Link { dest, .. } if dest == "http://e")));
            assert!(inlines.iter().any(|i| matches!(i, Inline::SoftBreak)));
            assert_eq!(Inline::plain_text(inlines), "a b c d f");
        }
        _ => panic!("expected paragraph"),
    }
}

#[test]
fn parses_quote_rule_and_indented_code() {
    let blocks = parse_markdown("> quoted\n\n---\n\n    indented\n");
    assert_eq!(blocks.len(), 3);
    assert!(matches!(&blocks[0], Block::BlockQuote(inner) if inner.len() == 1));
    assert!(matches!(&blocks[1], Block::Rule));
    match &blocks[2] {
        Block::CodeBlock { lang, code } => {
            assert!(lang.is_none());
            assert_eq!(code, "indented\n");
        }
        _ => panic!("expected code block"),
    }
}

#[test]
fn empty_input_has_no_blocks() {
    assert!(parse_markdown("").is_empty());
}
