# mdlux

Renders Markdown for terminals: headings, paragraphs wrapped to the terminal width,
code blocks (highlighted with `syntect`), block quotes, lists, tables, footnotes, rules and
images, with ANSI styling and, in kitty, large headings (OSC 66), hyperlinks (OSC 8) and
inline images (the kitty graphics protocol).

The library under `src/` is verified with Verus: every function states in its contract
what it returns, over the mathematical models in its module (`Seq<char>` for text,
`BlockV`/`InlineV` for documents, `SpanV` for styled text), and the laws of the library
are proof functions next to the code they speak of.

- `markdown/`: the document model and the parser over `pulldown-cmark`'s events.
- `render/`: inline spans, line wrapping, tables, blocks and whole documents.
- `kitty/`: escape sequences of the kitty terminal protocols and feature detection.
- `highlight/`: code highlighting with `syntect`, and the Nord syntax theme as data.
- `theme/`: the built-in colour themes.
- `util/`: text helpers and display widths (`unicode-width`).

`app/main.rs` is the command line program: it parses arguments with `clap`, reads the
input and the bytes of the document's image files, asks the terminal for its width, and
prints what the library renders. Decoding images and encoding them as PNG (with `image`)
happens in the library, in `kitty/graphics.rs`.
