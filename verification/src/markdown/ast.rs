use vstd::prelude::*;

use crate::util::text::{push_char, push_str};

verus! {

/// Column alignment of a table.
#[derive(Debug, Clone, Copy, PartialEq, Eq, Structural)]
pub enum Alignment {
    Left,
    Center,
    Right,
    Unaligned,
}

/// A block-level element of a Markdown document.
#[derive(Debug, PartialEq, Eq)]
pub enum Block {
    Heading { level: u8, content: Vec<Inline> },
    Paragraph(Vec<Inline>),
    CodeBlock { lang: Option<String>, code: String },
    BlockQuote(Vec<Block>),
    List { ordered: bool, start: Option<u64>, items: Vec<Vec<Block>> },
    Table { headers: Vec<Vec<Inline>>, rows: Vec<Vec<Vec<Inline>>>, aligns: Vec<Alignment> },
    FootnoteDefinition { name: String, content: Vec<Block> },
    Rule,
    Image { alt: String, path: String, title: Option<String> },
}

/// An inline element of a Markdown document.
#[derive(Debug, PartialEq, Eq)]
pub enum Inline {
    Text(String),
    Emph(Vec<Inline>),
    Strong(Vec<Inline>),
    Strike(Vec<Inline>),
    Code(String),
    Link { text: Vec<Inline>, dest: String, title: Option<String> },
    Image { alt: String, path: String, title: Option<String> },
    FootnoteRef(String),
    SoftBreak,
    HardBreak,
}

/// The text a reader sees of one inline element, without any styling: link labels without
/// destinations, image alt texts, footnote references as `[^name]`, breaks as a space.
pub open spec fn inline_text(i: Inline) -> Seq<char>
    decreases i,
{
    match i {
        Inline::Text(t) => t@,
        Inline::Code(t) => t@,
        Inline::Emph(v) => inlines_text(v@),
        Inline::Strong(v) => inlines_text(v@),
        Inline::Strike(v) => inlines_text(v@),
        Inline::Link { text, .. } => inlines_text(text@),
        Inline::Image { alt, .. } => alt@,
        Inline::FootnoteRef(name) => seq!['[', '^'] + name@ + seq![']'],
        Inline::SoftBreak => seq![' '],
        Inline::HardBreak => seq![' '],
    }
}

/// The plain text of a sequence of inline elements: their texts, one after another.
pub open spec fn inlines_text(s: Seq<Inline>) -> Seq<char>
    decreases s,
{
    if s.len() == 0 {
        seq![]
    } else {
        inlines_text(s.drop_last()) + inline_text(s.last())
    }
}

/// Plain text distributes over concatenation: the plain text of two runs of inline
/// elements is the first run's followed by the second's, and no elements have no text.
pub proof fn lemma_plain_text_concat(a: Seq<Inline>, b: Seq<Inline>)
    ensures
        inlines_text(a + b) == inlines_text(a) + inlines_text(b),
        inlines_text(seq![]) == Seq::<char>::empty(),
    decreases b.len(),
{
    if b.len() == 0 {
        assert(a + b =~= a);
        assert(inlines_text(a) + Seq::<char>::empty() =~= inlines_text(a));
    } else {
        lemma_plain_text_concat(a, b.drop_last());
        assert((a + b).drop_last() =~= a + b.drop_last());
        assert((a + b).last() == b.last());
        assert(inlines_text(a + b) =~= inlines_text(a) + inlines_text(b));
    }
}

impl Inline {
    /// The plain text of `inlines` (see `inlines_text`).
    pub fn plain_text(inlines: &[Self]) -> (r: String)
        ensures
            r@ == inlines_text(inlines@),
    {
        let mut out = String::new();
        push_plain_text(&mut out, inlines);
        out
    }
}

/// Appends the plain text of `inlines` to `out`.
pub fn push_plain_text(out: &mut String, inlines: &[Inline])
    ensures
        final(out)@ == old(out)@ + inlines_text(inlines@),
    decreases inlines@,
{
    let ghost start = out@;
    for i in 0..inlines.len()
        invariant
            out@ == start + inlines_text(inlines@.take(i as int)),
    {
        assert(inlines@.take(i + 1).drop_last() == inlines@.take(i as int));
        let ghost before = out@;
        match &inlines[i] {
            Inline::Text(t) => push_str(out, t.as_str()),
            Inline::Code(t) => push_str(out, t.as_str()),
            Inline::Emph(v) => push_plain_text(out, v.as_slice()),
            Inline::Strong(v) => push_plain_text(out, v.as_slice()),
            Inline::Strike(v) => push_plain_text(out, v.as_slice()),
            Inline::Link { text, .. } => push_plain_text(out, text.as_slice()),
            Inline::Image { alt, .. } => push_str(out, alt.as_str()),
            Inline::FootnoteRef(name) => {
                push_char(out, '[');
                push_char(out, '^');
                push_str(out, name.as_str());
                push_char(out, ']');
            },
            Inline::SoftBreak => push_char(out, ' '),
            Inline::HardBreak => push_char(out, ' '),
        }
        assert(out@ == before + inline_text(inlines@[i as int]));
    }
    assert(inlines@.take(inlines@.len() as int) == inlines@);
}

/// The mathematical model of an inline element: strings as character sequences.
pub enum InlineV {
    Text(Seq<char>),
    Emph(Seq<InlineV>),
    Strong(Seq<InlineV>),
    Strike(Seq<InlineV>),
    Code(Seq<char>),
    Link { text: Seq<InlineV>, dest: Seq<char>, title: Option<Seq<char>> },
    Image { alt: Seq<char>, path: Seq<char>, title: Option<Seq<char>> },
    FootnoteRef(Seq<char>),
    SoftBreak,
    HardBreak,
}

/// The mathematical model of a block element.
pub enum BlockV {
    Heading { level: u8, content: Seq<InlineV> },
    Paragraph(Seq<InlineV>),
    CodeBlock { lang: Option<Seq<char>>, code: Seq<char> },
    BlockQuote(Seq<BlockV>),
    List { ordered: bool, start: Option<u64>, items: Seq<Seq<BlockV>> },
    Table { headers: Seq<Seq<InlineV>>, rows: Seq<Seq<Seq<InlineV>>>, aligns: Seq<Alignment> },
    FootnoteDefinition { name: Seq<char>, content: Seq<BlockV> },
    Rule,
    Image { alt: Seq<char>, path: Seq<char>, title: Option<Seq<char>> },
}

/// The model of an optional string.
pub open spec fn opt_view(s: Option<String>) -> Option<Seq<char>> {
    match s {
        Some(t) => Some(t@),
        None => None,
    }
}

/// The model of an inline element.
pub open spec fn iv(i: Inline) -> InlineV
    decreases i,
{
    match i {
        Inline::Text(t) => InlineV::Text(t@),
        Inline::Emph(v) => InlineV::Emph(ivs(v@)),
        Inline::Strong(v) => InlineV::Strong(ivs(v@)),
        Inline::Strike(v) => InlineV::Strike(ivs(v@)),
        Inline::Code(t) => InlineV::Code(t@),
        Inline::Link { text, dest, title } => InlineV::Link {
            text: ivs(text@),
            dest: dest@,
            title: opt_view(title),
        },
        Inline::Image { alt, path, title } => InlineV::Image {
            alt: alt@,
            path: path@,
            title: opt_view(title),
        },
        Inline::FootnoteRef(n) => InlineV::FootnoteRef(n@),
        Inline::SoftBreak => InlineV::SoftBreak,
        Inline::HardBreak => InlineV::HardBreak,
    }
}

/// The model of a sequence of inline elements, element by element.
pub open spec fn ivs(s: Seq<Inline>) -> Seq<InlineV>
    decreases s,
{
    if s.len() == 0 {
        seq![]
    } else {
        ivs(s.drop_last()).push(iv(s.last()))
    }
}

/// The model of a table row (a sequence of cells).
pub open spec fn row_view(r: Seq<Vec<Inline>>) -> Seq<Seq<InlineV>> {
    r.map_values(|c: Vec<Inline>| ivs(c@))
}

/// The model of a sequence of rows.
pub open spec fn rows_view(r: Seq<Vec<Vec<Inline>>>) -> Seq<Seq<Seq<InlineV>>> {
    r.map_values(|row: Vec<Vec<Inline>>| row_view(row@))
}

/// The model of a block element.
pub open spec fn bv(b: Block) -> BlockV
    decreases b,
{
    match b {
        Block::Heading { level, content } => BlockV::Heading { level, content: ivs(content@) },
        Block::Paragraph(v) => BlockV::Paragraph(ivs(v@)),
        Block::CodeBlock { lang, code } => BlockV::CodeBlock { lang: opt_view(lang), code: code@ },
        Block::BlockQuote(v) => BlockV::BlockQuote(bvs(v@)),
        Block::List { ordered, start, items } => BlockV::List {
            ordered,
            start,
            items: items_view(items@),
        },
        Block::Table { headers, rows, aligns } => BlockV::Table {
            headers: row_view(headers@),
            rows: rows_view(rows@),
            aligns: aligns@,
        },
        Block::FootnoteDefinition { name, content } => BlockV::FootnoteDefinition {
            name: name@,
            content: bvs(content@),
        },
        Block::Rule => BlockV::Rule,
        Block::Image { alt, path, title } => BlockV::Image {
            alt: alt@,
            path: path@,
            title: opt_view(title),
        },
    }
}

/// The model of a sequence of blocks.
pub open spec fn bvs(s: Seq<Block>) -> Seq<BlockV>
    decreases s,
{
    if s.len() == 0 {
        seq![]
    } else {
        bvs(s.drop_last()).push(bv(s.last()))
    }
}

/// The model of the items of a list.
pub open spec fn items_view(s: Seq<Vec<Block>>) -> Seq<Seq<BlockV>>
    decreases s,
{
    if s.len() == 0 {
        seq![]
    } else {
        items_view(s.drop_last()).push(bvs(s.last()@))
    }
}

/// A copy of an optional string.
pub fn clone_opt_string(s: &Option<String>) -> (r: Option<String>)
    ensures
        r == *s,
{
    match s {
        Some(t) => Some(t.clone()),
        None => None,
    }
}

/// A copy of an inline element.
pub fn clone_inline(i: &Inline) -> (r: Inline)
    ensures
        iv(r) == iv(*i),
    decreases i,
{
    match i {
        Inline::Text(t) => Inline::Text(t.clone()),
        Inline::Emph(v) => Inline::Emph(clone_inlines(v)),
        Inline::Strong(v) => Inline::Strong(clone_inlines(v)),
        Inline::Strike(v) => Inline::Strike(clone_inlines(v)),
        Inline::Code(t) => Inline::Code(t.clone()),
        Inline::Link { text, dest, title } => Inline::Link {
            text: clone_inlines(text),
            dest: dest.clone(),
            title: clone_opt_string(title),
        },
        Inline::Image { alt, path, title } => Inline::Image {
            alt: alt.clone(),
            path: path.clone(),
            title: clone_opt_string(title),
        },
        Inline::FootnoteRef(n) => Inline::FootnoteRef(n.clone()),
        Inline::SoftBreak => Inline::SoftBreak,
        Inline::HardBreak => Inline::HardBreak,
    }
}

/// A copy of a sequence of inline elements.
pub fn clone_inlines(v: &Vec<Inline>) -> (r: Vec<Inline>)
    ensures
        ivs(r@) == ivs(v@),
    decreases v,
{
    let mut out: Vec<Inline> = Vec::new();
    for i in 0..v.len()
        invariant
            ivs(out@) == ivs(v@.take(i as int)),
            out@.len() == i,
    {
        let c = clone_inline(&v[i]);
        let ghost before = out@;
        out.push(c);
        assert(out@.drop_last() == before);
        assert(v@.take(i + 1).drop_last() == v@.take(i as int));
    }
    assert(v@.take(v@.len() as int) == v@);
    out
}

/// A copy of a table row.
pub fn clone_row(v: &Vec<Vec<Inline>>) -> (r: Vec<Vec<Inline>>)
    ensures
        row_view(r@) == row_view(v@),
{
    let mut out: Vec<Vec<Inline>> = Vec::new();
    for i in 0..v.len()
        invariant
            forall|k: int| 0 <= k < i ==> #[trigger] ivs(out@[k]@) == ivs(v@[k]@),
            out@.len() == i,
    {
        let c = clone_inlines(&v[i]);
        out.push(c);
    }
    assert(row_view(out@) =~= row_view(v@));
    out
}

/// A copy of a table's rows.
pub fn clone_rows(v: &Vec<Vec<Vec<Inline>>>) -> (r: Vec<Vec<Vec<Inline>>>)
    ensures
        rows_view(r@) == rows_view(v@),
{
    let mut out: Vec<Vec<Vec<Inline>>> = Vec::new();
    for i in 0..v.len()
        invariant
            forall|k: int| 0 <= k < i ==> #[trigger] row_view(out@[k]@) == row_view(v@[k]@),
            out@.len() == i,
    {
        let c = clone_row(&v[i]);
        out.push(c);
    }
    assert(rows_view(out@) =~= rows_view(v@));
    out
}

/// A copy of a table's column alignments.
pub fn clone_aligns(v: &Vec<Alignment>) -> (r: Vec<Alignment>)
    ensures
        r@ == v@,
{
    let mut out: Vec<Alignment> = Vec::new();
    for i in 0..v.len()
        invariant
            out@ == v@.take(i as int),
    {
        out.push(v[i]);
        assert(out@ =~= v@.take(i + 1));
    }
    assert(v@.take(v@.len() as int) =~= v@);
    out
}

/// A copy of a block element.
pub fn clone_block(b: &Block) -> (r: Block)
    ensures
        bv(r) == bv(*b),
    decreases b,
{
    match b {
        Block::Heading { level, content } => Block::Heading {
            level: *level,
            content: clone_inlines(content),
        },
        Block::Paragraph(v) => Block::Paragraph(clone_inlines(v)),
        Block::CodeBlock { lang, code } => Block::CodeBlock {
            lang: clone_opt_string(lang),
            code: code.clone(),
        },
        Block::BlockQuote(v) => Block::BlockQuote(clone_blocks(v)),
        Block::List { ordered, start, items } => Block::List {
            ordered: *ordered,
            start: *start,
            items: clone_items(items),
        },
        Block::Table { headers, rows, aligns } => Block::Table {
            headers: clone_row(headers),
            rows: clone_rows(rows),
            aligns: clone_aligns(aligns),
        },
        Block::FootnoteDefinition { name, content } => Block::FootnoteDefinition {
            name: name.clone(),
            content: clone_blocks(content),
        },
        Block::Rule => Block::Rule,
        Block::Image { alt, path, title } => Block::Image {
            alt: alt.clone(),
            path: path.clone(),
            title: clone_opt_string(title),
        },
    }
}

/// A copy of a sequence of blocks.
pub fn clone_blocks(v: &Vec<Block>) -> (r: Vec<Block>)
    ensures
        bvs(r@) == bvs(v@),
    decreases v,
{
    let mut out: Vec<Block> = Vec::new();
    for i in 0..v.len()
        invariant
            bvs(out@) == bvs(v@.take(i as int)),
            out@.len() == i,
    {
        let c = clone_block(&v[i]);
        let ghost before = out@;
        out.push(c);
        assert(out@.drop_last() == before);
        assert(v@.take(i + 1).drop_last() == v@.take(i as int));
    }
    assert(v@.take(v@.len() as int) == v@);
    out
}

/// A copy of a list's items.
pub fn clone_items(v: &Vec<Vec<Block>>) -> (r: Vec<Vec<Block>>)
    ensures
        items_view(r@) == items_view(v@),
    decreases v,
{
    let mut out: Vec<Vec<Block>> = Vec::new();
    for i in 0..v.len()
        invariant
            items_view(out@) == items_view(v@.take(i as int)),
            out@.len() == i,
    {
        let c = clone_blocks(&v[i]);
        let ghost before = out@;
        out.push(c);
        assert(out@.drop_last() == before);
        assert(v@.take(i + 1).drop_last() == v@.take(i as int));
    }
    assert(v@.take(v@.len() as int) == v@);
    out
}

impl Clone for Inline {
    /// A copy of the element (see `clone_inline`).
    fn clone(&self) -> (r: Self)
        ensures
            iv(r) == iv(*self),
    {
        clone_inline(self)
    }
}

impl Clone for Block {
    /// A copy of the element (see `clone_block`).
    fn clone(&self) -> (r: Self)
        ensures
            bv(r) == bv(*self),
    {
        clone_block(self)
    }
}

/// The plain text of a modelled inline element (as `inline_text`).
pub open spec fn iv_text(i: InlineV) -> Seq<char>
    decreases i,
{
    match i {
        InlineV::Text(t) => t,
        InlineV::Code(t) => t,
        InlineV::Emph(v) => ivs_text(v),
        InlineV::Strong(v) => ivs_text(v),
        InlineV::Strike(v) => ivs_text(v),
        InlineV::Link { text, .. } => ivs_text(text),
        InlineV::Image { alt, .. } => alt,
        InlineV::FootnoteRef(name) => seq!['[', '^'] + name + seq![']'],
        InlineV::SoftBreak => seq![' '],
        InlineV::HardBreak => seq![' '],
    }
}

/// The plain text of a sequence of modelled inline elements.
pub open spec fn ivs_text(s: Seq<InlineV>) -> Seq<char>
    decreases s,
{
    if s.len() == 0 {
        seq![]
    } else {
        ivs_text(s.drop_last()) + iv_text(s.last())
    }
}

/// Taking the plain text commutes with taking the model.
pub proof fn lemma_text_of_view(s: Seq<Inline>)
    ensures
        inlines_text(s) == ivs_text(ivs(s)),
    decreases s,
{
    if s.len() > 0 {
        lemma_text_of_view(s.drop_last());
        lemma_text_of_view_one(s.last());
        assert(ivs(s).drop_last() == ivs(s.drop_last()));
    }
}

proof fn lemma_text_of_view_one(i: Inline)
    ensures
        inline_text(i) == iv_text(iv(i)),
    decreases i,
{
    match i {
        Inline::Emph(v) => lemma_text_of_view(v@),
        Inline::Strong(v) => lemma_text_of_view(v@),
        Inline::Strike(v) => lemma_text_of_view(v@),
        Inline::Link { text, .. } => lemma_text_of_view(text@),
        _ => {},
    }
}

/// The model of a sequence is the sequence of the models.
pub proof fn lemma_ivs_index(s: Seq<Inline>)
    ensures
        ivs(s).len() == s.len(),
        forall|k: int| 0 <= k < s.len() ==> #[trigger] ivs(s)[k] == iv(s[k]),
    decreases s.len(),
{
    if s.len() > 0 {
        lemma_ivs_index(s.drop_last());
    }
}

} // verus!
