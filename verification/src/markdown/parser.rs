use vstd::prelude::*;

use crate::markdown::ast::{
    bvs, clone_opt_string, clone_row, iv, ivs, ivs_text, items_view, lemma_ivs_index,
    lemma_text_of_view, opt_view, row_view, rows_view, Alignment, Block, BlockV, Inline, InlineV,
};
use crate::markdown::events::{
    cmark_events, cmark_parse, code_block_kind, event_parts, event_view, events_view, heading_to_u8, map_align, tag_end_kind, tag_parts,
    CodeKind, EventParts, MdEvent, MdTag, MdTagEnd, TagParts,
};
use crate::util::text::{
    chars_of, is_whitespace, is_ws, push_char, push_str, string_of, trim_start, trim_start_from,
};

use pulldown_cmark::{Event, Tag};

verus! {

/// Which end event closes the blocks being read.
#[derive(Clone, Copy, PartialEq, Eq, Structural)]
pub enum BlockEnd {
    Never,
    BlockQuote,
    Item,
    Table,
    FootnoteDefinition,
}

/// Which end event closes the inline elements being read.
#[derive(Clone, Copy, PartialEq, Eq, Structural)]
pub enum InlineEnd {
    Paragraph,
    Heading,
    Emphasis,
    Strong,
    Strikethrough,
    Link,
    Image,
    TableCell,
}

/// Whether `ev` closes blocks read up to `end`.
pub open spec fn is_block_end(ev: MdEvent, end: BlockEnd) -> bool {
    match end {
        BlockEnd::Never => false,
        BlockEnd::BlockQuote => ev == MdEvent::End(MdTagEnd::BlockQuote),
        BlockEnd::Item => ev == MdEvent::End(MdTagEnd::Item),
        BlockEnd::Table => ev == MdEvent::End(MdTagEnd::Table),
        BlockEnd::FootnoteDefinition => ev == MdEvent::End(MdTagEnd::FootnoteDefinition),
    }
}

/// The end tag an inline end stands for.
pub open spec fn inline_end_tag(end: InlineEnd) -> MdTagEnd {
    match end {
        InlineEnd::Paragraph => MdTagEnd::Paragraph,
        InlineEnd::Heading => MdTagEnd::Heading,
        InlineEnd::Emphasis => MdTagEnd::Emphasis,
        InlineEnd::Strong => MdTagEnd::Strong,
        InlineEnd::Strikethrough => MdTagEnd::Strikethrough,
        InlineEnd::Link => MdTagEnd::Link,
        InlineEnd::Image => MdTagEnd::Image,
        InlineEnd::TableCell => MdTagEnd::TableCell,
    }
}

/// Whether `ev` closes inline elements read up to `end`.
pub open spec fn is_inline_end(ev: MdEvent, end: InlineEnd) -> bool {
    ev == MdEvent::End(inline_end_tag(end))
}

/// Whether `ev` starts or ends a block-level element (and so ends a run of loose inlines).
pub open spec fn is_block_boundary(ev: MdEvent) -> bool {
    match ev {
        MdEvent::Rule => true,
        MdEvent::End(_) => true,
        MdEvent::Start(t) => match t {
            MdTag::Heading(_) | MdTag::Paragraph | MdTag::CodeBlock(_) | MdTag::BlockQuote
            | MdTag::List(_) | MdTag::Table(_) | MdTag::TableHead | MdTag::TableRow
            | MdTag::TableCell | MdTag::Item | MdTag::FootnoteDefinition(_) => true,
            _ => false,
        },
        _ => false,
    }
}

/// Whether `ev` begins inline content outside any paragraph (as in tight list items).
pub open spec fn is_inline_start(ev: MdEvent) -> bool {
    match ev {
        MdEvent::Text(_) | MdEvent::Code(_) | MdEvent::SoftBreak | MdEvent::HardBreak
        | MdEvent::TaskListMarker(_) | MdEvent::FootnoteReference(_) => true,
        MdEvent::Start(t) => match t {
            MdTag::Emphasis | MdTag::Strong | MdTag::Strikethrough | MdTag::Link { .. }
            | MdTag::Image { .. } => true,
            _ => false,
        },
        _ => false,
    }
}

/// `None` for an empty string.
pub open spec fn opt_nonempty(s: Seq<char>) -> Option<Seq<char>> {
    if s.len() == 0 {
        None
    } else {
        Some(s)
    }
}

/// The leading run of non-whitespace characters of `s`.
pub open spec fn first_word_from(s: Seq<char>) -> Seq<char>
    decreases s.len(),
{
    if s.len() == 0 || is_ws(s[0]) {
        seq![]
    } else {
        seq![s[0]] + first_word_from(s.drop_first())
    }
}

/// The first whitespace-separated word of `s`, if any.
pub open spec fn first_word(s: Seq<char>) -> Option<Seq<char>> {
    let t = trim_start(s);
    if t.len() == 0 {
        None
    } else {
        Some(first_word_from(t))
    }
}

/// The language of a code block: the first word of a fence's info string.
pub open spec fn lang_of(kind: CodeKind) -> Option<Seq<char>> {
    match kind {
        CodeKind::Fenced(info) => first_word(info@),
        CodeKind::Indented => None,
    }
}

/// A paragraph that holds only an image, as an image block.
pub open spec fn image_only(inl: Seq<InlineV>) -> Option<BlockV> {
    if inl.len() == 1 {
        match inl[0] {
            InlineV::Image { alt, path, title } => Some(BlockV::Image { alt, path, title }),
            _ => None,
        }
    } else {
        None
    }
}

/// A paragraph's inline elements as a block: an image block when they are one image.
pub open spec fn paragraph_block(inl: Seq<InlineV>) -> BlockV {
    match image_only(inl) {
        Some(b) => b,
        None => BlockV::Paragraph(inl),
    }
}

/// `item` (if any) in front of `rest`.
pub open spec fn prepend<T>(item: Option<T>, rest: Seq<T>) -> Seq<T> {
    match item {
        Some(x) => seq![x] + rest,
        None => rest,
    }
}

/// Blocks from event `i` up to the end event `end` (consumed) or the end of the events;
/// with the index after them.
pub open spec fn p_blocks(evs: Seq<MdEvent>, i: int, end: BlockEnd) -> (Seq<BlockV>, int)
    decreases evs.len() - i, 3int,
{
    if i < 0 || i >= evs.len() {
        (seq![], i)
    } else if is_block_end(evs[i], end) {
        (seq![], i + 1)
    } else {
        let (b, j) = p_block(evs, i, end);
        if i < j <= evs.len() {
            let (rest, k) = p_blocks(evs, j, end);
            (prepend(b, rest), k)
        } else {
            (prepend(b, seq![]), j)
        }
    }
}

/// The block (if any) that starts at event `i`, and the index after it.
pub open spec fn p_block(evs: Seq<MdEvent>, i: int, end: BlockEnd) -> (Option<BlockV>, int)
    decreases evs.len() - i, 2int,
{
    if i < 0 || i >= evs.len() {
        (None, i)
    } else if is_inline_start(evs[i]) {
        let (inl, j) = p_tight(evs, i, end);
        (
            if inl.len() == 0 {
                None
            } else {
                Some(paragraph_block(inl))
            },
            j,
        )
    } else {
        match evs[i] {
            MdEvent::Rule => (Some(BlockV::Rule), i + 1),
            MdEvent::Start(tag) => match tag {
                MdTag::Heading(level) => {
                    let (inl, j) = p_inlines(evs, i + 1, InlineEnd::Heading);
                    (Some(BlockV::Heading { level, content: inl }), j)
                },
                MdTag::Paragraph => {
                    let (inl, j) = p_inlines(evs, i + 1, InlineEnd::Paragraph);
                    (Some(paragraph_block(inl)), j)
                },
                MdTag::CodeBlock(kind) => {
                    let (code, j) = p_code(evs, i + 1);
                    (Some(BlockV::CodeBlock { lang: lang_of(kind), code }), j)
                },
                MdTag::BlockQuote => {
                    let (inner, j) = p_blocks(evs, i + 1, BlockEnd::BlockQuote);
                    (Some(BlockV::BlockQuote(inner)), j)
                },
                MdTag::List(start) => {
                    let (items, j) = p_list(evs, i + 1);
                    (Some(BlockV::List { ordered: start is Some, start, items }), j)
                },
                MdTag::Table(aligns) => {
                    let (h, rows, j) = p_table(evs, i + 1, seq![], seq![], seq![], false);
                    (Some(BlockV::Table { headers: h, rows, aligns: aligns@ }), j)
                },
                MdTag::FootnoteDefinition(name) => {
                    let (content, j) = p_blocks(evs, i + 1, BlockEnd::FootnoteDefinition);
                    (Some(BlockV::FootnoteDefinition { name: name@, content }), j)
                },
                _ => (None, i + 1),
            },
            _ => (None, i + 1),
        }
    }
}

/// Loose inline elements from event `i` up to the next block boundary or block end (neither
/// consumed).
pub open spec fn p_tight(evs: Seq<MdEvent>, i: int, end: BlockEnd) -> (Seq<InlineV>, int)
    decreases evs.len() - i, 1int,
{
    if i < 0 || i >= evs.len() {
        (seq![], i)
    } else if is_block_end(evs[i], end) || is_block_boundary(evs[i]) {
        (seq![], i)
    } else {
        let (x, j) = p_consume(evs, i);
        if i < j <= evs.len() {
            let (rest, k) = p_tight(evs, j, end);
            (prepend(x, rest), k)
        } else {
            (prepend(x, seq![]), j)
        }
    }
}

/// Inline elements from event `i` up to the end event `end` (consumed).
pub open spec fn p_inlines(evs: Seq<MdEvent>, i: int, end: InlineEnd) -> (Seq<InlineV>, int)
    decreases evs.len() - i, 1int,
{
    if i < 0 || i >= evs.len() {
        (seq![], i)
    } else if is_inline_end(evs[i], end) {
        (seq![], i + 1)
    } else {
        let (x, j) = p_consume(evs, i);
        if i < j <= evs.len() {
            let (rest, k) = p_inlines(evs, j, end);
            (prepend(x, rest), k)
        } else {
            (prepend(x, seq![]), j)
        }
    }
}

/// The inline element (if any) that starts at event `i`; an event that starts none is
/// skipped.
pub open spec fn p_consume(evs: Seq<MdEvent>, i: int) -> (Option<InlineV>, int)
    decreases evs.len() - i, 0int,
{
    if i < 0 || i >= evs.len() {
        (None, i + 1)
    } else {
        match evs[i] {
            MdEvent::Text(t) => (Some(InlineV::Text(t@)), i + 1),
            MdEvent::Code(t) => (Some(InlineV::Code(t@)), i + 1),
            MdEvent::SoftBreak => (Some(InlineV::SoftBreak), i + 1),
            MdEvent::HardBreak => (Some(InlineV::HardBreak), i + 1),
            MdEvent::TaskListMarker(done) => (
                Some(
                    InlineV::Text(
                        if done {
                            seq!['[', 'x', ']', ' ']
                        } else {
                            seq!['[', ' ', ']', ' ']
                        },
                    ),
                ),
                i + 1,
            ),
            MdEvent::FootnoteReference(n) => (Some(InlineV::FootnoteRef(n@)), i + 1),
            MdEvent::Start(tag) => match tag {
                MdTag::Emphasis => {
                    let (inner, j) = p_inlines(evs, i + 1, InlineEnd::Emphasis);
                    (Some(InlineV::Emph(inner)), j)
                },
                MdTag::Strong => {
                    let (inner, j) = p_inlines(evs, i + 1, InlineEnd::Strong);
                    (Some(InlineV::Strong(inner)), j)
                },
                MdTag::Strikethrough => {
                    let (inner, j) = p_inlines(evs, i + 1, InlineEnd::Strikethrough);
                    (Some(InlineV::Strike(inner)), j)
                },
                MdTag::Link { dest, title } => {
                    let (text, j) = p_inlines(evs, i + 1, InlineEnd::Link);
                    (Some(InlineV::Link { text, dest: dest@, title: opt_nonempty(title@) }), j)
                },
                MdTag::Image { dest, title } => {
                    let (text, j) = p_inlines(evs, i + 1, InlineEnd::Image);
                    (
                        Some(
                            InlineV::Image {
                                alt: ivs_text(text),
                                path: dest@,
                                title: opt_nonempty(title@),
                            },
                        ),
                        j,
                    )
                },
                _ => (None, i + 1),
            },
            _ => (None, i + 1),
        }
    }
}

/// The text of a code block from event `i` up to its end event (consumed): text and code
/// pieces, breaks as newlines.
pub open spec fn p_code(evs: Seq<MdEvent>, i: int) -> (Seq<char>, int)
    decreases evs.len() - i, 0int,
{
    if i < 0 || i >= evs.len() {
        (seq![], i)
    } else if evs[i] == MdEvent::End(MdTagEnd::CodeBlock) {
        (seq![], i + 1)
    } else {
        let piece = match evs[i] {
            MdEvent::Text(t) => t@,
            MdEvent::Code(t) => t@,
            MdEvent::SoftBreak => seq!['\n'],
            MdEvent::HardBreak => seq!['\n'],
            _ => seq![],
        };
        let (rest, k) = p_code(evs, i + 1);
        (piece + rest, k)
    }
}

/// The items of a list from event `i` up to its end event (consumed).
pub open spec fn p_list(evs: Seq<MdEvent>, i: int) -> (Seq<Seq<BlockV>>, int)
    decreases evs.len() - i, 1int,
{
    if i < 0 || i >= evs.len() {
        (seq![], i)
    } else if evs[i] == MdEvent::End(MdTagEnd::List) {
        (seq![], i + 1)
    } else if evs[i] == MdEvent::Start(MdTag::Item) {
        let (item, j) = p_blocks(evs, i + 1, BlockEnd::Item);
        if i < j <= evs.len() {
            let (rest, k) = p_list(evs, j);
            (seq![item] + rest, k)
        } else {
            (seq![item], j)
        }
    } else {
        p_list(evs, i + 1)
    }
}

/// A finished table: with no header row, the first body row becomes the header.
pub open spec fn table_done(h: Seq<Seq<InlineV>>, rows: Seq<Seq<Seq<InlineV>>>) -> (
    Seq<Seq<InlineV>>,
    Seq<Seq<Seq<InlineV>>>,
) {
    if h.len() == 0 && rows.len() > 0 {
        (rows[0], rows.drop_first())
    } else {
        (h, rows)
    }
}

/// The header and rows of a table from event `i` up to its end event (consumed), given the
/// header `h`, rows `rows`, current row `cur` and whether the header is being read.
pub open spec fn p_table(
    evs: Seq<MdEvent>,
    i: int,
    h: Seq<Seq<InlineV>>,
    rows: Seq<Seq<Seq<InlineV>>>,
    cur: Seq<Seq<InlineV>>,
    in_head: bool,
) -> (Seq<Seq<InlineV>>, Seq<Seq<Seq<InlineV>>>, int)
    decreases evs.len() - i, 1int,
{
    if i < 0 || i >= evs.len() {
        let (h2, r2) = table_done(h, rows);
        (h2, r2, i)
    } else if is_block_end(evs[i], BlockEnd::Table) {
        let (h2, r2) = table_done(h, rows);
        (h2, r2, i + 1)
    } else if evs[i] == MdEvent::Start(MdTag::TableHead) {
        p_table(evs, i + 1, seq![], rows, seq![], true)
    } else if evs[i] == MdEvent::End(MdTagEnd::TableHead) {
        p_table(evs, i + 1, h, rows, cur, false)
    } else if evs[i] == MdEvent::Start(MdTag::TableRow) {
        p_table(evs, i + 1, h, rows, seq![], in_head)
    } else if evs[i] == MdEvent::End(MdTagEnd::TableRow) {
        p_table(
            evs,
            i + 1,
            h,
            if cur.len() > 0 {
                rows.push(cur)
            } else {
                rows
            },
            cur,
            in_head,
        )
    } else if evs[i] == MdEvent::Start(MdTag::TableCell) {
        let (inl, j) = p_inlines(evs, i + 1, InlineEnd::TableCell);
        let h2 = if in_head {
            h.push(inl)
        } else {
            h
        };
        let cur2 = if in_head {
            cur
        } else {
            cur.push(inl)
        };
        if i < j <= evs.len() {
            p_table(evs, j, h2, rows, cur2, in_head)
        } else {
            let (h3, r3) = table_done(h2, rows);
            (h3, r3, j)
        }
    } else {
        p_table(evs, i + 1, h, rows, cur, in_head)
    }
}

/// The document that a sequence of events describes.
pub open spec fn document(evs: Seq<MdEvent>) -> Seq<BlockV> {
    p_blocks(evs, 0, BlockEnd::Never).0
}

proof fn lemma_same_at(e1: Seq<MdEvent>, e2: Seq<MdEvent>, i: int)
    requires
        events_view(e1) == events_view(e2),
    ensures
        e1.len() == e2.len(),
        0 <= i < e1.len() ==> event_view(e1[i]) == event_view(e2[i]),
{
    assert(e1.len() == events_view(e1).len());
    assert(e2.len() == events_view(e2).len());
    if 0 <= i < e1.len() {
        assert(events_view(e1)[i] == event_view(e1[i]));
        assert(events_view(e2)[i] == event_view(e2[i]));
    }
}

proof fn lemma_blocks_same(e1: Seq<MdEvent>, e2: Seq<MdEvent>, i: int, end: BlockEnd)
    requires
        events_view(e1) == events_view(e2),
    ensures
        p_blocks(e1, i, end) == p_blocks(e2, i, end),
    decreases e1.len() - i, 3int,
{
    lemma_same_at(e1, e2, i);
    if 0 <= i < e1.len() {
        lemma_block_same(e1, e2, i, end);
        let j = p_block(e1, i, end).1;
        if i < j <= e1.len() {
            lemma_blocks_same(e1, e2, j, end);
        }
    }
}

#[verifier::rlimit(40)]
proof fn lemma_block_same(e1: Seq<MdEvent>, e2: Seq<MdEvent>, i: int, end: BlockEnd)
    requires
        events_view(e1) == events_view(e2),
    ensures
        p_block(e1, i, end) == p_block(e2, i, end),
    decreases e1.len() - i, 2int,
{
    lemma_same_at(e1, e2, i);
    if 0 <= i < e1.len() {
        lemma_tight_same(e1, e2, i, end);
        lemma_inlines_same(e1, e2, i + 1, InlineEnd::Heading);
        lemma_inlines_same(e1, e2, i + 1, InlineEnd::Paragraph);
        lemma_code_same(e1, e2, i + 1);
        lemma_blocks_same(e1, e2, i + 1, BlockEnd::BlockQuote);
        lemma_blocks_same(e1, e2, i + 1, BlockEnd::FootnoteDefinition);
        lemma_list_same(e1, e2, i + 1);
        lemma_table_same(e1, e2, i + 1, seq![], seq![], seq![], false);
    }
}

proof fn lemma_tight_same(e1: Seq<MdEvent>, e2: Seq<MdEvent>, i: int, end: BlockEnd)
    requires
        events_view(e1) == events_view(e2),
    ensures
        p_tight(e1, i, end) == p_tight(e2, i, end),
    decreases e1.len() - i, 1int,
{
    lemma_same_at(e1, e2, i);
    if 0 <= i < e1.len() {
        lemma_consume_same(e1, e2, i);
        let j = p_consume(e1, i).1;
        if i < j <= e1.len() {
            lemma_tight_same(e1, e2, j, end);
        }
    }
}

proof fn lemma_inlines_same(e1: Seq<MdEvent>, e2: Seq<MdEvent>, i: int, end: InlineEnd)
    requires
        events_view(e1) == events_view(e2),
    ensures
        p_inlines(e1, i, end) == p_inlines(e2, i, end),
    decreases e1.len() - i, 1int,
{
    lemma_same_at(e1, e2, i);
    if 0 <= i < e1.len() {
        lemma_consume_same(e1, e2, i);
        let j = p_consume(e1, i).1;
        if i < j <= e1.len() {
            lemma_inlines_same(e1, e2, j, end);
        }
    }
}

proof fn lemma_consume_same(e1: Seq<MdEvent>, e2: Seq<MdEvent>, i: int)
    requires
        events_view(e1) == events_view(e2),
    ensures
        p_consume(e1, i) == p_consume(e2, i),
    decreases e1.len() - i, 0int,
{
    lemma_same_at(e1, e2, i);
    if 0 <= i < e1.len() {
        lemma_inlines_same(e1, e2, i + 1, InlineEnd::Emphasis);
        lemma_inlines_same(e1, e2, i + 1, InlineEnd::Strong);
        lemma_inlines_same(e1, e2, i + 1, InlineEnd::Strikethrough);
        lemma_inlines_same(e1, e2, i + 1, InlineEnd::Link);
        lemma_inlines_same(e1, e2, i + 1, InlineEnd::Image);
    }
}

proof fn lemma_code_same(e1: Seq<MdEvent>, e2: Seq<MdEvent>, i: int)
    requires
        events_view(e1) == events_view(e2),
    ensures
        p_code(e1, i) == p_code(e2, i),
    decreases e1.len() - i, 0int,
{
    lemma_same_at(e1, e2, i);
    if 0 <= i < e1.len() {
        lemma_code_same(e1, e2, i + 1);
    }
}

proof fn lemma_list_same(e1: Seq<MdEvent>, e2: Seq<MdEvent>, i: int)
    requires
        events_view(e1) == events_view(e2),
    ensures
        p_list(e1, i) == p_list(e2, i),
    decreases e1.len() - i, 1int,
{
    lemma_same_at(e1, e2, i);
    if 0 <= i < e1.len() {
        lemma_blocks_same(e1, e2, i + 1, BlockEnd::Item);
        let j = p_blocks(e1, i + 1, BlockEnd::Item).1;
        if i < j <= e1.len() {
            lemma_list_same(e1, e2, j);
        }
        lemma_list_same(e1, e2, i + 1);
    }
}

#[verifier::rlimit(40)]
proof fn lemma_table_same(
    e1: Seq<MdEvent>,
    e2: Seq<MdEvent>,
    i: int,
    h: Seq<Seq<InlineV>>,
    rows: Seq<Seq<Seq<InlineV>>>,
    cur: Seq<Seq<InlineV>>,
    in_head: bool,
)
    requires
        events_view(e1) == events_view(e2),
    ensures
        p_table(e1, i, h, rows, cur, in_head) == p_table(e2, i, h, rows, cur, in_head),
    decreases e1.len() - i, 1int,
{
    lemma_same_at(e1, e2, i);
    if 0 <= i < e1.len() {
        let ev = e1[i];
        if is_block_end(ev, BlockEnd::Table) {
        } else if ev == MdEvent::Start(MdTag::TableHead) {
            lemma_table_same(e1, e2, i + 1, seq![], rows, seq![], true);
        } else if ev == MdEvent::End(MdTagEnd::TableHead) {
            lemma_table_same(e1, e2, i + 1, h, rows, cur, false);
        } else if ev == MdEvent::Start(MdTag::TableRow) {
            lemma_table_same(e1, e2, i + 1, h, rows, seq![], in_head);
        } else if ev == MdEvent::End(MdTagEnd::TableRow) {
            let rows2 = if cur.len() > 0 {
                rows.push(cur)
            } else {
                rows
            };
            lemma_table_same(e1, e2, i + 1, h, rows2, cur, in_head);
        } else if ev == MdEvent::Start(MdTag::TableCell) {
            lemma_inlines_same(e1, e2, i + 1, InlineEnd::TableCell);
            let (inl, j) = p_inlines(e1, i + 1, InlineEnd::TableCell);
            let h2 = if in_head {
                h.push(inl)
            } else {
                h
            };
            let cur2 = if in_head {
                cur
            } else {
                cur.push(inl)
            };
            if i < j <= e1.len() {
                lemma_table_same(e1, e2, j, h2, rows, cur2, in_head);
            }
        } else {
            lemma_table_same(e1, e2, i + 1, h, rows, cur, in_head);
        }
    }
}

/// Parsing is determined by the input: any two documents parsed from one text have the
/// same model.
pub proof fn lemma_parse_determined(b1: Seq<Block>, b2: Seq<Block>, input: Seq<char>)
    requires
        parsed_from(b1, input),
        parsed_from(b2, input),
    ensures
        bvs(b1) == bvs(b2),
{
    let e1 = choose|evs: Seq<MdEvent>|
        events_view(evs) == cmark_parse(input) && bvs(b1) == #[trigger] document(evs);
    let e2 = choose|evs: Seq<MdEvent>|
        events_view(evs) == cmark_parse(input) && bvs(b2) == #[trigger] document(evs);
    lemma_blocks_same(e1, e2, 0, BlockEnd::Never);
}

/// A strikethrough holds what stands between its start and its end, and nothing after its
/// end: a start, one text and the matching end read as a `Strike` of that text, and reading
/// goes on right after the end.
pub proof fn lemma_strike_holds_its_text(evs: Seq<MdEvent>, i: int, x: String)
    requires
        0 <= i,
        i + 2 < evs.len(),
        evs[i] == MdEvent::Start(MdTag::Strikethrough),
        evs[i + 1] == MdEvent::Text(x),
        evs[i + 2] == MdEvent::End(MdTagEnd::Strikethrough),
    ensures
        p_consume(evs, i) == (Some(InlineV::Strike(seq![InlineV::Text(x@)])), i + 3),
{
    assert(p_inlines(evs, i + 3 - 1, InlineEnd::Strikethrough) == (Seq::<InlineV>::empty(), i + 3));
    assert(p_consume(evs, i + 1) == (Some(InlineV::Text(x@)), i + 2));
    assert(prepend(Some(InlineV::Text(x@)), Seq::<InlineV>::empty()) =~= seq![InlineV::Text(x@)]);
    assert(p_inlines(evs, i + 1, InlineEnd::Strikethrough) == (seq![InlineV::Text(x@)], i + 3));
}

/// Emphasis and strong emphasis hold what stands between their start and their end, like a
/// strikethrough: a start, one text and the matching end read as an `Emph` (or `Strong`) of
/// that text, and reading goes on right after the end.
pub proof fn lemma_emphasis_holds_its_text(evs: Seq<MdEvent>, i: int, x: String)
    requires
        0 <= i,
        i + 2 < evs.len(),
        evs[i + 1] == MdEvent::Text(x),
        (evs[i] == MdEvent::Start(MdTag::Emphasis) && evs[i + 2] == MdEvent::End(
            MdTagEnd::Emphasis,
        )) || (evs[i] == MdEvent::Start(MdTag::Strong) && evs[i + 2] == MdEvent::End(
            MdTagEnd::Strong,
        )),
    ensures
        evs[i] == MdEvent::Start(MdTag::Emphasis) ==> p_consume(evs, i) == (
            Some(InlineV::Emph(seq![InlineV::Text(x@)])),
            i + 3,
        ),
        evs[i] == MdEvent::Start(MdTag::Strong) ==> p_consume(evs, i) == (
            Some(InlineV::Strong(seq![InlineV::Text(x@)])),
            i + 3,
        ),
{
    let end = if evs[i] == MdEvent::Start(MdTag::Emphasis) {
        InlineEnd::Emphasis
    } else {
        InlineEnd::Strong
    };
    assert(p_inlines(evs, i + 2, end) == (Seq::<InlineV>::empty(), i + 3));
    assert(p_consume(evs, i + 1) == (Some(InlineV::Text(x@)), i + 2));
    assert(prepend(Some(InlineV::Text(x@)), Seq::<InlineV>::empty()) =~= seq![InlineV::Text(x@)]);
    assert(p_inlines(evs, i + 1, end) == (seq![InlineV::Text(x@)], i + 3));
}

/// The model of an optional block.
pub open spec fn opt_bv(b: Option<Block>) -> Option<BlockV> {
    match b {
        Some(x) => Some(crate::markdown::ast::bv(x)),
        None => None,
    }
}

/// The model of an optional inline element.
pub open spec fn opt_iv(x: Option<Inline>) -> Option<InlineV> {
    match x {
        Some(y) => Some(iv(y)),
        None => None,
    }
}

fn block_end_at(ev: &MdEvent, end: BlockEnd) -> (r: bool)
    ensures
        r == is_block_end(*ev, end),
{
    match (ev, end) {
        (MdEvent::End(MdTagEnd::BlockQuote), BlockEnd::BlockQuote) => true,
        (MdEvent::End(MdTagEnd::Item), BlockEnd::Item) => true,
        (MdEvent::End(MdTagEnd::Table), BlockEnd::Table) => true,
        (MdEvent::End(MdTagEnd::FootnoteDefinition), BlockEnd::FootnoteDefinition) => true,
        _ => false,
    }
}

fn inline_end_at(ev: &MdEvent, end: InlineEnd) -> (r: bool)
    ensures
        r == is_inline_end(*ev, end),
{
    match ev {
        MdEvent::End(e) => *e == match end {
            InlineEnd::Paragraph => MdTagEnd::Paragraph,
            InlineEnd::Heading => MdTagEnd::Heading,
            InlineEnd::Emphasis => MdTagEnd::Emphasis,
            InlineEnd::Strong => MdTagEnd::Strong,
            InlineEnd::Strikethrough => MdTagEnd::Strikethrough,
            InlineEnd::Link => MdTagEnd::Link,
            InlineEnd::Image => MdTagEnd::Image,
            InlineEnd::TableCell => MdTagEnd::TableCell,
        },
        _ => false,
    }
}

fn boundary_at(ev: &MdEvent) -> (r: bool)
    ensures
        r == is_block_boundary(*ev),
{
    match ev {
        MdEvent::Rule => true,
        MdEvent::End(_) => true,
        MdEvent::Start(t) => match t {
            MdTag::Heading(_) | MdTag::Paragraph | MdTag::CodeBlock(_) | MdTag::BlockQuote
            | MdTag::List(_) | MdTag::Table(_) | MdTag::TableHead | MdTag::TableRow
            | MdTag::TableCell | MdTag::Item | MdTag::FootnoteDefinition(_) => true,
            _ => false,
        },
        _ => false,
    }
}

fn inline_start_at(ev: &MdEvent) -> (r: bool)
    ensures
        r == is_inline_start(*ev),
{
    match ev {
        MdEvent::Text(_) | MdEvent::Code(_) | MdEvent::SoftBreak | MdEvent::HardBreak
        | MdEvent::TaskListMarker(_) | MdEvent::FootnoteReference(_) => true,
        MdEvent::Start(t) => match t {
            MdTag::Emphasis | MdTag::Strong | MdTag::Strikethrough | MdTag::Link { .. }
            | MdTag::Image { .. } => true,
            _ => false,
        },
        _ => false,
    }
}

/// `None` for an empty title.
fn to_opt(input: &String) -> (r: Option<String>)
    ensures
        opt_view(r) == opt_nonempty(input@),
{
    if input.as_str().is_empty() {
        None
    } else {
        Some(input.clone())
    }
}

/// The language of a code block (see `lang_of`).
fn extract_lang(kind: &CodeKind) -> (r: Option<String>)
    ensures
        opt_view(r) == lang_of(*kind),
{
    match kind {
        CodeKind::Indented => None,
        CodeKind::Fenced(info) => {
            let cs = chars_of(info.as_str());
            let n = cs.len();
            let s = trim_start_from(&cs, 0);
            assert(cs@.subrange(0, n as int) == cs@);
            if s == n {
                return None;
            }
            let mut k = s;
            while k < n && !is_whitespace(cs[k])
                invariant
                    s <= k <= n,
                    n == cs@.len(),
                    first_word_from(cs@.subrange(s as int, n as int)) == cs@.subrange(
                        s as int,
                        k as int,
                    ) + first_word_from(cs@.subrange(k as int, n as int)),
                decreases n - k,
            {
                assert(cs@.subrange(k as int, n as int).drop_first() == cs@.subrange(
                    k + 1,
                    n as int,
                ));
                assert(cs@.subrange(s as int, k + 1) == cs@.subrange(s as int, k as int).push(
                    cs@[k as int],
                ));
                assert(cs@.subrange(s as int, k as int) + first_word_from(
                    cs@.subrange(k as int, n as int),
                ) =~= cs@.subrange(s as int, k + 1) + first_word_from(
                    cs@.subrange(k + 1, n as int),
                ));
                k = k + 1;
            }
            assert(first_word_from(cs@.subrange(k as int, n as int)) =~= Seq::<char>::empty());
            assert(cs@.subrange(s as int, k as int) =~= cs@.subrange(s as int, k as int) + Seq::<
                char,
            >::empty());
            Some(string_of(&cs[s..k]))
        },
    }
}

/// A paragraph that holds only an image, as an image block.
fn image_only_paragraph(inlines: &Vec<Inline>) -> (r: Option<Block>)
    ensures
        opt_bv(r) == image_only(ivs(inlines@)),
{
    proof {
        lemma_ivs_index(inlines@);
    }
    if inlines.len() != 1 {
        return None;
    }
    match &inlines[0] {
        Inline::Image { alt, path, title } => Some(
            Block::Image { alt: alt.clone(), path: path.clone(), title: clone_opt_string(title) },
        ),
        _ => None,
    }
}

/// The block a paragraph's inline elements make (see `paragraph_block`).
fn paragraph_of(inlines: Vec<Inline>) -> (r: Block)
    ensures
        crate::markdown::ast::bv(r) == paragraph_block(ivs(inlines@)),
{
    match image_only_paragraph(&inlines) {
        Some(b) => b,
        None => Block::Paragraph(inlines),
    }
}

proof fn lemma_bvs_push(s: Seq<Block>, b: Block)
    ensures
        bvs(s.push(b)) == bvs(s).push(crate::markdown::ast::bv(b)),
{
    assert(s.push(b).drop_last() == s);
}

proof fn lemma_ivs_push(s: Seq<Inline>, b: Inline)
    ensures
        ivs(s.push(b)) == ivs(s).push(iv(b)),
{
    assert(s.push(b).drop_last() == s);
}

/// Blocks up to the end event `end` (see `p_blocks`).
fn parse_blocks_until(evs: &Vec<MdEvent>, i: usize, end: BlockEnd) -> (r: (Vec<Block>, usize))
    requires
        i <= evs@.len(),
    ensures
        bvs(r.0@) == p_blocks(evs@, i as int, end).0,
        r.1 == p_blocks(evs@, i as int, end).1,
        i <= r.1 <= evs@.len(),
    decreases evs@.len() - i, 3int,
{
    let mut blocks: Vec<Block> = Vec::new();
    let mut idx = i;
    loop
        invariant
            i <= idx <= evs@.len(),
            bvs(blocks@) + p_blocks(evs@, idx as int, end).0 == p_blocks(evs@, i as int, end).0,
            p_blocks(evs@, idx as int, end).1 == p_blocks(evs@, i as int, end).1,
        decreases evs@.len() - idx,
    {
        if idx >= evs.len() {
            assert(bvs(blocks@) + Seq::<BlockV>::empty() =~= bvs(blocks@));
            return (blocks, idx);
        }
        if block_end_at(&evs[idx], end) {
            assert(bvs(blocks@) + Seq::<BlockV>::empty() =~= bvs(blocks@));
            return (blocks, idx + 1);
        }
        let (b, j) = parse_block(evs, idx, end);
        let ghost old_blocks = blocks@;
        match b {
            Some(x) => {
                proof {
                    lemma_bvs_push(blocks@, x);
                }
                blocks.push(x);
            },
            None => {},
        }
        assert(bvs(blocks@) + p_blocks(evs@, j as int, end).0 =~= bvs(old_blocks) + p_blocks(
            evs@,
            idx as int,
            end,
        ).0);
        idx = j;
    }
}

/// The block (if any) starting at event `i` (see `p_block`).
fn parse_block(evs: &Vec<MdEvent>, i: usize, end: BlockEnd) -> (r: (Option<Block>, usize))
    requires
        i < evs@.len(),
    ensures
        opt_bv(r.0) == p_block(evs@, i as int, end).0,
        r.1 == p_block(evs@, i as int, end).1,
        i < r.1 <= evs@.len(),
    decreases evs@.len() - i, 2int,
{
    let _n = evs.len();
    let ev = &evs[i];
    if inline_start_at(ev) {
        let (inlines, j) = parse_tight_inlines(evs, i, end);
        if inlines.len() == 0 {
            return (None, j);
        }
        return (Some(paragraph_of(inlines)), j);
    }
    match ev {
        MdEvent::Rule => (Some(Block::Rule), i + 1),
        MdEvent::Start(tag) => match tag {
            MdTag::Heading(level) => {
                let (content, j) = parse_inlines_until(evs, i + 1, InlineEnd::Heading);
                (Some(Block::Heading { level: *level, content }), j)
            },
            MdTag::Paragraph => {
                let (inlines, j) = parse_inlines_until(evs, i + 1, InlineEnd::Paragraph);
                (Some(paragraph_of(inlines)), j)
            },
            MdTag::CodeBlock(kind) => {
                let lang = extract_lang(kind);
                let (code, j) = collect_code_text(evs, i + 1);
                (Some(Block::CodeBlock { lang, code }), j)
            },
            MdTag::BlockQuote => {
                let (inner, j) = parse_blocks_until(evs, i + 1, BlockEnd::BlockQuote);
                (Some(Block::BlockQuote(inner)), j)
            },
            MdTag::List(start) => {
                let (items, j) = parse_list(evs, i + 1);
                (Some(Block::List { ordered: start.is_some(), start: *start, items }), j)
            },
            MdTag::Table(aligns) => {
                let (headers, rows, j) = parse_table(evs, i + 1);
                (Some(Block::Table { headers, rows, aligns: copy_aligns(aligns) }), j)
            },
            MdTag::FootnoteDefinition(name) => {
                let (content, j) = parse_blocks_until(evs, i + 1, BlockEnd::FootnoteDefinition);
                (Some(Block::FootnoteDefinition { name: name.clone(), content }), j)
            },
            _ => (None, i + 1),
        },
        _ => (None, i + 1),
    }
}

fn copy_aligns(a: &Vec<Alignment>) -> (r: Vec<Alignment>)
    ensures
        r@ == a@,
{
    let mut out: Vec<Alignment> = Vec::new();
    for k in 0..a.len()
        invariant
            out@ == a@.take(k as int),
    {
        out.push(a[k]);
        assert(out@ =~= a@.take(k + 1));
    }
    assert(a@.take(a@.len() as int) == a@);
    out
}

/// Loose inline elements up to a block boundary (see `p_tight`).
fn parse_tight_inlines(evs: &Vec<MdEvent>, i: usize, end: BlockEnd) -> (r: (Vec<Inline>, usize))
    requires
        i <= evs@.len(),
    ensures
        ivs(r.0@) == p_tight(evs@, i as int, end).0,
        r.1 == p_tight(evs@, i as int, end).1,
        i <= r.1 <= evs@.len(),
        i < evs@.len() && !is_block_end(evs@[i as int], end) && !is_block_boundary(evs@[i as int])
            ==> i < r.1,
    decreases evs@.len() - i, 1int,
{
    let mut out: Vec<Inline> = Vec::new();
    let mut idx = i;
    loop
        invariant
            i <= idx <= evs@.len(),
            ivs(out@) + p_tight(evs@, idx as int, end).0 == p_tight(evs@, i as int, end).0,
            p_tight(evs@, idx as int, end).1 == p_tight(evs@, i as int, end).1,
        decreases evs@.len() - idx,
    {
        if idx >= evs.len() {
            assert(ivs(out@) + Seq::<InlineV>::empty() =~= ivs(out@));
            return (out, idx);
        }
        if block_end_at(&evs[idx], end) || boundary_at(&evs[idx]) {
            assert(ivs(out@) + Seq::<InlineV>::empty() =~= ivs(out@));
            return (out, idx);
        }
        let (x, j) = consume_inline_event(evs, idx);
        let ghost old_out = out@;
        match x {
            Some(y) => {
                proof {
                    lemma_ivs_push(out@, y);
                }
                out.push(y);
            },
            None => {},
        }
        assert(ivs(out@) + p_tight(evs@, j as int, end).0 =~= ivs(old_out) + p_tight(
            evs@,
            idx as int,
            end,
        ).0);
        idx = j;
    }
}

/// Inline elements up to the end event `end` (see `p_inlines`).
fn parse_inlines_until(evs: &Vec<MdEvent>, i: usize, end: InlineEnd) -> (r: (Vec<Inline>, usize))
    requires
        i <= evs@.len(),
    ensures
        ivs(r.0@) == p_inlines(evs@, i as int, end).0,
        r.1 == p_inlines(evs@, i as int, end).1,
        i <= r.1 <= evs@.len(),
    decreases evs@.len() - i, 1int,
{
    let mut out: Vec<Inline> = Vec::new();
    let mut idx = i;
    loop
        invariant
            i <= idx <= evs@.len(),
            ivs(out@) + p_inlines(evs@, idx as int, end).0 == p_inlines(evs@, i as int, end).0,
            p_inlines(evs@, idx as int, end).1 == p_inlines(evs@, i as int, end).1,
        decreases evs@.len() - idx,
    {
        if idx >= evs.len() {
            assert(ivs(out@) + Seq::<InlineV>::empty() =~= ivs(out@));
            return (out, idx);
        }
        if inline_end_at(&evs[idx], end) {
            assert(ivs(out@) + Seq::<InlineV>::empty() =~= ivs(out@));
            return (out, idx + 1);
        }
        let (x, j) = consume_inline_event(evs, idx);
        let ghost old_out = out@;
        match x {
            Some(y) => {
                proof {
                    lemma_ivs_push(out@, y);
                }
                out.push(y);
            },
            None => {},
        }
        assert(ivs(out@) + p_inlines(evs@, j as int, end).0 =~= ivs(old_out) + p_inlines(
            evs@,
            idx as int,
            end,
        ).0);
        idx = j;
    }
}

/// The inline element (if any) starting at event `i` (see `p_consume`).
fn consume_inline_event(evs: &Vec<MdEvent>, i: usize) -> (r: (Option<Inline>, usize))
    requires
        i < evs@.len(),
    ensures
        opt_iv(r.0) == p_consume(evs@, i as int).0,
        r.1 == p_consume(evs@, i as int).1,
        i < r.1 <= evs@.len(),
    decreases evs@.len() - i, 0int,
{
    let _n = evs.len();
    match &evs[i] {
        MdEvent::Text(t) => (Some(Inline::Text(t.clone())), i + 1),
        MdEvent::Code(t) => (Some(Inline::Code(t.clone())), i + 1),
        MdEvent::SoftBreak => (Some(Inline::SoftBreak), i + 1),
        MdEvent::HardBreak => (Some(Inline::HardBreak), i + 1),
        MdEvent::TaskListMarker(done) => {
            let mut m = String::new();
            push_char(&mut m, '[');
            push_char(
                &mut m,
                if *done {
                    'x'
                } else {
                    ' '
                },
            );
            push_char(&mut m, ']');
            push_char(&mut m, ' ');
            assert(m@ =~= if *done {
                seq!['[', 'x', ']', ' ']
            } else {
                seq!['[', ' ', ']', ' ']
            });
            (Some(Inline::Text(m)), i + 1)
        },
        MdEvent::FootnoteReference(n) => (Some(Inline::FootnoteRef(n.clone())), i + 1),
        MdEvent::Start(tag) => match tag {
            MdTag::Emphasis => {
                let (inner, j) = parse_inlines_until(evs, i + 1, InlineEnd::Emphasis);
                (Some(Inline::Emph(inner)), j)
            },
            MdTag::Strong => {
                let (inner, j) = parse_inlines_until(evs, i + 1, InlineEnd::Strong);
                (Some(Inline::Strong(inner)), j)
            },
            MdTag::Strikethrough => {
                let (inner, j) = parse_inlines_until(evs, i + 1, InlineEnd::Strikethrough);
                (Some(Inline::Strike(inner)), j)
            },
            MdTag::Link { dest, title } => {
                let d = dest.clone();
                let t = to_opt(title);
                let (text, j) = parse_inlines_until(evs, i + 1, InlineEnd::Link);
                (Some(Inline::Link { text, dest: d, title: t }), j)
            },
            MdTag::Image { dest, title } => {
                let p = dest.clone();
                let t = to_opt(title);
                let (text, j) = parse_inlines_until(evs, i + 1, InlineEnd::Image);
                let alt = Inline::plain_text(text.as_slice());
                proof {
                    lemma_text_of_view(text@);
                }
                (Some(Inline::Image { alt, path: p, title: t }), j)
            },
            _ => (None, i + 1),
        },
        _ => (None, i + 1),
    }
}

/// The text of a code block (see `p_code`).
fn collect_code_text(evs: &Vec<MdEvent>, i: usize) -> (r: (String, usize))
    requires
        i <= evs@.len(),
    ensures
        r.0@ == p_code(evs@, i as int).0,
        r.1 == p_code(evs@, i as int).1,
        i <= r.1 <= evs@.len(),
{
    let mut out = String::new();
    let mut idx = i;
    loop
        invariant
            i <= idx <= evs@.len(),
            out@ + p_code(evs@, idx as int).0 == p_code(evs@, i as int).0,
            p_code(evs@, idx as int).1 == p_code(evs@, i as int).1,
        decreases evs@.len() - idx,
    {
        if idx >= evs.len() {
            assert(out@ + Seq::<char>::empty() =~= out@);
            return (out, idx);
        }
        let ghost old_out = out@;
        match &evs[idx] {
            MdEvent::End(MdTagEnd::CodeBlock) => {
                assert(out@ + Seq::<char>::empty() =~= out@);
                return (out, idx + 1);
            },
            MdEvent::Text(t) => push_str(&mut out, t.as_str()),
            MdEvent::Code(t) => push_str(&mut out, t.as_str()),
            MdEvent::SoftBreak => push_char(&mut out, '\n'),
            MdEvent::HardBreak => push_char(&mut out, '\n'),
            _ => {},
        }
        assert(out@ + p_code(evs@, idx + 1).0 =~= old_out + p_code(evs@, idx as int).0);
        idx = idx + 1;
    }
}

proof fn lemma_items_push(s: Seq<Vec<Block>>, b: Vec<Block>)
    ensures
        items_view(s.push(b)) == items_view(s).push(bvs(b@)),
{
    assert(s.push(b).drop_last() == s);
}

/// The items of a list (see `p_list`).
fn parse_list(evs: &Vec<MdEvent>, i: usize) -> (r: (Vec<Vec<Block>>, usize))
    requires
        i <= evs@.len(),
    ensures
        items_view(r.0@) == p_list(evs@, i as int).0,
        r.1 == p_list(evs@, i as int).1,
        i <= r.1 <= evs@.len(),
    decreases evs@.len() - i, 1int,
{
    let mut items: Vec<Vec<Block>> = Vec::new();
    let mut idx = i;
    loop
        invariant
            i <= idx <= evs@.len(),
            items_view(items@) + p_list(evs@, idx as int).0 == p_list(evs@, i as int).0,
            p_list(evs@, idx as int).1 == p_list(evs@, i as int).1,
        decreases evs@.len() - idx,
    {
        if idx >= evs.len() {
            assert(items_view(items@) + Seq::<Seq<BlockV>>::empty() =~= items_view(items@));
            return (items, idx);
        }
        let ghost old_items = items@;
        match &evs[idx] {
            MdEvent::End(MdTagEnd::List) => {
                assert(items_view(items@) + Seq::<Seq<BlockV>>::empty() =~= items_view(items@));
                return (items, idx + 1);
            },
            MdEvent::Start(MdTag::Item) => {
                let (item, j) = parse_blocks_until(evs, idx + 1, BlockEnd::Item);
                proof {
                    lemma_items_push(items@, item);
                }
                items.push(item);
                assert(items_view(items@) + p_list(evs@, j as int).0 =~= items_view(old_items)
                    + p_list(evs@, idx as int).0);
                idx = j;
            },
            _ => {
                idx = idx + 1;
            },
        }
    }
}

proof fn lemma_row_push(s: Seq<Vec<Inline>>, b: Vec<Inline>)
    ensures
        row_view(s.push(b)) == row_view(s).push(ivs(b@)),
{
    assert(row_view(s.push(b)) =~= row_view(s).push(ivs(b@)));
}

proof fn lemma_rows_push(s: Seq<Vec<Vec<Inline>>>, b: Vec<Vec<Inline>>)
    ensures
        rows_view(s.push(b)) == rows_view(s).push(row_view(b@)),
{
    assert(rows_view(s.push(b)) =~= rows_view(s).push(row_view(b@)));
}

/// The header and rows of a table (see `p_table`).
fn parse_table(evs: &Vec<MdEvent>, i: usize) -> (r: (Vec<Vec<Inline>>, Vec<Vec<Vec<Inline>>>, usize))
    requires
        i <= evs@.len(),
    ensures
        row_view(r.0@) == p_table(evs@, i as int, seq![], seq![], seq![], false).0,
        rows_view(r.1@) == p_table(evs@, i as int, seq![], seq![], seq![], false).1,
        r.2 == p_table(evs@, i as int, seq![], seq![], seq![], false).2,
        i <= r.2 <= evs@.len(),
    decreases evs@.len() - i, 1int,
{
    let mut headers: Vec<Vec<Inline>> = Vec::new();
    let mut rows: Vec<Vec<Vec<Inline>>> = Vec::new();
    let mut current_row: Vec<Vec<Inline>> = Vec::new();
    let mut in_head = false;
    let mut idx = i;
    let ghost goal = p_table(evs@, i as int, seq![], seq![], seq![], false);
    assert(row_view(headers@) =~= Seq::<Seq<InlineV>>::empty());
    assert(rows_view(rows@) =~= Seq::<Seq<Seq<InlineV>>>::empty());
    assert(row_view(current_row@) =~= Seq::<Seq<InlineV>>::empty());
    loop
        invariant
            i <= idx <= evs@.len(),
            p_table(
                evs@,
                idx as int,
                row_view(headers@),
                rows_view(rows@),
                row_view(current_row@),
                in_head,
            ) == goal,
            goal == p_table(evs@, i as int, seq![], seq![], seq![], false),
        decreases evs@.len() - idx,
    {
        if idx >= evs.len() || block_end_at(&evs[idx], BlockEnd::Table) {
            let next = if idx >= evs.len() {
                idx
            } else {
                idx + 1
            };
            if headers.len() == 0 && rows.len() > 0 {
                let ghost rv = rows_view(rows@);
                headers = rows.remove(0);
                assert(rows_view(rows@) =~= rv.drop_first());
            }
            return (headers, rows, next);
        }
        match &evs[idx] {
            MdEvent::Start(MdTag::TableHead) => {
                in_head = true;
                headers = Vec::new();
                current_row = Vec::new();
                assert(row_view(headers@) =~= Seq::<Seq<InlineV>>::empty());
                assert(row_view(current_row@) =~= Seq::<Seq<InlineV>>::empty());
                idx = idx + 1;
            },
            MdEvent::End(MdTagEnd::TableHead) => {
                in_head = false;
                idx = idx + 1;
            },
            MdEvent::Start(MdTag::TableRow) => {
                current_row = Vec::new();
                assert(row_view(current_row@) =~= Seq::<Seq<InlineV>>::empty());
                idx = idx + 1;
            },
            MdEvent::End(MdTagEnd::TableRow) => {
                idx = idx + 1;
                if current_row.len() > 0 {
                    let c = clone_row(&current_row);
                    proof {
                        lemma_rows_push(rows@, c);
                    }
                    rows.push(c);
                }
            },
            MdEvent::Start(MdTag::TableCell) => {
                let (inlines, j) = parse_inlines_until(evs, idx + 1, InlineEnd::TableCell);
                if in_head {
                    proof {
                        lemma_row_push(headers@, inlines);
                    }
                    headers.push(inlines);
                } else {
                    proof {
                        lemma_row_push(current_row@, inlines);
                    }
                    current_row.push(inlines);
                }
                idx = j;
            },
            _ => {
                idx = idx + 1;
            },
        }
    }
}

/// Reads the blocks of a document from its events.
pub fn parse_events(events: &Vec<MdEvent>) -> (r: Vec<Block>)
    ensures
        bvs(r@) == document(events@),
{
    parse_blocks_until(events, 0, BlockEnd::Never).0
}

fn convert_aligns(a: &Vec<pulldown_cmark::Alignment>) -> (r: Vec<Alignment>)
    ensures
        r@.len() == a@.len(),
{
    let mut out: Vec<Alignment> = Vec::new();
    for k in 0..a.len()
        invariant
            out@.len() == k,
    {
        out.push(map_align(&a[k]));
    }
    out
}

/// A start tag's parts in the document model, variant for variant: the model tag is of the
/// same kind as the parser's tag (a strikethrough stays a strikethrough, an emphasis an
/// emphasis, ...), and the fields that are plain values are carried over.
fn tag_of_parts(p: TagParts<'_>) -> (r: MdTag)
    ensures
        p is Paragraph <==> r is Paragraph,
        p is Heading <==> r is Heading,
        p is BlockQuote <==> r is BlockQuote,
        p is CodeBlock <==> r is CodeBlock,
        p is List <==> r is List,
        p is Item <==> r is Item,
        p is FootnoteDefinition <==> r is FootnoteDefinition,
        p is Table <==> r is Table,
        p is TableHead <==> r is TableHead,
        p is TableRow <==> r is TableRow,
        p is TableCell <==> r is TableCell,
        p is Emphasis <==> r is Emphasis,
        p is Strong <==> r is Strong,
        p is Strikethrough <==> r is Strikethrough,
        p is Link <==> r is Link,
        p is Image <==> r is Image,
        p is Other <==> r is Other,
        r matches MdTag::Heading(l) ==> 1 <= l <= 6,
        p matches TagParts::List(s) ==> r == MdTag::List(s),
        p matches TagParts::FootnoteDefinition(n) ==> r matches MdTag::FootnoteDefinition(m)
            && m@ == n@,
        p matches TagParts::Table(a) ==> r matches MdTag::Table(b) && b@.len() == a@.len(),
        p matches TagParts::Link(d, t) ==> r matches MdTag::Link { dest, title } && dest@ == d@
            && title@ == t@,
        p matches TagParts::Image(d, t) ==> r matches MdTag::Image { dest, title } && dest@ == d@
            && title@ == t@,
{
    match p {
        TagParts::Paragraph => MdTag::Paragraph,
        TagParts::Heading(l) => MdTag::Heading(heading_to_u8(l)),
        TagParts::BlockQuote => MdTag::BlockQuote,
        TagParts::CodeBlock(k) => MdTag::CodeBlock(code_block_kind(k)),
        TagParts::List(s) => MdTag::List(s),
        TagParts::Item => MdTag::Item,
        TagParts::FootnoteDefinition(n) => MdTag::FootnoteDefinition(n),
        TagParts::Table(a) => MdTag::Table(convert_aligns(&a)),
        TagParts::TableHead => MdTag::TableHead,
        TagParts::TableRow => MdTag::TableRow,
        TagParts::TableCell => MdTag::TableCell,
        TagParts::Emphasis => MdTag::Emphasis,
        TagParts::Strong => MdTag::Strong,
        TagParts::Strikethrough => MdTag::Strikethrough,
        TagParts::Link(dest, title) => MdTag::Link { dest, title },
        TagParts::Image(dest, title) => MdTag::Image { dest, title },
        TagParts::Other => MdTag::Other,
    }
}

/// A `pulldown_cmark` start tag in the document model (see `tag_of_parts`). Its fields come
/// from the outside value and are not stated, but a heading's level is always 1 to 6.
fn convert_tag(t: Tag<'_>) -> (r: MdTag)
    ensures
        r matches MdTag::Heading(l) ==> 1 <= l <= 6,
{
    tag_of_parts(tag_parts(t))
}

/// An event's parts in the document model, variant for variant: the model event is of the
/// same kind, its texts carried over.
fn event_of_parts(p: EventParts<'_>) -> (r: MdEvent)
    ensures
        p is Start <==> r is Start,
        p is End <==> r is End,
        p is Text <==> r is Text,
        p is Code <==> r is Code,
        p is FootnoteReference <==> r is FootnoteReference,
        p is SoftBreak <==> r is SoftBreak,
        p is HardBreak <==> r is HardBreak,
        p is Rule <==> r is Rule,
        p is TaskListMarker <==> r is TaskListMarker,
        p is Other <==> r is Other,
        r matches MdEvent::Start(MdTag::Heading(l)) ==> 1 <= l <= 6,
        p matches EventParts::Text(s) ==> r matches MdEvent::Text(t) && t@ == s@,
        p matches EventParts::Code(s) ==> r matches MdEvent::Code(t) && t@ == s@,
        p matches EventParts::FootnoteReference(s) ==> r matches MdEvent::FootnoteReference(t)
            && t@ == s@,
        p matches EventParts::TaskListMarker(b) ==> r == MdEvent::TaskListMarker(b),
{
    match p {
        EventParts::Start(t) => MdEvent::Start(convert_tag(t)),
        EventParts::End(e) => MdEvent::End(tag_end_kind(e)),
        EventParts::Text(s) => MdEvent::Text(s),
        EventParts::Code(s) => MdEvent::Code(s),
        EventParts::FootnoteReference(s) => MdEvent::FootnoteReference(s),
        EventParts::SoftBreak => MdEvent::SoftBreak,
        EventParts::HardBreak => MdEvent::HardBreak,
        EventParts::Rule => MdEvent::Rule,
        EventParts::TaskListMarker(b) => MdEvent::TaskListMarker(b),
        EventParts::Other => MdEvent::Other,
    }
}

/// A `pulldown_cmark` event in the document model (see `event_of_parts`). Its fields come
/// from the outside value and are not stated, but a heading starts with a level of 1 to 6.
pub(crate) fn convert_event(ev: &Event<'_>) -> (r: MdEvent)
    ensures
        r matches MdEvent::Start(MdTag::Heading(l)) ==> 1 <= l <= 6,
{
    event_of_parts(event_parts(ev))
}

/// `blocks` are the document that the events `pulldown_cmark` reads from `input` describe.
pub open spec fn parsed_from(blocks: Seq<Block>, input: Seq<char>) -> bool {
    exists|evs: Seq<MdEvent>|
        events_view(evs) == cmark_parse(input) && bvs(blocks) == #[trigger] document(evs)
}

/// Parses a Markdown document into blocks: the document that the events
/// `pulldown_cmark` reads from `input` describe.
pub fn parse_markdown(input: &str) -> (r: Vec<Block>)
    ensures
        parsed_from(r@, input@),
{
    let events = cmark_events(input);
    parse_events(&events)
}

} // verus!
