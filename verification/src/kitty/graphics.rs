use vstd::prelude::*;

use base64::engine::general_purpose::STANDARD;
use base64::Engine;
use image::ImageFormat;
use std::io::Cursor;

use crate::util::text::{decimal, push_char, push_decimal, push_str};

verus! {

/// Limits on the cells an image may take.
#[derive(Debug, Clone, Copy)]
pub struct KittyImageOptions {
    pub max_width_cells: u16,
    pub max_height_cells: Option<u16>,
}

/// An image read from disk and encoded as PNG, for the kitty graphics protocol.
#[derive(Debug, Clone)]
pub struct LoadedImage {
    /// The path as the document wrote it.
    pub path: String,
    /// The PNG encoding of the image.
    pub png: Vec<u8>,
    pub width: u32,
    pub height: u32,
}

/// The base64 digit for a value below 64 (standard alphabet).
pub open spec fn b64_digit(v: int) -> char {
    if v < 26 {
        (65 + v) as char
    } else if v < 52 {
        (97 + v - 26) as char
    } else if v < 62 {
        (48 + v - 52) as char
    } else if v == 62 {
        '+'
    } else {
        '/'
    }
}

/// Standard base64 (RFC 4648 alphabet, `=` padding) of `b`.
pub open spec fn base64(b: Seq<u8>) -> Seq<char>
    decreases b.len(),
{
    let b0 = if b.len() > 0 { b[0] as int } else { 0 };
    let b1 = if b.len() > 1 { b[1] as int } else { 0 };
    let b2 = if b.len() > 2 { b[2] as int } else { 0 };
    if b.len() == 0 {
        seq![]
    } else if b.len() == 1 {
        seq![b64_digit(b0 / 4), b64_digit((b0 % 4) * 16), '=', '=']
    } else if b.len() == 2 {
        seq![
            b64_digit(b0 / 4),
            b64_digit((b0 % 4) * 16 + b1 / 16),
            b64_digit((b1 % 16) * 4),
            '=',
        ]
    } else {
        seq![
            b64_digit(b0 / 4),
            b64_digit((b0 % 4) * 16 + b1 / 16),
            b64_digit((b1 % 16) * 4 + b2 / 64),
            b64_digit(b2 % 64),
        ] + base64(b.skip(3))
    }
}

/// `base64::engine::general_purpose::STANDARD.encode`: standard base64 with padding, as the
/// crate documents it. The length bound keeps the crate's size computation from overflowing.
#[verifier::external_body]
fn base64_encode(bytes: &[u8]) -> (r: String)
    requires
        bytes@.len() <= usize::MAX / 2,
    ensures
        r@ == base64(bytes@),
{
    STANDARD.encode(bytes)
}

/// `s` cut into chunks of `size` bytes, the last one possibly shorter.
pub open spec fn chunks(s: Seq<u8>, size: nat) -> Seq<Seq<u8>>
    decreases s.len(),
{
    if s.len() == 0 || size == 0 {
        seq![]
    } else if s.len() <= size {
        seq![s]
    } else {
        seq![s.take(size as int)] + chunks(s.skip(size as int), size)
    }
}

/// `input` cut into chunks of at most `max_chunk_size` bytes.
fn chunk_bytes(input: &[u8], max_chunk_size: usize) -> (r: Vec<Vec<u8>>)
    requires
        0 < max_chunk_size,
    ensures
        r@.map_values(|c: Vec<u8>| c@) == chunks(input@, max_chunk_size as nat),
{
    let mut out: Vec<Vec<u8>> = Vec::new();
    let mut start: usize = 0;
    let n = input.len();
    assert(input@.subrange(0, n as int) == input@);
    while start < n
        invariant
            n == input@.len(),
            start <= n,
            0 < max_chunk_size,
            out@.map_values(|c: Vec<u8>| c@) + chunks(input@.subrange(start as int, n as int), max_chunk_size as nat)
                == chunks(input@, max_chunk_size as nat),
        decreases n - start,
    {
        let end = if n - start > max_chunk_size {
            start + max_chunk_size
        } else {
            n
        };
        let mut piece: Vec<u8> = Vec::new();
        let mut p = start;
        while p < end
            invariant
                start <= p <= end,
                end <= n,
                n == input@.len(),
                piece@ == input@.subrange(start as int, p as int),
            decreases end - p,
        {
            piece.push(input[p]);
            p = p + 1;
            assert(piece@ =~= input@.subrange(start as int, p as int));
        }
        let ghost rest = input@.subrange(start as int, n as int);
        let ghost before = out@.map_values(|c: Vec<u8>| c@);
        out.push(piece);
        assert(out@.map_values(|c: Vec<u8>| c@) =~= before.push(piece@));
        if end == n {
            assert(piece@ =~= rest);
            assert(chunks(rest, max_chunk_size as nat) == seq![rest]);
            assert(input@.subrange(n as int, n as int) =~= Seq::<u8>::empty());
        } else {
            assert(piece@ =~= rest.take(max_chunk_size as int));
            assert(rest.skip(max_chunk_size as int) =~= input@.subrange(end as int, n as int));
        }
        assert(before.push(piece@) + chunks(input@.subrange(end as int, n as int), max_chunk_size as nat)
            =~= before + chunks(rest, max_chunk_size as nat));
        start = end;
    }
    assert(out@.map_values(|c: Vec<u8>| c@) + Seq::<Seq<u8>>::empty() =~= out@.map_values(|c: Vec<u8>| c@));
    out
}

/// The kitty graphics command for chunk `k` of `n`: the first carries the placement
/// (`a=T`, PNG format `f=100`, size, cells), each says with `m=` whether more follow.
pub open spec fn kitty_chunk(k: int, n: int, b64: Seq<char>, w: u32, h: u32, cols: u16, rows: u16) -> Seq<char> {
    let more = if k + 1 < n {
        seq!['1']
    } else {
        seq!['0']
    };
    if k == 0 {
        seq!['\u{1b}', '_', 'G', 'a', '=', 'T', ',', 't', '=', 'd', ',', 'f', '=', '1', '0', '0', ',', 'm', '=']
            + more + seq![',', 's', '='] + decimal(w as nat) + seq![',', 'v', '='] + decimal(
            h as nat,
        ) + seq![',', 'c', '='] + decimal(cols as nat) + seq![',', 'r', '='] + decimal(
            rows as nat,
        ) + seq![';'] + b64 + seq!['\u{1b}', '\\']
    } else {
        seq!['\u{1b}', '_', 'G', 'm', '='] + more + seq![';'] + b64 + seq!['\u{1b}', '\\']
    }
}

/// The first `m` chunk commands for the chunks `cs`.
pub open spec fn kitty_upto(cs: Seq<Seq<u8>>, m: int, w: u32, h: u32, cols: u16, rows: u16) -> Seq<char>
    decreases m,
{
    if m <= 0 {
        seq![]
    } else {
        kitty_upto(cs, m - 1, w, h, cols, rows) + kitty_chunk(
            m - 1,
            cs.len() as int,
            base64(cs[m - 1]),
            w,
            h,
            cols,
            rows,
        )
    }
}

/// The kitty graphics protocol commands that show a PNG image: its bytes in 3072-byte
/// chunks, each base64-encoded in a command of its own.
pub open spec fn kitty_image(png: Seq<u8>, w: u32, h: u32, opts: KittyImageOptions) -> Seq<char> {
    let cols = if opts.max_width_cells > 1 {
        opts.max_width_cells
    } else {
        1u16
    };
    let rows = match opts.max_height_cells {
        Some(r) => r,
        None => 0u16,
    };
    let cs = chunks(png, 3072);
    kitty_upto(cs, cs.len() as int, w, h, cols, rows)
}

fn push_first_header(out: &mut String, more: char, w: u32, h: u32, cols: u16, rows: u16)
    ensures
        final(out)@ == old(out)@ + seq!['\u{1b}', '_', 'G', 'a', '=', 'T', ',', 't', '=', 'd', ',', 'f', '=', '1', '0', '0', ',', 'm', '=']
            + seq![more] + seq![',', 's', '='] + decimal(w as nat) + seq![',', 'v', '='] + decimal(
            h as nat,
        ) + seq![',', 'c', '='] + decimal(cols as nat) + seq![',', 'r', '='] + decimal(
            rows as nat,
        ) + seq![';'],
{
    push_char(out, '\u{1b}');
    push_str(out, "_Ga=T,t=d,f=100,m=");
    push_char(out, more);
    push_str(out, ",s=");
    push_decimal(out, w as u64);
    push_str(out, ",v=");
    push_decimal(out, h as u64);
    push_str(out, ",c=");
    push_decimal(out, cols as u64);
    push_str(out, ",r=");
    push_decimal(out, rows as u64);
    push_char(out, ';');
    proof {
        reveal_strlit("_Ga=T,t=d,f=100,m=");
        reveal_strlit(",s=");
        reveal_strlit(",v=");
        reveal_strlit(",c=");
        reveal_strlit(",r=");
    }
    assert(final(out)@ =~= old(out)@ + seq!['\u{1b}', '_', 'G', 'a', '=', 'T', ',', 't', '=', 'd', ',', 'f', '=', '1', '0', '0', ',', 'm', '=']
            + seq![more] + seq![',', 's', '='] + decimal(w as nat) + seq![',', 'v', '='] + decimal(
            h as nat,
        ) + seq![',', 'c', '='] + decimal(cols as nat) + seq![',', 'r', '='] + decimal(
            rows as nat,
        ) + seq![';']);
}

/// The header of a chunk command after the first: `ESC _Gm=<more>;`.
fn push_more_header(out: &mut String, more: char)
    ensures
        final(out)@ == old(out)@ + seq!['\u{1b}', '_', 'G', 'm', '=', more, ';'],
{
    push_char(out, '\u{1b}');
    push_str(out, "_Gm=");
    push_char(out, more);
    push_char(out, ';');
    proof {
        reveal_strlit("_Gm=");
    }
    assert(final(out)@ =~= old(out)@ + seq!['\u{1b}', '_', 'G', 'm', '=', more, ';']);
}

/// The header of chunk command `k` of `n`: everything of `kitty_chunk` before the payload.
spec fn chunk_header(k: int, n: int, w: u32, h: u32, cols: u16, rows: u16) -> Seq<char> {
    let more = if k + 1 < n {
        '1'
    } else {
        '0'
    };
    if k == 0 {
        seq!['\u{1b}', '_', 'G', 'a', '=', 'T', ',', 't', '=', 'd', ',', 'f', '=', '1', '0', '0', ',', 'm', '=']
            + seq![more] + seq![',', 's', '='] + decimal(w as nat) + seq![',', 'v', '='] + decimal(
            h as nat,
        ) + seq![',', 'c', '='] + decimal(cols as nat) + seq![',', 'r', '='] + decimal(
            rows as nat,
        ) + seq![';']
    } else {
        seq!['\u{1b}', '_', 'G', 'm', '=', more, ';']
    }
}

proof fn lemma_chunk_parts(k: int, n: int, b64: Seq<char>, w: u32, h: u32, cols: u16, rows: u16)
    ensures
        kitty_chunk(k, n, b64, w, h, cols, rows) == chunk_header(k, n, w, h, cols, rows) + b64
            + seq!['\u{1b}', '\\'],
{
    let more = if k + 1 < n {
        '1'
    } else {
        '0'
    };
    assert(seq![more] =~= if k + 1 < n {
        seq!['1']
    } else {
        seq!['0']
    });
    if k != 0 {
        assert(seq!['\u{1b}', '_', 'G', 'm', '='] + seq![more] + seq![';'] =~= seq![
            '\u{1b}',
            '_',
            'G',
            'm',
            '=',
            more,
            ';',
        ]);
    }
}

fn push_chunk_command(out: &mut String, k: usize, n: usize, b64: &str, w: u32, h: u32, cols: u16, rows: u16)
    requires
        k < n,
    ensures
        final(out)@ == old(out)@ + kitty_chunk(k as int, n as int, b64@, w, h, cols, rows),
{
    let more = if k + 1 < n {
        '1'
    } else {
        '0'
    };
    if k == 0 {
        push_first_header(out, more, w, h, cols, rows);
    } else {
        push_more_header(out, more);
    }
    let ghost head = out@;
    assert(head == old(out)@ + chunk_header(k as int, n as int, w, h, cols, rows));
    push_str(out, b64);
    push_char(out, '\u{1b}');
    push_char(out, '\\');
    proof {
        lemma_chunk_parts(k as int, n as int, b64@, w, h, cols, rows);
    }
    assert(out@ =~= head + b64@ + seq!['\u{1b}', '\\']);
}

/// The kitty graphics commands that display a PNG image of `w` by `h` pixels.
pub fn kitty_image_sequence(png: &[u8], w: u32, h: u32, opts: KittyImageOptions) -> (r: String)
    ensures
        r@ == kitty_image(png@, w, h, opts),
{
    let width_cells = if opts.max_width_cells > 1 {
        opts.max_width_cells
    } else {
        1
    };
    let max_height = match opts.max_height_cells {
        Some(r) => r,
        None => 0,
    };
    let pieces = chunk_bytes(png, 3 * 1024);
    let ghost cs = pieces@.map_values(|c: Vec<u8>| c@);
    let n_chunks = pieces.len();
    let mut out = String::new();
    for i in 0..n_chunks
        invariant
            n_chunks == pieces@.len(),
            cs == pieces@.map_values(|c: Vec<u8>| c@),
            cs == chunks(png@, 3072),
            out@ == kitty_upto(cs, i as int, w, h, width_cells, max_height),
    {
        assert(pieces@[i as int]@ == cs[i as int]);
        proof {
            lemma_chunks_short(png@, 3072, i as int);
        }
        let b64 = base64_encode(pieces[i].as_slice());
        push_chunk_command(&mut out, i, n_chunks, b64.as_str(), w, h, width_cells, max_height);
    }
    out
}

/// What reading the bytes `bytes` of the image file `file` with `image` and writing the image
/// as PNG gives: the PNG bytes and the image's width and height in pixels. `None` where the
/// file's extension names no format `image` reads, or decoding or encoding fails.
pub uninterp spec fn png_of(file: Seq<char>, bytes: Seq<u8>) -> Option<(Seq<u8>, u32, u32)>;

/// Decodes `bytes` with `image` in the format that the extension of `file` names (as
/// `image::open` picks it, through `ImageFormat::from_path`), then encodes the image as PNG
/// with `DynamicImage::write_to`, taking `width()` and `height()`. The result is named
/// (`png_of`) by the file name and the bytes; nothing more is stated of the codecs.
#[verifier::external_body]
fn decode_as_png(file: &str, bytes: &[u8]) -> (r: Option<(Vec<u8>, u32, u32)>)
    ensures
        match r {
            Some((png, w, h)) => png_of(file@, bytes@) == Some((png@, w, h)),
            None => png_of(file@, bytes@) is None,
        },
{
    let format = ImageFormat::from_path(file).ok()?;
    let image = image::load_from_memory_with_format(bytes, format).ok()?;
    let mut png = Vec::new();
    image.write_to(&mut Cursor::new(&mut png), ImageFormat::Png).ok()?;
    Some((png, image.width(), image.height()))
}

/// The image the document calls `path`, read from the file `file` whose contents are
/// `bytes`, encoded as PNG (see `png_of`); `None` where it cannot be read as an image.
pub fn load_image(path: String, file: &str, bytes: &[u8]) -> (r: Option<LoadedImage>)
    ensures
        match png_of(file@, bytes@) {
            Some((png, w, h)) => r matches Some(img) && img.path == path && img.png@ == png
                && img.width == w && img.height == h,
            None => r is None,
        },
{
    match decode_as_png(file, bytes) {
        Some((png, width, height)) => Some(LoadedImage { path, png, width, height }),
        None => None,
    }
}

/// The kitty graphics commands that show the image in the file `file` whose contents are
/// `bytes`: the image decoded and encoded as PNG (see `png_of`), then sent as in
/// `kitty_image`; `None` where it cannot be read as an image.
pub fn render_image(file: &str, bytes: &[u8], opts: KittyImageOptions) -> (r: Option<String>)
    ensures
        match png_of(file@, bytes@) {
            Some((png, w, h)) => r matches Some(s) && s@ == kitty_image(png, w, h, opts),
            None => r is None,
        },
{
    match decode_as_png(file, bytes) {
        Some((png, width, height)) => Some(kitty_image_sequence(png.as_slice(), width, height, opts)),
        None => None,
    }
}

proof fn lemma_chunks_short(s: Seq<u8>, size: nat, k: int)
    requires
        0 <= k < chunks(s, size).len(),
    ensures
        chunks(s, size)[k].len() <= size,
    decreases s.len(),
{
    if s.len() > size && k > 0 {
        lemma_chunks_short(s.skip(size as int), size, k - 1);
    }
}

/// Cutting into chunks loses and adds nothing: the chunks joined give back the bytes, and
/// each chunk holds at least one and at most `size` bytes.
pub proof fn lemma_chunks_rejoin(s: Seq<u8>, size: nat)
    requires
        size > 0,
    ensures
        chunks(s, size).flatten() == s,
        forall|k: int|
            0 <= k < chunks(s, size).len() ==> 0 < #[trigger] chunks(s, size)[k].len() <= size,
    decreases s.len(),
{
    if s.len() == 0 {
    } else if s.len() <= size {
        let one: Seq<Seq<u8>> = seq![s];
        one.lemma_flatten_one_element();
    } else {
        let rest = chunks(s.skip(size as int), size);
        lemma_chunks_rejoin(s.skip(size as int), size);
        let cs = seq![s.take(size as int)] + rest;
        assert(cs.drop_first() =~= rest);
        assert(cs.first() == s.take(size as int));
        assert(s.take(size as int) + s.skip(size as int) =~= s);
        assert forall|k: int| 0 <= k < cs.len() implies 0 < #[trigger] cs[k].len() <= size by {
            if k > 0 {
                assert(cs[k] == rest[k - 1]);
            }
        }
    }
}

} // verus!
