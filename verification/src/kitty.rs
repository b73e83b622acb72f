//! The Kitty graphics protocol: an image sent as base64 RGBA in escape
//! sequences of at most 4096 characters of data each, followed by one
//! placeholder character per cell to reserve the space.
use vstd::prelude::*;
use base64::Engine;
use crate::text::{decimal, push_char, push_decimal};

verus! {

/// The width in pixels assumed for one terminal cell.
pub const CELL_WIDTH: u32 = 8;

/// The height in pixels assumed for one terminal cell.
pub const CELL_HEIGHT: u32 = 16;

/// The most base64 characters sent in one escape sequence.
pub const CHUNK_SIZE: usize = 4096;

/// The character that reserves one cell for the image.
pub const PLACEHOLDER: char = '\u{10EEEE}';

/// An image as 8-bit RGBA pixels, row by row.
pub struct Picture {
    pub width: u32,
    pub height: u32,
    pub pixels: Vec<u8>,
}

impl Picture {
    /// The pixel buffer holds four bytes for each pixel.
    pub open spec fn wf(&self) -> bool {
        self.pixels@.len() == 4 * self.width * self.height
    }
}

/// The result of the `image` crate's Lanczos resize of an RGBA image
/// (width, height, pixels) to fit `max_width` by `max_height`: the new
/// width, height and pixels.
pub uninterp spec fn lanczos_resize(
    width: u32,
    height: u32,
    pixels: Seq<u8>,
    max_width: u32,
    max_height: u32,
) -> (u32, u32, Seq<u8>);

/// The character of a 6-bit value in the standard base64 alphabet: `A`-`Z`,
/// `a`-`z`, `0`-`9`, `+`, `/`.
pub open spec fn base64_digit(v: int) -> char {
    if v < 26 {
        ('A' as int + v) as char
    } else if v < 52 {
        ('a' as int + (v - 26)) as char
    } else if v < 62 {
        ('0' as int + (v - 52)) as char
    } else if v == 62 {
        '+'
    } else {
        '/'
    }
}

/// Standard base64 with padding (RFC 4648): every three bytes become four
/// characters of six bits each; a last group of one or two bytes is
/// completed with zero bits and `=`.
pub open spec fn base64_standard(b: Seq<u8>) -> Seq<char>
    decreases b.len(),
{
    if b.len() == 0 {
        seq![]
    } else if b.len() == 1 {
        seq![base64_digit(b[0] as int / 4), base64_digit((b[0] as int % 4) * 16), '=', '=']
    } else if b.len() == 2 {
        seq![
            base64_digit(b[0] as int / 4),
            base64_digit((b[0] as int % 4) * 16 + b[1] as int / 16),
            base64_digit((b[1] as int % 16) * 4),
            '=',
        ]
    } else {
        seq![
            base64_digit(b[0] as int / 4),
            base64_digit((b[0] as int % 4) * 16 + b[1] as int / 16),
            base64_digit((b[1] as int % 16) * 4 + b[2] as int / 64),
            base64_digit(b[2] as int % 64),
        ] + base64_standard(b.subrange(3, b.len() as int))
    }
}

/// Resizes an RGBA image with the `image` crate: `RgbaImage::from_raw`,
/// `DynamicImage::resize` with the Lanczos3 filter, then `to_rgba8`. The
/// contract names the result. It also states what the crate documents and
/// its source shows: the image keeps its aspect ratio and fits within the
/// bounds when both are at least one pixel, and the buffer holds four bytes
/// per pixel, within what Rust can hold.
#[verifier::external_body]
fn resize_lanczos(width: u32, height: u32, pixels: &Vec<u8>, max_width: u32, max_height: u32) -> (r:
    (u32, u32, Vec<u8>))
    requires
        pixels@.len() == 4 * width * height,
    ensures
        (r.0, r.1, r.2@) == lanczos_resize(width, height, pixels@, max_width, max_height),
        r.2@.len() <= isize::MAX,
        r.2@.len() == 4 * r.0 * r.1,
        max_width >= 1 && max_height >= 1 ==> r.0 <= max_width && r.1 <= max_height,
{
    let buffer = image::RgbaImage::from_raw(width, height, pixels.clone()).unwrap();
    let resized = image::DynamicImage::ImageRgba8(buffer).resize(
        max_width,
        max_height,
        image::imageops::FilterType::Lanczos3,
    ).to_rgba8();
    let (w, h) = resized.dimensions();
    (w, h, resized.into_raw())
}

/// Encodes bytes with the `base64` crate's `STANDARD` engine (standard
/// alphabet, with padding). The crate panics only when the encoded length
/// does not fit in `usize`, which the bound on the input rules out.
#[verifier::external_body]
fn encode_base64(bytes: &Vec<u8>) -> (r: String)
    requires
        bytes@.len() <= isize::MAX,
    ensures
        r@ == base64_standard(bytes@),
{
    base64::engine::general_purpose::STANDARD.encode(bytes)
}

/// One escape sequence carrying a chunk of the image's data; `more` says
/// whether further chunks follow.
pub open spec fn frame(width: u32, height: u32, more: bool, chunk: Seq<char>) -> Seq<char> {
    "\x1b_Ga=T,f=32,s="@ + decimal(width as nat) + ",v="@ + decimal(height as nat) + ",m="@ + (
    if more {
        "1"@
    } else {
        "0"@
    }) + ";"@ + chunk + "\x1b\\"@
}

/// The escape sequences carrying `data`, 4096 characters at a time; the
/// last says no more follow. No sequence at all for empty data.
pub open spec fn frames(width: u32, height: u32, data: Seq<char>) -> Seq<char>
    decreases data.len(),
{
    if data.len() == 0 {
        seq![]
    } else if data.len() <= CHUNK_SIZE {
        frame(width, height, false, data)
    } else {
        frame(width, height, true, data.subrange(0, CHUNK_SIZE as int)) + frames(
            width,
            height,
            data.subrange(CHUNK_SIZE as int, data.len() as int),
        )
    }
}

/// One row of placeholders.
pub open spec fn placeholder_row(cols: nat) -> Seq<char> {
    Seq::new(cols, |i: int| PLACEHOLDER)
}

/// `rows` rows of placeholders, separated by newlines.
pub open spec fn placeholders(cols: nat, rows: nat) -> Seq<char>
    decreases rows,
{
    if rows == 0 {
        seq![]
    } else if rows == 1 {
        placeholder_row(cols)
    } else {
        placeholders(cols, (rows - 1) as nat) + seq!['\n'] + placeholder_row(cols)
    }
}

/// Everything sent for an image of the given size and base64 data shown in
/// `cols` by `rows` cells.
pub open spec fn kitty_sequence(
    width: u32,
    height: u32,
    data: Seq<char>,
    cols: u16,
    rows: u16,
) -> Seq<char> {
    frames(width, height, data) + placeholders(cols as nat, rows as nat)
}

/// The image actually sent for `img` in `cols` by `rows` cells: resized
/// when it is wider or taller than the cells hold, else as it is.
pub open spec fn fitted(img: Picture, cols: u16, rows: u16) -> (u32, u32, Seq<u8>) {
    let max_w = (cols * CELL_WIDTH) as u32;
    let max_h = (rows * CELL_HEIGHT) as u32;
    if img.width > max_w || img.height > max_h {
        lanczos_resize(img.width, img.height, img.pixels@, max_w, max_h)
    } else {
        (img.width, img.height, img.pixels@)
    }
}

fn push_str(s: &mut String, t: &str)
    ensures
        final(s)@ == old(s)@ + t@,
{
    s.append(t);
}

fn push_frame(out: &mut String, width: u32, height: u32, more: bool, data: &str, from: usize, to: usize)
    requires
        from <= to <= data@.len(),
    ensures
        final(out)@ == old(out)@ + frame(width, height, more, data@.subrange(from as int, to as int)),
{
    push_str(out, "\x1b_Ga=T,f=32,s=");
    push_decimal(out, width as u64);
    push_str(out, ",v=");
    push_decimal(out, height as u64);
    push_str(out, ",m=");
    if more {
        push_str(out, "1");
    } else {
        push_str(out, "0");
    }
    push_str(out, ";");
    push_str(out, data.substring_char(from, to));
    push_str(out, "\x1b\\");
    assert(final(out)@ =~= old(out)@ + frame(
        width,
        height,
        more,
        data@.subrange(from as int, to as int),
    ));
}

/// Everything sent for an image of `width` by `height` pixels whose RGBA
/// data is `data` in base64, shown in `cols` by `rows` cells.
pub fn encode_frames(width: u32, height: u32, data: &str, cols: u16, rows: u16) -> (r: String)
    ensures
        r@ == kitty_sequence(width, height, data@, cols, rows),
{
    let mut out = String::new();
    let n = data.unicode_len();
    let mut start: usize = 0;
    assert(data@.subrange(0, n as int) =~= data@);
    assert(out@ + frames(width, height, data@) =~= frames(width, height, data@));
    while start < n
        invariant
            n == data@.len(),
            start <= n,
            out@ + frames(width, height, data@.subrange(start as int, n as int)) == frames(
                width,
                height,
                data@,
            ),
        decreases n - start,
    {
        let ghost rest = data@.subrange(start as int, n as int);
        let ghost before = out@;
        if n - start <= CHUNK_SIZE {
            push_frame(&mut out, width, height, false, data, start, n);
            assert(data@.subrange(n as int, n as int) =~= Seq::<char>::empty());
            start = n;
        } else {
            let end = start + CHUNK_SIZE;
            push_frame(&mut out, width, height, true, data, start, end);
            assert(rest.subrange(0, CHUNK_SIZE as int) =~= data@.subrange(start as int, end as int));
            assert(rest.subrange(CHUNK_SIZE as int, rest.len() as int) =~= data@.subrange(
                end as int,
                n as int,
            ));
            start = end;
        }
    }
    assert(data@.subrange(0, n as int) =~= data@);
    assert(out@ =~= frames(width, height, data@)) by {
        assert(data@.subrange(start as int, n as int) =~= Seq::<char>::empty());
        assert(out@ + Seq::<char>::empty() =~= out@);
    }
    let mut row: u16 = 0;
    while row < rows
        invariant
            row <= rows,
            out@ == frames(width, height, data@) + if row == 0 {
                Seq::<char>::empty()
            } else if row < rows {
                placeholders(cols as nat, row as nat) + seq!['\n']
            } else {
                placeholders(cols as nat, row as nat)
            },
        decreases rows - row,
    {
        let ghost before = out@;
        let mut col: u16 = 0;
        while col < cols
            invariant
                col <= cols,
                out@ == before + placeholder_row(col as nat),
            decreases cols - col,
        {
            push_char(&mut out, PLACEHOLDER);
            assert(placeholder_row((col + 1) as nat) =~= placeholder_row(col as nat).push(
                PLACEHOLDER,
            ));
            col += 1;
        }
        let ghost head = frames(width, height, data@);
        if row + 1 < rows {
            push_char(&mut out, '\n');
        }
        proof {
            if row == 0 {
                assert(placeholders(cols as nat, 1) == placeholder_row(cols as nat));
            } else {
                assert(placeholders(cols as nat, (row + 1) as nat) == placeholders(
                    cols as nat,
                    row as nat,
                ) + seq!['\n'] + placeholder_row(cols as nat));
            }
            if row + 1 < rows {
                assert(out@ =~= head + (placeholders(cols as nat, (row + 1) as nat) + seq!['\n']));
            } else {
                assert(out@ =~= head + placeholders(cols as nat, (row + 1) as nat));
            }
        }
        row += 1;
    }
    assert(out@ =~= kitty_sequence(width, height, data@, cols, rows)) by {
        if rows == 0 {
            assert(placeholders(cols as nat, 0) =~= Seq::<char>::empty());
        }
    }
    out
}

/// The Kitty graphics protocol.
pub struct KittyProtocol;

impl KittyProtocol {
    /// Everything sent to show `img` in `cols` by `rows` cells: the image,
    /// resized (keeping its aspect ratio) when it is larger than the cells
    /// hold at 8 by 16 pixels a cell, in base64 escape sequences, then the
    /// placeholders that reserve the cells.
    pub fn encode_image(img: &Picture, cols: u16, rows: u16) -> (r: String)
        requires
            img.wf(),
            img.pixels@.len() <= isize::MAX,
        ensures
            r@ == ({
                let f = fitted(*img, cols, rows);
                kitty_sequence(f.0, f.1, base64_standard(f.2), cols, rows)
            }),
            cols >= 1 && rows >= 1 ==> fitted(*img, cols, rows).0 <= cols * CELL_WIDTH && fitted(
                *img,
                cols,
                rows,
            ).1 <= rows * CELL_HEIGHT,
    {
        let max_pixel_width = cols as u32 * CELL_WIDTH;
        let max_pixel_height = rows as u32 * CELL_HEIGHT;
        let (width, height, pixels) = if img.width > max_pixel_width || img.height
            > max_pixel_height {
            resize_lanczos(img.width, img.height, &img.pixels, max_pixel_width, max_pixel_height)
        } else {
            let ghost before = img.pixels@;
            let copy = img.pixels.clone();
            assert(copy@ =~= before);
            (img.width, img.height, copy)
        };
        let data = encode_base64(&pixels);
        encode_frames(width, height, data.as_str(), cols, rows)
    }

    /// The escape sequence that deletes the images shown.
    pub fn clear_image() -> (r: String)
        ensures
            r@ == "\x1b_Ga=d;\x1b\\"@,
    {
        String::from_str("\x1b_Ga=d;\x1b\\")
    }
}

/// The data sent in the escape sequences, read back chunk by chunk, is the
/// image's base64 data; every chunk but the last says more follow.
pub open spec fn chunks_of(data: Seq<char>) -> Seq<Seq<char>>
    decreases data.len(),
{
    if data.len() == 0 {
        seq![]
    } else if data.len() <= CHUNK_SIZE {
        seq![data]
    } else {
        seq![data.subrange(0, CHUNK_SIZE as int)] + chunks_of(
            data.subrange(CHUNK_SIZE as int, data.len() as int),
        )
    }
}

/// The chunks of the data put back together are the data, and each is
/// between 1 and 4096 characters long.
pub proof fn law_chunks_rejoin(data: Seq<char>)
    ensures
        chunks_of(data).flatten() == data,
        forall|i: int|
            0 <= i < chunks_of(data).len() ==> (#[trigger] chunks_of(data)[i]).len() <= CHUNK_SIZE
                && chunks_of(data)[i].len() > 0,
    decreases data.len(),
{
    if data.len() == 0 {
        assert(data =~= Seq::<char>::empty());
    } else if data.len() <= CHUNK_SIZE {
        assert(seq![data].drop_first() =~= Seq::<Seq<char>>::empty());
        assert(seq![data].first() == data);
        assert(data + Seq::<char>::empty() =~= data);
        assert(chunks_of(data) == seq![data]);
        assert(Seq::<Seq<char>>::empty().flatten() == Seq::<char>::empty());
        assert(seq![data].flatten() == seq![data].first() + seq![data].drop_first().flatten());
    } else {
        let head = data.subrange(0, CHUNK_SIZE as int);
        let tail = data.subrange(CHUNK_SIZE as int, data.len() as int);
        law_chunks_rejoin(tail);
        let cs = chunks_of(data);
        assert(cs.first() == head);
        assert(cs.drop_first() =~= chunks_of(tail));
        assert(head + tail =~= data);
        assert(cs.len() > 0);
        assert(cs.flatten() == cs.first() + cs.drop_first().flatten());
        assert forall|i: int| 0 <= i < cs.len() implies (#[trigger] cs[i]).len() <= CHUNK_SIZE
            && cs[i].len() > 0 by {
            if i > 0 {
                assert(cs[i] == chunks_of(tail)[i - 1]);
            }
        }
    }
}

/// The escape sequences for some data are one frame per chunk, every frame
/// but the last saying more follow.
pub proof fn law_frames_per_chunk(width: u32, height: u32, data: Seq<char>)
    ensures
        frames(width, height, data) == frames_of_chunks(width, height, chunks_of(data)),
    decreases data.len(),
{
    if data.len() > CHUNK_SIZE {
        let tail = data.subrange(CHUNK_SIZE as int, data.len() as int);
        law_frames_per_chunk(width, height, tail);
        let cs = chunks_of(data);
        assert(cs.drop_first() =~= chunks_of(tail));
        assert(chunks_of(tail).len() > 0);
        assert(cs.len() > 1);
        assert(cs.first() == data.subrange(0, CHUNK_SIZE as int));
        assert(frames_of_chunks(width, height, cs) == frame(width, height, true, cs.first())
            + frames_of_chunks(width, height, cs.drop_first()));
    } else if data.len() > 0 {
        assert(seq![data].drop_first() =~= Seq::<Seq<char>>::empty());
        assert(seq![data].first() == data);
        let fr = frame(width, height, false, data);
        assert(fr + Seq::<char>::empty() =~= fr);
        assert(chunks_of(data) == seq![data]);
        assert(frames_of_chunks(width, height, Seq::<Seq<char>>::empty()) == Seq::<char>::empty());
        assert(frames_of_chunks(width, height, seq![data]) == frame(width, height, false, data)
            + frames_of_chunks(width, height, seq![data].drop_first()));
    }
}

/// The position of column `k` of row `r` in a block of rows `cols` cells
/// wide, each row followed by a newline.
pub open spec fn cell_at(cols: int, r: int, k: int) -> int {
    r * (cols + 1) + k
}

proof fn lemma_placeholder_layout(c: nat, n: nat)
    ensures
        placeholders(c, n).len() == if n == 0 {
            0
        } else {
            n * (c + 1) - 1
        },
        forall|r: int, k: int|
            0 <= r < n && 0 <= k < c ==> placeholders(c, n)[#[trigger] cell_at(c as int, r, k)]
                == PLACEHOLDER,
        forall|r: int|
            0 <= r < n - 1 ==> placeholders(c, n)[#[trigger] cell_at(c as int, r, c as int)]
                == '\n',
    decreases n,
{
    if n == 1 {
        assert forall|r: int, k: int| 0 <= r < n && 0 <= k < c implies placeholders(c, n)[
            #[trigger] cell_at(c as int, r, k)] == PLACEHOLDER by {
            assert(r == 0);
            assert(cell_at(c as int, r, k) == k);
        }
    } else if n > 1 {
        let m = (n - 1) as nat;
        lemma_placeholder_layout(c, m);
        let q = placeholders(c, m);
        let p = placeholders(c, n);
        assert(p == q + seq!['\n'] + placeholder_row(c));
        assert(q.len() == m * (c + 1) - 1);
        assert(m * (c + 1) + (c + 1) == n * (c + 1)) by (nonlinear_arith)
            requires
                m + 1 == n,
        ;
        assert forall|r: int, k: int| 0 <= r < n && 0 <= k < c implies p[
            #[trigger] cell_at(c as int, r, k)] == PLACEHOLDER by {
            if r < m {
                assert(r * (c + 1) + k < m * (c + 1) - 1) by (nonlinear_arith)
                    requires
                        0 <= r < m,
                        0 <= k < c,
                ;
                assert(p[cell_at(c as int, r, k)] == q[cell_at(c as int, r, k)]);
            } else {
                assert(r == m);
                assert(cell_at(c as int, r, k) == q.len() + 1 + k);
            }
        }
        assert forall|r: int| 0 <= r < n - 1 implies p[#[trigger] cell_at(c as int, r, c as int)]
            == '\n' by {
            if r < m - 1 {
                assert(r * (c + 1) + c < m * (c + 1) - 1) by (nonlinear_arith)
                    requires
                        0 <= r < m - 1,
                ;
                assert(p[cell_at(c as int, r, c as int)] == q[cell_at(c as int, r, c as int)]);
            } else {
                assert(r == m - 1);
                assert(r * (c + 1) + c == m * (c + 1) - 1) by (nonlinear_arith)
                    requires
                        r == m - 1,
                ;
                assert(cell_at(c as int, r, c as int) == q.len());
            }
        }
    }
}

/// What is sent for an image: one escape sequence per chunk of its base64
/// data (each chunk between 1 and 4096 characters, the chunks rejoining to
/// the data, every sequence but the last saying more follow), then `rows`
/// rows of `cols` placeholder characters, each row but the last followed
/// by a newline, and nothing else.
pub proof fn law_kitty_sequence_layout(
    width: u32,
    height: u32,
    data: Seq<char>,
    cols: u16,
    rows: u16,
)
    ensures
        ({
            let s = kitty_sequence(width, height, data, cols, rows);
            let f = frames_of_chunks(width, height, chunks_of(data));
            let c = cols as int;
            let n = rows as int;
            &&& s.subrange(0, f.len() as int) == f
            &&& s.len() == f.len() + if n == 0 {
                0
            } else {
                n * (c + 1) - 1
            }
            &&& forall|r: int, k: int|
                0 <= r < n && 0 <= k < c ==> s[f.len() + #[trigger] cell_at(c, r, k)]
                    == PLACEHOLDER
            &&& forall|r: int|
                0 <= r < n - 1 ==> s[f.len() + #[trigger] cell_at(c, r, c)] == '\n'
        }),
{
    law_frames_per_chunk(width, height, data);
    law_chunks_rejoin(data);
    let c = cols as nat;
    let n = rows as nat;
    lemma_placeholder_layout(c, n);
    let s = kitty_sequence(width, height, data, cols, rows);
    let f = frames_of_chunks(width, height, chunks_of(data));
    let p = placeholders(c, n);
    assert(s == f + p);
    assert(s.subrange(0, f.len() as int) =~= f);
    assert forall|r: int, k: int| 0 <= r < n && 0 <= k < c implies s[f.len()
        + #[trigger] cell_at(c as int, r, k)] == PLACEHOLDER by {
        assert(r * (c + 1) + k < n * (c + 1) - 1) by (nonlinear_arith)
            requires
                0 <= r < n,
                0 <= k < c,
        ;
        assert(p[cell_at(c as int, r, k)] == PLACEHOLDER);
        assert(s[f.len() + cell_at(c as int, r, k)] == p[cell_at(c as int, r, k)]);
    }
    assert forall|r: int| 0 <= r < n - 1 implies s[f.len() + #[trigger] cell_at(
        c as int,
        r,
        c as int,
    )] == '\n' by {
        assert(r * (c + 1) + c < n * (c + 1) - 1) by (nonlinear_arith)
            requires
                0 <= r < n - 1,
        ;
        assert(p[cell_at(c as int, r, c as int)] == '\n');
        assert(s[f.len() + cell_at(c as int, r, c as int)] == p[cell_at(c as int, r, c as int)]);
    }
}

/// One frame per chunk; the last says no more follow.
pub open spec fn frames_of_chunks(width: u32, height: u32, chunks: Seq<Seq<char>>) -> Seq<char>
    decreases chunks.len(),
{
    if chunks.len() == 0 {
        seq![]
    } else {
        frame(width, height, chunks.len() > 1, chunks.first()) + frames_of_chunks(
            width,
            height,
            chunks.drop_first(),
        )
    }
}

} // verus!
