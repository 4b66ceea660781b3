use vstd::prelude::*;
use crate::color::Color;
use crate::error::PngError;
use crate::helper::{group_words, sample_scale};
use crate::layout::{pass_count, pass_grid, pass_of, pixel_stride, Shape};
use crate::metadata::{key_level, legal_depth, Metadata};
use crate::pixel::Pixel;
use crate::scanline::{unfiltered, unpacked};

verus! {

impl Metadata {
    /// The size of the image and the layout of its data.
    pub open spec fn shape(self) -> Shape {
        Shape {
            width: self.width,
            height: self.height,
            depth: self.depth,
            color_type: self.color_type,
            interface: self.interface,
        }
    }
}

/// The filter code of scanline `line` of pass `p`.
pub open spec fn line_filter(shape: Shape, stream: Seq<u8>, p: int, line: int) -> u8 {
    stream[shape.line_start(p, line)]
}

/// The filtered bytes of scanline `line` of pass `p`.
pub open spec fn line_bytes(shape: Shape, stream: Seq<u8>, p: int, line: int) -> Seq<u8> {
    stream.subrange(shape.line_start(p, line) + 1, shape.line_start(p, line) + shape.line_len(p))
}

/// The packed bytes of row `line` of pass `p` with the filters undone: the
/// scanline reconstructed against the reconstructed row above it in the same
/// pass, and against a row of zeros where it is the first.
pub open spec fn recon_row(shape: Shape, stream: Seq<u8>, p: int, line: int) -> Seq<u8>
    decreases line,
{
    let above = if line <= 0 {
        Seq::empty()
    } else {
        recon_row(shape, stream, p, line - 1)
    };
    unfiltered(
        line_filter(shape, stream, p, line),
        pixel_stride(shape.color_type, shape.depth),
        line_bytes(shape, stream, p, line),
        above,
    )
}

/// The filter codes of pass `p`, one for each scanline.
pub open spec fn pass_filters(shape: Shape, stream: Seq<u8>, p: int) -> Seq<u8> {
    Seq::new(shape.pass_lines(p) as nat, |line: int| line_filter(shape, stream, p, line))
}

/// The filter codes of the passes before `p`, in the order of the image
/// data.
pub open spec fn filters_before(shape: Shape, stream: Seq<u8>, p: int) -> Seq<u8>
    decreases p,
{
    if p <= 0 {
        Seq::empty()
    } else {
        filters_before(shape, stream, p - 1) + pass_filters(shape, stream, p - 1)
    }
}

/// Every filter code of the image data, in order.
pub open spec fn image_filters(shape: Shape, stream: Seq<u8>) -> Seq<u8> {
    filters_before(shape, stream, pass_count(shape.interface))
}

/// Whether some scanline starts with a filter code above 4.
pub open spec fn has_unknown_filter(shape: Shape, stream: Seq<u8>) -> bool {
    exists|p: int, line: int|
        0 <= p < pass_count(shape.interface) && 0 <= line < shape.pass_lines(p)
            && #[trigger] line_filter(shape, stream, p, line) > 4
}

/// The reconstructed rows of pass `p`.
pub open spec fn pass_rows(shape: Shape, stream: Seq<u8>, p: int) -> Seq<Seq<u8>> {
    Seq::new(shape.pass_lines(p) as nat, |line: int| recon_row(shape, stream, p, line))
}

/// The reconstructed rows of the passes before `p`.
pub open spec fn rows_before(shape: Shape, stream: Seq<u8>, p: int) -> Seq<Seq<u8>>
    decreases p,
{
    if p <= 0 {
        Seq::empty()
    } else {
        rows_before(shape, stream, p - 1) + pass_rows(shape, stream, p - 1)
    }
}

/// Sample `k` of a reconstructed row as the number that the file holds:
/// the 16-bit word at sixteen bits, the unscaled sample below.
pub open spec fn level(depth: u8, row: Seq<u8>, k: int) -> int {
    if depth == 16 {
        group_words(row)[k] as int
    } else {
        unpacked(row, depth)[k] as int / sample_scale(depth as int)
    }
}

/// The alpha of a pixel without an alpha sample.
pub open spec fn alpha_unless(transparent: bool) -> u8 {
    if transparent {
        0
    } else {
        255
    }
}

/// Whether the grayscale sample `k` of the row is the transparent gray
/// level.
pub open spec fn is_gray_key(m: Metadata, row: Seq<u8>, k: int) -> bool {
    m.gray_lvl matches Some(l) && level(m.depth, row, k) == l
}

/// Whether the three samples from `k` of the row are the transparent
/// colour, channel by channel.
pub open spec fn is_color_key(m: Metadata, row: Seq<u8>, k: int) -> bool {
    m.truecolor_lvl matches Some(key) && level(m.depth, row, k) == key_level(key.0, m.depth)
        && level(m.depth, row, k + 1) == key_level(key.1, m.depth) && level(m.depth, row, k + 2)
        == key_level(key.2, m.depth)
}

/// The colour of pixel `sx` of a reconstructed row, by colour type.
pub open spec fn color_in_row(m: Metadata, row: Seq<u8>, sx: int) -> Color {
    let s = unpacked(row, m.depth);
    if m.color_type == 0 {
        Color { r: s[sx], g: s[sx], b: s[sx], a: alpha_unless(is_gray_key(m, row, sx)) }
    } else if m.color_type == 2 {
        Color {
            r: s[3 * sx],
            g: s[3 * sx + 1],
            b: s[3 * sx + 2],
            a: alpha_unless(is_color_key(m, row, 3 * sx)),
        }
    } else if m.color_type == 3 {
        m.colors[level(m.depth, row, sx)]
    } else if m.color_type == 4 {
        Color { r: s[2 * sx], g: s[2 * sx], b: s[2 * sx], a: s[2 * sx + 1] }
    } else {
        Color { r: s[4 * sx], g: s[4 * sx + 1], b: s[4 * sx + 2], a: s[4 * sx + 3] }
    }
}

/// Pixel `sx` of a reconstructed row, placed at `pos`. Only the pixel of an
/// indexed image has a palette index.
pub open spec fn pixel_in_row(m: Metadata, row: Seq<u8>, sx: int, pos: (u32, u32)) -> Pixel {
    Pixel {
        pos,
        color: color_in_row(m, row, sx),
        palette_index: if m.color_type == 3 {
            Some(level(m.depth, row, sx) as u8)
        } else {
            None
        },
    }
}

/// The reconstructed row that holds the pixel in column `x` and row `y`.
pub open spec fn row_of(shape: Shape, stream: Seq<u8>, x: int, y: int) -> Seq<u8> {
    let p = pass_of(shape.interface, x, y);
    recon_row(shape, stream, p, (y - pass_grid(shape.interface, p).y0) / pass_grid(
        shape.interface,
        p,
    ).dy)
}

/// The place in its reconstructed row of the pixel in column `x` and row
/// `y`.
pub open spec fn column_of(shape: Shape, x: int, y: int) -> int {
    let p = pass_of(shape.interface, x, y);
    (x - pass_grid(shape.interface, p).x0) / pass_grid(shape.interface, p).dx
}

/// The palette index of the pixel in column `x` and row `y`.
pub open spec fn index_at(m: Metadata, stream: Seq<u8>, x: int, y: int) -> int {
    level(m.depth, row_of(m.shape(), stream, x, y), column_of(m.shape(), x, y))
}

/// The pixel in column `x` and row `y` of the image.
pub open spec fn pixel_at(m: Metadata, stream: Seq<u8>, x: int, y: int) -> Pixel {
    pixel_in_row(
        m,
        row_of(m.shape(), stream, x, y),
        column_of(m.shape(), x, y),
        (x as u32, y as u32),
    )
}

/// Whether some pixel of an indexed image names no palette entry.
pub open spec fn has_stray_index(m: Metadata, stream: Seq<u8>) -> bool {
    m.color_type == 3 && exists|x: int, y: int|
        0 <= x < m.width && 0 <= y < m.height && #[trigger] index_at(m, stream, x, y)
            >= m.colors.len()
}

/// The pixels of the image, row by row from the top, each row from the
/// left.
pub open spec fn image_pixels(m: Metadata, stream: Seq<u8>) -> Seq<Pixel> {
    Seq::new(
        (m.width * m.height) as nat,
        |k: int| pixel_at(m, stream, k % (m.width as int), k / (m.width as int)),
    )
}

/// What the image data holds.
pub struct Image {
    pub pixels: Seq<Pixel>,
    pub filters: Seq<u8>,
}

/// The image that the decompressed image data `stream` holds, given what
/// the chunks said of it. In this order: colour type and bit depth must be a
/// legal pair, or it is `InvalidColorTypeDepth`; an indexed image must have
/// a palette, or it is `MissingPalette`; the data must be as long as the
/// passes need, or it is `Truncated` or `UnexpectedTrailingBytes`; every
/// filter code must be known, or it is `UnknownFilter`; every palette index
/// must name an entry, or it is `IndexOutOfRange`.
pub open spec fn assembled(m: Metadata, stream: Seq<u8>) -> Result<Image, PngError> {
    if !legal_depth(m.color_type, m.depth) {
        Err(PngError::InvalidColorTypeDepth)
    } else if m.color_type == 3 && m.colors.len() == 0 {
        Err(PngError::MissingPalette)
    } else if stream.len() < m.shape().stream_len() {
        Err(PngError::Truncated)
    } else if stream.len() > m.shape().stream_len() {
        Err(PngError::UnexpectedTrailingBytes)
    } else if has_unknown_filter(m.shape(), stream) {
        Err(PngError::UnknownFilter)
    } else if has_stray_index(m, stream) {
        Err(PngError::IndexOutOfRange)
    } else {
        Ok(Image { pixels: image_pixels(m, stream), filters: image_filters(m.shape(), stream) })
    }
}

/// Where the rows and filter codes of a pass stand among those of the
/// passes before `q`.
pub proof fn lemma_rows_before(shape: Shape, stream: Seq<u8>, q: int)
    requires
        0 <= q,
        legal_depth(shape.color_type, shape.depth),
    ensures
        rows_before(shape, stream, q).len() == shape.lines_before(q),
        filters_before(shape, stream, q).len() == shape.lines_before(q),
        forall|p: int, line: int|
            0 <= p < q && 0 <= line < shape.pass_lines(p) ==> {
                &&& rows_before(shape, stream, q)[shape.lines_before(p) + line] == #[trigger] recon_row(
                    shape,
                    stream,
                    p,
                    line,
                )
                &&& filters_before(shape, stream, q)[shape.lines_before(p) + line] == line_filter(
                    shape,
                    stream,
                    p,
                    line,
                )
                &&& 0 <= shape.lines_before(p)
                &&& shape.lines_before(p) + line < shape.lines_before(q)
            },
    decreases q,
{
    if q > 0 {
        lemma_rows_before(shape, stream, q - 1);
        crate::layout::lemma_pass_size(shape, q - 1);
        let rows = rows_before(shape, stream, q);
        let filters = filters_before(shape, stream, q);
        assert forall|p: int, line: int| 0 <= p < q && 0 <= line < shape.pass_lines(p) implies {
            &&& rows[shape.lines_before(p) + line] == #[trigger] recon_row(shape, stream, p, line)
            &&& filters[shape.lines_before(p) + line] == line_filter(shape, stream, p, line)
            &&& 0 <= shape.lines_before(p)
            &&& shape.lines_before(p) + line < shape.lines_before(q)
        } by {
            if p < q - 1 {
                assert(rows_before(shape, stream, q - 1)[shape.lines_before(p) + line]
                    == recon_row(shape, stream, p, line));
            } else {
                assert(pass_rows(shape, stream, p)[line] == recon_row(shape, stream, p, line));
                assert(pass_filters(shape, stream, p)[line] == line_filter(shape, stream, p, line));
            }
        }
    }
}

/// A reconstructed row is as long as the packed row of its pass.
pub proof fn lemma_recon_row_len(shape: Shape, stream: Seq<u8>, p: int, line: int)
    requires
        legal_depth(shape.color_type, shape.depth),
        0 <= p,
        0 <= line < shape.pass_lines(p),
        shape.pass_start(p + 1) <= stream.len(),
    ensures
        recon_row(shape, stream, p, line).len() == shape.line_len(p) - 1,
        0 <= shape.line_start(p, line),
        shape.line_start(p, line) + shape.line_len(p) <= stream.len(),
{
    crate::layout::lemma_pass_size(shape, p);
    crate::layout::lemma_pass_start_grows(shape, p, p);
    crate::layout::lemma_row_bytes(shape.pass_width(p), shape.color_type, shape.depth);
    let n = shape.pass_lines(p);
    let len = shape.line_len(p);
    assert(0 <= line * len && (line + 1) * len <= n * len && (line + 1) * len == line * len + len)
        by (nonlinear_arith)
        requires
            0 <= line < n,
            1 <= len,
    ;
    crate::scanline::lemma_unfilter_prefix(
        line_filter(shape, stream, p, line),
        pixel_stride(shape.color_type, shape.depth),
        line_bytes(shape, stream, p, line),
        if line <= 0 {
            Seq::empty()
        } else {
            recon_row(shape, stream, p, line - 1)
        },
        line_bytes(shape, stream, p, line).len(),
    );
}

/// What holds of every image that the image data assembles to: it has a
/// pixel for each place of the header's width and height, each at its
/// place; without interlacing it has a filter code for each row; each
/// pixel of an indexed image names a palette entry and has its colour; and
/// where no transparency was added, every pixel of a grayscale, truecolour
/// or indexed image is opaque.
pub proof fn lemma_assembled_image(m: Metadata, stream: Seq<u8>)
    requires
        assembled(m, stream) is Ok,
    ensures
        ({
            let image = assembled(m, stream)->Ok_0;
            &&& image.pixels.len() == m.width * m.height
            &&& forall|x: int, y: int|
                0 <= x < m.width && 0 <= y < m.height ==> #[trigger] image.pixels[y * m.width + x]
                    == pixel_at(m, stream, x, y)
            &&& forall|k: int|
                0 <= k < image.pixels.len() ==> (#[trigger] image.pixels[k]).pos == (
                    (k % (m.width as int)) as u32,
                    (k / (m.width as int)) as u32,
                )
            &&& m.interface == 0 ==> image.filters.len() == m.height
            &&& image.filters.len() == m.shape().line_count()
            &&& forall|k: int| 0 <= k < image.filters.len() ==> #[trigger] image.filters[k] <= 4
            &&& m.color_type == 3 ==> forall|k: int|
                0 <= k < image.pixels.len() ==> {
                    &&& (#[trigger] image.pixels[k]).palette_index is Some
                    &&& image.pixels[k].palette_index->Some_0 < m.colors.len()
                    &&& image.pixels[k].color == m.colors[image.pixels[k].palette_index->Some_0 as int]
                }
            &&& m.color_type != 3 ==> forall|k: int|
                0 <= k < image.pixels.len() ==> (#[trigger] image.pixels[k]).palette_index is None
            &&& m.opaque() && (m.color_type == 0 || m.color_type == 2 || m.color_type == 3)
                ==> forall|k: int|
                0 <= k < image.pixels.len() ==> (#[trigger] image.pixels[k]).color.a == 255
        }),
{
    let image = assembled(m, stream)->Ok_0;
    let w = m.width as int;
    let shape = m.shape();
    assert(0 <= m.width * m.height) by (nonlinear_arith)
        requires
            0 <= m.width,
            0 <= m.height,
    ;
    assert forall|x: int, y: int| 0 <= x < m.width && 0 <= y < m.height implies #[trigger] image.pixels[y
        * m.width + x] == pixel_at(m, stream, x, y) by {
        vstd::arithmetic::div_mod::lemma_fundamental_div_mod_converse(y * w + x, w, y, x);
        assert(0 <= y * w + x < m.width * m.height) by (nonlinear_arith)
            requires
                0 <= x < w,
                0 <= y < m.height,
                w == m.width,
        ;
    }
    assert forall|k: int| 0 <= k < image.pixels.len() implies (#[trigger] image.pixels[k]).pos == (
        (k % w) as u32,
        (k / w) as u32,
    ) by {
        lemma_row_major(k, w, m.height as int);
    }
    lemma_rows_before(shape, stream, pass_count(shape.interface));
    if m.interface == 0 {
        crate::layout::lemma_one_line_per_row(shape);
    }
    assert forall|k: int| 0 <= k < image.filters.len() implies #[trigger] image.filters[k]
        <= 4 by {
        lemma_filter_place(shape, stream, pass_count(shape.interface), k);
    }
    if m.color_type == 3 {
        assert forall|k: int| 0 <= k < image.pixels.len() implies {
            &&& (#[trigger] image.pixels[k]).palette_index is Some
            &&& image.pixels[k].palette_index->Some_0 < m.colors.len()
            &&& image.pixels[k].color == m.colors[image.pixels[k].palette_index->Some_0 as int]
        } by {
            let x = k % w;
            let y = k / w;
            lemma_row_major(k, w, m.height as int);
            assert(index_at(m, stream, x, y) < m.colors.len());
            lemma_level_is_byte(m, stream, x, y);
        }
    }
    if m.opaque() && m.color_type == 3 {
        assert forall|k: int| 0 <= k < image.pixels.len() implies (#[trigger] image.pixels[k]).color.a
            == 255 by {
            let x = k % w;
            let y = k / w;
            lemma_row_major(k, w, m.height as int);
            assert(index_at(m, stream, x, y) < m.colors.len());
            lemma_level_is_byte(m, stream, x, y);
        }
    }
}

/// The column and the row of place `k` of a row-major image.
pub proof fn lemma_row_major(k: int, w: int, h: int)
    requires
        0 <= k < w * h,
        0 <= w,
        0 <= h,
    ensures
        0 <= k % w < w,
        0 <= k / w < h,
        k == (k / w) * w + k % w,
{
    assert(w > 0) by (nonlinear_arith)
        requires
            0 <= k < w * h,
            0 <= w,
    ;
    vstd::arithmetic::div_mod::lemma_fundamental_div_mod(k, w);
    assert(0 <= k / w < h && k == (k / w) * w + k % w) by (nonlinear_arith)
        requires
            0 <= k < w * h,
            0 < w,
            k == w * (k / w) + k % w,
            0 <= k % w < w,
    ;
}

/// Each filter code of the passes before `q` is the code of a scanline.
proof fn lemma_filter_place(shape: Shape, stream: Seq<u8>, q: int, k: int)
    requires
        0 <= q <= pass_count(shape.interface),
        legal_depth(shape.color_type, shape.depth),
        0 <= k < filters_before(shape, stream, q).len(),
        !has_unknown_filter(shape, stream),
    ensures
        filters_before(shape, stream, q)[k] <= 4,
    decreases q,
{
    if q > 0 {
        let before = filters_before(shape, stream, q - 1);
        if k < before.len() {
            lemma_filter_place(shape, stream, q - 1, k);
        } else {
            let line = k - before.len();
            assert(filters_before(shape, stream, q)[k] == pass_filters(shape, stream, q - 1)[line]);
            assert(line_filter(shape, stream, q - 1, line) <= 4);
        }
    }
}

/// The unscaled sample of a pixel of an indexed image fits a byte.
proof fn lemma_level_is_byte(m: Metadata, stream: Seq<u8>, x: int, y: int)
    requires
        m.color_type == 3,
        legal_depth(m.color_type, m.depth),
    ensures
        0 <= index_at(m, stream, x, y) <= 255,
{
}

} // verus!
