use vstd::prelude::*;
use vstd::arithmetic::div_mod::lemma_fundamental_div_mod_converse;
use crate::error::PngError;
use crate::helper::{
    bytes_as_16bit, bytes_as_1bit, bytes_as_2bit, bytes_as_4bit, bytes_from_16bit_to_8bit,
    copy_range, group_words,
};
use crate::image::{
    assembled, filters_before, has_stray_index, has_unknown_filter, image_filters,
    image_pixels, index_at, is_color_key, is_gray_key, lemma_recon_row_len, lemma_rows_before,
    level, line_bytes, line_filter, pass_filters, pass_rows, pixel_at, pixel_in_row, recon_row,
    rows_before,
};
use crate::layout::{
    channels, find_pass, grid, is_legal_depth, lemma_pass_of, lemma_pass_size, lemma_row_bytes,
    pass_count, pixel_stride, plan_passes, row_bytes, PassPlan, Shape,
};
use crate::metadata::{key_level, legal_depth, samples_per_pixel};
use crate::color::Color;
use crate::pixel::Pixel;
use crate::png::Png;
use crate::scanline::{unpacked, Scanline};

verus! {

/// The rows of the image data with the filters undone, one byte a sample,
/// and beside them the 16-bit words of the rows of a 16-bit image.
pub struct Rows {
    pub samples: Vec<Vec<u8>>,
    pub wide: Vec<Vec<u16>>,
    pub filters: Vec<u8>,
}

impl Rows {
    /// Whether these are the reconstructed rows `packed`, unpacked from
    /// `depth` bits, with the filter codes `filters`.
    pub open spec fn holds(self, depth: u8, packed: Seq<Seq<u8>>, filters: Seq<u8>) -> bool {
        &&& self.samples@.len() == packed.len()
        &&& self.wide@.len() == packed.len()
        &&& self.filters@ == filters
        &&& forall|i: int|
            0 <= i < packed.len() ==> (#[trigger] self.samples@[i])@ == unpacked(packed[i], depth)
        &&& forall|i: int|
            0 <= i < packed.len() && depth == 16 ==> (#[trigger] self.wide@[i])@ == group_words(
                packed[i],
            )
    }
}

/// How many samples a reconstructed row holds.
pub proof fn lemma_sample_count(width: int, color_type: u8, depth: u8, row: Seq<u8>)
    requires
        0 <= width,
        legal_depth(color_type, depth),
        row.len() == row_bytes(width, color_type, depth),
    ensures
        unpacked(row, depth).len() >= width * samples_per_pixel(color_type),
        depth == 16 ==> group_words(row).len() == width * samples_per_pixel(color_type),
        0 <= width * samples_per_pixel(color_type) <= width * 4,
{
    lemma_row_bytes(width, color_type, depth);
    let spp = samples_per_pixel(color_type);
    assert(0 <= width * spp <= width * 4) by (nonlinear_arith)
        requires
            0 <= width,
            1 <= spp <= 4,
    ;
    if depth < 8 {
        assert(width * spp == width) by (nonlinear_arith)
            requires
                spp == 1,
        ;
    }
    if depth == 1 {
        assert(unpacked(row, depth).len() == row.len() * 8);
    } else if depth == 2 {
        assert(unpacked(row, depth).len() == row.len() * 4);
    } else if depth == 4 {
        assert(unpacked(row, depth).len() == row.len() * 2);
    } else if depth == 8 {
    } else {
        assert(unpacked(row, depth).len() == row.len() / 2);
    }
}

/// The distance in bytes between a byte of a packed row and its left
/// neighbour.
fn stride_of(color_type: u8, depth: u8) -> (r: u8)
    requires
        legal_depth(color_type, depth),
    ensures
        r == pixel_stride(color_type, depth),
        r >= 1,
{
    let whole: u8 = ((depth + 7) / 8) * channels(color_type);
    if whole < 1 {
        1
    } else {
        whole
    }
}

/// A reconstructed row as one byte a sample, and as 16-bit words where the
/// samples have sixteen bits.
fn unpack_row(packed: &Vec<u8>, depth: u8) -> (r: (Vec<u8>, Vec<u16>))
    requires
        depth == 16 ==> packed@.len() % 2 == 0,
    ensures
        r.0@ == unpacked(packed@, depth),
        depth == 16 ==> r.1@ == group_words(packed@),
{
    if depth == 1 {
        (bytes_as_1bit(packed), Vec::new())
    } else if depth == 2 {
        (bytes_as_2bit(packed), Vec::new())
    } else if depth == 4 {
        (bytes_as_4bit(packed), Vec::new())
    } else if depth == 16 {
        match bytes_as_16bit(packed) {
            Ok(words) => (bytes_from_16bit_to_8bit(&words), words),
            Err(_) => (Vec::new(), Vec::new()),
        }
    } else {
        let same: Vec<u8> = copy_range(packed, 0, packed.len());
        assert(same@ =~= packed@);
        (same, Vec::new())
    }
}

/// Undoes the filters of one pass, row by row, each against the row above
/// it, and adds the rows to `rows`.
fn unfilter_pass(
    color_type: u8,
    depth: u8,
    plan: &PassPlan,
    stream: &Vec<u8>,
    rows: &mut Rows,
    Ghost(shape): Ghost<Shape>,
    Ghost(p): Ghost<int>,
) -> (r: Result<(), PngError>)
    requires
        shape.color_type == color_type,
        shape.depth == depth,
        legal_depth(color_type, depth),
        0 <= p < pass_count(shape.interface),
        plan.matches(shape, p),
        shape.pass_start(p + 1) <= stream@.len(),
        old(rows).holds(depth, rows_before(shape, stream@, p), filters_before(shape, stream@, p)),
    ensures
        (exists|line: int|
            0 <= line < shape.pass_lines(p) && #[trigger] line_filter(shape, stream@, p, line) > 4)
            ==> r == Err::<(), PngError>(PngError::UnknownFilter),
        (forall|line: int|
            0 <= line < shape.pass_lines(p) ==> #[trigger] line_filter(shape, stream@, p, line)
                <= 4) ==> r is Ok && final(rows).holds(
            depth,
            rows_before(shape, stream@, p + 1),
            filters_before(shape, stream@, p + 1),
        ),
{
    let stride: u8 = stride_of(color_type, depth);
    let size: usize = stream.len();
    let mut above: Vec<u8> = Vec::new();
    let mut at: usize = plan.start;
    let mut line: u32 = 0;
    proof {
        lemma_pass_size(shape, p);
        assert(rows_before(shape, stream@, p) + pass_rows(shape, stream@, p).take(0)
            =~= rows_before(shape, stream@, p));
        assert(filters_before(shape, stream@, p) + pass_filters(shape, stream@, p).take(0)
            =~= filters_before(shape, stream@, p));
    }
    while line < plan.lines
        invariant
            shape.color_type == color_type,
            shape.depth == depth,
            legal_depth(color_type, depth),
            0 <= p < pass_count(shape.interface),
            plan.matches(shape, p),
            shape.pass_start(p + 1) <= stream@.len(),
            stride == pixel_stride(color_type, depth),
            stride >= 1,
            size == stream@.len(),
            line <= plan.lines,
            at == shape.line_start(p, line as int),
            above@ == if line == 0 {
                Seq::<u8>::empty()
            } else {
                recon_row(shape, stream@, p, line - 1)
            },
            forall|l: int| 0 <= l < line ==> #[trigger] line_filter(shape, stream@, p, l) <= 4,
            rows.holds(
                depth,
                rows_before(shape, stream@, p) + pass_rows(shape, stream@, p).take(line as int),
                filters_before(shape, stream@, p) + pass_filters(shape, stream@, p).take(
                    line as int,
                ),
            ),
        decreases plan.lines - line,
    {
        proof {
            lemma_recon_row_len(shape, stream@, p, line as int);
            lemma_row_bytes(shape.pass_width(p), color_type, depth);
        }
        let raw: Vec<u8> = copy_range(stream, at, at + plan.line_len);
        let mut scan: Scanline = match Scanline::from_bytes(&raw, stride, 8) {
            Ok(s) => s,
            Err(e) => {
                return Err(e);
            },
        };
        assert(scan.pixel_bytes@ =~= line_bytes(shape, stream@, p, line as int));
        assert(scan.filter == line_filter(shape, stream@, p, line as int));
        match scan.unfilter(Some(&above)) {
            Ok(()) => {},
            Err(e) => {
                return Err(e);
            },
        }
        let ghost row = recon_row(shape, stream@, p, line as int);
        assert(scan.pixel_bytes@ == row);
        let unpacked_row: (Vec<u8>, Vec<u16>) = unpack_row(&scan.pixel_bytes, depth);
        let ghost packed_before = rows_before(shape, stream@, p) + pass_rows(
            shape,
            stream@,
            p,
        ).take(line as int);
        rows.samples.push(unpacked_row.0);
        rows.wide.push(unpacked_row.1);
        rows.filters.push(scan.filter);
        proof {
            let packed_after = rows_before(shape, stream@, p) + pass_rows(shape, stream@, p).take(
                line + 1,
            );
            assert(packed_after =~= packed_before.push(row));
            assert(filters_before(shape, stream@, p) + pass_filters(shape, stream@, p).take(
                line + 1,
            ) =~= (filters_before(shape, stream@, p) + pass_filters(shape, stream@, p).take(
                line as int,
            )).push(scan.filter));
            assert forall|i: int| 0 <= i < packed_after.len() implies (
            #[trigger] rows.samples@[i])@ == unpacked(packed_after[i], depth) by {
                if i < packed_before.len() {
                    assert(packed_after[i] == packed_before[i]);
                }
            }
            assert forall|i: int| 0 <= i < packed_after.len() && depth == 16 implies (
            #[trigger] rows.wide@[i])@ == group_words(packed_after[i]) by {
                if i < packed_before.len() {
                    assert(packed_after[i] == packed_before[i]);
                }
            }
            let len = shape.line_len(p);
            assert((line + 1) * len == line * len + len) by (nonlinear_arith);
        }
        above = scan.pixel_bytes;
        at = at + plan.line_len;
        line = line + 1;
    }
    proof {
        assert(pass_rows(shape, stream@, p).take(line as int) =~= pass_rows(shape, stream@, p));
        assert(pass_filters(shape, stream@, p).take(line as int) =~= pass_filters(
            shape,
            stream@,
            p,
        ));
    }
    Ok(())
}

/// Undoes the filters of every pass.
fn unfilter_passes(color_type: u8, depth: u8, plans: &Vec<PassPlan>, stream: &Vec<u8>, Ghost(
    shape,
): Ghost<Shape>) -> (r: Result<Rows, PngError>)
    requires
        shape.color_type == color_type,
        shape.depth == depth,
        legal_depth(color_type, depth),
        plans@.len() == pass_count(shape.interface),
        forall|p: int| 0 <= p < plans@.len() ==> (#[trigger] plans@[p]).matches(shape, p),
        shape.stream_len() == stream@.len(),
    ensures
        has_unknown_filter(shape, stream@) ==> r == Err::<Rows, PngError>(PngError::UnknownFilter),
        !has_unknown_filter(shape, stream@) ==> r is Ok && r->Ok_0.holds(
            depth,
            rows_before(shape, stream@, pass_count(shape.interface)),
            image_filters(shape, stream@),
        ),
{
    let mut rows = Rows { samples: Vec::new(), wide: Vec::new(), filters: Vec::new() };
    let mut p: usize = 0;
    assert(rows.filters@ =~= filters_before(shape, stream@, 0));
    while p < plans.len()
        invariant
            shape.color_type == color_type,
            shape.depth == depth,
            legal_depth(color_type, depth),
            plans@.len() == pass_count(shape.interface),
            forall|q: int| 0 <= q < plans@.len() ==> (#[trigger] plans@[q]).matches(shape, q),
            shape.stream_len() == stream@.len(),
            p <= plans@.len(),
            forall|q: int, line: int|
                0 <= q < p && 0 <= line < shape.pass_lines(q) ==> #[trigger] line_filter(
                    shape,
                    stream@,
                    q,
                    line,
                ) <= 4,
            rows.holds(
                depth,
                rows_before(shape, stream@, p as int),
                filters_before(shape, stream@, p as int),
            ),
        decreases plans.len() - p,
    {
        proof {
            crate::layout::lemma_pass_start_grows(shape, p + 1, pass_count(shape.interface));
        }
        match unfilter_pass(color_type, depth, &plans[p], stream, &mut rows, Ghost(shape), Ghost(
            p as int,
        )) {
            Ok(()) => {},
            Err(e) => {
                return Err(e);
            },
        }
        p = p + 1;
    }
    Ok(rows)
}

/// Sample `k` of a row as the number that the file holds.
fn level_of(depth: u8, samples: &Vec<u8>, wide: &Vec<u16>, k: usize, Ghost(row): Ghost<Seq<u8>>)
    -> (r: u16)
    requires
        samples@ == unpacked(row, depth),
        depth == 16 ==> wide@ == group_words(row),
        k < samples@.len(),
        depth == 16 ==> k < wide@.len(),
    ensures
        r == level(depth, row, k as int),
        depth != 16 ==> r <= 255,
{
    if depth == 16 {
        wide[k]
    } else if depth == 1 {
        (samples[k] / 255) as u16
    } else if depth == 2 {
        (samples[k] / 85) as u16
    } else if depth == 4 {
        (samples[k] / 17) as u16
    } else {
        samples[k] as u16
    }
}

/// A 16-bit transparency value as a sample of `depth` bits is compared
/// with it.
fn key_of(value: u16, depth: u8) -> (r: u16)
    ensures
        r == key_level(value, depth),
{
    if depth == 16 {
        value
    } else {
        value % 256
    }
}

impl Png {
    /// Pixel `sx` of a reconstructed row, placed at `pos`.
    fn pixel_of(
        &self,
        samples: &Vec<u8>,
        wide: &Vec<u16>,
        sx: u32,
        pos: (u32, u32),
        Ghost(row): Ghost<Seq<u8>>,
        Ghost(width): Ghost<int>,
    ) -> (r: Result<Pixel, PngError>)
        requires
            legal_depth(self.color_type, self.depth),
            samples@ == unpacked(row, self.depth),
            self.depth == 16 ==> wide@ == group_words(row),
            row.len() == row_bytes(width, self.color_type, self.depth),
            sx < width,
        ensures
            self.color_type == 3 && level(self.depth, row, sx as int) >= self.colors@.len() ==> r
                == Err::<Pixel, PngError>(PngError::IndexOutOfRange),
            !(self.color_type == 3 && level(self.depth, row, sx as int) >= self.colors@.len())
                ==> r is Ok && r->Ok_0 == pixel_in_row(self.meta(), row, sx as int, pos),
    {
        let per_pixel: u64 = channels(self.color_type) as u64;
        proof {
            assert(samples@.len() == samples.len());
            lemma_sample_count(width, self.color_type, self.depth, row);
            let spp = samples_per_pixel(self.color_type);
            assert(sx * spp + spp <= width * spp) by (nonlinear_arith)
                requires
                    0 <= sx < width,
                    1 <= spp,
            ;
            assert(0 <= sx * spp <= sx * 4) by (nonlinear_arith)
                requires
                    0 <= sx,
                    1 <= spp <= 4,
            ;
        }
        let k: usize = ((sx as u64) * per_pixel) as usize;
        let depth: u8 = self.depth;
        if self.color_type == 0 {
            let g: u8 = samples[k];
            let l: u16 = level_of(depth, samples, wide, k, Ghost(row));
            let transparent: bool = match self.gray_lvl {
                Some(key) => l == key,
                None => false,
            };
            assert(transparent == is_gray_key(self.meta(), row, sx as int));
            let a: u8 = if transparent {
                0
            } else {
                255
            };
            Ok(Pixel { pos, color: Color { r: g, g, b: g, a }, palette_index: None })
        } else if self.color_type == 2 {
            let transparent: bool = match self.truecolor_lvl {
                Some(key) => level_of(depth, samples, wide, k, Ghost(row)) == key_of(key.0, depth)
                    && level_of(depth, samples, wide, k + 1, Ghost(row)) == key_of(key.1, depth)
                    && level_of(depth, samples, wide, k + 2, Ghost(row)) == key_of(key.2, depth),
                None => false,
            };
            assert(transparent == is_color_key(self.meta(), row, 3 * sx));
            let a: u8 = if transparent {
                0
            } else {
                255
            };
            Ok(
                Pixel {
                    pos,
                    color: Color { r: samples[k], g: samples[k + 1], b: samples[k + 2], a },
                    palette_index: None,
                },
            )
        } else if self.color_type == 3 {
            let index: u16 = level_of(depth, samples, wide, k, Ghost(row));
            Pixel::from_palette_index(pos, index as usize, &self.colors)
        } else if self.color_type == 4 {
            let g: u8 = samples[k];
            Ok(
                Pixel {
                    pos,
                    color: Color { r: g, g, b: g, a: samples[k + 1] },
                    palette_index: None,
                },
            )
        } else {
            Ok(
                Pixel {
                    pos,
                    color: Color {
                        r: samples[k],
                        g: samples[k + 1],
                        b: samples[k + 2],
                        a: samples[k + 3],
                    },
                    palette_index: None,
                },
            )
        }
    }

    /// The pixel in column `x` and row `y`, read from the reconstructed row
    /// of the pass that holds it.
    fn pixel_from(&self, plans: &Vec<PassPlan>, rows: &Rows, x: u32, y: u32, Ghost(stream): Ghost<
        Seq<u8>,
    >) -> (r: Result<Pixel, PngError>)
        requires
            legal_depth(self.color_type, self.depth),
            x < self.width,
            y < self.height,
            plans@.len() == pass_count(self.interface),
            forall|p: int|
                0 <= p < plans@.len() ==> (#[trigger] plans@[p]).matches(self.meta().shape(), p),
            self.meta().shape().stream_len() == stream.len(),
            rows.holds(
                self.depth,
                rows_before(self.meta().shape(), stream, pass_count(self.interface)),
                image_filters(self.meta().shape(), stream),
            ),
        ensures
            self.color_type == 3 && index_at(self.meta(), stream, x as int, y as int)
                >= self.colors@.len() ==> r == Err::<Pixel, PngError>(PngError::IndexOutOfRange),
            !(self.color_type == 3 && index_at(self.meta(), stream, x as int, y as int)
                >= self.colors@.len()) ==> r is Ok && r->Ok_0 == pixel_at(
                self.meta(),
                stream,
                x as int,
                y as int,
            ),
    {
        let ghost shape = self.meta().shape();
        let p: u8 = find_pass(self.interface, x, y);
        let g: (u32, u32, u32, u32) = grid(self.interface, p);
        proof {
            lemma_pass_of(shape, x as int, y as int);
            lemma_rows_before(shape, stream, pass_count(self.interface));
            crate::layout::lemma_pass_start_grows(shape, p + 1, pass_count(self.interface));
        }
        let plan: &PassPlan = &plans[p as usize];
        let sx: u32 = (x - g.0) / g.2;
        let sy: u32 = (y - g.1) / g.3;
        proof {
            lemma_recon_row_len(shape, stream, p as int, sy as int);
            assert(recon_row(shape, stream, p as int, sy as int) == rows_before(
                shape,
                stream,
                pass_count(self.interface),
            )[shape.lines_before(p as int) + sy]);
        }
        assert(rows.samples@.len() == rows.samples.len());
        let at: usize = plan.first_line + sy as usize;
        self.pixel_of(
            &rows.samples[at],
            &rows.wide[at],
            sx,
            (x, y),
            Ghost(recon_row(shape, stream, p as int, sy as int)),
            Ghost(shape.pass_width(p as int)),
        )
    }

    /// The pixels of the image, row by row.
    fn materialize(&self, plans: &Vec<PassPlan>, rows: &Rows, Ghost(stream): Ghost<Seq<u8>>) -> (r:
        Result<Vec<Pixel>, PngError>)
        requires
            legal_depth(self.color_type, self.depth),
            plans@.len() == pass_count(self.interface),
            forall|p: int|
                0 <= p < plans@.len() ==> (#[trigger] plans@[p]).matches(self.meta().shape(), p),
            self.meta().shape().stream_len() == stream.len(),
            rows.holds(
                self.depth,
                rows_before(self.meta().shape(), stream, pass_count(self.interface)),
                image_filters(self.meta().shape(), stream),
            ),
        ensures
            has_stray_index(self.meta(), stream) ==> r == Err::<Vec<Pixel>, PngError>(
                PngError::IndexOutOfRange,
            ),
            !has_stray_index(self.meta(), stream) ==> r is Ok && r->Ok_0@ == image_pixels(
                self.meta(),
                stream,
            ),
    {
        let ghost m = self.meta();
        let ghost w = self.width as int;
        let mut pixels: Vec<Pixel> = Vec::new();
        let mut y: u32 = 0;
        while y < self.height
            invariant
                m == self.meta(),
                w == self.width,
                legal_depth(self.color_type, self.depth),
                plans@.len() == pass_count(self.interface),
                forall|p: int| 0 <= p < plans@.len() ==> (#[trigger] plans@[p]).matches(m.shape(), p),
                m.shape().stream_len() == stream.len(),
                rows.holds(
                    self.depth,
                    rows_before(m.shape(), stream, pass_count(self.interface)),
                    image_filters(m.shape(), stream),
                ),
                y <= self.height,
                pixels@.len() == y * w,
                forall|k: int|
                    0 <= k < pixels@.len() ==> #[trigger] pixels@[k] == pixel_at(
                        m,
                        stream,
                        k % w,
                        k / w,
                    ),
                self.color_type == 3 ==> forall|i: int, j: int|
                    0 <= i < w && 0 <= j < y ==> #[trigger] index_at(m, stream, i, j)
                        < self.colors@.len(),
            decreases self.height - y,
        {
            let mut x: u32 = 0;
            while x < self.width
                invariant
                    m == self.meta(),
                    w == self.width,
                    legal_depth(self.color_type, self.depth),
                    plans@.len() == pass_count(self.interface),
                    forall|p: int|
                        0 <= p < plans@.len() ==> (#[trigger] plans@[p]).matches(m.shape(), p),
                    m.shape().stream_len() == stream.len(),
                    rows.holds(
                        self.depth,
                        rows_before(m.shape(), stream, pass_count(self.interface)),
                        image_filters(m.shape(), stream),
                    ),
                    y < self.height,
                    x <= self.width,
                    pixels@.len() == y * w + x,
                    forall|k: int|
                        0 <= k < pixels@.len() ==> #[trigger] pixels@[k] == pixel_at(
                            m,
                            stream,
                            k % w,
                            k / w,
                        ),
                    self.color_type == 3 ==> forall|i: int, j: int|
                        0 <= i < w && 0 <= j < y ==> #[trigger] index_at(m, stream, i, j)
                            < self.colors@.len(),
                    self.color_type == 3 ==> forall|i: int|
                        0 <= i < x ==> #[trigger] index_at(m, stream, i, y as int)
                            < self.colors@.len(),
                decreases self.width - x,
            {
                let pixel: Pixel = match self.pixel_from(plans, rows, x, y, Ghost(stream)) {
                    Ok(pixel) => pixel,
                    Err(e) => {
                        return Err(e);
                    },
                };
                proof {
                    lemma_fundamental_div_mod_converse(y * w + x, w, y as int, x as int);
                }
                pixels.push(pixel);
                x = x + 1;
            }
            assert((y + 1) * w == y * w + w) by (nonlinear_arith);
            y = y + 1;
        }
        proof {
            assert(pixels@.len() == self.height * w);
            assert(pixels@ =~= image_pixels(m, stream));
        }
        Ok(pixels)
    }

    /// Builds the pixels and the filter codes of the image out of its
    /// decompressed image data. The filters are undone on the packed bytes
    /// of each scanline, against the row above it in the same pass; the
    /// reconstructed rows are then unpacked to samples and made into pixels
    /// by colour type.
    pub fn assemble(&self, inflated: &Vec<u8>) -> (r: Result<(Vec<Pixel>, Vec<u8>), PngError>)
        ensures
            match assembled(self.meta(), inflated@) {
                Ok(image) => r is Ok && r->Ok_0.0@ == image.pixels && r->Ok_0.1@ == image.filters,
                Err(e) => r == Err::<(Vec<Pixel>, Vec<u8>), PngError>(e),
            },
            r is Ok ==> r->Ok_0.0@.len() == self.width * self.height,
            r is Ok && self.interface == 0 ==> r->Ok_0.1@.len() == self.height,
            r is Ok && self.color_type == 3 ==> forall|k: int|
                0 <= k < r->Ok_0.0@.len() ==> (#[trigger] r->Ok_0.0@[k]).palette_index is Some
                    && r->Ok_0.0@[k].palette_index->Some_0 < self.colors@.len(),
            r is Ok && self.meta().opaque() && (self.color_type == 0 || self.color_type == 2
                || self.color_type == 3) ==> forall|k: int|
                0 <= k < r->Ok_0.0@.len() ==> (#[trigger] r->Ok_0.0@[k]).color.a == 255,
    {
        proof {
            if assembled(self.meta(), inflated@) is Ok {
                crate::image::lemma_assembled_image(self.meta(), inflated@);
            }
        }
        if !is_legal_depth(self.color_type, self.depth) {
            return Err(PngError::InvalidColorTypeDepth);
        }
        if self.color_type == 3 && self.colors.len() == 0 {
            return Err(PngError::MissingPalette);
        }
        let plans: Vec<PassPlan> = match plan_passes(
            self.width,
            self.height,
            self.depth,
            self.color_type,
            self.interface,
            inflated.len(),
        ) {
            Ok(plans) => plans,
            Err(e) => {
                return Err(e);
            },
        };
        let rows: Rows = match unfilter_passes(
            self.color_type,
            self.depth,
            &plans,
            inflated,
            Ghost(self.meta().shape()),
        ) {
            Ok(rows) => rows,
            Err(e) => {
                return Err(e);
            },
        };
        let pixels: Vec<Pixel> = match self.materialize(&plans, &rows, Ghost(inflated@)) {
            Ok(pixels) => pixels,
            Err(e) => {
                return Err(e);
            },
        };
        Ok((pixels, rows.filters))
    }
}

} // verus!
