use vstd::prelude::*;
use crate::error::PngError;
use crate::metadata::{legal_depth, samples_per_pixel};

verus! {

/// The grid of one pass over the image: the pixels of columns
/// `x0, x0 + dx, ..` and rows `y0, y0 + dy, ..`.
pub struct Pass {
    pub x0: int,
    pub y0: int,
    pub dx: int,
    pub dy: int,
}

/// In how many passes the image data holds the image: one, or the seven
/// of Adam7 where the header's interlace field is not zero.
pub open spec fn pass_count(interface: u8) -> int {
    if interface == 0 {
        1
    } else {
        7
    }
}

/// The grid of pass `p`, counted from zero.
pub open spec fn pass_grid(interface: u8, p: int) -> Pass {
    if interface == 0 {
        Pass { x0: 0, y0: 0, dx: 1, dy: 1 }
    } else if p == 0 {
        Pass { x0: 0, y0: 0, dx: 8, dy: 8 }
    } else if p == 1 {
        Pass { x0: 4, y0: 0, dx: 8, dy: 8 }
    } else if p == 2 {
        Pass { x0: 0, y0: 4, dx: 4, dy: 8 }
    } else if p == 3 {
        Pass { x0: 2, y0: 0, dx: 4, dy: 4 }
    } else if p == 4 {
        Pass { x0: 0, y0: 2, dx: 2, dy: 4 }
    } else if p == 5 {
        Pass { x0: 1, y0: 0, dx: 2, dy: 2 }
    } else {
        Pass { x0: 0, y0: 1, dx: 1, dy: 2 }
    }
}

/// Whether the pixel in column `x` and row `y` lies on the grid.
pub open spec fn on_grid(g: Pass, x: int, y: int) -> bool {
    &&& x >= g.x0
    &&& (x - g.x0) % g.dx == 0
    &&& y >= g.y0
    &&& (y - g.y0) % g.dy == 0
}

/// The pass that holds the pixel in column `x` and row `y`.
pub open spec fn pass_of(interface: u8, x: int, y: int) -> int {
    if on_grid(pass_grid(interface, 0), x, y) {
        0
    } else if on_grid(pass_grid(interface, 1), x, y) {
        1
    } else if on_grid(pass_grid(interface, 2), x, y) {
        2
    } else if on_grid(pass_grid(interface, 3), x, y) {
        3
    } else if on_grid(pass_grid(interface, 4), x, y) {
        4
    } else if on_grid(pass_grid(interface, 5), x, y) {
        5
    } else {
        6
    }
}

/// How many of `first, first + step, ..` lie below `extent`.
pub open spec fn steps(extent: int, first: int, step: int) -> int {
    if extent <= first {
        0
    } else {
        (extent - first + step - 1) / step
    }
}

/// The bytes that a row of `width` pixels is packed into.
pub open spec fn row_bytes(width: int, color_type: u8, depth: u8) -> int {
    (width * (samples_per_pixel(color_type) * depth) + 7) / 8
}

/// The distance in bytes between a byte of a packed row and the byte that
/// the filters take for its left neighbour.
pub open spec fn pixel_stride(color_type: u8, depth: u8) -> int {
    let whole = ((depth + 7) / 8) * samples_per_pixel(color_type);
    if whole < 1 {
        1
    } else {
        whole
    }
}

/// The size of an image and the way its data is laid out.
pub struct Shape {
    pub width: u32,
    pub height: u32,
    pub depth: u8,
    pub color_type: u8,
    pub interface: u8,
}

impl Shape {
    /// The width in pixels of pass `p`.
    pub open spec fn pass_width(self, p: int) -> int {
        let g = pass_grid(self.interface, p);
        steps(self.width as int, g.x0, g.dx)
    }

    /// The height in pixels of pass `p`.
    pub open spec fn pass_height(self, p: int) -> int {
        let g = pass_grid(self.interface, p);
        steps(self.height as int, g.y0, g.dy)
    }

    /// The scanlines that the image data holds for pass `p`: a row of the
    /// image each where the image is not interlaced, and none for a pass of
    /// Adam7 without pixels.
    pub open spec fn pass_lines(self, p: int) -> int {
        if self.interface != 0 && self.pass_width(p) == 0 {
            0
        } else {
            self.pass_height(p)
        }
    }

    /// The bytes of one scanline of pass `p`: the filter code and the
    /// packed row.
    pub open spec fn line_len(self, p: int) -> int {
        1 + row_bytes(self.pass_width(p), self.color_type, self.depth)
    }

    /// The bytes of pass `p`.
    pub open spec fn pass_size(self, p: int) -> int {
        self.pass_lines(p) * self.line_len(p)
    }

    /// Where the bytes of pass `p` start in the image data.
    pub open spec fn pass_start(self, p: int) -> int
        decreases p,
    {
        if p <= 0 {
            0
        } else {
            self.pass_start(p - 1) + self.pass_size(p - 1)
        }
    }

    /// The scanlines of the passes before `p`.
    pub open spec fn lines_before(self, p: int) -> int
        decreases p,
    {
        if p <= 0 {
            0
        } else {
            self.lines_before(p - 1) + self.pass_lines(p - 1)
        }
    }

    /// The length that the decompressed image data must have.
    pub open spec fn stream_len(self) -> int {
        self.pass_start(pass_count(self.interface))
    }

    /// The number of scanlines in the image data.
    pub open spec fn line_count(self) -> int {
        self.lines_before(pass_count(self.interface))
    }

    /// Where scanline `line` of pass `p` starts in the image data.
    pub open spec fn line_start(self, p: int, line: int) -> int {
        self.pass_start(p) + line * self.line_len(p)
    }
}

/// Which columns, or rows, the grids of Adam7 pick, by the remainder of the
/// index modulo eight.
proof fn lemma_axis(v: int)
    requires
        0 <= v,
    ensures
        (v % 8 == 0) <==> (v - 0) % 8 == 0,
        (v % 8 == 4) <==> (v >= 4 && (v - 4) % 8 == 0),
        (v % 8 == 0 || v % 8 == 4) <==> (v - 0) % 4 == 0,
        (v % 8 == 2 || v % 8 == 6) <==> (v >= 2 && (v - 2) % 4 == 0),
        (v % 8 == 0 || v % 8 == 2 || v % 8 == 4 || v % 8 == 6) <==> (v - 0) % 2 == 0,
        (v % 8 == 1 || v % 8 == 3 || v % 8 == 5 || v % 8 == 7) <==> (v >= 1 && (v - 1) % 2 == 0),
        (v - 0) % 1 == 0,
        0 <= v % 8 < 8,
{
}

/// The place on its grid of an index below `extent`.
proof fn lemma_step_index(extent: int, first: int, step: int, v: int)
    requires
        step == 1 || step == 2 || step == 4 || step == 8,
        0 <= first <= v < extent,
    ensures
        0 <= (v - first) / step < steps(extent, first, step),
{
}

/// Every pixel lies on the grid of exactly one pass, and has a place in
/// that pass's image.
pub proof fn lemma_pass_of(shape: Shape, x: int, y: int)
    requires
        0 <= x < shape.width,
        0 <= y < shape.height,
    ensures
        ({
            let p = pass_of(shape.interface, x, y);
            let g = pass_grid(shape.interface, p);
            &&& 0 <= p < pass_count(shape.interface)
            &&& on_grid(g, x, y)
            &&& forall|q: int|
                0 <= q < pass_count(shape.interface) && q != p ==> !on_grid(
                    #[trigger] pass_grid(shape.interface, q),
                    x,
                    y,
                )
            &&& 0 <= (x - g.x0) / g.dx < shape.pass_width(p)
            &&& 0 <= (y - g.y0) / g.dy < shape.pass_lines(p)
        }),
{
    let i = shape.interface;
    let p = pass_of(i, x, y);
    let g = pass_grid(i, p);
    lemma_axis(x);
    lemma_axis(y);
    assert(0 <= p < pass_count(i) && on_grid(g, x, y));
    lemma_step_index(shape.width as int, g.x0, g.dx, x);
    lemma_step_index(shape.height as int, g.y0, g.dy, y);
    assert forall|q: int| 0 <= q < pass_count(i) && q != p implies !on_grid(
        #[trigger] pass_grid(i, q),
        x,
        y,
    ) by {
        if i != 0 {
            assert(q == 0 || q == 1 || q == 2 || q == 3 || q == 4 || q == 5 || q == 6);
        }
    }
}

/// Without interlacing the image data holds one scanline for each row of
/// the image.
pub proof fn lemma_one_line_per_row(shape: Shape)
    requires
        shape.interface == 0,
    ensures
        shape.line_count() == shape.height,
        shape.pass_width(0) == shape.width,
        shape.stream_len() == shape.height * (1 + row_bytes(
            shape.width as int,
            shape.color_type,
            shape.depth,
        )),
{
    reveal_with_fuel(Shape::lines_before, 2);
    reveal_with_fuel(Shape::pass_start, 2);
}

/// What a packed row of a legal image holds: whole bytes or whole words at
/// eight and sixteen bits, and at least one sample for each pixel below.
pub proof fn lemma_row_bytes(width: int, color_type: u8, depth: u8)
    requires
        0 <= width,
        legal_depth(color_type, depth),
    ensures
        0 <= row_bytes(width, color_type, depth) <= width * 8,
        depth == 8 ==> row_bytes(width, color_type, depth) == width * samples_per_pixel(
            color_type,
        ),
        depth == 16 ==> row_bytes(width, color_type, depth) == 2 * (width * samples_per_pixel(
            color_type,
        )),
        depth < 8 ==> samples_per_pixel(color_type) == 1,
        depth == 1 ==> row_bytes(width, color_type, depth) * 8 >= width,
        depth == 2 ==> row_bytes(width, color_type, depth) * 4 >= width,
        depth == 4 ==> row_bytes(width, color_type, depth) * 2 >= width,
        1 <= pixel_stride(color_type, depth) <= 8,
{
    let spp = samples_per_pixel(color_type);
    if depth == 1 {
        assert(width * (spp * depth) == width) by (nonlinear_arith)
            requires
                spp == 1,
                depth == 1,
        ;
        assert(row_bytes(width, color_type, depth) == (width + 7) / 8);
    } else if depth == 2 {
        assert(width * (spp * depth) == width * 2) by (nonlinear_arith)
            requires
                spp == 1,
                depth == 2,
        ;
        assert(row_bytes(width, color_type, depth) == (width * 2 + 7) / 8);
    } else if depth == 4 {
        assert(width * (spp * depth) == width * 4) by (nonlinear_arith)
            requires
                spp == 1,
                depth == 4,
        ;
        assert(row_bytes(width, color_type, depth) == (width * 4 + 7) / 8);
    } else if depth == 8 {
        assert(width * (spp * depth) == (width * spp) * 8) by (nonlinear_arith)
            requires
                depth == 8,
        ;
        assert(0 <= width * spp <= width * 4) by (nonlinear_arith)
            requires
                0 <= width,
                1 <= spp <= 4,
        ;
    } else {
        assert(width * (spp * depth) == (width * spp) * 16) by (nonlinear_arith)
            requires
                depth == 16,
        ;
        assert(0 <= width * spp <= width * 4) by (nonlinear_arith)
            requires
                0 <= width,
                1 <= spp <= 4,
        ;
    }
}

/// The grid of pass `p` as machine integers: first column, first row,
/// column step, row step.
pub(crate) fn grid(interface: u8, p: u8) -> (g: (u32, u32, u32, u32))
    ensures
        g.0 == pass_grid(interface, p as int).x0,
        g.1 == pass_grid(interface, p as int).y0,
        g.2 == pass_grid(interface, p as int).dx,
        g.3 == pass_grid(interface, p as int).dy,
        g.0 < g.2 <= 8,
        g.1 < g.3 <= 8,
{
    if interface == 0 {
        (0, 0, 1, 1)
    } else if p == 0 {
        (0, 0, 8, 8)
    } else if p == 1 {
        (4, 0, 8, 8)
    } else if p == 2 {
        (0, 4, 4, 8)
    } else if p == 3 {
        (2, 0, 4, 4)
    } else if p == 4 {
        (0, 2, 2, 4)
    } else if p == 5 {
        (1, 0, 2, 2)
    } else {
        (0, 1, 1, 2)
    }
}

/// The pass that holds the pixel in column `x` and row `y`.
pub(crate) fn find_pass(interface: u8, x: u32, y: u32) -> (p: u8)
    ensures
        p == pass_of(interface, x as int, y as int),
        p < pass_count(interface),
{
    proof {
        lemma_axis(x as int);
        lemma_axis(y as int);
        assert(x % 4 == (x % 8) % 4 && x % 2 == (x % 8) % 2);
        assert(y % 4 == (y % 8) % 4 && y % 2 == (y % 8) % 2);
    }
    if interface == 0 {
        0
    } else if y % 8 == 0 && x % 8 == 0 {
        0
    } else if y % 8 == 0 && x % 8 == 4 {
        1
    } else if y % 8 == 4 && x % 4 == 0 {
        2
    } else if y % 4 == 0 && x % 4 == 2 {
        3
    } else if y % 4 == 2 && x % 2 == 0 {
        4
    } else if y % 2 == 0 {
        5
    } else {
        6
    }
}

/// How many of `first, first + step, ..` lie below `extent`.
pub(crate) fn count_steps(extent: u32, first: u32, step: u32) -> (n: u32)
    requires
        1 <= step <= 8,
    ensures
        n == steps(extent as int, first as int, step as int),
        n <= extent,
{
    if extent <= first {
        0
    } else {
        let span: u64 = (extent - first) as u64 + (step as u64 - 1);
        let n: u64 = span / (step as u64);
        assert(n <= extent) by (nonlinear_arith)
            requires
                n == span / (step as u64),
                span <= extent + step - 1,
                1 <= step,
        ;
        n as u32
    }
}

/// How many samples make a pixel.
pub(crate) fn channels(color_type: u8) -> (n: u8)
    ensures
        n == samples_per_pixel(color_type),
{
    if color_type == 2 {
        3
    } else if color_type == 4 {
        2
    } else if color_type == 6 {
        4
    } else {
        1
    }
}

/// Whether the format allows `depth` bits a sample for `color_type`.
pub(crate) fn is_legal_depth(color_type: u8, depth: u8) -> (r: bool)
    ensures
        r == legal_depth(color_type, depth),
{
    if color_type == 0 {
        depth == 1 || depth == 2 || depth == 4 || depth == 8 || depth == 16
    } else if color_type == 3 {
        depth == 1 || depth == 2 || depth == 4 || depth == 8
    } else if color_type == 2 || color_type == 4 || color_type == 6 {
        depth == 8 || depth == 16
    } else {
        false
    }
}

/// Where one pass lies in the image data.
pub struct PassPlan {
    /// The pixels in a row of the pass.
    pub width: u32,
    /// The scanlines of the pass.
    pub lines: u32,
    /// The bytes of a scanline, filter code included.
    pub line_len: usize,
    /// Where the pass starts in the image data.
    pub start: usize,
    /// How many scanlines the earlier passes hold.
    pub first_line: usize,
}

impl PassPlan {
    /// Whether the plan is that of pass `p` of an image of the given shape.
    pub open spec fn matches(self, shape: Shape, p: int) -> bool {
        &&& self.width == shape.pass_width(p)
        &&& self.lines == shape.pass_lines(p)
        &&& self.lines > 0 ==> self.line_len == shape.line_len(p)
        &&& self.start == shape.pass_start(p)
        &&& self.first_line == shape.lines_before(p)
    }
}

/// Lays the passes of an image out over image data of `len` bytes. Data
/// shorter than the passes need is `Truncated`, longer is
/// `UnexpectedTrailingBytes`.
pub(crate) fn plan_passes(width: u32, height: u32, depth: u8, color_type: u8, interface: u8, len: usize)
    -> (r: Result<Vec<PassPlan>, PngError>)
    requires
        legal_depth(color_type, depth),
    ensures
        ({
            let shape = Shape { width, height, depth, color_type, interface };
            &&& len < shape.stream_len() ==> r == Err::<Vec<PassPlan>, PngError>(
                PngError::Truncated,
            )
            &&& len > shape.stream_len() ==> r == Err::<Vec<PassPlan>, PngError>(
                PngError::UnexpectedTrailingBytes,
            )
            &&& len == shape.stream_len() ==> {
                &&& r is Ok
                &&& r->Ok_0@.len() == pass_count(interface)
                &&& forall|p: int|
                    0 <= p < pass_count(interface) ==> (#[trigger] r->Ok_0@[p]).matches(shape, p)
            }
        }),
{
    let ghost shape = Shape { width, height, depth, color_type, interface };
    let count: u8 = if interface == 0 {
        1
    } else {
        7
    };
    let per_pixel: u8 = channels(color_type);
    assert(per_pixel * depth <= 64) by (nonlinear_arith)
        requires
            0 <= per_pixel <= 4,
            0 <= depth <= 16,
    ;
    let bits: u64 = (per_pixel as u64) * (depth as u64);
    let mut plans: Vec<PassPlan> = Vec::new();
    let mut start: usize = 0;
    let mut first_line: usize = 0;
    let mut p: u8 = 0;
    while p < count
        invariant
            shape == (Shape { width, height, depth, color_type, interface }),
            legal_depth(color_type, depth),
            count == pass_count(interface),
            bits == samples_per_pixel(color_type) * depth,
            bits <= 64,
            p <= count,
            start == shape.pass_start(p as int),
            first_line == shape.lines_before(p as int),
            start <= len,
            first_line <= start,
            plans@.len() == p,
            forall|q: int| 0 <= q < p ==> (#[trigger] plans@[q]).matches(shape, q),
        decreases count - p,
    {
        let g: (u32, u32, u32, u32) = grid(interface, p);
        let pass_width: u32 = count_steps(width, g.0, g.2);
        let pass_height: u32 = count_steps(height, g.1, g.3);
        let lines: u32 = if interface != 0 && pass_width == 0 {
            0
        } else {
            pass_height
        };
        proof {
            lemma_row_bytes(pass_width as int, color_type, depth);
            assert(pass_width * bits <= 0xFFFF_FFFF * 64) by (nonlinear_arith)
                requires
                    0 <= pass_width <= 0xFFFF_FFFF,
                    0 <= bits <= 64,
            ;
        }
        let row: u64 = ((pass_width as u64) * bits + 7) / 8;
        let line_len: u128 = 1 + row as u128;
        proof {
            assert(lines * line_len <= 0xFFFF_FFFF * 0x8_0000_0000) by (nonlinear_arith)
                requires
                    0 <= lines <= 0xFFFF_FFFF,
                    0 <= line_len <= 0x8_0000_0000,
            ;
            assert(0 <= lines * line_len) by (nonlinear_arith)
                requires
                    0 <= lines,
                    0 <= line_len,
            ;
            assert(lines >= 1 ==> lines * line_len >= line_len && lines * line_len >= lines)
                by (nonlinear_arith)
                requires
                    0 <= lines,
                    1 <= line_len,
            ;
            assert(lines == 0 ==> lines * line_len == 0) by (nonlinear_arith);
        }
        let size: u128 = (lines as u128) * line_len;
        assert(size == shape.pass_size(p as int));
        assert(shape.pass_start(p + 1) == start + size);
        assert(shape.lines_before(p + 1) == first_line + lines);
        if size > (len - start) as u128 {
            proof {
                lemma_pass_start_grows(shape, p + 1, count as int);
            }
            return Err(PngError::Truncated);
        }
        plans.push(
            PassPlan {
                width: pass_width,
                lines,
                line_len: if lines == 0 {
                    0
                } else {
                    line_len as usize
                },
                start,
                first_line,
            },
        );
        start = start + size as usize;
        first_line = first_line + lines as usize;
        p = p + 1;
    }
    if start < len {
        return Err(PngError::UnexpectedTrailingBytes);
    }
    Ok(plans)
}

/// Later passes start no earlier.
pub proof fn lemma_pass_start_grows(shape: Shape, p: int, q: int)
    requires
        0 <= p <= q,
        legal_depth(shape.color_type, shape.depth),
    ensures
        shape.pass_start(p) <= shape.pass_start(q),
        0 <= shape.pass_start(p),
    decreases q,
{
    if p < q {
        lemma_pass_start_grows(shape, p, q - 1);
        lemma_pass_size(shape, q - 1);
    } else if p > 0 {
        lemma_pass_start_grows(shape, p - 1, p - 1);
        lemma_pass_size(shape, p - 1);
    }
}

/// A pass holds no fewer bytes than scanlines.
pub proof fn lemma_pass_size(shape: Shape, p: int)
    requires
        legal_depth(shape.color_type, shape.depth),
    ensures
        0 <= shape.pass_lines(p) <= shape.pass_size(p),
        0 <= shape.pass_width(p),
        1 <= shape.line_len(p),
{
    let g = pass_grid(shape.interface, p);
    assert(0 <= shape.pass_width(p));
    assert(0 <= shape.pass_height(p));
    lemma_row_bytes(shape.pass_width(p), shape.color_type, shape.depth);
    let lines = shape.pass_lines(p);
    let line_len = shape.line_len(p);
    assert(0 <= lines <= lines * line_len) by (nonlinear_arith)
        requires
            0 <= lines,
            1 <= line_len,
    ;
}

} // verus!
