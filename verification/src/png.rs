use vstd::prelude::*;
use crate::chunk::{read_be32, split, views, Chunk, ChunkView};
use crate::image::{assembled, Image};
use crate::zlib::{inflate_zlib, zlib_inflated};
use crate::color::Color;
use crate::error::PngError;
use crate::helper::UXBigger;
use crate::layout::is_legal_depth;
use crate::metadata::{
    apply_chunk, header_of, image_data, interpret, interpreted, palette_entries,
    legal_depth, with_alphas, Metadata,
};
use crate::pixel::Pixel;

verus! {

/// A decoded image: what the header and the metadata chunks say of it,
/// its pixels row by row from the top, and the filter code of each
/// scanline.
#[derive(Clone, Debug)]
pub struct Png {
    pub chunks: Vec<Chunk>,
    pub width: u32,
    pub height: u32,
    pub depth: u8,
    pub color_type: u8,
    pub compression_type: u8,
    pub filter: u8,
    pub interface: u8,
    /// The palette, with the alpha that `tRNS` gave each entry.
    pub colors: Vec<Color>,
    /// The gamma of the image, in units of 1/100000.
    pub gamma: u32,
    pub rendering_intent: u8,
    pub ppu_x: u32,
    pub ppu_y: u32,
    pub unit_spec: u8,
    /// The gray level that is transparent, if there is one.
    pub gray_lvl: Option<u16>,
    /// The red, green and blue samples that are transparent together, if
    /// there are such, as the file holds them.
    pub truecolor_lvl: Option<(u16, u16, u16)>,
    /// The transparent colour narrowed to eight bits a channel.
    pub truecolor_alpha: Option<Color>,
    pub pixels: Vec<Pixel>,
    pub filters: Vec<u8>,
}

/// What a whole file decodes to: its chunks, what they say of the image,
/// and the image that the decompressed `IDAT` payloads hold. The first
/// failure on the way is the result; image data that does not decompress is
/// `InflateFailed`.
pub open spec fn decoded(bytes: Seq<u8>) -> Result<(Seq<ChunkView>, Metadata, Image), PngError> {
    match split(bytes) {
        Err(e) => Err(e),
        Ok(chunks) => match interpret(chunks) {
            Err(e) => Err(e),
            Ok(m) => match zlib_inflated(image_data(chunks, chunks.len())) {
                None => Err(PngError::InflateFailed),
                Some(stream) => match assembled(m, stream) {
                    Err(e) => Err(e),
                    Ok(image) => Ok((chunks, m, image)),
                },
            },
        },
    }
}

/// Whether `big` is the image `small`, `w` pixels wide and `h` high, with
/// every pixel repeated `scalar` times in each direction.
pub open spec fn enlarged(big: Seq<Pixel>, small: Seq<Pixel>, w: int, h: int, scalar: int) -> bool {
    &&& big.len() == (w * scalar) * (h * scalar)
    &&& forall|x: int, y: int|
        0 <= x < w * scalar && 0 <= y < h * scalar ==> #[trigger] big[y * (w * scalar) + x]
            == small[(y / scalar) * w + x / scalar]
}

/// The place in the small image of the pixel at place `k` of the image
/// enlarged to `big_w` pixels a row.
pub open spec fn source_of(k: int, big_w: int, w: int, scalar: int) -> int {
    ((k / big_w) / scalar) * w + (k % big_w) / scalar
}

/// Whether `i` is an index below `len`.
pub open spec fn in_range(i: int, len: int) -> bool {
    0 <= i < len
}

/// Adds the colours of a `PLTE` payload to a palette.
fn read_palette(colors: &mut Vec<Color>, data: &Vec<u8>)
    requires
        data@.len() % 3 == 0,
    ensures
        final(colors)@ == old(colors)@ + palette_entries(data@),
{
    let mut i: usize = 0;
    while i < data.len()
        invariant
            data@.len() % 3 == 0,
            i % 3 == 0,
            i <= data.len(),
            colors@ == old(colors)@ + palette_entries(data@).take(i as int / 3),
        decreases data.len() - i,
    {
        colors.push(Color { r: data[i], g: data[i + 1], b: data[i + 2], a: 255 });
        assert(colors@ =~= old(colors)@ + palette_entries(data@).take((i + 3) / 3));
        i = i + 3;
    }
    assert(palette_entries(data@).take(i as int / 3) =~= palette_entries(data@));
}

/// Gives the entries of a palette the alpha bytes of a `tRNS` payload.
fn read_alphas(colors: &mut Vec<Color>, alphas: &Vec<u8>)
    ensures
        final(colors)@ == with_alphas(old(colors)@, alphas@),
{
    let mut i: usize = 0;
    while i < colors.len() && i < alphas.len()
        invariant
            colors@.len() == old(colors)@.len(),
            i <= colors@.len(),
            i <= alphas@.len(),
            forall|k: int| 0 <= k < i ==> #[trigger] colors@[k] == with_alphas(old(colors)@, alphas@)[k],
            forall|k: int| i <= k < colors@.len() ==> #[trigger] colors@[k] == old(colors)@[k],
        decreases colors.len() - i,
    {
        let c: Color = colors[i];
        colors.set(i, Color { r: c.r, g: c.g, b: c.b, a: alphas[i] });
        i = i + 1;
    }
    assert(colors@ =~= with_alphas(old(colors)@, alphas@));
}

/// Adds the bytes of `src` to `dst`.
fn append(dst: &mut Vec<u8>, src: &Vec<u8>)
    ensures
        final(dst)@ == old(dst)@ + src@,
{
    let mut i: usize = 0;
    while i < src.len()
        invariant
            i <= src.len(),
            dst@ == old(dst)@ + src@.take(i as int),
        decreases src.len() - i,
    {
        dst.push(src[i]);
        assert(dst@ =~= old(dst)@ + src@.take(i + 1));
        i = i + 1;
    }
    assert(src@.take(i as int) =~= src@);
}

/// The 16-bit word in the two bytes of `data` from `at`.
fn read_be16(data: &Vec<u8>, at: usize) -> (r: u16)
    requires
        at + 2 <= data.len(),
    ensures
        r == crate::helper::be16(data@[at as int], data@[at + 1]),
{
    let pair: [u8; 2] = [data[at], data[at + 1]];
    pair.to_u16()
}

/// A 16-bit transparency value narrowed to a channel of a colour.
fn narrow_key(value: u16, depth: u8) -> (r: u8)
    ensures
        r == crate::metadata::key_channel(value, depth),
{
    if depth == 16 {
        assert(value >> 8 == value / 256) by (bit_vector);
        (value >> 8) as u8
    } else {
        (value % 256) as u8
    }
}

/// The tag of the image data is none of the tags of the metadata chunks.
proof fn lemma_tags_differ()
    ensures
        crate::metadata::idat() != crate::metadata::plte(),
        crate::metadata::idat() != crate::metadata::trns(),
        crate::metadata::idat() != crate::metadata::gama(),
        crate::metadata::idat() != crate::metadata::srgb(),
        crate::metadata::idat() != crate::metadata::phys(),
{
    let d = crate::metadata::idat();
    assert(d[1] == 0x44);
    assert(crate::metadata::plte()[1] == 0x4C);
    assert(crate::metadata::trns()[1] == 0x52);
    assert(crate::metadata::gama()[1] == 0x41);
    assert(crate::metadata::srgb()[1] == 0x52);
    assert(crate::metadata::phys()[1] == 0x48);
}

/// Once a chunk has failed, the chunks behind it change nothing.
pub proof fn lemma_first_failure(chunks: Seq<crate::chunk::ChunkView>, k: nat, n: nat)
    requires
        1 <= k <= n,
    ensures
        interpreted(chunks, k) is Err ==> interpreted(chunks, n) == interpreted(chunks, k),
    decreases n - k,
{
    if k < n {
        lemma_first_failure(chunks, k, (n - 1) as nat);
    }
}

impl Png {
    /// What the image's chunks said of it.
    pub open spec fn meta(&self) -> Metadata {
        Metadata {
            width: self.width,
            height: self.height,
            depth: self.depth,
            color_type: self.color_type,
            compression_type: self.compression_type,
            filter: self.filter,
            interface: self.interface,
            colors: self.colors@,
            gamma: self.gamma,
            rendering_intent: self.rendering_intent,
            ppu_x: self.ppu_x,
            ppu_y: self.ppu_y,
            unit_spec: self.unit_spec,
            gray_lvl: self.gray_lvl,
            truecolor_lvl: self.truecolor_lvl,
            truecolor_alpha: self.truecolor_alpha,
        }
    }

    /// Takes in one chunk behind the header: metadata is stored, the payload
    /// of an `IDAT` chunk is added to `data`, any other chunk is passed
    /// over.
    fn apply(&mut self, c: &Chunk, data: &mut Vec<u8>) -> (r: Result<(), PngError>)
        ensures
            match apply_chunk(old(self).meta(), c@) {
                Ok(m) => r is Ok && final(self).meta() == m,
                Err(e) => r == Err::<(), PngError>(e),
            },
            final(self).pixels == old(self).pixels,
            final(self).filters == old(self).filters,
            final(self).chunks == old(self).chunks,
            r is Ok ==> final(data)@ == if c@.name == crate::metadata::idat() {
                old(data)@ + c@.data
            } else {
                old(data)@
            },
    {
        if c.is(0x50, 0x4C, 0x54, 0x45) {
            if c.data.len() % 3 != 0 {
                return Err(PngError::InvalidPaletteLength);
            }
            if self.color_type == 3 {
                read_palette(&mut self.colors, &c.data);
            }
            proof {
                lemma_tags_differ();
            }
        } else if c.is(0x74, 0x52, 0x4E, 0x53) {
            proof {
                lemma_tags_differ();
            }
            if self.color_type == 0 {
                if c.data.len() < 2 {
                    return Err(PngError::Truncated);
                }
                self.gray_lvl = Some(read_be16(&c.data, 0));
            } else if self.color_type == 2 {
                if c.data.len() < 6 {
                    return Err(PngError::Truncated);
                }
                let key: (u16, u16, u16) = (
                    read_be16(&c.data, 0),
                    read_be16(&c.data, 2),
                    read_be16(&c.data, 4),
                );
                self.truecolor_lvl = Some(key);
                self.truecolor_alpha = Some(
                    Color {
                        r: narrow_key(key.0, self.depth),
                        g: narrow_key(key.1, self.depth),
                        b: narrow_key(key.2, self.depth),
                        a: 255,
                    },
                );
            } else if self.color_type == 3 {
                read_alphas(&mut self.colors, &c.data);
            }
        } else if c.is(0x67, 0x41, 0x4D, 0x41) {
            proof {
                lemma_tags_differ();
            }
            if c.data.len() < 4 {
                return Err(PngError::Truncated);
            }
            self.gamma = read_be32(&c.data, 0);
        } else if c.is(0x73, 0x52, 0x47, 0x42) {
            proof {
                lemma_tags_differ();
            }
            if c.data.len() < 1 {
                return Err(PngError::Truncated);
            }
            self.rendering_intent = c.data[0];
        } else if c.is(0x70, 0x48, 0x59, 0x73) {
            proof {
                lemma_tags_differ();
            }
            if c.data.len() < 9 {
                return Err(PngError::Truncated);
            }
            self.ppu_x = read_be32(&c.data, 0);
            self.ppu_y = read_be32(&c.data, 4);
            self.unit_spec = c.data[8];
        } else if c.is(0x49, 0x44, 0x41, 0x54) {
            append(data, &c.data);
        }
        Ok(())
    }

    /// Reads the header and the metadata out of a file's chunks, in file
    /// order, and joins the payloads of the `IDAT` chunks. The image that
    /// comes back has no pixels yet.
    pub fn from_chunks(chunks: Vec<Chunk>) -> (r: Result<(Png, Vec<u8>), PngError>)
        ensures
            match interpret(views(chunks@)) {
                Ok(m) => {
                    &&& r is Ok
                    &&& r->Ok_0.0.meta() == m
                    &&& r->Ok_0.0.chunks == chunks
                    &&& r->Ok_0.0.pixels@.len() == 0
                    &&& r->Ok_0.0.filters@.len() == 0
                    &&& r->Ok_0.1@ == image_data(views(chunks@), chunks@.len())
                    &&& legal_depth(m.color_type, m.depth)
                    &&& m.color_type != 3 ==> m.colors.len() == 0
                },
                Err(e) => r == Err::<(Png, Vec<u8>), PngError>(e),
            },
    {
        let ghost all = views(chunks@);
        proof {
            if interpret(all) is Ok {
                crate::metadata::lemma_header_is_kept(all, all.len());
            }
        }
        if chunks.len() == 0 {
            return Err(PngError::MissingIHDR);
        }
        let first: &Chunk = &chunks[0];
        assert(all[0] == first@);
        proof {
            lemma_first_failure(all, 1, all.len());
        }
        if !first.is(0x49, 0x48, 0x44, 0x52) || first.data.len() != 13 {
            return Err(PngError::MissingIHDR);
        }
        if !is_legal_depth(first.data[9], first.data[8]) {
            return Err(PngError::InvalidColorTypeDepth);
        }
        let mut png = Png {
            chunks: Vec::new(),
            width: read_be32(&first.data, 0),
            height: read_be32(&first.data, 4),
            depth: first.data[8],
            color_type: first.data[9],
            compression_type: first.data[10],
            filter: first.data[11],
            interface: first.data[12],
            colors: Vec::new(),
            gamma: 0,
            rendering_intent: 0,
            ppu_x: 0,
            ppu_y: 0,
            unit_spec: 0,
            gray_lvl: None,
            truecolor_lvl: None,
            truecolor_alpha: None,
            pixels: Vec::new(),
            filters: Vec::new(),
        };
        let mut data: Vec<u8> = Vec::new();
        assert(png.colors@ =~= Seq::<Color>::empty());
        assert(png.meta() == header_of(all[0])->Ok_0);
        assert(data@ =~= image_data(all, 1)) by {
            reveal_with_fuel(image_data, 2);
        }
        let mut i: usize = 1;
        while i < chunks.len()
            invariant
                all == views(chunks@),
                1 <= i <= chunks.len(),
                interpreted(all, i as nat) == Ok::<Metadata, PngError>(png.meta()),
                data@ == image_data(all, i as nat),
                png.pixels@.len() == 0,
                png.filters@.len() == 0,
                png.chunks@.len() == 0,
            decreases chunks.len() - i,
        {
            let c: &Chunk = &chunks[i];
            assert(all[i as int] == c@);
            assert(interpreted(all, (i + 1) as nat) == apply_chunk(png.meta(), c@));
            match png.apply(c, &mut data) {
                Ok(()) => {},
                Err(e) => {
                    proof {
                        lemma_first_failure(all, (i + 1) as nat, all.len());
                    }
                    return Err(e);
                },
            }
            i = i + 1;
        }
        png.chunks = chunks;
        Ok((png, data))
    }

    /// Whether the pixels are as many as the header says, and each pixel of
    /// an indexed image has the colour of the palette entry that it names.
    pub open spec fn wf(&self) -> bool {
        &&& self.pixels@.len() == self.width * self.height
        &&& self.color_type == 3 ==> forall|k: int|
            0 <= k < self.pixels@.len() ==> {
                &&& (#[trigger] self.pixels@[k]).palette_index is Some
                &&& self.pixels@[k].palette_index->Some_0 < self.colors@.len()
                &&& self.pixels@[k].color == self.colors@[self.pixels@[k].palette_index->Some_0 as int]
            }
    }

    /// Completes an image whose header and metadata are read with what the
    /// decompressor made of its image data: `None` where it rejected the
    /// data, which is `InflateFailed`, or else the bytes that the pixels are
    /// assembled from.
    pub fn with_image_data(self, inflated: Option<Vec<u8>>) -> (r: Result<Png, PngError>)
        ensures
            inflated is None ==> r == Err::<Png, PngError>(PngError::InflateFailed),
            inflated matches Some(stream) ==> match assembled(self.meta(), stream@) {
                Ok(image) => {
                    &&& r is Ok
                    &&& r->Ok_0.meta() == self.meta()
                    &&& r->Ok_0.chunks == self.chunks
                    &&& r->Ok_0.pixels@ == image.pixels
                    &&& r->Ok_0.filters@ == image.filters
                    &&& r->Ok_0.wf()
                    &&& r->Ok_0.interface == 0 ==> r->Ok_0.filters@.len() == r->Ok_0.height
                    &&& self.meta().opaque() && (self.color_type == 0 || self.color_type == 2
                        || self.color_type == 3) ==> forall|k: int|
                        0 <= k < image.pixels.len() ==> (#[trigger] image.pixels[k]).color.a == 255
                },
                Err(e) => r == Err::<Png, PngError>(e),
            },
    {
        let stream: Vec<u8> = match inflated {
            Some(stream) => stream,
            None => {
                return Err(PngError::InflateFailed);
            },
        };
        let (pixels, filters): (Vec<Pixel>, Vec<u8>) = match self.assemble(&stream) {
            Ok(image) => image,
            Err(e) => {
                return Err(e);
            },
        };
        proof {
            crate::image::lemma_assembled_image(self.meta(), stream@);
        }
        let mut png = self;
        png.pixels = pixels;
        png.filters = filters;
        Ok(png)
    }

    /// Decodes a whole PNG file: splits it into chunks, reads header and
    /// metadata, decompresses the joined `IDAT` payloads and assembles the
    /// pixels.
    pub fn from_bytes(bytes: &Vec<u8>) -> (r: Result<Png, PngError>)
        ensures
            match decoded(bytes@) {
                Ok((chunks, m, image)) => {
                    &&& r is Ok
                    &&& views(r->Ok_0.chunks@) == chunks
                    &&& r->Ok_0.meta() == m
                    &&& r->Ok_0.pixels@ == image.pixels
                    &&& r->Ok_0.filters@ == image.filters
                    &&& r->Ok_0.wf()
                    &&& legal_depth(m.color_type, m.depth)
                    &&& m.color_type != 3 ==> m.colors.len() == 0
                    &&& r->Ok_0.interface == 0 ==> r->Ok_0.filters@.len() == r->Ok_0.height
                    &&& m.opaque() && (m.color_type == 0 || m.color_type == 2 || m.color_type == 3)
                        ==> forall|k: int|
                        0 <= k < image.pixels.len() ==> (#[trigger] image.pixels[k]).color.a == 255
                },
                Err(e) => r == Err::<Png, PngError>(e),
            },
    {
        let chunks: Vec<Chunk> = match Chunk::from_bytes(bytes) {
            Ok(chunks) => chunks,
            Err(e) => {
                return Err(e);
            },
        };
        let (png, data): (Png, Vec<u8>) = match Png::from_chunks(chunks) {
            Ok(read) => read,
            Err(e) => {
                return Err(e);
            },
        };
        png.with_image_data(inflate_zlib(&data))
    }

    /// The colours of the top-left corner of the image, for a listing: the
    /// first eight pixels of each row, of the first sixteen rows or, where
    /// `full` is set, of every row.
    pub fn preview(&self, full: bool) -> (rows: Vec<Vec<Color>>)
        requires
            self.pixels@.len() == self.width * self.height,
        ensures
            rows@.len() == if full || self.height <= 16 {
                self.height as int
            } else {
                16
            },
            forall|y: int|
                0 <= y < rows@.len() ==> (#[trigger] rows@[y])@.len() == if self.width <= 8 {
                    self.width as int
                } else {
                    8
                },
            forall|y: int, x: int|
                0 <= y < rows@.len() && 0 <= x < rows@[y]@.len() ==> #[trigger] rows@[y]@[x]
                    == self.pixels@[y * self.width + x].color,
    {
        let w: usize = self.width as usize;
        let count: usize = self.pixels.len();
        let shown_rows: u32 = if full || self.height <= 16 {
            self.height
        } else {
            16
        };
        let shown: usize = if self.width <= 8 {
            w
        } else {
            8
        };
        let mut rows: Vec<Vec<Color>> = Vec::new();
        let mut y: usize = 0;
        while y < shown_rows as usize
            invariant
                w == self.width,
                count == self.pixels@.len(),
                count == w * self.height,
                shown_rows <= self.height,
                shown <= w,
                y <= shown_rows,
                rows@.len() == y,
                forall|j: int| 0 <= j < y ==> (#[trigger] rows@[j])@.len() == shown,
                forall|j: int, i: int|
                    0 <= j < y && 0 <= i < shown ==> #[trigger] rows@[j]@[i] == self.pixels@[j * w
                        + i].color,
            decreases shown_rows - y,
        {
            let mut row: Vec<Color> = Vec::new();
            let mut x: usize = 0;
            proof {
                assert(0 <= y * w && y * w + w <= w * self.height) by (nonlinear_arith)
                    requires
                        0 <= y < self.height,
                        0 <= w,
                ;
            }
            let start: usize = y * w;
            while x < shown
                invariant
                    count == self.pixels@.len(),
                    start == y * w,
                    start + w <= count,
                    shown <= w,
                    x <= shown,
                    row@.len() == x,
                    forall|i: int| 0 <= i < x ==> #[trigger] row@[i] == self.pixels@[y * w + i].color,
                decreases shown - x,
            {
                row.push(self.pixels[start + x].color);
                x = x + 1;
            }
            rows.push(row);
            y = y + 1;
        }
        rows
    }

    /// Enlarges the image `scalar` times in each direction: every pixel
    /// becomes a square of `scalar` by `scalar` copies of itself.
    pub fn scale(&mut self, scalar: usize)
        requires
            old(self).pixels@.len() == old(self).width * old(self).height,
            old(self).width * scalar <= u32::MAX,
            old(self).height * scalar <= u32::MAX,
            scalar <= u32::MAX,
        ensures
            final(self).width == old(self).width * scalar,
            final(self).height == old(self).height * scalar,
            final(self).pixels@.len() == final(self).width * final(self).height,
            enlarged(
                final(self).pixels@,
                old(self).pixels@,
                old(self).width as int,
                old(self).height as int,
                scalar as int,
            ),
            final(self).meta() == (Metadata {
                width: final(self).width,
                height: final(self).height,
                ..old(self).meta()
            }),
            final(self).chunks == old(self).chunks,
            final(self).filters == old(self).filters,
            old(self).wf() ==> final(self).wf(),
    {
        let w: usize = self.width as usize;
        let h: usize = self.height as usize;
        let count: usize = self.pixels.len();
        let big_w: u32 = (self.width as u64 * scalar as u64) as u32;
        let big_h: u32 = (self.height as u64 * scalar as u64) as u32;
        let mut scaled: Vec<Pixel> = Vec::new();
        let mut y: u32 = 0;
        while y < big_h
            invariant
                w == self.width,
                h == self.height,
                count == self.pixels@.len(),
                count == w * h,
                big_w == w * scalar,
                big_h == h * scalar,
                scalar <= u32::MAX,
                y <= big_h,
                scaled@.len() == y * big_w,
                forall|k: int|
                    0 <= k < scaled@.len() ==> in_range(
                        #[trigger] source_of(k, big_w as int, w as int, scalar as int),
                        count as int,
                    ),
                forall|k: int|
                    0 <= k < scaled@.len() ==> #[trigger] scaled@[k] == self.pixels@[source_of(
                        k,
                        big_w as int,
                        w as int,
                        scalar as int,
                    )],
            decreases big_h - y,
        {
            let mut x: u32 = 0;
            while x < big_w
                invariant
                    w == self.width,
                    h == self.height,
                    count == self.pixels@.len(),
                    count == w * h,
                    big_w == w * scalar,
                    big_h == h * scalar,
                    scalar <= u32::MAX,
                    y < big_h,
                    x <= big_w,
                    scaled@.len() == y * big_w + x,
                    forall|k: int|
                        0 <= k < scaled@.len() ==> in_range(
                            #[trigger] source_of(k, big_w as int, w as int, scalar as int),
                            count as int,
                        ),
                    forall|k: int|
                        0 <= k < scaled@.len() ==> #[trigger] scaled@[k] == self.pixels@[source_of(
                            k,
                            big_w as int,
                            w as int,
                            scalar as int,
                        )],
                decreases big_w - x,
            {
                proof {
                    lemma_source_place(x as int, y as int, w as int, h as int, scalar as int);
                    vstd::arithmetic::div_mod::lemma_fundamental_div_mod_converse(
                        y * big_w + x,
                        big_w as int,
                        y as int,
                        x as int,
                    );
                }
                let from_x: usize = x as usize / scalar;
                let from_y: usize = y as usize / scalar;
                scaled.push(self.pixels[from_y * w + from_x]);
                x = x + 1;
            }
            assert((y + 1) * big_w == y * big_w + big_w) by (nonlinear_arith);
            y = y + 1;
        }
        proof {
            assert forall|x: int, y: int| 0 <= x < big_w && 0 <= y < big_h implies #[trigger] scaled@[y
                * big_w + x] == self.pixels@[(y / (scalar as int)) * w + x / (scalar as int)] by {
                vstd::arithmetic::div_mod::lemma_fundamental_div_mod_converse(
                    y * big_w + x,
                    big_w as int,
                    y,
                    x,
                );
                assert(0 <= y * big_w + x < big_h * big_w) by (nonlinear_arith)
                    requires
                        0 <= x < big_w,
                        0 <= y < big_h,
                ;
            }
        }
        self.pixels = scaled;
        self.width = big_w;
        self.height = big_h;
    }

    /// Enlarges an image that is no wider than `min_width` by the largest
    /// whole factor that keeps it so; a wider image is left as it is.
    pub fn scale_to_min_width(&mut self, min_width: u32)
        requires
            old(self).pixels@.len() == old(self).width * old(self).height,
            old(self).width >= 1,
            old(self).width <= min_width ==> old(self).height * (min_width / old(self).width)
                <= u32::MAX,
        ensures
            old(self).width > min_width ==> *final(self) == *old(self),
            old(self).width <= min_width ==> {
                let scalar = (min_width / old(self).width) as int;
                &&& final(self).width == old(self).width * scalar
                &&& final(self).width <= min_width
                &&& final(self).height == old(self).height * scalar
                &&& final(self).pixels@.len() == final(self).width * final(self).height
                &&& enlarged(
                    final(self).pixels@,
                    old(self).pixels@,
                    old(self).width as int,
                    old(self).height as int,
                    scalar,
                )
            },
            old(self).wf() ==> final(self).wf(),
    {
        if self.width <= min_width {
            let scalar: u32 = min_width / self.width;
            proof {
                let w = self.width as int;
                let q = scalar as int;
                vstd::arithmetic::div_mod::lemma_fundamental_div_mod(min_width as int, w);
                assert(w * q <= min_width);
            }
            self.scale(scalar as usize);
        }
    }
}

/// Where a pixel of the enlarged image comes from.
proof fn lemma_source_place(x: int, y: int, w: int, h: int, scalar: int)
    requires
        0 <= x < w * scalar,
        0 <= y < h * scalar,
        0 <= w,
        0 <= h,
        0 <= scalar,
    ensures
        scalar > 0,
        0 <= x / scalar < w,
        0 <= y / scalar < h,
        0 <= (y / scalar) * w + x / scalar < w * h,
        0 <= (y / scalar) * w <= w * h,
{
    assert(scalar > 0) by (nonlinear_arith)
        requires
            0 <= x < w * scalar,
            0 <= scalar,
    ;
    vstd::arithmetic::div_mod::lemma_fundamental_div_mod(x, scalar);
    vstd::arithmetic::div_mod::lemma_fundamental_div_mod(y, scalar);
    let fx = x / scalar;
    let fy = y / scalar;
    assert(0 <= fx < w) by (nonlinear_arith)
        requires
            0 <= x < w * scalar,
            scalar > 0,
            x == scalar * fx + x % scalar,
            0 <= x % scalar < scalar,
    ;
    assert(0 <= fy < h) by (nonlinear_arith)
        requires
            0 <= y < h * scalar,
            scalar > 0,
            y == scalar * fy + y % scalar,
            0 <= y % scalar < scalar,
    ;
    assert(0 <= fy * w + fx < w * h && 0 <= fy * w <= w * h) by (nonlinear_arith)
        requires
            0 <= fx < w,
            0 <= fy < h,
    ;
}

} // verus!
