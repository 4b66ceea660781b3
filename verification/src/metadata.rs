use vstd::prelude::*;
use crate::chunk::{be32, tag, ChunkView};
use crate::color::{high_byte, Color};
use crate::error::PngError;
use crate::helper::be16;

verus! {

/// What the chunks of a file say of the image, apart from the image data.
pub struct Metadata {
    pub width: u32,
    pub height: u32,
    pub depth: u8,
    pub color_type: u8,
    pub compression_type: u8,
    pub filter: u8,
    pub interface: u8,
    pub colors: Seq<Color>,
    pub gamma: u32,
    pub rendering_intent: u8,
    pub ppu_x: u32,
    pub ppu_y: u32,
    pub unit_spec: u8,
    pub gray_lvl: Option<u16>,
    pub truecolor_lvl: Option<(u16, u16, u16)>,
    pub truecolor_alpha: Option<Color>,
}

impl Metadata {
    /// Whether no transparency was added to the image: no transparent gray
    /// level, no transparent colour, and every palette entry opaque.
    pub open spec fn opaque(self) -> bool {
        &&& self.gray_lvl is None
        &&& self.truecolor_lvl is None
        &&& forall|i: int| 0 <= i < self.colors.len() ==> (#[trigger] self.colors[i]).a == 255
    }
}

pub open spec fn ihdr() -> Seq<u8> {
    tag(0x49, 0x48, 0x44, 0x52)
}

pub open spec fn plte() -> Seq<u8> {
    tag(0x50, 0x4C, 0x54, 0x45)
}

pub open spec fn idat() -> Seq<u8> {
    tag(0x49, 0x44, 0x41, 0x54)
}

pub open spec fn trns() -> Seq<u8> {
    tag(0x74, 0x52, 0x4E, 0x53)
}

pub open spec fn gama() -> Seq<u8> {
    tag(0x67, 0x41, 0x4D, 0x41)
}

pub open spec fn srgb() -> Seq<u8> {
    tag(0x73, 0x52, 0x47, 0x42)
}

pub open spec fn phys() -> Seq<u8> {
    tag(0x70, 0x48, 0x59, 0x73)
}

/// Whether the format allows `depth` bits a sample for `color_type`.
pub open spec fn legal_depth(color_type: u8, depth: u8) -> bool {
    if color_type == 0 {
        depth == 1 || depth == 2 || depth == 4 || depth == 8 || depth == 16
    } else if color_type == 3 {
        depth == 1 || depth == 2 || depth == 4 || depth == 8
    } else if color_type == 2 || color_type == 4 || color_type == 6 {
        depth == 8 || depth == 16
    } else {
        false
    }
}

/// How many samples make a pixel.
pub open spec fn samples_per_pixel(color_type: u8) -> int {
    if color_type == 2 {
        3
    } else if color_type == 4 {
        2
    } else if color_type == 6 {
        4
    } else {
        1
    }
}

/// The header that an `IHDR` payload of thirteen bytes holds, with nothing
/// else known of the image yet.
pub open spec fn header_fields(data: Seq<u8>) -> Metadata {
    Metadata {
        width: be32(data, 0),
        height: be32(data, 4),
        depth: data[8],
        color_type: data[9],
        compression_type: data[10],
        filter: data[11],
        interface: data[12],
        colors: Seq::empty(),
        gamma: 0,
        rendering_intent: 0,
        ppu_x: 0,
        ppu_y: 0,
        unit_spec: 0,
        gray_lvl: None,
        truecolor_lvl: None,
        truecolor_alpha: None,
    }
}

/// The header that the first chunk of a file gives. A first chunk that is
/// not an `IHDR` of thirteen bytes is `MissingIHDR`; a pair of colour type
/// and bit depth outside the format is `InvalidColorTypeDepth`.
pub open spec fn header_of(first: ChunkView) -> Result<Metadata, PngError> {
    if first.name != ihdr() || first.data.len() != 13 {
        Err(PngError::MissingIHDR)
    } else if !legal_depth(first.data[9], first.data[8]) {
        Err(PngError::InvalidColorTypeDepth)
    } else {
        Ok(header_fields(first.data))
    }
}

/// The opaque colours of a `PLTE` payload, three bytes each.
pub open spec fn palette_entries(data: Seq<u8>) -> Seq<Color> {
    Seq::new(
        data.len() / 3,
        |i: int| Color { r: data[3 * i], g: data[3 * i + 1], b: data[3 * i + 2], a: 255 },
    )
}

/// `colors` with the alpha bytes given to the entries in order; entries
/// beyond the last alpha byte keep theirs.
pub open spec fn with_alphas(colors: Seq<Color>, alphas: Seq<u8>) -> Seq<Color> {
    Seq::new(
        colors.len(),
        |i: int|
            if i < alphas.len() {
                Color { r: colors[i].r, g: colors[i].g, b: colors[i].b, a: alphas[i] }
            } else {
                colors[i]
            },
    )
}

/// A 16-bit transparency value as a sample of `depth` bits is compared
/// with it: whole at sixteen bits, its low byte below.
pub open spec fn key_level(value: u16, depth: u8) -> int {
    if depth == 16 {
        value as int
    } else {
        (value % 256) as int
    }
}

/// A 16-bit transparency value narrowed to a channel of a colour.
pub open spec fn key_channel(value: u16, depth: u8) -> u8 {
    if depth == 16 {
        high_byte(value)
    } else {
        (value % 256) as u8
    }
}

/// The transparent colour of a truecolour image, narrowed to eight bits a
/// channel.
pub open spec fn key_color(key: (u16, u16, u16), depth: u8) -> Color {
    Color {
        r: key_channel(key.0, depth),
        g: key_channel(key.1, depth),
        b: key_channel(key.2, depth),
        a: 255,
    }
}

/// What is known of the image after one more chunk. `PLTE` adds colours
/// to the palette of an indexed image and is a hint to be ignored
/// otherwise; `tRNS` is read by colour type; `gAMA`, `sRGB` and `pHYs` are
/// stored; every other chunk changes nothing. A `PLTE` payload that is not
/// a whole number of triples is `InvalidPaletteLength`; a payload too short
/// for its fields is `Truncated`.
pub open spec fn apply_chunk(m: Metadata, c: ChunkView) -> Result<Metadata, PngError> {
    if c.name == plte() {
        if c.data.len() % 3 != 0 {
            Err(PngError::InvalidPaletteLength)
        } else if m.color_type == 3 {
            Ok(Metadata { colors: m.colors + palette_entries(c.data), ..m })
        } else {
            Ok(m)
        }
    } else if c.name == trns() {
        if m.color_type == 0 {
            if c.data.len() < 2 {
                Err(PngError::Truncated)
            } else {
                Ok(Metadata { gray_lvl: Some(be16(c.data[0], c.data[1])), ..m })
            }
        } else if m.color_type == 2 {
            if c.data.len() < 6 {
                Err(PngError::Truncated)
            } else {
                let key = (
                    be16(c.data[0], c.data[1]),
                    be16(c.data[2], c.data[3]),
                    be16(c.data[4], c.data[5]),
                );
                Ok(
                    Metadata {
                        truecolor_lvl: Some(key),
                        truecolor_alpha: Some(key_color(key, m.depth)),
                        ..m
                    },
                )
            }
        } else if m.color_type == 3 {
            Ok(Metadata { colors: with_alphas(m.colors, c.data), ..m })
        } else {
            Ok(m)
        }
    } else if c.name == gama() {
        if c.data.len() < 4 {
            Err(PngError::Truncated)
        } else {
            Ok(Metadata { gamma: be32(c.data, 0), ..m })
        }
    } else if c.name == srgb() {
        if c.data.len() < 1 {
            Err(PngError::Truncated)
        } else {
            Ok(Metadata { rendering_intent: c.data[0], ..m })
        }
    } else if c.name == phys() {
        if c.data.len() < 9 {
            Err(PngError::Truncated)
        } else {
            Ok(
                Metadata {
                    ppu_x: be32(c.data, 0),
                    ppu_y: be32(c.data, 4),
                    unit_spec: c.data[8],
                    ..m
                },
            )
        }
    } else {
        Ok(m)
    }
}

/// What the first `n` chunks say of the image: the header from the first,
/// then each later chunk applied in file order. The first failure is the
/// result.
pub open spec fn interpreted(chunks: Seq<ChunkView>, n: nat) -> Result<Metadata, PngError>
    decreases n,
{
    if n == 0 {
        Err(PngError::MissingIHDR)
    } else if n == 1 {
        header_of(chunks[0])
    } else {
        match interpreted(chunks, (n - 1) as nat) {
            Ok(m) => apply_chunk(m, chunks[n - 1]),
            Err(e) => Err(e),
        }
    }
}

/// What a file's chunks say of the image.
pub open spec fn interpret(chunks: Seq<ChunkView>) -> Result<Metadata, PngError> {
    interpreted(chunks, chunks.len())
}

/// The payloads of the `IDAT` chunks among the first `n`, joined in file
/// order.
pub open spec fn image_data(chunks: Seq<ChunkView>, n: nat) -> Seq<u8>
    decreases n,
{
    if n == 0 {
        Seq::empty()
    } else if chunks[n - 1].name == idat() {
        image_data(chunks, (n - 1) as nat) + chunks[n - 1].data
    } else {
        image_data(chunks, (n - 1) as nat)
    }
}

/// What holds of whatever the chunks said: the header's fields are as the
/// `IHDR` chunk gave them, colour type and bit depth are a legal pair, only
/// an indexed image has a palette, only a grayscale image a transparent gray
/// level, and only a truecolour image a transparent colour.
pub proof fn lemma_header_is_kept(chunks: Seq<ChunkView>, n: nat)
    requires
        interpreted(chunks, n) is Ok,
    ensures
        n >= 1,
        header_of(chunks[0]) is Ok,
        ({
            let m = interpreted(chunks, n)->Ok_0;
            let h = header_of(chunks[0])->Ok_0;
            &&& m.width == h.width
            &&& m.height == h.height
            &&& m.depth == h.depth
            &&& m.color_type == h.color_type
            &&& m.compression_type == h.compression_type
            &&& m.filter == h.filter
            &&& m.interface == h.interface
            &&& legal_depth(m.color_type, m.depth)
            &&& m.color_type != 3 ==> m.colors.len() == 0
            &&& m.color_type != 0 ==> m.gray_lvl is None
            &&& m.color_type != 2 ==> m.truecolor_lvl is None && m.truecolor_alpha is None
            &&& m.truecolor_lvl matches Some(key) ==> m.truecolor_alpha == Some(
                key_color(key, m.depth),
            )
            &&& m.truecolor_lvl is None ==> m.truecolor_alpha is None
        }),
    decreases n,
{
    if n > 1 {
        lemma_header_is_kept(chunks, (n - 1) as nat);
    }
}

/// A file without a `tRNS` chunk adds no transparency to its image.
pub proof fn lemma_opaque_without_trns(chunks: Seq<ChunkView>, n: nat)
    requires
        interpreted(chunks, n) is Ok,
        forall|i: int| 0 <= i < n ==> (#[trigger] chunks[i]).name != trns(),
    ensures
        interpreted(chunks, n)->Ok_0.opaque(),
    decreases n,
{
    if n > 1 {
        lemma_opaque_without_trns(chunks, (n - 1) as nat);
        let before = interpreted(chunks, (n - 1) as nat)->Ok_0;
        let after = interpreted(chunks, n)->Ok_0;
        let c = chunks[n - 1];
        assert(c.name != trns());
        assert forall|i: int| 0 <= i < after.colors.len() implies (#[trigger] after.colors[i]).a
            == 255 by {
            if i < before.colors.len() {
                assert(after.colors[i] == before.colors[i]);
            }
        }
    }
}

} // verus!
