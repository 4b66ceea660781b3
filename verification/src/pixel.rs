use vstd::prelude::*;
use crate::color::Color;
use crate::error::PngError;

verus! {

/// One pixel of the decoded image: where it is, its colour and, for an
/// indexed image, the palette entry it came from.
#[derive(Clone, Copy, Debug)]
pub struct Pixel {
    /// Column and row, counted from the top-left corner.
    pub pos: (u32, u32),
    pub color: Color,
    pub palette_index: Option<u8>,
}

impl Pixel {
    /// The pixel at `pos` that entry `index` of `palette` colours.
    pub open spec fn indexed(pos: (u32, u32), index: int, palette: Seq<Color>) -> Pixel {
        Pixel { pos, color: palette[index], palette_index: Some(index as u8) }
    }

    /// Looks `index` up in `palette`. An index is a byte of the image, so one
    /// above 255 names no entry, however long the palette.
    pub fn from_palette_index(pos: (u32, u32), index: usize, palette: &Vec<Color>) -> (r: Result<
        Pixel,
        PngError,
    >)
        ensures
            index < palette.len() && index <= 255 ==> r == Ok::<Pixel, PngError>(
                Pixel::indexed(pos, index as int, palette@),
            ),
            !(index < palette.len() && index <= 255) ==> r == Err::<Pixel, PngError>(
                PngError::IndexOutOfRange,
            ),
    {
        if index < palette.len() && index <= 255 {
            Ok(Pixel { pos, color: palette[index], palette_index: Some(index as u8) })
        } else {
            Err(PngError::IndexOutOfRange)
        }
    }
}

} // verus!
