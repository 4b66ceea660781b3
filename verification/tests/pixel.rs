use png_decoder::color::Color;
use png_decoder::error::PngError;
use png_decoder::pixel::Pixel;

fn palette() -> Vec<Color> {
    vec![
        Color { r: 255, g: 0, b: 0, a: 255 },
        Color { r: 0, g: 255, b: 0, a: 128 },
        Color { r: 0, g: 0, b: 255, a: 0 },
    ]
}

#[test]
fn palette_index_gives_the_entry() {
    let p = Pixel::from_palette_index((3, 4), 1, &palette()).unwrap();
    assert_eq!(p.pos, (3, 4));
    assert_eq!(p.color, Color { r: 0, g: 255, b: 0, a: 128 });
    assert_eq!(p.palette_index, Some(1));
    let p = Pixel::from_palette_index((0, 0), 0, &palette()).unwrap();
    assert_eq!(p.color, Color { r: 255, g: 0, b: 0, a: 255 });
    assert_eq!(p.palette_index, Some(0));
}

#[test]
fn palette_index_beyond_the_last_entry() {
    assert_eq!(
        Pixel::from_palette_index((0, 0), 3, &palette()).unwrap_err(),
        PngError::IndexOutOfRange
    );
    assert_eq!(
        Pixel::from_palette_index((0, 0), 0, &Vec::new()).unwrap_err(),
        PngError::IndexOutOfRange
    );
}

#[test]
fn palette_index_above_a_byte() {
    let long: Vec<Color> = vec![Color { r: 1, g: 2, b: 3, a: 4 }; 300];
    assert!(Pixel::from_palette_index((0, 0), 255, &long).is_ok());
    assert_eq!(
        Pixel::from_palette_index((0, 0), 256, &long).unwrap_err(),
        PngError::IndexOutOfRange
    );
}
