use png_decoder::error::PngError;
use png_decoder::helper::{
    bytes_as_16bit, bytes_as_1bit, bytes_as_2bit, bytes_as_4bit, bytes_from_16bit_to_8bit,
    copy_range, UXBigger, UXSmaller,
};

#[test]
fn one_bit_samples_are_black_or_white() {
    assert_eq!(
        bytes_as_1bit(&vec![0b1010_0101]),
        vec![0xFF, 0x00, 0xFF, 0x00, 0x00, 0xFF, 0x00, 0xFF]
    );
    assert_eq!(bytes_as_1bit(&vec![0x80, 0x01]).len(), 16);
    assert_eq!(bytes_as_1bit(&vec![0x80, 0x01])[0], 0xFF);
    assert_eq!(bytes_as_1bit(&vec![0x80, 0x01])[15], 0xFF);
    assert_eq!(bytes_as_1bit(&vec![0x80, 0x01])[8], 0x00);
    assert!(bytes_as_1bit(&Vec::new()).is_empty());
}

#[test]
fn two_bit_samples_are_scaled_by_0x55() {
    assert_eq!(bytes_as_2bit(&vec![0b00_01_10_11]), vec![0x00, 0x55, 0xAA, 0xFF]);
    assert_eq!(
        bytes_as_2bit(&vec![0b11_10_01_00, 0b01_01_01_01]),
        vec![0xFF, 0xAA, 0x55, 0x00, 0x55, 0x55, 0x55, 0x55]
    );
}

#[test]
fn four_bit_samples_are_scaled_by_0x11() {
    assert_eq!(bytes_as_4bit(&vec![0x1F, 0xA0]), vec![0x11, 0xFF, 0xAA, 0x00]);
    assert_eq!(bytes_as_4bit(&vec![0x37]), vec![0x33, 0x77]);
}

#[test]
fn unpacking_is_length_deterministic() {
    let bytes: Vec<u8> = (0..=255u8).collect();
    assert_eq!(bytes_as_1bit(&bytes).len(), 8 * 256);
    assert_eq!(bytes_as_2bit(&bytes).len(), 4 * 256);
    assert_eq!(bytes_as_4bit(&bytes).len(), 2 * 256);
}

#[test]
fn repacking_the_high_nibbles_gives_the_byte_back() {
    for b in 0..=255u8 {
        let expanded = bytes_as_4bit(&vec![b]);
        assert_eq!(expanded.len(), 2);
        assert_eq!((expanded[0] & 0xF0) | (expanded[1] >> 4), b);
    }
}

#[test]
fn repacking_the_high_bits_gives_the_byte_back() {
    for b in 0..=255u8 {
        let pairs = bytes_as_2bit(&vec![b]);
        let mut back: u8 = 0;
        for s in &pairs {
            back = (back << 2) | (s >> 6);
        }
        assert_eq!(back, b);
        let bits = bytes_as_1bit(&vec![b]);
        let mut back: u8 = 0;
        for s in &bits {
            back = (back << 1) | (s >> 7);
        }
        assert_eq!(back, b);
    }
}

#[test]
fn words_are_narrowed_to_their_high_byte() {
    assert_eq!(bytes_from_16bit_to_8bit(&vec![0x1234, 0x00FF, 0xFF00, 0xABCD]), vec![0x12, 0x00, 0xFF, 0xAB]);
    assert!(bytes_from_16bit_to_8bit(&Vec::new()).is_empty());
}

#[test]
fn bytes_are_paired_big_endian() {
    assert_eq!(bytes_as_16bit(&vec![0x12, 0x34, 0xAB, 0xCD]).unwrap(), vec![0x1234, 0xABCD]);
    assert_eq!(bytes_as_16bit(&vec![0x00, 0x01]).unwrap(), vec![1]);
    assert!(bytes_as_16bit(&Vec::new()).unwrap().is_empty());
}

#[test]
fn odd_number_of_bytes_is_a_malformed_sample() {
    assert_eq!(bytes_as_16bit(&vec![0x12]).unwrap_err(), PngError::MalformedSample);
    assert_eq!(bytes_as_16bit(&vec![1, 2, 3]).unwrap_err(), PngError::MalformedSample);
}

#[test]
fn two_bytes_make_a_word() {
    let pair: [u8; 2] = [0xAB, 0xCD];
    assert_eq!(pair.to_u16(), 0xABCD);
    let bytes: Vec<u8> = vec![0x01, 0x02, 0x03];
    let slice: &[u8] = &bytes;
    assert_eq!(slice.to_u16(), 0x0102);
}

#[test]
fn a_byte_splits_into_samples() {
    assert_eq!(0xA5u8.to_u8(), 0xA5);
    assert_eq!(0xA5u8.to_u4(), [0xAA, 0x55]);
    assert_eq!(0b11_00_01_10u8.to_u2(), [0xFF, 0x00, 0x55, 0xAA]);
    assert_eq!(0b1000_0011u8.to_u1(), [0xFF, 0, 0, 0, 0, 0, 0xFF, 0xFF]);
}

#[test]
fn a_word_narrows_to_its_high_byte() {
    assert_eq!(0xABCDu16.to_u8(), 0xAB);
    assert_eq!(0x00FFu16.to_u8(), 0x00);
}

#[test]
fn copy_range_copies_the_bytes_between() {
    let bytes: Vec<u8> = vec![1, 2, 3, 4, 5];
    assert_eq!(copy_range(&bytes, 1, 4), vec![2, 3, 4]);
    assert!(copy_range(&bytes, 2, 2).is_empty());
    assert_eq!(copy_range(&bytes, 0, 5), bytes);
}
