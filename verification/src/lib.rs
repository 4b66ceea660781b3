//! A PNG decoder core: bytes of a PNG container in, a row-major array of
//! RGBA pixels out. Every function carries a contract over a mathematical
//! model of the format, and Verus proves that the code meets it.

pub mod error;
pub mod color;
pub mod pixel;
pub mod helper;
pub mod scanline;
pub mod chunk;
pub mod zlib;
pub mod metadata;
pub mod layout;
pub mod image;
pub mod png;
pub mod assemble;
