use vstd::prelude::*;

verus! {

/// Four 8-bit channels: red, green, blue and alpha.
#[derive(Clone, Copy, PartialEq, Eq, Structural, Debug)]
pub struct Color {
    pub r: u8,
    pub g: u8,
    pub b: u8,
    pub a: u8,
}

/// The high byte of a 16-bit sample.
pub open spec fn high_byte(x: u16) -> u8 {
    (x / 256) as u8
}

/// A channel `x` seen through alpha `a` on a white background: `x` moved
/// towards 255 by the fraction `1 - a/255` of the distance, rounded down.
pub open spec fn over_white(x: u8, a: u8) -> int {
    x + ((255 - x) * (255 - a)) / 255
}

pub proof fn lemma_over_white_bounds(x: u8, a: u8)
    ensures
        x <= over_white(x, a) <= 255,
        a == 255 ==> over_white(x, a) == x,
        a == 0 ==> over_white(x, a) == 255,
{
    let d: int = 255 - x;
    let t: int = 255 - a;
    assert(0 <= d * t <= d * 255 && (t == 0 ==> d * t == 0) && (t == 255 ==> d * t == d * 255))
        by (nonlinear_arith)
        requires
            0 <= d,
            0 <= t <= 255,
    ;
}

/// The lower-case hexadecimal digit of a number below sixteen.
pub open spec fn hex_digit(n: int) -> char {
    if n == 0 {
        '0'
    } else if n == 1 {
        '1'
    } else if n == 2 {
        '2'
    } else if n == 3 {
        '3'
    } else if n == 4 {
        '4'
    } else if n == 5 {
        '5'
    } else if n == 6 {
        '6'
    } else if n == 7 {
        '7'
    } else if n == 8 {
        '8'
    } else if n == 9 {
        '9'
    } else if n == 10 {
        'a'
    } else if n == 11 {
        'b'
    } else if n == 12 {
        'c'
    } else if n == 13 {
        'd'
    } else if n == 14 {
        'e'
    } else {
        'f'
    }
}

/// The two hexadecimal digits of a byte.
pub open spec fn hex_byte(x: u8) -> Seq<char> {
    seq![hex_digit(x as int / 16), hex_digit(x as int % 16)]
}

/// The sum of two channels, modulo 256.
pub open spec fn wrapping_sum(x: u8, y: u8) -> u8 {
    ((x + y) % 256) as u8
}

impl Default for Color {
    fn default() -> (c: Color)
        ensures
            c == (Color { r: 0, g: 0, b: 0, a: 0 }),
    {
        Color { r: 0, g: 0, b: 0, a: 0 }
    }
}

impl Color {
    /// Narrows four 16-bit samples to a colour by keeping each high byte.
    pub fn from_16bit(r: u16, g: u16, b: u16, a: u16) -> (c: Color)
        ensures
            c == (Color { r: high_byte(r), g: high_byte(g), b: high_byte(b), a: high_byte(a) }),
    {
        Color { r: narrow(r), g: narrow(g), b: narrow(b), a: narrow(a) }
    }

    /// The colour in hexadecimal: `#`, two digits each for red, green and
    /// blue, a space, and two digits for alpha.
    pub open spec fn hex_text(self) -> Seq<char> {
        seq!['#'] + hex_byte(self.r) + hex_byte(self.g) + hex_byte(self.b) + seq![' '] + hex_byte(
            self.a,
        )
    }

    /// The colour as text, such as `#ff8000 ff`.
    pub fn as_hex(&self) -> (s: String)
        ensures
            s@ == self.hex_text(),
    {
        let mut s: String = String::new();
        push_char(&mut s, '#');
        push_hex(&mut s, self.r);
        push_hex(&mut s, self.g);
        push_hex(&mut s, self.b);
        push_char(&mut s, ' ');
        push_hex(&mut s, self.a);
        assert(s@ =~= self.hex_text());
        s
    }

    /// The gray `x` with alpha `a`.
    pub fn grayscale(x: u8, a: u8) -> (c: Color)
        ensures
            c == (Color { r: x, g: x, b: x, a }),
    {
        Color { r: x, g: x, b: x, a }
    }

    /// What `as_rgb` returns.
    pub open spec fn flattened(self) -> Color {
        Color {
            r: over_white(self.r, self.a) as u8,
            g: over_white(self.g, self.a) as u8,
            b: over_white(self.b, self.a) as u8,
            a: 255,
        }
    }

    /// The colour flattened onto a white background; the result is opaque.
    pub fn as_rgb(&self) -> (c: Color)
        ensures
            c == self.flattened(),
            self.a == 255 ==> c == *self,
    {
        proof {
            lemma_over_white_bounds(self.r, self.a);
            lemma_over_white_bounds(self.g, self.a);
            lemma_over_white_bounds(self.b, self.a);
        }
        Color {
            r: blend_white(self.r, self.a),
            g: blend_white(self.g, self.a),
            b: blend_white(self.b, self.a),
            a: 255,
        }
    }
}

impl core::ops::Add for Color {
    type Output = Color;

    /// Adds two colours channel by channel, each sum modulo 256.
    fn add(self, rhs: Color) -> (sum: Color) {
        Color {
            r: add_channel(self.r, rhs.r),
            g: add_channel(self.g, rhs.g),
            b: add_channel(self.b, rhs.b),
            a: add_channel(self.a, rhs.a),
        }
    }
}

impl vstd::std_specs::ops::AddSpecImpl for Color {
    open spec fn obeys_add_spec() -> bool {
        true
    }

    open spec fn add_req(self, rhs: Color) -> bool {
        true
    }

    open spec fn add_spec(self, rhs: Color) -> Color {
        Color {
            r: wrapping_sum(self.r, rhs.r),
            g: wrapping_sum(self.g, rhs.g),
            b: wrapping_sum(self.b, rhs.b),
            a: wrapping_sum(self.a, rhs.a),
        }
    }
}

fn add_channel(x: u8, y: u8) -> (r: u8)
    ensures
        r == wrapping_sum(x, y),
{
    ((x as u16 + y as u16) % 256) as u8
}

/// Appends one character to a string with `String::push`, which puts the
/// character behind the last one and changes nothing else.
#[verifier::external_body]
fn push_char(s: &mut String, c: char)
    ensures
        final(s)@ == old(s)@.push(c),
{
    s.push(c);
}

/// The lower-case hexadecimal digit of a number below sixteen.
fn digit(n: u8) -> (c: char)
    requires
        n < 16,
    ensures
        c == hex_digit(n as int),
{
    if n == 0 {
        '0'
    } else if n == 1 {
        '1'
    } else if n == 2 {
        '2'
    } else if n == 3 {
        '3'
    } else if n == 4 {
        '4'
    } else if n == 5 {
        '5'
    } else if n == 6 {
        '6'
    } else if n == 7 {
        '7'
    } else if n == 8 {
        '8'
    } else if n == 9 {
        '9'
    } else if n == 10 {
        'a'
    } else if n == 11 {
        'b'
    } else if n == 12 {
        'c'
    } else if n == 13 {
        'd'
    } else if n == 14 {
        'e'
    } else {
        'f'
    }
}

/// Appends the two hexadecimal digits of a byte.
fn push_hex(s: &mut String, x: u8)
    ensures
        final(s)@ == old(s)@ + hex_byte(x),
{
    push_char(s, digit(x / 16));
    push_char(s, digit(x % 16));
    assert(s@ =~= old(s)@ + hex_byte(x));
}

fn narrow(x: u16) -> (r: u8)
    ensures
        r == high_byte(x),
{
    assert(x >> 8 == x / 256) by (bit_vector);
    (x >> 8) as u8
}

fn blend_white(x: u8, a: u8) -> (r: u8)
    ensures
        r == over_white(x, a),
{
    let d: u32 = 255 - x as u32;
    let t: u32 = 255 - a as u32;
    proof {
        lemma_over_white_bounds(x, a);
        assert(0 <= d * t <= 255 * 255) by (nonlinear_arith)
            requires
                0 <= d <= 255,
                0 <= t <= 255,
        ;
    }
    let step: u32 = (d * t) / 255;
    (x as u32 + step) as u8
}

} // verus!
