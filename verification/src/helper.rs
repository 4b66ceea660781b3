use vstd::prelude::*;
use crate::color::high_byte;
use crate::error::PngError;

verus! {

/// Two to the power `k`, for the bit positions of a byte.
pub open spec fn two_pow(k: int) -> int {
    if k <= 0 {
        1
    } else if k == 1 {
        2
    } else if k == 2 {
        4
    } else if k == 3 {
        8
    } else if k == 4 {
        16
    } else if k == 5 {
        32
    } else if k == 6 {
        64
    } else if k == 7 {
        128
    } else {
        256
    }
}

/// By how much a `depth`-bit sample is multiplied to span 0 to 255:
/// 255 for one bit, 85 for two, 17 for four, 1 otherwise.
pub open spec fn sample_scale(depth: int) -> int {
    if depth == 1 {
        255
    } else if depth == 2 {
        85
    } else if depth == 4 {
        17
    } else {
        1
    }
}

/// Sample `i` of the byte `b` that packs `8 / depth` samples, the first one
/// in the most significant bits.
pub open spec fn packed_sample(b: u8, depth: int, i: int) -> int {
    (b as int / two_pow(8 - depth * (i + 1))) % two_pow(depth)
}

/// Sample `i` of `b`, scaled to eight bits.
pub open spec fn scaled_sample(b: u8, depth: int, i: int) -> u8 {
    (packed_sample(b, depth, i) * sample_scale(depth)) as u8
}

/// The samples of `bytes`, `8 / depth` to a byte, one scaled byte each.
/// Meant for a `depth` of 1, 2 or 4.
pub open spec fn unpack(bytes: Seq<u8>, depth: int) -> Seq<u8> {
    Seq::new(
        (bytes.len() * (8int / depth)) as nat,
        |k: int| scaled_sample(bytes[k / (8int / depth)], depth, k % (8int / depth)),
    )
}

/// The high byte of each word.
pub open spec fn narrow_words(words: Seq<u16>) -> Seq<u8> {
    Seq::new(words.len(), |i: int| high_byte(words[i]))
}

/// The 16-bit word whose high byte is `hi` and whose low byte is `lo`.
pub open spec fn be16(hi: u8, lo: u8) -> u16 {
    (hi * 256 + lo) as u16
}

/// Consecutive bytes paired into big-endian words.
pub open spec fn group_words(bytes: Seq<u8>) -> Seq<u16> {
    Seq::new(bytes.len() / 2, |i: int| be16(bytes[2 * i], bytes[2 * i + 1]))
}

/// The byte that `8 / depth` scaled samples came from: the top `depth` bits
/// of each, in order.
pub open spec fn repack(samples: Seq<u8>, depth: int) -> int
    decreases samples.len(),
{
    if samples.len() == 0 {
        0
    } else {
        repack(samples.drop_last(), depth) * two_pow(depth) + samples.last() as int / two_pow(8 - depth)
    }
}

/// A value that two bytes can be read from as one big-endian word.
pub trait UXBigger {
    /// Whether the value holds the two bytes of a word.
    spec fn has_word(&self) -> bool;

    /// The word that the first two bytes make.
    spec fn word(&self) -> u16;

    fn to_u16(&self) -> (r: u16)
        requires
            self.has_word(),
        ensures
            r == self.word(),
    ;
}

impl UXBigger for &[u8] {
    open spec fn has_word(&self) -> bool {
        self@.len() >= 2
    }

    open spec fn word(&self) -> u16 {
        be16(self@[0], self@[1])
    }

    fn to_u16(&self) -> (r: u16) {
        let hi: u16 = self[0] as u16;
        let lo: u16 = self[1] as u16;
        hi * 0x0100 + lo
    }
}

impl UXBigger for [u8; 2] {
    open spec fn has_word(&self) -> bool {
        true
    }

    open spec fn word(&self) -> u16 {
        be16(self@[0], self@[1])
    }

    fn to_u16(&self) -> (r: u16) {
        let hi: u16 = self[0] as u16;
        let lo: u16 = self[1] as u16;
        hi * 0x0100 + lo
    }
}

/// A value that narrower samples can be taken from.
pub trait UXSmaller {
    /// Whether the value packs samples of fewer than eight bits.
    spec fn splits(&self) -> bool;

    /// The value as one 8-bit sample.
    spec fn narrowed(&self) -> u8;

    /// The samples of `depth` bits that the value packs, scaled to eight bits.
    spec fn samples(&self, depth: int) -> Seq<u8>;

    fn to_u8(&self) -> (r: u8)
        ensures
            r == self.narrowed(),
    ;

    fn to_u4(&self) -> (r: [u8; 2])
        requires
            self.splits(),
        ensures
            r@ == self.samples(4),
    ;

    fn to_u2(&self) -> (r: [u8; 4])
        requires
            self.splits(),
        ensures
            r@ == self.samples(2),
    ;

    fn to_u1(&self) -> (r: [u8; 8])
        requires
            self.splits(),
        ensures
            r@ == self.samples(1),
    ;
}

/// A word narrows to its high byte. It packs no samples that the arrays of
/// `to_u4`, `to_u2` and `to_u1` could hold, so `splits` is false and those
/// three are never to be called on a word.
impl UXSmaller for u16 {
    open spec fn splits(&self) -> bool {
        false
    }

    open spec fn narrowed(&self) -> u8 {
        high_byte(*self)
    }

    open spec fn samples(&self, depth: int) -> Seq<u8> {
        Seq::empty()
    }

    fn to_u8(&self) -> (r: u8) {
        let x: u16 = *self;
        assert(x >> 8 == x / 256) by (bit_vector);
        (x >> 8) as u8
    }

    fn to_u4(&self) -> (r: [u8; 2]) {
        [0; 2]
    }

    fn to_u2(&self) -> (r: [u8; 4]) {
        [0; 4]
    }

    fn to_u1(&self) -> (r: [u8; 8]) {
        [0; 8]
    }
}

impl UXSmaller for u8 {
    open spec fn splits(&self) -> bool {
        true
    }

    open spec fn narrowed(&self) -> u8 {
        *self
    }

    open spec fn samples(&self, depth: int) -> Seq<u8> {
        unpack(seq![*self], depth)
    }

    fn to_u8(&self) -> (r: u8) {
        *self
    }

    fn to_u4(&self) -> (r: [u8; 2]) {
        let b: u8 = *self;
        let r: [u8; 2] = [sample_of(b, 4, 0), sample_of(b, 4, 1)];
        assert(r@ =~= unpack(seq![b], 4));
        r
    }

    fn to_u2(&self) -> (r: [u8; 4]) {
        let b: u8 = *self;
        let r: [u8; 4] = [
            sample_of(b, 2, 0),
            sample_of(b, 2, 1),
            sample_of(b, 2, 2),
            sample_of(b, 2, 3),
        ];
        assert(r@ =~= unpack(seq![b], 2));
        r
    }

    fn to_u1(&self) -> (r: [u8; 8]) {
        let b: u8 = *self;
        let r: [u8; 8] = [
            sample_of(b, 1, 0),
            sample_of(b, 1, 1),
            sample_of(b, 1, 2),
            sample_of(b, 1, 3),
            sample_of(b, 1, 4),
            sample_of(b, 1, 5),
            sample_of(b, 1, 6),
            sample_of(b, 1, 7),
        ];
        assert(r@ =~= unpack(seq![b], 1));
        r
    }
}

/// Shifting a byte right by `s` bits divides it by two to the `s`, and
/// masking with `m` keeps the remainder modulo `m + 1`.
proof fn lemma_shift_mask(b: u8, s: u8, m: u8)
    requires
        s < 8,
        m == 1 || m == 3 || m == 15,
    ensures
        ((b >> s) & m) as int == (b as int / two_pow(s as int)) % (m + 1),
        ((b >> s) & m) <= m,
{
    assert(s < 8 && (m == 1 || m == 3 || m == 15) ==> ((b >> s) & m) <= m) by (bit_vector);
    assert(s == 0 ==> (b >> s) & m == (b / 1) % ((m + 1) as u8)) by (bit_vector)
        requires
            m == 1 || m == 3 || m == 15,
    ;
    assert(s == 1 ==> (b >> s) & m == (b / 2) % ((m + 1) as u8)) by (bit_vector)
        requires
            m == 1 || m == 3 || m == 15,
    ;
    assert(s == 2 ==> (b >> s) & m == (b / 4) % ((m + 1) as u8)) by (bit_vector)
        requires
            m == 1 || m == 3 || m == 15,
    ;
    assert(s == 3 ==> (b >> s) & m == (b / 8) % ((m + 1) as u8)) by (bit_vector)
        requires
            m == 1 || m == 3 || m == 15,
    ;
    assert(s == 4 ==> (b >> s) & m == (b / 16) % ((m + 1) as u8)) by (bit_vector)
        requires
            m == 1 || m == 3 || m == 15,
    ;
    assert(s == 5 ==> (b >> s) & m == (b / 32) % ((m + 1) as u8)) by (bit_vector)
        requires
            m == 1 || m == 3 || m == 15,
    ;
    assert(s == 6 ==> (b >> s) & m == (b / 64) % ((m + 1) as u8)) by (bit_vector)
        requires
            m == 1 || m == 3 || m == 15,
    ;
    assert(s == 7 ==> (b >> s) & m == (b / 128) % ((m + 1) as u8)) by (bit_vector)
        requires
            m == 1 || m == 3 || m == 15,
    ;
}

/// Sample `i` of `b` at `depth` bits, scaled to eight bits.
fn sample_of(b: u8, depth: u8, i: u8) -> (r: u8)
    requires
        depth == 1 || depth == 2 || depth == 4,
        i < 8u8 / depth,
    ensures
        r == scaled_sample(b, depth as int, i as int),
        r as int == packed_sample(b, depth as int, i as int) * sample_scale(depth as int),
{
    let shift: u8 = 8 - depth * (i + 1);
    let (mask, scale): (u8, u8) = if depth == 1 {
        (1, 255)
    } else if depth == 2 {
        (3, 85)
    } else {
        (15, 17)
    };
    proof {
        lemma_shift_mask(b, shift, mask);
    }
    let raw: u8 = (b >> shift) & mask;
    raw * scale
}

fn unpack_bytes(bytes: &Vec<u8>, depth: u8) -> (out: Vec<u8>)
    requires
        depth == 1 || depth == 2 || depth == 4,
    ensures
        out@ == unpack(bytes@, depth as int),
{
    let per: u8 = 8 / depth;
    let mut out: Vec<u8> = Vec::new();
    let mut n: usize = 0;
    while n < bytes.len()
        invariant
            depth == 1 || depth == 2 || depth == 4,
            per == 8u8 / depth,
            n <= bytes.len(),
            out@.len() == n * per,
            forall|k: int|
                0 <= k < out@.len() ==> #[trigger] out@[k] == scaled_sample(
                    bytes@[k / (per as int)],
                    depth as int,
                    k % (per as int),
                ),
        decreases bytes.len() - n,
    {
        let b: u8 = bytes[n];
        let mut i: u8 = 0;
        while i < per
            invariant
                depth == 1 || depth == 2 || depth == 4,
                per == 8u8 / depth,
                n < bytes.len(),
                b == bytes@[n as int],
                i <= per,
                out@.len() == n * per + i,
                forall|k: int|
                    0 <= k < out@.len() ==> #[trigger] out@[k] == scaled_sample(
                        bytes@[k / (per as int)],
                        depth as int,
                        k % (per as int),
                    ),
            decreases per - i,
        {
            let s: u8 = sample_of(b, depth, i);
            proof {
                let k: int = n * per + i;
                assert(k / (per as int) == n && k % (per as int) == i) by (nonlinear_arith)
                    requires
                        k == n * per + i,
                        0 <= i < per,
                        0 <= n,
                ;
            }
            out.push(s);
            i = i + 1;
        }
        assert((n + 1) * per == n * per + per) by (nonlinear_arith);
        n = n + 1;
    }
    assert(out@ =~= unpack(bytes@, depth as int));
    out
}

/// A copy of the bytes of `v` from index `from` up to, not including, `to`.
pub fn copy_range(v: &Vec<u8>, from: usize, to: usize) -> (out: Vec<u8>)
    requires
        from <= to <= v.len(),
    ensures
        out@ == v@.subrange(from as int, to as int),
{
    let mut out: Vec<u8> = Vec::new();
    let mut i: usize = from;
    while i < to
        invariant
            from <= i <= to <= v.len(),
            out@ == v@.subrange(from as int, i as int),
        decreases to - i,
    {
        out.push(v[i]);
        assert(out@ =~= v@.subrange(from as int, i + 1));
        i = i + 1;
    }
    out
}

/// Expands each byte into two samples of four bits, each scaled by `0x11`.
pub fn bytes_as_4bit(bytes: &Vec<u8>) -> (out: Vec<u8>)
    ensures
        out@ == unpack(bytes@, 4),
{
    unpack_bytes(bytes, 4)
}

/// Expands each byte into four samples of two bits, each scaled by `0x55`.
pub fn bytes_as_2bit(bytes: &Vec<u8>) -> (out: Vec<u8>)
    ensures
        out@ == unpack(bytes@, 2),
{
    unpack_bytes(bytes, 2)
}

/// Expands each byte into eight samples of one bit: `0x00` for a clear bit,
/// `0xFF` for a set one, the most significant bit first.
pub fn bytes_as_1bit(bytes: &Vec<u8>) -> (out: Vec<u8>)
    ensures
        out@ == unpack(bytes@, 1),
{
    unpack_bytes(bytes, 1)
}

/// Narrows 16-bit samples to eight bits by keeping the high byte of each.
pub fn bytes_from_16bit_to_8bit(bytes: &Vec<u16>) -> (out: Vec<u8>)
    ensures
        out@ == narrow_words(bytes@),
{
    let mut out: Vec<u8> = Vec::new();
    let mut i: usize = 0;
    while i < bytes.len()
        invariant
            i <= bytes.len(),
            out@.len() == i,
            forall|k: int| 0 <= k < i ==> out@[k] == high_byte(#[trigger] bytes@[k]),
        decreases bytes.len() - i,
    {
        out.push(bytes[i].to_u8());
        i = i + 1;
    }
    assert(out@ =~= narrow_words(bytes@));
    out
}

/// Pairs consecutive bytes into big-endian words. An odd number of bytes
/// is `MalformedSample`.
pub fn bytes_as_16bit(bytes: &Vec<u8>) -> (r: Result<Vec<u16>, PngError>)
    ensures
        bytes@.len() % 2 == 0 ==> r is Ok && r->Ok_0@ == group_words(bytes@),
        bytes@.len() % 2 != 0 ==> r == Err::<Vec<u16>, PngError>(PngError::MalformedSample),
{
    if bytes.len() % 2 != 0 {
        return Err(PngError::MalformedSample);
    }
    let mut out: Vec<u16> = Vec::new();
    let mut i: usize = 0;
    while i < bytes.len()
        invariant
            bytes@.len() % 2 == 0,
            i % 2 == 0,
            i <= bytes.len(),
            out@.len() == i / 2,
            forall|k: int|
                0 <= k < out@.len() ==> #[trigger] out@[k] == be16(bytes@[2 * k], bytes@[2 * k + 1]),
        decreases bytes.len() - i,
    {
        let pair: [u8; 2] = [bytes[i], bytes[i + 1]];
        out.push(pair.to_u16());
        i = i + 2;
    }
    assert(out@ =~= group_words(bytes@));
    Ok(out)
}

/// A scaled sample keeps the packed bits as its top bits.
proof fn lemma_top_bits(b: u8, depth: int, i: int)
    requires
        depth == 1 || depth == 2 || depth == 4,
        0 <= i < 8int / depth,
    ensures
        0 <= packed_sample(b, depth, i) < two_pow(depth),
        scaled_sample(b, depth, i) as int / two_pow(8 - depth) == packed_sample(b, depth, i),
{
}

/// Packing one sample more.
proof fn lemma_repack_step(s: Seq<u8>, depth: int, n: int)
    requires
        0 < n <= s.len(),
    ensures
        repack(s.take(n), depth) == repack(s.take(n - 1), depth) * two_pow(depth) + s[n - 1] as int
            / two_pow(8 - depth),
{
    assert(s.take(n).drop_last() =~= s.take(n - 1));
}

proof fn lemma_repack_unpack_4(b: u8)
    ensures
        repack(unpack(seq![b], 4), 4) == b,
{
    let s = unpack(seq![b], 4);
    assert(seq![b].len() == 1 && seq![b][0] == b);
    assert(s.len() == 2);
    lemma_top_bits(b, 4, 0);
    lemma_top_bits(b, 4, 1);
    assert(repack(s.take(0), 4) == 0);
    lemma_repack_step(s, 4, 1);
    lemma_repack_step(s, 4, 2);
    assert(s.take(2) =~= s);
}

proof fn lemma_repack_unpack_2(b: u8)
    ensures
        repack(unpack(seq![b], 2), 2) == b,
{
    let s = unpack(seq![b], 2);
    assert(seq![b].len() == 1 && seq![b][0] == b);
    assert(s.len() == 4);
    lemma_top_bits(b, 2, 0);
    lemma_top_bits(b, 2, 1);
    lemma_top_bits(b, 2, 2);
    lemma_top_bits(b, 2, 3);
    assert(repack(s.take(0), 2) == 0);
    lemma_repack_step(s, 2, 1);
    lemma_repack_step(s, 2, 2);
    lemma_repack_step(s, 2, 3);
    lemma_repack_step(s, 2, 4);
    assert(s.take(4) =~= s);
}

proof fn lemma_repack_unpack_1(b: u8)
    ensures
        repack(unpack(seq![b], 1), 1) == b,
{
    let s = unpack(seq![b], 1);
    assert(seq![b].len() == 1 && seq![b][0] == b);
    assert(s.len() == 8);
    lemma_top_bits(b, 1, 0);
    lemma_top_bits(b, 1, 1);
    lemma_top_bits(b, 1, 2);
    lemma_top_bits(b, 1, 3);
    lemma_top_bits(b, 1, 4);
    lemma_top_bits(b, 1, 5);
    lemma_top_bits(b, 1, 6);
    lemma_top_bits(b, 1, 7);
    assert(repack(s.take(0), 1) == 0);
    lemma_repack_step(s, 1, 1);
    lemma_repack_step(s, 1, 2);
    lemma_repack_step(s, 1, 3);
    lemma_repack_step(s, 1, 4);
    lemma_repack_step(s, 1, 5);
    lemma_repack_step(s, 1, 6);
    lemma_repack_step(s, 1, 7);
    lemma_repack_step(s, 1, 8);
    assert(s.take(8) =~= s);
}

/// Unpacking a byte into samples of 1, 2 or 4 bits and packing the top bits
/// of the samples again gives the byte back.
pub proof fn lemma_repack_unpack(b: u8, depth: int)
    requires
        depth == 1 || depth == 2 || depth == 4,
    ensures
        repack(unpack(seq![b], depth), depth) == b,
{
    if depth == 1 {
        lemma_repack_unpack_1(b);
    } else if depth == 2 {
        lemma_repack_unpack_2(b);
    } else {
        lemma_repack_unpack_4(b);
    }
}

} // verus!
