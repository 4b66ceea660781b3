use vstd::prelude::*;
use crate::error::PngError;
use crate::helper::{
    bytes_as_16bit, bytes_as_1bit, bytes_as_2bit, bytes_as_4bit, bytes_from_16bit_to_8bit,
    copy_range, group_words, narrow_words, unpack,
};

verus! {

/// The distance between two integers.
pub open spec fn distance(x: int, y: int) -> int {
    if x <= y {
        y - x
    } else {
        x - y
    }
}

/// The Paeth predictor: of left `a`, up `b` and up-left `c`, the one that
/// lies nearest to `a + b - c`, the earlier one where two are as near.
pub open spec fn paeth(a: int, b: int, c: int) -> int {
    let p = a + b - c;
    let pa = distance(p, a);
    let pb = distance(p, b);
    let pc = distance(p, c);
    if pa <= pb && pa <= pc {
        a
    } else if pb <= pc {
        b
    } else {
        c
    }
}

/// What filter `code` predicts for a byte from its neighbours.
pub open spec fn predictor(code: u8, left: u8, up: u8, upleft: u8) -> int {
    if code == 1 {
        left as int
    } else if code == 2 {
        up as int
    } else if code == 3 {
        (left + up) / 2
    } else if code == 4 {
        paeth(left as int, up as int, upleft as int)
    } else {
        0
    }
}

/// The byte that the filtered byte `c` stands for.
pub open spec fn reconstruct(code: u8, c: u8, left: u8, up: u8, upleft: u8) -> u8 {
    ((c + predictor(code, left, up, upleft)) % 256) as u8
}

/// The filtered byte that stands for the byte `x`.
pub open spec fn filtered(code: u8, x: u8, left: u8, up: u8, upleft: u8) -> u8 {
    ((x - predictor(code, left, up, upleft)) % 256) as u8
}

/// Byte `i` of `row`, and zero where the row has no such byte.
pub open spec fn at_or_zero(row: Seq<u8>, i: int) -> u8 {
    if 0 <= i < row.len() {
        row[i]
    } else {
        0
    }
}

/// The first `n` bytes of the row that `cur` reconstructs to. `left` is the
/// reconstructed byte `stride` places earlier, `up` the byte of `prev` at
/// the same place, `upleft` the byte of `prev` `stride` places earlier;
/// each is zero where there is no such byte.
pub open spec fn unfilter_prefix(code: u8, stride: int, cur: Seq<u8>, prev: Seq<u8>, n: nat) -> Seq<
    u8,
>
    decreases n,
{
    if n == 0 {
        Seq::empty()
    } else {
        let done = unfilter_prefix(code, stride, cur, prev, (n - 1) as nat);
        let i = n - 1;
        done.push(
            reconstruct(
                code,
                cur[i],
                at_or_zero(done, i - stride),
                at_or_zero(prev, i),
                at_or_zero(prev, i - stride),
            ),
        )
    }
}

/// The row that the filtered row `cur` reconstructs to, above it the
/// reconstructed row `prev`.
pub open spec fn unfiltered(code: u8, stride: int, cur: Seq<u8>, prev: Seq<u8>) -> Seq<u8> {
    unfilter_prefix(code, stride, cur, prev, cur.len())
}

/// Whether `out` is `cur` with every byte reconstructed from its neighbours
/// in `out` and `prev`.
pub open spec fn is_reconstruction(
    code: u8,
    stride: int,
    cur: Seq<u8>,
    prev: Seq<u8>,
    out: Seq<u8>,
) -> bool {
    &&& out.len() == cur.len()
    &&& forall|i: int|
        0 <= i < cur.len() ==> #[trigger] out[i] == reconstruct(
            code,
            cur[i],
            at_or_zero(out, i - stride),
            at_or_zero(prev, i),
            at_or_zero(prev, i - stride),
        )
}

/// The row `raw` filtered with `code`, above it the unfiltered row `prev`.
pub open spec fn filter_row(code: u8, stride: int, raw: Seq<u8>, prev: Seq<u8>) -> Seq<u8> {
    Seq::new(
        raw.len(),
        |i: int|
            filtered(
                code,
                raw[i],
                at_or_zero(raw, i - stride),
                at_or_zero(prev, i),
                at_or_zero(prev, i - stride),
            ),
    )
}

/// The packed bytes of a row as one byte per sample: samples of 1, 2 or 4
/// bits scaled to eight, samples of 16 bits narrowed to their high byte,
/// any other depth left as it is.
pub open spec fn unpacked(packed: Seq<u8>, depth: u8) -> Seq<u8> {
    if depth == 1 || depth == 2 || depth == 4 {
        unpack(packed, depth as int)
    } else if depth == 16 {
        narrow_words(group_words(packed))
    } else {
        packed
    }
}

/// The bytes of an optional row; none where there is no row.
pub open spec fn row_or_empty(row: Option<&Vec<u8>>) -> Seq<u8> {
    match row {
        Some(v) => v@,
        None => Seq::empty(),
    }
}

/// A prefix of a reconstruction is the reconstruction of that many bytes.
pub proof fn lemma_unfilter_prefix(code: u8, stride: int, cur: Seq<u8>, prev: Seq<u8>, n: nat)
    requires
        stride >= 1,
    ensures
        unfilter_prefix(code, stride, cur, prev, n).len() == n,
        forall|m: nat, i: int|
            m <= n && 0 <= i < m ==> #[trigger] unfilter_prefix(code, stride, cur, prev, m)[i]
                == unfilter_prefix(code, stride, cur, prev, n)[i],
    decreases n,
{
    if n > 0 {
        lemma_unfilter_prefix(code, stride, cur, prev, (n - 1) as nat);
        let shorter = unfilter_prefix(code, stride, cur, prev, (n - 1) as nat);
        let whole = unfilter_prefix(code, stride, cur, prev, n);
        assert forall|m: nat, i: int| m <= n && 0 <= i < m implies #[trigger] unfilter_prefix(
            code,
            stride,
            cur,
            prev,
            m,
        )[i] == whole[i] by {
            if m < n {
                assert(unfilter_prefix(code, stride, cur, prev, m)[i] == shorter[i]);
            }
        }
    }
}

/// The reconstructed row is a reconstruction, and the only one.
pub proof fn lemma_unfiltered_is_reconstruction(
    code: u8,
    stride: int,
    cur: Seq<u8>,
    prev: Seq<u8>,
    out: Seq<u8>,
)
    requires
        stride >= 1,
    ensures
        is_reconstruction(code, stride, cur, prev, unfiltered(code, stride, cur, prev)),
        is_reconstruction(code, stride, cur, prev, out) ==> out == unfiltered(
            code,
            stride,
            cur,
            prev,
        ),
{
    let whole = unfiltered(code, stride, cur, prev);
    lemma_unfilter_prefix(code, stride, cur, prev, cur.len());
    assert forall|i: int| 0 <= i < cur.len() implies #[trigger] whole[i] == reconstruct(
        code,
        cur[i],
        at_or_zero(whole, i - stride),
        at_or_zero(prev, i),
        at_or_zero(prev, i - stride),
    ) by {
        let upto = unfilter_prefix(code, stride, cur, prev, (i + 1) as nat);
        let done = unfilter_prefix(code, stride, cur, prev, i as nat);
        lemma_unfilter_prefix(code, stride, cur, prev, i as nat);
        assert(upto[i] == whole[i]);
        if i - stride >= 0 {
            assert(done[i - stride] == whole[i - stride]);
        }
    }
    if is_reconstruction(code, stride, cur, prev, out) {
        lemma_reconstruction_unique(code, stride, cur, prev, out, cur.len());
        assert(out =~= whole);
    }
}

proof fn lemma_reconstruction_unique(
    code: u8,
    stride: int,
    cur: Seq<u8>,
    prev: Seq<u8>,
    out: Seq<u8>,
    n: nat,
)
    requires
        stride >= 1,
        n <= cur.len(),
        is_reconstruction(code, stride, cur, prev, out),
    ensures
        unfilter_prefix(code, stride, cur, prev, n) == out.take(n as int),
    decreases n,
{
    if n > 0 {
        lemma_reconstruction_unique(code, stride, cur, prev, out, (n - 1) as nat);
        let done = unfilter_prefix(code, stride, cur, prev, (n - 1) as nat);
        let i = n - 1;
        assert(done == out.take(i));
        assert(at_or_zero(done, i - stride) == at_or_zero(out, i - stride));
        assert(out[i] == reconstruct(
            code,
            cur[i],
            at_or_zero(out, i - stride),
            at_or_zero(prev, i),
            at_or_zero(prev, i - stride),
        ));
        assert(unfilter_prefix(code, stride, cur, prev, n) =~= out.take(n as int));
    } else {
        assert(unfilter_prefix(code, stride, cur, prev, n) =~= out.take(n as int));
    }
}

/// The Paeth predictor returns one of its three arguments, and the common
/// value where all three are equal.
pub proof fn lemma_paeth_picks_a_neighbour(a: int, b: int, c: int)
    ensures
        paeth(a, b, c) == a || paeth(a, b, c) == b || paeth(a, b, c) == c,
        paeth(a, a, a) == a,
{
}

/// Reconstructing a filtered byte gives the byte that was filtered.
pub proof fn lemma_reconstruct_filtered(code: u8, x: u8, left: u8, up: u8, upleft: u8)
    ensures
        reconstruct(code, filtered(code, x, left, up, upleft), left, up, upleft) == x,
{
    let p = predictor(code, left, up, upleft);
    assert(0 <= p <= 255);
    let f = (x - p) % 256;
    assert(f == x - p || f == x - p + 256);
}

/// For each of the five filter codes, unfiltering a filtered row gives the
/// row back.
pub proof fn lemma_unfilter_inverts_filter(code: u8, stride: int, raw: Seq<u8>, prev: Seq<u8>)
    requires
        stride >= 1,
    ensures
        unfiltered(code, stride, filter_row(code, stride, raw, prev), prev) == raw,
{
    let cur = filter_row(code, stride, raw, prev);
    assert forall|i: int| 0 <= i < cur.len() implies #[trigger] raw[i] == reconstruct(
        code,
        cur[i],
        at_or_zero(raw, i - stride),
        at_or_zero(prev, i),
        at_or_zero(prev, i - stride),
    ) by {
        lemma_reconstruct_filtered(
            code,
            raw[i],
            at_or_zero(raw, i - stride),
            at_or_zero(prev, i),
            at_or_zero(prev, i - stride),
        );
    }
    assert(is_reconstruction(code, stride, cur, prev, raw));
    lemma_unfiltered_is_reconstruction(code, stride, cur, prev, raw);
}

/// One row of an image: its filter code, the distance in bytes between a
/// sample and its left neighbour of the same channel, and one byte per
/// sample.
#[derive(Clone, Debug)]
pub struct Scanline {
    pub pixel_length: u8,
    pub pixel_bytes: Vec<u8>,
    pub filter: u8,
    pub depth: u8,
    pub raw_bytes: Vec<u8>,
}

impl Scanline {
    /// Splits the filter code off a row of the image data and unpacks the
    /// rest to one byte per sample. A row without a filter code is
    /// `Truncated`; an odd number of bytes at sixteen bits is
    /// `MalformedSample`.
    pub fn from_bytes(bytes: &Vec<u8>, pixel_length: u8, bit_depth: u8) -> (r: Result<
        Scanline,
        PngError,
    >)
        ensures
            bytes@.len() == 0 ==> r == Err::<Scanline, PngError>(PngError::Truncated),
            bytes@.len() > 0 && bit_depth == 16 && (bytes@.len() - 1) % 2 != 0 ==> r == Err::<
                Scanline,
                PngError,
            >(PngError::MalformedSample),
            bytes@.len() > 0 && !(bit_depth == 16 && (bytes@.len() - 1) % 2 != 0) ==> {
                &&& r is Ok
                &&& r->Ok_0.pixel_length == pixel_length
                &&& r->Ok_0.filter == bytes@[0]
                &&& r->Ok_0.depth == bit_depth
                &&& r->Ok_0.raw_bytes@ == bytes@
                &&& r->Ok_0.pixel_bytes@ == unpacked(bytes@.skip(1), bit_depth)
            },
    {
        if bytes.len() == 0 {
            return Err(PngError::Truncated);
        }
        let packed: Vec<u8> = copy_range(bytes, 1, bytes.len());
        assert(packed@ =~= bytes@.skip(1));
        let pixel_bytes: Vec<u8> = if bit_depth == 1 {
            bytes_as_1bit(&packed)
        } else if bit_depth == 2 {
            bytes_as_2bit(&packed)
        } else if bit_depth == 4 {
            bytes_as_4bit(&packed)
        } else if bit_depth == 16 {
            match bytes_as_16bit(&packed) {
                Ok(words) => bytes_from_16bit_to_8bit(&words),
                Err(e) => {
                    return Err(e);
                },
            }
        } else {
            packed
        };
        let raw_bytes: Vec<u8> = copy_range(bytes, 0, bytes.len());
        assert(raw_bytes@ =~= bytes@);
        Ok(Scanline { pixel_length, pixel_bytes, filter: bytes[0], depth: bit_depth, raw_bytes })
    }

    /// Undoes the row's filter in place, given the reconstructed row above
    /// it, if there is one. A filter code above 4 is `UnknownFilter`, and
    /// the row is left as it was.
    pub fn unfilter(&mut self, previous_line: Option<&Vec<u8>>) -> (r: Result<(), PngError>)
        requires
            old(self).pixel_length >= 1,
        ensures
            final(self).pixel_length == old(self).pixel_length,
            final(self).filter == old(self).filter,
            final(self).depth == old(self).depth,
            final(self).raw_bytes == old(self).raw_bytes,
            old(self).filter <= 4 ==> r is Ok && final(self).pixel_bytes@ == unfiltered(
                old(self).filter,
                old(self).pixel_length as int,
                old(self).pixel_bytes@,
                row_or_empty(previous_line),
            ),
            old(self).filter > 4 ==> r == Err::<(), PngError>(PngError::UnknownFilter),
            old(self).filter > 4 ==> final(self).pixel_bytes == old(self).pixel_bytes,
    {
        if self.filter > 4 {
            return Err(PngError::UnknownFilter);
        }
        let none: Vec<u8> = Vec::new();
        let prev: &Vec<u8> = match previous_line {
            Some(v) => v,
            None => &none,
        };
        if self.filter == 0 {
            self.pixel_bytes = undo(0, self.pixel_length, &self.pixel_bytes, prev);
        } else if self.filter == 1 {
            self.unsub();
            proof {
                lemma_sub_ignores_previous(
                    old(self).pixel_length as int,
                    old(self).pixel_bytes@,
                    prev@,
                    old(self).pixel_bytes@.len(),
                );
            }
        } else if self.filter == 2 {
            self.unup(prev);
        } else if self.filter == 3 {
            self.unaverage(prev);
        } else {
            self.unpaeth(prev);
        }
        Ok(())
    }

    /// Undoes the Sub filter: each byte is the filtered byte plus the byte
    /// one pixel to the left.
    pub fn unsub(&mut self)
        requires
            old(self).pixel_length >= 1,
        ensures
            final(self).pixel_length == old(self).pixel_length,
            final(self).filter == old(self).filter,
            final(self).depth == old(self).depth,
            final(self).raw_bytes == old(self).raw_bytes,
            final(self).pixel_bytes@ == unfiltered(
                1,
                old(self).pixel_length as int,
                old(self).pixel_bytes@,
                Seq::empty(),
            ),
    {
        let none: Vec<u8> = Vec::new();
        self.pixel_bytes = undo(1, self.pixel_length, &self.pixel_bytes, &none);
    }

    /// Undoes the Up filter: each byte is the filtered byte plus the byte
    /// above it.
    pub fn unup(&mut self, previous_line: &Vec<u8>)
        requires
            old(self).pixel_length >= 1,
        ensures
            final(self).pixel_length == old(self).pixel_length,
            final(self).filter == old(self).filter,
            final(self).depth == old(self).depth,
            final(self).raw_bytes == old(self).raw_bytes,
            final(self).pixel_bytes@ == unfiltered(
                2,
                old(self).pixel_length as int,
                old(self).pixel_bytes@,
                previous_line@,
            ),
    {
        self.pixel_bytes = undo(2, self.pixel_length, &self.pixel_bytes, previous_line);
    }

    /// Undoes the Average filter: each byte is the filtered byte plus the
    /// mean, rounded down, of the bytes to the left and above.
    pub fn unaverage(&mut self, previous_line: &Vec<u8>)
        requires
            old(self).pixel_length >= 1,
        ensures
            final(self).pixel_length == old(self).pixel_length,
            final(self).filter == old(self).filter,
            final(self).depth == old(self).depth,
            final(self).raw_bytes == old(self).raw_bytes,
            final(self).pixel_bytes@ == unfiltered(
                3,
                old(self).pixel_length as int,
                old(self).pixel_bytes@,
                previous_line@,
            ),
    {
        self.pixel_bytes = undo(3, self.pixel_length, &self.pixel_bytes, previous_line);
    }

    /// Undoes the Paeth filter: each byte is the filtered byte plus the
    /// Paeth predictor of the bytes to the left, above and above-left.
    pub fn unpaeth(&mut self, previous_line: &Vec<u8>)
        requires
            old(self).pixel_length >= 1,
        ensures
            final(self).pixel_length == old(self).pixel_length,
            final(self).filter == old(self).filter,
            final(self).depth == old(self).depth,
            final(self).raw_bytes == old(self).raw_bytes,
            final(self).pixel_bytes@ == unfiltered(
                4,
                old(self).pixel_length as int,
                old(self).pixel_bytes@,
                previous_line@,
            ),
    {
        self.pixel_bytes = undo(4, self.pixel_length, &self.pixel_bytes, previous_line);
    }

    /// The Paeth predictor of left `a`, up `b` and up-left `c`.
    pub fn paeth_predictor(a: usize, b: usize, c: usize) -> (r: usize)
        ensures
            r == paeth(a as int, b as int, c as int),
            r == a || r == b || r == c,
            a == b && b == c ==> r == a,
    {
        let a: i128 = a as i128;
        let b: i128 = b as i128;
        let c: i128 = c as i128;
        let p: i128 = a + b - c;
        let pa: i128 = gap(p, a);
        let pb: i128 = gap(p, b);
        let pc: i128 = gap(p, c);
        if pa <= pb && pa <= pc {
            a as usize
        } else if pb <= pc {
            b as usize
        } else {
            c as usize
        }
    }
}

fn gap(x: i128, y: i128) -> (r: i128)
    requires
        -0x4_0000_0000_0000_0000 <= x <= 0x4_0000_0000_0000_0000,
        -0x4_0000_0000_0000_0000 <= y <= 0x4_0000_0000_0000_0000,
    ensures
        r == distance(x as int, y as int),
{
    if x <= y {
        y - x
    } else {
        x - y
    }
}

/// The Sub filter reads nothing of the row above.
proof fn lemma_sub_ignores_previous(stride: int, cur: Seq<u8>, prev: Seq<u8>, n: nat)
    ensures
        unfilter_prefix(1, stride, cur, prev, n) == unfilter_prefix(
            1,
            stride,
            cur,
            Seq::empty(),
            n,
        ),
    decreases n,
{
    if n > 0 {
        lemma_sub_ignores_previous(stride, cur, prev, (n - 1) as nat);
    }
}

/// Byte `i` of `row`, and zero where the row has no such byte.
fn byte_or_zero(row: &Vec<u8>, i: usize, back: usize) -> (r: u8)
    ensures
        r == at_or_zero(row@, i - back),
{
    if i >= back && i - back < row.len() {
        row[i - back]
    } else {
        0
    }
}

/// What filter `code` predicts from the three neighbours.
fn predict(code: u8, left: u8, up: u8, upleft: u8) -> (r: u8)
    ensures
        r == predictor(code, left, up, upleft),
{
    if code == 1 {
        left
    } else if code == 2 {
        up
    } else if code == 3 {
        ((left as u16 + up as u16) / 2) as u8
    } else if code == 4 {
        Scanline::paeth_predictor(left as usize, up as usize, upleft as usize) as u8
    } else {
        0
    }
}

/// Reconstructs the filtered row `cur`.
fn undo(code: u8, stride: u8, cur: &Vec<u8>, prev: &Vec<u8>) -> (out: Vec<u8>)
    ensures
        out@ == unfiltered(code, stride as int, cur@, prev@),
{
    let mut out: Vec<u8> = Vec::new();
    let mut i: usize = 0;
    while i < cur.len()
        invariant
            i <= cur.len(),
            out@ == unfilter_prefix(code, stride as int, cur@, prev@, i as nat),
            out@.len() == i,
        decreases cur.len() - i,
    {
        let left: u8 = byte_or_zero(&out, i, stride as usize);
        let up: u8 = byte_or_zero(prev, i, 0);
        let upleft: u8 = byte_or_zero(prev, i, stride as usize);
        let p: u8 = predict(code, left, up, upleft);
        let x: u8 = ((cur[i] as u16 + p as u16) % 256) as u8;
        out.push(x);
        i = i + 1;
    }
    out
}

} // verus!
