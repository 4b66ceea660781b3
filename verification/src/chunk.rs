use vstd::prelude::*;
use crate::error::PngError;
use crate::helper::copy_range;

verus! {

/// One framing unit of the container: the length of its payload, its
/// four-byte type tag, the payload and the checksum that follows it.
#[derive(Clone, Debug)]
pub struct Chunk {
    pub length: u32,
    pub name: [u8; 4],
    pub data: Vec<u8>,
    pub crc: u32,
}

/// A chunk as plain values.
pub struct ChunkView {
    pub length: u32,
    pub name: Seq<u8>,
    pub data: Seq<u8>,
    pub crc: u32,
}

impl View for Chunk {
    type V = ChunkView;

    open spec fn view(&self) -> ChunkView {
        ChunkView { length: self.length, name: self.name@, data: self.data@, crc: self.crc }
    }
}

/// The chunks of a sequence as plain values.
pub open spec fn views(chunks: Seq<Chunk>) -> Seq<ChunkView> {
    Seq::new(chunks.len(), |i: int| chunks[i]@)
}

/// The eight bytes that every PNG file starts with.
pub open spec fn signature() -> Seq<u8> {
    seq![0x89u8, 0x50u8, 0x4Eu8, 0x47u8, 0x0Du8, 0x0Au8, 0x1Au8, 0x0Au8]
}

/// The eight bytes that every PNG file ends with: the tag of the `IEND`
/// chunk and the checksum of an empty one.
pub open spec fn terminator() -> Seq<u8> {
    seq![0x49u8, 0x45u8, 0x4Eu8, 0x44u8, 0xAEu8, 0x42u8, 0x60u8, 0x82u8]
}

/// The tag made of four bytes.
pub open spec fn tag(a: u8, b: u8, c: u8, d: u8) -> Seq<u8> {
    seq![a, b, c, d]
}

/// The tag `IEND`.
pub open spec fn iend() -> Seq<u8> {
    tag(0x49, 0x45, 0x4E, 0x44)
}

/// The big-endian 32-bit number in the four bytes of `s` from index `at`.
pub open spec fn be32(s: Seq<u8>, at: int) -> u32 {
    (s[at] * 0x100_0000 + s[at + 1] * 0x1_0000 + s[at + 2] * 0x100 + s[at + 3]) as u32
}

/// Whether a whole chunk lies in `bytes` from index `pos`: length, tag,
/// as many bytes of payload as the length says, and checksum.
pub open spec fn chunk_fits(bytes: Seq<u8>, pos: int) -> bool {
    &&& 0 <= pos
    &&& pos + 12 <= bytes.len()
    &&& pos + 12 + be32(bytes, pos) <= bytes.len()
}

/// The chunk that starts at index `pos` of `bytes`.
pub open spec fn chunk_at(bytes: Seq<u8>, pos: int) -> ChunkView {
    let length = be32(bytes, pos);
    ChunkView {
        length,
        name: bytes.subrange(pos + 4, pos + 8),
        data: bytes.subrange(pos + 8, pos + 8 + length),
        crc: be32(bytes, pos + 8 + length),
    }
}

/// `done`, then what `rest` holds.
pub open spec fn followed_by(done: Seq<ChunkView>, rest: Result<Seq<ChunkView>, PngError>)
    -> Result<Seq<ChunkView>, PngError> {
    match rest {
        Ok(more) => Ok(done + more),
        Err(e) => Err(e),
    }
}

/// The chunks of `bytes` from index `pos`, in file order, up to and with
/// the first `IEND`. A chunk that does not fit is `Truncated`; bytes after
/// the `IEND` chunk are `UnexpectedTrailingBytes`.
pub open spec fn split_from(bytes: Seq<u8>, pos: int) -> Result<Seq<ChunkView>, PngError>
    decreases bytes.len() - pos,
{
    if !chunk_fits(bytes, pos) {
        Err(PngError::Truncated)
    } else {
        let chunk = chunk_at(bytes, pos);
        let next = pos + 12 + chunk.length;
        if chunk.name == iend() {
            if next == bytes.len() {
                Ok(seq![chunk])
            } else {
                Err(PngError::UnexpectedTrailingBytes)
            }
        } else {
            followed_by(seq![chunk], split_from(bytes, next))
        }
    }
}

/// The chunks of a whole file.
pub open spec fn split(bytes: Seq<u8>) -> Result<Seq<ChunkView>, PngError> {
    if bytes.len() < 8 || bytes.subrange(0, 8) != signature() {
        Err(PngError::InvalidSignature)
    } else if bytes.subrange(bytes.len() - 8, bytes.len() as int) != terminator() {
        Err(PngError::InvalidTerminator)
    } else {
        split_from(bytes, 8)
    }
}

/// Whether `chunks` is what a file splits into: each payload as long as its
/// length field says, each tag four bytes, the last chunk an `IEND` and no
/// other.
pub open spec fn well_framed(chunks: Seq<ChunkView>) -> bool {
    &&& chunks.len() >= 1
    &&& chunks.last().name == iend()
    &&& forall|i: int| 0 <= i < chunks.len() - 1 ==> (#[trigger] chunks[i]).name != iend()
    &&& forall|i: int|
        0 <= i < chunks.len() ==> (#[trigger] chunks[i]).data.len() == chunks[i].length
            && chunks[i].name.len() == 4
}

/// Whatever a file splits into is well framed.
pub proof fn lemma_split_well_framed(bytes: Seq<u8>, pos: int)
    requires
        split_from(bytes, pos) is Ok,
    ensures
        well_framed(split_from(bytes, pos)->Ok_0),
    decreases bytes.len() - pos,
{
    let chunk = chunk_at(bytes, pos);
    let next = pos + 12 + chunk.length;
    if chunk.name != iend() {
        lemma_split_well_framed(bytes, next);
        let rest = split_from(bytes, next)->Ok_0;
        let all = seq![chunk] + rest;
        assert(all.last() == rest.last());
        assert forall|i: int| 0 <= i < all.len() - 1 implies (#[trigger] all[i]).name != iend() by {
            if i > 0 {
                assert(all[i] == rest[i - 1]);
            }
        }
        assert forall|i: int| 0 <= i < all.len() implies (#[trigger] all[i]).data.len()
            == all[i].length && all[i].name.len() == 4 by {
            if i > 0 {
                assert(all[i] == rest[i - 1]);
            }
        }
    }
}

/// The big-endian 32-bit number in the four bytes of `bytes` from `at`.
pub fn read_be32(bytes: &Vec<u8>, at: usize) -> (r: u32)
    requires
        at + 4 <= bytes.len(),
    ensures
        r == be32(bytes@, at as int),
{
    let a: u32 = bytes[at] as u32;
    let b: u32 = bytes[at + 1] as u32;
    let c: u32 = bytes[at + 2] as u32;
    let d: u32 = bytes[at + 3] as u32;
    a * 0x100_0000 + b * 0x1_0000 + c * 0x100 + d
}

/// Whether the eight bytes of `bytes` from `at` are `expected`.
fn eight_bytes_are(bytes: &Vec<u8>, at: usize, expected: [u8; 8]) -> (r: bool)
    requires
        at + 8 <= bytes.len(),
    ensures
        r == (bytes@.subrange(at as int, at + 8) == expected@),
{
    let mut i: usize = 0;
    while i < 8
        invariant
            i <= 8,
            at + 8 <= bytes.len(),
            forall|k: int| 0 <= k < i ==> bytes@[at + k] == #[trigger] expected@[k],
        decreases 8 - i,
    {
        if bytes[at + i] != expected[i] {
            assert(bytes@.subrange(at as int, at + 8)[i as int] != expected@[i as int]);
            return false;
        }
        i = i + 1;
    }
    assert(bytes@.subrange(at as int, at + 8) =~= expected@);
    true
}

impl Chunk {
    /// Whether the chunk's tag is the four bytes given.
    pub fn is(&self, a: u8, b: u8, c: u8, d: u8) -> (r: bool)
        ensures
            r == (self@.name == tag(a, b, c, d)),
    {
        let same: bool = self.name[0] == a && self.name[1] == b && self.name[2] == c
            && self.name[3] == d;
        proof {
            if same {
                assert(self.name@ =~= tag(a, b, c, d));
            } else {
                let t = tag(a, b, c, d);
                assert(t[0] == a && t[1] == b && t[2] == c && t[3] == d);
            }
        }
        same
    }

    /// Splits a whole file into its chunks. The file must start with the
    /// PNG signature, or it is `InvalidSignature`, and end with the tag and
    /// checksum of an empty `IEND` chunk, or it is `InvalidTerminator`.
    /// Behind the signature each chunk is read by its length field, in file
    /// order, up to the first `IEND`; chunks with unknown tags are kept.
    /// Checksums are read and not verified.
    pub fn from_bytes(bytes: &Vec<u8>) -> (r: Result<Vec<Chunk>, PngError>)
        ensures
            match split(bytes@) {
                Ok(chunks) => r is Ok && views(r->Ok_0@) == chunks && well_framed(chunks),
                Err(e) => r == Err::<Vec<Chunk>, PngError>(e),
            },
    {
        let n: usize = bytes.len();
        if n < 8 || !eight_bytes_are(bytes, 0, [0x89, 0x50, 0x4E, 0x47, 0x0D, 0x0A, 0x1A, 0x0A]) {
            return Err(PngError::InvalidSignature);
        }
        if !eight_bytes_are(bytes, n - 8, [0x49, 0x45, 0x4E, 0x44, 0xAE, 0x42, 0x60, 0x82]) {
            return Err(PngError::InvalidTerminator);
        }
        let mut chunks: Vec<Chunk> = Vec::new();
        let mut pos: usize = 8;
        loop
            invariant
                n == bytes.len(),
                8 <= pos <= n,
                split(bytes@) == split_from(bytes@, 8),
                split_from(bytes@, 8) == followed_by(views(chunks@), split_from(bytes@, pos as int)),
            decreases n - pos,
        {
            if n - pos < 12 {
                return Err(PngError::Truncated);
            }
            let length: u32 = read_be32(bytes, pos);
            if n - pos - 12 < length as usize {
                return Err(PngError::Truncated);
            }
            let start: usize = pos + 8;
            let end: usize = start + length as usize;
            let chunk = Chunk {
                length,
                name: [bytes[pos + 4], bytes[pos + 5], bytes[pos + 6], bytes[pos + 7]],
                data: copy_range(bytes, start, end),
                crc: read_be32(bytes, end),
            };
            let last: bool = chunk.is(0x49, 0x45, 0x4E, 0x44);
            proof {
                assert(chunk.name@ =~= bytes@.subrange(pos + 4, pos + 8));
                assert(chunk@ == chunk_at(bytes@, pos as int));
                assert(views(chunks@.push(chunk)) =~= views(chunks@) + seq![chunk@]);
                let rest = split_from(bytes@, end + 4);
                if !last {
                    match rest {
                        Ok(more) => {
                            assert(views(chunks@) + (seq![chunk@] + more) =~= (views(chunks@)
                                + seq![chunk@]) + more);
                        },
                        Err(e) => {},
                    }
                }
            }
            chunks.push(chunk);
            pos = end + 4;
            if last {
                if pos != n {
                    return Err(PngError::UnexpectedTrailingBytes);
                }
                proof {
                    lemma_split_well_framed(bytes@, 8);
                }
                return Ok(chunks);
            }
        }
    }
}

} // verus!
