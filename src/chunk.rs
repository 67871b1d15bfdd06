use vstd::prelude::*;

use crate::bytes::{be_bytes, be_u32, copy_range, lemma_be_round_trip, push_all, push_be_u32, read_be_u32};
use crate::error::PngError;

verus! {

/// The type tag of the header chunk, `IHDR`.
pub open spec fn ihdr_tag() -> Seq<u8> {
    seq![73u8, 72u8, 68u8, 82u8]
}

/// The type tag of a pixel-data chunk, `IDAT`.
pub open spec fn idat_tag() -> Seq<u8> {
    seq![73u8, 68u8, 65u8, 84u8]
}

/// The type tag of the terminator chunk, `IEND`.
pub open spec fn iend_tag() -> Seq<u8> {
    seq![73u8, 69u8, 78u8, 68u8]
}

/// The class of a chunk, decided by its 4-byte type tag.
#[derive(Debug, Clone, Copy, PartialEq, Eq)]
pub enum ChunkType {
    Start,
    Data,
    End,
    Other([u8; 4]),
}

impl ChunkType {
    /// The 4-byte tag that this class stands for.
    pub open spec fn tag(self) -> Seq<u8> {
        match self {
            ChunkType::Start => ihdr_tag(),
            ChunkType::Data => idat_tag(),
            ChunkType::End => iend_tag(),
            ChunkType::Other(t) => t@,
        }
    }

    /// `Other` never carries one of the three tags that have a class of their own.
    pub open spec fn canonical(self) -> bool {
        match self {
            ChunkType::Other(t) => t@ != ihdr_tag() && t@ != idat_tag() && t@ != iend_tag(),
            _ => true,
        }
    }

    /// Classifies the first four bytes of `bytes`.
    pub fn new(bytes: &[u8]) -> (r: Result<ChunkType, PngError>)
        ensures
            bytes@.len() < 4 ==> r == Err::<ChunkType, PngError>(PngError::TooShortInput),
            bytes@.len() >= 4 ==> r is Ok && r->Ok_0.tag() == bytes@.subrange(0, 4)
                && r->Ok_0.canonical(),
    {
        if bytes.len() < 4 {
            return Err(PngError::TooShortInput);
        }
        let t = [bytes[0], bytes[1], bytes[2], bytes[3]];
        let ghost s = bytes@.subrange(0, 4);
        assert(t@ =~= s);
        if bytes[0] == 73 && bytes[1] == 72 && bytes[2] == 68 && bytes[3] == 82 {
            assert(s =~= ihdr_tag());
            Ok(ChunkType::Start)
        } else if bytes[0] == 73 && bytes[1] == 68 && bytes[2] == 65 && bytes[3] == 84 {
            assert(s =~= idat_tag());
            Ok(ChunkType::Data)
        } else if bytes[0] == 73 && bytes[1] == 69 && bytes[2] == 78 && bytes[3] == 68 {
            assert(s =~= iend_tag());
            Ok(ChunkType::End)
        } else {
            assert(t@ != ihdr_tag()) by {
                if t@ == ihdr_tag() {
                    assert(t@[1] == ihdr_tag()[1]);
                }
            }
            assert(t@ != idat_tag()) by {
                if t@ == idat_tag() {
                    assert(t@[1] == idat_tag()[1]);
                }
            }
            assert(t@ != iend_tag()) by {
                if t@ == iend_tag() {
                    assert(t@[1] == iend_tag()[1]);
                }
            }
            Ok(ChunkType::Other(t))
        }
    }

    /// The 4-byte tag of this class.
    pub fn tag_bytes(&self) -> (r: [u8; 4])
        ensures
            r@ == self.tag(),
    {
        let r = match self {
            ChunkType::Start => [73u8, 72u8, 68u8, 82u8],
            ChunkType::Data => [73u8, 68u8, 65u8, 84u8],
            ChunkType::End => [73u8, 69u8, 78u8, 68u8],
            ChunkType::Other(t) => *t,
        };
        assert(r@ =~= self.tag());
        r
    }
}

/// What a chunk holds: its tag, its payload and its stored CRC.
pub struct ChunkView {
    pub tag: Seq<u8>,
    pub data: Seq<u8>,
    pub crc: Seq<u8>,
}

/// A chunk record: a type tag, a payload and the CRC that came with it.
#[derive(Debug)]
pub struct Chunk {
    pub chunk_type: ChunkType,
    pub data: Vec<u8>,
    pub crc: [u8; 4],
}

impl View for Chunk {
    type V = ChunkView;

    open spec fn view(&self) -> ChunkView {
        ChunkView { tag: self.chunk_type.tag(), data: self.data@, crc: self.crc@ }
    }
}

/// The bytes of a chunk on the wire: length, tag, payload, CRC.
pub open spec fn chunk_bytes(c: ChunkView) -> Seq<u8> {
    be_bytes(c.data.len() as u32) + c.tag + c.data + c.crc
}

/// A chunk can be written: its tag and CRC have four bytes and its length fits the length field.
pub open spec fn encodable(c: ChunkView) -> bool {
    c.tag.len() == 4 && c.crc.len() == 4 && c.data.len() <= u32::MAX
}

/// The chunk that starts at offset `p` of `buf`, or why none can be read there.
pub open spec fn chunk_at(buf: Seq<u8>, p: int) -> Result<ChunkView, PngError> {
    if p + 8 > buf.len() {
        Err(PngError::TooShortInput)
    } else {
        let len = be_u32(buf.subrange(p, p + 4));
        if p + 12 + len > buf.len() {
            Err(PngError::TooShortInput)
        } else {
            Ok(
                ChunkView {
                    tag: buf.subrange(p + 4, p + 8),
                    data: buf.subrange(p + 8, p + 8 + len),
                    crc: buf.subrange(p + 8 + len, p + 12 + len),
                },
            )
        }
    }
}

/// A written chunk reads back as itself, whatever precedes or follows it.
pub proof fn lemma_chunk_bytes_parse(pre: Seq<u8>, c: ChunkView, post: Seq<u8>)
    requires
        encodable(c),
    ensures
        chunk_at(pre + chunk_bytes(c) + post, pre.len() as int) == Ok::<ChunkView, PngError>(c),
        chunk_bytes(c).len() == 12 + c.data.len(),
{
    let n = c.data.len() as u32;
    lemma_be_round_trip(n);
    let buf = pre + chunk_bytes(c) + post;
    let p = pre.len() as int;
    let len = c.data.len() as int;
    assert(buf.subrange(p, p + 4) =~= be_bytes(n));
    assert(buf.subrange(p + 4, p + 8) =~= c.tag);
    assert(buf.subrange(p + 8, p + 8 + len) =~= c.data);
    assert(buf.subrange(p + 8 + len, p + 12 + len) =~= c.crc);
}

impl Chunk {
    /// The payload length.
    pub fn length(&self) -> (r: usize)
        ensures
            r == self.data@.len(),
    {
        self.data.len()
    }

    /// The bytes that the chunk takes in a stream: its payload and twelve more.
    pub fn consumed_size(&self) -> (r: usize)
        requires
            self.data@.len() + 12 <= usize::MAX,
        ensures
            r == self.data@.len() + 12,
    {
        self.length() + 12
    }

    pub fn new(chunk_type: ChunkType, data: Vec<u8>, crc: [u8; 4]) -> (r: Chunk)
        ensures
            r.chunk_type == chunk_type,
            r.data@ == data@,
            r.crc == crc,
    {
        Chunk { chunk_type, data, crc }
    }

    /// Reads one chunk from the start of `buffer`.
    pub fn parse(buffer: &[u8]) -> (r: Result<Chunk, PngError>)
        ensures
            match chunk_at(buffer@, 0) {
                Ok(v) => r is Ok && r->Ok_0@ == v && r->Ok_0.chunk_type.canonical(),
                Err(e) => r == Err::<Chunk, PngError>(e),
            },
    {
        let length = Self::parse_length(buffer)?;
        if buffer.len() < 8 {
            return Err(PngError::TooShortInput);
        }
        let chunk_type = Self::parse_chunk_type(vstd::slice::slice_subrange(buffer, 4, buffer.len()))?;
        let data = Self::parse_data(vstd::slice::slice_subrange(buffer, 8, buffer.len()), length)?;
        let crc = Self::parse_crc(vstd::slice::slice_subrange(buffer, length + 8, buffer.len()))?;
        let r = Chunk::new(chunk_type, data, crc);
        assert(r@.tag =~= chunk_at(buffer@, 0)->Ok_0.tag);
        assert(r@.data =~= chunk_at(buffer@, 0)->Ok_0.data);
        assert(r@.crc =~= chunk_at(buffer@, 0)->Ok_0.crc);
        Ok(r)
    }

    fn parse_length(buffer: &[u8]) -> (r: Result<usize, PngError>)
        ensures
            buffer@.len() < 4 ==> r == Err::<usize, PngError>(PngError::TooShortInput),
            buffer@.len() >= 4 ==> r == Ok::<usize, PngError>(
                be_u32(buffer@.subrange(0, 4)) as usize,
            ),
            r is Ok ==> r->Ok_0 <= u32::MAX,
    {
        let n = parse_u32(buffer)?;
        Ok(n as usize)
    }

    fn parse_chunk_type(buffer: &[u8]) -> (r: Result<ChunkType, PngError>)
        ensures
            buffer@.len() < 4 ==> r == Err::<ChunkType, PngError>(PngError::TooShortInput),
            buffer@.len() >= 4 ==> r is Ok && r->Ok_0.tag() == buffer@.subrange(0, 4)
                && r->Ok_0.canonical(),
    {
        ChunkType::new(buffer)
    }

    fn parse_data(buffer: &[u8], length: usize) -> (r: Result<Vec<u8>, PngError>)
        ensures
            buffer@.len() < length ==> r == Err::<Vec<u8>, PngError>(PngError::TooShortInput),
            buffer@.len() >= length ==> r is Ok && r->Ok_0@ == buffer@.subrange(0, length as int),
    {
        if buffer.len() < length {
            Err(PngError::TooShortInput)
        } else {
            Ok(copy_range(buffer, 0, length))
        }
    }

    fn parse_crc(buffer: &[u8]) -> (r: Result<[u8; 4], PngError>)
        ensures
            buffer@.len() < 4 ==> r == Err::<[u8; 4], PngError>(PngError::TooShortInput),
            buffer@.len() >= 4 ==> r is Ok && r->Ok_0@ == buffer@.subrange(0, 4),
    {
        if buffer.len() < 4 {
            Err(PngError::TooShortInput)
        } else {
            let r = [buffer[0], buffer[1], buffer[2], buffer[3]];
            assert(r@ =~= buffer@.subrange(0, 4));
            Ok(r)
        }
    }

    /// Appends the chunk's bytes to `out`: length, tag, payload, CRC.
    pub fn encode(&self, out: &mut Vec<u8>)
        requires
            self.data@.len() <= u32::MAX,
        ensures
            final(out)@ == old(out)@ + chunk_bytes(self@),
    {
        push_be_u32(out, self.data.len() as u32);
        let tag = self.chunk_type.tag_bytes();
        push_all(out, &tag);
        push_all(out, self.data.as_slice());
        push_all(out, &self.crc);
        assert(final(out)@ =~= old(out)@ + chunk_bytes(self@));
    }
}

/// Reads four bytes at the start of `buffer` as a big-endian `u32`.
fn parse_u32(buffer: &[u8]) -> (r: Result<u32, PngError>)
    ensures
        buffer@.len() < 4 ==> r == Err::<u32, PngError>(PngError::TooShortInput),
        buffer@.len() >= 4 ==> r is Ok && r->Ok_0 as int == be_u32(buffer@.subrange(0, 4)),
{
    if buffer.len() < 4 {
        Err(PngError::TooShortInput)
    } else {
        Ok(read_be_u32(buffer, 0))
    }
}

} // verus!
