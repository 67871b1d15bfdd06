use vstd::prelude::*;

use crate::bytes::be_u32;
use crate::chunk::{chunk_at, encodable, iend_tag, ihdr_tag, idat_tag, Chunk, ChunkType, ChunkView};
use crate::codec::{inflate, zlib_inflated};
use crate::error::PngError;
use crate::header::{header_error, Header};
use crate::png::{is_ancillary, model_wf, signature, Png, PngModel, Terminator};

verus! {

/// What the chunk walk has gathered so far.
pub struct ParseState {
    pub header: Option<ChunkView>,
    pub idat: Seq<u8>,
    pub misc: Seq<ChunkView>,
    pub end: Option<ChunkView>,
}

/// The state before the first chunk.
pub open spec fn initial_state() -> ParseState {
    ParseState { header: None, idat: Seq::empty(), misc: Seq::empty(), end: None }
}

/// Routes one chunk: the header is kept once, pixel-data payloads are concatenated, the
/// terminator is kept once, and every other chunk joins the ancillary list. `walk` calls
/// this only before the terminator was met.
pub open spec fn step(st: ParseState, c: ChunkView) -> Result<ParseState, PngError> {
    if c.tag == ihdr_tag() {
        if st.header is Some {
            Err(PngError::DuplicateIHDRFound)
        } else {
            match header_error(c) {
                Some(e) => Err(e),
                None => Ok(ParseState { header: Some(c), ..st }),
            }
        }
    } else if c.tag == iend_tag() {
        if st.end is Some {
            Err(PngError::DuplicateIENDFound)
        } else {
            Ok(ParseState { end: Some(c), ..st })
        }
    } else if c.tag == idat_tag() {
        Ok(ParseState { idat: st.idat + c.data, ..st })
    } else {
        Ok(ParseState { misc: st.misc.push(c), ..st })
    }
}

/// Reads chunks from offset `p` on until the bytes run out. Once the terminator has been
/// met, the chunks after it are only searched for a second terminator, which is an error;
/// anything else after it, bytes that form no chunk included, is ignored.
pub open spec fn walk(buf: Seq<u8>, p: int, st: ParseState) -> Result<ParseState, PngError>
    decreases buf.len() - p,
{
    if p >= buf.len() || p < 0 {
        Ok(st)
    } else if st.end is Some {
        match chunk_at(buf, p) {
            Err(_) => Ok(st),
            Ok(c) => if c.tag == iend_tag() {
                Err(PngError::DuplicateIENDFound)
            } else {
                walk(buf, p + 12 + c.data.len(), st)
            },
        }
    } else {
        match chunk_at(buf, p) {
            Err(e) => Err(e),
            Ok(c) => match step(st, c) {
                Err(e) => Err(e),
                Ok(next) => walk(buf, p + 12 + c.data.len(), next),
            },
        }
    }
}

/// The document that a byte stream holds, or the error that parsing it meets first.
pub open spec fn parse_spec(buf: Seq<u8>) -> Result<PngModel, PngError> {
    if buf.len() < 8 || buf.subrange(0, 8) != signature() {
        Err(PngError::InvalidSignature)
    } else {
        match walk(buf, 8, initial_state()) {
            Err(e) => Err(e),
            Ok(st) => if st.header is None {
                Err(PngError::NoIHDRFound)
            } else if st.end is None {
                Err(PngError::NoIENDFound)
            } else if st.idat.len() == 0 {
                Err(PngError::NoIDATFound)
            } else {
                match zlib_inflated(st.idat) {
                    None => Err(PngError::InvalidImageData),
                    Some(d) => Ok(
                        PngModel {
                            header: st.header->Some_0,
                            misc: st.misc,
                            terminator: st.end->Some_0,
                            data: d,
                        },
                    ),
                }
            },
        }
    }
}

/// What every state that the walk reaches satisfies.
pub open spec fn state_wf(st: ParseState) -> bool {
    &&& st.header is Some ==> header_error(st.header->Some_0) is None && encodable(st.header->Some_0)
    &&& st.end is Some ==> st.end->Some_0.tag == iend_tag() && encodable(st.end->Some_0)
    &&& forall|i: int| 0 <= i < st.misc.len() ==> is_ancillary(#[trigger] st.misc[i])
}

proof fn lemma_be_u32_bound(b: Seq<u8>)
    requires
        b.len() == 4,
    ensures
        0 <= be_u32(b) <= u32::MAX,
{
}

/// A chunk read at offset `p` is the chunk read at the start of the bytes from `p` on.
pub proof fn lemma_chunk_at_suffix(buf: Seq<u8>, p: int)
    requires
        0 <= p <= buf.len(),
    ensures
        chunk_at(buf.subrange(p, buf.len() as int), 0) == chunk_at(buf, p),
        chunk_at(buf, p) is Ok ==> encodable(chunk_at(buf, p)->Ok_0),
{
    let s = buf.subrange(p, buf.len() as int);
    if p + 8 <= buf.len() {
        assert(s.subrange(0, 4) =~= buf.subrange(p, p + 4));
        lemma_be_u32_bound(buf.subrange(p, p + 4));
        let len = be_u32(buf.subrange(p, p + 4));
        if p + 12 + len <= buf.len() {
            assert(s.subrange(4, 8) =~= buf.subrange(p + 4, p + 8));
            assert(s.subrange(8, 8 + len) =~= buf.subrange(p + 8, p + 8 + len));
            assert(s.subrange(8 + len, 12 + len) =~= buf.subrange(p + 8 + len, p + 12 + len));
        }
    }
}

proof fn lemma_step_wf(st: ParseState, c: ChunkView)
    requires
        state_wf(st),
        encodable(c),
    ensures
        step(st, c) is Ok ==> state_wf(step(st, c)->Ok_0),
{
    if let Ok(next) = step(st, c) {
        if c.tag != ihdr_tag() && c.tag != iend_tag() && c.tag != idat_tag() {
            assert forall|i: int| 0 <= i < next.misc.len() implies is_ancillary(#[trigger] next.misc[i]) by {
                if i < st.misc.len() {
                    assert(next.misc[i] == st.misc[i]);
                }
            }
        }
    }
}

/// The walk that turns a byte stream into a document.
pub struct PngParser {
    header: Option<Header>,
    terminator: Option<Terminator>,
    data: Vec<u8>,
    misc: Vec<Chunk>,
}

impl View for PngParser {
    type V = ParseState;

    closed spec fn view(&self) -> ParseState {
        ParseState {
            header: match self.header {
                Some(h) => Some(h.inner@),
                None => None,
            },
            idat: self.data@,
            misc: self.misc@.map_values(|c: Chunk| c@),
            end: match self.terminator {
                Some(t) => Some(t.inner@),
                None => None,
            },
        }
    }
}

impl PngParser {
    /// Every header the walk keeps is well formed.
    closed spec fn headers_wf(&self) -> bool {
        self.header is Some ==> self.header->Some_0.wf()
    }

    /// Parses a whole PNG byte stream into a document. After the first IEND chunk only a
    /// second IEND is looked for, and fails the parse; whatever else follows is ignored.
    pub fn parse(buffer: &[u8]) -> (r: Result<Png, PngError>)
        ensures
            match parse_spec(buffer@) {
                Ok(m) => r is Ok && r->Ok_0@ == m && r->Ok_0.wf(),
                Err(e) => r == Err::<Png, PngError>(e),
            },
            (buffer@.len() < 8 || buffer@.subrange(0, 8) != signature()) ==> r == Err::<Png, PngError>(
                PngError::InvalidSignature,
            ),
    {
        if !Self::has_signature(buffer) {
            return Err(PngError::InvalidSignature);
        }
        let mut parser = Self::new();
        parser.parse_chunks(buffer)?;
        parser.build()
    }

    fn has_signature(buffer: &[u8]) -> (r: bool)
        ensures
            r == (buffer@.len() >= 8 && buffer@.subrange(0, 8) == signature()),
    {
        if buffer.len() < 8 {
            return false;
        }
        let r = buffer[0] == 0x89 && buffer[1] == 0x50 && buffer[2] == 0x4E && buffer[3] == 0x47
            && buffer[4] == 0x0D && buffer[5] == 0x0A && buffer[6] == 0x1A && buffer[7] == 0x0A;
        if r {
            assert(buffer@.subrange(0, 8) =~= signature());
        } else {
            assert(buffer@.subrange(0, 8) != signature()) by {
                if buffer@.subrange(0, 8) == signature() {
                    assert(buffer@.subrange(0, 8)[0] == buffer@[0]);
                    assert(buffer@.subrange(0, 8)[1] == buffer@[1]);
                    assert(buffer@.subrange(0, 8)[2] == buffer@[2]);
                    assert(buffer@.subrange(0, 8)[3] == buffer@[3]);
                    assert(buffer@.subrange(0, 8)[4] == buffer@[4]);
                    assert(buffer@.subrange(0, 8)[5] == buffer@[5]);
                    assert(buffer@.subrange(0, 8)[6] == buffer@[6]);
                    assert(buffer@.subrange(0, 8)[7] == buffer@[7]);
                }
            }
        }
        r
    }

    /// Walks the chunks that follow the signature.
    fn parse_chunks(&mut self, buffer: &[u8]) -> (r: Result<(), PngError>)
        requires
            buffer@.len() >= 8,
            old(self)@ == initial_state(),
            old(self).headers_wf(),
        ensures
            match walk(buffer@, 8, initial_state()) {
                Ok(st) => r is Ok && final(self)@ == st && final(self).headers_wf() && state_wf(st),
                Err(e) => r == Err::<(), PngError>(e),
            },
    {
        let len = buffer.len();
        let mut index: usize = 8;
        assert(self@.misc =~= Seq::<ChunkView>::empty());
        while index < len
            invariant
                len == buffer@.len(),
                8 <= index,
                walk(buffer@, 8, initial_state()) == walk(buffer@, index as int, self@),
                state_wf(self@),
                self.headers_wf(),
            decreases len - index,
        {
            proof {
                lemma_chunk_at_suffix(buffer@, index as int);
            }
            if self.has_iend() {
                match Chunk::parse(vstd::slice::slice_subrange(buffer, index, len)) {
                    Err(_) => {
                        return Ok(());
                    },
                    Ok(chunk) => {
                        let consumed = chunk.consumed_size();
                        match chunk.chunk_type {
                            ChunkType::End => {
                                return self.found_iend(chunk);
                            },
                            _ => {
                                assert(chunk@.tag != iend_tag()) by {
                                    if chunk.chunk_type is Start {
                                        assert(ihdr_tag()[1] != iend_tag()[1]);
                                    }
                                    if chunk.chunk_type is Data {
                                        assert(idat_tag()[1] != iend_tag()[1]);
                                    }
                                }
                                index = index + consumed;
                                continue;
                            },
                        }
                    },
                }
            }
            let chunk = Chunk::parse(vstd::slice::slice_subrange(buffer, index, len))?;
            let consumed = chunk.consumed_size();
            proof {
                lemma_step_wf(self@, chunk@);
            }
            self.found_chunk(chunk)?;
            index = index + consumed;
        }
        Ok(())
    }

    fn build(self) -> (r: Result<Png, PngError>)
        requires
            state_wf(self@),
            self.headers_wf(),
        ensures
            match self@.header {
                None => r == Err::<Png, PngError>(PngError::NoIHDRFound),
                Some(h) => match self@.end {
                    None => r == Err::<Png, PngError>(PngError::NoIENDFound),
                    Some(t) => if self@.idat.len() == 0 {
                        r == Err::<Png, PngError>(PngError::NoIDATFound)
                    } else {
                        match zlib_inflated(self@.idat) {
                            None => r == Err::<Png, PngError>(PngError::InvalidImageData),
                            Some(d) => r is Ok && r->Ok_0.wf() && r->Ok_0@ == (PngModel {
                                header: h,
                                misc: self@.misc,
                                terminator: t,
                                data: d,
                            }),
                        }
                    },
                },
            },
    {
        let ghost st = self@;
        let PngParser { header, terminator, data, misc } = self;
        let header = match header {
            Some(h) => h,
            None => {
                return Err(PngError::NoIHDRFound);
            },
        };
        let terminator = match terminator {
            Some(t) => t,
            None => {
                return Err(PngError::NoIENDFound);
            },
        };
        if data.len() == 0 {
            return Err(PngError::NoIDATFound);
        }
        let decoded = match inflate(data.as_slice()) {
            Some(d) => d,
            None => {
                return Err(PngError::InvalidImageData);
            },
        };
        let png = Png::new(header, terminator, misc, decoded);
        assert(png@.misc == st.misc);
        Ok(png)
    }

    fn new() -> (r: PngParser)
        ensures
            r@ == initial_state(),
            r.headers_wf(),
    {
        let r = PngParser { header: None, terminator: None, data: Vec::new(), misc: Vec::new() };
        assert(r@.misc =~= Seq::<ChunkView>::empty());
        r
    }

    fn has_ihdr(&self) -> (r: bool)
        ensures
            r == self@.header is Some,
    {
        self.header.is_some()
    }

    fn has_iend(&self) -> (r: bool)
        ensures
            r == self@.end is Some,
    {
        self.terminator.is_some()
    }

    fn has_idat(&self) -> (r: bool)
        ensures
            r == (self@.idat.len() > 0),
    {
        self.data.len() > 0
    }

    fn found_chunk(&mut self, chunk: Chunk) -> (r: Result<(), PngError>)
        requires
            chunk.chunk_type.canonical(),
            old(self).headers_wf(),
        ensures
            match step(old(self)@, chunk@) {
                Ok(st) => r is Ok && final(self)@ == st && final(self).headers_wf(),
                Err(e) => r == Err::<(), PngError>(e),
            },
    {
        match chunk.chunk_type {
            ChunkType::Start => self.found_ihdr(chunk),
            ChunkType::End => self.found_iend(chunk),
            ChunkType::Data => {
                self.found_idat(chunk);
                Ok(())
            },
            ChunkType::Other(_) => {
                self.found_misc_chunk(chunk);
                Ok(())
            },
        }
    }

    fn found_ihdr(&mut self, chunk: Chunk) -> (r: Result<(), PngError>)
        requires
            chunk.chunk_type is Start,
            old(self).headers_wf(),
        ensures
            match step(old(self)@, chunk@) {
                Ok(st) => r is Ok && final(self)@ == st && final(self).headers_wf(),
                Err(e) => r == Err::<(), PngError>(e),
            },
            r is Err ==> *final(self) == *old(self),
    {
        if self.has_ihdr() {
            Err(PngError::DuplicateIHDRFound)
        } else {
            let header = Header::new(chunk)?;
            self.header = Some(header);
            Ok(())
        }
    }

    fn found_idat(&mut self, chunk: Chunk)
        requires
            chunk.chunk_type is Data,
        ensures
            final(self)@ == (ParseState { idat: old(self)@.idat + chunk@.data, ..old(self)@ }),
            final(self).headers_wf() == old(self).headers_wf(),
    {
        let mut chunk = chunk;
        self.data.append(&mut chunk.data);
    }

    /// Keeps the terminator; a second one is refused and the first is kept.
    fn found_iend(&mut self, chunk: Chunk) -> (r: Result<(), PngError>)
        requires
            chunk.chunk_type is End,
            old(self).headers_wf(),
        ensures
            match step(old(self)@, chunk@) {
                Ok(st) => r is Ok && final(self)@ == st && final(self).headers_wf(),
                Err(e) => r == Err::<(), PngError>(e),
            },
            r is Err ==> *final(self) == *old(self),
    {
        if self.has_iend() {
            Err(PngError::DuplicateIENDFound)
        } else {
            let terminator = Terminator::new(chunk)?;
            self.terminator = Some(terminator);
            Ok(())
        }
    }

    fn found_misc_chunk(&mut self, chunk: Chunk)
        ensures
            final(self)@ == (ParseState { misc: old(self)@.misc.push(chunk@), ..old(self)@ }),
            final(self).headers_wf() == old(self).headers_wf(),
    {
        self.misc.push(chunk);
        assert(self@.misc =~= old(self)@.misc.push(chunk@));
    }
}

} // verus!
