use vstd::prelude::*;

use crate::bytes::{be_bytes, push_all};
use crate::chunk::{chunk_at, chunk_bytes, encodable, idat_tag, iend_tag, ihdr_tag, lemma_chunk_bytes_parse, Chunk, ChunkType, ChunkView};
use crate::codec::{crc32, crc32_of, deflate, zlib_deflated, zlib_inflated};
use crate::error::PngError;
use crate::parser::{initial_state, parse_spec, step, walk, ParseState};
use crate::header::header_error;
use crate::png::{is_ancillary, model_wf, signature, Png, PngModel};

verus! {

/// The ancillary chunks written one after another.
pub open spec fn misc_bytes(s: Seq<ChunkView>) -> Seq<u8>
    decreases s.len(),
{
    if s.len() == 0 {
        Seq::empty()
    } else {
        misc_bytes(s.drop_last()) + chunk_bytes(s.last())
    }
}

/// The one pixel-data chunk written for a buffer: its deflated bytes, with a CRC over
/// the tag and those bytes.
pub open spec fn idat_chunk(data: Seq<u8>) -> ChunkView {
    ChunkView {
        tag: idat_tag(),
        data: zlib_deflated(data),
        crc: be_bytes(crc32_of(idat_tag() + zlib_deflated(data))),
    }
}

/// The byte stream written for a document: signature, header chunk, ancillary chunks,
/// one pixel-data chunk, terminator chunk.
#[verifier::opaque]
pub open spec fn png_bytes(m: PngModel) -> Seq<u8> {
    signature() + chunk_bytes(m.header) + misc_bytes(m.misc) + chunk_bytes(idat_chunk(m.data))
        + chunk_bytes(m.terminator)
}

/// The four big-endian bytes of `n`.
fn be_array(n: u32) -> (r: [u8; 4])
    ensures
        r@ == be_bytes(n),
{
    let r = [(n / 16777216) as u8, ((n / 65536) % 256) as u8, ((n / 256) % 256) as u8, (n % 256) as u8];
    assert(r@ =~= be_bytes(n));
    r
}

/// The pixel-data chunk for `data`: deflated, with its CRC computed afresh.
fn create_idat_chunk(data: &[u8]) -> (r: Result<Chunk, PngError>)
    ensures
        r is Ok ==> r->Ok_0@ == idat_chunk(data@) && encodable(r->Ok_0@) && zlib_inflated(
            zlib_deflated(data@),
        ) == Some(data@) && zlib_deflated(data@).len() > 0,
        r is Err ==> r == Err::<Chunk, PngError>(PngError::EncodingFailed),
        r is Err <==> (data@.len() > u32::MAX || zlib_deflated(data@).len() > u32::MAX),
{
    if data.len() > u32::MAX as usize {
        return Err(PngError::EncodingFailed);
    }
    let compressed = deflate(data);
    if compressed.len() > u32::MAX as usize {
        return Err(PngError::EncodingFailed);
    }
    let mut tagged: Vec<u8> = vec![73u8, 68u8, 65u8, 84u8];
    assert(tagged@ =~= idat_tag());
    push_all(&mut tagged, compressed.as_slice());
    let crc = be_array(crc32(tagged.as_slice()));
    Ok(Chunk::new(ChunkType::Data, compressed, crc))
}

proof fn lemma_misc_bytes_push(s: Seq<ChunkView>, j: int)
    requires
        0 <= j < s.len(),
    ensures
        misc_bytes(s.subrange(0, j + 1)) == misc_bytes(s.subrange(0, j)) + chunk_bytes(s[j]),
{
    assert(s.subrange(0, j + 1).drop_last() =~= s.subrange(0, j));
}

proof fn lemma_misc_bytes_prefix(s: Seq<ChunkView>, j: int)
    requires
        0 <= j <= s.len(),
    ensures
        misc_bytes(s.subrange(0, j)).len() <= misc_bytes(s).len(),
        misc_bytes(s).subrange(0, misc_bytes(s.subrange(0, j)).len() as int) == misc_bytes(
            s.subrange(0, j),
        ),
    decreases s.len(),
{
    if j == s.len() {
        assert(s.subrange(0, j) =~= s);
        assert(misc_bytes(s).subrange(0, misc_bytes(s).len() as int) =~= misc_bytes(s));
    } else {
        let t = s.drop_last();
        assert(t.subrange(0, j) =~= s.subrange(0, j));
        lemma_misc_bytes_prefix(t, j);
        let k = misc_bytes(s.subrange(0, j)).len() as int;
        assert(misc_bytes(s).subrange(0, k) =~= misc_bytes(t).subrange(0, k));
    }
}

/// A chunk's bytes standing at offset `p` read back as that chunk.
proof fn lemma_chunk_at_window(buf: Seq<u8>, p: int, c: ChunkView)
    requires
        encodable(c),
        0 <= p,
        p + chunk_bytes(c).len() <= buf.len(),
        buf.subrange(p, p + chunk_bytes(c).len()) == chunk_bytes(c),
    ensures
        chunk_at(buf, p) == Ok::<ChunkView, PngError>(c),
        chunk_bytes(c).len() == 12 + c.data.len(),
{
    let n = chunk_bytes(c).len() as int;
    let rest = buf.subrange(p + n, buf.len() as int);
    lemma_chunk_bytes_parse(Seq::empty(), c, rest);
    let s = buf.subrange(p, buf.len() as int);
    assert(s =~= Seq::<u8>::empty() + chunk_bytes(c) + rest);
    crate::parser::lemma_chunk_at_suffix(buf, p);
}

proof fn lemma_walk_misc(buf: Seq<u8>, base: int, misc: Seq<ChunkView>, header: Option<ChunkView>, j: int)
    requires
        0 <= base,
        0 <= j <= misc.len(),
        base + misc_bytes(misc).len() <= buf.len(),
        buf.subrange(base, base + misc_bytes(misc).len()) == misc_bytes(misc),
        forall|i: int| 0 <= i < misc.len() ==> is_ancillary(#[trigger] misc[i]),
    ensures
        walk(
            buf,
            base + misc_bytes(misc.subrange(0, j)).len(),
            ParseState { header, idat: Seq::empty(), misc: misc.subrange(0, j), end: None },
        ) == walk(
            buf,
            base + misc_bytes(misc).len(),
            ParseState { header, idat: Seq::empty(), misc, end: None },
        ),
    decreases misc.len() - j,
{
    if j == misc.len() {
        assert(misc.subrange(0, j) =~= misc);
    } else {
        let c = misc[j];
        lemma_misc_bytes_push(misc, j);
        lemma_misc_bytes_prefix(misc, j + 1);
        let a = misc_bytes(misc.subrange(0, j)).len() as int;
        let b = misc_bytes(misc.subrange(0, j + 1)).len() as int;
        let whole = misc_bytes(misc);
        assert(b == a + chunk_bytes(c).len());
        assert(whole.subrange(0, b) == misc_bytes(misc.subrange(0, j)) + chunk_bytes(c));
        assert(buf.subrange(base + a, base + b) =~= whole.subrange(0, b).subrange(a, b));
        assert(whole.subrange(0, b).subrange(a, b) =~= chunk_bytes(c));
        assert(is_ancillary(c));
        lemma_chunk_at_window(buf, base + a, c);
        let st = ParseState { header, idat: Seq::empty(), misc: misc.subrange(0, j), end: None };
        let next = ParseState { header, idat: Seq::empty(), misc: misc.subrange(0, j + 1), end: None };
        assert(misc.subrange(0, j).push(c) =~= misc.subrange(0, j + 1));
        assert(step(st, c) == Ok::<ParseState, PngError>(next));
        assert(walk(buf, base + a, st) == walk(buf, base + b, next));
        lemma_walk_misc(buf, base, misc, header, j + 1);
    }
}

/// One chunk read and routed moves the walk on past it.
proof fn lemma_walk_step(buf: Seq<u8>, p: int, st: ParseState, c: ChunkView, next: ParseState)
    requires
        0 <= p < buf.len(),
        st.end is None,
        chunk_at(buf, p) == Ok::<ChunkView, PngError>(c),
        step(st, c) == Ok::<ParseState, PngError>(next),
    ensures
        walk(buf, p, st) == walk(buf, p + 12 + c.data.len(), next),
{
}

/// Where each chunk stands in the bytes written for a document.
proof fn lemma_png_bytes_layout(m: PngModel)
    ensures
        png_bytes(m).subrange(0, 8) == signature(),
        ({
            let buf = png_bytes(m);
            let p1 = 8 + chunk_bytes(m.header).len() as int;
            let p2 = p1 + misc_bytes(m.misc).len();
            let p3 = p2 + chunk_bytes(idat_chunk(m.data)).len();
            let p4 = p3 + chunk_bytes(m.terminator).len();
            &&& buf.len() == p4
            &&& buf.subrange(8, p1) == chunk_bytes(m.header)
            &&& buf.subrange(p1, p2) == misc_bytes(m.misc)
            &&& buf.subrange(p2, p3) == chunk_bytes(idat_chunk(m.data))
            &&& buf.subrange(p3, p4) == chunk_bytes(m.terminator)
        }),
{
    reveal(png_bytes);
    let buf = png_bytes(m);
    let h = chunk_bytes(m.header);
    let mb = misc_bytes(m.misc);
    let i = chunk_bytes(idat_chunk(m.data));
    let t = chunk_bytes(m.terminator);
    let p1 = 8 + h.len() as int;
    let p2 = p1 + mb.len();
    let p3 = p2 + i.len();
    let p4 = p3 + t.len();
    assert(buf.subrange(0, 8) =~= signature());
    assert(buf.subrange(8, p1) =~= h);
    assert(buf.subrange(p1, p2) =~= mb);
    assert(buf.subrange(p2, p3) =~= i);
    assert(buf.subrange(p3, p4) =~= t);
}

/// A walk over bytes laid out as header chunk, ancillary chunks, pixel-data chunk and
/// terminator chunk meets them in that order.
proof fn lemma_walk_layout(buf: Seq<u8>, m: PngModel, idat: ChunkView, p1: int, p2: int, p3: int, p4: int)
    requires
        model_wf(m),
        encodable(idat),
        idat.tag == idat_tag(),
        p1 == 8 + chunk_bytes(m.header).len(),
        p2 == p1 + misc_bytes(m.misc).len(),
        p3 == p2 + chunk_bytes(idat).len(),
        p4 == p3 + chunk_bytes(m.terminator).len(),
        buf.len() == p4,
        buf.subrange(8, p1) == chunk_bytes(m.header),
        buf.subrange(p1, p2) == misc_bytes(m.misc),
        buf.subrange(p2, p3) == chunk_bytes(idat),
        buf.subrange(p3, p4) == chunk_bytes(m.terminator),
    ensures
        walk(buf, 8, initial_state()) == Ok::<ParseState, PngError>(
            ParseState { header: Some(m.header), idat: idat.data, misc: m.misc, end: Some(m.terminator) },
        ),
{
    lemma_chunk_at_window(buf, 8, m.header);
    lemma_chunk_at_window(buf, p2, idat);
    lemma_chunk_at_window(buf, p3, m.terminator);
    let st0 = initial_state();
    let st1 = ParseState { header: Some(m.header), idat: Seq::empty(), misc: Seq::empty(), end: None };
    assert(step(st0, m.header) == Ok::<ParseState, PngError>(st1));
    lemma_walk_step(buf, 8, st0, m.header, st1);
    lemma_walk_misc(buf, p1, m.misc, Some(m.header), 0);
    assert(m.misc.subrange(0, 0) =~= Seq::<ChunkView>::empty());
    let st2 = ParseState { header: Some(m.header), idat: Seq::empty(), misc: m.misc, end: None };
    let st3 = ParseState { header: Some(m.header), idat: idat.data, misc: m.misc, end: None };
    assert(Seq::<u8>::empty() + idat.data =~= idat.data);
    assert(step(st2, idat) == Ok::<ParseState, PngError>(st3));
    lemma_walk_step(buf, p2, st2, idat, st3);
    let st4 = ParseState { end: Some(m.terminator), ..st3 };
    assert(m.terminator.tag != crate::chunk::ihdr_tag()) by {
        assert(m.terminator.tag[1] != crate::chunk::ihdr_tag()[1]);
    }
    assert(m.terminator.tag != idat_tag()) by {
        assert(m.terminator.tag[1] != idat_tag()[1]);
    }
    assert(step(st3, m.terminator) == Ok::<ParseState, PngError>(st4));
    lemma_walk_step(buf, p3, st3, m.terminator, st4);
}

/// Parsing the bytes written for a well-formed document gives that document back,
/// provided the deflated pixel data inflates to the buffer and fits one chunk.
proof fn lemma_parse_png_bytes(m: PngModel)
    requires
        model_wf(m),
        zlib_inflated(zlib_deflated(m.data)) == Some(m.data),
        0 < zlib_deflated(m.data).len() <= u32::MAX,
    ensures
        parse_spec(png_bytes(m)) == Ok::<PngModel, PngError>(m),
{
    let buf = png_bytes(m);
    let idat = idat_chunk(m.data);
    lemma_png_bytes_layout(m);
    assert(encodable(idat)) by {
        crate::bytes::lemma_be_round_trip(crc32_of(idat_tag() + zlib_deflated(m.data)));
    }
    let p1 = 8 + chunk_bytes(m.header).len() as int;
    let p2 = p1 + misc_bytes(m.misc).len();
    let p3 = p2 + chunk_bytes(idat).len();
    let p4 = p3 + chunk_bytes(m.terminator).len();
    lemma_walk_layout(buf, m, idat, p1, p2, p3, p4);
}

/// The walk over bytes laid out as header, pixel data and two terminators meets the second
/// terminator after accepting the first.
proof fn lemma_walk_two_terminators(
    buf: Seq<u8>,
    h: ChunkView,
    idat: ChunkView,
    e1: ChunkView,
    e2: ChunkView,
    p1: int,
    p2: int,
    p3: int,
)
    requires
        header_error(h) is None,
        encodable(h),
        encodable(idat),
        idat.tag == idat_tag(),
        encodable(e1),
        e1.tag == iend_tag(),
        encodable(e2),
        e2.tag == iend_tag(),
        p1 == 8 + chunk_bytes(h).len(),
        p2 == p1 + chunk_bytes(idat).len(),
        p3 == p2 + chunk_bytes(e1).len(),
        buf.len() == p3 + chunk_bytes(e2).len(),
        buf.subrange(8, p1) == chunk_bytes(h),
        buf.subrange(p1, p2) == chunk_bytes(idat),
        buf.subrange(p2, p3) == chunk_bytes(e1),
        buf.subrange(p3, buf.len() as int) == chunk_bytes(e2),
    ensures
        walk(buf, 8, initial_state()) == Err::<ParseState, PngError>(PngError::DuplicateIENDFound),
{
    lemma_chunk_at_window(buf, 8, h);
    lemma_chunk_at_window(buf, p1, idat);
    lemma_chunk_at_window(buf, p2, e1);
    lemma_chunk_at_window(buf, p3, e2);
    assert(idat_tag() != ihdr_tag()) by {
        assert(idat_tag()[1] != ihdr_tag()[1]);
    }
    assert(iend_tag() != ihdr_tag()) by {
        assert(iend_tag()[1] != ihdr_tag()[1]);
    }
    assert(idat_tag() != iend_tag()) by {
        assert(idat_tag()[1] != iend_tag()[1]);
    }
    let st0 = initial_state();
    let st1 = ParseState { header: Some(h), ..st0 };
    let st2 = ParseState { idat: st1.idat + idat.data, ..st1 };
    let st3 = ParseState { end: Some(e1), ..st2 };
    assert(step(st0, h) == Ok::<ParseState, PngError>(st1));
    lemma_walk_step(buf, 8, st0, h, st1);
    assert(step(st1, idat) == Ok::<ParseState, PngError>(st2));
    lemma_walk_step(buf, p1, st1, idat, st2);
    assert(step(st2, e1) == Ok::<ParseState, PngError>(st3));
    lemma_walk_step(buf, p2, st2, e1, st3);
}

/// A stream of header, pixel data and two terminators fails with the duplicate-terminator
/// error: the first terminator is accepted, and the second one is refused.
pub proof fn lemma_second_terminator_refused(h: ChunkView, idat: ChunkView, e1: ChunkView, e2: ChunkView)
    requires
        header_error(h) is None,
        encodable(h),
        encodable(idat),
        idat.tag == idat_tag(),
        encodable(e1),
        e1.tag == iend_tag(),
        encodable(e2),
        e2.tag == iend_tag(),
    ensures
        parse_spec(
            signature() + chunk_bytes(h) + chunk_bytes(idat) + chunk_bytes(e1) + chunk_bytes(e2),
        ) == Err::<PngModel, PngError>(PngError::DuplicateIENDFound),
{
    let a = chunk_bytes(h);
    let b = chunk_bytes(idat);
    let c = chunk_bytes(e1);
    let d = chunk_bytes(e2);
    let buf = signature() + a + b + c + d;
    let p1 = 8 + a.len() as int;
    let p2 = p1 + b.len();
    let p3 = p2 + c.len();
    assert(buf.subrange(0, 8) =~= signature());
    assert(buf.subrange(8, p1) =~= a);
    assert(buf.subrange(p1, p2) =~= b);
    assert(buf.subrange(p2, p3) =~= c);
    assert(buf.subrange(p3, buf.len() as int) =~= d);
    lemma_walk_two_terminators(buf, h, idat, e1, e2, p1, p2, p3);
}

impl Png {
    /// Writes the document as a PNG byte stream after the bytes already in `out`. The
    /// stream is built whole before anything is appended, so on failure `out` is unchanged.
    /// It fails only where the buffer, or its compressed form, is longer than one chunk's
    /// length field allows. Parsing what was written gives this document back.
    pub fn encode(&self, out: &mut Vec<u8>) -> (r: Result<(), PngError>)
        requires
            self.wf(),
        ensures
            r is Ok ==> final(out)@ == old(out)@ + png_bytes(self@),
            r is Ok ==> parse_spec(png_bytes(self@)) == Ok::<PngModel, PngError>(self@),
            r is Err ==> r == Err::<(), PngError>(PngError::EncodingFailed) && final(out)@ == old(out)@,
            r is Err <==> (self@.data.len() > u32::MAX || zlib_deflated(self@.data).len() > u32::MAX),
    {
        let idat = create_idat_chunk(self.data.as_slice())?;
        let mut buf: Vec<u8> = vec![0x89u8, 0x50u8, 0x4Eu8, 0x47u8, 0x0Du8, 0x0Au8, 0x1Au8, 0x0Au8];
        assert(buf@ =~= signature());
        self.header.inner.encode(&mut buf);
        let ghost before_misc = buf@;
        let mut i: usize = 0;
        while i < self.misc_chunks.len()
            invariant
                self.wf(),
                i <= self.misc_chunks@.len(),
                buf@ == before_misc + misc_bytes(self@.misc.subrange(0, i as int)),
            decreases self.misc_chunks@.len() - i,
        {
            proof {
                lemma_misc_bytes_push(self@.misc, i as int);
                assert(is_ancillary(self@.misc[i as int]));
            }
            self.misc_chunks[i].encode(&mut buf);
            i = i + 1;
        }
        assert(self@.misc.subrange(0, i as int) =~= self@.misc);
        idat.encode(&mut buf);
        self.terminator.inner.encode(&mut buf);
        assert(buf@ =~= png_bytes(self@)) by {
            reveal(png_bytes);
        }
        proof {
            lemma_parse_png_bytes(self@);
        }
        out.append(&mut buf);
        Ok(())
    }
}

} // verus!
