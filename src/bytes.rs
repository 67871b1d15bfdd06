use vstd::prelude::*;

verus! {

/// The value of four bytes read as a big-endian unsigned integer.
pub open spec fn be_u32(b: Seq<u8>) -> int {
    b[0] as int * 16777216 + b[1] as int * 65536 + b[2] as int * 256 + b[3] as int
}

/// The four big-endian bytes of `n`.
pub open spec fn be_bytes(n: u32) -> Seq<u8> {
    seq![
        (n / 16777216) as u8,
        ((n / 65536) % 256) as u8,
        ((n / 256) % 256) as u8,
        (n % 256) as u8,
    ]
}

pub proof fn lemma_be_round_trip(n: u32)
    ensures
        be_bytes(n).len() == 4,
        be_u32(be_bytes(n)) == n as int,
{
    let b = be_bytes(n);
    assert(b[0] as int == n as int / 16777216);
    assert(b[1] as int == (n as int / 65536) % 256);
    assert(b[2] as int == (n as int / 256) % 256);
    assert(b[3] as int == n as int % 256);
    assert(be_u32(b) == n as int) by (nonlinear_arith)
        requires
            b[0] as int == n as int / 16777216,
            b[1] as int == (n as int / 65536) % 256,
            b[2] as int == (n as int / 256) % 256,
            b[3] as int == n as int % 256,
            0 <= n as int,
            be_u32(b) == b[0] as int * 16777216 + b[1] as int * 65536 + b[2] as int * 256
                + b[3] as int,
    ;
}

/// Reads four bytes at `at` as a big-endian `u32`.
pub fn read_be_u32(buf: &[u8], at: usize) -> (r: u32)
    requires
        at + 4 <= buf@.len(),
    ensures
        r as int == be_u32(buf@.subrange(at as int, at + 4)),
{
    let r = (buf[at] as u32) * 16777216 + (buf[at + 1] as u32) * 65536 + (buf[at + 2] as u32)
        * 256 + (buf[at + 3] as u32);
    r
}

/// Appends the four big-endian bytes of `n` to `out`.
pub fn push_be_u32(out: &mut Vec<u8>, n: u32)
    ensures
        final(out)@ == old(out)@ + be_bytes(n),
{
    out.push((n / 16777216) as u8);
    out.push(((n / 65536) % 256) as u8);
    out.push(((n / 256) % 256) as u8);
    out.push((n % 256) as u8);
    assert(final(out)@ =~= old(out)@ + be_bytes(n));
}

/// Appends every byte of `src` to `out`, in order.
pub fn push_all(out: &mut Vec<u8>, src: &[u8])
    ensures
        final(out)@ == old(out)@ + src@,
{
    let ghost start = out@;
    let mut i: usize = 0;
    while i < src.len()
        invariant
            i <= src@.len(),
            out@ == start + src@.subrange(0, i as int),
        decreases src@.len() - i,
    {
        out.push(src[i]);
        i = i + 1;
        assert(out@ =~= start + src@.subrange(0, i as int));
    }
    assert(src@.subrange(0, src@.len() as int) =~= src@);
}

/// A copy of `buf[from..to]`.
pub fn copy_range(buf: &[u8], from: usize, to: usize) -> (r: Vec<u8>)
    requires
        from <= to <= buf@.len(),
    ensures
        r@ == buf@.subrange(from as int, to as int),
{
    let part = vstd::slice::slice_subrange(buf, from, to);
    vstd::slice::slice_to_vec(part)
}

} // verus!
