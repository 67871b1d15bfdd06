use vstd::prelude::*;

use crate::error::PngError;

verus! {

/// The predictive transform applied to one scanline.
#[derive(Debug, Clone, Copy, PartialEq, Eq, Structural)]
pub enum FilterType {
    NoFilter,
    Sub,
    Up,
    Average,
    Paeth,
}

/// The filter type that a filter-type byte stands for, if any.
pub open spec fn filter_type_of(b: u8) -> Option<FilterType> {
    if b == 0 {
        Some(FilterType::NoFilter)
    } else if b == 1 {
        Some(FilterType::Sub)
    } else if b == 2 {
        Some(FilterType::Up)
    } else if b == 3 {
        Some(FilterType::Average)
    } else if b == 4 {
        Some(FilterType::Paeth)
    } else {
        None
    }
}

impl FilterType {
    /// The byte that stands for this filter type.
    pub open spec fn code(self) -> u8 {
        match self {
            FilterType::NoFilter => 0,
            FilterType::Sub => 1,
            FilterType::Up => 2,
            FilterType::Average => 3,
            FilterType::Paeth => 4,
        }
    }

    /// Reads a filter-type byte.
    pub fn from_byte(value: u8) -> (r: Result<FilterType, PngError>)
        ensures
            match filter_type_of(value) {
                Some(t) => r == Ok::<FilterType, PngError>(t),
                None => r == Err::<FilterType, PngError>(PngError::InvalidFilterType),
            },
    {
        match value {
            0 => Ok(FilterType::NoFilter),
            1 => Ok(FilterType::Sub),
            2 => Ok(FilterType::Up),
            3 => Ok(FilterType::Average),
            4 => Ok(FilterType::Paeth),
            _ => Err(PngError::InvalidFilterType),
        }
    }

    /// The filter-type byte of this filter type.
    pub fn as_byte(&self) -> (r: u8)
        ensures
            r == self.code(),
            filter_type_of(r) == Some(*self),
    {
        match self {
            FilterType::NoFilter => 0,
            FilterType::Sub => 1,
            FilterType::Up => 2,
            FilterType::Average => 3,
            FilterType::Paeth => 4,
        }
    }
}

/// `a + b` modulo 256.
pub open spec fn wrap_add(a: int, b: int) -> u8 {
    ((a + b) % 256) as u8
}

/// `a - b` modulo 256.
pub open spec fn wrap_sub(a: int, b: int) -> u8 {
    ((a - b) % 256) as u8
}

pub open spec fn abs(x: int) -> int {
    if x < 0 {
        -x
    } else {
        x
    }
}

/// The Paeth predictor: of `a` (left), `b` (above) and `c` (upper left), the one
/// nearest to `a + b - c`, ties going to `a`, then `b`.
pub open spec fn paeth(a: u8, b: u8, c: u8) -> u8 {
    let p = a + b - c;
    let pa = abs(p - a);
    let pb = abs(p - b);
    let pc = abs(p - c);
    if pa <= pb && pa <= pc {
        a
    } else if pb <= pc {
        b
    } else {
        c
    }
}

/// The value that a filter type predicts from the three neighbours of a byte.
pub open spec fn predictor(t: FilterType, left: u8, above: u8, upper_left: u8) -> u8 {
    match t {
        FilterType::NoFilter => 0,
        FilterType::Sub => left,
        FilterType::Up => above,
        FilterType::Average => ((left + above) / 2) as u8,
        FilterType::Paeth => paeth(left, above, upper_left),
    }
}

/// The byte `bpp` places to the left of offset `i` in `line`, or 0 at the left edge.
pub open spec fn left_of(line: Seq<u8>, i: int, bpp: int) -> u8 {
    if i >= bpp {
        line[i - bpp]
    } else {
        0
    }
}

/// The byte at offset `i` of the previous scanline's payload, or 0 where there is none.
pub open spec fn above_of(prev: Seq<u8>, i: int) -> u8 {
    if 0 <= i < prev.len() {
        prev[i]
    } else {
        0
    }
}

/// The byte up and to the left of offset `i`, or 0 at the left or top edge.
pub open spec fn upper_left_of(prev: Seq<u8>, i: int, bpp: int) -> u8 {
    if i >= bpp {
        above_of(prev, i - bpp)
    } else {
        0
    }
}

/// The prediction for offset `i` of the unfiltered payload `raw`, below payload `prev`.
pub open spec fn predicted(t: FilterType, raw: Seq<u8>, prev: Seq<u8>, bpp: int, i: int) -> u8 {
    predictor(t, left_of(raw, i, bpp), above_of(prev, i), upper_left_of(prev, i, bpp))
}

/// The filtered bytes of the unfiltered payload `raw` under filter `t`.
pub open spec fn filtered_line(t: FilterType, raw: Seq<u8>, prev: Seq<u8>, bpp: int) -> Seq<u8> {
    Seq::new(raw.len(), |i: int| wrap_sub(raw[i] as int, predicted(t, raw, prev, bpp, i) as int))
}

/// The first `n` unfiltered bytes of the filtered payload `stored`: each byte adds its
/// prediction from the bytes already unfiltered.
pub open spec fn unfiltered_prefix(t: FilterType, stored: Seq<u8>, prev: Seq<u8>, bpp: int, n: nat) -> Seq<u8>
    decreases n,
{
    if n == 0 {
        Seq::empty()
    } else {
        let r = unfiltered_prefix(t, stored, prev, bpp, (n - 1) as nat);
        r.push(wrap_add(stored[n - 1] as int, predicted(t, r, prev, bpp, n - 1) as int))
    }
}

/// The unfiltered bytes of the filtered payload `stored` under filter `t`.
pub open spec fn unfiltered_line(t: FilterType, stored: Seq<u8>, prev: Seq<u8>, bpp: int) -> Seq<u8> {
    unfiltered_prefix(t, stored, prev, bpp, stored.len())
}

proof fn lemma_unfiltered_prefix(t: FilterType, stored: Seq<u8>, prev: Seq<u8>, bpp: int, n: nat)
    requires
        bpp >= 1,
        n <= stored.len(),
    ensures
        unfiltered_prefix(t, stored, prev, bpp, n).len() == n,
        forall|i: int|
            0 <= i < n ==> #[trigger] unfiltered_prefix(t, stored, prev, bpp, n)[i] == wrap_add(
                stored[i] as int,
                predicted(t, unfiltered_prefix(t, stored, prev, bpp, n), prev, bpp, i) as int,
            ),
    decreases n,
{
    if n > 0 {
        let m = (n - 1) as nat;
        lemma_unfiltered_prefix(t, stored, prev, bpp, m);
        let r = unfiltered_prefix(t, stored, prev, bpp, m);
        let q = unfiltered_prefix(t, stored, prev, bpp, n);
        assert forall|i: int| 0 <= i < n implies #[trigger] q[i] == wrap_add(
            stored[i] as int,
            predicted(t, q, prev, bpp, i) as int,
        ) by {
            assert(left_of(q, i, bpp) == left_of(r, i, bpp));
            if i < m {
                assert(q[i] == r[i]);
            }
        }
    }
}

/// Filtering what unfiltering gave restores the filtered bytes.
pub proof fn lemma_filter_inverts_unfilter(t: FilterType, stored: Seq<u8>, prev: Seq<u8>, bpp: int)
    requires
        bpp >= 1,
    ensures
        filtered_line(t, unfiltered_line(t, stored, prev, bpp), prev, bpp) == stored,
        unfiltered_line(t, stored, prev, bpp).len() == stored.len(),
{
    let r = unfiltered_line(t, stored, prev, bpp);
    lemma_unfiltered_prefix(t, stored, prev, bpp, stored.len());
    let f = filtered_line(t, r, prev, bpp);
    assert forall|i: int| 0 <= i < stored.len() implies f[i] == stored[i] by {
        let p = predicted(t, r, prev, bpp, i);
        assert(r[i] == wrap_add(stored[i] as int, p as int));
        lemma_wrap_add_sub(stored[i], p);
    }
    assert(f =~= stored);
}

/// Unfiltering what filtering gave restores the unfiltered bytes.
pub proof fn lemma_unfilter_inverts_filter(t: FilterType, raw: Seq<u8>, prev: Seq<u8>, bpp: int)
    requires
        bpp >= 1,
    ensures
        unfiltered_line(t, filtered_line(t, raw, prev, bpp), prev, bpp) == raw,
{
    let s = filtered_line(t, raw, prev, bpp);
    lemma_unfiltered_prefix_matches(t, raw, prev, bpp, raw.len());
}

proof fn lemma_wrap_add_sub(x: u8, p: u8)
    ensures
        wrap_add(wrap_sub(x as int, p as int) as int, p as int) == x,
        wrap_sub(wrap_add(x as int, p as int) as int, p as int) == x,
{
}

proof fn lemma_unfiltered_prefix_matches(t: FilterType, raw: Seq<u8>, prev: Seq<u8>, bpp: int, n: nat)
    requires
        bpp >= 1,
        n <= raw.len(),
    ensures
        unfiltered_prefix(t, filtered_line(t, raw, prev, bpp), prev, bpp, n) == raw.subrange(0, n as int),
    decreases n,
{
    let s = filtered_line(t, raw, prev, bpp);
    if n > 0 {
        let m = (n - 1) as nat;
        lemma_unfiltered_prefix_matches(t, raw, prev, bpp, m);
        let r = unfiltered_prefix(t, s, prev, bpp, m);
        assert(left_of(r, m as int, bpp) == left_of(raw, m as int, bpp));
        let p = predicted(t, raw, prev, bpp, m as int);
        assert(predicted(t, r, prev, bpp, m as int) == p);
        assert(s[m as int] == wrap_sub(raw[m as int] as int, p as int));
        lemma_wrap_add_sub(raw[m as int], p);
        assert(unfiltered_prefix(t, s, prev, bpp, n) == r.push(raw[m as int]));
        assert(r.push(raw[m as int]) =~= raw.subrange(0, n as int));
    }
}

/// On the first scanline nothing is above, so Up changes no byte either way.
pub proof fn lemma_up_without_previous_line(bytes: Seq<u8>, bpp: int)
    requires
        bpp >= 1,
    ensures
        filtered_line(FilterType::Up, bytes, Seq::empty(), bpp) == bytes,
        unfiltered_line(FilterType::Up, bytes, Seq::empty(), bpp) == bytes,
{
    let f = filtered_line(FilterType::Up, bytes, Seq::empty(), bpp);
    assert(f =~= bytes);
    lemma_unfilter_inverts_filter(FilterType::Up, bytes, Seq::empty(), bpp);
}

/// Under Sub, the first `bpp` bytes of a scanline have nothing on their left: decoding
/// and encoding leave them as they are, whatever the scanline above holds.
pub proof fn lemma_sub_left_edge(bytes: Seq<u8>, prev: Seq<u8>, bpp: int)
    requires
        bpp >= 1,
    ensures
        forall|i: int|
            0 <= i < bpp && i < bytes.len() ==> #[trigger] unfiltered_line(FilterType::Sub, bytes, prev, bpp)[i]
                == bytes[i],
        forall|i: int|
            0 <= i < bpp && i < bytes.len() ==> #[trigger] filtered_line(FilterType::Sub, bytes, prev, bpp)[i]
                == bytes[i],
{
    let r = unfiltered_line(FilterType::Sub, bytes, prev, bpp);
    lemma_unfiltered_prefix(FilterType::Sub, bytes, prev, bpp, bytes.len());
    assert forall|i: int| 0 <= i < bpp && i < bytes.len() implies #[trigger] r[i] == bytes[i] by {
        assert(r[i] == wrap_add(bytes[i] as int, predicted(FilterType::Sub, r, prev, bpp, i) as int));
    }
}

/// Where all three neighbours are equal, Paeth predicts that value.
pub proof fn lemma_paeth_of_equal_neighbours(a: u8)
    ensures
        paeth(a, a, a) == a,
{
}

/// `a + b` modulo 256.
pub fn add_without_overflow(a: u8, b: u8) -> (r: u8)
    ensures
        r == wrap_add(a as int, b as int),
{
    ((a as u16 + b as u16) % 256) as u8
}

/// `a - b` modulo 256.
pub fn sub_without_overflow(a: u8, b: u8) -> (r: u8)
    ensures
        r == wrap_sub(a as int, b as int),
{
    ((a as u16 + 256 - b as u16) % 256) as u8
}

/// The Paeth predictor of left `a`, above `b` and upper-left `c`.
pub fn predict(a: u8, b: u8, c: u8) -> (r: u8)
    ensures
        r == paeth(a, b, c),
{
    let p: i16 = a as i16 + b as i16 - c as i16;
    let pa: i16 = if p >= a as i16 { p - a as i16 } else { a as i16 - p };
    let pb: i16 = if p >= b as i16 { p - b as i16 } else { b as i16 - p };
    let pc: i16 = if p >= c as i16 { p - c as i16 } else { c as i16 - p };
    if pa <= pb && pa <= pc {
        a
    } else if pb <= pc {
        b
    } else {
        c
    }
}

/// The prediction of filter `t` from the three neighbours of a byte.
pub fn predict_with(t: FilterType, left: u8, above: u8, upper_left: u8) -> (r: u8)
    ensures
        r == predictor(t, left, above, upper_left),
{
    match t {
        FilterType::NoFilter => 0,
        FilterType::Sub => left,
        FilterType::Up => above,
        FilterType::Average => ((left as u16 + above as u16) / 2) as u8,
        FilterType::Paeth => predict(left, above, upper_left),
    }
}

/// The payload of the previous scanline, which starts at `prev`, or nothing on the first scanline.
pub open spec fn previous_payload(data: Seq<u8>, prev: Option<usize>, n: int) -> Seq<u8> {
    match prev {
        Some(p) => data.subrange(p as int, p + n),
        None => Seq::empty(),
    }
}

/// The bytes of `a` and `b` are equal outside `[from, to)`.
pub open spec fn same_outside(a: Seq<u8>, b: Seq<u8>, from: int, to: int) -> bool {
    &&& a.len() == b.len()
    &&& forall|j: int| 0 <= j < a.len() && !(from <= j < to) ==> #[trigger] a[j] == b[j]
}

/// The byte at offset `i` of the payload that starts at `start`, or 0 past the end of `data`.
pub fn byte_in_pixel(data: &[u8], start: usize, i: usize) -> (r: u8)
    ensures
        r == (if start + i < data@.len() { data@[start + i] } else { 0u8 }),
{
    let len = data.len();
    if start <= len && i < len - start {
        data[start + i]
    } else {
        0
    }
}

/// The byte of the pixel on the left of offset `i`, or 0 at the left edge.
pub fn byte_in_previous_pixel(data: &[u8], start: usize, i: usize, bpp: usize) -> (r: u8)
    ensures
        r == (if i >= bpp && start + i - bpp < data@.len() { data@[start + i - bpp] } else { 0u8 }),
{
    if i < bpp {
        0
    } else {
        byte_in_pixel(data, start, i - bpp)
    }
}

/// The byte above offset `i`, in the payload that starts at `prev`, or 0 on the first scanline.
pub fn byte_in_previous_line(data: &[u8], prev: Option<usize>, i: usize) -> (r: u8)
    ensures
        r == (match prev {
            Some(p) => if p + i < data@.len() { data@[p + i] } else { 0u8 },
            None => 0u8,
        }),
{
    match prev {
        Some(p) => byte_in_pixel(data, p, i),
        None => 0,
    }
}

/// The byte up and to the left of offset `i`, or 0 at the left or top edge.
pub fn byte_in_previous_pixel_in_previous_line(data: &[u8], prev: Option<usize>, i: usize, bpp: usize) -> (r: u8)
    ensures
        r == (match prev {
            Some(p) => if i >= bpp && p + i - bpp < data@.len() { data@[p + i - bpp] } else { 0u8 },
            None => 0u8,
        }),
{
    if i < bpp {
        0
    } else {
        byte_in_previous_line(data, prev, i - bpp)
    }
}

/// Decodes in place the `n` payload bytes at `start`, filtered with `t`, left to right,
/// each byte adding its prediction from the bytes already decoded. `prev` is where the
/// payload of the scanline above starts, if there is one.
pub fn remove(data: &mut Vec<u8>, t: FilterType, start: usize, n: usize, prev: Option<usize>, bpp: usize)
    requires
        bpp >= 1,
        start + n <= old(data)@.len(),
        prev is Some ==> prev->0 + n <= start,
    ensures
        same_outside(final(data)@, old(data)@, start as int, start + n),
        final(data)@.subrange(start as int, start + n) == unfiltered_line(
            t,
            old(data)@.subrange(start as int, start + n),
            previous_payload(old(data)@, prev, n as int),
            bpp as int,
        ),
{
    let ghost stored = old(data)@.subrange(start as int, start + n);
    let ghost above = previous_payload(old(data)@, prev, n as int);
    let len = data.len();
    let mut i: usize = 0;
    while i < n
        invariant
            len == data@.len(),
            bpp >= 1,
            start + n <= data@.len(),
            prev is Some ==> prev->0 + n <= start,
            i <= n,
            stored == old(data)@.subrange(start as int, start + n),
            above == previous_payload(old(data)@, prev, n as int),
            same_outside(data@, old(data)@, start as int, start + n),
            forall|j: int| i <= j < n ==> #[trigger] data@[start + j] == stored[j],
            data@.subrange(start as int, start + i) == unfiltered_prefix(t, stored, above, bpp as int, i as nat),
        decreases n - i,
    {
        let ghost done = data@.subrange(start as int, start + i);
        let left = byte_in_previous_pixel(data.as_slice(), start, i, bpp);
        let up = byte_in_previous_line(data.as_slice(), prev, i);
        let upper_left = byte_in_previous_pixel_in_previous_line(data.as_slice(), prev, i, bpp);
        let current = byte_in_pixel(data.as_slice(), start, i);
        proof {
            assert(left == left_of(done, i as int, bpp as int));
            if let Some(p) = prev {
                assert(data@[p + i] == old(data)@[p + i]);
                assert(up == above_of(above, i as int));
                if i >= bpp {
                    assert(data@[p + i - bpp] == old(data)@[p + i - bpp]);
                }
            }
            assert(up == above_of(above, i as int));
            assert(upper_left == upper_left_of(above, i as int, bpp as int));
            assert(current == stored[i as int]);
        }
        let value = add_without_overflow(current, predict_with(t, left, up, upper_left));
        data.set(start + i, value);
        i = i + 1;
        assert(data@.subrange(start as int, start + i) =~= done.push(value));
    }
}

/// Encodes in place the `n` payload bytes at `start` with filter `t`, right to left, so
/// that each prediction reads bytes not yet encoded. `prev` is where the payload of the
/// scanline above starts, if there is one.
pub fn apply(data: &mut Vec<u8>, t: FilterType, start: usize, n: usize, prev: Option<usize>, bpp: usize)
    requires
        bpp >= 1,
        start + n <= old(data)@.len(),
        prev is Some ==> prev->0 + n <= start,
    ensures
        same_outside(final(data)@, old(data)@, start as int, start + n),
        final(data)@.subrange(start as int, start + n) == filtered_line(
            t,
            old(data)@.subrange(start as int, start + n),
            previous_payload(old(data)@, prev, n as int),
            bpp as int,
        ),
{
    let ghost raw = old(data)@.subrange(start as int, start + n);
    let ghost above = previous_payload(old(data)@, prev, n as int);
    let ghost goal = filtered_line(t, raw, above, bpp as int);
    let len = data.len();
    let mut i: usize = n;
    while i > 0
        invariant
            len == data@.len(),
            bpp >= 1,
            start + n <= data@.len(),
            prev is Some ==> prev->0 + n <= start,
            i <= n,
            raw == old(data)@.subrange(start as int, start + n),
            above == previous_payload(old(data)@, prev, n as int),
            goal == filtered_line(t, raw, above, bpp as int),
            same_outside(data@, old(data)@, start as int, start + n),
            forall|j: int| 0 <= j < i ==> #[trigger] data@[start + j] == raw[j],
            forall|j: int| i <= j < n ==> #[trigger] data@[start + j] == goal[j],
        decreases i,
    {
        i = i - 1;
        let left = byte_in_previous_pixel(data.as_slice(), start, i, bpp);
        let up = byte_in_previous_line(data.as_slice(), prev, i);
        let upper_left = byte_in_previous_pixel_in_previous_line(data.as_slice(), prev, i, bpp);
        let current = byte_in_pixel(data.as_slice(), start, i);
        proof {
            if i >= bpp {
                assert(data@[start + (i - bpp)] == raw[i - bpp]);
            }
            assert(left == left_of(raw, i as int, bpp as int));
            if let Some(p) = prev {
                assert(data@[p + i] == old(data)@[p + i]);
                if i >= bpp {
                    assert(data@[p + i - bpp] == old(data)@[p + i - bpp]);
                }
            }
            assert(up == above_of(above, i as int));
            assert(upper_left == upper_left_of(above, i as int, bpp as int));
            assert(current == raw[i as int]);
        }
        let value = sub_without_overflow(current, predict_with(t, left, up, upper_left));
        data.set(start + i, value);
    }
    assert forall|j: int| 0 <= j < n implies data@.subrange(start as int, start + n)[j] == goal[j] by {
        assert(data@[start + j] == goal[j]);
    }
    assert(data@.subrange(start as int, start + n) =~= goal);
}

} // verus!
