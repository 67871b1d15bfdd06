use vstd::prelude::*;

use crate::error::PngError;
use crate::filter::{filter_type_of, FilterType};

verus! {

/// A half-open range `[start, end)` of the decoded buffer.
#[derive(Debug, Clone, Copy, PartialEq, Eq, Structural)]
pub struct MemoryRange {
    pub start: usize,
    pub end: usize,
}

impl MemoryRange {
    pub fn new(start: usize, end: usize) -> (r: MemoryRange)
        ensures
            r.start == start,
            r.end == end,
    {
        MemoryRange { start, end }
    }

    /// The first byte of the range, where `data` holds it.
    pub fn first_byte(&self, data: &[u8]) -> (r: Option<u8>)
        ensures
            self.start < data@.len() ==> r == Some(data@[self.start as int]),
            self.start >= data@.len() ==> r is None,
    {
        if self.start < data.len() {
            Some(data[self.start])
        } else {
            None
        }
    }
}

/// One scanline of the decoded buffer: the range that holds its filter-type byte and
/// payload, with the filter type read from its first byte. A scanline is a handle: its
/// bytes stay in the buffer, which every method is handed.
#[derive(Debug, Clone, Copy, PartialEq, Eq, Structural)]
pub struct ScanLine {
    pub filter_type: FilterType,
    pub range: MemoryRange,
}

pub open spec fn min(a: int, b: int) -> int {
    if a <= b {
        a
    } else {
        b
    }
}

impl ScanLine {
    /// Where the payload starts: right after the filter-type byte.
    pub open spec fn payload_start(&self) -> int {
        self.range.start + 1
    }

    /// Where the payload ends in a buffer of `len` bytes.
    pub open spec fn payload_end(&self, len: int) -> int {
        min(self.range.end as int, len)
    }

    /// The payload bytes that a buffer holds.
    pub open spec fn payload(&self, data: Seq<u8>) -> Seq<u8> {
        if self.payload_start() <= self.payload_end(data.len() as int) {
            data.subrange(self.payload_start(), self.payload_end(data.len() as int))
        } else {
            Seq::empty()
        }
    }

    pub fn new(filter_type: FilterType, range: MemoryRange) -> (r: ScanLine)
        ensures
            r.filter_type == filter_type,
            r.range == range,
    {
        ScanLine { filter_type, range }
    }

    /// The scanline over `range`, whose filter type is read from the buffer.
    pub fn from_range(range: MemoryRange, data: &[u8]) -> (r: Result<ScanLine, PngError>)
        ensures
            range.start >= data@.len() ==> r == Err::<ScanLine, PngError>(PngError::TooShortInput),
            range.start < data@.len() ==> match filter_type_of(data@[range.start as int]) {
                Some(t) => r == Ok::<ScanLine, PngError>(ScanLine { filter_type: t, range }),
                None => r == Err::<ScanLine, PngError>(PngError::InvalidFilterType),
            },
    {
        match range.first_byte(data) {
            Some(b) => {
                let t = FilterType::from_byte(b)?;
                Ok(ScanLine::new(t, range))
            },
            None => Err(PngError::TooShortInput),
        }
    }

    /// The filter type of the scanline.
    pub fn filter_type(&self) -> (r: FilterType)
        ensures
            r == self.filter_type,
    {
        self.filter_type
    }

    /// Sets the filter type, in the handle and in the buffer's filter-type byte together;
    /// where the buffer does not hold that byte, neither changes.
    pub fn set_filter_type(&mut self, data: &mut Vec<u8>, filter_type: FilterType)
        ensures
            old(self).range.start < old(data)@.len() ==> final(self).filter_type == filter_type
                && final(data)@ == old(data)@.update(old(self).range.start as int, filter_type.code()),
            old(self).range.start >= old(data)@.len() ==> *final(self) == *old(self) && final(data)@
                == old(data)@,
            final(self).range == old(self).range,
    {
        if self.range.start < data.len() {
            data.set(self.range.start, filter_type.as_byte());
            self.filter_type = filter_type;
        }
    }

    /// The number of payload bytes in the range.
    pub fn size(&self) -> (r: usize)
        ensures
            r == (if self.range.end > self.range.start { self.range.end - self.range.start - 1 } else { 0int }),
    {
        if self.range.end > self.range.start {
            self.range.end - self.range.start - 1
        } else {
            0
        }
    }

    /// Payload byte `index`, or `None` where it is outside the scanline or the buffer.
    pub fn index(&self, data: &[u8], index: usize) -> (r: Option<u8>)
        ensures
            index < self.payload(data@).len() ==> r == Some(self.payload(data@)[index as int]),
            index >= self.payload(data@).len() ==> r is None,
    {
        let len = data.len();
        let end = if self.range.end < len { self.range.end } else { len };
        if self.range.start < end && index < end - self.range.start - 1 {
            Some(data[self.range.start + 1 + index])
        } else {
            None
        }
    }

    /// Sets payload byte `index` to `value`; does nothing where it is outside the
    /// scanline or the buffer.
    pub fn update(&self, data: &mut Vec<u8>, index: usize, value: u8)
        ensures
            index < self.payload(old(data)@).len() ==> final(data)@ == old(data)@.update(
                self.payload_start() + index,
                value,
            ),
            index >= self.payload(old(data)@).len() ==> final(data)@ == old(data)@,
    {
        let len = data.len();
        let end = if self.range.end < len { self.range.end } else { len };
        if self.range.start < end && index < end - self.range.start - 1 {
            data.set(self.range.start + 1 + index, value);
        }
    }

    /// Copies the payload into the front of `buf`, as many bytes as both hold, and
    /// returns how many.
    pub fn read(&self, data: &[u8], buf: &mut Vec<u8>) -> (r: usize)
        ensures
            r == min(self.payload(data@).len() as int, old(buf)@.len() as int),
            final(buf)@ == self.payload(data@).subrange(0, r as int) + old(buf)@.subrange(
                r as int,
                old(buf)@.len() as int,
            ),
    {
        let payload = self.payload_bytes(data);
        let n = if payload.len() < buf.len() { payload.len() } else { buf.len() };
        let mut i: usize = 0;
        while i < n
            invariant
                n == min(payload@.len() as int, old(buf)@.len() as int),
                i <= n,
                buf@.len() == old(buf)@.len(),
                forall|j: int| 0 <= j < i ==> #[trigger] buf@[j] == payload@[j],
                forall|j: int| i <= j < buf@.len() ==> #[trigger] buf@[j] == old(buf)@[j],
            decreases n - i,
        {
            buf.set(i, payload[i]);
            i = i + 1;
        }
        assert(buf@ =~= self.payload(data@).subrange(0, n as int) + old(buf)@.subrange(
            n as int,
            old(buf)@.len() as int,
        ));
        n
    }

    /// Appends the whole payload to `buf` and returns its length.
    pub fn read_to_end(&self, data: &[u8], buf: &mut Vec<u8>) -> (r: usize)
        ensures
            r == self.payload(data@).len(),
            final(buf)@ == old(buf)@ + self.payload(data@),
    {
        let mut payload = self.payload_bytes(data);
        let n = payload.len();
        buf.append(&mut payload);
        n
    }

    /// Copies the front of `buf` over the payload, as many bytes as both hold, and
    /// returns how many.
    pub fn write(&self, data: &mut Vec<u8>, buf: &[u8]) -> (r: usize)
        ensures
            r == min(self.payload(old(data)@).len() as int, buf@.len() as int),
            final(data)@.len() == old(data)@.len(),
            forall|j: int|
                0 <= j < final(data)@.len() ==> #[trigger] final(data)@[j] == if self.payload_start() <= j
                    < self.payload_start() + r {
                    buf@[j - self.payload_start()]
                } else {
                    old(data)@[j]
                },
    {
        let size = self.payload_len(data.as_slice());
        let n = if size < buf.len() { size } else { buf.len() };
        let mut i: usize = 0;
        while i < n
            invariant
                n == min(self.payload(old(data)@).len() as int, buf@.len() as int),
                size == self.payload(old(data)@).len(),
                i <= n,
                data@.len() == old(data)@.len(),
                n > 0 ==> self.payload_start() + n <= data@.len(),
                forall|j: int|
                    0 <= j < data@.len() ==> #[trigger] data@[j] == if self.payload_start() <= j
                        < self.payload_start() + i {
                        buf@[j - self.payload_start()]
                    } else {
                        old(data)@[j]
                    },
            decreases n - i,
        {
            data.set(self.range.start + 1 + i, buf[i]);
            i = i + 1;
        }
        n
    }

    /// The number of payload bytes that the buffer holds.
    fn payload_len(&self, data: &[u8]) -> (r: usize)
        ensures
            r == self.payload(data@).len(),
            r > 0 ==> self.payload_start() + r <= data@.len(),
    {
        let len = data.len();
        let end = if self.range.end < len { self.range.end } else { len };
        if self.range.start < end {
            end - self.range.start - 1
        } else {
            0
        }
    }

    /// A copy of the payload bytes that the buffer holds.
    fn payload_bytes(&self, data: &[u8]) -> (r: Vec<u8>)
        ensures
            r@ == self.payload(data@),
    {
        let len = data.len();
        let end = if self.range.end < len { self.range.end } else { len };
        if self.range.start < end {
            crate::bytes::copy_range(data, self.range.start + 1, end)
        } else {
            Vec::new()
        }
    }
}

} // verus!
