use vstd::prelude::*;

use vstd::arithmetic::div_mod::{
    lemma_fundamental_div_mod, lemma_fundamental_div_mod_converse_div,
    lemma_fundamental_div_mod_converse_mod,
};

use crate::filter::{
    apply, filter_type_of, filtered_line, lemma_filter_inverts_unfilter, remove,
    unfiltered_line, FilterType,
};
use crate::scan_line::{MemoryRange, ScanLine};
use crate::png::{model_bpp, model_height, model_line_width, model_lines, model_wf, Png, PngModel};

verus! {

/// The payload of scanline `k` in a buffer of `w`-byte scanlines.
pub open spec fn line_payload(data: Seq<u8>, w: int, k: int) -> Seq<u8> {
    data.subrange(k * w + 1, k * w + w)
}

/// The payload of the scanline above scanline `k`, or nothing for the first one.
pub open spec fn above_payload(data: Seq<u8>, w: int, k: int) -> Seq<u8> {
    if k <= 0 {
        Seq::empty()
    } else {
        line_payload(data, w, k - 1)
    }
}

/// The unfiltered payload of scanline `k`: its stored bytes decoded with its own filter
/// type, below the unfiltered payload of the scanline above. A scanline whose filter-type
/// byte is unknown keeps its bytes.
pub open spec fn raw_payload(data: Seq<u8>, w: int, bpp: int, k: nat) -> Seq<u8>
    decreases k,
{
    let above = if k == 0 {
        Seq::empty()
    } else {
        raw_payload(data, w, bpp, (k - 1) as nat)
    };
    match filter_type_of(data[k * w]) {
        Some(t) => unfiltered_line(t, line_payload(data, w, k as int), above, bpp),
        None => line_payload(data, w, k as int),
    }
}

/// The buffer with its first `n` scanlines decoded top to bottom, each then marked as
/// unfiltered; scanlines whose filter-type byte is unknown, and the bytes past the `n`
/// scanlines, are kept.
pub open spec fn unfiltered_data(data: Seq<u8>, w: int, bpp: int, n: int) -> Seq<u8> {
    Seq::new(
        data.len(),
        |j: int|
            if j < n * w {
                if j % w == 0 {
                    if filter_type_of(data[j]) is Some {
                        0u8
                    } else {
                        data[j]
                    }
                } else {
                    raw_payload(data, w, bpp, (j / w) as nat)[j % w - 1]
                }
            } else {
                data[j]
            },
    )
}

/// The buffer with its first `n` scanlines encoded with filter `t`, each predicted from
/// the unfiltered bytes around it, and marked with `t`; the bytes past them are kept.
pub open spec fn filtered_data(data: Seq<u8>, w: int, bpp: int, n: int, t: FilterType) -> Seq<u8> {
    Seq::new(
        data.len(),
        |j: int|
            if j < n * w {
                if j % w == 0 {
                    t.code()
                } else {
                    filtered_line(t, line_payload(data, w, j / w), above_payload(data, w, j / w), bpp)[j
                        % w - 1]
                }
            } else {
                data[j]
            },
    )
}

/// Scanlines `src .. src + lines` copied over scanlines `dest .. dest + lines`, where the
/// buffer holds both ranges; otherwise the buffer as it is.
pub open spec fn transposed(data: Seq<u8>, w: int, src: int, dest: int, lines: int) -> Seq<u8> {
    if (src + lines) * w <= data.len() && (dest + lines) * w <= data.len() {
        Seq::new(
            data.len(),
            |j: int|
                if dest * w <= j < (dest + lines) * w {
                    data[j - dest * w + src * w]
                } else {
                    data[j]
                },
        )
    } else {
        data
    }
}

/// Byte `j` lies in scanline `k`, at offset `j - k * w`.
pub proof fn lemma_in_line(j: int, k: int, w: int)
    requires
        w >= 1,
        k >= 0,
        k * w <= j < k * w + w,
    ensures
        j / w == k,
        j % w == j - k * w,
{
    lemma_fundamental_div_mod_converse_div(j, w, k, j - k * w);
    lemma_fundamental_div_mod_converse_mod(j, w, k, j - k * w);
}

/// Every byte lies in the scanline `j / w`.
pub proof fn lemma_line_of(j: int, w: int)
    requires
        w >= 1,
        j >= 0,
    ensures
        (j / w) * w <= j < (j / w) * w + w,
        j / w >= 0,
        j % w == j - (j / w) * w,
{
    lemma_fundamental_div_mod(j, w);
    assert(w * (j / w) == (j / w) * w) by (nonlinear_arith);
    assert(j / w >= 0) by (nonlinear_arith)
        requires
            w >= 1,
            j >= 0,
    ;
}

pub proof fn lemma_lines_fit(k: int, n: int, w: int)
    requires
        0 <= k < n,
        w >= 0,
    ensures
        k * w + w <= n * w,
        0 <= k * w,
{
    assert(k * w + w <= n * w) by (nonlinear_arith)
        requires
            0 <= k < n,
            w >= 0,
    ;
    assert(0 <= k * w) by (nonlinear_arith)
        requires
            0 <= k,
            w >= 0,
    ;
}

pub proof fn lemma_next_line(k: int, w: int)
    ensures
        (k + 1) * w == k * w + w,
        (k - 1) * w == k * w - w,
{
    assert((k + 1) * w == k * w + w) by (nonlinear_arith);
    assert((k - 1) * w == k * w - w) by (nonlinear_arith);
}

/// The unfiltered payload of a scanline has its length.
proof fn lemma_raw_payload_len(data: Seq<u8>, w: int, bpp: int, k: nat)
    requires
        bpp >= 1,
        w >= 1,
        k * w + w <= data.len(),
    ensures
        raw_payload(data, w, bpp, k).len() == w - 1,
{
    let above = if k == 0 {
        Seq::empty()
    } else {
        raw_payload(data, w, bpp, (k - 1) as nat)
    };
    if let Some(t) = filter_type_of(data[k * w]) {
        lemma_filter_inverts_unfilter(t, line_payload(data, w, k as int), above, bpp);
    }
}

/// Scanline `k` of the decoded buffer holds the unfiltered payload of scanline `k`.
proof fn lemma_unfiltered_line_payload(data: Seq<u8>, w: int, bpp: int, n: int, k: int)
    requires
        bpp >= 1,
        w >= 1,
        0 <= k < n,
        n * w <= data.len(),
    ensures
        line_payload(unfiltered_data(data, w, bpp, n), w, k) == raw_payload(data, w, bpp, k as nat),
        unfiltered_data(data, w, bpp, n)[k * w] == (if filter_type_of(data[k * w]) is Some {
            0u8
        } else {
            data[k * w]
        }),
{
    let u = unfiltered_data(data, w, bpp, n);
    lemma_lines_fit(k, n, w);
    lemma_raw_payload_len(data, w, bpp, k as nat);
    let p = line_payload(u, w, k);
    let r = raw_payload(data, w, bpp, k as nat);
    assert forall|o: int| 0 <= o < w - 1 implies p[o] == r[o] by {
        lemma_in_line(k * w + 1 + o, k, w);
    }
    assert(p =~= r);
    lemma_in_line(k * w, k, w);
}

/// Decoding every scanline and encoding them again with filter `t` gives the buffer
/// back, where every one of those scanlines was stored with filter `t`.
pub proof fn lemma_apply_after_remove(data: Seq<u8>, w: int, bpp: int, n: int, t: FilterType)
    requires
        w >= 1,
        bpp >= 1,
        n >= 0,
        n * w <= data.len(),
        forall|k: int| 0 <= k < n ==> data[#[trigger] (k * w)] == t.code(),
    ensures
        filtered_data(unfiltered_data(data, w, bpp, n), w, bpp, n, t) == data,
{
    let u = unfiltered_data(data, w, bpp, n);
    let f = filtered_data(u, w, bpp, n, t);
    assert forall|j: int| 0 <= j < data.len() implies f[j] == data[j] by {
        if j < n * w {
            lemma_line_of(j, w);
            let k = j / w;
            if k >= n {
                assert(k * w >= n * w) by (nonlinear_arith)
                    requires
                        k >= n,
                        w >= 1,
                ;
            }
            lemma_lines_fit(k, n, w);
            if j % w == 0 {
                assert(data[k * w] == t.code());
            } else {
                lemma_unfiltered_line_payload(data, w, bpp, n, k);
                let above = if k == 0 {
                    Seq::empty()
                } else {
                    raw_payload(data, w, bpp, (k - 1) as nat)
                };
                if k > 0 {
                    lemma_unfiltered_line_payload(data, w, bpp, n, k - 1);
                }
                assert(above_payload(u, w, k) == above);
                assert(filter_type_of(data[k * w]) == Some(t));
                lemma_filter_inverts_unfilter(t, line_payload(data, w, k), above, bpp);
            }
        }
    }
    assert(f =~= data);
}

impl Png {
    /// Decodes every scanline that the buffer holds whole, top to bottom, each below the
    /// already decoded scanline above it, and marks each as unfiltered. A scanline whose
    /// filter-type byte is unknown is left as it is.
    pub fn remove_filter(&mut self)
        requires
            old(self).wf(),
        ensures
            final(self).wf(),
            final(self)@ == (PngModel {
                data: unfiltered_data(
                    old(self)@.data,
                    model_line_width(old(self)@),
                    model_bpp(old(self)@),
                    model_lines(old(self)@),
                ),
                ..old(self)@
            }),
    {
        let w = self.scan_line_width();
        let bpp = self.bytes_per_pixel();
        let n = self.line_count();
        let ghost old_data = self.data@;
        let ghost u = unfiltered_data(old_data, w as int, bpp as int, n as int);
        let len = self.data.len();
        let mut k: usize = 0;
        while k < n
            invariant
                len == self.data@.len(),
                self.header == old(self).header,
                self.terminator == old(self).terminator,
                self.misc_chunks == old(self).misc_chunks,
                w == model_line_width(old(self)@),
                bpp == model_bpp(old(self)@),
                w >= 1,
                bpp >= 1,
                k <= n,
                n * w <= old_data.len(),
                u == unfiltered_data(old_data, w as int, bpp as int, n as int),
                self.data@.len() == old_data.len(),
                forall|j: int| 0 <= j < k * w ==> #[trigger] self.data@[j] == u[j],
                forall|j: int| k * w <= j < old_data.len() ==> #[trigger] self.data@[j] == old_data[j],
            decreases n - k,
        {
            proof {
                lemma_lines_fit(k as int, n as int, w as int);
                lemma_next_line(k as int, w as int);
            }
            let start = k * w;
            let prev = if k == 0 { None } else { Some(start - w + 1) };
            let ghost before = self.data@;
            proof {
                if k > 0 {
                    let q = (k - 1) as int;
                    lemma_unfiltered_line_payload(old_data, w as int, bpp as int, n as int, q);
                    lemma_lines_fit(q, n as int, w as int);
                    assert(before.subrange(start - w + 1, start as int) =~= line_payload(u, w as int, q));
                }
                assert(before.subrange(start + 1, start + w) =~= line_payload(old_data, w as int, k as int));
            }
            match FilterType::from_byte(self.data[start]) {
                Ok(filter_type) => {
                    remove(&mut self.data, filter_type, start + 1, w - 1, prev, bpp);
                    self.data.set(start, 0);
                },
                Err(_) => {},
            }
            proof {
                lemma_raw_payload_len(old_data, w as int, bpp as int, k as nat);
                assert forall|j: int| 0 <= j < (k + 1) * w implies #[trigger] self.data@[j] == u[j] by {
                    if j >= k * w {
                        lemma_in_line(j, k as int, w as int);
                        if j > k * w {
                            assert(self.data@[j] == self.data@.subrange(start + 1, start + w)[j - start - 1]);
                        }
                    }
                }
            }
            k = k + 1;
        }
        proof {
            assert forall|j: int| 0 <= j < old_data.len() implies self.data@[j] == u[j] by {
                if j >= k * w {
                    assert(!(j < n * w));
                }
            }
            assert(self.data@ =~= u);
        }
    }

    /// Encodes every scanline that the buffer holds whole with filter `t`, bottom to top,
    /// each predicted from the unfiltered scanline above it, and marks each with `t`.
    pub fn apply_filter(&mut self, t: FilterType)
        requires
            old(self).wf(),
        ensures
            final(self).wf(),
            final(self)@ == (PngModel {
                data: filtered_data(
                    old(self)@.data,
                    model_line_width(old(self)@),
                    model_bpp(old(self)@),
                    model_lines(old(self)@),
                    t,
                ),
                ..old(self)@
            }),
    {
        let w = self.scan_line_width();
        let bpp = self.bytes_per_pixel();
        let n = self.line_count();
        let code = t.as_byte();
        let ghost old_data = self.data@;
        let ghost f = filtered_data(old_data, w as int, bpp as int, n as int, t);
        let len = self.data.len();
        let mut k: usize = n;
        while k > 0
            invariant
                len == self.data@.len(),
                self.header == old(self).header,
                self.terminator == old(self).terminator,
                self.misc_chunks == old(self).misc_chunks,
                w == model_line_width(old(self)@),
                bpp == model_bpp(old(self)@),
                code == t.code(),
                w >= 1,
                bpp >= 1,
                k <= n,
                n * w <= old_data.len(),
                f == filtered_data(old_data, w as int, bpp as int, n as int, t),
                self.data@.len() == old_data.len(),
                forall|j: int| k * w <= j < n * w ==> #[trigger] self.data@[j] == f[j],
                forall|j: int|
                    0 <= j < old_data.len() && !(k * w <= j < n * w) ==> #[trigger] self.data@[j]
                        == old_data[j],
            decreases k,
        {
            k = k - 1;
            proof {
                lemma_lines_fit(k as int, n as int, w as int);
                lemma_next_line(k as int, w as int);
            }
            let start = k * w;
            let prev = if k == 0 { None } else { Some(start - w + 1) };
            let ghost before = self.data@;
            proof {
                if k > 0 {
                    lemma_lines_fit(k - 1, n as int, w as int);
                    assert(before.subrange(start - w + 1, start as int) =~= line_payload(
                        old_data,
                        w as int,
                        k - 1,
                    ));
                }
                assert(before.subrange(start + 1, start + w) =~= line_payload(old_data, w as int, k as int));
            }
            apply(&mut self.data, t, start + 1, w - 1, prev, bpp);
            self.data.set(start, code);
            proof {
                assert forall|j: int| k * w <= j < n * w implies #[trigger] self.data@[j] == f[j] by {
                    if j < (k + 1) * w {
                        lemma_in_line(j, k as int, w as int);
                        if j > k * w {
                            assert(self.data@[j] == self.data@.subrange(start + 1, start + w)[j - start - 1]);
                        }
                    }
                }
            }
        }
        proof {
            assert forall|j: int| 0 <= j < old_data.len() implies self.data@[j] == f[j] by {
                if j >= n * w {
                    assert(self.data@[j] == old_data[j]);
                }
            }
            assert(self.data@ =~= f);
        }
    }
}

/// The scanline that starts at byte `k * w`, where the buffer holds that byte and it is
/// a known filter type; its range is the whole scanline, `w` bytes, even where the buffer
/// ends sooner (and where that range passes the largest address, there is none).
pub open spec fn scan_line_at(data: Seq<u8>, w: int, k: int) -> Option<ScanLine> {
    if 0 <= k * w < data.len() && k * w + w <= usize::MAX && filter_type_of(data[k * w]) is Some {
        Some(
            ScanLine {
                filter_type: filter_type_of(data[k * w])->Some_0,
                range: MemoryRange {
                    start: (k * w) as usize,
                    end: (k * w + w) as usize,
                },
            },
        )
    } else {
        None
    }
}

/// The scanlines `from .. from + count` that `scan_line_at` finds, in order.
pub open spec fn scan_lines_spec(data: Seq<u8>, w: int, from: int, count: nat) -> Seq<ScanLine>
    decreases count,
{
    if count == 0 {
        Seq::empty()
    } else {
        let rest = scan_lines_spec(data, w, from, (count - 1) as nat);
        match scan_line_at(data, w, from + count - 1) {
            Some(l) => rest.push(l),
            None => rest,
        }
    }
}

impl Png {
    /// Copies scanlines `src .. src + lines`, filter-type bytes included, over scanlines
    /// `dest .. dest + lines`, reading the source as it was before the copy; the source
    /// range keeps its bytes unless the ranges overlap. Where the buffer does not hold
    /// both ranges, nothing changes.
    pub fn transpose(&mut self, src: usize, dest: usize, lines: u32)
        requires
            old(self).wf(),
        ensures
            final(self).wf(),
            final(self)@ == (PngModel {
                data: transposed(
                    old(self)@.data,
                    model_line_width(old(self)@),
                    src as int,
                    dest as int,
                    lines as int,
                ),
                ..old(self)@
            }),
    {
        let w = self.scan_line_width();
        let len = self.data.len();
        let count = lines as usize;
        let ghost old_data = self.data@;
        let src_end = match src.checked_add(count) {
            Some(e) => e,
            None => {
                assert((src + lines) * w >= src + lines) by (nonlinear_arith)
                    requires
                        w >= 1,
                        src + lines >= 0,
                ;
                return;
            },
        };
        let dest_end = match dest.checked_add(count) {
            Some(e) => e,
            None => {
                assert((dest + lines) * w >= dest + lines) by (nonlinear_arith)
                    requires
                        w >= 1,
                        dest + lines >= 0,
                ;
                return;
            },
        };
        let src_bound = match src_end.checked_mul(w) {
            Some(b) => b,
            None => {
                return;
            },
        };
        let dest_bound = match dest_end.checked_mul(w) {
            Some(b) => b,
            None => {
                return;
            },
        };
        if src_bound > len || dest_bound > len {
            return;
        }
        proof {
            assert(src * w + count * w == src_end * w) by (nonlinear_arith)
                requires
                    src_end == src + count,
            ;
            assert(dest * w + count * w == dest_end * w) by (nonlinear_arith)
                requires
                    dest_end == dest + count,
            ;
            assert(0 <= src * w && 0 <= dest * w && 0 <= count * w) by (nonlinear_arith)
                requires
                    w >= 1,
            ;
        }
        let src_start = src * w;
        let dest_start = dest * w;
        let size = count * w;
        let copy = crate::bytes::copy_range(self.data.as_slice(), src_start, src_start + size);
        let ghost goal = transposed(old_data, w as int, src as int, dest as int, lines as int);
        let mut i: usize = 0;
        while i < size
            invariant
                self.header == old(self).header,
                self.terminator == old(self).terminator,
                self.misc_chunks == old(self).misc_chunks,
                i <= size,
                dest_start + size <= len,
                src_start + size <= len,
                copy@.len() == size,
                len == old_data.len(),
                self.data@.len() == len,
                copy@ == old_data.subrange(src_start as int, src_start + size),
                goal == transposed(old_data, w as int, src as int, dest as int, lines as int),
                goal.len() == len,
                forall|j: int|
                    dest_start <= j < dest_start + size ==> #[trigger] goal[j] == copy@[j - dest_start],
                forall|j: int|
                    0 <= j < len && !(dest_start <= j < dest_start + size) ==> #[trigger] goal[j] == old_data[j],
                forall|j: int|
                    0 <= j < len && !(dest_start <= j < dest_start + i) ==> #[trigger] self.data@[j]
                        == old_data[j],
                forall|j: int| dest_start <= j < dest_start + i ==> #[trigger] self.data@[j] == goal[j],
            decreases size - i,
        {
            self.data.set(dest_start + i, copy[i]);
            i = i + 1;
        }
        assert(self.data@ =~= goal);
    }

    /// Handles on scanlines `from .. from + lines`: those whose first byte the buffer holds
    /// and is a known filter type, in order.
    pub fn scan_lines_from(&self, from: usize, lines: usize) -> (r: Vec<ScanLine>)
        requires
            self.wf(),
        ensures
            r@ == scan_lines_spec(self@.data, model_line_width(self@), from as int, lines as nat),
    {
        let w = self.scan_line_width();
        let len = self.data.len();
        let mut r: Vec<ScanLine> = Vec::new();
        let mut i: usize = 0;
        while i < lines
            invariant
                w == model_line_width(self@),
                w >= 1,
                len == self.data@.len(),
                i <= lines,
                r@ == scan_lines_spec(self.data@, w as int, from as int, i as nat),
            decreases lines - i,
        {
            let ghost k = from + i;
            let found = match from.checked_add(i) {
                Some(index) => match index.checked_mul(w) {
                    Some(start) => if start < len {
                        match start.checked_add(w) {
                            Some(end) => match ScanLine::from_range(
                                MemoryRange::new(start, end),
                                self.data.as_slice(),
                            ) {
                                Ok(line) => Some(line),
                                Err(_) => None,
                            },
                            None => None,
                        }
                    } else {
                        None
                    },
                    None => None,
                },
                None => {
                    assert(k * w >= k) by (nonlinear_arith)
                        requires
                            w >= 1,
                            k >= 0,
                    ;
                    None
                },
            };
            assert(found == scan_line_at(self.data@, w as int, k));
            match found {
                Some(line) => r.push(line),
                None => {},
            }
            i = i + 1;
        }
        r
    }
}

/// A change made to every scanline in turn.
#[derive(Debug, Clone, Copy, PartialEq, Eq, Structural)]
pub enum ScanLineEdit {
    /// Marks the scanline with a filter type; its payload is kept.
    SetFilterType(FilterType),
    /// Sets payload byte `index` to `value`, where the scanline has that byte.
    Substitute { index: usize, value: u8 },
}

/// The buffer after `e` was made to every scanline `k < h` whose first byte the buffer
/// holds and is a known filter type.
pub open spec fn edited(data: Seq<u8>, w: int, h: int, e: ScanLineEdit) -> Seq<u8> {
    Seq::new(
        data.len(),
        |j: int|
            {
                let k = j / w;
                let o = j % w;
                if k < h && filter_type_of(data[k * w]) is Some {
                    match e {
                        ScanLineEdit::SetFilterType(t) => if o == 0 {
                            t.code()
                        } else {
                            data[j]
                        },
                        ScanLineEdit::Substitute { index, value } => if o == index + 1 {
                            value
                        } else {
                            data[j]
                        },
                    }
                } else {
                    data[j]
                }
            },
    )
}

impl Png {
    /// Makes `e` to each scanline of the image, top to bottom.
    pub fn foreach_scanline(&mut self, e: ScanLineEdit)
        requires
            old(self).wf(),
        ensures
            final(self).wf(),
            final(self)@ == (PngModel {
                data: edited(old(self)@.data, model_line_width(old(self)@), model_height(old(self)@), e),
                ..old(self)@
            }),
    {
        let w = self.scan_line_width();
        let h = self.height() as usize;
        let len = self.data.len();
        let ghost old_data = self.data@;
        let ghost goal = edited(old_data, w as int, h as int, e);
        let ghost wi = w as int;
        let mut k: usize = 0;
        while k < h
            invariant
                self.header == old(self).header,
                self.terminator == old(self).terminator,
                self.misc_chunks == old(self).misc_chunks,
                old(self).wf(),
                old_data == old(self).data@,
                w == model_line_width(old(self)@),
                h == model_height(old(self)@),
                w >= 1,
                wi == w as int,
                k <= h,
                len == old_data.len(),
                self.data@.len() == len,
                goal == edited(old_data, w as int, h as int, e),
                forall|j: int| 0 <= j < len && j < k * w ==> #[trigger] self.data@[j] == goal[j],
                forall|j: int| 0 <= j < len && j >= k * w ==> #[trigger] self.data@[j] == old_data[j],
            decreases h - k,
        {
            proof {
                lemma_next_line(k as int, w as int);
                assert(0 <= k * w) by (nonlinear_arith)
                    requires
                        w >= 1,
            ;
            }
            let start = match k.checked_mul(w) {
                Some(s) => s,
                None => len,
            };
            if start >= len {
                proof {
                    assert forall|j: int| 0 <= j < len implies self.data@[j] == goal[j] by {
                        assert(j < k * w);
                    }
                    assert(self.data@ =~= goal);
                }
                return;
            }
            let end = if w <= len - start { start + w } else { len };
            let ghost before = self.data@;
            match ScanLine::from_range(MemoryRange::new(start, end), self.data.as_slice()) {
                Ok(line) => {
                    let mut line = line;
                    match e {
                        ScanLineEdit::SetFilterType(t) => line.set_filter_type(&mut self.data, t),
                        ScanLineEdit::Substitute { index, value } => line.update(&mut self.data, index, value),
                    }
                },
                Err(_) => {},
            }
            proof {
                assert(before[start as int] == old_data[start as int]);
                assert forall|j: int| 0 <= j < len && j < (k + 1) * w implies #[trigger] self.data@[j] == goal[j] by {
                    if j >= k * w {
                        lemma_in_line(j, k as int, w as int);
                    }
                }
            }
            k = k + 1;
        }
        proof {
            assert forall|j: int| 0 <= j < len implies self.data@[j] == goal[j] by {
                if j >= k * w {
                    lemma_line_of(j, w as int);
                    assert(j / wi >= h) by (nonlinear_arith)
                        requires
                            j >= k * w,
                            k == h,
                            (j / wi) * w + w > j,
                            w >= 1,
                    ;
                }
            }
            assert(self.data@ =~= goal);
        }
    }
}

} // verus!
