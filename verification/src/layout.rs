//! Which pages of the guest memory file a snapshot consists of.

use vstd::prelude::*;

verus! {

/// A page-aligned byte range, in guest memory file offset space (which is also the offset space
/// of the memfd handed to a memory backend).
#[derive(Clone, Copy, Debug, PartialEq, Eq, Structural)]
pub struct MemoryRange {
    /// Offset of the first byte of the range.
    pub offset: u64,
    /// Length of the range in bytes.
    pub len: u64,
}

impl MemoryRange {
    /// The offset just past the last byte of the range.
    pub open spec fn end(self) -> int {
        self.offset + self.len
    }

    /// Whether the byte at `offset` lies in the range.
    pub open spec fn contains(self, offset: int) -> bool {
        self.offset <= offset < self.end()
    }
}

/// Describes which pages of the guest memory file a snapshot consists of.
#[derive(Clone, Debug, Default, PartialEq, Eq)]
pub struct SnapshotMemoryLayout {
    /// Size of a full guest memory file (sum of all region sizes).
    pub total_size: u64,
    /// Granularity of `pages`, in bytes (the host page size).
    pub page_size: u64,
    /// One bit per `page_size` bytes of the memory file: byte `i`, bit `b` (least significant
    /// first) is the page at offset `(8 * i + b) * page_size`. A set bit means the page must be
    /// copied from guest memory into the memory file at the same offset.
    ///
    /// The bitmap covers the file from offset 0 up to the end of the last plugged slot, whatever
    /// is dirty. Pages past its end are clear.
    ///
    /// Absent for a full snapshot, which consists of everything not in `unplugged`.
    pub pages: Option<Vec<u8>>,
    /// Ranges that must be zeroed in the memory file: the currently unplugged slots. Sorted,
    /// merged and page-aligned.
    pub unplugged: Vec<MemoryRange>,
}

/// Bit `b` of `byte`, counted from the least significant one.
pub open spec fn bit(byte: u8, b: int) -> bool {
    byte & (1u8 << (b as u8)) != 0
}

/// Bit `page` of a bitmap: bit `page % 8` of byte `page / 8`. Bits past the end are clear.
pub open spec fn page_bit(pages: Seq<u8>, page: int) -> bool {
    0 <= page < 8 * pages.len() && bit(pages[page / 8], page % 8)
}

/// Whether `after` is the bitmap `before` with the pages from `first` up to `last` set as well.
pub open spec fn pages_set(before: Seq<u8>, after: Seq<u8>, first: int, last: int) -> bool {
    &&& after.len() == before.len()
    &&& forall|page: int|
        #[trigger] page_bit(after, page) == (page_bit(before, page) || first <= page < last)
}

/// How many of the bits below `n` are set.
pub open spec fn ones_below(pages: Seq<u8>, n: int) -> nat
    decreases n,
{
    if n <= 0 {
        0
    } else {
        ones_below(pages, n - 1) + if page_bit(pages, n - 1) { 1nat } else { 0nat }
    }
}

/// How many bits of a bitmap are set.
pub open spec fn ones(pages: Seq<u8>) -> nat {
    ones_below(pages, 8 * pages.len() as int)
}

/// `n / d`, rounded up.
pub open spec fn ceil_div(n: int, d: int) -> int {
    (n + d - 1) / d
}

/// The bytes that `ranges` cover together, if no two of them overlap.
pub open spec fn total_len(ranges: Seq<MemoryRange>) -> int
    decreases ranges.len(),
{
    if ranges.len() == 0 {
        0
    } else {
        total_len(ranges.drop_last()) + ranges.last().len
    }
}

/// `n / d`, rounded up.
fn div_ceil(n: u64, d: u64) -> (r: u64)
    requires
        d > 0,
    ensures
        r == ceil_div(n as int, d as int),
{
    let q: u64 = n / d;
    let m: u64 = n % d;
    proof {
        lemma_ceil_div(n as int, d as int);
    }
    if m == 0 {
        q
    } else {
        assert(q < u64::MAX) by {
            vstd::arithmetic::div_mod::lemma_fundamental_div_mod(n as int, d as int);
            assert(q < u64::MAX) by (nonlinear_arith)
                requires
                    d >= 1,
                    n == d * q + m,
                    m >= 1,
                    n <= u64::MAX,
                    q >= 0,
            ;
        }
        q + 1
    }
}

/// Rounding a quotient up adds one to it exactly if the division leaves a remainder.
pub proof fn lemma_ceil_div(n: int, d: int)
    requires
        n >= 0,
        d > 0,
    ensures
        ceil_div(n, d) == n / d + if n % d == 0 { 0int } else { 1int },
{
    vstd::arithmetic::div_mod::lemma_fundamental_div_mod(n, d);
    let q = n / d;
    let m = n % d;
    assert(n + d - 1 == q * d + (m + d - 1)) by (nonlinear_arith)
        requires
            n == d * q + m,
    ;
    if m == 0 {
        vstd::arithmetic::div_mod::lemma_fundamental_div_mod_converse(n + d - 1, d, q, d - 1);
    } else {
        assert(n + d - 1 == (q + 1) * d + (m - 1)) by (nonlinear_arith)
            requires
                n + d - 1 == q * d + (m + d - 1),
        ;
        vstd::arithmetic::div_mod::lemma_fundamental_div_mod_converse(n + d - 1, d, q + 1, m - 1);
    }
}

impl SnapshotMemoryLayout {
    /// Whether the page at file offset `offset` must be copied.
    pub open spec fn is_set(self, offset: int) -> bool {
        match self.pages {
            None => 0 <= offset < self.total_size && forall|i: int|
                0 <= i < self.unplugged@.len() ==> !(#[trigger] self.unplugged@[i]).contains(offset),
            Some(pages) => page_bit(pages@, offset / self.page_size as int),
        }
    }

    /// Number of pages to copy: for a full snapshot those that `unplugged` leaves of the file, for
    /// a diff snapshot those whose bit is set.
    pub open spec fn copied_pages(self) -> int {
        match self.pages {
            None => (self.total_size - total_len(self.unplugged@)) / self.page_size as int,
            Some(pages) => ones(pages@) as int,
        }
    }

    /// How many of the first `n` pages of the file must be copied.
    pub open spec fn set_below(self, n: int) -> nat
        decreases n,
    {
        if n <= 0 {
            0
        } else {
            self.set_below(n - 1) + if self.is_set((n - 1) * self.page_size) {
                1nat
            } else {
                0nat
            }
        }
    }

    /// Creates the layout of a full snapshot: no bitmap, every page outside `unplugged` is set.
    pub fn full(total_size: u64, page_size: u64, unplugged: Vec<MemoryRange>) -> (r: Self)
        ensures
            r.total_size == total_size,
            r.page_size == page_size,
            r.pages is None,
            r.unplugged == unplugged,
    {
        SnapshotMemoryLayout { total_size, page_size, pages: None, unplugged }
    }

    /// Creates the layout of a diff snapshot with an all-clear bitmap covering the file up to
    /// `plugged_end`, the end offset of the last plugged slot.
    pub fn diff(total_size: u64, page_size: u64, plugged_end: u64) -> (r: Self)
        requires
            page_size > 0,
        ensures
            r.total_size == total_size,
            r.page_size == page_size,
            r.unplugged@.len() == 0,
            r.pages matches Some(pages) && {
                let covered = ceil_div(plugged_end as int, page_size as int);
                &&& pages@.len() == ceil_div(
                    if covered <= usize::MAX { covered } else { usize::MAX as int },
                    8,
                )
                &&& forall|i: int| 0 <= i < pages@.len() ==> #[trigger] pages@[i] == 0
            },
            forall|x: int| !(#[trigger] r.is_set(x)),
            r.copied_pages() == 0,
    {
        let covered: u64 = div_ceil(plugged_end, page_size);
        let pages: usize = match usize::try_from(covered) {
            Ok(pages) => pages,
            Err(_) => usize::MAX,
        };
        let bytes: usize = pages / 8 + if pages % 8 == 0 { 0 } else { 1 };
        let bitmap: Vec<u8> = vec![0u8; bytes];
        proof {
            lemma_clear_bitmap(bitmap@, 8 * bitmap@.len() as int);
        }
        SnapshotMemoryLayout { total_size, page_size, pages: Some(bitmap), unplugged: Vec::new() }
    }

    /// Whether a range that starts at or before `offset` and reaches past the largest file offset
    /// comes only after one that holds `offset`.
    pub open spec fn reads_within_bounds(self, offset: u64) -> bool {
        forall|i: int|
            0 <= i < self.unplugged@.len() && (#[trigger] self.unplugged@[i]).offset <= offset
                && self.unplugged@[i].end() > u64::MAX ==> exists|j: int|
                0 <= j < i && (#[trigger] self.unplugged@[j]).contains(offset as int)
    }

    /// Whether the page at file offset `offset` must be copied.
    pub fn page_is_set(&self, offset: u64) -> (r: bool)
        requires
            self.pages is None && offset < self.total_size ==> self.reads_within_bounds(offset),
            self.pages is Some ==> self.page_size > 0 && offset as int / self.page_size as int / 8
                <= usize::MAX,
        ensures
            r == self.is_set(offset as int),
    {
        match &self.pages {
            None => {
                if offset >= self.total_size {
                    return false;
                }
                let mut i: usize = 0;
                while i < self.unplugged.len()
                    invariant
                        i <= self.unplugged@.len(),
                        self.reads_within_bounds(offset),
                        self.pages is None,
                        forall|j: int|
                            0 <= j < i ==> !(#[trigger] self.unplugged@[j]).contains(offset as int),
                    decreases self.unplugged@.len() - i,
                {
                    let r = self.unplugged[i];
                    if r.offset <= offset && offset < r.offset + r.len {
                        assert(self.unplugged@[i as int].contains(offset as int));
                        return false;
                    }
                    i += 1;
                }
                true
            },
            Some(pages) => {
                let page: u64 = offset / self.page_size;
                let byte: usize = (page / 8) as usize;
                if byte < pages.len() {
                    let b: u8 = (page % 8) as u8;
                    pages[byte] & (1u8 << b) != 0
                } else {
                    false
                }
            },
        }
    }

    /// Sets the bits of the `len` bytes at file offset `offset`: of the pages from the one that
    /// holds `offset` up to the end of the range, rounded up to a whole page.
    pub fn set_range(&mut self, offset: u64, len: u64)
        requires
            old(self).pages is Some,
            old(self).page_size > 0,
            offset + len <= u64::MAX,
            ({
                let first = offset as int / old(self).page_size as int;
                let last = ceil_div(offset + len, old(self).page_size as int);
                first < last ==> last <= 8 * old(self).pages->0@.len()
            }),
        ensures
            final(self).total_size == old(self).total_size,
            final(self).page_size == old(self).page_size,
            final(self).unplugged == old(self).unplugged,
            final(self).pages is Some,
            pages_set(
                old(self).pages->0@,
                final(self).pages->0@,
                offset as int / old(self).page_size as int,
                ceil_div(offset + len, old(self).page_size as int),
            ),
            offset as int % old(self).page_size as int == 0 && len as int % old(
                self,
            ).page_size as int == 0 ==> forall|x: int|
                0 <= x ==> #[trigger] final(self).is_set(x) == (old(self).is_set(x) || offset <= x
                    < offset + len),
    {
        let first: u64 = offset / self.page_size;
        let last: u64 = div_ceil(offset + len, self.page_size);
        assert(first <= last) by {
            vstd::arithmetic::div_mod::lemma_div_is_ordered(
                offset as int,
                offset + len,
                self.page_size as int,
            );
            lemma_ceil_div(offset + len, self.page_size as int);
        }
        let mut pages: Vec<u8> = match self.pages.take() {
            Some(pages) => pages,
            None => Vec::new(),
        };
        let ghost before = pages@;
        let mut page: u64 = first;
        while page < last
            invariant
                first <= page <= last,
                first < last ==> last <= 8 * before.len(),
                pages@.len() == before.len(),
                forall|p: int|
                    #[trigger] page_bit(pages@, p) == (page_bit(before, p) || first <= p < page),
            decreases last - page,
        {
            let byte: usize = (page / 8) as usize;
            let b: u8 = (page % 8) as u8;
            let ghost previous = pages@;
            let updated: u8 = pages[byte] | (1u8 << b);
            pages.set(byte, updated);
            proof {
                lemma_set_page_bit(previous, page as int);
            }
            page += 1;
        }
        self.pages = Some(pages);
        proof {
            let size = self.page_size as int;
            if offset as int % size == 0 && len as int % size == 0 {
                assert forall|x: int| 0 <= x implies #[trigger] self.is_set(x) == (old(
                    self,
                ).is_set(x) || offset <= x < offset + len) by {
                    lemma_aligned_pages(offset as int, len as int, size, x);
                    assert(page_bit(self.pages->0@, x / size) == (page_bit(before, x / size)
                        || first <= x / size < last));
                }
            }
        }
    }

    /// Number of pages to copy.
    pub fn set_pages(&self) -> (r: u64)
        requires
            self.pages is None ==> self.page_size > 0 && total_len(self.unplugged@)
                <= self.total_size,
            self.pages matches Some(pages) ==> 8 * pages@.len() <= u64::MAX || ones(pages@)
                <= u64::MAX,
        ensures
            r == self.copied_pages(),
    {
        match &self.pages {
            None => {
                let mut unplugged: u64 = 0;
                let mut i: usize = 0;
                while i < self.unplugged.len()
                    invariant
                        i <= self.unplugged@.len(),
                        unplugged == total_len(self.unplugged@.take(i as int)),
                        total_len(self.unplugged@) <= u64::MAX,
                    decreases self.unplugged@.len() - i,
                {
                    proof {
                        lemma_total_len_grows(self.unplugged@, i + 1);
                        assert(self.unplugged@.take(i + 1).drop_last() =~= self.unplugged@.take(
                            i as int,
                        ));
                    }
                    unplugged += self.unplugged[i].len;
                    i += 1;
                }
                assert(self.unplugged@.take(i as int) =~= self.unplugged@);
                (self.total_size - unplugged) / self.page_size
            },
            Some(pages) => {
                proof {
                    lemma_ones_below_bounds(pages@, 8 * pages@.len() as int);
                }
                let mut count: u64 = 0;
                let mut i: usize = 0;
                while i < pages.len()
                    invariant
                        i <= pages@.len(),
                        ones(pages@) <= u64::MAX,
                        count == ones_below(pages@, 8 * i),
                    decreases pages@.len() - i,
                {
                    let byte: u8 = pages[i];
                    let mut b: u8 = 0;
                    while b < 8
                        invariant
                            b <= 8,
                            i < pages@.len(),
                            byte == pages@[i as int],
                            ones(pages@) <= u64::MAX,
                            count == ones_below(pages@, 8 * i + b),
                        decreases 8 - b,
                    {
                        proof {
                            assert((8 * i + b) / 8 == i && (8 * i + b) % 8 == b);
                            lemma_ones_below_bounds(pages@, 8 * i + b + 1);
                        }
                        if byte & (1u8 << b) != 0 {
                            count += 1;
                        }
                        b += 1;
                    }
                    i += 1;
                }
                count
            },
        }
    }
}

/// Or-ing one bit into a byte of a bitmap sets that page's bit and leaves every other as it was.
proof fn lemma_set_page_bit(pages: Seq<u8>, page: int)
    requires
        0 <= page < 8 * pages.len(),
    ensures
        ({
            let after = pages.update(page / 8, pages[page / 8] | (1u8 << ((page % 8) as u8)));
            forall|p: int| #[trigger] page_bit(after, p) == (page_bit(pages, p) || p == page)
        }),
{
    let byte = pages[page / 8];
    let b = (page % 8) as u8;
    let after = pages.update(page / 8, byte | (1u8 << b));
    assert forall|p: int| #[trigger] page_bit(after, p) == (page_bit(pages, p) || p == page) by {
        let c = (p % 8) as u8;
        assert((byte | (1u8 << b)) & (1u8 << c) != 0 <==> (byte & (1u8 << c) != 0 || b == c))
            by (bit_vector)
            requires
                b < 8,
                c < 8,
        ;
    }
}

/// In a bitmap of zero bytes no bit is set.
proof fn lemma_clear_bitmap(pages: Seq<u8>, n: int)
    requires
        forall|i: int| 0 <= i < pages.len() ==> #[trigger] pages[i] == 0,
    ensures
        forall|page: int| !(#[trigger] page_bit(pages, page)),
        ones_below(pages, n) == 0,
    decreases n,
{
    assert forall|page: int| !(#[trigger] page_bit(pages, page)) by {
        let b = (page % 8) as u8;
        assert(0u8 & (1u8 << b) == 0) by (bit_vector);
    }
    if n > 0 {
        lemma_clear_bitmap(pages, n - 1);
    }
}

/// An aligned range is made of whole pages: it holds a byte exactly if it holds the byte's page.
pub proof fn lemma_aligned_pages(offset: int, len: int, size: int, x: int)
    requires
        0 <= offset,
        0 <= len,
        0 <= x,
        size > 0,
        offset % size == 0,
        len % size == 0,
    ensures
        offset <= x < offset + len <==> offset / size <= x / size < ceil_div(offset + len, size),
{
    vstd::arithmetic::div_mod::lemma_fundamental_div_mod(offset, size);
    vstd::arithmetic::div_mod::lemma_fundamental_div_mod(len, size);
    vstd::arithmetic::div_mod::lemma_fundamental_div_mod(x, size);
    let a = offset / size;
    let l = len / size;
    assert(offset + len == (a + l) * size + 0) by (nonlinear_arith)
        requires
            offset == size * a,
            len == size * l,
    ;
    vstd::arithmetic::div_mod::lemma_fundamental_div_mod_converse(offset + len, size, a + l, 0);
    lemma_ceil_div(offset + len, size);
    lemma_page_order(a, x / size, x % size, size);
    lemma_page_order(a + l, x / size, x % size, size);
    assert(size * (a + l) == offset + len) by (nonlinear_arith)
        requires
            offset + len == (a + l) * size + 0,
    ;
}

/// The byte at position `m` of page `q` lies at or past the start of page `a` exactly if `q` does.
pub proof fn lemma_page_order(a: int, q: int, m: int, size: int)
    requires
        0 <= m < size,
    ensures
        size * a <= size * q + m <==> a <= q,
{
    if a <= q {
        assert(size * a <= size * q) by (nonlinear_arith)
            requires
                a <= q,
                size > 0,
        ;
    } else {
        assert(size * q + size <= size * a) by (nonlinear_arith)
            requires
                q + 1 <= a,
                size > 0,
        ;
    }
}

/// Of the bits below `n` at most `n` are set, and none but those of the bitmap.
proof fn lemma_ones_below_bounds(pages: Seq<u8>, n: int)
    requires
        0 <= n,
    ensures
        ones_below(pages, n) <= n,
        ones_below(pages, n) <= ones(pages),
    decreases n,
{
    if n > 0 {
        lemma_ones_below_bounds(pages, n - 1);
    }
    lemma_ones_below_grows(pages, n, 8 * pages.len() as int);
    lemma_ones_below_grows(pages, 8 * pages.len() as int, n);
}

/// Counting further adds set bits only, and none past the end of the bitmap.
pub proof fn lemma_ones_below_grows(pages: Seq<u8>, n: int, m: int)
    ensures
        n <= m ==> ones_below(pages, n) <= ones_below(pages, m),
        8 * pages.len() <= n <= m ==> ones_below(pages, n) == ones_below(pages, m),
    decreases m - n,
{
    if n < m {
        lemma_ones_below_grows(pages, n, m - 1);
    }
}

/// The ranges before the `n`th cover no more bytes than all of them.
proof fn lemma_total_len_grows(ranges: Seq<MemoryRange>, n: int)
    requires
        0 <= n <= ranges.len(),
    ensures
        0 <= total_len(ranges.take(n)) <= total_len(ranges),
    decreases ranges.len(),
{
    if n == ranges.len() {
        assert(ranges.take(n) =~= ranges);
        if n > 0 {
            lemma_total_len_grows(ranges.drop_last(), n - 1);
            assert(ranges.drop_last().take(n - 1) =~= ranges.drop_last());
        }
    } else {
        lemma_total_len_grows(ranges.drop_last(), n);
        assert(ranges.drop_last().take(n) =~= ranges.take(n));
    }
}

} // verus!
