//! What holds of every [`SnapshotMemoryLayout`].

use vstd::prelude::*;

use crate::layout::{
    bit, ceil_div, lemma_aligned_pages, lemma_ceil_div, lemma_ones_below_grows, lemma_page_order,
    ones_below, page_bit, pages_set, total_len, MemoryRange, SnapshotMemoryLayout,
};

verus! {

/// A bitmap is determined by its length and its bits: together they leave no byte open.
pub proof fn bits_determine_bitmap(a: Seq<u8>, b: Seq<u8>)
    requires
        a.len() == b.len(),
        forall|page: int| #[trigger] page_bit(a, page) == page_bit(b, page),
    ensures
        a == b,
{
    assert forall|i: int| 0 <= i < a.len() implies a[i] == b[i] by {
        let x = a[i];
        let y = b[i];
        assert forall|k: int| 0 <= k < 8 implies bit(x, k) == bit(y, k) by {
            assert((8 * i + k) / 8 == i && (8 * i + k) % 8 == k);
            assert(page_bit(a, 8 * i + k) == page_bit(b, 8 * i + k));
        }
        assert(bit(x, 0) == bit(y, 0) && bit(x, 1) == bit(y, 1) && bit(x, 2) == bit(y, 2)
            && bit(x, 3) == bit(y, 3) && bit(x, 4) == bit(y, 4) && bit(x, 5) == bit(y, 5)
            && bit(x, 6) == bit(y, 6) && bit(x, 7) == bit(y, 7));
        assert(x == y) by (bit_vector)
            requires
                (x & (1u8 << 0) != 0) == (y & (1u8 << 0) != 0),
                (x & (1u8 << 1) != 0) == (y & (1u8 << 1) != 0),
                (x & (1u8 << 2) != 0) == (y & (1u8 << 2) != 0),
                (x & (1u8 << 3) != 0) == (y & (1u8 << 3) != 0),
                (x & (1u8 << 4) != 0) == (y & (1u8 << 4) != 0),
                (x & (1u8 << 5) != 0) == (y & (1u8 << 5) != 0),
                (x & (1u8 << 6) != 0) == (y & (1u8 << 6) != 0),
                (x & (1u8 << 7) != 0) == (y & (1u8 << 7) != 0),
        ;
    }
    assert(a =~= b);
}

/// In which order ranges are set makes no difference.
pub proof fn ranges_may_be_set_in_any_order(
    before: Seq<u8>,
    a: (int, int),
    b: (int, int),
    with_a: Seq<u8>,
    with_a_and_b: Seq<u8>,
    with_b: Seq<u8>,
    with_b_and_a: Seq<u8>,
)
    requires
        pages_set(before, with_a, a.0, a.1),
        pages_set(with_a, with_a_and_b, b.0, b.1),
        pages_set(before, with_b, b.0, b.1),
        pages_set(with_b, with_b_and_a, a.0, a.1),
    ensures
        with_a_and_b == with_b_and_a,
{
    assert forall|page: int| #[trigger] page_bit(with_a_and_b, page) == page_bit(
        with_b_and_a,
        page,
    ) by {
        assert(page_bit(with_a, page) == (page_bit(before, page) || a.0 <= page < a.1));
        assert(page_bit(with_b, page) == (page_bit(before, page) || b.0 <= page < b.1));
    }
    bits_determine_bitmap(with_a_and_b, with_b_and_a);
}

/// Setting a range again changes nothing.
pub proof fn setting_a_range_again_changes_nothing(
    before: Seq<u8>,
    once: Seq<u8>,
    twice: Seq<u8>,
    first: int,
    last: int,
)
    requires
        pages_set(before, once, first, last),
        pages_set(once, twice, first, last),
    ensures
        once == twice,
{
    assert forall|page: int| #[trigger] page_bit(once, page) == page_bit(twice, page) by {}
    bits_determine_bitmap(once, twice);
}

/// Setting two aligned ranges of which the second starts where the first ends is setting both as
/// one.
pub proof fn adjacent_ranges_may_be_set_as_one(
    before: Seq<u8>,
    with_first: Seq<u8>,
    with_both: Seq<u8>,
    as_one: Seq<u8>,
    page_size: int,
    offset: int,
    a: int,
    b: int,
)
    requires
        page_size > 0,
        0 <= offset,
        0 <= a,
        0 <= b,
        offset % page_size == 0,
        a % page_size == 0,
        b % page_size == 0,
        pages_set(before, with_first, offset / page_size, ceil_div(offset + a, page_size)),
        pages_set(
            with_first,
            with_both,
            (offset + a) / page_size,
            ceil_div(offset + a + b, page_size),
        ),
        pages_set(before, as_one, offset / page_size, ceil_div(offset + (a + b), page_size)),
    ensures
        with_both == as_one,
{
    lemma_ceil_div(offset + a, page_size);
    vstd::arithmetic::div_mod::lemma_div_is_ordered(offset, offset + a, page_size);
    vstd::arithmetic::div_mod::lemma_div_is_ordered(
        offset + a + page_size - 1,
        offset + a + b + page_size - 1,
        page_size,
    );
    assert((offset + a) % page_size == 0) by {
        lemma_sum_is_aligned(offset, a, page_size);
    }
    assert forall|page: int| #[trigger] page_bit(with_both, page) == page_bit(as_one, page) by {
        assert(page_bit(with_first, page) == (page_bit(before, page) || offset / page_size <= page
            < ceil_div(offset + a, page_size)));
    }
    bits_determine_bitmap(with_both, as_one);
}

/// Sums of multiples are multiples.
proof fn lemma_sum_is_aligned(x: int, y: int, size: int)
    requires
        size > 0,
        x % size == 0,
        y % size == 0,
    ensures
        (x + y) % size == 0,
        (x - y) % size == 0,
{
    vstd::arithmetic::div_mod::lemma_fundamental_div_mod(x, size);
    vstd::arithmetic::div_mod::lemma_fundamental_div_mod(y, size);
    let a = x / size;
    let b = y / size;
    assert(x + y == (a + b) * size + 0) by (nonlinear_arith)
        requires
            x == size * a,
            y == size * b,
    ;
    assert(x - y == (a - b) * size + 0) by (nonlinear_arith)
        requires
            x == size * a,
            y == size * b,
    ;
    vstd::arithmetic::div_mod::lemma_fundamental_div_mod_converse(x + y, size, a + b, 0);
    vstd::arithmetic::div_mod::lemma_fundamental_div_mod_converse(x - y, size, a - b, 0);
}

/// The page at offset `(8 * i + b) * page_size` of a diff layout is bit `b` of byte `i`, the least
/// significant bit first.
pub proof fn byte_and_bit_of_a_page(layout: SnapshotMemoryLayout, i: int, b: int)
    requires
        layout.page_size > 0,
        layout.pages is Some,
        0 <= i < layout.pages->0@.len(),
        0 <= b < 8,
    ensures
        layout.is_set((8 * i + b) * layout.page_size) == bit(layout.pages->0@[i], b),
{
    lemma_page_of_start(8 * i + b, layout.page_size as int);
    assert((8 * i + b) / 8 == i && (8 * i + b) % 8 == b);
}

/// Page `n` starts at offset `n * size`.
proof fn lemma_page_of_start(n: int, size: int)
    requires
        size > 0,
    ensures
        (n * size) / size == n,
{
    vstd::arithmetic::div_mod::lemma_div_multiples_vanish(n, size);
    assert(n * size == size * n) by (nonlinear_arith);
}

/// The 64-bit word that eight bytes of a bitmap make when read little-endian.
pub open spec fn word(pages: Seq<u8>, w: int) -> u64 {
    (pages[8 * w] as u64) | ((pages[8 * w + 1] as u64) << 8) | ((pages[8 * w + 2] as u64) << 16) | ((
    pages[8 * w + 3] as u64) << 24) | ((pages[8 * w + 4] as u64) << 32) | ((pages[8 * w + 5] as u64)
        << 40) | ((pages[8 * w + 6] as u64) << 48) | ((pages[8 * w + 7] as u64) << 56)
}

/// Read little-endian, a bitmap is an array of 64-bit words in which bit `j` of word `w` is page
/// `64 * w + j`.
pub proof fn bitmap_as_words(pages: Seq<u8>, w: int, j: int)
    requires
        0 <= w,
        8 * w + 8 <= pages.len(),
        0 <= j < 64,
    ensures
        page_bit(pages, 64 * w + j) == (word(pages, w) & (1u64 << (j as u64)) != 0),
{
    let p = 64 * w + j;
    assert(p / 8 == 8 * w + j / 8 && p % 8 == j % 8);
    let b0 = pages[8 * w];
    let b1 = pages[8 * w + 1];
    let b2 = pages[8 * w + 2];
    let b3 = pages[8 * w + 3];
    let b4 = pages[8 * w + 4];
    let b5 = pages[8 * w + 5];
    let b6 = pages[8 * w + 6];
    let b7 = pages[8 * w + 7];
    let k = j as u64;
    let c = (j % 8) as u8;
    let x = word(pages, w);
    let byte = pages[p / 8];
    assert(byte == if j < 8 { b0 } else if j < 16 { b1 } else if j < 24 { b2 } else if j < 32 {
        b3
    } else if j < 40 { b4 } else if j < 48 { b5 } else if j < 56 { b6 } else { b7 });
    assert((x & (1u64 << k) != 0) == (byte & (1u8 << c) != 0)) by (bit_vector)
        requires
            k < 64,
            c as u64 == k % 8,
            x == (b0 as u64) | ((b1 as u64) << 8) | ((b2 as u64) << 16) | ((b3 as u64) << 24) | ((
            b4 as u64) << 32) | ((b5 as u64) << 40) | ((b6 as u64) << 48) | ((b7 as u64) << 56),
            byte == if k < 8 { b0 } else if k < 16 { b1 } else if k < 24 { b2 } else if k < 32 {
                b3
            } else if k < 40 { b4 } else if k < 48 { b5 } else if k < 56 { b6 } else { b7 },
    ;
}

/// Pages past the end of a diff layout's bitmap are clear.
pub proof fn pages_past_the_bitmap_are_clear(layout: SnapshotMemoryLayout, offset: int)
    requires
        layout.page_size > 0,
        layout.pages is Some,
        offset >= 8 * layout.pages->0@.len() * layout.page_size,
    ensures
        !layout.is_set(offset),
{
    let size = layout.page_size as int;
    let n = 8 * layout.pages->0@.len() as int;
    vstd::arithmetic::div_mod::lemma_fundamental_div_mod(offset, size);
    assert(size * n == n * size) by (nonlinear_arith);
    lemma_page_order(n, offset / size, offset % size, size);
}

/// A bitmap that covers the file up to `plugged_end` has a bit for every page below it, whatever
/// range of plugged memory is to be set.
pub proof fn bitmap_covers_plugged_memory(
    page_size: int,
    plugged_end: int,
    pages: Seq<u8>,
    end: int,
)
    requires
        page_size > 0,
        pages.len() == ceil_div(ceil_div(plugged_end, page_size), 8),
        0 <= end <= plugged_end,
    ensures
        ceil_div(end, page_size) <= 8 * pages.len(),
{
    vstd::arithmetic::div_mod::lemma_div_is_ordered(
        end + page_size - 1,
        plugged_end + page_size - 1,
        page_size,
    );
}

/// The length of a bitmap is what its pages and then its bytes are rounded up to, which is the
/// memory that it covers divided by what one of its bytes covers, rounded up once.
pub proof fn bitmap_length(page_size: int, plugged_end: int)
    requires
        page_size > 0,
        plugged_end >= 0,
    ensures
        ceil_div(ceil_div(plugged_end, page_size), 8) == ceil_div(plugged_end, 8 * page_size),
{
    let n = plugged_end + page_size - 1;
    vstd::arithmetic::div_mod::lemma_hoist_over_denominator(n, 7, page_size as nat);
    vstd::arithmetic::div_mod::lemma_div_denominator(n + 7 * page_size, page_size, 8);
    assert(page_size * 8 == 8 * page_size);
}

/// Whether a layout's ranges, and the memory file, are made of whole pages, and the ranges lie in
/// the file.
pub open spec fn page_aligned(layout: SnapshotMemoryLayout) -> bool {
    let size = layout.page_size as int;
    &&& size > 0
    &&& layout.total_size as int % size == 0
    &&& forall|i: int|
        0 <= i < layout.unplugged@.len() ==> {
            let range = #[trigger] layout.unplugged@[i];
            range.offset as int % size == 0 && range.len as int % size == 0 && range.end()
                <= layout.total_size
        }
}

/// Whether no two of `ranges` have a byte in common.
pub open spec fn disjoint(ranges: Seq<MemoryRange>) -> bool {
    forall|i: int, j: int, offset: int|
        0 <= i < j < ranges.len() && #[trigger] ranges[i].contains(offset)
            ==> !#[trigger] ranges[j].contains(offset)
}

/// Whether a layout's ranges are those of unplugged slots: page-aligned, sorted, no two of them
/// overlapping, and all of them in the memory file, which is itself made of whole pages.
pub open spec fn well_formed(layout: SnapshotMemoryLayout) -> bool {
    &&& page_aligned(layout)
    &&& forall|i: int, j: int|
        0 <= i < j < layout.unplugged@.len() ==> (#[trigger] layout.unplugged@[i]).end() <= (
        #[trigger] layout.unplugged@[j]).offset
}

/// Whether the byte at `offset` of the memory file belongs to an unplugged slot.
pub open spec fn is_unplugged(layout: SnapshotMemoryLayout, offset: int) -> bool {
    exists|i: int|
        0 <= i < layout.unplugged@.len() && (#[trigger] layout.unplugged@[i]).contains(offset)
}

/// The byte at `offset` of a memory file that held `base`, once every set page has been copied from
/// `memory` and every unplugged range has been zeroed.
pub open spec fn copied_byte(
    layout: SnapshotMemoryLayout,
    memory: spec_fn(int) -> u8,
    base: spec_fn(int) -> u8,
    offset: int,
) -> u8 {
    if is_unplugged(layout, offset) {
        0
    } else if layout.is_set(offset) {
        memory(offset)
    } else {
        base(offset)
    }
}

/// Merging a diff gives what a full snapshot gives, provided that no page outside the diff has
/// changed since `base` was taken: the file is the memory itself, with zeros where it is unplugged.
/// What the file held before does not matter to a full snapshot.
pub proof fn a_merged_diff_is_a_full_snapshot(
    full: SnapshotMemoryLayout,
    diff: SnapshotMemoryLayout,
    memory: spec_fn(int) -> u8,
    base: spec_fn(int) -> u8,
    before: spec_fn(int) -> u8,
    offset: int,
)
    requires
        full.pages is None,
        full.unplugged@ == diff.unplugged@,
        0 <= offset < full.total_size,
        !is_unplugged(diff, offset) && !diff.is_set(offset) ==> base(offset) == memory(offset),
    ensures
        copied_byte(diff, memory, base, offset) == copied_byte(full, memory, before, offset),
        copied_byte(full, memory, before, offset) == if is_unplugged(full, offset) {
            0
        } else {
            memory(offset)
        },
{
}

/// The number of pages to copy is the number of pages of the file that are set. For a full layout,
/// whose ranges may come in any order as long as no two overlap, those pages and the unplugged
/// ranges make up the file.
pub proof fn copied_pages_are_the_set_pages(layout: SnapshotMemoryLayout, n: int)
    requires
        layout.page_size > 0,
        match layout.pages {
            None => page_aligned(layout) && disjoint(layout.unplugged@) && n
                == layout.total_size as int / layout.page_size as int,
            Some(pages) => n >= 8 * pages@.len(),
        },
    ensures
        layout.set_below(n) == layout.copied_pages(),
        layout.pages is None ==> layout.copied_pages() * layout.page_size + total_len(
            layout.unplugged@,
        ) == layout.total_size && total_len(layout.unplugged@) <= layout.total_size,
{
    match layout.pages {
        None => {
            let size = layout.page_size as int;
            let total = layout.total_size as int;
            let ranges = layout.unplugged@;
            vstd::arithmetic::div_mod::lemma_fundamental_div_mod(total, size);
            lemma_free_below_is_set_below(layout, n);
            lemma_free_pages(ranges, size, n);
            lemma_total_pages(ranges, size);
            let unplugged = total_pages(ranges, size);
            assert(total - total_len(ranges) == size * (n - unplugged)) by (nonlinear_arith)
                requires
                    total == size * n,
                    total_len(ranges) == size * unplugged,
            ;
            lemma_page_of_start(n - unplugged, size);
            assert(size * (n - unplugged) == (n - unplugged) * size) by (nonlinear_arith);
            assert((n - unplugged) * size >= 0) by (nonlinear_arith)
                requires
                    n - unplugged >= 0,
                    size > 0,
            ;
        },
        Some(pages) => {
            lemma_set_below_is_ones_below(layout, n);
            lemma_ones_below_grows(pages@, 8 * pages@.len() as int, n);
        },
    }
}

proof fn lemma_set_below_is_ones_below(layout: SnapshotMemoryLayout, n: int)
    requires
        layout.page_size > 0,
        layout.pages is Some,
    ensures
        layout.set_below(n) == ones_below(layout.pages->0@, n),
    decreases n,
{
    if n > 0 {
        lemma_set_below_is_ones_below(layout, n - 1);
        lemma_page_of_start(n - 1, layout.page_size as int);
    }
}

/// Whether page `p` lies in none of `ranges`.
spec fn free(ranges: Seq<MemoryRange>, size: int, p: int) -> bool {
    forall|i: int| 0 <= i < ranges.len() ==> !(#[trigger] ranges[i]).contains(p * size)
}

/// How many of the first `n` pages lie in none of `ranges`.
spec fn free_below(ranges: Seq<MemoryRange>, size: int, n: int) -> int
    decreases n,
{
    if n <= 0 {
        0
    } else {
        free_below(ranges, size, n - 1) + if free(ranges, size, n - 1) { 1int } else { 0int }
    }
}

/// The pages that `ranges` consist of.
spec fn total_pages(ranges: Seq<MemoryRange>, size: int) -> int
    decreases ranges.len(),
{
    if ranges.len() == 0 {
        0
    } else {
        total_pages(ranges.drop_last(), size) + ranges.last().len as int / size
    }
}

proof fn lemma_total_pages(ranges: Seq<MemoryRange>, size: int)
    requires
        size > 0,
        forall|i: int|
            0 <= i < ranges.len() ==> (#[trigger] ranges[i]).len as int % size == 0,
    ensures
        total_len(ranges) == size * total_pages(ranges, size),
    decreases ranges.len(),
{
    if ranges.len() > 0 {
        lemma_total_pages(ranges.drop_last(), size);
        let last = ranges.last().len as int;
        assert(ranges[ranges.len() - 1].len as int % size == 0);
        vstd::arithmetic::div_mod::lemma_fundamental_div_mod(last, size);
        let before = total_pages(ranges.drop_last(), size);
        assert(size * (before + last / size) == size * before + size * (last / size))
            by (nonlinear_arith);
    } else {
        assert(size * 0 == 0) by (nonlinear_arith);
    }
}

proof fn lemma_free_below_is_set_below(layout: SnapshotMemoryLayout, n: int)
    requires
        layout.page_size > 0,
        layout.pages is None,
        n * layout.page_size <= layout.total_size,
    ensures
        layout.set_below(n) == free_below(layout.unplugged@, layout.page_size as int, n),
    decreases n,
{
    let size = layout.page_size as int;
    if n > 0 {
        assert((n - 1) * size == n * size - size) by (nonlinear_arith);
        assert((n - 1) * size >= 0) by (nonlinear_arith)
            requires
                n >= 1,
                size > 0,
        ;
        lemma_free_below_is_set_below(layout, n - 1);
    }
}

/// Disjoint and aligned ranges within the first `n` pages leave the others free.
proof fn lemma_free_pages(ranges: Seq<MemoryRange>, size: int, n: int)
    requires
        size > 0,
        n >= 0,
        forall|i: int|
            0 <= i < ranges.len() ==> {
                let range = #[trigger] ranges[i];
                range.offset as int % size == 0 && range.len as int % size == 0 && range.end()
                    <= size * n
            },
        disjoint(ranges),
    ensures
        free_below(ranges, size, n) == n - total_pages(ranges, size),
    decreases ranges.len(),
{
    if ranges.len() == 0 {
        lemma_all_free(ranges, size, n);
    } else {
        let shorter = ranges.drop_last();
        let last = ranges.last();
        assert(last == ranges[ranges.len() - 1]);
        assert(disjoint(shorter)) by {
            assert forall|i: int, j: int, offset: int|
                0 <= i < j < shorter.len() && #[trigger] shorter[i].contains(
                    offset,
                ) implies !#[trigger] shorter[j].contains(offset) by {
                assert(ranges[i].contains(offset));
                assert(!ranges[j].contains(offset));
            }
        }
        lemma_free_pages(shorter, size, n);
        let a = last.offset as int / size;
        let l = last.len as int / size;
        vstd::arithmetic::div_mod::lemma_fundamental_div_mod(last.offset as int, size);
        vstd::arithmetic::div_mod::lemma_fundamental_div_mod(last.len as int, size);
        assert(size * (a + l) == last.end()) by (nonlinear_arith)
            requires
                last.end() == last.offset + last.len,
                last.offset == size * a,
                last.len == size * l,
        ;
        lemma_page_order(a + l, n, 0, size);
        assert(a >= 0) by {
            vstd::arithmetic::div_mod::lemma_div_pos_is_pos(last.offset as int, size);
        }
        assert(l >= 0) by {
            vstd::arithmetic::div_mod::lemma_div_pos_is_pos(last.len as int, size);
        }
        lemma_one_range_more(ranges, size, a, l, n);
    }
}

proof fn lemma_all_free(ranges: Seq<MemoryRange>, size: int, n: int)
    requires
        ranges.len() == 0,
        n >= 0,
    ensures
        free_below(ranges, size, n) == n,
    decreases n,
{
    if n > 0 {
        lemma_all_free(ranges, size, n - 1);
    }
}

/// The last range takes its own pages from those that the ranges before it leave free.
proof fn lemma_one_range_more(ranges: Seq<MemoryRange>, size: int, a: int, l: int, n: int)
    requires
        size > 0,
        n >= 0,
        0 <= a,
        0 <= l,
        ranges.len() > 0,
        ranges.last().offset == size * a,
        ranges.last().end() == size * (a + l),
        disjoint(ranges),
    ensures
        free_below(ranges, size, n) == free_below(ranges.drop_last(), size, n) - (if n <= a {
            0int
        } else if n <= a + l {
            n - a
        } else {
            l
        }),
    decreases n,
{
    if n > 0 {
        lemma_one_range_more(ranges, size, a, l, n - 1);
        let p = n - 1;
        let shorter = ranges.drop_last();
        assert(p * size == size * p) by (nonlinear_arith);
        lemma_page_order(a, p, 0, size);
        lemma_page_order(a + l, p, 0, size);
        assert(ranges.last().contains(p * size) <==> a <= p < a + l);
        assert(free(ranges, size, p) == (free(shorter, size, p) && !(a <= p < a + l))) by {
            assert(forall|i: int| 0 <= i < shorter.len() ==> #[trigger] shorter[i] == ranges[i]);
            if free(ranges, size, p) {
                assert(!ranges[ranges.len() - 1].contains(p * size));
                assert forall|i: int| 0 <= i < shorter.len() implies !(
                #[trigger] shorter[i]).contains(p * size) by {
                    assert(!ranges[i].contains(p * size));
                }
            }
            if free(shorter, size, p) && !(a <= p < a + l) {
                assert forall|i: int| 0 <= i < ranges.len() implies !(
                #[trigger] ranges[i]).contains(p * size) by {
                    if i < shorter.len() {
                        assert(!shorter[i].contains(p * size));
                    }
                }
            }
        }
        if a <= p < a + l {
            assert(free(shorter, size, p)) by {
                assert forall|i: int| 0 <= i < shorter.len() implies !(
                #[trigger] shorter[i]).contains(p * size) by {
                    assert(ranges[ranges.len() - 1].contains(p * size));
                    if ranges[i].contains(p * size) {
                        assert(!ranges[ranges.len() - 1].contains(p * size));
                    }
                }
            }
        }
    }
}

/// The parts of the file between `from` and `to` that lie outside `ranges`, as starts and ends, in
/// their order.
pub open spec fn outside(from: int, to: int, ranges: Seq<MemoryRange>) -> Seq<(int, int)>
    decreases ranges.len(),
{
    if ranges.len() == 0 {
        if from < to {
            seq![(from, to)]
        } else {
            seq![]
        }
    } else {
        (if from < ranges[0].offset {
            seq![(from, ranges[0].offset as int)]
        } else {
            seq![]
        }) + outside(ranges[0].end(), to, ranges.skip(1))
    }
}

/// The plugged parts of the file of a layout.
pub open spec fn plugged(layout: SnapshotMemoryLayout) -> Seq<(int, int)> {
    outside(0, layout.total_size as int, layout.unplugged@)
}

/// Where the last plugged part of the file ends.
pub open spec fn plugged_end(layout: SnapshotMemoryLayout) -> int {
    if plugged(layout).len() == 0 {
        0
    } else {
        plugged(layout).last().1
    }
}

/// Whether `bitmaps` are what becomes of a clear bitmap that covers a layout's file up to its last
/// plugged part, as one plugged part after the other is set in it.
pub open spec fn sets_every_plugged_page(
    layout: SnapshotMemoryLayout,
    bitmaps: Seq<Seq<u8>>,
) -> bool {
    let size = layout.page_size as int;
    let parts = plugged(layout);
    &&& bitmaps.len() == parts.len() + 1
    &&& bitmaps[0].len() == ceil_div(ceil_div(plugged_end(layout), size), 8)
    &&& forall|page: int| !(#[trigger] page_bit(bitmaps[0], page))
    &&& forall|i: int|
        0 <= i < parts.len() ==> {
            let part = #[trigger] parts[i];
            pages_set(bitmaps[i], bitmaps[i + 1], part.0 / size, ceil_div(part.1, size))
        }
}

/// A full layout means the same as the diff layout in which every plugged page is set: the same
/// offsets are set in both, and as many pages. The bitmap covers every part that is set in it.
pub proof fn a_full_layout_is_the_diff_of_every_plugged_page(
    full: SnapshotMemoryLayout,
    diff: SnapshotMemoryLayout,
    bitmaps: Seq<Seq<u8>>,
)
    requires
        well_formed(full),
        full.pages is None,
        diff.page_size == full.page_size,
        diff.pages is Some,
        sets_every_plugged_page(full, bitmaps),
        diff.pages->0@ == bitmaps.last(),
    ensures
        forall|offset: int|
            offset >= 0 ==> #[trigger] full.is_set(offset) == diff.is_set(offset),
        full.copied_pages() == diff.copied_pages(),
        forall|i: int|
            0 <= i < plugged(full).len() ==> ceil_div(
                (#[trigger] plugged(full)[i]).1,
                full.page_size as int,
            ) <= 8 * bitmaps[0].len(),
{
    let size = full.page_size as int;
    let total = full.total_size as int;
    let parts = plugged(full);
    lemma_outside(0, total, full.unplugged@, size);
    assert forall|offset: int| offset >= 0 implies #[trigger] full.is_set(offset) == diff.is_set(
        offset,
    ) by {
        lemma_parts_are_set(full, bitmaps, parts.len() as int, offset);
        lemma_outside_is_free(0, total, full.unplugged@, offset);
    }
    let n = total / size;
    let m = if n > 8 * diff.pages->0@.len() { n } else { 8 * diff.pages->0@.len() as int };
    assert(disjoint(full.unplugged@)) by {
        let ranges = full.unplugged@;
        assert forall|i: int, j: int, offset: int|
            0 <= i < j < ranges.len() && #[trigger] ranges[i].contains(
                offset,
            ) implies !#[trigger] ranges[j].contains(offset) by {
            assert(ranges[i].end() <= ranges[j].offset);
        }
    }
    copied_pages_are_the_set_pages(full, n);
    copied_pages_are_the_set_pages(diff, m);
    lemma_nothing_is_set_past_the_file(full, n, m);
    lemma_same_pages_set(full, diff, m);
    assert forall|i: int| 0 <= i < parts.len() implies ceil_div(
        (#[trigger] parts[i]).1,
        size,
    ) <= 8 * bitmaps[0].len() by {
        bitmap_covers_plugged_memory(size, plugged_end(full), bitmaps[0], parts[i].1);
    }
}

/// The parts outside sorted, aligned ranges are aligned, not empty, and in order.
proof fn lemma_outside(from: int, to: int, ranges: Seq<MemoryRange>, size: int)
    requires
        size > 0,
        from >= 0,
        from % size == 0,
        to % size == 0,
        forall|i: int|
            0 <= i < ranges.len() ==> {
                let range = #[trigger] ranges[i];
                range.offset as int % size == 0 && range.len as int % size == 0 && from
                    <= range.offset && range.end() <= to
            },
        forall|i: int, j: int|
            0 <= i < j < ranges.len() ==> (#[trigger] ranges[i]).end() <= (
            #[trigger] ranges[j]).offset,
    ensures
        forall|i: int|
            0 <= i < outside(from, to, ranges).len() ==> {
                let part = #[trigger] outside(from, to, ranges)[i];
                &&& part.0 % size == 0
                &&& part.1 % size == 0
                &&& from <= part.0 < part.1 <= to
                &&& part.1 <= outside(from, to, ranges).last().1
            },
    decreases ranges.len(),
{
    if ranges.len() > 0 {
        let first = ranges[0];
        let rest = ranges.skip(1);
        lemma_sum_is_aligned(first.offset as int, first.len as int, size);
        assert forall|i: int| 0 <= i < rest.len() implies {
            let range = #[trigger] rest[i];
            range.offset as int % size == 0 && range.len as int % size == 0 && first.end()
                <= range.offset && range.end() <= to
        } by {
            assert(rest[i] == ranges[i + 1]);
        }
        lemma_outside(first.end(), to, rest, size);
        let later = outside(first.end(), to, rest);
        let all = outside(from, to, ranges);
        assert forall|i: int| 0 <= i < all.len() implies {
            let part = #[trigger] all[i];
            &&& part.0 % size == 0
            &&& part.1 % size == 0
            &&& from <= part.0 < part.1 <= to
            &&& part.1 <= all.last().1
        } by {
            let k = if from < first.offset { i - 1 } else { i };
            if later.len() > 0 {
                assert(all.last() == later.last());
                assert(later.last() == later[later.len() - 1]);
            }
            if k >= 0 {
                assert(all[i] == later[k]);
            }
        }
    }
}

/// An offset lies in a part outside the ranges exactly if it lies in the file and in no range.
proof fn lemma_outside_is_free(from: int, to: int, ranges: Seq<MemoryRange>, x: int)
    requires
        forall|i: int|
            0 <= i < ranges.len() ==> from <= (#[trigger] ranges[i]).offset && ranges[i].end()
                <= to,
        forall|i: int, j: int|
            0 <= i < j < ranges.len() ==> (#[trigger] ranges[i]).end() <= (
            #[trigger] ranges[j]).offset,
    ensures
        in_parts(outside(from, to, ranges), x) <==> from <= x < to && forall|i: int|
            0 <= i < ranges.len() ==> !(#[trigger] ranges[i]).contains(x),
    decreases ranges.len(),
{
    let all = outside(from, to, ranges);
    if ranges.len() == 0 {
        if from < to {
            assert(all[0] == (from, to));
        }
    } else {
        let first = ranges[0];
        let rest = ranges.skip(1);
        let later = outside(first.end(), to, rest);
        assert forall|i: int| 0 <= i < rest.len() implies first.end() <= (
        #[trigger] rest[i]).offset && rest[i].end() <= to by {
            assert(rest[i] == ranges[i + 1]);
        }
        lemma_outside_is_free(first.end(), to, rest, x);
        let k: int = if from < first.offset { 1 } else { 0 };
        assert(in_parts(all, x) <==> from <= x < first.offset || in_parts(later, x)) by {
            if in_parts(later, x) {
                let i = choose|i: int| 0 <= i < later.len() && in_part(#[trigger] later[i], x);
                assert(all[i + k] == later[i]);
            }
            if from <= x < first.offset {
                assert(all[0] == (from, first.offset as int));
            }
            if in_parts(all, x) {
                let i = choose|i: int| 0 <= i < all.len() && in_part(#[trigger] all[i], x);
                if i >= k {
                    assert(all[i] == later[i - k]);
                }
            }
        }
        assert((forall|i: int| 0 <= i < ranges.len() ==> !(#[trigger] ranges[i]).contains(x)) <==> (
        !first.contains(x) && forall|i: int|
            0 <= i < rest.len() ==> !(#[trigger] rest[i]).contains(x))) by {
            if forall|i: int| 0 <= i < ranges.len() ==> !(#[trigger] ranges[i]).contains(x) {
                assert(!ranges[0].contains(x));
                assert forall|i: int| 0 <= i < rest.len() implies !(
                #[trigger] rest[i]).contains(x) by {
                    assert(!ranges[i + 1].contains(x));
                }
            }
            if !first.contains(x) && forall|i: int|
                0 <= i < rest.len() ==> !(#[trigger] rest[i]).contains(x) {
                assert forall|i: int| 0 <= i < ranges.len() implies !(
                #[trigger] ranges[i]).contains(x) by {
                    if i > 0 {
                        assert(ranges[i] == rest[i - 1]);
                    }
                }
            }
        }
        if x < first.offset {
            assert forall|i: int| 0 <= i < rest.len() implies !(#[trigger] rest[i]).contains(
                x,
            ) by {}
        }
    }
}

/// Whether an offset lies in a part of the file.
spec fn in_part(part: (int, int), x: int) -> bool {
    part.0 <= x < part.1
}

/// Whether an offset lies in one of several parts of the file.
spec fn in_parts(parts: Seq<(int, int)>, x: int) -> bool {
    exists|i: int| 0 <= i < parts.len() && in_part(#[trigger] parts[i], x)
}

/// Once the first `k` plugged parts are set, the offsets in them are.
proof fn lemma_parts_are_set(
    full: SnapshotMemoryLayout,
    bitmaps: Seq<Seq<u8>>,
    k: int,
    offset: int,
)
    requires
        well_formed(full),
        sets_every_plugged_page(full, bitmaps),
        0 <= k <= plugged(full).len(),
        offset >= 0,
    ensures
        page_bit(bitmaps[k], offset / full.page_size as int) <==> in_parts(
            plugged(full).take(k),
            offset,
        ),
        k == plugged(full).len() ==> plugged(full).take(k) == plugged(full),
    decreases k,
{
    let size = full.page_size as int;
    let parts = plugged(full);
    assert(k == parts.len() ==> parts.take(k) =~= parts);
    if k > 0 {
        lemma_parts_are_set(full, bitmaps, k - 1, offset);
        let part = parts[k - 1];
        lemma_outside(0, full.total_size as int, full.unplugged@, size);
        lemma_sum_is_aligned(part.1, part.0, size);
        lemma_aligned_pages(part.0, part.1 - part.0, size, offset);
        let now = parts.take(k);
        let before = parts.take(k - 1);
        assert(pages_set(bitmaps[k - 1], bitmaps[k], part.0 / size, ceil_div(part.1, size)));
        assert(in_parts(now, offset) <==> in_parts(before, offset) || in_part(part, offset)) by {
            if in_parts(before, offset) {
                let i = choose|i: int|
                    0 <= i < before.len() && in_part(#[trigger] before[i], offset);
                assert(now[i] == before[i]);
            }
            if in_part(part, offset) {
                assert(now[k - 1] == part);
            }
            if in_parts(now, offset) {
                let i = choose|i: int| 0 <= i < now.len() && in_part(#[trigger] now[i], offset);
                if i < k - 1 {
                    assert(before[i] == now[i]);
                }
            }
        }
    }
}

/// A full layout has no page set past its file.
proof fn lemma_nothing_is_set_past_the_file(full: SnapshotMemoryLayout, n: int, m: int)
    requires
        full.page_size > 0,
        full.total_size as int % full.page_size as int == 0,
        full.pages is None,
        n == full.total_size as int / full.page_size as int,
        n <= m,
    ensures
        full.set_below(m) == full.set_below(n),
    decreases m,
{
    if n < m {
        let size = full.page_size as int;
        vstd::arithmetic::div_mod::lemma_fundamental_div_mod(full.total_size as int, size);
        vstd::arithmetic::div_mod::lemma_div_pos_is_pos(full.total_size as int, size);
        lemma_page_order(n, m - 1, 0, size);
        assert(size * (m - 1) == (m - 1) * size) by (nonlinear_arith);
        lemma_nothing_is_set_past_the_file(full, n, m - 1);
    }
}

/// Layouts in which the same offsets are set have as many pages set.
proof fn lemma_same_pages_set(a: SnapshotMemoryLayout, b: SnapshotMemoryLayout, n: int)
    requires
        a.page_size == b.page_size,
        forall|offset: int| offset >= 0 ==> #[trigger] a.is_set(offset) == b.is_set(offset),
    ensures
        a.set_below(n) == b.set_below(n),
    decreases n,
{
    if n > 0 {
        lemma_same_pages_set(a, b, n - 1);
        assert((n - 1) * a.page_size >= 0) by (nonlinear_arith)
            requires
                n >= 1,
                a.page_size >= 0,
        ;
        assert(a.is_set((n - 1) * a.page_size) == b.is_set((n - 1) * b.page_size));
    }
}

/// Rounding a quotient up gives the least number of units of `d` that make up at least `n`.
pub proof fn rounding_up_is_the_least_that_is_enough(n: int, d: int)
    requires
        n >= 0,
        d > 0,
    ensures
        n <= ceil_div(n, d) * d,
        (ceil_div(n, d) - 1) * d < n,
{
    lemma_ceil_div(n, d);
    vstd::arithmetic::div_mod::lemma_fundamental_div_mod(n, d);
    let q = n / d;
    let m = n % d;
    assert(q * d == d * q) by (nonlinear_arith);
    assert((q + 1) * d == q * d + d) by (nonlinear_arith);
    assert((q - 1) * d == q * d - d) by (nonlinear_arith);
}

/// A bitmap is just long enough: it has a bit for every page below the plugged end, and with a byte
/// less it would not.
pub proof fn a_bitmap_is_just_long_enough(page_size: int, plugged_end: int)
    requires
        page_size > 0,
        plugged_end >= 0,
    ensures
        ({
            let len = ceil_div(ceil_div(plugged_end, page_size), 8);
            &&& len >= 0
            &&& plugged_end <= 8 * len * page_size
            &&& len > 0 ==> 8 * (len - 1) * page_size < plugged_end
        }),
{
    let covered = ceil_div(plugged_end, page_size);
    rounding_up_is_the_least_that_is_enough(plugged_end, page_size);
    assert(covered >= 0) by (nonlinear_arith)
        requires
            plugged_end <= covered * page_size,
            plugged_end >= 0,
            page_size > 0,
    ;
    rounding_up_is_the_least_that_is_enough(covered, 8);
    let len = ceil_div(covered, 8);
    assert(covered * page_size <= 8 * len * page_size) by (nonlinear_arith)
        requires
            covered <= 8 * len,
            page_size > 0,
    ;
    if len > 0 {
        assert(8 * (len - 1) * page_size <= (covered - 1) * page_size) by (nonlinear_arith)
            requires
                8 * (len - 1) <= covered - 1,
                page_size > 0,
        ;
    }
}

/// A bit of a byte is a digit of its binary form.
pub proof fn a_bit_is_a_binary_digit(byte: u8, b: int)
    requires
        0 <= b < 8,
    ensures
        bit(byte, b) <==> (byte as int / vstd::arithmetic::power2::pow2(b as nat) as int) % 2 == 1,
{
    let k = b as u8;
    assert(byte & (1u8 << k) != 0 <==> (byte >> k) % 2 == 1) by (bit_vector)
        requires
            k < 8,
    ;
    vstd::bits::lemma_u8_shr_is_div(byte, k);
}

/// The bit of a page is the binary digit `page % 8` of the byte `page / 8`, and past the bitmap
/// there is none.
pub proof fn the_bit_of_a_page_is_a_binary_digit(pages: Seq<u8>, page: int)
    ensures
        page_bit(pages, page) <==> 0 <= page < 8 * pages.len() && (pages[page / 8] as int
            / vstd::arithmetic::power2::pow2((page % 8) as nat) as int) % 2 == 1,
{
    if 0 <= page < 8 * pages.len() {
        a_bit_is_a_binary_digit(pages[page / 8], page % 8);
    }
}

/// What it is for an offset to be set: in a full layout, that it lies in the file and in none of the
/// unplugged ranges; in a diff layout, that its page's bit is set.
pub proof fn what_is_to_be_copied(layout: SnapshotMemoryLayout, offset: int)
    requires
        layout.pages is Some ==> layout.page_size > 0,
    ensures
        layout.pages is None ==> (layout.is_set(offset) <==> 0 <= offset < layout.total_size && !(
        exists|i: int|
            0 <= i < layout.unplugged@.len() && (#[trigger] layout.unplugged@[i]).offset <= offset
                < layout.unplugged@[i].offset + layout.unplugged@[i].len)),
        layout.pages is Some && 0 <= offset ==> {
            let pages = layout.pages->0@;
            let page = offset / layout.page_size as int;
            layout.is_set(offset) <==> page / 8 < pages.len() && (pages[page / 8] as int
                / vstd::arithmetic::power2::pow2((page % 8) as nat) as int) % 2 == 1
        },
{
    if let Some(pages) = layout.pages {
        the_bit_of_a_page_is_a_binary_digit(pages@, offset / layout.page_size as int);
        if 0 <= offset {
            vstd::arithmetic::div_mod::lemma_div_pos_is_pos(offset, layout.page_size as int);
        }
    } else {
        if layout.is_set(offset) {
            assert forall|i: int| 0 <= i < layout.unplugged@.len() implies !((
            #[trigger] layout.unplugged@[i]).offset <= offset < layout.unplugged@[i].offset
                + layout.unplugged@[i].len) by {
                assert(!layout.unplugged@[i].contains(offset));
            }
        }
    }
}

/// Setting a range sets the pages that it reaches into, from where it starts to where it ends, and
/// leaves every other page and the length of the bitmap as they were.
pub proof fn a_range_sets_the_pages_it_reaches_into(
    before: Seq<u8>,
    after: Seq<u8>,
    page_size: int,
    offset: int,
    len: int,
    page: int,
)
    requires
        page_size > 0,
        offset >= 0,
        len >= 0,
        pages_set(before, after, offset / page_size, ceil_div(offset + len, page_size)),
    ensures
        after.len() == before.len(),
        page_bit(after, page) <==> page_bit(before, page) || page * page_size < offset + len && (
        page + 1) * page_size > offset,
{
    let first = offset / page_size;
    let last = ceil_div(offset + len, page_size);
    vstd::arithmetic::div_mod::lemma_fundamental_div_mod(offset, page_size);
    rounding_up_is_the_least_that_is_enough(offset + len, page_size);
    lemma_page_order(page + 1, first, offset % page_size, page_size);
    assert((page + 1) * page_size == page_size * (page + 1)) by (nonlinear_arith);
    assert(first <= page <==> (page + 1) * page_size > offset);
    assert(page < last <==> page * page_size < offset + len) by (nonlinear_arith)
        requires
            page_size > 0,
            offset + len <= last * page_size,
            (last - 1) * page_size < offset + len,
    ;
}

/// The bytes that ranges cover are added up, in whatever order they come.
pub proof fn lengths_are_added_up(ranges: Seq<MemoryRange>, more: Seq<MemoryRange>)
    ensures
        total_len(Seq::<MemoryRange>::empty()) == 0,
        ranges.len() == 1 ==> total_len(ranges) == ranges[0].len,
        total_len(ranges + more) == total_len(ranges) + total_len(more),
    decreases more.len(),
{
    if more.len() > 0 {
        lengths_are_added_up(ranges, more.drop_last());
        assert((ranges + more).drop_last() =~= ranges + more.drop_last());
        assert((ranges + more).last() == more.last());
    } else {
        assert(ranges + more =~= ranges);
    }
    if ranges.len() == 1 {
        assert(ranges.drop_last().len() == 0);
        assert(total_len(ranges.drop_last()) == 0);
    }
}

/// The pages to copy of a full layout are as many whole pages as the unplugged ranges leave of the
/// file.
pub proof fn a_full_layout_copies_the_whole_pages_left(layout: SnapshotMemoryLayout)
    requires
        layout.pages is None,
        layout.page_size > 0,
    ensures
        layout.copied_pages() * layout.page_size <= layout.total_size - total_len(
            layout.unplugged@,
        ) < (layout.copied_pages() + 1) * layout.page_size,
{
    let left = layout.total_size - total_len(layout.unplugged@);
    let size = layout.page_size as int;
    vstd::arithmetic::div_mod::lemma_fundamental_div_mod(left, size);
    let q = left / size;
    assert(q * size == size * q) by (nonlinear_arith);
    assert((q + 1) * size == q * size + size) by (nonlinear_arith);
}

/// The first `n` pages that are set, as a set.
pub open spec fn pages_to_copy(layout: SnapshotMemoryLayout, n: int) -> Set<int> {
    Set::new(|page: int| 0 <= page < n && layout.is_set(page * layout.page_size))
}

/// Counting the pages that are set is counting the elements of the set that they are.
pub proof fn pages_are_counted_once_each(layout: SnapshotMemoryLayout, n: int)
    ensures
        pages_to_copy(layout, n).finite(),
        pages_to_copy(layout, n).len() == layout.set_below(n),
    decreases n,
{
    let all = pages_to_copy(layout, n);
    if n <= 0 {
        assert(all =~= Set::empty());
    } else {
        pages_are_counted_once_each(layout, n - 1);
        let fewer = pages_to_copy(layout, n - 1);
        if layout.is_set((n - 1) * layout.page_size) {
            assert(all =~= fewer.insert(n - 1));
        } else {
            assert(all =~= fewer);
        }
    }
}

/// The pages to copy are counted right: of a diff layout they are the set bits of its bitmap, and of
/// a full layout whose ranges are page-aligned and do not overlap they are the pages of the file
/// that lie in none of them.
pub proof fn pages_to_copy_are_counted(layout: SnapshotMemoryLayout, n: int)
    requires
        layout.page_size > 0,
        match layout.pages {
            None => page_aligned(layout) && disjoint(layout.unplugged@) && n
                == layout.total_size as int / layout.page_size as int,
            Some(pages) => n >= 8 * pages@.len(),
        },
    ensures
        pages_to_copy(layout, n).finite(),
        layout.copied_pages() == pages_to_copy(layout, n).len(),
{
    pages_are_counted_once_each(layout, n);
    copied_pages_are_the_set_pages(layout, n);
}

} // verus!
