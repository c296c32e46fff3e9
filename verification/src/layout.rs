//! How much memory a ring takes.
//!
//! A ring occupies whole memory pages, because only whole pages can appear at
//! two addresses, and it must be a whole number of elements long, because the
//! element behind the last one is the first one again.
use core::mem::{align_of, size_of};
use vstd::arithmetic::div_mod::{
    lemma_div_is_ordered, lemma_fundamental_div_mod, lemma_mod_bound, lemma_mod_multiples_basic,
};
use vstd::arithmetic::mul::{
    lemma_mul_inequality, lemma_mul_is_commutative, lemma_mul_is_distributive_add_other_way,
};
use vstd::layout::layout_for_type_is_valid;
use vstd::prelude::*;

verus! {

/// The number of bytes of the pages that `bytes` bytes need.
pub open spec fn whole_pages(bytes: int, page_size: int) -> int {
    (bytes + page_size - 1) / page_size * page_size
}

/// A ring for at least `count` elements of `elem_size` bytes can be laid out on
/// pages of `page_size` bytes: there is something to lay out, elements fill the
/// pages exactly, and two copies of the pages can be addressed.
pub open spec fn ring_fits(count: int, elem_size: int, page_size: int) -> bool {
    &&& 0 < count
    &&& 0 < elem_size
    &&& 0 < page_size
    &&& whole_pages(elem_size * count, page_size) % elem_size == 0
    &&& 2 * whole_pages(elem_size * count, page_size) <= isize::MAX
}

/// How many elements a ring laid out for at least `count` elements has room for.
pub open spec fn ring_capacity(count: int, elem_size: int, page_size: int) -> int {
    whole_pages(elem_size * count, page_size) / elem_size
}

/// The pages of `bytes` bytes are the least number of whole pages that hold them.
pub proof fn law_whole_pages_are_least(bytes: int, page_size: int, pages: int)
    requires
        0 < page_size,
        bytes <= pages * page_size,
    ensures
        bytes <= whole_pages(bytes, page_size) < bytes + page_size,
        whole_pages(bytes, page_size) % page_size == 0,
        whole_pages(bytes, page_size) <= pages * page_size,
{
    let sum: int = bytes + page_size - 1;
    lemma_fundamental_div_mod(sum, page_size);
    lemma_mod_bound(sum, page_size);
    lemma_mul_is_commutative(page_size, sum / page_size);
    lemma_mod_multiples_basic(sum / page_size, page_size);
    if pages < sum / page_size {
        lemma_mul_inequality(pages + 1, sum / page_size, page_size);
        lemma_mul_is_distributive_add_other_way(page_size, pages, 1);
    } else {
        lemma_mul_inequality(sum / page_size, pages, page_size);
    }
}

/// A ring that fits has room for at least the requested elements, all of its
/// bytes belong to an element, and there is no smaller such ring of whole pages.
pub proof fn law_ring_has_room(count: int, elem_size: int, page_size: int)
    requires
        ring_fits(count, elem_size, page_size),
    ensures
        count <= ring_capacity(count, elem_size, page_size),
        ring_capacity(count, elem_size, page_size) * elem_size == whole_pages(
            elem_size * count,
            page_size,
        ),
        2 * ring_capacity(count, elem_size, page_size) <= isize::MAX,
        (ring_capacity(count, elem_size, page_size) * elem_size) % page_size == 0,
        forall|pages: int|
            count * elem_size <= #[trigger] (pages * page_size) ==> ring_capacity(
                count,
                elem_size,
                page_size,
            ) * elem_size <= pages * page_size,
{
    let bytes: int = elem_size * count;
    let rounded: int = whole_pages(bytes, page_size);
    let capacity: int = ring_capacity(count, elem_size, page_size);
    lemma_mul_is_commutative(elem_size, count);
    lemma_whole_pages_of_elements(count, elem_size, page_size);
    lemma_fundamental_div_mod(rounded, elem_size);
    lemma_mul_is_commutative(elem_size, capacity);
    if capacity < count {
        lemma_mul_inequality(capacity + 1, count, elem_size);
        lemma_mul_is_distributive_add_other_way(elem_size, capacity, 1);
    }
    assert(capacity <= capacity * elem_size) by (nonlinear_arith)
        requires
            0 < capacity,
            0 < elem_size,
    ;
    assert forall|pages: int| count * elem_size <= #[trigger] (pages * page_size) implies capacity
        * elem_size <= pages * page_size by {
        law_whole_pages_are_least(bytes, page_size, pages);
    }
}

/// A ring can be laid out exactly where the least number of pages that hold the
/// requested elements is a whole number of elements long, and two copies of
/// those pages can be addressed.
pub proof fn law_ring_fits_exactly(count: int, elem_size: int, page_size: int)
    requires
        0 < count,
        0 < elem_size,
        0 < page_size,
    ensures
        ring_fits(count, elem_size, page_size) <==> exists|pages: int|
            {
                &&& elem_size * count <= #[trigger] (pages * page_size) < elem_size * count
                    + page_size
                &&& (pages * page_size) % elem_size == 0
                &&& 2 * (pages * page_size) <= isize::MAX
            },
{
    let bytes: int = elem_size * count;
    let rounded: int = whole_pages(bytes, page_size);
    let least: int = (bytes + page_size - 1) / page_size;
    lemma_whole_pages_of_elements(count, elem_size, page_size);
    assert(rounded == least * page_size);
    assert forall|pages: int|
        bytes <= #[trigger] (pages * page_size) < bytes + page_size implies pages * page_size
        == rounded by {
        law_whole_pages_are_least(bytes, page_size, pages);
        if least < pages {
            lemma_mul_inequality(least + 1, pages, page_size);
            lemma_mul_is_distributive_add_other_way(page_size, least, 1);
        } else {
            lemma_mul_inequality(pages, least, page_size);
        }
    }
}

/// Nothing is laid out for no elements, for elements without a size, or on pages
/// without a size.
pub proof fn law_nothing_does_not_fit(count: int, elem_size: int, page_size: int)
    requires
        count <= 0 || elem_size <= 0 || page_size <= 0,
    ensures
        !ring_fits(count, elem_size, page_size),
{
}

/// Where elements fill a page, or an element fills whole pages, every number of
/// elements can be laid out that two copies can be addressed of.
pub proof fn law_matching_elements_fit(count: int, elem_size: int, page_size: int)
    requires
        0 < count,
        0 < elem_size,
        0 < page_size,
        page_size % elem_size == 0 || elem_size % page_size == 0,
        2 * (elem_size * count + page_size) <= isize::MAX,
    ensures
        ring_fits(count, elem_size, page_size),
        page_size % elem_size == 0 ==> ring_capacity(count, elem_size, page_size) < count
            + page_size / elem_size,
        elem_size % page_size == 0 ==> ring_capacity(count, elem_size, page_size) == count,
{
    let bytes: int = elem_size * count;
    let rounded: int = whole_pages(bytes, page_size);
    lemma_whole_pages_of_elements(count, elem_size, page_size);
    if page_size % elem_size == 0 {
        lemma_multiple_of_multiple(rounded, page_size, elem_size);
    }
    if elem_size % page_size == 0 {
        lemma_fundamental_div_mod(elem_size, page_size);
        let pages: int = elem_size / page_size * count;
        assert(bytes == pages * page_size) by (nonlinear_arith)
            requires
                bytes == elem_size * count,
                elem_size == page_size * (elem_size / page_size),
                pages == elem_size / page_size * count,
        ;
        law_whole_pages_are_least(bytes, page_size, pages);
        assert(rounded == bytes);
        lemma_mul_is_commutative(elem_size, count);
        lemma_mod_multiples_basic(count, elem_size);
    }
    law_ring_has_room(count, elem_size, page_size);
    let capacity: int = ring_capacity(count, elem_size, page_size);
    if elem_size % page_size == 0 && count < capacity {
        lemma_mul_inequality(count + 1, capacity, elem_size);
        lemma_mul_is_distributive_add_other_way(elem_size, count, 1);
    }
    if page_size % elem_size == 0 {
        lemma_fundamental_div_mod(page_size, elem_size);
        let more: int = page_size / elem_size;
        if count + more <= capacity {
            lemma_mul_inequality(count + more, capacity, elem_size);
            lemma_mul_is_distributive_add_other_way(elem_size, count, more);
            lemma_mul_is_commutative(elem_size, count);
            lemma_mul_is_commutative(elem_size, more);
        }
    }
}

/// The sizes of a ring.
pub struct RingLayout {
    /// The number of bytes of the ring, a multiple of the page size.
    pub byte_count: usize,
    /// The number of elements the ring has room for.
    pub capacity: usize,
    /// The number of positions at which those elements can be addressed.
    pub virt_capacity: usize,
}

impl RingLayout {
    /// Whether a ring for at least `count` elements of `elem_size` bytes can be
    /// laid out on pages of `page_size` bytes.
    pub fn fits(count: usize, elem_size: usize, page_size: usize) -> (fits: bool)
        ensures
            fits == ring_fits(count as int, elem_size as int, page_size as int),
    {
        if count == 0 || elem_size == 0 || page_size == 0 {
            return false;
        }
        let ghost bytes: int = elem_size * count;
        let ghost rounded: int = whole_pages(bytes, page_size as int);
        proof {
            lemma_whole_pages_of_elements(count as int, elem_size as int, page_size as int);
        }
        match elem_size.checked_mul(count) {
            None => false,
            Some(byte_size) => match byte_size.checked_add(page_size - 1) {
                None => false,
                Some(sum) => {
                    proof {
                        lemma_fundamental_div_mod(sum as int, page_size as int);
                        lemma_mul_is_commutative(page_size as int, sum as int / page_size as int);
                    }
                    let byte_count: usize = sum / page_size * page_size;
                    byte_count % elem_size == 0 && byte_count <= isize::MAX as usize / 2
                },
            },
        }
    }

    /// The layout of a ring for at least `count` elements of type `T` on pages
    /// of `page_size` bytes.
    pub fn of<T>(count: usize, page_size: usize) -> (layout: RingLayout)
        requires
            ring_fits(count as int, vstd::layout::size_of::<T>() as int, page_size as int),
        ensures
            layout.byte_count == whole_pages(
                vstd::layout::size_of::<T>() * count,
                page_size as int,
            ),
            layout.capacity == ring_capacity(
                count as int,
                vstd::layout::size_of::<T>() as int,
                page_size as int,
            ),
            layout.virt_capacity == 2 * layout.capacity,
            layout.capacity * vstd::layout::size_of::<T>() == layout.byte_count,
            layout.byte_count as int % page_size as int == 0,
            vstd::layout::size_of::<T>() * count <= layout.byte_count
                < vstd::layout::size_of::<T>() * count + page_size,
            0 < count <= layout.capacity,
            layout.byte_count as int % vstd::layout::align_of::<T>() as int == 0,
    {
        layout_for_type_is_valid::<T>();
        let elem_size: usize = size_of::<T>();
        let ghost bytes: int = elem_size * count;
        proof {
            lemma_whole_pages_of_elements(count as int, elem_size as int, page_size as int);
            law_ring_has_room(count as int, elem_size as int, page_size as int);
            lemma_multiple_of_multiple(
                whole_pages(bytes, page_size as int),
                elem_size as int,
                vstd::layout::align_of::<T>() as int,
            );
        }
        let byte_size: usize = elem_size * count;
        let page_count: usize = (byte_size + page_size - 1) / page_size;
        let byte_count: usize = page_count * page_size;
        let capacity: usize = byte_count / elem_size;
        RingLayout { byte_count, capacity, virt_capacity: capacity * 2 }
    }
}

/// The pages of at least one element hold its bytes, are less than one page
/// longer, and are at least one page.
proof fn lemma_whole_pages_of_elements(count: int, elem_size: int, page_size: int)
    requires
        0 < count,
        0 < elem_size,
        0 < page_size,
    ensures
        0 < elem_size * count <= whole_pages(elem_size * count, page_size) < elem_size * count
            + page_size,
        whole_pages(elem_size * count, page_size) % page_size == 0,
        page_size <= whole_pages(elem_size * count, page_size),
{
    let bytes: int = elem_size * count;
    assert(0 < bytes <= bytes * page_size) by (nonlinear_arith)
        requires
            bytes == elem_size * count,
            0 < elem_size,
            0 < count,
            0 < page_size,
    ;
    law_whole_pages_are_least(bytes, page_size, bytes);
    lemma_div_is_ordered(page_size, bytes + page_size - 1, page_size);
    assert(page_size / page_size == 1) by (nonlinear_arith)
        requires
            0 < page_size,
    ;
    lemma_mul_inequality(1, (bytes + page_size - 1) / page_size, page_size);
}

/// A multiple of a multiple of `c` is a multiple of `c`.
proof fn lemma_multiple_of_multiple(a: int, b: int, c: int)
    requires
        0 < b,
        0 < c,
        a % b == 0,
        b % c == 0,
    ensures
        a % c == 0,
{
    lemma_fundamental_div_mod(a, b);
    lemma_fundamental_div_mod(b, c);
    let turns: int = a / b * (b / c);
    assert(a == turns * c) by (nonlinear_arith)
        requires
            a == b * (a / b),
            b == c * (b / c),
            turns == a / b * (b / c),
    ;
    lemma_mod_multiples_basic(turns, c);
}

} // verus!
