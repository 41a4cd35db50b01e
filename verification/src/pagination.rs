//! Pagination over an ordered sequence: pages are 1-indexed, page 0 is an
//! alias of page 1, and a page number beyond the page count yields an empty
//! page rather than an error.
use vstd::prelude::*;
use vstd::arithmetic::div_mod::{
    lemma_fundamental_div_mod, lemma_hoist_over_denominator, lemma_mod_division_less_than_divisor,
};
use vstd::arithmetic::mul::lemma_mul_inequality;

verus! {

/// The number of pages that `len` items fill at `size` items per page.
pub open spec fn total_pages(len: int, size: int) -> int
    recommends
        size >= 1,
{
    (len + size - 1) / size
}

/// The start offset of a page. Pages are 1-indexed; page 0 is an alias of
/// page 1.
pub open spec fn page_start(page: int, size: int) -> int {
    if page <= 1 {
        0
    } else {
        (page - 1) * size
    }
}

/// The items of one page: empty beyond the page count, otherwise the window
/// of at most `size` items from the page's start offset.
pub open spec fn page_slice<A>(s: Seq<A>, page: int, size: int) -> Seq<A>
    recommends
        size >= 1,
{
    if page > total_pages(s.len() as int, size) {
        Seq::empty()
    } else {
        let start = page_start(page, size);
        let lo = if start <= s.len() {
            start
        } else {
            s.len() as int
        };
        let hi = if start + size <= s.len() {
            start + size
        } else {
            s.len() as int
        };
        if lo <= hi {
            s.subrange(lo, hi)
        } else {
            Seq::empty()
        }
    }
}

/// The ceiling form of the page count: none for no items, else one more page
/// for every started group of `size` items.
pub proof fn lemma_total_pages(len: int, size: int)
    requires
        0 <= len,
        1 <= size,
    ensures
        total_pages(len, size) == if len == 0 {
            0int
        } else {
            (len - 1) / size + 1
        },
        0 <= total_pages(len, size) <= len,
{
    if len == 0 {
        assert((size - 1) / size == 0) by {
            lemma_mod_division_less_than_divisor(size - 1, size);
            lemma_fundamental_div_mod(size - 1, size);
            if (size - 1) / size < 0 {
                lemma_mul_inequality((size - 1) / size, -1, size);
            }
            if (size - 1) / size > 0 {
                lemma_mul_inequality(1, (size - 1) / size, size);
            }
        }
    } else {
        lemma_hoist_over_denominator(len - 1, 1, size as nat);
        assert((len - 1) / size + 1 == (len - 1 + size) / size);
        lemma_fundamental_div_mod(len - 1, size);
        lemma_mod_division_less_than_divisor(len - 1, size);
        let q = (len - 1) / size;
        if q < 0 {
            lemma_mul_inequality(q, -1, size);
        }
        assert(q >= 0);
        if q > len - 1 {
            lemma_mul_inequality(1, q - (len - 1), size);
            lemma_mul_inequality(len - 1, q, size);
        }
        assert(size * q <= len - 1) by {
            if size * q > len - 1 {
                lemma_mod_division_less_than_divisor(len - 1, size);
            }
        }
        assert(q <= len - 1) by {
            if q > len - 1 {
                lemma_mul_inequality(len, q, size);
                assert(len * size >= len);
            }
        }
    }
}

/// Within the page count, a page's start offset stays inside the sequence.
pub proof fn lemma_page_start_in_range(len: int, size: int, page: int)
    requires
        1 <= size,
        0 <= len,
        page <= total_pages(len, size),
    ensures
        page_start(page, size) <= if len == 0 {
            0int
        } else {
            len - 1
        },
{
    lemma_total_pages(len, size);
    if page <= 1 {
    } else {
        let total = total_pages(len, size);
        assert(len >= 1);
        let q = (len - 1) / size;
        lemma_fundamental_div_mod(len - 1, size);
        lemma_mod_division_less_than_divisor(len - 1, size);
        if q < 0 {
            lemma_mul_inequality(q, -1, size);
        }
        assert(size * q <= len - 1);
        lemma_mul_inequality(page - 1, total - 1, size);
        assert((total - 1) * size == q * size);
        assert(q * size == size * q) by {
            vstd::arithmetic::mul::lemma_mul_is_commutative(q, size);
        }
    }
}

/// A page number beyond the page count yields an empty page, never an error.
pub proof fn lemma_page_beyond<A>(s: Seq<A>, page: int, size: int)
    requires
        size >= 1,
        page > total_pages(s.len() as int, size),
    ensures
        page_slice(s, page, size) == Seq::<A>::empty(),
{
}

/// Page 0 and page 1 hold exactly the same items.
pub proof fn lemma_page_zero_one<A>(s: Seq<A>, size: int)
    requires
        size >= 1,
    ensures
        page_slice(s, 0, size) == page_slice(s, 1, size),
{
    lemma_total_pages(s.len() as int, size);
    if s.len() == 0 {
        if total_pages(s.len() as int, size) >= 1 {
        } else {
            assert(page_slice(s, 1, size) == Seq::<A>::empty());
        }
        assert(page_slice(s, 0, size) =~= Seq::<A>::empty());
        assert(page_slice(s, 1, size) =~= Seq::<A>::empty());
    } else {
        assert(total_pages(s.len() as int, size) >= 1);
    }
}

} // verus!
