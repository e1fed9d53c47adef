//! The partitioner: cuts the factors `1..=n` into contiguous ranges, one per
//! worker slot at most, from the top down.

use crate::math::{
    ceil_div, factorial, interval_product, lemma_ceil_div_is_least,
    lemma_factorial_is_interval_product, lemma_interval_product_split,
};
use crate::range::{all_valid, cover_count, ranges_product, Range};
use vstd::prelude::*;

verus! {

/// The chunk length for `n` factors on `slots` slots: `n / slots`, rounded
/// up.
pub open spec fn chunk_len(n: nat, slots: nat) -> nat
    recommends
        slots >= 1,
{
    ceil_div(n, slots)
}

/// The chunks that cover `1..=top`, from the top down: each holds `len`
/// factors, but for the last, which starts at `1` and holds what is left.
pub open spec fn chunks(top: u128, len: u128) -> Seq<Range>
    decreases top,
{
    if top == 0 || len == 0 {
        Seq::empty()
    } else if top <= len {
        seq![Range::Span { low: 1, high: top }]
    } else {
        seq![Range::Span { low: (top - len + 1) as u128, high: top }] + chunks(
            (top - len) as u128,
            len,
        )
    }
}

/// The chunk at place `i`, counted from the top, of the chunks of length
/// `len` that cover `1..=top`: the factors from `top - i * len` down, `len`
/// of them or as many as there are left above `0`.
pub open spec fn chunk_at(top: u128, len: u128, i: int) -> Range {
    let high = top - i * len;
    let low = if high > len {
        high - len + 1
    } else {
        1
    };
    Range::Span { low: low as u128, high: high as u128 }
}

/// The ranges that are dispatched for `n!` on `slots` slots: none for
/// `n <= 1`, else the chunks of length `chunk_len(n, slots)`.
pub open spec fn partition_of(n: u128, slots: usize) -> Seq<Range> {
    if n <= 1 {
        Seq::empty()
    } else {
        chunks(n, chunk_len(n as nat, slots as nat) as u128)
    }
}

/// Computes the chunk length for `n` factors on `slots` slots.
pub fn chunk_size(n: u128, slots: usize) -> (c: u128)
    requires
        slots >= 1,
    ensures
        c == chunk_len(n as nat, slots as nat),
{
    let p: u128 = slots as u128;
    let q: u128 = n / p;
    if n % p == 0 {
        q
    } else {
        proof {
            lemma_ceil_div_is_least(n as nat, slots as nat);
        }
        q + 1
    }
}

/// Cuts the factors of `n!` into the ranges to dispatch, for `slots` worker
/// slots. For `n <= 1` there is nothing to multiply and no range.
pub fn partition(n: u128, slots: usize) -> (ranges: Vec<Range>)
    requires
        slots >= 1,
    ensures
        ranges@ == partition_of(n, slots),
        ranges.len() <= slots,
        all_valid(ranges@),
{
    proof {
        law_partition_fits_slots(n, slots);
    }
    let mut ranges: Vec<Range> = Vec::new();
    if n <= 1 {
        return ranges;
    }
    let len: u128 = chunk_size(n, slots);
    proof {
        lemma_ceil_div_is_least(n as nat, slots as nat);
    }
    let mut top: u128 = n;
    while top > len
        invariant
            1 <= len,
            1 <= top <= n,
            ranges@ + chunks(top, len) == chunks(n, len),
        decreases top,
    {
        let low: u128 = top - len + 1;
        proof {
            let rest = chunks((top - len) as u128, len);
            let chunk = Range::Span { low, high: top };
            assert(ranges@.push(chunk) + rest == ranges@ + (seq![chunk] + rest));
        }
        ranges.push(Range::Span { low, high: top });
        top = top - len;
    }
    proof {
        let chunk = Range::Span { low: 1, high: top };
        assert(ranges@.push(chunk) == ranges@ + seq![chunk]);
    }
    ranges.push(Range::Span { low: 1, high: top });
    ranges
}

/// Every chunk is a span with bounds in order within `1..=top`, and holds
/// `len` factors at most.
pub proof fn lemma_chunks_valid(top: u128, len: u128)
    requires
        len >= 1,
    ensures
        forall|i: int|
            0 <= i < chunks(top, len).len() ==> {
                &&& (#[trigger] chunks(top, len)[i]) matches Range::Span { low, high }
                &&& 1 <= low <= high <= top
                &&& high - low + 1 <= len
            },
        all_valid(chunks(top, len)),
    decreases top,
{
    if top > len {
        lemma_chunks_valid((top - len) as u128, len);
    }
}

/// A later chunk lies wholly below an earlier one.
pub proof fn lemma_chunks_descend(top: u128, len: u128, i: int, j: int)
    requires
        len >= 1,
        0 <= i < j < chunks(top, len).len(),
    ensures
        chunks(top, len)[i] matches Range::Span { low, high },
        chunks(top, len)[j] matches Range::Span { low, high },
        chunks(top, len)[j]->high < chunks(top, len)[i]->low,
    decreases top,
{
    let below = (top - len) as u128;
    let rest = chunks(below, len);
    assert(chunks(top, len)[j] == rest[j - 1]);
    if i == 0 {
        lemma_chunks_valid(below, len);
    } else {
        assert(chunks(top, len)[i] == rest[i - 1]);
        lemma_chunks_descend(below, len, i - 1, j - 1);
    }
}

/// The number of chunks is `top / len`, rounded up.
pub proof fn lemma_chunks_count(top: u128, len: u128)
    requires
        top >= 1,
        len >= 1,
    ensures
        chunks(top, len).len() == ceil_div(top as nat, len as nat),
        (chunks(top, len).len() - 1) * len < top <= chunks(top, len).len() * len,
    decreases top,
{
    let count = chunks(top, len).len();
    if top > len {
        let rest = chunks((top - len) as u128, len);
        lemma_chunks_count((top - len) as u128, len);
        assert(rest.len() * len == (rest.len() - 1) * len + len && (rest.len() + 1) * len
            == rest.len() * len + len) by (nonlinear_arith);
    } else {
        assert(0 * len == 0 && 1 * len == len) by (nonlinear_arith);
    }
    let ceiling = ceil_div(top as nat, len as nat);
    lemma_ceil_div_is_least(top as nat, len as nat);
    assert(count == ceiling) by (nonlinear_arith)
        requires
            (count - 1) * len < top <= count * len,
            (ceiling - 1) * len < top <= ceiling * len,
            len >= 1,
    ;
}

/// The chunk at place `i`, counted from the top: it ends `i` chunk lengths
/// below `top`, and starts one chunk length lower or at `1`.
pub proof fn lemma_chunk_at(top: u128, len: u128, i: int)
    requires
        len >= 1,
        0 <= i < chunks(top, len).len(),
    ensures
        chunks(top, len)[i] == chunk_at(top, len, i),
        i * len < top,
    decreases top,
{
    if i == 0 {
        assert(0 * len == 0 && 1 * len == len) by (nonlinear_arith);
    } else {
        let below = (top - len) as u128;
        assert(chunks(top, len)[i] == chunks(below, len)[i - 1]);
        lemma_chunk_at(below, len, i - 1);
        assert((i - 1) * len + len == i * len && i * len + len == (i + 1) * len)
            by (nonlinear_arith);
    }
}

/// Each of `1..=top` is a factor of exactly one chunk, and nothing else is
/// a factor of any.
pub proof fn lemma_chunks_cover(top: u128, len: u128, x: int)
    requires
        top >= 1,
        len >= 1,
    ensures
        cover_count(chunks(top, len), x) == if 1 <= x <= top {
            1nat
        } else {
            0nat
        },
    decreases top,
{
    let all = chunks(top, len);
    if top > len {
        let rest = chunks((top - len) as u128, len);
        lemma_chunks_cover((top - len) as u128, len, x);
        assert(all.drop_first() =~= rest);
    } else {
        assert(all.drop_first() =~= Seq::<Range>::empty());
        assert(cover_count(all.drop_first(), x) == 0);
    }
}

/// The products of the chunks multiply to the product of `1..=top`.
pub proof fn lemma_chunks_product(top: u128, len: u128)
    requires
        top >= 1,
        len >= 1,
    ensures
        ranges_product(chunks(top, len)) == interval_product(1, top as nat),
    decreases top,
{
    let all = chunks(top, len);
    if top > len {
        let below = (top - len) as u128;
        let rest = chunks(below, len);
        lemma_chunks_product(below, len);
        assert(all.drop_first() =~= rest);
        lemma_interval_product_split(1, below as nat, top as nat);
        assert(all.first().product() * ranges_product(rest) == ranges_product(rest)
            * all.first().product()) by (nonlinear_arith);
    } else {
        assert(all.drop_first() =~= Seq::<Range>::empty());
        assert(ranges_product(all.drop_first()) == 1);
        assert(all.first().product() * 1 == all.first().product()) by (nonlinear_arith);
    }
}

/// Coverage: for `n >= 2`, each of `1..=n` is a factor of exactly one
/// dispatched range, and no other number is a factor of any.
pub proof fn law_partition_covers(n: u128, slots: usize, x: int)
    requires
        n >= 2,
        slots >= 1,
    ensures
        cover_count(partition_of(n, slots), x) == if 1 <= x <= n {
            1nat
        } else {
            0nat
        },
{
    lemma_ceil_div_is_least(n as nat, slots as nat);
    lemma_chunks_cover(n, chunk_len(n as nat, slots as nat) as u128, x);
}

/// The dispatched ranges are valid spans of one factor at least and of one
/// chunk length at most, and there are no more of them than worker slots.
pub proof fn law_partition_fits_slots(n: u128, slots: usize)
    requires
        slots >= 1,
    ensures
        partition_of(n, slots).len() <= slots,
        all_valid(partition_of(n, slots)),
        forall|i: int|
            0 <= i < partition_of(n, slots).len() ==> {
                &&& (#[trigger] partition_of(n, slots)[i]) is Span
                &&& 1 <= partition_of(n, slots)[i].size() <= chunk_len(n as nat, slots as nat)
            },
{
    if n >= 2 {
        let len = chunk_len(n as nat, slots as nat);
        lemma_ceil_div_is_least(n as nat, slots as nat);
        lemma_chunks_valid(n, len as u128);
        lemma_chunks_count(n, len as u128);
        let count = chunks(n, len as u128).len();
        assert(count <= slots) by (nonlinear_arith)
            requires
                (count - 1) * len < n,
                len * slots >= n,
                len >= 1,
        ;
    }
}

/// The dispatched ranges in closed form, for `n >= 2`: with `len` the chunk
/// length, there are `n / len` of them, rounded up, and the one at place `i`
/// holds the factors from `n - i * len` down, `len` of them or, in the last,
/// what is left.
pub proof fn law_partition_closed_form(n: u128, slots: usize)
    requires
        n >= 2,
        slots >= 1,
    ensures
        ({
            let len = chunk_len(n as nat, slots as nat);
            &&& 1 <= len <= n
            &&& partition_of(n, slots).len() == ceil_div(n as nat, len)
            &&& forall|i: int|
                0 <= i < partition_of(n, slots).len() ==> #[trigger] partition_of(n, slots)[i]
                    == chunk_at(n, len as u128, i)
        }),
{
    let len = chunk_len(n as nat, slots as nat);
    lemma_ceil_div_is_least(n as nat, slots as nat);
    lemma_chunks_count(n, len as u128);
    assert forall|i: int| 0 <= i < partition_of(n, slots).len() implies #[trigger] partition_of(
        n,
        slots,
    )[i] == chunk_at(n, len as u128, i) by {
        lemma_chunk_at(n, len as u128, i);
    }
}

/// No two dispatched ranges share a factor.
pub proof fn law_partition_disjoint(n: u128, slots: usize, i: int, j: int, x: int)
    requires
        slots >= 1,
        0 <= i < j < partition_of(n, slots).len(),
    ensures
        !(partition_of(n, slots)[i].contains(x) && partition_of(n, slots)[j].contains(x)),
{
    let len = chunk_len(n as nat, slots as nat) as u128;
    lemma_ceil_div_is_least(n as nat, slots as nat);
    lemma_chunks_descend(n, len, i, j);
}

/// The products of the dispatched ranges multiply to `n!`, for every `n`
/// and every number of slots.
pub proof fn law_partition_product(n: u128, slots: usize)
    requires
        slots >= 1,
    ensures
        ranges_product(partition_of(n, slots)) == factorial(n as nat),
{
    lemma_factorial_is_interval_product(n as nat);
    if n >= 2 {
        lemma_ceil_div_is_least(n as nat, slots as nat);
        lemma_chunks_product(n, chunk_len(n as nat, slots as nat) as u128);
    } else {
        reveal_with_fuel(factorial, 2);
    }
}

} // verus!
