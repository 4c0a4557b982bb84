use vstd::prelude::*;
use vstd::math::min;
use crate::post::Model;

verus! {

/// The zero-based page index for a requested 1-based `page` parameter:
/// default 1, floored at 1, minus one.
pub open spec fn page_index_spec(page: Option<u64>) -> int {
    let raw: int = match page {
        Some(v) => v as int,
        None => 1,
    };
    if raw < 1 {
        0
    } else {
        raw - 1
    }
}

/// The effective page size for a requested `per_page` parameter:
/// default 20, clamped into `[1, 100]`.
pub open spec fn per_page_spec(per_page: Option<u64>) -> int {
    let raw: int = match per_page {
        Some(v) => v as int,
        None => 20,
    };
    if raw < 1 {
        1
    } else if raw > 100 {
        100
    } else {
        raw
    }
}

/// Normalises the `page` query parameter to a zero-based page index.
pub fn page_index(page: Option<u64>) -> (r: u64)
    ensures
        r == page_index_spec(page),
{
    let raw = match page {
        Some(v) => v,
        None => 1,
    };
    if raw < 1 {
        0
    } else {
        raw - 1
    }
}

/// Normalises the `per_page` query parameter: default 20, clamped to `[1, 100]`.
pub fn per_page_clamped(per_page: Option<u64>) -> (r: u64)
    ensures
        r == per_page_spec(per_page),
        1 <= r <= 100,
{
    let raw = match per_page {
        Some(v) => v,
        None => 20,
    };
    if raw < 1 {
        1
    } else if raw > 100 {
        100
    } else {
        raw
    }
}

/// The slice of the ordered relation `s` that page `pidx` (zero-based) of
/// size `per` shows: rows `pidx * per` up to `pidx * per + per`, both ends
/// capped at the end of the relation. A page past the end is empty.
pub open spec fn page_of(s: Seq<Model>, pidx: int, per: int) -> Seq<Model>
    recommends
        0 <= pidx,
        1 <= per,
{
    let len = s.len() as int;
    s.subrange(min(pidx * per, len), min(pidx * per + per, len))
}

/// The concatenation of the first `n` pages of size `per`, in page order.
pub open spec fn pages_concat(s: Seq<Model>, per: int, n: nat) -> Seq<Model>
    recommends
        1 <= per,
    decreases n,
{
    if n == 0 {
        Seq::<Model>::empty()
    } else {
        pages_concat(s, per, (n - 1) as nat) + page_of(s, n - 1, per)
    }
}

/// The first `n` pages of size `per`, concatenated in page order, are exactly
/// the first `n * per` rows of the relation (all of it, once `n * per` passes
/// its length): consecutive pages neither overlap nor leave a gap.
pub proof fn lemma_pages_concat_prefix(s: Seq<Model>, per: int, n: nat)
    requires
        1 <= per,
    ensures
        pages_concat(s, per, n) == s.subrange(0, min(n as int * per, s.len() as int)),
    decreases n,
{
    let len = s.len() as int;
    if n == 0 {
        assert(s.subrange(0, min(0 * per, len)) =~= Seq::<Model>::empty());
    } else {
        let m = (n - 1) as nat;
        lemma_pages_concat_prefix(s, per, m);
        assert(m as int * per >= 0 && m as int * per + per == n as int * per) by (nonlinear_arith)
            requires
                per >= 1,
                n >= 1,
                m == n - 1,
        ;
        let a = m as int * per;
        let b = n as int * per;
        assert(pages_concat(s, per, n) == s.subrange(0, min(a, len)) + s.subrange(
            min(a, len),
            min(a + per, len),
        ));
        assert(s.subrange(0, min(a, len)) + s.subrange(min(a, len), min(b, len)) =~= s.subrange(
            0,
            min(b, len),
        ));
    }
}

/// Fetching every page of a fixed size `per` in `[1, 100]`, first page first,
/// and concatenating the results reconstructs the whole ordered relation,
/// with no gaps and no overlaps, as soon as `n` pages are enough to cover it.
pub proof fn lemma_pages_reconstruct(s: Seq<Model>, per: int, n: nat)
    requires
        1 <= per <= 100,
        s.len() <= n as int * per,
    ensures
        pages_concat(s, per, n) == s,
{
    lemma_pages_concat_prefix(s, per, n);
    assert(s.subrange(0, s.len() as int) =~= s);
}

} // verus!
