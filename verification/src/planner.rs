//! Chunk planner: splits a payload of known size into contiguous, disjoint
//! byte ranges whose union is exactly the whole payload.
use vstd::prelude::*;
use vstd::arithmetic::div_mod::{lemma_div_by_self, lemma_div_is_ordered, lemma_fundamental_div_mod};
use vstd::arithmetic::mul::lemma_mul_inequality;

verus! {

/// One contiguous byte interval `[start, end]`, inclusive at both ends.
#[derive(Clone, Copy, PartialEq, Eq, Structural, Debug)]
pub struct ByteRange {
    pub start: u64,
    pub end: u64,
}

/// How many ranges a plan for `total_size` bytes in at most `chunk_count`
/// pieces holds: `chunk_count`, except that no range may be empty, so a tiny
/// payload gets one range per byte; a zero size or count yields no plan.
pub open spec fn plan_len(total_size: u64, chunk_count: u32) -> int {
    if total_size == 0 || chunk_count == 0 {
        0
    } else if chunk_count as int <= total_size as int {
        chunk_count as int
    } else {
        total_size as int
    }
}

/// The size of every range but the last: the total divided evenly, rounded
/// down; the last range absorbs the remainder.
pub open spec fn chunk_base(total_size: u64, chunk_count: u32) -> int
    recommends
        plan_len(total_size, chunk_count) > 0,
{
    total_size as int / plan_len(total_size, chunk_count)
}

/// The `i`-th range of the plan.
pub open spec fn plan_range(total_size: u64, chunk_count: u32, i: int) -> ByteRange {
    let n = plan_len(total_size, chunk_count);
    let base = chunk_base(total_size, chunk_count);
    ByteRange {
        start: (i * base) as u64,
        end: if i == n - 1 {
            (total_size - 1) as u64
        } else {
            (i * base + base - 1) as u64
        },
    }
}

/// The whole plan, as a mathematical sequence.
pub open spec fn plan_seq(total_size: u64, chunk_count: u32) -> Seq<ByteRange> {
    Seq::new(plan_len(total_size, chunk_count) as nat, |i: int| plan_range(total_size, chunk_count, i))
}

/// Number of bytes a range covers.
pub open spec fn range_size(r: ByteRange) -> int {
    r.end - r.start + 1
}

/// Number of bytes a sequence of ranges covers in all.
pub open spec fn total_planned(s: Seq<ByteRange>) -> int
    decreases s.len(),
{
    if s.len() == 0 {
        0
    } else {
        total_planned(s.drop_last()) + range_size(s.last())
    }
}

/// Arithmetic facts every lemma below leans on: with `n` ranges planned over
/// a positive total, the even share `base` is at least one byte, `n` shares
/// fit in the total, and the remainder is smaller than `n`.
proof fn lemma_plan_arith(total_size: u64, chunk_count: u32)
    requires
        total_size > 0,
        chunk_count > 0,
    ensures
        1 <= plan_len(total_size, chunk_count) <= total_size as int,
        1 <= chunk_base(total_size, chunk_count),
        plan_len(total_size, chunk_count) * chunk_base(total_size, chunk_count) <= total_size as int,
        total_size as int - plan_len(total_size, chunk_count) * chunk_base(total_size, chunk_count)
            < plan_len(total_size, chunk_count),
{
    let n = plan_len(total_size, chunk_count);
    let t = total_size as int;
    assert(1 <= n <= t);
    lemma_div_by_self(n);
    lemma_div_is_ordered(n, t, n);
    let base = chunk_base(total_size, chunk_count);
    assert(1 <= base);
    lemma_fundamental_div_mod(t, n);
    assert(0 <= t % n < n) by (nonlinear_arith)
        requires n > 0;
    assert(t == n * base + t % n);
}

/// The shape of the plan for any positive size and count: the first range
/// starts at byte zero, the last ends at the last byte, every range is
/// nonempty and lies inside the payload, and each range starts right after
/// the one before it ends.
pub proof fn lemma_plan_shape(total_size: u64, chunk_count: u32)
    requires
        total_size > 0,
        chunk_count > 0,
    ensures
        ({
            let s = plan_seq(total_size, chunk_count);
            &&& s.len() == plan_len(total_size, chunk_count)
            &&& s.len() >= 1
            &&& s[0].start == 0
            &&& s[s.len() - 1].end == total_size - 1
            &&& forall|i: int| 0 <= i < s.len() ==> (#[trigger] s[i]).start <= s[i].end < total_size
            &&& forall|i: int| 1 <= i < s.len() ==> (#[trigger] s[i]).start == s[i - 1].end + 1
            &&& forall|i: int|
                0 <= i < s.len() ==> (#[trigger] s[i]).start
                    == i * chunk_base(total_size, chunk_count)
        }),
{
    lemma_plan_arith(total_size, chunk_count);
    let s = plan_seq(total_size, chunk_count);
    let n = plan_len(total_size, chunk_count);
    let base = chunk_base(total_size, chunk_count);
    let t = total_size as int;
    assert forall|i: int| 0 <= i < s.len() implies (#[trigger] s[i]).start
        == i * chunk_base(total_size, chunk_count) by {
        assert(0 <= i * base && i * base + base <= n * base) by (nonlinear_arith)
            requires 0 <= i, i + 1 <= n, base >= 1;
        assert(i * base <= t <= u64::MAX);
        assert(s[i].start == i * base);
    }
    assert forall|i: int| 0 <= i < s.len() implies (#[trigger] s[i]).start <= s[i].end
        < total_size by {
        assert(0 <= i * base && i * base + base <= n * base) by (nonlinear_arith)
            requires 0 <= i, i + 1 <= n, base >= 1;
        assert(i * base + base <= n * base <= t);
        if i == n - 1 {
            assert(s[i].start == i * base <= t - base <= t - 1);
            assert(s[i].end == t - 1);
        } else {
            assert(s[i].end == i * base + base - 1);
        }
    }
    assert forall|i: int| 1 <= i < s.len() implies (#[trigger] s[i]).start == s[i - 1].end
        + 1 by {
        assert(0 <= i * base && i * base + base <= n * base) by (nonlinear_arith)
            requires 0 <= i, i + 1 <= n, base >= 1;
        assert(i * base + base <= n * base <= t);
        assert((i - 1) * base + base == i * base) by (nonlinear_arith);
        if i - 1 == n - 1 {
        } else {
            assert(s[i - 1].end == (i - 1) * base + base - 1);
        }
        assert(s[i].start == i * base);
    }
    assert(s[0].start == 0 * base == 0);
    assert(s[n - 1].end == t - 1);
}

/// The planner's ranges are pairwise disjoint: an earlier range ends strictly
/// before a later one starts.
pub proof fn lemma_plan_disjoint(total_size: u64, chunk_count: u32)
    requires
        total_size > 0,
        chunk_count > 0,
    ensures
        ({
            let s = plan_seq(total_size, chunk_count);
            forall|i: int, j: int|
                0 <= i < j < s.len() ==> (#[trigger] s[i]).end < (#[trigger] s[j]).start
        }),
{
    lemma_plan_arith(total_size, chunk_count);
    lemma_plan_shape(total_size, chunk_count);
    let s = plan_seq(total_size, chunk_count);
    let n = plan_len(total_size, chunk_count);
    let base = chunk_base(total_size, chunk_count);
    let t = total_size as int;
    assert forall|i: int, j: int| 0 <= i < j < s.len() implies (#[trigger] s[i]).end
        < (#[trigger] s[j]).start by {
        assert(s[j].start == j * base);
        assert(s[i + 1].start == (i + 1) * base);
        assert(s[i].end + 1 == s[i + 1].start);
        assert((i + 1) * base <= j * base) by (nonlinear_arith)
            requires i + 1 <= j, base >= 0;
    }
}

/// Whether byte position `b` falls inside some range of `s`.
pub open spec fn covered(s: Seq<ByteRange>, b: u64) -> bool {
    exists|i: int| 0 <= i < s.len() && (#[trigger] s[i]).start <= b <= s[i].end
}

/// The planner's ranges cover the payload: every byte position below the
/// total falls inside some range.
pub proof fn lemma_plan_covers(total_size: u64, chunk_count: u32)
    requires
        total_size > 0,
        chunk_count > 0,
    ensures
        forall|b: u64| b < total_size ==> #[trigger] covered(plan_seq(total_size, chunk_count), b),
{
    lemma_plan_arith(total_size, chunk_count);
    lemma_plan_shape(total_size, chunk_count);
    let s = plan_seq(total_size, chunk_count);
    let n = plan_len(total_size, chunk_count);
    let base = chunk_base(total_size, chunk_count);
    let t = total_size as int;
    assert forall|b: u64| b < total_size implies #[trigger] covered(s, b) by {
        let bv = b as int;
        let q = bv / base;
        lemma_fundamental_div_mod(bv, base);
        assert(0 <= bv % base < base) by (nonlinear_arith)
            requires base > 0;
        assert(q * base <= bv < q * base + base) by (nonlinear_arith)
            requires base > 0, bv == base * q + bv % base, 0 <= bv % base < base;
        assert(q >= 0) by (nonlinear_arith)
            requires q * base <= bv, bv < q * base + base, 0 <= bv, base >= 1;
        if q < n - 1 {
            assert(s[q].start == q * base);
            assert(s[q + 1].start == (q + 1) * base);
            assert(s[q].end + 1 == s[q + 1].start);
            assert((q + 1) * base == q * base + base) by (nonlinear_arith);
            assert(0 <= q < s.len() && s[q].start <= b <= s[q].end);
        } else {
            let w = n - 1;
            lemma_mul_inequality(w, q, base);
            assert(w * base <= q * base && q * base <= bv);
            assert(s[w].start == w * base);
            assert(s[w].end == t - 1);
            assert(0 <= w < s.len() && s[w].start <= b <= s[w].end);
        }
    }
}

/// Over any prefix of a contiguous plan starting at byte zero, the covered
/// byte count equals one past the last covered position.
proof fn lemma_contiguous_prefix_sum(s: Seq<ByteRange>, k: int)
    requires
        1 <= k <= s.len(),
        s[0].start == 0,
        forall|i: int| 0 <= i < s.len() ==> (#[trigger] s[i]).start <= s[i].end,
        forall|i: int| 1 <= i < s.len() ==> (#[trigger] s[i]).start == s[i - 1].end + 1,
    ensures
        total_planned(s.take(k)) == s[k - 1].end + 1,
    decreases k,
{
    if k == 1 {
        assert(s.take(1).drop_last() =~= Seq::<ByteRange>::empty());
        assert(s.take(1).last() == s[0]);
        assert(total_planned(Seq::<ByteRange>::empty()) == 0);
        assert(total_planned(s.take(1)) == range_size(s[0]));
    } else {
        lemma_contiguous_prefix_sum(s, k - 1);
        assert(s.take(k).drop_last() =~= s.take(k - 1));
        assert(s.take(k).last() == s[k - 1]);
        assert(total_planned(s.take(k)) == total_planned(s.take(k - 1)) + range_size(s[k - 1]));
        assert(s[k - 1].start == s[k - 2].end + 1);
    }
}

/// The plan accounts for every byte exactly once: the sizes of its ranges
/// sum to the total size.
pub proof fn lemma_plan_total(total_size: u64, chunk_count: u32)
    requires
        total_size > 0,
        chunk_count > 0,
    ensures
        total_planned(plan_seq(total_size, chunk_count)) == total_size,
{
    lemma_plan_shape(total_size, chunk_count);
    let s = plan_seq(total_size, chunk_count);
    lemma_contiguous_prefix_sum(s, s.len() as int);
    assert(s.take(s.len() as int) =~= s);
}

/// Splits `total_size` bytes into at most `chunk_count` contiguous ranges.
/// A zero size or count yields the empty plan: the caller must then use the
/// single-stream path.
pub fn plan(total_size: u64, chunk_count: u32) -> (r: Vec<ByteRange>)
    ensures
        r@ == plan_seq(total_size, chunk_count),
        r@.len() == plan_len(total_size, chunk_count),
{
    let mut r: Vec<ByteRange> = Vec::new();
    if total_size == 0 || chunk_count == 0 {
        assert(r@ =~= plan_seq(total_size, chunk_count));
        return r;
    }
    proof {
        lemma_plan_arith(total_size, chunk_count);
    }
    let n: u64 = if (chunk_count as u64) <= total_size {
        chunk_count as u64
    } else {
        total_size
    };
    let base: u64 = total_size / n;
    let mut i: u64 = 0;
    while i < n
        invariant
            n as int == plan_len(total_size, chunk_count),
            base as int == chunk_base(total_size, chunk_count),
            total_size > 0,
            chunk_count > 0,
            1 <= base,
            n as int * base as int <= total_size as int,
            0 <= i <= n,
            r@ =~= plan_seq(total_size, chunk_count).take(i as int),
        decreases n - i,
    {
        proof {
            assert(0 <= i as int * base as int && i as int * base as int + base as int
                <= n as int * base as int) by (nonlinear_arith)
                requires 0 <= i as int, i as int + 1 <= n as int, base as int >= 1;
        }
        let start: u64 = i * base;
        let end: u64 = if i == n - 1 {
            total_size - 1
        } else {
            start + base - 1
        };
        r.push(ByteRange { start, end });
        proof {
            assert(plan_range(total_size, chunk_count, i as int) == ByteRange { start, end });
            assert(r@ =~= plan_seq(total_size, chunk_count).take(i as int + 1));
        }
        i = i + 1;
    }
    proof {
        assert(r@ =~= plan_seq(total_size, chunk_count));
    }
    r
}

} // verus!
