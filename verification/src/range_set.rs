use crate::error::Error;
use vstd::prelude::*;

verus! {

/// The members of the inclusive integer interval [a, b], in ascending order.
pub open spec fn interval_members(a: int, b: int) -> Seq<int>
    decreases b - a + 1,
{
    if b < a {
        Seq::<int>::empty()
    } else {
        seq![a] + interval_members(a + 1, b)
    }
}

/// The members of the first `n` intervals of the list, concatenated in order.
pub open spec fn members_upto(ivs: Seq<(usize, usize)>, n: int) -> Seq<int>
    decreases n,
{
    if n <= 0 {
        Seq::<int>::empty()
    } else {
        members_upto(ivs, n - 1) + interval_members(
            ivs[n - 1].0 as int,
            ivs[n - 1].1 as int,
        )
    }
}

/// A valid interval list: each interval non-empty, intervals strictly
/// ordered and disjoint, and the largest value below the machine maximum
/// (so that the member count itself fits in a machine word).
pub open spec fn intervals_wf(ivs: Seq<(usize, usize)>) -> bool {
    &&& forall|i: int| 0 <= i < ivs.len() ==> (#[trigger] ivs[i]).0 <= ivs[i].1
    &&& forall|i: int| 0 <= i && i + 1 < ivs.len() ==> (#[trigger] ivs[i]).1 < ivs[i + 1].0
    &&& (ivs.len() > 0 ==> ivs[ivs.len() - 1].1 < usize::MAX)
}

proof fn lemma_interval(a: int, b: int)
    ensures
        interval_members(a, b).len() == if b < a {
            0
        } else {
            b - a + 1
        },
        forall|k: int|
            0 <= k < interval_members(a, b).len() ==> #[trigger] interval_members(a, b)[k] == a
                + k,
    decreases b - a + 1,
{
    if b >= a {
        lemma_interval(a + 1, b);
    }
}

proof fn lemma_interval_contains(a: int, b: int, x: int)
    ensures
        interval_members(a, b).contains(x) <==> a <= x <= b,
    decreases b - a + 1,
{
    lemma_interval(a, b);
    if a <= x <= b {
        assert(interval_members(a, b)[x - a] == x);
    }
}

proof fn lemma_members_upto_agree(s: Seq<(usize, usize)>, t: Seq<(usize, usize)>, n: int)
    requires
        n <= s.len(),
        n <= t.len(),
        forall|i: int| 0 <= i < n ==> s[i] == t[i],
    ensures
        members_upto(s, n) == members_upto(t, n),
    decreases n,
{
    if n > 0 {
        lemma_members_upto_agree(s, t, n - 1);
    }
}

proof fn lemma_members_upto_len_monotonic(ivs: Seq<(usize, usize)>, m: int, n: int)
    requires
        m <= n,
    ensures
        members_upto(ivs, m).len() <= members_upto(ivs, n).len(),
    decreases n - m,
{
    if m < n {
        lemma_members_upto_len_monotonic(ivs, m, n - 1);
    }
}

/// The right ends of a valid interval list are strictly increasing.
proof fn lemma_ends_monotonic(ivs: Seq<(usize, usize)>, i: int, j: int)
    requires
        intervals_wf(ivs),
        0 <= i <= j < ivs.len(),
    ensures
        ivs[i].1 <= ivs[j].1,
    decreases j - i,
{
    if i < j {
        lemma_ends_monotonic(ivs, i + 1, j);
    }
}

/// Over a valid prefix, the member count stays below the right end plus one.
proof fn lemma_prefix_len_bound(ivs: Seq<(usize, usize)>, n: int)
    requires
        intervals_wf(ivs),
        0 <= n <= ivs.len(),
    ensures
        n == 0 ==> members_upto(ivs, n).len() == 0,
        n >= 1 ==> members_upto(ivs, n).len() <= ivs[n - 1].1 + 1,
    decreases n,
{
    if n >= 1 {
        lemma_prefix_len_bound(ivs, n - 1);
        lemma_interval(ivs[n - 1].0 as int, ivs[n - 1].1 as int);
    }
}

/// The member at a rank that falls inside interval `f`'s span is the
/// corresponding offset into interval `f`.
proof fn lemma_members_index(ivs: Seq<(usize, usize)>, n: int, f: int, r: int)
    requires
        0 <= f < n <= ivs.len(),
        members_upto(ivs, f).len() <= r < members_upto(ivs, f + 1).len(),
    ensures
        r < members_upto(ivs, n).len(),
        members_upto(ivs, n)[r] == ivs[f].0 + (r - members_upto(ivs, f).len()),
    decreases n,
{
    lemma_interval(ivs[f].0 as int, ivs[f].1 as int);
    if n - 1 == f {
    } else {
        lemma_members_index(ivs, n - 1, f, r);
    }
}

proof fn lemma_members_contains(ivs: Seq<(usize, usize)>, n: int, x: int)
    requires
        0 <= n <= ivs.len(),
    ensures
        members_upto(ivs, n).contains(x) <==> exists|i: int|
            0 <= i < n && (#[trigger] ivs[i]).0 <= x <= ivs[i].1,
    decreases n,
{
    if n > 0 {
        lemma_members_contains(ivs, n - 1, x);
        lemma_interval_contains(ivs[n - 1].0 as int, ivs[n - 1].1 as int, x);
        let prev = members_upto(ivs, n - 1);
        let iv = interval_members(ivs[n - 1].0 as int, ivs[n - 1].1 as int);
        assert(members_upto(ivs, n) == prev + iv);
        if members_upto(ivs, n).contains(x) {
            let k = choose|k: int| 0 <= k < (prev + iv).len() && (prev + iv)[k] == x;
            if k < prev.len() {
                assert(prev[k] == x);
                assert(prev.contains(x));
            } else {
                assert(iv[k - prev.len()] == x);
                assert(iv.contains(x));
            }
        }
        if prev.contains(x) {
            let k = choose|k: int| 0 <= k < prev.len() && prev[k] == x;
            assert((prev + iv)[k] == x);
            assert(members_upto(ivs, n).contains(x));
        }
        if iv.contains(x) {
            let k = choose|k: int| 0 <= k < iv.len() && iv[k] == x;
            assert((prev + iv)[prev.len() + k] == x);
            assert(members_upto(ivs, n).contains(x));
        }
    }
}

/// Every member of a valid prefix lies between the first left end and the
/// last right end.
proof fn lemma_members_bounds(ivs: Seq<(usize, usize)>, n: int)
    requires
        intervals_wf(ivs),
        0 <= n <= ivs.len(),
    ensures
        forall|r: int|
            0 <= r < members_upto(ivs, n).len() ==> 0 <= #[trigger] members_upto(ivs, n)[r]
                && (n >= 1 ==> members_upto(ivs, n)[r] <= ivs[n - 1].1),
    decreases n,
{
    if n > 0 {
        lemma_members_bounds(ivs, n - 1);
        lemma_interval(ivs[n - 1].0 as int, ivs[n - 1].1 as int);
        let prev = members_upto(ivs, n - 1);
        let iv = interval_members(ivs[n - 1].0 as int, ivs[n - 1].1 as int);
        assert(members_upto(ivs, n) == prev + iv);
        if n >= 2 {
            lemma_ends_monotonic(ivs, n - 2, n - 1);
        }
    }
}

/// An ordered, possibly non-contiguous set of SNP indices on the logical
/// SNP axis, stored as a list of non-empty, strictly ordered, disjoint
/// inclusive intervals.
pub struct SnpRangeSet {
    intervals: Vec<(usize, usize)>,
}

impl SnpRangeSet {
    pub closed spec fn ivs(self) -> Seq<(usize, usize)> {
        self.intervals@
    }

    pub closed spec fn wf(self) -> bool {
        intervals_wf(self.intervals@)
    }

    /// The members of the set, as an ascending mathematical sequence.
    pub closed spec fn members(self) -> Seq<int> {
        members_upto(self.intervals@, self.intervals@.len() as int)
    }

    /// Builds the set from caller-supplied inclusive intervals, which must
    /// be non-empty, strictly ordered and disjoint.
    pub fn from_slice(intervals: Vec<(usize, usize)>) -> (r: Result<SnpRangeSet, Error>)
        ensures
            r is Ok <==> intervals_wf(intervals@),
            r matches Ok(s) ==> s.wf() && s.members() == members_upto(
                intervals@,
                intervals@.len() as int,
            ),
            r is Err ==> r == Err::<SnpRangeSet, Error>(Error::InvalidIntervals),
    {
        let n = intervals.len();
        let mut i: usize = 0;
        while i < n
            invariant
                n == intervals@.len(),
                i <= n,
                forall|t: int| 0 <= t < i ==> (#[trigger] intervals@[t]).0 <= intervals@[t].1,
                forall|t: int| 0 <= t && t + 1 < n && t < i ==> (#[trigger] intervals@[t]).1
                    < intervals@[t + 1].0,
                forall|t: int| 0 <= t < i && t == n - 1 ==> (#[trigger] intervals@[t]).1
                    < usize::MAX,
            decreases n - i,
        {
            let (a, b) = intervals[i];
            if a > b {
                return Err(Error::InvalidIntervals);
            }
            if i + 1 < n {
                if b >= intervals[i + 1].0 {
                    return Err(Error::InvalidIntervals);
                }
            } else {
                if b == usize::MAX {
                    return Err(Error::InvalidIntervals);
                }
            }
            i += 1;
        }
        proof {
            assert(intervals_wf(intervals@));
        }
        Ok(SnpRangeSet { intervals })
    }

    /// The full axis [0, total): every SNP index below `total`.
    pub fn full(total: usize) -> (r: SnpRangeSet)
        requires
            1 <= total,
        ensures
            r.wf(),
            r.members().len() == total,
            forall|k: int| 0 <= k < total ==> #[trigger] r.members()[k] == k,
    {
        let mut intervals: Vec<(usize, usize)> = Vec::new();
        intervals.push((0, total - 1));
        let r = SnpRangeSet { intervals };
        proof {
            lemma_interval(0, total - 1);
            assert(members_upto(r.intervals@, 0) == Seq::<int>::empty());
            assert(r.members() == Seq::<int>::empty() + interval_members(0, total - 1));
        }
        r
    }

    /// Number of members.
    pub fn size(&self) -> (n: usize)
        requires
            self.wf(),
        ensures
            n == self.members().len(),
    {
        let ghost ivs = self.intervals@;
        let num_intervals = self.intervals.len();
        let mut acc: usize = 0;
        let mut idx: usize = 0;
        while idx < num_intervals
            invariant
                self.wf(),
                ivs == self.intervals@,
                num_intervals == ivs.len(),
                idx <= num_intervals,
                acc == members_upto(ivs, idx as int).len(),
            decreases num_intervals - idx,
        {
            let (a, b) = self.intervals[idx];
            proof {
                lemma_interval(a as int, b as int);
                lemma_prefix_len_bound(ivs, idx as int + 1);
                if idx as int + 1 <= ivs.len() - 1 {
                    lemma_ends_monotonic(ivs, idx as int, ivs.len() - 1);
                }
            }
            acc = acc + (b - a + 1);
            idx += 1;
        }
        acc
    }

    /// The smallest member, if any.
    pub fn first(&self) -> (r: Option<usize>)
        requires
            self.wf(),
        ensures
            self.members().len() == 0 ==> r is None,
            self.members().len() > 0 ==> r == Some(self.members()[0] as usize),
    {
        let ghost ivs = self.intervals@;
        if self.intervals.len() == 0 {
            None
        } else {
            let (a, b) = self.intervals[0];
            proof {
                lemma_interval(a as int, b as int);
                lemma_members_index(ivs, ivs.len() as int, 0, 0);
            }
            Some(a)
        }
    }

    /// Whether `x` is a member.
    pub fn contains(&self, x: usize) -> (r: bool)
        requires
            self.wf(),
        ensures
            r <==> self.members().contains(x as int),
    {
        let ghost ivs = self.intervals@;
        let num_intervals = self.intervals.len();
        let mut idx: usize = 0;
        while idx < num_intervals
            invariant
                self.wf(),
                ivs == self.intervals@,
                num_intervals == ivs.len(),
                idx <= num_intervals,
                forall|t: int| 0 <= t < idx ==> !((#[trigger] ivs[t]).0 <= x <= ivs[t].1),
            decreases num_intervals - idx,
        {
            let (a, b) = self.intervals[idx];
            if a <= x && x <= b {
                proof {
                    lemma_members_contains(ivs, ivs.len() as int, x as int);
                }
                return true;
            }
            idx += 1;
        }
        proof {
            lemma_members_contains(ivs, ivs.len() as int, x as int);
        }
        false
    }

    /// Whether every member lies below `bound`.
    pub fn fits_below(&self, bound: usize) -> (r: bool)
        requires
            self.wf(),
        ensures
            r <==> (forall|k: int|
                0 <= k < self.members().len() ==> #[trigger] self.members()[k] < bound),
            forall|k: int| 0 <= k < self.members().len() ==> #[trigger] self.members()[k] >= 0,
    {
        let ghost ivs = self.intervals@;
        proof {
            lemma_members_bounds(ivs, ivs.len() as int);
        }
        let num_intervals = self.intervals.len();
        if num_intervals == 0 {
            proof {
                assert(self.members().len() == 0);
            }
            true
        } else {
            let (a, b) = self.intervals[num_intervals - 1];
            proof {
                lemma_members_bounds(ivs, ivs.len() as int);
                lemma_members_contains(ivs, ivs.len() as int, b as int);
                assert(ivs[ivs.len() - 1].0 <= b as int <= ivs[ivs.len() - 1].1);
                assert(self.members().contains(b as int));
            }
            b < bound
        }
    }

    /// The member at `rank` (0-based, in ascending order).
    pub fn rank_get(&self, rank: usize) -> (r: usize)
        requires
            self.wf(),
            rank < self.members().len(),
        ensures
            r == self.members()[rank as int],
    {
        let ghost ivs = self.intervals@;
        let num_intervals = self.intervals.len();
        let mut acc: usize = 0;
        let mut idx: usize = 0;
        while idx < num_intervals
            invariant
                self.wf(),
                ivs == self.intervals@,
                num_intervals == ivs.len(),
                idx <= num_intervals,
                acc == members_upto(ivs, idx as int).len(),
                rank >= acc,
                rank < self.members().len(),
            decreases num_intervals - idx,
        {
            let (a, b) = self.intervals[idx];
            proof {
                lemma_interval(a as int, b as int);
                lemma_prefix_len_bound(ivs, idx as int + 1);
                if idx as int + 1 <= ivs.len() - 1 {
                    lemma_ends_monotonic(ivs, idx as int, ivs.len() - 1);
                }
            }
            let next_acc = acc + (b - a + 1);
            if rank < next_acc {
                proof {
                    lemma_members_index(ivs, ivs.len() as int, idx as int, rank as int);
                }
                return a + (rank - acc);
            }
            acc = next_acc;
            idx += 1;
        }
        proof {
            lemma_members_upto_len_monotonic(ivs, num_intervals as int, ivs.len() as int);
            assert(false);
        }
        0
    }

    /// The sub-set holding the members of rank `start` (inclusive) up to
    /// rank `end` (exclusive).
    pub fn slice(&self, start: usize, end: usize) -> (r: SnpRangeSet)
        requires
            self.wf(),
            start <= end <= self.members().len(),
        ensures
            r.wf(),
            r.members() == self.members().subrange(start as int, end as int),
    {
        let ghost ivs = self.intervals@;
        let ghost full = self.members();
        let num_intervals = self.intervals.len();
        let mut out: Vec<(usize, usize)> = Vec::new();
        let mut acc: usize = 0;
        let mut idx: usize = 0;
        while idx < num_intervals
            invariant
                self.wf(),
                ivs == self.intervals@,
                full == self.members(),
                start <= end <= full.len(),
                num_intervals == ivs.len(),
                idx <= num_intervals,
                acc == members_upto(ivs, idx as int).len(),
                intervals_wf(out@),
                out@.len() > 0 ==> idx > 0 && out@[out@.len() - 1].1 <= ivs[idx - 1].1,
                members_upto(out@, out@.len() as int) == full.subrange(
                    start as int,
                    clamp_rank(start as int, end as int, acc as int),
                ),
            decreases num_intervals - idx,
        {
            let (a, b) = self.intervals[idx];
            proof {
                lemma_interval(a as int, b as int);
                lemma_prefix_len_bound(ivs, idx as int + 1);
                if idx as int + 1 <= ivs.len() - 1 {
                    lemma_ends_monotonic(ivs, idx as int, ivs.len() - 1);
                }
            }
            let size = b - a + 1;
            let next_acc = acc + size;
            let lo = if start > acc {
                start
            } else {
                acc
            };
            let hi = if end < next_acc {
                end
            } else {
                next_acc
            };
            if lo < hi {
                let new_a = a + (lo - acc);
                let new_b = a + (hi - acc) - 1;
                let ghost old_out = out@;
                out.push((new_a, new_b));
                proof {
                    assert(clamp_rank(start as int, end as int, acc as int) == lo as int);
                    assert(clamp_rank(start as int, end as int, next_acc as int) == hi as int);
                    lemma_interval(new_a as int, new_b as int);
                    lemma_members_upto_agree(old_out, out@, old_out.len() as int);
                    assert(members_upto(out@, out@.len() as int) == members_upto(
                        old_out,
                        old_out.len() as int,
                    ) + interval_members(new_a as int, new_b as int));
                    assert forall|r: int| lo <= r < hi implies #[trigger] full[r] == a + (r
                        - acc) by {
                        lemma_members_index(ivs, ivs.len() as int, idx as int, r);
                    }
                    assert(members_upto(out@, out@.len() as int) =~= full.subrange(
                        start as int,
                        clamp_rank(start as int, end as int, next_acc as int),
                    ));
                }
            } else {
                proof {
                    assert(clamp_rank(start as int, end as int, next_acc as int) == clamp_rank(
                        start as int,
                        end as int,
                        acc as int,
                    ));
                }
            }
            acc = next_acc;
            idx += 1;
        }
        proof {
            lemma_members_upto_len_monotonic(ivs, num_intervals as int, ivs.len() as int);
            assert(acc == full.len());
            assert(clamp_rank(start as int, end as int, acc as int) == end as int);
        }
        SnpRangeSet { intervals: out }
    }

    /// All members, as a vector in ascending order.
    pub fn to_vec(&self) -> (v: Vec<usize>)
        requires
            self.wf(),
        ensures
            v@.len() == self.members().len(),
            forall|k: int| 0 <= k < v@.len() ==> v@[k] == self.members()[k],
    {
        let ghost ivs = self.intervals@;
        let num_intervals = self.intervals.len();
        let mut v: Vec<usize> = Vec::new();
        let mut acc: usize = 0;
        let mut idx: usize = 0;
        while idx < num_intervals
            invariant
                self.wf(),
                ivs == self.intervals@,
                num_intervals == ivs.len(),
                idx <= num_intervals,
                acc == members_upto(ivs, idx as int).len(),
                v@.len() == acc,
                forall|k: int| 0 <= k < acc ==> v@[k] == members_upto(ivs, idx as int)[k],
            decreases num_intervals - idx,
        {
            let (a, b) = self.intervals[idx];
            proof {
                lemma_interval(a as int, b as int);
                lemma_prefix_len_bound(ivs, idx as int + 1);
                if idx as int + 1 <= ivs.len() - 1 {
                    lemma_ends_monotonic(ivs, idx as int, ivs.len() - 1);
                }
            }
            let mut x = a;
            while x <= b
                invariant
                    a <= x,
                    x <= b + 1,
                    b < usize::MAX,
                    acc == members_upto(ivs, idx as int).len(),
                    v@.len() == acc + (x - a),
                    idx < num_intervals,
                    num_intervals == ivs.len(),
                    ivs == self.intervals@,
                    self.wf(),
                    (a, b) == ivs[idx as int],
                    forall|k: int| 0 <= k < v@.len() ==> v@[k] == members_upto(
                        ivs,
                        idx as int + 1,
                    )[k],
                decreases b + 1 - x,
            {
                proof {
                    lemma_interval(a as int, b as int);
                    assert(members_upto(ivs, idx as int + 1)[acc + (x - a)] == a + (x
                        - a)) by {
                        assert(members_upto(ivs, idx as int + 1) == members_upto(
                            ivs,
                            idx as int,
                        ) + interval_members(a as int, b as int));
                    }
                }
                v.push(x);
                x += 1;
            }
            proof {
                lemma_interval(a as int, b as int);
                assert(members_upto(ivs, idx as int + 1).len() == acc + (b - a + 1));
            }
            acc = acc + (b - a + 1);
            idx += 1;
            proof {
                assert forall|k: int| 0 <= k < acc implies v@[k] == members_upto(
                    ivs,
                    idx as int,
                )[k] by {}
            }
        }
        proof {
            assert forall|k: int| 0 <= k < v@.len() implies v@[k] == self.members()[k] by {}
        }
        v
    }
}

/// The rank where the covered part of [start, end) stops once the first
/// `acc` ranks of the axis have been walked.
pub open spec fn clamp_rank(start: int, end: int, acc: int) -> int {
    if acc <= start {
        start
    } else if acc >= end {
        end
    } else {
        acc
    }
}

} // verus!
