//! Instruction-address ranges: shifting them and finding the gaps between them.

use vstd::prelude::*;

verus! {

/// A range of instruction addresses, or of offsets from a function's entry.
///
/// `start <= end` is not enforced: a function of no length has both equal.
#[derive(Clone, Copy, Debug, PartialEq, Eq, Structural)]
pub struct CodeRange {
    pub start: u64,
    pub end: u64,
}

/// The range from `start` to `end`, with both bounds cut to 64 bits.
pub open spec fn range_of(start: int, end: int) -> CodeRange {
    CodeRange { start: start as u64, end: end as u64 }
}

/// `end - start` of every range is at least zero.
pub open spec fn well_formed(v: Seq<CodeRange>) -> bool {
    forall|i: int| 0 <= i < v.len() ==> (#[trigger] v[i]).start <= v[i].end
}

/// The ranges come in the order of their `start`.
pub open spec fn sorted_by_start(v: Seq<CodeRange>) -> bool {
    forall|i: int, j: int|
        0 <= i <= j < v.len() ==> (#[trigger] v[i]).start <= (#[trigger] v[j]).start
}

/// No range begins before an earlier one has ended.
pub open spec fn non_overlapping(v: Seq<CodeRange>) -> bool {
    forall|i: int, j: int| 0 <= i < j < v.len() ==> (#[trigger] v[i]).end <= (#[trigger] v[j]).start
}

/// Every range ends at or before `len`.
pub open spec fn within(v: Seq<CodeRange>, len: int) -> bool {
    forall|i: int| 0 <= i < v.len() ==> (#[trigger] v[i]).end <= len
}

/// Every range holds an address: its `start` lies below its `end`.
pub open spec fn non_empty(v: Seq<CodeRange>) -> bool {
    forall|i: int| 0 <= i < v.len() ==> (#[trigger] v[i]).start < v[i].end
}

/// Two ranges share no address: one ends where the other starts, or before.
pub open spec fn apart(a: CodeRange, b: CodeRange) -> bool {
    a.end <= b.start || b.end <= a.start
}

/// No two of the ranges share an address, in whatever order they come.
pub open spec fn pairwise_apart(v: Seq<CodeRange>) -> bool {
    forall|i: int, j: int| 0 <= i < j < v.len() ==> apart(#[trigger] v[i], #[trigger] v[j])
}

/// `a` lies in one of the ranges, each taken without its `end`.
pub open spec fn covers(v: Seq<CodeRange>, a: int) -> bool {
    exists|i: int| 0 <= i < v.len() && (#[trigger] v[i]).start <= a < v[i].end
}

/// The lengths of the ranges, added up.
pub open spec fn total_len(v: Seq<CodeRange>) -> int
    decreases v.len(),
{
    if v.len() == 0 {
        0
    } else {
        total_len(v.drop_last()) + (v.last().end - v.last().start)
    }
}

/// What one range counts for in the coverage of a function: its length, and
/// one where it has none.
pub open spec fn weight(r: CodeRange) -> int {
    if r.end - r.start > 1 {
        r.end - r.start
    } else {
        1
    }
}

/// The weights of the ranges, added up.
pub open spec fn total_weight(v: Seq<CodeRange>) -> int
    decreases v.len(),
{
    if v.len() == 0 {
        0
    } else {
        total_weight(v.drop_last()) + weight(v.last())
    }
}

/// The gap before the first range: from 0 to one below its `start`.
pub open spec fn leading_gap(v: Seq<CodeRange>) -> Seq<CodeRange> {
    if v.len() > 0 && v[0].start > 0 {
        seq![range_of(0, v[0].start - 1)]
    } else {
        seq![]
    }
}

/// The gap between range `i` and the next one: from the `end` of the one to
/// the `start` of the other, where the first lies below the second.
pub open spec fn gap_after(v: Seq<CodeRange>, i: int) -> Seq<CodeRange> {
    if v[i].end < v[i + 1].start {
        seq![range_of(v[i].end as int, v[i + 1].start as int)]
    } else {
        seq![]
    }
}

/// The gaps between the first `n + 1` ranges, in order.
pub open spec fn inner_gaps(v: Seq<CodeRange>, n: int) -> Seq<CodeRange>
    decreases n,
{
    if n <= 0 {
        seq![]
    } else {
        inner_gaps(v, n - 1) + gap_after(v, n - 1)
    }
}

/// The gap behind the last range: from one above its `end` to `len`, where
/// that is below `len`.
pub open spec fn trailing_gap(v: Seq<CodeRange>, len: int) -> Seq<CodeRange> {
    if v.len() > 0 && v.last().end + 1 < len {
        seq![range_of(v.last().end + 1, len)]
    } else {
        seq![]
    }
}

/// The gaps that `v` leaves in `0 ..= len`. Without ranges, all of it is one gap.
pub open spec fn complement_of(v: Seq<CodeRange>, len: int) -> Seq<CodeRange> {
    if v.len() == 0 {
        seq![range_of(0, len)]
    } else {
        leading_gap(v) + inner_gaps(v, v.len() - 1) + trailing_gap(v, len)
    }
}

/// `s` with `r` put in behind the last range that does not start after it.
pub open spec fn inserted(s: Seq<CodeRange>, r: CodeRange) -> Seq<CodeRange>
    decreases s.len(),
{
    if s.len() == 0 {
        seq![r]
    } else if s.last().start <= r.start {
        s.push(r)
    } else {
        inserted(s.drop_last(), r).push(s.last())
    }
}

/// The ranges of `v` in the order of their `start`; ranges of one `start`
/// keep the order they had.
pub open spec fn sorted_of(v: Seq<CodeRange>) -> Seq<CodeRange>
    decreases v.len(),
{
    if v.len() == 0 {
        seq![]
    } else {
        inserted(sorted_of(v.drop_last()), v.last())
    }
}

impl CodeRange {
    /// `end - start`, and 0 where `end` lies below `start`.
    pub open spec fn len(self) -> int {
        if self.end >= self.start {
            self.end - self.start
        } else {
            0
        }
    }

    /// Both bounds lie at or above `delta`.
    pub open spec fn at_or_above(self, delta: u64) -> bool {
        delta <= self.start && delta <= self.end
    }

    /// The range moved down by `delta`.
    pub fn shift(&self, delta: u64) -> (r: CodeRange)
        requires
            self.at_or_above(delta),
        ensures
            r.start == self.start - delta,
            r.end == self.end - delta,
    {
        CodeRange { start: self.start - delta, end: self.end - delta }
    }

    /// The length of the range.
    pub fn length(&self) -> (n: u64)
        ensures
            n == self.len(),
    {
        if self.end >= self.start {
            self.end - self.start
        } else {
            0
        }
    }
}

/// The gaps that `ranges` leave in a function of length `len`.
pub fn complement(ranges: &Vec<CodeRange>, len: u64) -> (gaps: Vec<CodeRange>)
    ensures
        gaps@ == complement_of(ranges@, len as int),
{
    let n: usize = ranges.len();
    let mut gaps: Vec<CodeRange> = Vec::new();
    if n == 0 {
        gaps.push(CodeRange { start: 0, end: len });
        return gaps;
    }
    let first: CodeRange = ranges[0];
    if 0 < first.start {
        gaps.push(CodeRange { start: 0, end: first.start - 1 });
    }
    let mut i: usize = 0;
    while i + 1 < n
        invariant
            n == ranges.len(),
            0 < n,
            i < n,
            gaps@ == leading_gap(ranges@) + inner_gaps(ranges@, i as int),
        decreases n - i,
    {
        let prev: CodeRange = ranges[i];
        let next: CodeRange = ranges[i + 1];
        if prev.end < next.start {
            gaps.push(CodeRange { start: prev.end, end: next.start });
        }
        i = i + 1;
    }
    let last: CodeRange = ranges[n - 1];
    if last.end < len && last.end + 1 < len {
        gaps.push(CodeRange { start: last.end + 1, end: len });
    }
    gaps
}

/// The ranges in the order of their `start`; ranges of one `start` keep the
/// order they had.
pub fn sort_by_start(ranges: &Vec<CodeRange>) -> (sorted: Vec<CodeRange>)
    ensures
        sorted@ == sorted_of(ranges@),
        sorted_by_start(sorted@),
        sorted@.to_multiset() == ranges@.to_multiset(),
{
    let n: usize = ranges.len();
    let mut sorted: Vec<CodeRange> = Vec::new();
    let mut i: usize = 0;
    while i < n
        invariant
            n == ranges.len(),
            i <= n,
            sorted@ == sorted_of(ranges@.take(i as int)),
            sorted@.len() == i,
        decreases n - i,
    {
        let r: CodeRange = ranges[i];
        let mut pos: usize = sorted.len();
        while pos > 0 && sorted[pos - 1].start > r.start
            invariant
                pos <= sorted@.len(),
                forall|k: int| pos <= k < sorted@.len() ==> (#[trigger] sorted@[k]).start > r.start,
            decreases pos,
        {
            pos = pos - 1;
        }
        proof {
            lemma_inserted_at(sorted@, r, pos as int);
            assert(ranges@.take(i + 1).drop_last() == ranges@.take(i as int));
        }
        sorted.insert(pos, r);
        i = i + 1;
    }
    proof {
        assert(ranges@.take(n as int) == ranges@);
        lemma_sorted_of(ranges@);
    }
    sorted
}

/// The weight of `ranges` in the coverage of a function.
pub fn coverage_weight(ranges: &Vec<CodeRange>) -> (w: u128)
    ensures
        w == total_weight(ranges@),
{
    let n: usize = ranges.len();
    let mut w: u128 = 0;
    let mut i: usize = 0;
    while i < n
        invariant
            n == ranges.len(),
            i <= n,
            w == total_weight(ranges@.take(i as int)),
            w <= i * 0xffff_ffff_ffff_ffff,
        decreases n - i,
    {
        let r: CodeRange = ranges[i];
        let d: u64 = if r.end > r.start && r.end - r.start > 1 {
            r.end - r.start
        } else {
            1
        };
        proof {
            assert(ranges@.take(i + 1).drop_last() == ranges@.take(i as int));
            assert((i + 1) * 0xffff_ffff_ffff_ffff == i * 0xffff_ffff_ffff_ffff
                + 0xffff_ffff_ffff_ffff) by (nonlinear_arith);
            assert(i * 0xffff_ffff_ffff_ffff <= 0xffff_ffff_ffff_ffff * 0xffff_ffff_ffff_ffff)
                by (nonlinear_arith)
                requires
                    i <= 0xffff_ffff_ffff_ffff,
            ;
        }
        w = w + d as u128;
        i = i + 1;
    }
    proof {
        assert(ranges@.take(n as int) == ranges@);
    }
    w
}

/// Where every range from `pos` on starts after `r` and the one before `pos`
/// does not, `r` is put in at `pos`.
proof fn lemma_inserted_at(s: Seq<CodeRange>, r: CodeRange, pos: int)
    requires
        0 <= pos <= s.len(),
        forall|k: int| pos <= k < s.len() ==> (#[trigger] s[k]).start > r.start,
        pos > 0 ==> s[pos - 1].start <= r.start,
    ensures
        inserted(s, r) == s.insert(pos, r),
    decreases s.len(),
{
    if s.len() == 0 {
        assert(s.insert(0, r) == seq![r]);
    } else if pos == s.len() {
        assert(s.insert(pos, r) == s.push(r));
    } else {
        lemma_inserted_at(s.drop_last(), r, pos);
    }
}

/// Putting a range into a sorted list keeps the list sorted and adds the one
/// range to what it holds.
proof fn lemma_inserted(s: Seq<CodeRange>, r: CodeRange)
    requires
        sorted_by_start(s),
    ensures
        sorted_by_start(inserted(s, r)),
        inserted(s, r).len() == s.len() + 1,
        inserted(s, r).to_multiset() == s.to_multiset().insert(r),
    decreases s.len(),
{
    broadcast use vstd::seq_lib::group_to_multiset_ensures;

    if s.len() == 0 {
        assert(seq![r] == s.push(r));
    } else if s.last().start <= r.start {
        assert forall|i: int, j: int| 0 <= i <= j < s.push(r).len() implies (#[trigger] s.push(
            r,
        )[i]).start <= (#[trigger] s.push(r)[j]).start by {
            if j == s.len() && i < s.len() {
                assert(s[i].start <= s[s.len() - 1].start);
            }
        }
    } else {
        let front = s.drop_last();
        let put = inserted(front, r);
        lemma_inserted(front, r);
        assert(s == front.push(s.last()));
        assert forall|i: int| 0 <= i < put.len() implies (#[trigger] put[i]).start
            <= s.last().start by {
            assert(put.to_multiset().count(put[i]) > 0);
            if put[i] != r {
                let k = choose|k: int| 0 <= k < front.len() && front[k] == put[i];
                assert(s[k].start <= s[s.len() - 1].start);
            }
        }
        assert forall|i: int, j: int| 0 <= i <= j < put.push(s.last()).len() implies (
        #[trigger] put.push(s.last())[i]).start <= (#[trigger] put.push(s.last())[j]).start by {
            if j < put.len() {
                assert(put[i].start <= put[j].start);
            }
        }
    }
}

/// Sorting keeps what the list holds and puts it in the order of `start`.
pub proof fn lemma_sorted_of(v: Seq<CodeRange>)
    ensures
        sorted_by_start(sorted_of(v)),
        sorted_of(v).len() == v.len(),
        sorted_of(v).to_multiset() == v.to_multiset(),
    decreases v.len(),
{
    broadcast use vstd::seq_lib::group_to_multiset_ensures;

    if v.len() == 0 {
        assert(sorted_of(v).to_multiset() =~= v.to_multiset());
    } else {
        lemma_sorted_of(v.drop_last());
        lemma_inserted(sorted_of(v.drop_last()), v.last());
        assert(v == v.drop_last().push(v.last()));
    }
}

/// What a list holds after a range was put in: the range, and what it held.
proof fn lemma_inserted_holds(s: Seq<CodeRange>, r: CodeRange)
    ensures
        forall|x: CodeRange| #[trigger] inserted(s, r).contains(x) ==> x == r || s.contains(x),
    decreases s.len(),
{
    let put = inserted(s, r);
    assert forall|x: CodeRange| #[trigger] put.contains(x) implies x == r || s.contains(x) by {
        let k = choose|k: int| 0 <= k < put.len() && put[k] == x;
        if s.len() == 0 {
        } else if s.last().start <= r.start {
            if k < s.len() {
                assert(s[k] == x);
            }
        } else {
            let front = s.drop_last();
            lemma_inserted_holds(front, r);
            if k < put.len() - 1 {
                assert(inserted(front, r).contains(x));
                if x != r {
                    let m = choose|m: int| 0 <= m < front.len() && front[m] == x;
                    assert(s[m] == x);
                }
            } else {
                assert(s[s.len() - 1] == x);
            }
        }
    }
}

/// A sorted list holds nothing that the list it was made from does not hold.
proof fn lemma_sorted_of_holds(v: Seq<CodeRange>)
    ensures
        forall|x: CodeRange| #[trigger] sorted_of(v).contains(x) ==> v.contains(x),
    decreases v.len(),
{
    if v.len() > 0 {
        let front = v.drop_last();
        lemma_sorted_of_holds(front);
        lemma_inserted_holds(sorted_of(front), v.last());
        assert forall|x: CodeRange| #[trigger] sorted_of(v).contains(x) implies v.contains(x) by {
            if x == v.last() {
                assert(v[v.len() - 1] == x);
            } else {
                let m = choose|m: int| 0 <= m < front.len() && front[m] == x;
                assert(v[m] == x);
            }
        }
    }
}

/// Putting in a range that shares no address with those of the list keeps
/// the ranges of the list apart.
proof fn lemma_inserted_apart(s: Seq<CodeRange>, r: CodeRange)
    requires
        pairwise_apart(s),
        forall|k: int| 0 <= k < s.len() ==> apart(#[trigger] s[k], r),
    ensures
        pairwise_apart(inserted(s, r)),
    decreases s.len(),
{
    let put = inserted(s, r);
    if s.len() == 0 {
    } else if s.last().start <= r.start {
        assert forall|i: int, j: int| 0 <= i < j < put.len() implies apart(
            #[trigger] put[i],
            #[trigger] put[j],
        ) by {
            if j < s.len() {
                assert(put[j] == s[j]);
            }
        }
    } else {
        let front = s.drop_last();
        let last = s.last();
        assert forall|i: int, j: int| 0 <= i < j < front.len() implies apart(
            #[trigger] front[i],
            #[trigger] front[j],
        ) by {
            assert(front[i] == s[i] && front[j] == s[j]);
        }
        assert forall|k: int| 0 <= k < front.len() implies apart(#[trigger] front[k], r) by {
            assert(front[k] == s[k]);
        }
        lemma_inserted_apart(front, r);
        lemma_inserted_holds(front, r);
        let inner = inserted(front, r);
        assert forall|i: int, j: int| 0 <= i < j < put.len() implies apart(
            #[trigger] put[i],
            #[trigger] put[j],
        ) by {
            if j < inner.len() {
                assert(put[j] == inner[j]);
            } else {
                assert(put[j] == last);
                assert(inner.contains(inner[i]));
                if inner[i] == r {
                    assert(apart(s[s.len() - 1], r));
                } else {
                    let m = choose|m: int| 0 <= m < front.len() && front[m] == inner[i];
                    assert(apart(s[m], s[s.len() - 1]));
                }
            }
        }
    }
}

/// Sorting ranges that share no address keeps them apart.
proof fn lemma_sorted_of_apart(v: Seq<CodeRange>)
    requires
        pairwise_apart(v),
    ensures
        pairwise_apart(sorted_of(v)),
    decreases v.len(),
{
    if v.len() > 0 {
        let front = v.drop_last();
        let last = v.last();
        assert forall|i: int, j: int| 0 <= i < j < front.len() implies apart(
            #[trigger] front[i],
            #[trigger] front[j],
        ) by {
            assert(front[i] == v[i] && front[j] == v[j]);
        }
        lemma_sorted_of_apart(front);
        lemma_sorted_of_holds(front);
        let s = sorted_of(front);
        assert forall|k: int| 0 <= k < s.len() implies apart(#[trigger] s[k], last) by {
            assert(s.contains(s[k]));
            let m = choose|m: int| 0 <= m < front.len() && front[m] == s[k];
            assert(apart(v[m], v[v.len() - 1]));
        }
        lemma_inserted_apart(s, last);
    }
}

/// Ranges that each hold an address and share none come out of sorting one
/// after the other: none begins before the one before it has ended.
pub proof fn lemma_sorted_of_disjoint(v: Seq<CodeRange>)
    requires
        non_empty(v),
        pairwise_apart(v),
    ensures
        sorted_by_start(sorted_of(v)),
        well_formed(sorted_of(v)),
        non_overlapping(sorted_of(v)),
{
    let s = sorted_of(v);
    lemma_sorted_of(v);
    lemma_sorted_of_apart(v);
    lemma_sorted_of_holds(v);
    assert forall|i: int| 0 <= i < s.len() implies (#[trigger] s[i]).start < s[i].end by {
        assert(s.contains(s[i]));
        let m = choose|m: int| 0 <= m < v.len() && v[m] == s[i];
        assert(v[m].start < v[m].end);
    }
    assert forall|i: int, j: int| 0 <= i < j < s.len() implies (#[trigger] s[i]).end <= (
    #[trigger] s[j]).start by {
        assert(s[j].start < s[j].end);
    }
}

/// The lengths of two lists add up to the length of the two in a row.
pub proof fn lemma_total_len_add(a: Seq<CodeRange>, b: Seq<CodeRange>)
    ensures
        total_len(a + b) == total_len(a) + total_len(b),
    decreases b.len(),
{
    if b.len() == 0 {
        assert(a + b == a);
    } else {
        assert((a + b).drop_last() == a + b.drop_last());
        lemma_total_len_add(a, b.drop_last());
    }
}

/// The gaps between the first `n + 1` ranges lie between the first and the
/// last of them, one after the other, and each runs from the `end` of a range
/// to the `start` of the next.
proof fn lemma_inner_gaps_shape(v: Seq<CodeRange>, n: int)
    requires
        well_formed(v),
        non_overlapping(v),
        0 <= n < v.len(),
    ensures
        non_overlapping(inner_gaps(v, n)),
        forall|k: int|
            0 <= k < inner_gaps(v, n).len() ==> v[0].end <= (#[trigger] inner_gaps(v, n)[k]).start
                < inner_gaps(v, n)[k].end <= v[n].start,
        forall|k: int|
            0 <= k < inner_gaps(v, n).len() ==> exists|i: int|
                0 <= i < n && (#[trigger] inner_gaps(v, n)[k]).start == (#[trigger] v[i]).end
                    && inner_gaps(v, n)[k].end == v[i + 1].start,
    decreases n,
{
    if n > 0 {
        lemma_inner_gaps_shape(v, n - 1);
        let before = inner_gaps(v, n - 1);
        let all = inner_gaps(v, n);
        assert forall|k: int| 0 <= k < all.len() implies v[0].end <= (#[trigger] all[k]).start
            < all[k].end <= v[n].start by {
            if k < before.len() {
                assert(all[k] == before[k]);
            } else {
                assert(n - 1 > 0 ==> v[0].end <= v[n - 1].start);
            }
        }
        assert forall|k: int| 0 <= k < all.len() implies exists|i: int|
            0 <= i < n && (#[trigger] all[k]).start == (#[trigger] v[i]).end && all[k].end == v[i
                + 1].start by {
            if k < before.len() {
                let i = choose|i: int|
                    0 <= i < n - 1 && (#[trigger] before[k]).start == (#[trigger] v[i]).end
                        && before[k].end == v[i + 1].start;
                assert(0 <= i < n && all[k].start == v[i].end && all[k].end == v[i + 1].start);
            } else {
                assert(all[k].start == v[n - 1].end && all[k].end == v[n - 1 + 1].start);
            }
        }
        assert forall|k: int, l: int| 0 <= k < l < all.len() implies (#[trigger] all[k]).end <= (
        #[trigger] all[l]).start by {
            if l < before.len() {
                assert(all[l] == before[l]);
            } else {
                assert(all[l] == gap_after(v, n - 1)[0]);
            }
        }
    }
}

/// A gap between two of the first `n + 1` ranges is among their gaps.
proof fn lemma_inner_gaps_hold(v: Seq<CodeRange>, n: int, i: int)
    requires
        0 <= i < n < v.len(),
        v[i].end < v[i + 1].start,
    ensures
        exists|k: int|
            0 <= k < inner_gaps(v, n).len() && (#[trigger] inner_gaps(v, n)[k]).start == v[i].end
                && inner_gaps(v, n)[k].end == v[i + 1].start,
    decreases n,
{
    let all = inner_gaps(v, n);
    let before = inner_gaps(v, n - 1);
    if i == n - 1 {
        let k = before.len() as int;
        assert(all[k].start == v[i].end && all[k].end == v[i + 1].start);
    } else {
        lemma_inner_gaps_hold(v, n - 1, i);
        let k = choose|k: int|
            0 <= k < before.len() && (#[trigger] before[k]).start == v[i].end && before[k].end
                == v[i + 1].start;
        assert(all[k] == before[k]);
    }
}

/// A list of one range is as long as that range.
proof fn lemma_total_len_one(g: Seq<CodeRange>)
    requires
        g.len() == 1,
    ensures
        total_len(g) == g[0].end - g[0].start,
{
    assert(total_len(g.drop_last()) == 0);
}

/// The first `n + 1` ranges and the gaps between them add up to what lies
/// between the `start` of the first and the `end` of the last.
proof fn lemma_inner_gaps_total(v: Seq<CodeRange>, n: int)
    requires
        non_overlapping(v),
        0 <= n < v.len(),
    ensures
        total_len(inner_gaps(v, n)) + total_len(v.take(n + 1)) == v[n].end - v[0].start,
    decreases n,
{
    assert(v.take(n + 1).drop_last() == v.take(n));
    if n == 0 {
        assert(total_len(v.take(0)) == 0);
    } else {
        lemma_inner_gaps_total(v, n - 1);
        lemma_total_len_add(inner_gaps(v, n - 1), gap_after(v, n - 1));
        let g = gap_after(v, n - 1);
        if g.len() == 1 {
            lemma_total_len_one(g);
        } else {
            assert(v[n - 1].end <= v[n].start);
        }
    }
}

/// An address at or above the `start` of the first range and below that of
/// range `j` lies in one of the ranges before `j` or in a gap between them.
proof fn lemma_between_covered(v: Seq<CodeRange>, j: int, a: int)
    requires
        well_formed(v),
        non_overlapping(v),
        0 <= j < v.len(),
        v[0].start <= a < v[j].start,
    ensures
        covers(v, a) || covers(inner_gaps(v, j), a),
    decreases j,
{
    if a < v[j - 1].start {
        lemma_between_covered(v, j - 1, a);
        if !covers(v, a) {
            let before = inner_gaps(v, j - 1);
            let k = choose|k: int| 0 <= k < before.len() && (#[trigger] before[k]).start <= a
                < before[k].end;
            assert(inner_gaps(v, j)[k] == before[k]);
        }
    } else if a < v[j - 1].end {
        assert(v[j - 1].start <= a < v[j - 1].end);
    } else {
        lemma_inner_gaps_hold(v, j, j - 1);
        let all = inner_gaps(v, j);
        let k = choose|k: int|
            0 <= k < all.len() && (#[trigger] all[k]).start == v[j - 1].end && all[k].end
                == v[j - 1 + 1].start;
        assert(all[k].start <= a < all[k].end);
    }
}

/// Where the gaps of a list with a range in it stand: the leading gap first,
/// the gaps between the ranges next, the trailing gap last.
spec fn gaps_laid_out(v: Seq<CodeRange>, len: int) -> bool {
    let gaps = complement_of(v, len);
    let lead = leading_gap(v);
    let inner = inner_gaps(v, v.len() - 1);
    let trail = trailing_gap(v, len);
    &&& gaps.len() == lead.len() + inner.len() + trail.len()
    &&& forall|k: int| 0 <= k < lead.len() ==> #[trigger] gaps[k] == lead[0]
    &&& forall|k: int|
        lead.len() <= k < lead.len() + inner.len() ==> #[trigger] gaps[k] == inner[k - lead.len()]
    &&& forall|k: int| lead.len() + inner.len() <= k < gaps.len() ==> #[trigger] gaps[k] == trail[0]
}

proof fn lemma_gaps_laid_out(v: Seq<CodeRange>, len: int)
    requires
        v.len() > 0,
    ensures
        gaps_laid_out(v, len),
{
}

/// The gaps are well formed, come one after the other and end at or before
/// `len`.
proof fn lemma_complement_ordered(v: Seq<CodeRange>, len: int)
    requires
        well_formed(v),
        non_overlapping(v),
        within(v, len),
        0 <= len <= u64::MAX,
    ensures
        well_formed(complement_of(v, len)),
        non_overlapping(complement_of(v, len)),
        within(complement_of(v, len), len),
{
    let gaps = complement_of(v, len);
    if v.len() > 0 {
        let n = v.len() - 1;
        let lead = leading_gap(v);
        let inner = inner_gaps(v, n);
        lemma_inner_gaps_shape(v, n);
        lemma_gaps_laid_out(v, len);
        assert forall|k: int| 0 <= k < gaps.len() implies (#[trigger] gaps[k]).start
            <= gaps[k].end <= len by {
            if lead.len() <= k < lead.len() + inner.len() {
                assert(gaps[k] == inner[k - lead.len()]);
            }
        }
        assert forall|k: int, l: int| 0 <= k < l < gaps.len() implies (#[trigger] gaps[k]).end <= (
        #[trigger] gaps[l]).start by {
            if lead.len() <= k < lead.len() + inner.len() {
                assert(gaps[k] == inner[k - lead.len()]);
            }
            if lead.len() <= l < lead.len() + inner.len() {
                assert(gaps[l] == inner[l - lead.len()]);
            }
        }
    }
}

/// No address lies in a range and in a gap.
proof fn lemma_complement_apart(v: Seq<CodeRange>, len: int, a: int)
    requires
        well_formed(v),
        non_overlapping(v),
        within(v, len),
        0 <= len <= u64::MAX,
    ensures
        !(covers(v, a) && covers(complement_of(v, len), a)),
{
    let gaps = complement_of(v, len);
    if covers(v, a) && covers(gaps, a) {
        let n = v.len() - 1;
        let lead = leading_gap(v);
        let inner = inner_gaps(v, n);
        lemma_inner_gaps_shape(v, n);
        lemma_gaps_laid_out(v, len);
        let i = choose|i: int| 0 <= i < v.len() && (#[trigger] v[i]).start <= a < v[i].end;
        let k = choose|k: int| 0 <= k < gaps.len() && (#[trigger] gaps[k]).start <= a < gaps[k].end;
        if lead.len() <= k < lead.len() + inner.len() {
            let g = inner[k - lead.len()];
            assert(gaps[k] == g);
            let m = choose|m: int|
                0 <= m < n && (#[trigger] inner[k - lead.len()]).start == (#[trigger] v[m]).end
                    && inner[k - lead.len()].end == v[m + 1].start;
            if i <= m {
                assert(i < m ==> v[i].end <= v[m].start);
            } else {
                assert(m + 1 < i ==> v[m + 1].end <= v[i].start);
            }
        }
    }
}

/// An address below `len` lies in a range or in a gap, or is one of the two
/// that the gaps leave out.
proof fn lemma_complement_covers(v: Seq<CodeRange>, len: int, a: int)
    requires
        well_formed(v),
        non_overlapping(v),
        within(v, len),
        0 <= a < len <= u64::MAX,
    ensures
        covers(v, a) || covers(complement_of(v, len), a) || (v.len() > 0 && (a == v[0].start - 1
            || a == v.last().end)),
{
    let gaps = complement_of(v, len);
    if v.len() == 0 {
        assert(gaps[0].start <= a < gaps[0].end);
    } else {
        let n = v.len() - 1;
        let lead = leading_gap(v);
        let inner = inner_gaps(v, n);
        lemma_gaps_laid_out(v, len);
        if a < v[0].start - 1 {
            assert(gaps[0].start <= a < gaps[0].end);
        } else if a == v[0].start - 1 {
        } else if a < v[n].start {
            lemma_between_covered(v, n, a);
            if !covers(v, a) {
                let k = choose|k: int|
                    0 <= k < inner.len() && (#[trigger] inner[k]).start <= a < inner[k].end;
                assert(gaps[lead.len() + k] == inner[k]);
            }
        } else if a < v[n].end {
            assert(v[n].start <= a < v[n].end);
        } else if a == v[n].end {
        } else {
            let k = gaps.len() - 1;
            assert(gaps[k].start <= a < gaps[k].end);
        }
    }
}

/// Ranges and gaps together are as long as the function, or up to 2 shorter.
proof fn lemma_complement_total(v: Seq<CodeRange>, len: int)
    requires
        well_formed(v),
        non_overlapping(v),
        within(v, len),
        0 <= len <= u64::MAX,
    ensures
        total_len(v) + total_len(complement_of(v, len)) <= len,
        len <= total_len(v) + total_len(complement_of(v, len)) + 2,
{
    let gaps = complement_of(v, len);
    if v.len() == 0 {
        lemma_total_len_one(gaps);
    } else {
        let n = v.len() - 1;
        let lead = leading_gap(v);
        let inner = inner_gaps(v, n);
        let trail = trailing_gap(v, len);
        lemma_inner_gaps_total(v, n);
        assert(v.take(n + 1) == v);
        lemma_total_len_add(lead, inner);
        lemma_total_len_add(lead + inner, trail);
        if lead.len() == 1 {
            lemma_total_len_one(lead);
        }
        if trail.len() == 1 {
            lemma_total_len_one(trail);
        }
    }
}

/// The gaps that `complement` finds and the ranges it was given tile the
/// function: no address lies in a range and in a gap, the gaps come one after
/// the other, and every address below `len` lies in a range or in a gap, but
/// for the address just below the first range and the `end` of the last one.
/// Ranges and gaps together are as long as the function, or up to 2 shorter.
pub proof fn lemma_complement_tiles(v: Seq<CodeRange>, len: int)
    requires
        well_formed(v),
        sorted_by_start(v),
        non_overlapping(v),
        within(v, len),
        0 <= len <= u64::MAX,
    ensures
        well_formed(complement_of(v, len)),
        non_overlapping(complement_of(v, len)),
        within(complement_of(v, len), len),
        forall|a: int| !(covers(v, a) && covers(complement_of(v, len), a)),
        forall|a: int|
            0 <= a < len ==> covers(v, a) || covers(complement_of(v, len), a) || (v.len() > 0 && (a
                == v[0].start - 1 || a == v.last().end)),
        total_len(v) + total_len(complement_of(v, len)) <= len,
        len <= total_len(v) + total_len(complement_of(v, len)) + 2,
{
    lemma_complement_ordered(v, len);
    lemma_complement_total(v, len);
    assert forall|a: int| !(covers(v, a) && covers(complement_of(v, len), a)) by {
        lemma_complement_apart(v, len, a);
    }
    assert forall|a: int| 0 <= a < len implies covers(v, a) || covers(complement_of(v, len), a) || (
    v.len() > 0 && (a == v[0].start - 1 || a == v.last().end)) by {
        lemma_complement_covers(v, len, a);
    }
}

} // verus!
