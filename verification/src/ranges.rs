//! Byte ranges of a file and the gaps that a set of cached chunks leaves.
//!
//! A range is a pair `(start, end)` of offsets, both inclusive.
use vstd::prelude::*;

verus! {

/// The offset `x` lies in the range `r`.
pub open spec fn covers(r: (u64, u64), x: int) -> bool {
    r.0 <= x && x <= r.1
}

/// Some range of `rs` holds the offset `x`.
pub open spec fn covered_by(rs: Seq<(u64, u64)>, x: int) -> bool {
    exists|i: int| 0 <= i < rs.len() && covers(#[trigger] rs[i], x)
}

/// No range of `rs` is empty: each starts at or before its end.
pub open spec fn well_formed(rs: Seq<(u64, u64)>) -> bool {
    forall|i: int| 0 <= i < rs.len() ==> (#[trigger] rs[i]).0 <= rs[i].1
}

/// The ranges come by ascending start.
pub open spec fn sorted_by_start(rs: Seq<(u64, u64)>) -> bool {
    forall|i: int, j: int| 0 <= i < j < rs.len() ==> (#[trigger] rs[i]).0 <= (#[trigger] rs[j]).0
}

/// The ranges come in ascending order, and between each and the next at least
/// one offset is left out: they are sorted, disjoint and coalesced.
pub open spec fn separated(rs: Seq<(u64, u64)>) -> bool {
    forall|i: int, j: int|
        0 <= i < j < rs.len() ==> (#[trigger] rs[i]).1 + 1 < (#[trigger] rs[j]).0
}

/// Every range of `rs` lies within `[start, end]`.
pub open spec fn within(rs: Seq<(u64, u64)>, start: u64, end: u64) -> bool {
    forall|i: int| 0 <= i < rs.len() ==> start <= (#[trigger] rs[i]).0 && rs[i].1 <= end
}

/// `missing` is the list of gaps that `chunks` leave in `[start, end]`: its
/// ranges are non-empty, sorted, disjoint and coalesced, lie within
/// `[start, end]`, and hold exactly the offsets of `[start, end]` that no
/// chunk holds.
pub open spec fn is_gap_list(
    missing: Seq<(u64, u64)>,
    chunks: Seq<(u64, u64)>,
    start: u64,
    end: u64,
) -> bool {
    &&& well_formed(missing)
    &&& separated(missing)
    &&& within(missing, start, end)
    &&& forall|x: int|
        #![trigger covered_by(missing, x)]
        #![trigger covered_by(chunks, x)]
        start <= x <= end ==> (covered_by(missing, x) <==> !covered_by(chunks, x))
}

/// Appending a range adds exactly its offsets.
pub proof fn lemma_covered_push(rs: Seq<(u64, u64)>, r: (u64, u64), x: int)
    ensures
        covered_by(rs.push(r), x) <==> covered_by(rs, x) || covers(r, x),
{
    let ext = rs.push(r);
    if covered_by(rs, x) {
        let i = choose|i: int| 0 <= i < rs.len() && covers(#[trigger] rs[i], x);
        assert(ext[i] == rs[i]);
    }
    if covers(r, x) {
        assert(ext[rs.len() as int] == r);
    }
    if covered_by(ext, x) {
        let i = choose|i: int| 0 <= i < ext.len() && covers(#[trigger] ext[i], x);
        if i < rs.len() {
            assert(ext[i] == rs[i]);
        }
    }
}

/// `missing` is the list of the gaps of `[start, end]`, where `covered` says
/// which offsets are covered: its ranges are non-empty, sorted, disjoint and
/// coalesced, lie within `[start, end]`, and hold exactly the offsets of
/// `[start, end]` that are not covered.
pub open spec fn is_gap_list_of(
    missing: Seq<(u64, u64)>,
    covered: spec_fn(int) -> bool,
    start: u64,
    end: u64,
) -> bool {
    &&& well_formed(missing)
    &&& separated(missing)
    &&& within(missing, start, end)
    &&& forall|x: int|
        #![trigger covered_by(missing, x)]
        #![trigger covered(x)]
        start <= x <= end ==> (covered_by(missing, x) <==> !covered(x))
}

/// The gaps that chunks leave are determined by the chunks: two lists that
/// both are the gap list of the same chunks and interval are equal.
pub proof fn law_gap_list_is_unique(
    a: Seq<(u64, u64)>,
    b: Seq<(u64, u64)>,
    chunks: Seq<(u64, u64)>,
    start: u64,
    end: u64,
)
    requires
        is_gap_list(a, chunks, start, end),
        is_gap_list(b, chunks, start, end),
    ensures
        a == b,
{
    let covered = |x: int| covered_by(chunks, x);
    assert(is_gap_list_of(a, covered, start, end)) by {
        assert forall|x: int| start <= x <= end implies (covered_by(a, x) <==> !covered(x)) by {
            assert(covered(x) == covered_by(chunks, x));
        }
    }
    assert(is_gap_list_of(b, covered, start, end)) by {
        assert forall|x: int| start <= x <= end implies (covered_by(b, x) <==> !covered(x)) by {
            assert(covered(x) == covered_by(chunks, x));
        }
    }
    lemma_gaps_unique(a, b, covered, start, end);
}

/// A list of gaps is empty exactly when every offset of `[start, end]` is
/// covered.
pub proof fn lemma_gaps_empty(
    missing: Seq<(u64, u64)>,
    covered: spec_fn(int) -> bool,
    start: u64,
    end: u64,
)
    requires
        is_gap_list_of(missing, covered, start, end),
    ensures
        missing.len() == 0 <==> (forall|x: int| start <= x <= end ==> #[trigger] covered(x)),
{
    if missing.len() > 0 {
        let x = missing[0].0 as int;
        assert(covers(missing[0], x));
        assert(covered_by(missing, x));
        assert(!covered(x));
    }
}

/// Two lists of gaps of the same interval, for the same covered offsets, are
/// equal: the conditions of `is_gap_list_of` pin the list down.
pub proof fn lemma_gaps_unique(
    a: Seq<(u64, u64)>,
    b: Seq<(u64, u64)>,
    covered: spec_fn(int) -> bool,
    start: u64,
    end: u64,
)
    requires
        is_gap_list_of(a, covered, start, end),
        is_gap_list_of(b, covered, start, end),
    ensures
        a == b,
    decreases a.len(),
{
    if a.len() == 0 {
        lemma_gaps_empty(a, covered, start, end);
        lemma_gaps_empty(b, covered, start, end);
    } else if b.len() == 0 {
        lemma_gaps_empty(a, covered, start, end);
        lemma_gaps_empty(b, covered, start, end);
    } else {
        let la = a.last();
        let lb = b.last();
        let na = a.len() - 1;
        let nb = b.len() - 1;
        // The last ranges end at the same offset: the greatest one uncovered.
        assert(la.1 == lb.1) by {
            lemma_last_end(a, b, covered, start, end);
            lemma_last_end(b, a, covered, start, end);
        }
        // And they start at the same offset.
        assert(la.0 == lb.0) by {
            lemma_last_start(a, b, covered, start, end);
            lemma_last_start(b, a, covered, start, end);
        }
        assert(la == lb);
        let a0 = a.drop_last();
        let b0 = b.drop_last();
        if la.0 == start {
            // Nothing can stand before the last range.
            if a0.len() > 0 {
                assert(a[0].1 + 1 < a[na].0);
            }
            if b0.len() > 0 {
                assert(b[0].1 + 1 < b[nb].0);
            }
            assert(a0.len() == 0 && b0.len() == 0);
            assert(a =~= b);
        } else {
            // Both prefixes are gap lists for `[start, la.0 - 1]`.
            let cut = (la.0 - 1) as u64;
            lemma_prefix_gap_list(a, covered, start, end);
            lemma_prefix_gap_list(b, covered, start, end);
            lemma_gaps_unique(a0, b0, covered, start, cut);
            assert(a =~= a0.push(la));
            assert(b =~= b0.push(lb));
        }
    }
}

/// The last range of one gap list does not end after that of another.
proof fn lemma_last_end(
    a: Seq<(u64, u64)>,
    b: Seq<(u64, u64)>,
    covered: spec_fn(int) -> bool,
    start: u64,
    end: u64,
)
    requires
        is_gap_list_of(a, covered, start, end),
        is_gap_list_of(b, covered, start, end),
        a.len() > 0,
        b.len() > 0,
    ensures
        a.last().1 <= b.last().1,
{
    let x = a.last().1 as int;
    assert(covers(a[a.len() - 1], x));
    assert(covered_by(a, x));
    assert(covered_by(b, x));
    let j = choose|j: int| 0 <= j < b.len() && covers(#[trigger] b[j], x);
    if j < b.len() - 1 {
        assert(b[j].1 + 1 < b[b.len() - 1].0);
    }
}

/// The last range of one gap list does not start before that of another,
/// given that both end at the same offset.
proof fn lemma_last_start(
    a: Seq<(u64, u64)>,
    b: Seq<(u64, u64)>,
    covered: spec_fn(int) -> bool,
    start: u64,
    end: u64,
)
    requires
        is_gap_list_of(a, covered, start, end),
        is_gap_list_of(b, covered, start, end),
        a.len() > 0,
        b.len() > 0,
        a.last().1 == b.last().1,
    ensures
        a.last().0 >= b.last().0,
{
    let la = a.last();
    let lb = b.last();
    if la.0 < lb.0 {
        // The offset just before `lb` lies in `la`, so `b` must hold it too,
        // in a range that would then touch `lb`.
        let x = lb.0 - 1;
        assert(covers(a[a.len() - 1], x));
        assert(covered_by(a, x));
        assert(covered_by(b, x));
        let j = choose|j: int| 0 <= j < b.len() && covers(#[trigger] b[j], x);
        if j < b.len() - 1 {
            assert(b[j].1 + 1 < b[b.len() - 1].0);
        }
    }
}

/// Without its last range, a gap list is the gap list of the interval that
/// ends just before that range.
proof fn lemma_prefix_gap_list(
    a: Seq<(u64, u64)>,
    covered: spec_fn(int) -> bool,
    start: u64,
    end: u64,
)
    requires
        is_gap_list_of(a, covered, start, end),
        a.len() > 0,
        a.last().0 > start,
    ensures
        is_gap_list_of(a.drop_last(), covered, start, (a.last().0 - 1) as u64),
{
    let a0 = a.drop_last();
    let n = a.len() - 1;
    let cut = (a.last().0 - 1) as u64;
    assert forall|i: int| 0 <= i < a0.len() implies start <= (#[trigger] a0[i]).0 && a0[i].1
        <= cut by {
        assert(a0[i] == a[i]);
        assert(a[i].1 + 1 < a[n].0);
    }
    assert forall|i: int, j: int| 0 <= i < j < a0.len() implies (#[trigger] a0[i]).1 + 1 < (
    #[trigger] a0[j]).0 by {
        assert(a0[i] == a[i] && a0[j] == a[j]);
    }
    assert forall|i: int| 0 <= i < a0.len() implies (#[trigger] a0[i]).0 <= a0[i].1 by {
        assert(a0[i] == a[i]);
    }
    assert forall|x: int| start <= x <= cut implies (covered_by(a0, x) <==> !covered(x)) by {
        assert(a =~= a0.push(a[n]));
        lemma_covered_push(a0, a[n], x);
    }
}

/// The gaps that `chunks` leave in `[start, end]`.
///
/// The walk keeps a cursor at the first offset not yet accounted for. A chunk
/// that starts beyond the cursor leaves a gap before it; the cursor then moves
/// past the chunk's end. What is left after the last chunk is the final gap.
pub fn missing_ranges(chunks: &Vec<(u64, u64)>, start: u64, end: u64) -> (missing: Vec<(u64, u64)>)
    requires
        well_formed(chunks@),
        sorted_by_start(chunks@),
    ensures
        is_gap_list(missing@, chunks@, start, end),
{
    let mut missing: Vec<(u64, u64)> = Vec::new();
    if start > end {
        return missing;
    }
    let mut pos: u64 = start;
    let mut done = false;
    let mut i: usize = 0;
    while i < chunks.len() && !done
        invariant
            i <= chunks.len(),
            start <= pos <= end,
            well_formed(chunks@),
            sorted_by_start(chunks@),
            well_formed(missing@),
            separated(missing@),
            within(missing@, start, end),
            !done ==> forall|k: int| 0 <= k < missing.len() ==> (#[trigger] missing[k]).1 + 1 < pos,
            !done ==> forall|j: int|
                0 <= j < i ==> (#[trigger] chunks[j]).1 < pos || chunks[j].0 > end,
            forall|x: int| covered_by(missing@, x) ==> !covered_by(chunks@, x),
            forall|x: int|
                start <= x && x < (if done {
                    end + 1
                } else {
                    pos as int
                }) && !covered_by(missing@, x) ==> covered_by(chunks@, x),
        decreases chunks.len() - i, if done { 0int } else { 1int },
    {
        let (s, e) = chunks[i];
        let ghost before = missing@;
        let ghost old_pos = pos;
        if e >= pos && s <= end {
            if pos < s {
                let gap = (pos, (s - 1) as u64);
                missing.push(gap);
                proof {
                    assert forall|a: int, b: int| 0 <= a < b < missing.len() implies (
                    #[trigger] missing[a]).1 + 1 < (#[trigger] missing[b]).0 by {
                        if b < before.len() {
                            assert(missing[a] == before[a] && missing[b] == before[b]);
                        } else {
                            assert(missing[a] == before[a]);
                        }
                    }
                    assert forall|x: int| covered_by(missing@, x) implies !covered_by(
                        chunks@,
                        x,
                    ) by {
                        lemma_covered_push(before, gap, x);
                        if covers(gap, x) {
                            assert forall|j: int| 0 <= j < chunks.len() implies !covers(
                                #[trigger] chunks[j],
                                x,
                            ) by {
                                if j < i {
                                } else if j > i {
                                    assert(chunks[i as int].0 <= chunks[j].0);
                                }
                            }
                        }
                    }
                }
            }
            if e >= end {
                done = true;
            } else {
                pos = e + 1;
            }
            proof {
                assert forall|x: int|
                    start <= x && x < (if done {
                        end + 1
                    } else {
                        pos as int
                    }) && !covered_by(missing@, x) implies covered_by(chunks@, x) by {
                    if x < old_pos {
                        if before.len() != missing.len() {
                            lemma_covered_push(before, (old_pos, (s - 1) as u64), x);
                        }
                    } else if x < s {
                        lemma_covered_push(before, (old_pos, (s - 1) as u64), x);
                    } else {
                        assert(covers(chunks[i as int], x));
                    }
                }
            }
        }
        i += 1;
    }
    if !done {
        let ghost before = missing@;
        let last = (pos, end);
        missing.push(last);
        proof {
            assert forall|a: int, b: int| 0 <= a < b < missing.len() implies (
            #[trigger] missing[a]).1 + 1 < (#[trigger] missing[b]).0 by {
                if b < before.len() {
                    assert(missing[a] == before[a] && missing[b] == before[b]);
                } else {
                    assert(missing[a] == before[a]);
                }
            }
            assert forall|x: int| start <= x <= end implies (covered_by(missing@, x)
                <==> !covered_by(chunks@, x)) by {
                lemma_covered_push(before, last, x);
                if covers(last, x) {
                    assert forall|j: int| 0 <= j < chunks.len() implies !covers(
                        #[trigger] chunks[j],
                        x,
                    ) by {}
                }
            }
        }
    }
    missing
}

/// Inserting a range adds exactly its offsets.
pub proof fn lemma_covered_insert(rs: Seq<(u64, u64)>, at: int, r: (u64, u64), x: int)
    requires
        0 <= at <= rs.len(),
    ensures
        covered_by(rs.insert(at, r), x) <==> covered_by(rs, x) || covers(r, x),
{
    let ext = rs.insert(at, r);
    if covered_by(rs, x) {
        let i = choose|i: int| 0 <= i < rs.len() && covers(#[trigger] rs[i], x);
        if i < at {
            assert(ext[i] == rs[i]);
        } else {
            assert(ext[i + 1] == rs[i]);
        }
    }
    if covers(r, x) {
        assert(ext[at] == r);
    }
    if covered_by(ext, x) {
        let i = choose|i: int| 0 <= i < ext.len() && covers(#[trigger] ext[i], x);
        if i < at {
            assert(ext[i] == rs[i]);
        } else if i > at {
            assert(ext[i] == rs[i - 1]);
        }
    }
}

/// Puts the range `r` into `rs` where its start belongs.
pub fn insert_by_start(rs: &mut Vec<(u64, u64)>, r: (u64, u64))
    requires
        well_formed(old(rs)@),
        sorted_by_start(old(rs)@),
        r.0 <= r.1,
    ensures
        well_formed(final(rs)@),
        sorted_by_start(final(rs)@),
        final(rs)@.len() == old(rs)@.len() + 1,
        forall|x: int|
            #![trigger covered_by(final(rs)@, x)]
            covered_by(final(rs)@, x) <==> covered_by(old(rs)@, x) || covers(r, x),
{
    let mut at: usize = 0;
    while at < rs.len() && rs[at].0 <= r.0
        invariant
            at <= rs.len(),
            rs@ == old(rs)@,
            forall|j: int| 0 <= j < at ==> (#[trigger] rs[j]).0 <= r.0,
        decreases rs.len() - at,
    {
        at += 1;
    }
    let ghost before = rs@;
    rs.insert(at, r);
    proof {
        assert forall|i: int| 0 <= i < rs.len() implies (#[trigger] rs[i]).0 <= rs[i].1 by {
            if i < at {
                assert(rs[i] == before[i]);
            } else if i > at {
                assert(rs[i] == before[i - 1]);
            }
        }
        assert forall|i: int, j: int| 0 <= i < j < rs.len() implies (#[trigger] rs[i]).0 <= (
        #[trigger] rs[j]).0 by {
            let a = if i < at { before[i] } else if i > at { before[i - 1] } else { r };
            let b = if j < at { before[j] } else if j > at { before[j - 1] } else { r };
            assert(rs[i] == a && rs[j] == b);
            if i < at && j > at {
                assert(before[i].0 <= before[j - 1].0);
            } else if i == at && j > at {
                assert(before[at as int].0 <= before[j - 1].0);
            }
        }
        assert forall|x: int| covered_by(rs@, x) <==> covered_by(before, x) || covers(r, x) by {
            lemma_covered_insert(before, at as int, r, x);
        }
    }
}

/// The number of offsets of the range `r`, as far as 32 bits can say it: 0
/// for a range that ends before it starts.
pub open spec fn range_len_spec(r: (u64, u64)) -> u32 {
    if r.0 > r.1 {
        0
    } else if r.1 - r.0 + 1 > u32::MAX {
        u32::MAX
    } else {
        (r.1 - r.0 + 1) as u32
    }
}

/// The number of bytes to ask for when the range `r` is fetched.
pub fn range_len(r: (u64, u64)) -> (len: u32)
    ensures
        len == range_len_spec(r),
{
    if r.0 > r.1 {
        0
    } else if r.1 - r.0 >= 0xffff_ffff {
        0xffff_ffff
    } else {
        (r.1 - r.0 + 1) as u32
    }
}

} // verus!
