//! The partition policy for parallel dataset initialization: the item-index
//! space is divided into contiguous worker ranges that tile it exactly —
//! no gaps, no overlaps, the last range absorbing the remainder.

use vstd::prelude::*;

verus! {

/// A contiguous range of dataset item indices assigned to one worker.
#[derive(Clone, Copy, Debug, PartialEq, Eq, Structural)]
pub struct Partition {
    /// First item index of the range.
    pub start: usize,
    /// Number of items in the range.
    pub len: usize,
}

/// Whether item index `i` lies in partition `p`.
pub open spec fn covers(p: Partition, i: int) -> bool {
    p.start <= i < p.start + p.len
}

/// Whether some partition of `parts` covers item index `i`.
pub open spec fn covered(parts: Seq<Partition>, i: int) -> bool {
    exists|j: int| 0 <= j < parts.len() && covers(parts[j], i)
}

/// Whether `parts` tiles `[s, e)`: consecutive ranges, starting at `s`,
/// ending exactly at `e`.
pub open spec fn tiled(parts: Seq<Partition>, s: int, e: int) -> bool
    decreases parts.len(),
{
    if parts.len() == 0 {
        s == e
    } else {
        parts[0].start == s && tiled(parts.drop_first(), s + parts[0].len, e)
    }
}

/// Appending a partition that starts where the tiling ends extends it.
pub proof fn lemma_tiled_push(parts: Seq<Partition>, s: int, e: int, p: Partition)
    requires
        tiled(parts, s, e),
        p.start == e,
    ensures
        tiled(parts.push(p), s, e + p.len),
    decreases parts.len(),
{
    if parts.len() == 0 {
        assert(parts.push(p).drop_first() =~= Seq::<Partition>::empty());
        assert(parts.push(p)[0] == p);
        assert(tiled(Seq::<Partition>::empty(), s + p.len, e + p.len));
    } else {
        lemma_tiled_push(parts.drop_first(), s + parts[0].len, e, p);
        assert(parts.push(p).drop_first() =~= parts.drop_first().push(p));
        assert(parts.push(p)[0] == parts[0]);
    }
}

/// Every partition of a tiling lies between the tiling's bounds, and ends
/// where the next one starts.
pub proof fn lemma_tiled_bounds(parts: Seq<Partition>, s: int, e: int, j: int)
    requires
        tiled(parts, s, e),
        0 <= j < parts.len(),
    ensures
        s <= parts[j].start,
        parts[j].start + parts[j].len <= e,
        j + 1 < parts.len() ==> parts[j].start + parts[j].len == parts[j + 1].start,
    decreases parts.len(),
{
    lemma_tiled_end(parts.drop_first(), s + parts[0].len, e);
    if j > 0 {
        lemma_tiled_bounds(parts.drop_first(), s + parts[0].len, e, j - 1);
    } else if j + 1 < parts.len() {
        assert(tiled(parts.drop_first(), s + parts[0].len, e));
        assert(parts.drop_first()[0].start == s + parts[0].len);
        assert(parts.drop_first()[0] == parts[1]);
    }
}

/// A tiling never runs backwards.
pub proof fn lemma_tiled_end(parts: Seq<Partition>, s: int, e: int)
    requires
        tiled(parts, s, e),
    ensures
        s <= e,
    decreases parts.len(),
{
    if parts.len() > 0 {
        lemma_tiled_end(parts.drop_first(), s + parts[0].len, e);
    }
}

/// Every index of `[s, e)` is covered by some partition of a tiling.
pub proof fn lemma_tiled_covers(parts: Seq<Partition>, s: int, e: int, i: int)
    requires
        tiled(parts, s, e),
        s <= i < e,
    ensures
        covered(parts, i),
    decreases parts.len(),
{
    if i < s + parts[0].len {
        assert(covers(parts[0], i));
    } else {
        lemma_tiled_covers(parts.drop_first(), s + parts[0].len, e, i);
        let j = choose|j: int|
            0 <= j < parts.drop_first().len() && covers(parts.drop_first()[j], i);
        assert(covers(parts[j + 1], i));
    }
}

/// Partition coverage law: a tiling of `[0, item_count)` covers every item
/// index exactly once — the covered indices are exactly `[0, item_count)`,
/// and no index is covered by two distinct partitions.
pub proof fn lemma_partition_coverage(parts: Seq<Partition>, item_count: int)
    requires
        tiled(parts, 0, item_count),
    ensures
        forall|i: int| 0 <= i < item_count ==> covered(parts, i),
        forall|i: int| covered(parts, i) ==> 0 <= i < item_count,
        forall|i: int, j1: int, j2: int|
            0 <= j1 < j2 < parts.len() ==> !(covers(parts[j1], i) && covers(parts[j2], i)),
{
    assert forall|i: int| 0 <= i < item_count implies covered(parts, i) by {
        lemma_tiled_covers(parts, 0, item_count, i);
    }
    assert forall|i: int| covered(parts, i) implies 0 <= i < item_count by {
        let j = choose|j: int| 0 <= j < parts.len() && covers(parts[j], i);
        lemma_tiled_bounds(parts, 0, item_count, j);
    }
    assert forall|i: int, j1: int, j2: int|
        0 <= j1 < j2 < parts.len() implies !(covers(parts[j1], i) && covers(parts[j2], i)) by {
        lemma_tiled_disjoint(parts, 0, item_count, j1, j2);
    }
}

/// Two distinct partitions of a tiling share no index.
pub proof fn lemma_tiled_disjoint(parts: Seq<Partition>, s: int, e: int, j1: int, j2: int)
    requires
        tiled(parts, s, e),
        0 <= j1 < j2 < parts.len(),
    ensures
        forall|i: int| !(covers(parts[j1], i) && covers(parts[j2], i)),
    decreases j2 - j1,
{
    lemma_tiled_bounds(parts, s, e, j1);
    lemma_tiled_bounds(parts, s, e, j1 + 1);
    if j1 + 1 == j2 {
    } else {
        lemma_tiled_monotone(parts, s, e, j1 + 1, j2);
    }
}

/// Partition starts are monotone along a tiling.
pub proof fn lemma_tiled_monotone(parts: Seq<Partition>, s: int, e: int, j1: int, j2: int)
    requires
        tiled(parts, s, e),
        0 <= j1 <= j2 < parts.len(),
    ensures
        parts[j1].start <= parts[j2].start,
    decreases j2 - j1,
{
    if j1 < j2 {
        lemma_tiled_bounds(parts, s, e, j1);
        lemma_tiled_monotone(parts, s, e, j1 + 1, j2);
    }
}

/// Divide `item_count` items among `workers` contiguous partitions: all of
/// size `item_count / workers`, except the last, which also absorbs the
/// remainder `item_count % workers`.
pub fn partitions(item_count: usize, workers: usize) -> (r: Vec<Partition>)
    requires
        1 <= workers,
    ensures
        r@.len() == workers,
        tiled(r@, 0, item_count as int),
        forall|j: int| 0 <= j < workers - 1 ==> r@[j].len == item_count / workers,
        r@[workers - 1].len == item_count / workers + item_count % workers,
{
    let size = item_count / workers;
    let rem = item_count % workers;
    let mut r: Vec<Partition> = Vec::new();
    let mut start: usize = 0;
    let mut j: usize = 0;
    while j < workers
        invariant
            1 <= workers,
            j <= workers,
            size == item_count / workers,
            rem == item_count % workers,
            r@.len() == j,
            start == j * size + if j == workers { rem as int } else { 0int },
            start <= item_count,
            tiled(r@, 0, start as int),
            forall|q: int| 0 <= q < j && q < workers - 1 ==> r@[q].len == size,
            j == workers ==> r@[workers - 1].len == size + rem,
        decreases workers - j,
    {
        proof {
            vstd::arithmetic::div_mod::lemma_fundamental_div_mod(
                item_count as int,
                workers as int,
            );
            assert((j + 1) * size == j * size + size) by (nonlinear_arith);
            assert((j + 1) * size <= workers * size) by (nonlinear_arith)
                requires
                    j + 1 <= workers,
                    0 <= size,
            ;
        }
        let len = if j == workers - 1 {
            size + rem
        } else {
            size
        };
        proof {
            lemma_tiled_push(r@, 0, start as int, Partition { start, len });
        }
        r.push(Partition { start, len });
        start = start + len;
        j = j + 1;
    }
    proof {
        vstd::arithmetic::div_mod::lemma_fundamental_div_mod(item_count as int, workers as int);
    }
    r
}

} // verus!
