//! The mathematical model of a line of sight: which runs of points along it are visible.

use vstd::prelude::*;

verus! {

/// A run of visible points: where it starts and how many points it spans.
pub struct Run {
    /// The index of the first visible point.
    pub start: int,
    /// The number of consecutive visible points.
    pub distance: int,
}

impl Run {
    /// The index just after the last visible point.
    pub open spec fn end(self) -> int {
        self.start + self.distance
    }

    /// Whether the point at `index` is in the run.
    pub open spec fn covers(self, index: int) -> bool {
        self.start <= index < self.end()
    }
}

/// Whether `run` is a run of visible points that can be extended at neither of its ends.
pub open spec fn is_visible_run(bitmap: Seq<bool>, run: Run) -> bool {
    &&& 0 <= run.start
    &&& 0 < run.distance
    &&& run.end() <= bitmap.len()
    &&& forall|i: int| run.covers(i) ==> #[trigger] bitmap[i]
    &&& run.start > 0 ==> !bitmap[run.start - 1]
    &&& run.end() < bitmap.len() ==> !bitmap[run.end()]
}

/// Whether some run of `runs` covers the point at `index`.
pub open spec fn is_covered(runs: Seq<Run>, index: int) -> bool {
    exists|k: int| 0 <= k < runs.len() && (#[trigger] runs[k]).covers(index)
}

/// Whether `runs` are all the visible runs of the first `len` points of `bitmap`, in order.
pub open spec fn are_runs_of_prefix(bitmap: Seq<bool>, runs: Seq<Run>, len: int) -> bool {
    &&& forall|k: int|
        0 <= k < runs.len() ==> is_visible_run(bitmap, #[trigger] runs[k]) && runs[k].end() <= len
    &&& forall|j: int, k: int|
        #![trigger runs[j], runs[k]]
        0 <= j < k < runs.len() ==> runs[j].end() < runs[k].start
    &&& forall|i: int| 0 <= i < len && #[trigger] bitmap[i] ==> is_covered(runs, i)
}

/// Whether `runs` are all the visible runs of `bitmap`, in order.
pub open spec fn are_runs(bitmap: Seq<bool>, runs: Seq<Run>) -> bool {
    are_runs_of_prefix(bitmap, runs, bitmap.len() as int)
}

/// Whether every visible run of `bitmap` can be written down in 16 bits for its start and 16 bits
/// for its distance.
pub open spec fn runs_fit(bitmap: Seq<bool>) -> bool {
    forall|run: Run| #[trigger]
        is_visible_run(bitmap, run) ==> run.start <= u16::MAX && run.distance <= u16::MAX
}

/// Nothing is lost: a point is visible exactly when one of the runs covers it.
pub proof fn law_runs_decode(bitmap: Seq<bool>, runs: Seq<Run>)
    requires
        are_runs(bitmap, runs),
    ensures
        bitmap == Seq::new(bitmap.len(), |i: int| is_covered(runs, i)),
{
    let decoded = Seq::new(bitmap.len(), |i: int| is_covered(runs, i));
    assert forall|i: int| 0 <= i < bitmap.len() implies bitmap[i] == decoded[i] by {
        if is_covered(runs, i) {
            let k = choose|k: int| 0 <= k < runs.len() && (#[trigger] runs[k]).covers(i);
            assert(is_visible_run(bitmap, runs[k]));
        }
    }
    assert(bitmap =~= decoded);
}

/// The encoding is canonical: a bitmap has one list of visible runs only.
pub proof fn law_runs_unique(bitmap: Seq<bool>, left: Seq<Run>, right: Seq<Run>)
    requires
        are_runs(bitmap, left),
        are_runs(bitmap, right),
    ensures
        left == right,
{
    if left.len() <= right.len() {
        lemma_runs_prefix(bitmap, left, right, left.len() as int);
        lemma_no_run_after_last(bitmap, left, right);
    } else {
        lemma_runs_prefix(bitmap, right, left, right.len() as int);
        lemma_no_run_after_last(bitmap, right, left);
    }
    assert(left =~= right);
}

/// A list of all runs has no other such list as a proper prefix.
proof fn lemma_no_run_after_last(bitmap: Seq<bool>, left: Seq<Run>, right: Seq<Run>)
    requires
        are_runs(bitmap, left),
        are_runs(bitmap, right),
        left.len() <= right.len(),
        forall|k: int| 0 <= k < left.len() ==> left[k] == right[k],
    ensures
        left.len() == right.len(),
{
    if left.len() < right.len() {
        let n = left.len() as int;
        let start = right[n].start;
        assert(is_visible_run(bitmap, right[n]));
        assert(right[n].covers(start));
        assert(bitmap[start]);
        assert(is_covered(left, start));
        let k = choose|k: int| 0 <= k < left.len() && (#[trigger] left[k]).covers(start);
        assert(right[k].end() < right[n].start);
    }
}

/// Two lists of all runs agree on their first `n` runs.
proof fn lemma_runs_prefix(bitmap: Seq<bool>, left: Seq<Run>, right: Seq<Run>, n: int)
    requires
        are_runs(bitmap, left),
        are_runs(bitmap, right),
        0 <= n <= left.len(),
        n <= right.len(),
    ensures
        forall|k: int| 0 <= k < n ==> left[k] == right[k],
    decreases n,
{
    if n > 0 {
        lemma_runs_prefix(bitmap, left, right, n - 1);
        let k = n - 1;
        assert(is_visible_run(bitmap, left[k]) && is_visible_run(bitmap, right[k]));
        lemma_run_not_before(bitmap, left, right, k);
        lemma_run_not_before(bitmap, right, left, k);
        assert(left[k].start == right[k].start);
        if left[k].end() < right[k].end() {
            assert(right[k].covers(left[k].end()));
        } else if right[k].end() < left[k].end() {
            assert(left[k].covers(right[k].end()));
        }
    }
}

/// Where two lists agree before `k`, the `k`th run of one starts no earlier than that of the other.
proof fn lemma_run_not_before(bitmap: Seq<bool>, left: Seq<Run>, right: Seq<Run>, k: int)
    requires
        are_runs(bitmap, left),
        are_runs(bitmap, right),
        0 <= k < left.len(),
        k < right.len(),
        forall|j: int| 0 <= j < k ==> left[j] == right[j],
    ensures
        left[k].start <= right[k].start,
{
    let start = right[k].start;
    assert(is_visible_run(bitmap, right[k]));
    assert(right[k].covers(start));
    assert(bitmap[start]);
    assert(is_covered(left, start));
    let j = choose|j: int| 0 <= j < left.len() && (#[trigger] left[j]).covers(start);
    if j < k {
        assert(right[j].end() < right[k].start);
    } else if j > k {
        assert(left[k].end() < left[j].start);
        assert(is_visible_run(bitmap, left[k]));
    }
}

/// Runs cannot be joined or extended: each has a point, its points are visible, and the points just
/// before it and just after it are not. They are in order.
pub proof fn law_runs_are_apart(bitmap: Seq<bool>, runs: Seq<Run>, k: int)
    requires
        are_runs(bitmap, runs),
        0 <= k < runs.len(),
    ensures
        0 <= runs[k].start < runs[k].start + runs[k].distance <= bitmap.len(),
        forall|i: int|
            runs[k].start <= i < runs[k].start + runs[k].distance ==> #[trigger] bitmap[i],
        runs[k].start > 0 ==> !bitmap[runs[k].start - 1],
        runs[k].start + runs[k].distance < bitmap.len() ==> !bitmap[runs[k].start
            + runs[k].distance],
        k > 0 ==> runs[k - 1].start + runs[k - 1].distance < runs[k].start,
{
    assert(is_visible_run(bitmap, runs[k]));
    assert forall|i: int| runs[k].start <= i < runs[k].start + runs[k].distance implies
        #[trigger] bitmap[i] by {
        assert(runs[k].covers(i));
    }
}

} // verus!
