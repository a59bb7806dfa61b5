//! The mathematical model of the run-length sample tables, and the searches
//! over them.

use vstd::prelude::*;
use crate::stbl::{SttsEntry, CttsEntry, StscEntry};

verus! {

/// Sum of the sample counts of the decode-time runs from `i` on.
pub open spec fn stts_count_from(e: Seq<SttsEntry>, i: int) -> int
    decreases e.len() - i,
{
    if i < 0 || i >= e.len() {
        0
    } else {
        e[i].sample_count + stts_count_from(e, i + 1)
    }
}

/// Start time and duration of sample `id`, walking the decode-time runs from
/// run `i`, whose first sample is `count` and starts at `elapsed`.
pub open spec fn time_from(e: Seq<SttsEntry>, id: int, i: int, count: int, elapsed: int) -> Option<(int, u32)>
    decreases e.len() - i,
{
    if i < 0 || i >= e.len() {
        None
    } else if id <= count + e[i].sample_count - 1 {
        Some((elapsed + (id - count) * e[i].sample_delta, e[i].sample_delta))
    } else {
        time_from(e, id, i + 1, count + e[i].sample_count, elapsed + e[i].sample_count * e[i].sample_delta)
    }
}

/// Start time and duration of sample `id` (numbered from 1).
pub open spec fn sample_time_of(e: Seq<SttsEntry>, id: int) -> Option<(int, u32)> {
    time_from(e, id, 0, 1, 0)
}

/// Composition offset of sample `id`, walking the runs from run `i`, whose
/// first sample is `count`.
pub open spec fn ctts_from(e: Seq<CttsEntry>, id: int, i: int, count: int) -> Option<i32>
    decreases e.len() - i,
{
    if i < 0 || i >= e.len() {
        None
    } else if id <= count + e[i].sample_count - 1 {
        Some(e[i].sample_offset)
    } else {
        ctts_from(e, id, i + 1, count + e[i].sample_count)
    }
}

/// The composition-offset run that holds sample `id`, walking from run `i`
/// whose first sample is `count`: the run's index and its first sample.
pub open spec fn ctts_index_from(e: Seq<CttsEntry>, id: int, i: int, count: int) -> Option<(int, int)>
    decreases e.len() - i,
{
    if i < 0 || i >= e.len() {
        None
    } else if id <= count + e[i].sample_count - 1 {
        Some((i, count))
    } else {
        ctts_index_from(e, id, i + 1, count + e[i].sample_count)
    }
}

/// Whether each number is below the next.
pub open spec fn strictly_increasing(s: Seq<u32>) -> bool {
    forall|i: int, j: int| 0 <= i < j < s.len() ==> s[i] < s[j]
}

/// The number of the first sample of each sample-to-chunk run, as derived
/// from the runs before it.
pub open spec fn derived_first_sample(e: Seq<StscEntry>, k: int) -> int
    decreases k,
{
    if k <= 0 {
        1
    } else {
        derived_first_sample(e, k - 1) + (e[k].first_chunk - e[k - 1].first_chunk) * e[k - 1].samples_per_chunk
    }
}

/// A sample-to-chunk table as read: chunks numbered from 1 and strictly
/// increasing, runs of at least one sample, and each derived first sample
/// fits in 32 bits.
pub open spec fn stsc_loadable(e: Seq<StscEntry>) -> bool {
    &&& forall|k: int| 0 <= k < e.len() ==> e[k].first_chunk >= 1 && e[k].samples_per_chunk >= 1
    &&& forall|k: int| 0 <= k < e.len() - 1 ==> #[trigger] e[k].first_chunk < e[k + 1].first_chunk
    &&& forall|k: int| 0 <= k < e.len() ==> derived_first_sample(e, k) <= u32::MAX
}

/// A loaded sample-to-chunk table: loadable, with each `first_sample` derived.
pub open spec fn stsc_wf(e: Seq<StscEntry>) -> bool {
    &&& stsc_loadable(e)
    &&& forall|k: int| 0 <= k < e.len() ==> e[k].first_sample == derived_first_sample(e, k)
    &&& forall|i: int, j: int| 0 <= i < j < e.len() ==> e[i].first_sample < e[j].first_sample
}

/// Run `k` is the last whose first sample is at most `id`.
pub open spec fn stsc_covers(e: Seq<StscEntry>, k: int, id: int) -> bool {
    &&& 0 <= k < e.len()
    &&& e[k].first_sample <= id
    &&& k + 1 < e.len() ==> id < e[k + 1].first_sample
}

/// The sample-to-chunk run that holds sample `id`.
pub open spec fn stsc_index_of(e: Seq<StscEntry>, id: int) -> int {
    choose|k: int| stsc_covers(e, k, id)
}

pub proof fn lemma_stsc_covers_unique(e: Seq<StscEntry>, k1: int, k2: int, id: int)
    requires
        stsc_wf(e),
        stsc_covers(e, k1, id),
        stsc_covers(e, k2, id),
    ensures
        k1 == k2,
{
    if k1 < k2 {
        assert(e[k1 + 1].first_sample <= e[k2].first_sample);
    } else if k2 < k1 {
        assert(e[k2 + 1].first_sample <= e[k1].first_sample);
    }
}

/// Finds the sample-to-chunk run that holds sample `id`, by binary search.
pub fn stsc_index(e: &Vec<StscEntry>, id: u32) -> (r: usize)
    requires
        stsc_wf(e@),
        e@.len() >= 1,
        id >= 1,
    ensures
        stsc_covers(e@, r as int, id as int),
        r as int == stsc_index_of(e@, id as int),
{
    let mut lo: usize = 0;
    let mut hi: usize = e.len();
    assert(e@[0].first_sample == derived_first_sample(e@, 0));
    while hi - lo > 1
        invariant
            stsc_wf(e@),
            e@.len() >= 1,
            0 <= lo < hi <= e@.len(),
            e@[lo as int].first_sample <= id,
            hi < e@.len() ==> id < e@[hi as int].first_sample,
        decreases hi - lo,
    {
        let mid = lo + (hi - lo) / 2;
        if e[mid].first_sample <= id {
            lo = mid;
        } else {
            hi = mid;
        }
    }
    proof {
        assert(stsc_covers(e@, lo as int, id as int));
        let k = stsc_index_of(e@, id as int);
        lemma_stsc_covers_unique(e@, k, lo as int, id as int);
    }
    lo
}

/// Whether `x` is among the ascending numbers `v`, by binary search.
pub fn sorted_contains(v: &Vec<u32>, x: u32) -> (r: bool)
    requires
        strictly_increasing(v@),
    ensures
        r == v@.contains(x),
{
    let mut lo: usize = 0;
    let mut hi: usize = v.len();
    while lo < hi
        invariant
            strictly_increasing(v@),
            0 <= lo <= hi <= v@.len(),
            forall|i: int| 0 <= i < lo ==> v@[i] < x,
            forall|i: int| hi <= i < v@.len() ==> v@[i] > x,
        decreases hi - lo,
    {
        let mid = lo + (hi - lo) / 2;
        if v[mid] == x {
            assert(v@[mid as int] == x);
            return true;
        } else if v[mid] < x {
            lo = mid + 1;
        } else {
            hi = mid;
        }
    }
    false
}

} // verus!
