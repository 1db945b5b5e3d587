//! Growing and shrinking one task's segmented stack: the allocator consults
//! the task's hot-split cache before growth, and a freed stacklet starts a
//! new counting window.

use crate::config::{HOT_SPLIT_DETECTION_THRESHOLD, MAX_TASK_NUMBER};
use crate::hot_split::{after_record, bumped, cleared, HotSplitCache, HotSplitEntry};
use crate::stacklet::{chain_len, top_index, GrowError, Stacklet, StackletAllocator};
use vstd::prelude::*;

verus! {

/// Grows the stack of `task` for a call at `site` needing `requested`
/// bytes. The request is first counted against the site and the stacklet now
/// on top of the chain; a hot site gets the larger grant.
pub fn grow_at_site(
    alloc: &mut StackletAllocator,
    cache: &mut HotSplitCache,
    task: usize,
    site: u32,
    requested: usize,
) -> (r: Result<usize, GrowError>)
    requires
        old(alloc).wf(),
        old(cache).wf(),
        task < MAX_TASK_NUMBER,
    ensures
        final(alloc).wf(),
        final(cache).wf(),
        final(cache).entries@ == after_record(
            old(cache).entries@,
            site,
            chain_len(old(alloc).stacklets@, task as int) as usize,
        ),
        r == old(alloc).grow_outcome(
            task as int,
            requested as int,
            bumped(old(cache).entries@, site, chain_len(old(alloc).stacklets@, task as int) as usize)
                >= HOT_SPLIT_DETECTION_THRESHOLD,
        ),
        r is Ok ==> final(alloc).stacklets@ == old(alloc).stacklets@.push(
            Stacklet { owner: task, size: r->Ok_0 },
        ),
        r is Ok ==> final(alloc).free_bytes == old(alloc).free_bytes - r->Ok_0,
        r is Err ==> *final(alloc) == *old(alloc),
{
    let top = alloc.chain_length(task);
    let hot = cache.record_split(site, top);
    alloc.grow(task, requested, hot)
}

/// Frees the topmost stacklet of `task`. Counts that belonged to the freed
/// stacklet go back to zero unless they made their site hot; counts of the
/// stacklets below it are kept.
pub fn shrink_stack(alloc: &mut StackletAllocator, cache: &mut HotSplitCache, task: usize) -> (r: Option<usize>)
    requires
        old(alloc).wf(),
        old(cache).wf(),
        task < MAX_TASK_NUMBER,
    ensures
        final(alloc).wf(),
        final(cache).wf(),
        r is None <==> top_index(old(alloc).stacklets@, task as int) == -1,
        r is Some ==> {
            let i = top_index(old(alloc).stacklets@, task as int);
            &&& r->Some_0 == old(alloc).stacklets@[i].size
            &&& final(alloc).stacklets@ == old(alloc).stacklets@.remove(i)
            &&& final(alloc).free_bytes == old(alloc).free_bytes + r->Some_0
            &&& final(cache).entries@ == old(cache).entries@.map_values(
                |e: HotSplitEntry| cleared(e, chain_len(old(alloc).stacklets@, task as int) as usize),
            )
            &&& forall|j: int|
                0 <= j < old(cache).entries@.len() && old(cache).entries@[j].stacklet < chain_len(
                    old(alloc).stacklets@,
                    task as int,
                ) ==> #[trigger] final(cache).entries@[j] == old(cache).entries@[j]
        },
        r is None ==> *final(alloc) == *old(alloc) && final(cache).entries@ == old(cache).entries@,
{
    let top = alloc.chain_length(task);
    let r = alloc.shrink(task);
    if r.is_some() {
        cache.stacklet_freed(top);
    }
    r
}

/// Reclaims the whole stack of a task that has terminated: every stacklet
/// goes back to the pool and the task's hot-split cache is emptied. Returns
/// the number of bytes freed.
pub fn reclaim_stack(alloc: &mut StackletAllocator, cache: &mut HotSplitCache, task: usize) -> (r: usize)
    requires
        old(alloc).wf(),
        task < MAX_TASK_NUMBER,
    ensures
        final(alloc).wf(),
        final(cache).wf(),
        final(cache).entries@.len() == 0,
        r == old(alloc).used_spec(task as int),
        final(alloc).used_spec(task as int) == 0,
        final(alloc).free_bytes == old(alloc).free_bytes + r,
        forall|t: int| t != task ==> final(alloc).used_spec(t) == old(alloc).used_spec(t),
{
    cache.clear();
    alloc.release_all(task)
}

} // verus!
