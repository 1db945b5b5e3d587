//! Stacklet accounting: the heap region is shared between a free pool and the
//! segmented stacks of the tasks. Each stacklet has one owner; a task's chain
//! is its stacklets in allocation order, bottom to top.

use crate::config::{
    HOT_SPLIT_EXTRA_ALLOC_SIZE, MAX_TASK_NUMBER, MEM_CHUNK_LINK_OFFSET, MEM_CHUNK_LINK_SPAN,
    STACKLET_ADDITION_ALLOC_SIZE,
};
use vstd::prelude::*;

verus! {

/// One chunk of a segmented stack.
#[derive(Clone, Copy, Debug, PartialEq, Eq, Structural)]
pub struct Stacklet {
    /// Task slot that owns the chunk.
    pub owner: usize,
    /// Size in bytes.
    pub size: usize,
}

/// Why a growth request was refused.
#[derive(Clone, Copy, Debug, PartialEq, Eq, Structural)]
pub enum GrowError {
    /// The free pool cannot hold the chunk.
    OutOfMemory,
    /// The chunk would take the task past its stack-size limit.
    LimitExceeded,
}

/// Sum of the sizes of all stacklets in `s`.
pub open spec fn total(s: Seq<Stacklet>) -> int
    decreases s.len(),
{
    if s.len() == 0 {
        0
    } else {
        total(s.drop_last()) + s.last().size
    }
}

/// Sum of the sizes of the stacklets in `s` owned by task `t`.
pub open spec fn owned_by(s: Seq<Stacklet>, t: int) -> int
    decreases s.len(),
{
    if s.len() == 0 {
        0
    } else {
        owned_by(s.drop_last(), t) + (if s.last().owner == t { s.last().size as int } else { 0 })
    }
}

/// Number of stacklets in `s` owned by task `t`: the length of its chain.
pub open spec fn chain_len(s: Seq<Stacklet>, t: int) -> nat
    decreases s.len(),
{
    if s.len() == 0 {
        0
    } else {
        chain_len(s.drop_last(), t) + (if s.last().owner == t { 1nat } else { 0nat })
    }
}

pub proof fn lemma_chain_len_bound(s: Seq<Stacklet>, t: int)
    ensures
        chain_len(s, t) <= s.len(),
    decreases s.len(),
{
    if s.len() > 0 {
        lemma_chain_len_bound(s.drop_last(), t);
    }
}

/// Index of the topmost stacklet of task `t` in `s`, or -1 when it has none.
pub open spec fn top_index(s: Seq<Stacklet>, t: int) -> int
    decreases s.len(),
{
    if s.len() == 0 {
        -1
    } else if s.last().owner == t {
        s.len() - 1
    } else {
        top_index(s.drop_last(), t)
    }
}

/// Bytes granted for a request: the request, the fixed padding, and the
/// extra headroom of a hot site.
pub open spec fn grant_size(requested: int, hot: bool) -> int {
    requested + STACKLET_ADDITION_ALLOC_SIZE + if hot { HOT_SPLIT_EXTRA_ALLOC_SIZE as int } else { 0 }
}

pub proof fn lemma_owned_bounds(s: Seq<Stacklet>, t: int)
    ensures
        0 <= owned_by(s, t) <= total(s),
    decreases s.len(),
{
    if s.len() > 0 {
        lemma_owned_bounds(s.drop_last(), t);
    }
}

pub proof fn lemma_remove(s: Seq<Stacklet>, i: int, t: int)
    requires
        0 <= i < s.len(),
    ensures
        total(s.remove(i)) == total(s) - s[i].size,
        owned_by(s.remove(i), t) == owned_by(s, t) - (if s[i].owner == t { s[i].size as int } else { 0 }),
    decreases s.len(),
{
    if i == s.len() - 1 {
        assert(s.remove(i) =~= s.drop_last());
    } else {
        lemma_remove(s.drop_last(), i, t);
        assert(s.remove(i).drop_last() =~= s.drop_last().remove(i));
        assert(s.remove(i).last() == s.last());
    }
}

pub proof fn lemma_top_index(s: Seq<Stacklet>, t: int)
    ensures
        -1 <= top_index(s, t) < s.len(),
        top_index(s, t) >= 0 ==> s[top_index(s, t)].owner == t,
        top_index(s, t) == -1 <==> (forall|j: int| 0 <= j < s.len() ==> s[j].owner != t),
        top_index(s, t) == -1 ==> owned_by(s, t) == 0,
    decreases s.len(),
{
    if s.len() > 0 {
        lemma_top_index(s.drop_last(), t);
        assert forall|j: int| 0 <= j < s.len() - 1 implies s.drop_last()[j] == s[j] by {}
    }
}

/// The free pool and the stacks of all task slots.
pub struct StackletAllocator {
    /// Size of the heap region in bytes.
    pub heap_size: usize,
    /// Bytes in the free pool.
    pub free_bytes: usize,
    /// Every allocated stacklet, in allocation order.
    pub stacklets: Vec<Stacklet>,
    /// Stack-size limit of each task slot.
    pub limits: Vec<Option<usize>>,
}

impl StackletAllocator {
    /// The free pool and the stacklets partition the heap; every stacklet is
    /// non-empty and has a valid owner, which stays within its limit.
    pub open spec fn wf(&self) -> bool {
        &&& self.heap_size <= MEM_CHUNK_LINK_SPAN
        &&& self.free_bytes + total(self.stacklets@) == self.heap_size
        &&& self.limits@.len() == MAX_TASK_NUMBER
        &&& forall|j: int| 0 <= j < self.stacklets@.len() ==> {
            &&& self.stacklets@[j].owner < MAX_TASK_NUMBER
            &&& self.stacklets@[j].size > 0
        }
        &&& forall|t: int| 0 <= t < MAX_TASK_NUMBER ==> #[trigger] self.limits@[t] is Some
            ==> owned_by(self.stacklets@, t) <= self.limits@[t]->Some_0
    }

    pub open spec fn used_spec(&self, t: int) -> int {
        owned_by(self.stacklets@, t)
    }

    /// What a growth request yields: the limit is checked first, then the pool.
    pub open spec fn grow_outcome(&self, task: int, requested: int, hot: bool) -> Result<usize, GrowError> {
        let g = grant_size(requested, hot);
        if self.limits@[task] is Some && self.used_spec(task) + g > self.limits@[task]->Some_0 {
            Err(GrowError::LimitExceeded)
        } else if g > self.free_bytes {
            Err(GrowError::OutOfMemory)
        } else {
            Ok(g as usize)
        }
    }

    /// An allocator over a heap of `heap_size` bytes, all free. The heap must
    /// fit in the span that compact links can address.
    pub fn new(heap_size: usize) -> (r: Option<StackletAllocator>)
        ensures
            r.is_some() <==> heap_size <= MEM_CHUNK_LINK_SPAN,
            r.is_some() ==> {
                let a = r.unwrap();
                &&& a.wf()
                &&& a.heap_size == heap_size
                &&& a.free_bytes == heap_size
                &&& a.stacklets@.len() == 0
                &&& forall|t: int| 0 <= t < MAX_TASK_NUMBER ==> a.limits@[t] is None
            },
    {
        if heap_size > MEM_CHUNK_LINK_SPAN {
            return None;
        }
        let mut limits: Vec<Option<usize>> = Vec::new();
        let mut i: usize = 0;
        while i < MAX_TASK_NUMBER
            invariant
                i <= MAX_TASK_NUMBER,
                limits@.len() == i,
                forall|t: int| 0 <= t < i ==> limits@[t] is None,
            decreases MAX_TASK_NUMBER - i,
        {
            limits.push(None);
            i = i + 1;
        }
        Some(StackletAllocator { heap_size, free_bytes: heap_size, stacklets: Vec::new(), limits })
    }

    /// Bytes that task `task` holds in its stack.
    pub fn used(&self, task: usize) -> (r: usize)
        requires
            self.wf(),
        ensures
            r == self.used_spec(task as int),
    {
        let mut sum: usize = 0;
        let mut i: usize = 0;
        while i < self.stacklets.len()
            invariant
                self.wf(),
                i <= self.stacklets@.len(),
                sum == owned_by(self.stacklets@.take(i as int), task as int),
            decreases self.stacklets@.len() - i,
        {
            proof {
                let s = self.stacklets@;
                assert(s.take(i as int + 1).drop_last() =~= s.take(i as int));
                lemma_owned_bounds(s.take(i as int + 1), task as int);
                lemma_prefix_total(s, i as int + 1);
            }
            if self.stacklets[i].owner == task {
                sum = sum + self.stacklets[i].size;
            }
            i = i + 1;
        }
        proof {
            assert(self.stacklets@.take(i as int) =~= self.stacklets@);
        }
        sum
    }

    /// Number of stacklets in the chain of `task`.
    pub fn chain_length(&self, task: usize) -> (r: usize)
        ensures
            r == chain_len(self.stacklets@, task as int),
    {
        let ghost s = self.stacklets@;
        let mut n: usize = 0;
        let mut i: usize = 0;
        while i < self.stacklets.len()
            invariant
                self.stacklets@ == s,
                i <= s.len(),
                n == chain_len(s.take(i as int), task as int),
            decreases s.len() - i,
        {
            proof {
                assert(s.take(i as int + 1).drop_last() =~= s.take(i as int));
                lemma_chain_len_bound(s.take(i as int), task as int);
            }
            if self.stacklets[i].owner == task {
                n = n + 1;
            }
            i = i + 1;
        }
        proof {
            assert(s.take(i as int) =~= s);
        }
        n
    }

    /// Sets the stack-size limit of a task slot. Refused, with nothing
    /// changed, when the task already holds more than the new limit.
    pub fn set_limit(&mut self, task: usize, limit: Option<usize>) -> (r: bool)
        requires
            old(self).wf(),
            task < MAX_TASK_NUMBER,
        ensures
            final(self).wf(),
            r == (limit is None || old(self).used_spec(task as int) <= limit->Some_0),
            r ==> final(self).limits@ == old(self).limits@.update(task as int, limit),
            !r ==> final(self).limits@ == old(self).limits@,
            final(self).stacklets@ == old(self).stacklets@,
            final(self).free_bytes == old(self).free_bytes,
            final(self).heap_size == old(self).heap_size,
    {
        let u = self.used(task);
        match limit {
            Some(l) => {
                if u > l {
                    return false;
                }
            },
            None => {},
        }
        self.limits.set(task, limit);
        true
    }

    /// Grows the stack of `task` by one stacklet for a request of
    /// `requested` bytes; `hot` says the request comes from a hot site.
    pub fn grow(&mut self, task: usize, requested: usize, hot: bool) -> (r: Result<usize, GrowError>)
        requires
            old(self).wf(),
            task < MAX_TASK_NUMBER,
        ensures
            final(self).wf(),
            r == old(self).grow_outcome(task as int, requested as int, hot),
            r is Ok ==> final(self).stacklets@ == old(self).stacklets@.push(
                Stacklet { owner: task, size: r->Ok_0 },
            ),
            r is Ok ==> final(self).free_bytes == old(self).free_bytes - r->Ok_0,
            r is Err ==> *final(self) == *old(self),
            final(self).limits@ == old(self).limits@,
            final(self).heap_size == old(self).heap_size,
    {
        let u = self.used(task);
        proof {
            lemma_owned_bounds(self.stacklets@, task as int);
        }
        let extra: usize = if hot { HOT_SPLIT_EXTRA_ALLOC_SIZE } else { 0 };
        if requested > MEM_CHUNK_LINK_SPAN {
            proof {
                if self.limits@[task as int] is Some {
                    assert(self.limits@[task as int]->Some_0 >= 0);
                }
            }
            return match self.limits[task] {
                Some(l) => {
                    if (u as u128) + (requested as u128) + (STACKLET_ADDITION_ALLOC_SIZE as u128)
                        + (extra as u128) > l as u128 {
                        Err(GrowError::LimitExceeded)
                    } else {
                        Err(GrowError::OutOfMemory)
                    }
                },
                None => Err(GrowError::OutOfMemory),
            };
        }
        let g: usize = requested + STACKLET_ADDITION_ALLOC_SIZE + extra;
        match self.limits[task] {
            Some(l) => {
                if u + g > l {
                    return Err(GrowError::LimitExceeded);
                }
            },
            None => {},
        }
        if g > self.free_bytes {
            return Err(GrowError::OutOfMemory);
        }
        let ghost s0 = self.stacklets@;
        self.stacklets.push(Stacklet { owner: task, size: g });
        self.free_bytes = self.free_bytes - g;
        proof {
            let s1 = self.stacklets@;
            assert(s1.drop_last() =~= s0);
            assert forall|t: int| 0 <= t < MAX_TASK_NUMBER && t != task implies owned_by(s1, t)
                == owned_by(s0, t) by {}
        }
        Ok(g)
    }

    /// Frees the topmost stacklet of `task` back to the pool and returns its
    /// size, or `None` when the task holds no stacklet.
    pub fn shrink(&mut self, task: usize) -> (r: Option<usize>)
        requires
            old(self).wf(),
            task < MAX_TASK_NUMBER,
        ensures
            final(self).wf(),
            r is None <==> top_index(old(self).stacklets@, task as int) == -1,
            r is Some ==> {
                let i = top_index(old(self).stacklets@, task as int);
                &&& r->Some_0 == old(self).stacklets@[i].size
                &&& final(self).stacklets@ == old(self).stacklets@.remove(i)
                &&& final(self).free_bytes == old(self).free_bytes + r->Some_0
            },
            r is None ==> *final(self) == *old(self),
            final(self).limits@ == old(self).limits@,
            final(self).heap_size == old(self).heap_size,
    {
        let ghost s0 = self.stacklets@;
        proof {
            lemma_top_index(s0, task as int);
        }
        let mut i: usize = self.stacklets.len();
        proof {
            assert(s0.take(i as int) =~= s0);
        }
        while i > 0
            invariant
                i <= s0.len(),
                self.stacklets@ == s0,
                *self == *old(self),
                self.wf(),
                top_index(s0, task as int) == top_index(s0.take(i as int), task as int),
            decreases i,
        {
            if self.stacklets[i - 1].owner == task {
                let st = self.stacklets.remove(i - 1);
                proof {
                    assert(s0.take(i as int).drop_last() =~= s0.take(i as int - 1));
                    lemma_remove(s0, i as int - 1, task as int);
                    lemma_owned_bounds(self.stacklets@, 0);
                    assert forall|t: int| 0 <= t < MAX_TASK_NUMBER && #[trigger] self.limits@[t] is Some
                        implies owned_by(self.stacklets@, t) <= self.limits@[t]->Some_0 by {
                        lemma_remove(s0, i as int - 1, t);
                    }
                    assert forall|j: int| 0 <= j < self.stacklets@.len() implies self.stacklets@[j].owner
                        < MAX_TASK_NUMBER && self.stacklets@[j].size > 0 by {
                        if j >= i - 1 {
                            assert(self.stacklets@[j] == s0[j + 1]);
                        } else {
                            assert(self.stacklets@[j] == s0[j]);
                        }
                    }
                }
                self.free_bytes = self.free_bytes + st.size;
                return Some(st.size);
            }
            proof {
                assert(s0.take(i as int).drop_last() =~= s0.take(i as int - 1));
            }
            i = i - 1;
        }
        proof {
            assert(s0.take(0) =~= Seq::<Stacklet>::empty());
        }
        None
    }

    /// Returns every stacklet of `task` to the pool, as when the task is
    /// reclaimed, and gives the number of bytes freed.
    pub fn release_all(&mut self, task: usize) -> (r: usize)
        requires
            old(self).wf(),
            task < MAX_TASK_NUMBER,
        ensures
            final(self).wf(),
            r == old(self).used_spec(task as int),
            final(self).used_spec(task as int) == 0,
            final(self).free_bytes == old(self).free_bytes + r,
            forall|t: int| t != task ==> final(self).used_spec(t) == old(self).used_spec(t),
            final(self).limits@ == old(self).limits@,
            final(self).heap_size == old(self).heap_size,
    {
        let mut freed: usize = 0;
        loop
            invariant
                self.wf(),
                task < MAX_TASK_NUMBER,
                freed + self.used_spec(task as int) == old(self).used_spec(task as int),
                self.free_bytes == old(self).free_bytes + freed,
                forall|t: int| t != task ==> self.used_spec(t) == old(self).used_spec(t),
                self.limits@ == old(self).limits@,
                self.heap_size == old(self).heap_size,
            decreases self.stacklets@.len(),
        {
            let ghost s0 = self.stacklets@;
            proof {
                lemma_top_index(s0, task as int);
                lemma_owned_bounds(s0, task as int);
            }
            match self.shrink(task) {
                Some(n) => {
                    proof {
                        let i = top_index(s0, task as int);
                        lemma_remove(s0, i, task as int);
                        assert forall|t: int| t != task implies self.used_spec(t) == old(self).used_spec(t) by {
                            lemma_remove(s0, i, t);
                        }
                    }
                    freed = freed + n;
                },
                None => {
                    return freed;
                },
            }
        }
    }
}

pub proof fn lemma_prefix_total(s: Seq<Stacklet>, n: int)
    requires
        0 <= n <= s.len(),
    ensures
        total(s.take(n)) <= total(s),
    decreases s.len() - n,
{
    if n < s.len() {
        lemma_prefix_total(s, n + 1);
        assert(s.take(n + 1).drop_last() =~= s.take(n));
        lemma_owned_bounds(s.take(n + 1), 0);
        assert(s.take(n + 1).last().size >= 0);
    } else {
        assert(s.take(n) =~= s);
    }
}

/// Sum of what the first `n` task slots own in `s`.
pub open spec fn owned_by_tasks(s: Seq<Stacklet>, n: int) -> int
    decreases n,
{
    if n <= 0 {
        0
    } else {
        owned_by_tasks(s, n - 1) + owned_by(s, n - 1)
    }
}

proof fn lemma_owned_by_tasks_step(s: Seq<Stacklet>, n: int)
    requires
        s.len() > 0,
        n >= 0,
    ensures
        owned_by_tasks(s, n) == owned_by_tasks(s.drop_last(), n) + (if 0 <= s.last().owner < n {
            s.last().size as int
        } else {
            0
        }),
    decreases n,
{
    if n > 0 {
        lemma_owned_by_tasks_step(s, n - 1);
    }
}

proof fn lemma_owned_by_tasks_empty(s: Seq<Stacklet>, n: int)
    requires
        s.len() == 0,
    ensures
        owned_by_tasks(s, n) == 0,
    decreases n,
{
    if n > 0 {
        lemma_owned_by_tasks_empty(s, n - 1);
    }
}

proof fn lemma_total_by_tasks(s: Seq<Stacklet>)
    requires
        forall|j: int| 0 <= j < s.len() ==> s[j].owner < MAX_TASK_NUMBER,
    ensures
        total(s) == owned_by_tasks(s, MAX_TASK_NUMBER as int),
    decreases s.len(),
{
    if s.len() > 0 {
        assert forall|j: int| 0 <= j < s.len() - 1 implies s.drop_last()[j].owner < MAX_TASK_NUMBER by {
            assert(s.drop_last()[j] == s[j]);
        }
        lemma_total_by_tasks(s.drop_last());
        lemma_owned_by_tasks_step(s, MAX_TASK_NUMBER as int);
    } else {
        lemma_owned_by_tasks_empty(s, MAX_TASK_NUMBER as int);
    }
}

/// Whatever sequence of grows, shrinks and releases has run (each keeps the
/// allocator well formed), the stacks of all tasks and the free pool together
/// hold exactly the heap region: no byte leaks and none is freed twice.
pub proof fn lemma_heap_conserved(a: StackletAllocator)
    requires
        a.wf(),
    ensures
        a.free_bytes + owned_by_tasks(a.stacklets@, MAX_TASK_NUMBER as int) == a.heap_size,
        owned_by_tasks(a.stacklets@, MAX_TASK_NUMBER as int) <= a.heap_size,
{
    lemma_total_by_tasks(a.stacklets@);
}

/// A task whose limit is `L` never holds more than `L` bytes of stack, for
/// any pattern of allocation.
pub proof fn lemma_limit_respected(a: StackletAllocator, t: int)
    requires
        a.wf(),
        0 <= t < MAX_TASK_NUMBER,
        a.limits@[t] is Some,
    ensures
        a.used_spec(t) <= a.limits@[t]->Some_0,
{
}

/// Address that a compact 16-bit link designates: links count 4-byte units
/// from a fixed base.
pub open spec fn link_addr(link: u16) -> int {
    MEM_CHUNK_LINK_OFFSET + 4 * link
}

/// Compact link of a chunk address, or `None` when the address is not
/// 4-byte aligned or lies outside the span links can address.
pub fn link_of(addr: u32) -> (r: Option<u16>)
    ensures
        r is Some <==> (MEM_CHUNK_LINK_OFFSET <= addr && addr < MEM_CHUNK_LINK_OFFSET
            + MEM_CHUNK_LINK_SPAN && addr % 4 == 0),
        r is Some ==> link_addr(r->Some_0) == addr,
{
    if addr < MEM_CHUNK_LINK_OFFSET || addr % 4 != 0 {
        return None;
    }
    let off: u32 = addr - MEM_CHUNK_LINK_OFFSET;
    if off >= 0x4_0000 {
        return None;
    }
    Some((off / 4) as u16)
}

/// Chunk address that a compact link designates.
pub fn addr_of_link(link: u16) -> (r: u32)
    ensures
        r == link_addr(link),
{
    MEM_CHUNK_LINK_OFFSET + 4 * (link as u32)
}

/// Every link designates an aligned address inside the addressable span,
/// and distinct links designate distinct addresses.
pub proof fn lemma_links_exact(a: u16, b: u16)
    ensures
        MEM_CHUNK_LINK_OFFSET <= link_addr(a) < MEM_CHUNK_LINK_OFFSET + MEM_CHUNK_LINK_SPAN,
        link_addr(a) % 4 == 0,
        a != b ==> link_addr(a) != link_addr(b),
{
}

} // verus!
