//! Hot-split detection: a small per-task cache that counts stacklet
//! allocations by call site.
//!
//! Each count belongs to the stacklet that was on top of the task's stack
//! when the site asked to grow, named by its position in the chain (the
//! chain's length at that moment). Entries are kept least recently used
//! first. A hit moves the entry to the back; a miss on a full cache evicts the
//! front entry, so eviction is deterministic. A site is hot once its count
//! reaches the threshold within the lifetime of one stacklet.

use crate::config::{HOT_SPLIT_DETECTION_THRESHOLD, HOT_SPLIT_PREVENTION_CACHE_SIZE};
use vstd::prelude::*;

verus! {

/// A call site with its recent allocation count.
#[derive(Clone, Copy, Debug, PartialEq, Eq, Structural)]
pub struct HotSplitEntry {
    pub site: u32,
    pub count: u32,
    /// Position in the chain of the stacklet the count belongs to.
    pub stacklet: usize,
}

/// Index of the entry for `site` in `s`, or -1 when there is none.
pub open spec fn index_of(s: Seq<HotSplitEntry>, site: u32) -> int
    decreases s.len(),
{
    if s.len() == 0 {
        -1
    } else if s.last().site == site {
        s.len() - 1
    } else {
        index_of(s.drop_last(), site)
    }
}

/// Count of `site` after one more allocation asked from stacklet `top`,
/// saturating. A request from another stacklet starts a new count.
pub open spec fn bumped(s: Seq<HotSplitEntry>, site: u32, top: usize) -> u32 {
    let i = index_of(s, site);
    if i < 0 || s[i].stacklet != top {
        1
    } else if s[i].count == u32::MAX {
        u32::MAX
    } else {
        (s[i].count + 1) as u32
    }
}

/// The cache after recording one allocation from `site` on stacklet `top`.
pub open spec fn after_record(s: Seq<HotSplitEntry>, site: u32, top: usize) -> Seq<HotSplitEntry> {
    let i = index_of(s, site);
    let rest = if i >= 0 {
        s.remove(i)
    } else if s.len() >= HOT_SPLIT_PREVENTION_CACHE_SIZE {
        s.remove(0)
    } else {
        s
    };
    rest.push(HotSplitEntry { site, count: bumped(s, site, top), stacklet: top })
}

/// An entry after stacklet `freed` is freed: a count that belonged to it,
/// or to a stacklet above it, is cleared unless it has made its site hot.
pub open spec fn cleared(e: HotSplitEntry, freed: usize) -> HotSplitEntry {
    if e.stacklet < freed || e.count >= HOT_SPLIT_DETECTION_THRESHOLD {
        e
    } else {
        HotSplitEntry { count: 0, ..e }
    }
}

pub open spec fn distinct_sites(s: Seq<HotSplitEntry>) -> bool {
    forall|i: int, j: int| 0 <= i < j < s.len() ==> s[i].site != s[j].site
}

pub proof fn lemma_index_of(s: Seq<HotSplitEntry>, site: u32)
    ensures
        -1 <= index_of(s, site) < s.len(),
        index_of(s, site) >= 0 ==> s[index_of(s, site)].site == site,
        index_of(s, site) == -1 <==> (forall|j: int| 0 <= j < s.len() ==> s[j].site != site),
    decreases s.len(),
{
    if s.len() > 0 {
        lemma_index_of(s.drop_last(), site);
        assert forall|j: int| 0 <= j < s.len() - 1 implies s.drop_last()[j] == s[j] by {}
    }
}

/// The per-task hot-split cache.
pub struct HotSplitCache {
    /// Entries, least recently used first.
    pub entries: Vec<HotSplitEntry>,
}

impl HotSplitCache {
    pub open spec fn wf(&self) -> bool {
        &&& self.entries@.len() <= HOT_SPLIT_PREVENTION_CACHE_SIZE
        &&& distinct_sites(self.entries@)
    }

    /// An empty cache.
    pub fn new() -> (r: HotSplitCache)
        ensures
            r.wf(),
            r.entries@.len() == 0,
    {
        HotSplitCache { entries: Vec::new() }
    }

    /// Records one stacklet allocation asked by `site` while stacklet `top`
    /// is on top of the stack, and says whether the site is now hot.
    pub fn record_split(&mut self, site: u32, top: usize) -> (hot: bool)
        requires
            old(self).wf(),
        ensures
            final(self).wf(),
            final(self).entries@ == after_record(old(self).entries@, site, top),
            hot == (bumped(old(self).entries@, site, top) >= HOT_SPLIT_DETECTION_THRESHOLD),
    {
        let ghost s = self.entries@;
        proof {
            lemma_index_of(s, site);
        }
        let pos = self.find(site);
        let found = pos.is_some();
        let i: usize = match pos {
            Some(k) => k + 1,
            None => 0,
        };
        let count: u32;
        if found {
            let e = self.entries.remove(i - 1);
            count = if e.stacklet != top { 1 } else if e.count == u32::MAX { u32::MAX } else { e.count + 1 };
        } else {
            if self.entries.len() >= HOT_SPLIT_PREVENTION_CACHE_SIZE {
                self.entries.remove(0);
            }
            count = 1;
        }
        let ghost rest = self.entries@;
        proof {
            assert forall|j: int| 0 <= j < rest.len() implies rest[j].site != site by {
                if found {
                    let k = i as int - 1;
                    if j < k {
                        assert(rest[j] == s[j]);
                    } else {
                        assert(rest[j] == s[j + 1]);
                    }
                } else if s.len() >= HOT_SPLIT_PREVENTION_CACHE_SIZE {
                    assert(rest[j] == s[j + 1]);
                }
            }
            assert forall|a: int, b: int| 0 <= a < b < rest.len() implies rest[a].site
                != rest[b].site by {
                if found {
                    let k = i as int - 1;
                    let a2 = if a < k { a } else { a + 1 };
                    let b2 = if b < k { b } else { b + 1 };
                    assert(rest[a] == s[a2]);
                    assert(rest[b] == s[b2]);
                } else if s.len() >= HOT_SPLIT_PREVENTION_CACHE_SIZE {
                    assert(rest[a] == s[a + 1]);
                    assert(rest[b] == s[b + 1]);
                }
            }
        }
        self.entries.push(HotSplitEntry { site, count, stacklet: top });
        proof {
            assert(self.entries@ =~= after_record(s, site, top));
        }
        count >= HOT_SPLIT_DETECTION_THRESHOLD
    }

    /// Whether `site` is currently hot.
    pub fn is_hot(&self, site: u32) -> (r: bool)
        requires
            self.wf(),
        ensures
            r == (index_of(self.entries@, site) >= 0 && self.entries@[index_of(self.entries@, site)].count
                >= HOT_SPLIT_DETECTION_THRESHOLD),
    {
        match self.find(site) {
            Some(k) => self.entries[k].count >= HOT_SPLIT_DETECTION_THRESHOLD,
            None => false,
        }
    }

    /// Position of the entry for `site`.
    pub fn find(&self, site: u32) -> (r: Option<usize>)
        ensures
            r is None <==> index_of(self.entries@, site) == -1,
            r is Some ==> r->Some_0 == index_of(self.entries@, site),
            r is Some ==> r->Some_0 < self.entries@.len(),
    {
        let ghost s = self.entries@;
        proof {
            lemma_index_of(s, site);
            assert(s.take(s.len() as int) =~= s);
        }
        let mut i: usize = self.entries.len();
        while i > 0
            invariant
                i <= s.len(),
                self.entries@ == s,
                index_of(s, site) == index_of(s.take(i as int), site),
            decreases i,
        {
            proof {
                assert(s.take(i as int).drop_last() =~= s.take(i as int - 1));
            }
            if self.entries[i - 1].site == site {
                return Some(i - 1);
            }
            i = i - 1;
        }
        proof {
            assert(s.take(0) =~= Seq::<HotSplitEntry>::empty());
        }
        None
    }

    /// Forgets every site, as when the owning task is reclaimed.
    pub fn clear(&mut self)
        ensures
            final(self).wf(),
            final(self).entries@.len() == 0,
    {
        self.entries.clear();
    }

    /// Stacklet `freed` of the task is freed: the counts that belonged to
    /// it, or to a stacklet above it, go back to zero unless they made their
    /// site hot. Counts of stacklets that survive are kept.
    pub fn stacklet_freed(&mut self, freed: usize)
        requires
            old(self).wf(),
        ensures
            final(self).wf(),
            final(self).entries@ == old(self).entries@.map_values(|e: HotSplitEntry| cleared(e, freed)),
    {
        let ghost s = self.entries@;
        let mut i: usize = 0;
        while i < self.entries.len()
            invariant
                i <= s.len(),
                self.entries@.len() == s.len(),
                forall|j: int| 0 <= j < i ==> self.entries@[j] == cleared(s[j], freed),
                forall|j: int| i <= j < s.len() ==> self.entries@[j] == s[j],
            decreases s.len() - i,
        {
            let e = self.entries[i];
            if e.stacklet >= freed && e.count < HOT_SPLIT_DETECTION_THRESHOLD {
                self.entries.set(i, HotSplitEntry { count: 0, ..e });
            }
            i = i + 1;
        }
        proof {
            assert(self.entries@ =~= s.map_values(|e: HotSplitEntry| cleared(e, freed)));
        }
    }
}

/// After any number of recordings and resets the cache holds at most its
/// configured number of entries, one per site.
pub proof fn lemma_cache_bounded(c: HotSplitCache, site: u32, top: usize)
    requires
        c.wf(),
    ensures
        c.entries@.len() <= HOT_SPLIT_PREVENTION_CACHE_SIZE,
        after_record(c.entries@, site, top).len() <= HOT_SPLIT_PREVENTION_CACHE_SIZE,
{
    lemma_index_of(c.entries@, site);
}

} // verus!
