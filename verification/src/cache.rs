//! The per-tenant compiled-set cache. An entry is `NotCompiled` until a
//! compile runs, then holds the compile outcome (`Compiled` or `Error`)
//! until a forced refresh replaces it or `clear` discards every entry.

use vstd::prelude::*;
use crate::alist::{
    alist_map, alist_wf, lemma_alist_contains, lemma_alist_push, lemma_alist_update,
    lemma_alist_value,
};
use crate::rules::{EntryV, VerificationSet};

verus! {

/// The cached compile state of one tenant.
pub enum VerificationSetStatus {
    NotCompiled,
    Error(String),
    Compiled(VerificationSet),
}

/// The mathematical reading of a cache entry.
pub ghost enum StatusView {
    NotCompiled,
    Error(Seq<char>),
    Compiled(Seq<EntryV>),
}

pub open spec fn status_view(s: VerificationSetStatus) -> StatusView {
    match s {
        VerificationSetStatus::NotCompiled => StatusView::NotCompiled,
        VerificationSetStatus::Error(m) => StatusView::Error(m@),
        VerificationSetStatus::Compiled(set) => StatusView::Compiled(set.view_entries()),
    }
}

impl VerificationSetStatus {
    pub open spec fn wf(&self) -> bool {
        match self {
            VerificationSetStatus::Compiled(set) => set.wf(),
            _ => true,
        }
    }

    /// Whether the entry already holds a compile outcome (`Compiled` or
    /// `Error`), as opposed to the initial `NotCompiled` state.
    pub fn is_compiled(&self) -> (r: bool)
        ensures
            r == !(status_view(*self) is NotCompiled),
    {
        match self {
            VerificationSetStatus::NotCompiled => false,
            _ => true,
        }
    }
}

pub open spec fn cache_pairs(s: Seq<(u64, VerificationSetStatus)>) -> Seq<(u64, StatusView)> {
    s.map_values(|p: (u64, VerificationSetStatus)| (p.0, status_view(p.1)))
}

/// The cache: one lazily created entry per tenant.
pub struct RuleCache {
    pub entries: Vec<(u64, VerificationSetStatus)>,
}

impl RuleCache {
    pub open spec fn wf(&self) -> bool {
        alist_wf(cache_pairs(self.entries@)) && forall|i: int|
            0 <= i < self.entries@.len() ==> (#[trigger] self.entries@[i]).1.wf()
    }

    /// tenant -> cached status. A tenant without an entry is indistinguishable
    /// from one whose entry is `NotCompiled`: both mean no compile outcome.
    pub open spec fn view_map(&self) -> Map<u64, StatusView> {
        alist_map(cache_pairs(self.entries@))
    }

    /// The status the next read observes for a tenant.
    pub open spec fn status_of(&self, t: u64) -> StatusView {
        if self.view_map().contains_key(t) {
            self.view_map()[t]
        } else {
            StatusView::NotCompiled
        }
    }

    pub fn new() -> (c: RuleCache)
        ensures
            c.wf(),
            c.view_map() == Map::<u64, StatusView>::empty(),
    {
        let c = RuleCache { entries: Vec::new() };
        proof {
            assert(cache_pairs(c.entries@) =~= Seq::<(u64, StatusView)>::empty());
        }
        c
    }

    pub fn get(&self, t: u64) -> (r: Option<&VerificationSetStatus>)
        requires
            self.wf(),
        ensures
            match r {
                Some(st) => self.view_map().contains_key(t) && self.view_map()[t] == status_view(
                    *st,
                ) && st.wf(),
                None => !self.view_map().contains_key(t),
            },
    {
        let ghost pairs = cache_pairs(self.entries@);
        let mut i: usize = 0;
        while i < self.entries.len()
            invariant
                0 <= i <= self.entries@.len(),
                forall|j: int| 0 <= j < i ==> (#[trigger] pairs[j]).0 != t,
            decreases self.entries@.len() - i,
        {
            if self.entries[i].0 == t {
                proof {
                    lemma_alist_value(pairs, i as int);
                }
                return Some(&self.entries[i].1);
            }
            i = i + 1;
        }
        proof {
            lemma_alist_contains(pairs, t);
        }
        None
    }

    pub fn put(&mut self, t: u64, st: VerificationSetStatus)
        requires
            old(self).wf(),
            st.wf(),
        ensures
            final(self).wf(),
            final(self).view_map() == old(self).view_map().insert(t, status_view(st)),
    {
        let ghost pairs = cache_pairs(self.entries@);
        let ghost stv = status_view(st);
        let mut i: usize = 0;
        let mut slot = Some(st);
        while i < self.entries.len()
            invariant
                0 <= i <= self.entries@.len(),
                forall|j: int| 0 <= j < i ==> (#[trigger] pairs[j]).0 != t,
                *self == *old(self),
                slot is Some && status_view(slot->0) == stv && slot->0.wf(),
            decreases self.entries@.len() - i,
        {
            if self.entries[i].0 == t {
                let taken = slot.take().unwrap();
                self.entries[i] = (t, taken);
                proof {
                    assert(cache_pairs(self.entries@) =~= pairs.update(i as int, (t, stv)));
                    lemma_alist_update(pairs, i as int, stv);
                    assert(self.view_map() =~= old(self).view_map().insert(t, stv));
                }
                return ;
            }
            i = i + 1;
        }
        proof {
            lemma_alist_contains(pairs, t);
        }
        let taken = slot.take().unwrap();
        self.entries.push((t, taken));
        proof {
            assert(cache_pairs(self.entries@) =~= pairs.push((t, stv)));
            lemma_alist_push(pairs, t, stv);
            assert(self.view_map() =~= old(self).view_map().insert(t, stv));
        }
    }

    /// Discards every cached entry; every tenant recompiles on next access.
    pub fn clear(&mut self)
        ensures
            final(self).wf(),
            final(self).view_map() == Map::<u64, StatusView>::empty(),
    {
        self.entries.clear();
        proof {
            assert(cache_pairs(self.entries@) =~= Seq::<(u64, StatusView)>::empty());
        }
    }
}

} // verus!
