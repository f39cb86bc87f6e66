//! The tenant-scoped persisted state: active-role assignments, custom-rule
//! definitions, and the cooldown log. Each relation is an association list
//! with a unique key column, read through the map model of `crate::alist`.

use vstd::prelude::*;
use crate::alist::{
    alist_map, alist_wf, count_where, lemma_alist_contains, lemma_alist_push, lemma_alist_remove,
    lemma_alist_update, lemma_alist_value,
};
use crate::text::str_eq;

verus! {

/// One active-role assignment: the rule of a tenant bound to a target group.
pub struct ActiveRow {
    pub tenant: u64,
    pub rule: String,
    pub group: u64,
    pub updated: u64,
}

/// One custom-rule definition: the condition text of a named rule.
pub struct CustomRow {
    pub tenant: u64,
    pub rule: String,
    pub condition: String,
    pub updated: u64,
}

pub open spec fn active_pair(r: ActiveRow) -> ((u64, Seq<char>), (u64, u64)) {
    ((r.tenant, r.rule@), (r.group, r.updated))
}

pub open spec fn active_pairs(s: Seq<ActiveRow>) -> Seq<((u64, Seq<char>), (u64, u64))> {
    s.map_values(|r: ActiveRow| active_pair(r))
}

pub open spec fn custom_pair(r: CustomRow) -> ((u64, Seq<char>), (Seq<char>, u64)) {
    ((r.tenant, r.rule@), (r.condition@, r.updated))
}

pub open spec fn custom_pairs(s: Seq<CustomRow>) -> Seq<((u64, Seq<char>), (Seq<char>, u64))> {
    s.map_values(|r: CustomRow| custom_pair(r))
}

/// How many active-role assignments a tenant has.
pub open spec fn count_active(ap: Seq<((u64, Seq<char>), (u64, u64))>, t: u64) -> nat {
    count_where(ap, |p: ((u64, Seq<char>), (u64, u64))| p.0.0 == t)
}

/// How many active-role assignments a tenant has besides one rule name.
pub open spec fn count_active_excl(
    ap: Seq<((u64, Seq<char>), (u64, u64))>,
    t: u64,
    name: Seq<char>,
) -> nat {
    count_where(ap, |p: ((u64, Seq<char>), (u64, u64))| p.0.0 == t && p.0.1 != name)
}

/// How many custom-rule definitions a tenant has.
pub open spec fn count_custom(cp: Seq<((u64, Seq<char>), (Seq<char>, u64))>, t: u64) -> nat {
    count_where(cp, |p: ((u64, Seq<char>), (Seq<char>, u64))| p.0.0 == t)
}

/// How many custom-rule definitions a tenant has besides one rule name.
pub open spec fn count_custom_excl(
    cp: Seq<((u64, Seq<char>), (Seq<char>, u64))>,
    t: u64,
    name: Seq<char>,
) -> nat {
    count_where(cp, |p: ((u64, Seq<char>), (Seq<char>, u64))| p.0.0 == t && p.0.1 != name)
}

/// The persisted store. The cooldown relation is keyed by
/// (tenant, member, manual-trigger flag) and holds the last update time.
pub struct Store {
    pub active: Vec<ActiveRow>,
    pub custom: Vec<CustomRow>,
    pub cooldown: Vec<((u64, u64, bool), u64)>,
}

impl Store {
    pub open spec fn wf(&self) -> bool {
        alist_wf(active_pairs(self.active@)) && alist_wf(custom_pairs(self.custom@)) && alist_wf(
            self.cooldown@,
        )
    }

    /// (tenant, rule name) -> (target group, last updated).
    pub open spec fn active_map(&self) -> Map<(u64, Seq<char>), (u64, u64)> {
        alist_map(active_pairs(self.active@))
    }

    /// (tenant, rule name) -> (condition text, last updated).
    pub open spec fn custom_map(&self) -> Map<(u64, Seq<char>), (Seq<char>, u64)> {
        alist_map(custom_pairs(self.custom@))
    }

    /// (tenant, member, manual) -> last update time.
    pub open spec fn cooldown_map(&self) -> Map<(u64, u64, bool), u64> {
        alist_map(self.cooldown@)
    }

    pub open spec fn active_count_spec(&self, t: u64) -> nat {
        count_active(active_pairs(self.active@), t)
    }

    pub open spec fn active_count_excl_spec(&self, t: u64, name: Seq<char>) -> nat {
        count_active_excl(active_pairs(self.active@), t, name)
    }

    pub open spec fn custom_count_spec(&self, t: u64) -> nat {
        count_custom(custom_pairs(self.custom@), t)
    }

    pub open spec fn custom_count_excl_spec(&self, t: u64, name: Seq<char>) -> nat {
        count_custom_excl(custom_pairs(self.custom@), t, name)
    }

    pub fn new() -> (s: Store)
        ensures
            s.wf(),
            s.active_map() == Map::<(u64, Seq<char>), (u64, u64)>::empty(),
            s.custom_map() == Map::<(u64, Seq<char>), (Seq<char>, u64)>::empty(),
            s.cooldown_map() == Map::<(u64, u64, bool), u64>::empty(),
            s.active@.len() == 0,
            s.custom@.len() == 0,
            s.cooldown@.len() == 0,
    {
        let s = Store { active: Vec::new(), custom: Vec::new(), cooldown: Vec::new() };
        proof {
            assert(active_pairs(s.active@) =~= Seq::<((u64, Seq<char>), (u64, u64))>::empty());
            assert(custom_pairs(s.custom@) =~= Seq::<((u64, Seq<char>), (Seq<char>, u64))>::empty());
        }
        s
    }

    pub fn active_get(&self, t: u64, name: &str) -> (r: Option<(u64, u64)>)
        requires
            self.wf(),
        ensures
            match r {
                Some(v) => self.active_map().contains_key((t, name@)) && self.active_map()[
                    (t, name@)
                ] == v,
                None => !self.active_map().contains_key((t, name@)),
            },
    {
        let ghost pairs = active_pairs(self.active@);
        let mut i: usize = 0;
        while i < self.active.len()
            invariant
                0 <= i <= self.active@.len(),
                forall|j: int| 0 <= j < i ==> (#[trigger] pairs[j]).0 != (t, name@),
            decreases self.active@.len() - i,
        {
            let row = &self.active[i];
            if row.tenant == t && str_eq(row.rule.as_str(), name) {
                proof {
                    lemma_alist_value(pairs, i as int);
                }
                return Some((row.group, row.updated));
            }
            i = i + 1;
        }
        proof {
            lemma_alist_contains(pairs, (t, name@));
        }
        None
    }

    pub fn active_put(&mut self, t: u64, name: &str, group: u64, updated: u64)
        requires
            old(self).wf(),
        ensures
            final(self).wf(),
            final(self).active_map() == old(self).active_map().insert((t, name@), (group, updated)),
            final(self).custom@ == old(self).custom@,
            final(self).cooldown@ == old(self).cooldown@,
            old(self).active_map().contains_key((t, name@)) ==> exists|i: int|
                0 <= i < old(self).active@.len() && (#[trigger] active_pairs(
                    old(self).active@,
                )[i]).0 == (t, name@) && active_pairs(final(self).active@) == active_pairs(
                    old(self).active@,
                ).update(i, ((t, name@), (group, updated))),
            !old(self).active_map().contains_key((t, name@)) ==> active_pairs(final(self).active@)
                == active_pairs(old(self).active@).push(((t, name@), (group, updated))),
    {
        let ghost pairs = active_pairs(self.active@);
        let new_row = ActiveRow { tenant: t, rule: name.to_owned(), group, updated };
        let mut i: usize = 0;
        while i < self.active.len()
            invariant
                0 <= i <= self.active@.len(),
                forall|j: int| 0 <= j < i ==> (#[trigger] pairs[j]).0 != (t, name@),
                new_row.tenant == t && new_row.rule@ == name@ && new_row.group == group
                    && new_row.updated == updated,
                *self == *old(self),
            decreases self.active@.len() - i,
        {
            let row = &self.active[i];
            if row.tenant == t && str_eq(row.rule.as_str(), name) {
                self.active[i] = new_row;
                proof {
                    lemma_alist_value(pairs, i as int);
                    assert(active_pairs(self.active@) =~= pairs.update(
                        i as int,
                        ((t, name@), (group, updated)),
                    ));
                    lemma_alist_update(pairs, i as int, (group, updated));
                    assert(self.active_map() =~= old(self).active_map().insert(
                        (t, name@),
                        (group, updated),
                    ));
                }
                return ;
            }
            i = i + 1;
        }
        proof {
            lemma_alist_contains(pairs, (t, name@));
        }
        self.active.push(new_row);
        proof {
            assert(active_pairs(self.active@) =~= pairs.push(((t, name@), (group, updated))));
            lemma_alist_push(pairs, (t, name@), (group, updated));
            assert(self.active_map() =~= old(self).active_map().insert(
                (t, name@),
                (group, updated),
            ));
        }
    }

    pub fn active_del(&mut self, t: u64, name: &str)
        requires
            old(self).wf(),
        ensures
            final(self).wf(),
            final(self).active_map() == old(self).active_map().remove((t, name@)),
            final(self).custom@ == old(self).custom@,
            final(self).cooldown@ == old(self).cooldown@,
            old(self).active_map().contains_key((t, name@)) ==> exists|i: int|
                0 <= i < old(self).active@.len() && (#[trigger] active_pairs(
                    old(self).active@,
                )[i]).0 == (t, name@) && active_pairs(final(self).active@) == active_pairs(
                    old(self).active@,
                ).remove(i),
            !old(self).active_map().contains_key((t, name@)) ==> final(self).active@ == old(
                self,
            ).active@,
    {
        let ghost pairs = active_pairs(self.active@);
        let mut i: usize = 0;
        while i < self.active.len()
            invariant
                0 <= i <= self.active@.len(),
                forall|j: int| 0 <= j < i ==> (#[trigger] pairs[j]).0 != (t, name@),
                *self == *old(self),
            decreases self.active@.len() - i,
        {
            let row = &self.active[i];
            if row.tenant == t && str_eq(row.rule.as_str(), name) {
                self.active.remove(i);
                proof {
                    lemma_alist_value(pairs, i as int);
                    assert(active_pairs(self.active@) =~= pairs.remove(i as int));
                    lemma_alist_remove(pairs, i as int);
                    assert(self.active_map() =~= old(self).active_map().remove((t, name@)));
                }
                return ;
            }
            i = i + 1;
        }
        proof {
            lemma_alist_contains(pairs, (t, name@));
            assert(self.active_map() =~= old(self).active_map().remove((t, name@)));
        }
    }

    pub fn active_count(&self, t: u64) -> (r: u64)
        ensures
            r as nat == self.active_count_spec(t),
    {
        let ghost ap = active_pairs(self.active@);
        let mut count: usize = 0;
        let mut i: usize = 0;
        while i < self.active.len()
            invariant
                0 <= i <= self.active@.len(),
                count <= i,
                count as nat == count_active(ap.subrange(0, i as int), t),
            decreases self.active@.len() - i,
        {
            proof {
                assert(ap.subrange(0, i + 1).drop_last() =~= ap.subrange(0, i as int));
            }
            if self.active[i].tenant == t {
                count = count + 1;
            }
            i = i + 1;
        }
        proof {
            assert(ap.subrange(0, i as int) =~= ap);
        }
        count as u64
    }

    pub fn active_count_excl(&self, t: u64, name: &str) -> (r: u64)
        ensures
            r as nat == self.active_count_excl_spec(t, name@),
    {
        let ghost ap = active_pairs(self.active@);
        let mut count: usize = 0;
        let mut i: usize = 0;
        while i < self.active.len()
            invariant
                0 <= i <= self.active@.len(),
                count <= i,
                count as nat == count_active_excl(ap.subrange(0, i as int), t, name@),
            decreases self.active@.len() - i,
        {
            proof {
                assert(ap.subrange(0, i + 1).drop_last() =~= ap.subrange(0, i as int));
            }
            if self.active[i].tenant == t && !str_eq(self.active[i].rule.as_str(), name) {
                count = count + 1;
            }
            i = i + 1;
        }
        proof {
            assert(ap.subrange(0, i as int) =~= ap);
        }
        count as u64
    }

    pub fn custom_get(&self, t: u64, name: &str) -> (r: Option<(String, u64)>)
        requires
            self.wf(),
        ensures
            match r {
                Some(v) => self.custom_map().contains_key((t, name@)) && self.custom_map()[
                    (t, name@)
                ] == (v.0@, v.1),
                None => !self.custom_map().contains_key((t, name@)),
            },
    {
        let ghost pairs = custom_pairs(self.custom@);
        let mut i: usize = 0;
        while i < self.custom.len()
            invariant
                0 <= i <= self.custom@.len(),
                forall|j: int| 0 <= j < i ==> (#[trigger] pairs[j]).0 != (t, name@),
            decreases self.custom@.len() - i,
        {
            let row = &self.custom[i];
            if row.tenant == t && str_eq(row.rule.as_str(), name) {
                proof {
                    lemma_alist_value(pairs, i as int);
                }
                return Some((row.condition.clone(), row.updated));
            }
            i = i + 1;
        }
        proof {
            lemma_alist_contains(pairs, (t, name@));
        }
        None
    }

    pub fn custom_put(&mut self, t: u64, name: &str, condition: &str, updated: u64)
        requires
            old(self).wf(),
        ensures
            final(self).wf(),
            final(self).custom_map() == old(self).custom_map().insert((t, name@), (condition@, updated)),
            final(self).active@ == old(self).active@,
            final(self).cooldown@ == old(self).cooldown@,
            old(self).custom_map().contains_key((t, name@)) ==> exists|i: int|
                0 <= i < old(self).custom@.len() && (#[trigger] custom_pairs(
                    old(self).custom@,
                )[i]).0 == (t, name@) && custom_pairs(final(self).custom@) == custom_pairs(
                    old(self).custom@,
                ).update(i, ((t, name@), (condition@, updated))),
            !old(self).custom_map().contains_key((t, name@)) ==> custom_pairs(final(self).custom@)
                == custom_pairs(old(self).custom@).push(((t, name@), (condition@, updated))),
    {
        let ghost pairs = custom_pairs(self.custom@);
        let new_row = CustomRow {
            tenant: t,
            rule: name.to_owned(),
            condition: condition.to_owned(),
            updated,
        };
        let mut i: usize = 0;
        while i < self.custom.len()
            invariant
                0 <= i <= self.custom@.len(),
                forall|j: int| 0 <= j < i ==> (#[trigger] pairs[j]).0 != (t, name@),
                new_row.tenant == t && new_row.rule@ == name@ && new_row.condition@ == condition@
                    && new_row.updated == updated,
                *self == *old(self),
            decreases self.custom@.len() - i,
        {
            let row = &self.custom[i];
            if row.tenant == t && str_eq(row.rule.as_str(), name) {
                self.custom[i] = new_row;
                proof {
                    lemma_alist_value(pairs, i as int);
                    assert(custom_pairs(self.custom@) =~= pairs.update(
                        i as int,
                        ((t, name@), (condition@, updated)),
                    ));
                    lemma_alist_update(pairs, i as int, (condition@, updated));
                    assert(self.custom_map() =~= old(self).custom_map().insert(
                        (t, name@),
                        (condition@, updated),
                    ));
                }
                return ;
            }
            i = i + 1;
        }
        proof {
            lemma_alist_contains(pairs, (t, name@));
        }
        self.custom.push(new_row);
        proof {
            assert(custom_pairs(self.custom@) =~= pairs.push(((t, name@), (condition@, updated))));
            lemma_alist_push(pairs, (t, name@), (condition@, updated));
            assert(self.custom_map() =~= old(self).custom_map().insert(
                (t, name@),
                (condition@, updated),
            ));
        }
    }

    pub fn custom_del(&mut self, t: u64, name: &str)
        requires
            old(self).wf(),
        ensures
            final(self).wf(),
            final(self).custom_map() == old(self).custom_map().remove((t, name@)),
            final(self).active@ == old(self).active@,
            final(self).cooldown@ == old(self).cooldown@,
            old(self).custom_map().contains_key((t, name@)) ==> exists|i: int|
                0 <= i < old(self).custom@.len() && (#[trigger] custom_pairs(
                    old(self).custom@,
                )[i]).0 == (t, name@) && custom_pairs(final(self).custom@) == custom_pairs(
                    old(self).custom@,
                ).remove(i),
            !old(self).custom_map().contains_key((t, name@)) ==> final(self).custom@ == old(
                self,
            ).custom@,
    {
        let ghost pairs = custom_pairs(self.custom@);
        let mut i: usize = 0;
        while i < self.custom.len()
            invariant
                0 <= i <= self.custom@.len(),
                forall|j: int| 0 <= j < i ==> (#[trigger] pairs[j]).0 != (t, name@),
                *self == *old(self),
            decreases self.custom@.len() - i,
        {
            let row = &self.custom[i];
            if row.tenant == t && str_eq(row.rule.as_str(), name) {
                self.custom.remove(i);
                proof {
                    lemma_alist_value(pairs, i as int);
                    assert(custom_pairs(self.custom@) =~= pairs.remove(i as int));
                    lemma_alist_remove(pairs, i as int);
                    assert(self.custom_map() =~= old(self).custom_map().remove((t, name@)));
                }
                return ;
            }
            i = i + 1;
        }
        proof {
            lemma_alist_contains(pairs, (t, name@));
            assert(self.custom_map() =~= old(self).custom_map().remove((t, name@)));
        }
    }

    pub fn custom_count_excl(&self, t: u64, name: &str) -> (r: u64)
        ensures
            r as nat == self.custom_count_excl_spec(t, name@),
    {
        let ghost cp = custom_pairs(self.custom@);
        let mut count: usize = 0;
        let mut i: usize = 0;
        while i < self.custom.len()
            invariant
                0 <= i <= self.custom@.len(),
                count <= i,
                count as nat == count_custom_excl(cp.subrange(0, i as int), t, name@),
            decreases self.custom@.len() - i,
        {
            proof {
                assert(cp.subrange(0, i + 1).drop_last() =~= cp.subrange(0, i as int));
            }
            if self.custom[i].tenant == t && !str_eq(self.custom[i].rule.as_str(), name) {
                count = count + 1;
            }
            i = i + 1;
        }
        proof {
            assert(cp.subrange(0, i as int) =~= cp);
        }
        count as u64
    }

    pub fn custom_count(&self, t: u64) -> (r: u64)
        ensures
            r as nat == self.custom_count_spec(t),
    {
        let ghost cp = custom_pairs(self.custom@);
        let mut count: usize = 0;
        let mut i: usize = 0;
        while i < self.custom.len()
            invariant
                0 <= i <= self.custom@.len(),
                count <= i,
                count as nat == count_custom(cp.subrange(0, i as int), t),
            decreases self.custom@.len() - i,
        {
            proof {
                assert(cp.subrange(0, i + 1).drop_last() =~= cp.subrange(0, i as int));
            }
            if self.custom[i].tenant == t {
                count = count + 1;
            }
            i = i + 1;
        }
        proof {
            assert(cp.subrange(0, i as int) =~= cp);
        }
        count as u64
    }

    pub fn cooldown_get(&self, t: u64, member: u64, manual: bool) -> (r: Option<u64>)
        requires
            self.wf(),
        ensures
            match r {
                Some(v) => self.cooldown_map().contains_key((t, member, manual))
                    && self.cooldown_map()[(t, member, manual)] == v,
                None => !self.cooldown_map().contains_key((t, member, manual)),
            },
    {
        let ghost pairs = self.cooldown@;
        let mut i: usize = 0;
        while i < self.cooldown.len()
            invariant
                0 <= i <= self.cooldown@.len(),
                forall|j: int| 0 <= j < i ==> (#[trigger] pairs[j]).0 != (t, member, manual),
            decreases self.cooldown@.len() - i,
        {
            let row = &self.cooldown[i];
            if row.0.0 == t && row.0.1 == member && row.0.2 == manual {
                proof {
                    lemma_alist_value(pairs, i as int);
                }
                return Some(row.1);
            }
            i = i + 1;
        }
        proof {
            lemma_alist_contains(pairs, (t, member, manual));
        }
        None
    }

    pub fn cooldown_put(&mut self, t: u64, member: u64, manual: bool, time: u64)
        requires
            old(self).wf(),
        ensures
            final(self).wf(),
            final(self).cooldown_map() == old(self).cooldown_map().insert((t, member, manual), time),
            final(self).active@ == old(self).active@,
            final(self).custom@ == old(self).custom@,
    {
        let ghost pairs = self.cooldown@;
        let mut i: usize = 0;
        while i < self.cooldown.len()
            invariant
                0 <= i <= self.cooldown@.len(),
                forall|j: int| 0 <= j < i ==> (#[trigger] pairs[j]).0 != (t, member, manual),
                *self == *old(self),
            decreases self.cooldown@.len() - i,
        {
            let row = &self.cooldown[i];
            if row.0.0 == t && row.0.1 == member && row.0.2 == manual {
                self.cooldown[i] = ((t, member, manual), time);
                proof {
                    assert(self.cooldown@ =~= pairs.update(i as int, ((t, member, manual), time)));
                    lemma_alist_update(pairs, i as int, time);
                    assert(self.cooldown_map() =~= old(self).cooldown_map().insert(
                        (t, member, manual),
                        time,
                    ));
                }
                return ;
            }
            i = i + 1;
        }
        proof {
            lemma_alist_contains(pairs, (t, member, manual));
        }
        self.cooldown.push(((t, member, manual), time));
        proof {
            lemma_alist_push(pairs, (t, member, manual), time);
            assert(self.cooldown_map() =~= old(self).cooldown_map().insert(
                (t, member, manual),
                time,
            ));
        }
    }
}

} // verus!
