//! The role manager: reads and writes rule configuration, compiles it under
//! the limit policy, caches the compile result per tenant, evaluates a
//! compiled set against an identity, computes membership deltas, and applies
//! a per-identity cooldown to repeated updates.
//!
//! The manager holds the persisted relations and the cache as plain values;
//! callers hand it the outside facts it cannot know (the clock reading, the
//! identity snapshot the provider resolved, whether the caller may modify the
//! member) and apply the deltas it returns.

use vstd::prelude::*;
use crate::alist::{alist_map, alist_wf, lemma_alist_contains, lemma_alist_push, lemma_alist_update, lemma_alist_value};
use crate::cache::{status_view, RuleCache, StatusView, VerificationSetStatus};
use crate::limits::{
    mk_too_complex, mk_too_many_assigned, mk_too_many_assigned_incl, mk_too_many_custom,
    mk_too_many_custom_incl, mk_too_many_lookups, too_complex_msg, too_many_assigned_incl_msg,
    too_many_assigned_msg, too_many_custom_incl_msg, too_many_custom_msg, too_many_lookups_msg,
    LimitConfig,
};
use crate::rules::{
    builtin_attrs, cond_wf, entry_view, parse_err_msg, render_set, rule_holds,
    total_instructions, total_lookups, EntryV, SetEntry, VerificationRule, VerificationSet,
};
use crate::store::{active_pairs, count_active, count_custom, custom_pairs, Store};
use crate::groups::{copy_groups, insert_group, remove_group, same_groups};
use crate::text::{seconds_phrase, seconds_phrase_spec, str_eq};

verus! {

/// A user-facing rejected-operation message. Raising one never changes
/// persisted or cached state beyond what the operation's contract states.
#[derive(Debug)]
pub struct CmdError {
    pub msg: String,
}

/// One configured rule slot of a tenant, joined from the active-role and
/// custom-rule relations. A slot without a target group exists only as a
/// definition and assigns nothing.
#[derive(Debug)]
pub struct ConfiguredRole {
    pub role_id: Option<u64>,
    pub custom_rule: Option<String>,
    pub last_updated: u64,
}

/// The mathematical reading of a configured slot.
pub ghost struct SlotV {
    pub group: Option<u64>,
    pub custom: Option<Seq<char>>,
    pub updated: u64,
}

pub open spec fn slot_view(c: ConfiguredRole) -> SlotV {
    SlotV {
        group: c.role_id,
        custom: match c.custom_rule {
            Some(s) => Some(s@),
            None => None,
        },
        updated: c.last_updated,
    }
}

pub open spec fn cfg_pairs(s: Seq<(String, ConfiguredRole)>) -> Seq<(Seq<char>, SlotV)> {
    s.map_values(|p: (String, ConfiguredRole)| (p.0@, slot_view(p.1)))
}

/// The slot a rule name denotes, given the two relation maps. When both
/// relations know the name, the custom condition attaches to the active slot
/// and the slot's time is the later of the two.
pub open spec fn slot_of(
    am: Map<(u64, Seq<char>), (u64, u64)>,
    cm: Map<(u64, Seq<char>), (Seq<char>, u64)>,
    t: u64,
    name: Seq<char>,
) -> SlotV {
    if am.contains_key((t, name)) && cm.contains_key((t, name)) {
        SlotV {
            group: Some(am[(t, name)].0),
            custom: Some(cm[(t, name)].0),
            updated: if am[(t, name)].1 < cm[(t, name)].1 {
                cm[(t, name)].1
            } else {
                am[(t, name)].1
            },
        }
    } else if am.contains_key((t, name)) {
        SlotV { group: Some(am[(t, name)].0), custom: None, updated: am[(t, name)].1 }
    } else {
        SlotV { group: None, custom: Some(cm[(t, name)].0), updated: cm[(t, name)].1 }
    }
}

/// The joined configuration of a tenant: every rule name either relation
/// knows, mapped to its slot.
pub open spec fn join_map(
    am: Map<(u64, Seq<char>), (u64, u64)>,
    cm: Map<(u64, Seq<char>), (Seq<char>, u64)>,
    t: u64,
) -> Map<Seq<char>, SlotV> {
    Map::new(
        |name: Seq<char>| am.contains_key((t, name)) || cm.contains_key((t, name)),
        |name: Seq<char>| slot_of(am, cm, t, name),
    )
}

pub open spec fn config_map(store: Store, t: u64) -> Map<Seq<char>, SlotV> {
    join_map(store.active_map(), store.custom_map(), t)
}

/// The manager. One value of this type stands behind all requests of a
/// deployment.
pub struct RoleManager {
    pub config: LimitConfig,
    pub store: Store,
    pub cache: RuleCache,
}

impl RoleManager {
    pub open spec fn wf(&self) -> bool {
        self.store.wf() && self.cache.wf()
    }

    pub fn new(config: LimitConfig) -> (m: RoleManager)
        ensures
            m.wf(),
            m.config == config,
            m.store.active_map() == Map::<(u64, Seq<char>), (u64, u64)>::empty(),
            m.store.custom_map() == Map::<(u64, Seq<char>), (Seq<char>, u64)>::empty(),
            m.store.cooldown_map() == Map::<(u64, u64, bool), u64>::empty(),
            m.cache.view_map() == Map::<u64, StatusView>::empty(),
            m.store.active@.len() == 0,
            m.store.custom@.len() == 0,
            m.store.cooldown@.len() == 0,
    {
        RoleManager { config, store: Store::new(), cache: RuleCache::new() }
    }

    /// A read-only snapshot of the tenant's configured rule slots: one slot
    /// per rule name known to either relation, joined as `config_map` says.
    pub fn get_configuration(&self, t: u64) -> (r: Vec<(String, ConfiguredRole)>)
        requires
            self.wf(),
        ensures
            alist_wf(cfg_pairs(r@)),
            alist_map(cfg_pairs(r@)) == config_map(self.store, t),
    {
        let ghost ap = active_pairs(self.store.active@);
        let ghost cp = custom_pairs(self.store.custom@);
        let ghost am = self.store.active_map();
        let mut res: Vec<(String, ConfiguredRole)> = Vec::new();
        proof {
            assert(cfg_pairs(res@) =~= Seq::<(Seq<char>, SlotV)>::empty());
        }
        let mut i: usize = 0;
        while i < self.store.active.len()
            invariant
                0 <= i <= self.store.active@.len(),
                alist_wf(cfg_pairs(res@)),
                alist_map(cfg_pairs(res@)) =~= join_map(
                    alist_map(ap.subrange(0, i as int)),
                    Map::<(u64, Seq<char>), (Seq<char>, u64)>::empty(),
                    t,
                ),
            decreases self.store.active@.len() - i,
        {
            let ghost pfx = ap.subrange(0, i as int);
            proof {
                assert(ap.subrange(0, i + 1) =~= pfx.push(ap[i as int]));
                lemma_alist_push(pfx, ap[i as int].0, ap[i as int].1);
            }
            let row = &self.store.active[i];
            if row.tenant == t {
                proof {
                    // The pushed name is new: a duplicate would violate the
                    // store's key uniqueness.
                    lemma_alist_contains(pfx, (t, row.rule@));
                    assert(forall|j: int| 0 <= j < i ==> (#[trigger] pfx[j]) == ap[j]);
                    assert(!alist_map(pfx).contains_key((t, row.rule@)));
                    lemma_alist_contains(cfg_pairs(res@), row.rule@);
                    assert(!alist_map(cfg_pairs(res@)).contains_key(row.rule@));
                }
                let entry = ConfiguredRole {
                    role_id: Some(row.group),
                    custom_rule: None,
                    last_updated: row.updated,
                };
                let ghost old_res = res@;
                res.push((row.rule.clone(), entry));
                proof {
                    assert(cfg_pairs(res@) =~= cfg_pairs(old_res).push(
                        (row.rule@, slot_view(entry)),
                    ));
                    lemma_alist_push(cfg_pairs(old_res), row.rule@, slot_view(entry));
                    assert(alist_map(cfg_pairs(res@)) =~= join_map(
                        alist_map(ap.subrange(0, i + 1)),
                        Map::<(u64, Seq<char>), (Seq<char>, u64)>::empty(),
                        t,
                    ));
                }
            } else {
                proof {
                    assert(alist_map(cfg_pairs(res@)) =~= join_map(
                        alist_map(ap.subrange(0, i + 1)),
                        Map::<(u64, Seq<char>), (Seq<char>, u64)>::empty(),
                        t,
                    ));
                }
            }
            i = i + 1;
        }
        proof {
            assert(ap.subrange(0, i as int) =~= ap);
        }
        let mut k: usize = 0;
        while k < self.store.custom.len()
            invariant
                0 <= k <= self.store.custom@.len(),
                alist_wf(cfg_pairs(res@)),
                alist_map(cfg_pairs(res@)) =~= join_map(am, alist_map(cp.subrange(0, k as int)), t),
            decreases self.store.custom@.len() - k,
        {
            let ghost pfx = cp.subrange(0, k as int);
            proof {
                assert(cp.subrange(0, k + 1) =~= pfx.push(cp[k as int]));
                lemma_alist_push(pfx, cp[k as int].0, cp[k as int].1);
            }
            let row = &self.store.custom[k];
            if row.tenant == t {
                proof {
                    lemma_alist_contains(pfx, (t, row.rule@));
                    assert(forall|j: int| 0 <= j < k ==> (#[trigger] pfx[j]) == cp[j]);
                    assert(!alist_map(pfx).contains_key((t, row.rule@)));
                }
                // Scan the joined slots for this rule name.
                let mut j: usize = 0;
                let mut found = false;
                while j < res.len()
                    invariant
                        0 <= j <= res@.len(),
                        !found,
                        forall|l: int| 0 <= l < j ==> (#[trigger] cfg_pairs(res@)[l]).0 != row.rule@,
                    decreases res@.len() - j,
                {
                    if str_eq(res[j].0.as_str(), row.rule.as_str()) {
                        found = true;
                        break ;
                    }
                    j = j + 1;
                }
                let ghost old_res = res@;
                if found {
                    proof {
                        lemma_alist_value(cfg_pairs(res@), j as int);
                    }
                    let nm = res[j].0.clone();
                    let og = res[j].1.role_id;
                    let olu = res[j].1.last_updated;
                    let entry = ConfiguredRole {
                        role_id: og,
                        custom_rule: Some(row.condition.clone()),
                        last_updated: if olu < row.updated {
                            row.updated
                        } else {
                            olu
                        },
                    };
                    res[j] = (nm, entry);
                    proof {
                        assert(cfg_pairs(res@) =~= cfg_pairs(old_res).update(
                            j as int,
                            (row.rule@, slot_view(entry)),
                        ));
                        lemma_alist_update(cfg_pairs(old_res), j as int, slot_view(entry));
                        assert(alist_map(cfg_pairs(res@)) =~= join_map(
                            am,
                            alist_map(cp.subrange(0, k + 1)),
                            t,
                        ));
                    }
                } else {
                    proof {
                        lemma_alist_contains(cfg_pairs(res@), row.rule@);
                        assert(!alist_map(cfg_pairs(res@)).contains_key(row.rule@));
                    }
                    let entry = ConfiguredRole {
                        role_id: None,
                        custom_rule: Some(row.condition.clone()),
                        last_updated: row.updated,
                    };
                    res.push((row.rule.clone(), entry));
                    proof {
                        assert(cfg_pairs(res@) =~= cfg_pairs(old_res).push(
                            (row.rule@, slot_view(entry)),
                        ));
                        lemma_alist_push(cfg_pairs(old_res), row.rule@, slot_view(entry));
                        assert(alist_map(cfg_pairs(res@)) =~= join_map(
                            am,
                            alist_map(cp.subrange(0, k + 1)),
                            t,
                        ));
                    }
                }
            } else {
                proof {
                    assert(alist_map(cfg_pairs(res@)) =~= join_map(
                        am,
                        alist_map(cp.subrange(0, k + 1)),
                        t,
                    ));
                }
            }
            k = k + 1;
        }
        proof {
            assert(cp.subrange(0, k as int) =~= cp);
            assert(alist_map(cfg_pairs(res@)) =~= config_map(self.store, t));
        }
        res
    }
}

/// The message that tells an evaluated identity the tenant's configuration
/// is broken, without revealing the cause.
pub open spec fn config_broken_msg() -> Seq<char> {
    "There is a problem with this tenant's role configuration. Please contact the admins."@
}

/// The compile error for an active rule with neither source of a condition.
pub open spec fn missing_rule_msg(name: Seq<char>) -> Seq<char> {
    "Rule '"@ + name + "' has neither a built-in definition nor a custom condition."@
}

/// The compile error for an active rule whose custom condition does not parse.
pub open spec fn rule_parse_msg(name: Seq<char>) -> Seq<char> {
    "Rule '"@ + name + "': "@ + parse_err_msg()
}

fn mk_config_broken() -> (s: String)
    ensures
        s@ == config_broken_msg(),
{
    "There is a problem with this tenant's role configuration. Please contact the admins."
        .to_owned()
}

fn mk_missing_rule(name: &str) -> (s: String)
    ensures
        s@ == missing_rule_msg(name@),
{
    let mut s = String::new();
    s.push_str("Rule '");
    s.push_str(name);
    s.push_str("' has neither a built-in definition nor a custom condition.");
    assert(s@ =~= missing_rule_msg(name@));
    s
}

fn mk_rule_parse(name: &str) -> (s: String)
    ensures
        s@ == rule_parse_msg(name@),
{
    let mut s = String::new();
    s.push_str("Rule '");
    s.push_str(name);
    s.push_str("': ");
    s.push_str("expected 1 to 64 lowercase attribute letters");
    assert(s@ =~= rule_parse_msg(name@));
    s
}

/// How an active rule's condition resolves: the built-in registry wins;
/// otherwise the custom condition text is parsed; otherwise the rule has no
/// definition and compiling it fails.
pub open spec fn resolve_attrs(
    cm: Map<(u64, Seq<char>), (Seq<char>, u64)>,
    t: u64,
    name: Seq<char>,
) -> Result<Seq<char>, Seq<char>> {
    match builtin_attrs(name) {
        Some(a) => Ok(a),
        None => if cm.contains_key((t, name)) {
            if cond_wf(cm[(t, name)].0) {
                Ok(cm[(t, name)].0)
            } else {
                Err(rule_parse_msg(name))
            }
        } else {
            Err(missing_rule_msg(name))
        },
    }
}

/// Compiles the active rows of one tenant, in row order; the first failing
/// rule's message wins.
pub open spec fn compile_rows(
    ap: Seq<((u64, Seq<char>), (u64, u64))>,
    cm: Map<(u64, Seq<char>), (Seq<char>, u64)>,
    t: u64,
) -> Result<Seq<EntryV>, Seq<char>>
    decreases ap.len(),
{
    if ap.len() == 0 {
        Ok(Seq::<EntryV>::empty())
    } else {
        let p = ap[0];
        let rest = compile_rows(ap.drop_first(), cm, t);
        if p.0.0 != t {
            rest
        } else {
            match resolve_attrs(cm, t, p.0.1) {
                Err(m) => Err(m),
                Ok(attrs) => match rest {
                    Err(m) => Err(m),
                    Ok(es) => Ok(seq![EntryV { name: p.0.1, group: p.1.0, attrs }] + es),
                },
            }
        }
    }
}

/// What one compile of a tenant's configuration produces, given the two
/// relations and the limit policy: checks 1 and 2 gate before compiling,
/// checks 3 and 4 after, and the first violation wins.
pub open spec fn build_status_spec(
    cfg: LimitConfig,
    ap: Seq<((u64, Seq<char>), (u64, u64))>,
    cp: Seq<((u64, Seq<char>), (Seq<char>, u64))>,
    t: u64,
) -> StatusView {
    let ac = count_active(ap, t);
    let cc = count_custom(cp, t);
    if cfg.limits_enabled && ac > cfg.max_assigned_roles {
        StatusView::Error(too_many_assigned_msg(ac, cfg.max_assigned_roles as nat))
    } else if cfg.limits_enabled && cc > cfg.max_custom_rules {
        StatusView::Error(too_many_custom_msg(cc, cfg.max_custom_rules as nat))
    } else {
        match compile_rows(ap, alist_map(cp), t) {
            Err(m) => StatusView::Error(m),
            Ok(es) => if cfg.limits_enabled && total_instructions(es) > cfg.max_instructions {
                StatusView::Error(
                    too_complex_msg(total_instructions(es), cfg.max_instructions as nat),
                )
            } else if cfg.limits_enabled && total_lookups(es) > cfg.max_web_requests {
                StatusView::Error(
                    too_many_lookups_msg(total_lookups(es), cfg.max_web_requests as nat),
                )
            } else {
                StatusView::Compiled(es)
            },
        }
    }
}

impl RoleManager {
    /// The status one compile of this manager's current state produces.
    pub open spec fn build_view(&self, t: u64) -> StatusView {
        build_status_spec(
            self.config,
            active_pairs(self.store.active@),
            custom_pairs(self.store.custom@),
            t,
        )
    }

    /// The cached status a read of tenant `t` observes.
    pub open spec fn cached_status(&self, t: u64) -> StatusView {
        self.cache.status_of(t)
    }

    fn build_status_exec(&self, t: u64) -> (st: VerificationSetStatus)
        requires
            self.wf(),
        ensures
            status_view(st) == self.build_view(t),
            st.wf(),
    {
        let ghost ap = active_pairs(self.store.active@);
        let ghost cm = self.store.custom_map();
        let ac = self.store.active_count(t);
        let cc = self.store.custom_count(t);
        if self.config.limits_enabled && ac > self.config.max_assigned_roles {
            return VerificationSetStatus::Error(
                mk_too_many_assigned(ac as u128, self.config.max_assigned_roles),
            );
        }
        if self.config.limits_enabled && cc > self.config.max_custom_rules {
            return VerificationSetStatus::Error(
                mk_too_many_custom(cc as u128, self.config.max_custom_rules),
            );
        }
        let mut entries: Vec<SetEntry> = Vec::new();
        proof {
            assert(entries@.map_values(|e: SetEntry| entry_view(e)) =~= Seq::<EntryV>::empty());
            assert(ap.skip(0) =~= ap);
        }
        let mut i: usize = 0;
        while i < self.store.active.len()
            invariant
                0 <= i <= self.store.active@.len(),
                forall|j: int| 0 <= j < entries@.len() ==> (#[trigger] entries@[j]).rule.wf(),
                compile_rows(ap.skip(i as int), cm, t) is Err ==> compile_rows(ap, cm, t)
                    == compile_rows(ap.skip(i as int), cm, t),
                compile_rows(ap.skip(i as int), cm, t) is Ok ==> compile_rows(ap, cm, t) is Ok
                    && compile_rows(ap, cm, t)->Ok_0 =~= entries@.map_values(
                    |e: SetEntry| entry_view(e),
                ) + compile_rows(ap.skip(i as int), cm, t)->Ok_0,
            decreases self.store.active@.len() - i,
        {
            proof {
                assert(ap.skip(i as int).drop_first() =~= ap.skip(i + 1));
                assert(ap.skip(i as int)[0] == ap[i as int]);
            }
            let row = &self.store.active[i];
            if row.tenant == t {
                let rule: VerificationRule = match VerificationRule::builtin(row.rule.as_str()) {
                    Some(rule) => rule,
                    None => {
                        match self.store.custom_get(t, row.rule.as_str()) {
                            Some(cond) => {
                                match VerificationRule::from_str(cond.0.as_str()) {
                                    Ok(rule) => rule,
                                    Err(_) => {
                                        assert(compile_rows(ap.skip(i as int), cm, t) == Err::<
                                            Seq<EntryV>,
                                            Seq<char>,
                                        >(rule_parse_msg(row.rule@)));
                                        return VerificationSetStatus::Error(
                                            mk_rule_parse(row.rule.as_str()),
                                        );
                                    },
                                }
                            },
                            None => {
                                assert(compile_rows(ap.skip(i as int), cm, t) == Err::<
                                    Seq<EntryV>,
                                    Seq<char>,
                                >(missing_rule_msg(row.rule@)));
                                return VerificationSetStatus::Error(
                                    mk_missing_rule(row.rule.as_str()),
                                );
                            },
                        }
                    },
                };
                assert(resolve_attrs(cm, t, row.rule@) == Ok::<Seq<char>, Seq<char>>(rule.attrs@));
                let ghost old_entries = entries@;
                entries.push(SetEntry { name: row.rule.clone(), group: row.group, rule });
                proof {
                    assert(entries@.map_values(|e: SetEntry| entry_view(e)) =~= old_entries
                        .map_values(|e: SetEntry| entry_view(e)).push(
                        EntryV { name: row.rule@, group: row.group, attrs: rule.attrs@ },
                    ));
                    if compile_rows(ap.skip(i + 1), cm, t) is Ok {
                        assert(compile_rows(ap, cm, t)->Ok_0 =~= entries@.map_values(
                            |e: SetEntry| entry_view(e),
                        ) + compile_rows(ap.skip(i + 1), cm, t)->Ok_0);
                    }
                }
            }
            i = i + 1;
        }
        proof {
            assert(ap.skip(i as int) =~= Seq::<((u64, Seq<char>), (u64, u64))>::empty());
            assert(compile_rows(ap, cm, t)->Ok_0 =~= entries@.map_values(
                |e: SetEntry| entry_view(e),
            ));
        }
        let set = VerificationSet { entries };
        if self.config.limits_enabled {
            let instr = set.instruction_count();
            if instr > self.config.max_instructions as u128 {
                return VerificationSetStatus::Error(
                    mk_too_complex(instr, self.config.max_instructions),
                );
            }
            let web = set.max_web_requests();
            if web > self.config.max_web_requests as u128 {
                return VerificationSetStatus::Error(
                    mk_too_many_lookups(web, self.config.max_web_requests),
                );
            }
        }
        VerificationSetStatus::Compiled(set)
    }

    /// Makes the tenant's cache entry hold a compile outcome: a forced
    /// refresh always recompiles and installs; a plain read compiles only
    /// when no outcome is cached yet.
    fn ensure_compiled(&mut self, t: u64, force: bool)
        requires
            old(self).wf(),
        ensures
            final(self).wf(),
            final(self).config == old(self).config,
            final(self).store == old(self).store,
            (force || old(self).cached_status(t) is NotCompiled) ==> final(self).cache.view_map()
                == old(self).cache.view_map().insert(t, old(self).build_view(t)),
            !(force || old(self).cached_status(t) is NotCompiled) ==> final(self).cache == old(
                self,
            ).cache,
            !(final(self).cached_status(t) is NotCompiled),
            final(self).cached_status(t) == if force || old(self).cached_status(t)
                is NotCompiled {
                old(self).build_view(t)
            } else {
                old(self).cached_status(t)
            },
    {
        let needs = force || match self.cache.get(t) {
            Some(st) => !st.is_compiled(),
            None => true,
        };
        if needs {
            let st = self.build_status_exec(t);
            proof {
                assert(!(status_view(st) is NotCompiled));
            }
            self.cache.put(t, st);
        }
    }

    /// A plain read of the tenant's compile state: compiles if no outcome is
    /// cached, then reports the error message if the outcome is an error.
    pub fn check_error(&mut self, t: u64) -> (r: Option<String>)
        requires
            old(self).wf(),
        ensures
            final(self).wf(),
            final(self).config == old(self).config,
            final(self).store == old(self).store,
            (old(self).cached_status(t) is NotCompiled) ==> final(self).cache.view_map() == old(
                self,
            ).cache.view_map().insert(t, old(self).build_view(t)),
            !(old(self).cached_status(t) is NotCompiled) ==> final(self).cache == old(self).cache,
            match r {
                Some(m) => final(self).cached_status(t) == StatusView::Error(m@),
                None => !(final(self).cached_status(t) is Error),
            },
    {
        self.ensure_compiled(t, false);
        match self.cache.get(t) {
            Some(VerificationSetStatus::Error(m)) => Some(m.clone()),
            _ => None,
        }
    }

    /// Renders the tenant's compiled set for an administrator, or the
    /// compile error verbatim, never both.
    pub fn explain_rule_set(&mut self, t: u64) -> (r: String)
        requires
            old(self).wf(),
        ensures
            final(self).wf(),
            final(self).config == old(self).config,
            final(self).store == old(self).store,
            (old(self).cached_status(t) is NotCompiled) ==> final(self).cache.view_map() == old(
                self,
            ).cache.view_map().insert(t, old(self).build_view(t)),
            !(old(self).cached_status(t) is NotCompiled) ==> final(self).cache == old(self).cache,
            match final(self).cached_status(t) {
                StatusView::Compiled(es) => r@ == render_set(es),
                StatusView::Error(m) => r@ == "Could not compile: "@ + m,
                StatusView::NotCompiled => false,
            },
    {
        self.ensure_compiled(t, false);
        match self.cache.get(t) {
            Some(VerificationSetStatus::Compiled(set)) => set.render(),
            Some(VerificationSetStatus::Error(m)) => {
                let mut s = String::new();
                s.push_str("Could not compile: ");
                s.push_str(m.as_str());
                assert(s@ =~= "Could not compile: "@ + m@);
                s
            },
            _ => {
                proof {
                    assert(false);
                }
                String::new()
            },
        }
    }

    /// Discards every cached compile outcome; each tenant recompiles on its
    /// next access.
    pub fn clear_rule_cache(&mut self)
        requires
            old(self).wf(),
        ensures
            final(self).wf(),
            final(self).config == old(self).config,
            final(self).store == old(self).store,
            final(self).cache.view_map() == Map::<u64, StatusView>::empty(),
            forall|t: u64| final(self).cached_status(t) is NotCompiled,
    {
        self.cache.clear();
    }
}

/// The identity snapshot the verification provider resolved: the attribute
/// tags the compiled rules test, and the provider-side display name.
pub struct Identity {
    pub id: u64,
    pub attributes: Vec<char>,
    pub display_name: String,
}

/// The platform member a delta applies to: its current groups and display
/// name.
pub struct Member {
    pub id: u64,
    pub groups: Vec<u64>,
    pub display_name: Option<String>,
}

/// One evaluation result: whether a rule's target group is owed to the
/// identity. Produced fresh per evaluation, never cached.
#[derive(Debug)]
pub struct AssignedRole {
    pub rule: String,
    pub role_id: u64,
    pub is_assigned: bool,
}

/// Whether an update took full effect, or the caller lacked permission to
/// modify the member so the display name was left alone.
#[derive(Clone, Copy, PartialEq, Eq, Structural, Debug)]
pub enum SetRolesStatus {
    Success,
    IsAdmin,
}

/// The membership delta the platform should apply: `None` fields mean no
/// change is needed. An empty new display name clears it.
#[derive(Debug)]
pub struct MembershipChange {
    pub new_groups: Option<Vec<u64>>,
    pub new_display_name: Option<String>,
}

/// The message rejecting an operation on an unknown rule name.
pub open spec fn no_rule_msg(name: Seq<char>) -> Seq<char> {
    "No rule name '"@ + name + "' found."@
}

/// The message rejecting a custom rule whose condition does not parse.
pub open spec fn parse_failed_msg() -> Seq<char> {
    "Failed to parse custom rule: "@ + parse_err_msg()
}

/// The message rejecting an update still inside its cooldown window.
pub open spec fn cooldown_msg(cd: nat, remaining: nat) -> Seq<char> {
    "You can only update your roles once every "@ + seconds_phrase_spec(cd)
        + ". Try again in "@ + seconds_phrase_spec(remaining) + "."@
}

fn mk_no_rule(name: &str) -> (s: String)
    ensures
        s@ == no_rule_msg(name@),
{
    let mut s = String::new();
    s.push_str("No rule name '");
    s.push_str(name);
    s.push_str("' found.");
    assert(s@ =~= no_rule_msg(name@));
    s
}

fn mk_parse_failed() -> (s: String)
    ensures
        s@ == parse_failed_msg(),
{
    let mut s = String::new();
    s.push_str("Failed to parse custom rule: ");
    s.push_str("expected 1 to 64 lowercase attribute letters");
    assert(s@ =~= parse_failed_msg());
    s
}

fn mk_cooldown(cd: u64, remaining: u128) -> (s: String)
    ensures
        s@ == cooldown_msg(cd as nat, remaining as nat),
{
    let mut s = String::new();
    s.push_str("You can only update your roles once every ");
    let a = seconds_phrase(cd as u128);
    s.push_str(a.as_str());
    s.push_str(". Try again in ");
    let b = seconds_phrase(remaining);
    s.push_str(b.as_str());
    s.push_str(".");
    assert(s@ =~= cooldown_msg(cd as nat, remaining as nat));
    s
}

/// The membership set after the evaluation results are applied in order:
/// a satisfied rule adds its target group, an unsatisfied one removes it.
pub open spec fn apply_deltas(s: Set<u64>, es: Seq<EntryV>, ia: Seq<char>) -> Set<u64>
    decreases es.len(),
{
    if es.len() == 0 {
        s
    } else {
        let prev = apply_deltas(s, es.drop_last(), ia);
        if rule_holds(es.last().attrs, ia) {
            prev.insert(es.last().group)
        } else {
            prev.remove(es.last().group)
        }
    }
}

/// Every group that is some rule's configured target for the tenant.
pub open spec fn managed_targets(am: Map<(u64, Seq<char>), (u64, u64)>, t: u64) -> Set<u64> {
    Set::new(
        |g: u64| exists|name: Seq<char>| am.contains_key((t, name)) && am[(t, name)].0 == g,
    )
}

impl RoleManager {
    /// Evaluates the tenant's compiled set against an identity: one result
    /// per active rule, each telling whether its target group is owed. A
    /// broken configuration is reported as a generic message that hides the
    /// cause from the evaluated identity.
    pub fn get_assigned_roles(&mut self, t: u64, identity: &Identity) -> (r: Result<
        Vec<AssignedRole>,
        CmdError,
    >)
        requires
            old(self).wf(),
        ensures
            final(self).wf(),
            final(self).config == old(self).config,
            final(self).store == old(self).store,
            (old(self).cached_status(t) is NotCompiled) ==> final(self).cache.view_map() == old(
                self,
            ).cache.view_map().insert(t, old(self).build_view(t)),
            !(old(self).cached_status(t) is NotCompiled) ==> final(self).cache == old(self).cache,
            match r {
                Ok(v) => final(self).cached_status(t) is Compiled && ({
                    let es = final(self).cached_status(t)->Compiled_0;
                    v@.len() == es.len() && forall|i: int|
                        0 <= i < es.len() ==> (#[trigger] v@[i]).rule@ == es[i].name && v@[i].role_id
                            == es[i].group && v@[i].is_assigned == rule_holds(
                            es[i].attrs,
                            identity.attributes@,
                        )
                }),
                Err(e) => final(self).cached_status(t) is Error && e.msg@ == config_broken_msg(),
            },
    {
        self.ensure_compiled(t, false);
        match self.cache.get(t) {
            Some(VerificationSetStatus::Compiled(set)) => {
                let ghost es = set.view_entries();
                let mut out: Vec<AssignedRole> = Vec::new();
                let mut i: usize = 0;
                while i < set.entries.len()
                    invariant
                        0 <= i <= set.entries@.len(),
                        es == set.view_entries(),
                        out@.len() == i,
                        forall|j: int|
                            0 <= j < i ==> (#[trigger] out@[j]).rule@ == es[j].name
                                && out@[j].role_id == es[j].group && out@[j].is_assigned
                                == rule_holds(es[j].attrs, identity.attributes@),
                    decreases set.entries@.len() - i,
                {
                    let entry = &set.entries[i];
                    let is_assigned = entry.rule.holds(&identity.attributes);
                    out.push(
                        AssignedRole { rule: entry.name.clone(), role_id: entry.group, is_assigned },
                    );
                    i = i + 1;
                }
                Ok(out)
            },
            Some(VerificationSetStatus::Error(_)) => Err(CmdError { msg: mk_config_broken() }),
            _ => {
                proof {
                    assert(false);
                }
                Err(CmdError { msg: mk_config_broken() })
            },
        }
    }

    /// Computes the membership delta for a member. With an identity, every
    /// evaluation result adds or removes its target group; without one, every
    /// configured target group is removed and other memberships are kept. The
    /// display name follows the identity when the caller may modify the
    /// member and display-name management is enabled.
    pub fn assign_roles(
        &mut self,
        t: u64,
        member: &Member,
        can_modify: bool,
        identity: Option<&Identity>,
    ) -> (r: Result<(SetRolesStatus, MembershipChange), CmdError>)
        requires
            old(self).wf(),
        ensures
            final(self).wf(),
            final(self).config == old(self).config,
            final(self).store == old(self).store,
            identity is Some ==> ((old(self).cached_status(t) is NotCompiled) ==> final(self).cache.view_map() == old(self).cache.view_map().insert(t, old(self).build_view(t)))
                && (!(old(self).cached_status(t) is NotCompiled) ==> final(self).cache == old(
                self,
            ).cache),
            identity is None ==> final(self).cache == old(self).cache,
            r is Err ==> identity is Some && final(self).cached_status(t) is Error
                && r->Err_0.msg@ == config_broken_msg(),
            r is Ok ==> (identity is Some ==> final(self).cached_status(t) is Compiled),
            r is Ok ==> r->Ok_0.0 == (if !can_modify && old(self).config.set_display_name {
                SetRolesStatus::IsAdmin
            } else {
                SetRolesStatus::Success
            }),
            r is Ok ==> ({
                let target = match identity {
                    Some(id) => apply_deltas(
                        member.groups@.to_set(),
                        final(self).cached_status(t)->Compiled_0,
                        id.attributes@,
                    ),
                    None => member.groups@.to_set().difference(
                        managed_targets(old(self).store.active_map(), t),
                    ),
                };
                match r->Ok_0.1.new_groups {
                    Some(v) => v@.to_set() == target && target != member.groups@.to_set(),
                    None => target == member.groups@.to_set(),
                }
            }),
            r is Ok ==> ({
                let want = can_modify && old(self).config.set_display_name;
                let target: Option<Seq<char>> = match identity {
                    Some(id) => Some(id.display_name@),
                    None => None,
                };
                let current: Option<Seq<char>> = match member.display_name {
                    Some(d) => Some(d@),
                    None => None,
                };
                match r->Ok_0.1.new_display_name {
                    Some(s) => want && target != current && s@ == (match target {
                        Some(x) => x,
                        None => Seq::<char>::empty(),
                    }),
                    None => !want || target == current,
                }
            }),
    {
        let status = if !can_modify && self.config.set_display_name {
            SetRolesStatus::IsAdmin
        } else {
            SetRolesStatus::Success
        };
        let want = can_modify && self.config.set_display_name;
        let new_display_name: Option<String> = if want {
            match identity {
                Some(id) => match &member.display_name {
                    Some(cur) => if str_eq(cur.as_str(), id.display_name.as_str()) {
                        None
                    } else {
                        Some(id.display_name.clone())
                    },
                    None => Some(id.display_name.clone()),
                },
                None => match &member.display_name {
                    Some(_) => Some(String::new()),
                    None => None,
                },
            }
        } else {
            None
        };
        let mut cur: Vec<u64>;
        match identity {
            Some(id) => {
                let assigned = match self.get_assigned_roles(t, id) {
                    Ok(v) => v,
                    Err(e) => {
                        return Err(e);
                    },
                };
                let ghost es = self.cached_status(t)->Compiled_0;
                let ghost ia = id.attributes@;
                let ghost orig = member.groups@.to_set();
                cur = copy_groups(&member.groups);
                let mut i: usize = 0;
                while i < assigned.len()
                    invariant
                        0 <= i <= assigned@.len(),
                        assigned@.len() == es.len(),
                        forall|j: int|
                            0 <= j < es.len() ==> (#[trigger] assigned@[j]).role_id == es[j].group
                                && assigned@[j].is_assigned == rule_holds(es[j].attrs, ia),
                        cur@.to_set() =~= apply_deltas(orig, es.subrange(0, i as int), ia),
                    decreases assigned@.len() - i,
                {
                    proof {
                        assert(es.subrange(0, i + 1).drop_last() =~= es.subrange(0, i as int));
                        assert(es.subrange(0, i + 1).last() == es[i as int]);
                    }
                    if assigned[i].is_assigned {
                        insert_group(&mut cur, assigned[i].role_id);
                    } else {
                        remove_group(&mut cur, assigned[i].role_id);
                    }
                    i = i + 1;
                }
                proof {
                    assert(es.subrange(0, i as int) =~= es);
                }
            },
            None => {
                let ghost ap = active_pairs(self.store.active@);
                let ghost am = self.store.active_map();
                let ghost orig = member.groups@.to_set();
                cur = copy_groups(&member.groups);
                let mut i: usize = 0;
                while i < self.store.active.len()
                    invariant
                        0 <= i <= self.store.active@.len(),
                        cur@.to_set() =~= orig.difference(
                            Set::new(
                                |g: u64|
                                    exists|j: int|
                                        0 <= j < i && (#[trigger] ap[j]).0.0 == t && ap[j].1.0 == g,
                            ),
                        ),
                    decreases self.store.active@.len() - i,
                {
                    let ghost tp_before = Set::new(
                        |g: u64|
                            exists|j: int| 0 <= j < i && (#[trigger] ap[j]).0.0 == t && ap[j].1.0 == g,
                    );
                    let ghost tp_after = Set::new(
                        |g: u64|
                            exists|j: int|
                                0 <= j < i + 1 && (#[trigger] ap[j]).0.0 == t && ap[j].1.0 == g,
                    );
                    let row = &self.store.active[i];
                    if row.tenant == t {
                        remove_group(&mut cur, row.group);
                        proof {
                            assert forall|g: u64| tp_after.contains(g) implies tp_before.contains(g)
                                || g == ap[i as int].1.0 by {
                                let j = choose|j: int|
                                    0 <= j < i + 1 && (#[trigger] ap[j]).0.0 == t && ap[j].1.0 == g;
                                if j < i {
                                    assert(tp_before.contains(g));
                                }
                            }
                            assert(ap[i as int].0.0 == t);
                            assert(tp_after.contains(ap[i as int].1.0));
                            assert(cur@.to_set() =~= orig.difference(tp_after));
                        }
                    } else {
                        proof {
                            assert forall|g: u64| tp_after.contains(g) implies tp_before.contains(
                                g,
                            ) by {
                                let j = choose|j: int|
                                    0 <= j < i + 1 && (#[trigger] ap[j]).0.0 == t && ap[j].1.0 == g;
                                assert(j < i);
                            }
                            assert(tp_after =~= tp_before);
                            assert(cur@.to_set() =~= orig.difference(tp_after));
                        }
                    }
                    i = i + 1;
                }
                proof {
                    let tp = Set::new(
                        |g: u64|
                            exists|j: int|
                                0 <= j < self.store.active@.len() && (#[trigger] ap[j]).0.0 == t
                                    && ap[j].1.0 == g,
                    );
                    assert forall|g: u64| tp.contains(g) implies managed_targets(am, t).contains(
                        g,
                    ) by {
                        let j = choose|j: int|
                            0 <= j < ap.len() && (#[trigger] ap[j]).0.0 == t && ap[j].1.0 == g;
                        lemma_alist_value(ap, j);
                        assert(am.contains_key((t, ap[j].0.1)) && am[(t, ap[j].0.1)].0 == g);
                    }
                    assert forall|g: u64| managed_targets(am, t).contains(g) implies tp.contains(
                        g,
                    ) by {
                        let name = choose|name: Seq<char>|
                            am.contains_key((t, name)) && am[(t, name)].0 == g;
                        lemma_alist_contains(ap, (t, name));
                        let j = choose|j: int| 0 <= j < ap.len() && (#[trigger] ap[j]).0 == (t, name);
                        lemma_alist_value(ap, j);
                        assert(ap[j].0.0 == t && ap[j].1.0 == g);
                    }
                    assert(tp =~= managed_targets(am, t));
                }
            },
        }
        let changed = !same_groups(&cur, &member.groups);
        let new_groups = if changed {
            Some(cur)
        } else {
            None
        };
        Ok((status, MembershipChange { new_groups, new_display_name }))
    }
}

impl RoleManager {
    /// Binds a rule to a target group, or clears the binding. The rule name
    /// must exist (built-in or previously defined custom rule); binding a new
    /// group is checked against the active-role limit with the prospective
    /// count including this change. On success the tenant's cache entry is
    /// recompiled from the new configuration.
    pub fn set_active_role(
        &mut self,
        t: u64,
        rule_name: &str,
        discord_role: Option<u64>,
        now: u64,
    ) -> (r: Result<(), CmdError>)
        requires
            old(self).wf(),
        ensures
            final(self).wf(),
            final(self).config == old(self).config,
            final(self).store.cooldown@ == old(self).store.cooldown@,
            final(self).store.custom@ == old(self).store.custom@,
            ({
                let exists_rule = builtin_attrs(rule_name@) is Some
                    || old(self).store.custom_map().contains_key((t, rule_name@));
                let over = old(self).config.limits_enabled && discord_role is Some && old(
                    self,
                ).store.active_count_excl_spec(t, rule_name@) + 1 > old(
                    self,
                ).config.max_assigned_roles;
                match r {
                    Err(e) => (!exists_rule || over) && final(self).store == old(self).store
                        && final(self).cache == old(self).cache && e.msg@ == (if !exists_rule {
                        no_rule_msg(rule_name@)
                    } else {
                        too_many_assigned_incl_msg(
                            rule_name@,
                            old(self).store.active_count_excl_spec(t, rule_name@) + 1,
                            old(self).config.max_assigned_roles as nat,
                        )
                    }),
                    Ok(u) => exists_rule && !over && (match discord_role {
                        Some(g) => final(self).store.active_map() == old(
                            self,
                        ).store.active_map().insert((t, rule_name@), (g, now)) && ((old(
                            self,
                        ).store.active_map().contains_key((t, rule_name@)) ==> exists|i: int|
                            0 <= i < old(self).store.active@.len() && (#[trigger] active_pairs(
                                old(self).store.active@,
                            )[i]).0 == (t, rule_name@) && active_pairs(final(self).store.active@)
                                == active_pairs(old(self).store.active@).update(
                                i,
                                ((t, rule_name@), (g, now)),
                            )) && (!old(self).store.active_map().contains_key((t, rule_name@))
                            ==> active_pairs(final(self).store.active@) == active_pairs(
                            old(self).store.active@,
                        ).push(((t, rule_name@), (g, now))))),
                        None => final(self).store.active_map() == old(
                            self,
                        ).store.active_map().remove((t, rule_name@)) && ((old(
                            self,
                        ).store.active_map().contains_key((t, rule_name@)) ==> exists|i: int|
                            0 <= i < old(self).store.active@.len() && (#[trigger] active_pairs(
                                old(self).store.active@,
                            )[i]).0 == (t, rule_name@) && active_pairs(final(self).store.active@)
                                == active_pairs(old(self).store.active@).remove(i)) && (!old(
                            self,
                        ).store.active_map().contains_key((t, rule_name@)) ==> final(self).store.active@ == old(self).store.active@)),
                    }) && final(self).cache.view_map() == old(self).cache.view_map().insert(
                        t,
                        final(self).build_view(t),
                    ),
                }
            }),
    {
        let exists_rule = VerificationRule::has_builtin(rule_name) || match self.store.custom_get(
            t,
            rule_name,
        ) {
            Some(_) => true,
            None => false,
        };
        if !exists_rule {
            return Err(CmdError { msg: mk_no_rule(rule_name) });
        }
        if discord_role.is_some() && self.config.limits_enabled {
            let c = self.store.active_count_excl(t, rule_name);
            if c >= self.config.max_assigned_roles {
                return Err(
                    CmdError {
                        msg: mk_too_many_assigned_incl(
                            rule_name,
                            c as u128 + 1,
                            self.config.max_assigned_roles,
                        ),
                    },
                );
            }
        }
        match discord_role {
            Some(g) => self.store.active_put(t, rule_name, g, now),
            None => self.store.active_del(t, rule_name),
        }
        self.ensure_compiled(t, true);
        Ok(())
    }

    /// Defines or removes a custom rule. Defining one is checked against the
    /// custom-rule limit with the prospective count including this change,
    /// and the condition must parse. The tenant's cache entry is recompiled
    /// either way.
    pub fn set_custom_rule(
        &mut self,
        t: u64,
        rule_name: &str,
        condition: Option<&str>,
        now: u64,
    ) -> (r: Result<(), CmdError>)
        requires
            old(self).wf(),
        ensures
            final(self).wf(),
            final(self).config == old(self).config,
            final(self).store.cooldown@ == old(self).store.cooldown@,
            final(self).store.active@ == old(self).store.active@,
            ({
                let over = old(self).config.limits_enabled && condition is Some && old(
                    self,
                ).store.custom_count_excl_spec(t, rule_name@) + 1 > old(
                    self,
                ).config.max_custom_rules;
                let bad = condition is Some && !cond_wf(condition->0@);
                match r {
                    Err(e) => (over || bad) && final(self).store == old(self).store && final(self).cache == old(self).cache && e.msg@ == (if over {
                        too_many_custom_incl_msg(
                            rule_name@,
                            old(self).store.custom_count_excl_spec(t, rule_name@) + 1,
                            old(self).config.max_custom_rules as nat,
                        )
                    } else {
                        parse_failed_msg()
                    }),
                    Ok(u) => !over && !bad && (match condition {
                        Some(cond) => final(self).store.custom_map() == old(
                            self,
                        ).store.custom_map().insert((t, rule_name@), (cond@, now)) && ((old(
                            self,
                        ).store.custom_map().contains_key((t, rule_name@)) ==> exists|i: int|
                            0 <= i < old(self).store.custom@.len() && (#[trigger] custom_pairs(
                                old(self).store.custom@,
                            )[i]).0 == (t, rule_name@) && custom_pairs(final(self).store.custom@)
                                == custom_pairs(old(self).store.custom@).update(
                                i,
                                ((t, rule_name@), (cond@, now)),
                            )) && (!old(self).store.custom_map().contains_key((t, rule_name@))
                            ==> custom_pairs(final(self).store.custom@) == custom_pairs(
                            old(self).store.custom@,
                        ).push(((t, rule_name@), (cond@, now))))),
                        None => final(self).store.custom_map() == old(
                            self,
                        ).store.custom_map().remove((t, rule_name@)) && ((old(
                            self,
                        ).store.custom_map().contains_key((t, rule_name@)) ==> exists|i: int|
                            0 <= i < old(self).store.custom@.len() && (#[trigger] custom_pairs(
                                old(self).store.custom@,
                            )[i]).0 == (t, rule_name@) && custom_pairs(final(self).store.custom@)
                                == custom_pairs(old(self).store.custom@).remove(i)) && (!old(
                            self,
                        ).store.custom_map().contains_key((t, rule_name@)) ==> final(self).store.custom@ == old(self).store.custom@)),
                    }) && final(self).cache.view_map() == old(self).cache.view_map().insert(
                        t,
                        final(self).build_view(t),
                    ),
                }
            }),
    {
        match condition {
            Some(cond) => {
                if self.config.limits_enabled {
                    let c = self.store.custom_count_excl(t, rule_name);
                    if c >= self.config.max_custom_rules {
                        return Err(
                            CmdError {
                                msg: mk_too_many_custom_incl(
                                    rule_name,
                                    c as u128 + 1,
                                    self.config.max_custom_rules,
                                ),
                            },
                        );
                    }
                }
                match VerificationRule::from_str(cond) {
                    Ok(_) => {},
                    Err(_) => {
                        return Err(CmdError { msg: mk_parse_failed() });
                    },
                }
                self.store.custom_put(t, rule_name, cond, now);
            },
            None => {
                self.store.custom_del(t, rule_name);
            },
        }
        self.ensure_compiled(t, true);
        Ok(())
    }

    /// Convenience composition: the caller resolves the member's linked
    /// identity through the external verifier and hands it in; the rest is
    /// `assign_roles`.
    pub fn update_user(
        &mut self,
        t: u64,
        member: &Member,
        can_modify: bool,
        identity: Option<&Identity>,
    ) -> (r: Result<(SetRolesStatus, MembershipChange), CmdError>)
        requires
            old(self).wf(),
        ensures
            final(self).wf(),
            final(self).config == old(self).config,
            final(self).store == old(self).store,
            identity is Some ==> ((old(self).cached_status(t) is NotCompiled) ==> final(self).cache.view_map() == old(self).cache.view_map().insert(t, old(self).build_view(t)))
                && (!(old(self).cached_status(t) is NotCompiled) ==> final(self).cache == old(
                self,
            ).cache),
            identity is None ==> final(self).cache == old(self).cache,
            r is Err ==> identity is Some && final(self).cached_status(t) is Error
                && r->Err_0.msg@ == config_broken_msg(),
            r is Ok ==> (identity is Some ==> final(self).cached_status(t) is Compiled),
            r is Ok ==> r->Ok_0.0 == (if !can_modify && old(self).config.set_display_name {
                SetRolesStatus::IsAdmin
            } else {
                SetRolesStatus::Success
            }),
            r is Ok ==> ({
                let target = match identity {
                    Some(id) => apply_deltas(
                        member.groups@.to_set(),
                        final(self).cached_status(t)->Compiled_0,
                        id.attributes@,
                    ),
                    None => member.groups@.to_set().difference(
                        managed_targets(old(self).store.active_map(), t),
                    ),
                };
                match r->Ok_0.1.new_groups {
                    Some(v) => v@.to_set() == target && target != member.groups@.to_set(),
                    None => target == member.groups@.to_set(),
                }
            }),
            r is Ok ==> ({
                let want = can_modify && old(self).config.set_display_name;
                let target: Option<Seq<char>> = match identity {
                    Some(id) => Some(id.display_name@),
                    None => None,
                };
                let current: Option<Seq<char>> = match member.display_name {
                    Some(d) => Some(d@),
                    None => None,
                };
                match r->Ok_0.1.new_display_name {
                    Some(s) => want && target != current && s@ == (match target {
                        Some(x) => x,
                        None => Seq::<char>::empty(),
                    }),
                    None => !want || target == current,
                }
            }),
    {
        self.assign_roles(t, member, can_modify, identity)
    }

    /// `update_user` behind the per-(tenant, member, trigger-kind) cooldown:
    /// a call inside the window is rejected with the remaining wait and
    /// changes nothing; otherwise the update runs and, on success, the
    /// cooldown timestamp advances to `now`. The recorded time never moves
    /// backwards.
    pub fn update_user_with_cooldown(
        &mut self,
        t: u64,
        member: &Member,
        can_modify: bool,
        identity: Option<&Identity>,
        cooldown: u64,
        is_manual: bool,
        now: u64,
    ) -> (r: Result<(SetRolesStatus, MembershipChange), CmdError>)
        requires
            old(self).wf(),
        ensures
            final(self).wf(),
            final(self).config == old(self).config,
            final(self).store.active@ == old(self).store.active@,
            final(self).store.custom@ == old(self).store.custom@,
            ({
                let key = (t, member.id, is_manual);
                let cdm = old(self).store.cooldown_map();
                let violation = cdm.contains_key(key) && (now as int) < cdm[key] + cooldown;
                if violation {
                    r is Err && final(self).store == old(self).store && final(self).cache == old(
                        self,
                    ).cache && r->Err_0.msg@ == cooldown_msg(
                        cooldown as nat,
                        (cdm[key] + cooldown - now) as nat,
                    )
                } else {
                    (identity is Some ==> ((old(self).cached_status(t) is NotCompiled) ==> final(self).cache.view_map() == old(self).cache.view_map().insert(
                        t,
                        old(self).build_view(t),
                    )) && (!(old(self).cached_status(t) is NotCompiled) ==> final(self).cache
                        == old(self).cache)) && (identity is None ==> final(self).cache == old(
                        self,
                    ).cache) && (match r {
                        Err(e) => final(self).store.cooldown@ == old(self).store.cooldown@
                            && identity is Some && final(self).cached_status(t) is Error && e.msg@
                            == config_broken_msg(),
                        Ok(u) => final(self).store.cooldown_map() == cdm.insert(key, now) && (
                        cdm.contains_key(key) ==> now >= cdm[key]) && u.0 == (if !can_modify
                            && old(self).config.set_display_name {
                            SetRolesStatus::IsAdmin
                        } else {
                            SetRolesStatus::Success
                        }) && (identity is Some ==> final(self).cached_status(t) is Compiled) && ({
                            let target = match identity {
                                Some(id) => apply_deltas(
                                    member.groups@.to_set(),
                                    final(self).cached_status(t)->Compiled_0,
                                    id.attributes@,
                                ),
                                None => member.groups@.to_set().difference(
                                    managed_targets(old(self).store.active_map(), t),
                                ),
                            };
                            match u.1.new_groups {
                                Some(v) => v@.to_set() == target && target
                                    != member.groups@.to_set(),
                                None => target == member.groups@.to_set(),
                            }
                        }) && ({
                            let want = can_modify && old(self).config.set_display_name;
                            let dtarget: Option<Seq<char>> = match identity {
                                Some(id) => Some(id.display_name@),
                                None => None,
                            };
                            let current: Option<Seq<char>> = match member.display_name {
                                Some(d) => Some(d@),
                                None => None,
                            };
                            match u.1.new_display_name {
                                Some(s) => want && dtarget != current && s@ == (match dtarget {
                                    Some(x) => x,
                                    None => Seq::<char>::empty(),
                                }),
                                None => !want || dtarget == current,
                            }
                        }),
                    })
                }
            }),
    {
        let prior = self.store.cooldown_get(t, member.id, is_manual);
        if let Some(last) = prior {
            let violated = if now >= last {
                now - last < cooldown
            } else {
                true
            };
            if violated {
                let remaining = last as u128 + cooldown as u128 - now as u128;
                return Err(CmdError { msg: mk_cooldown(cooldown, remaining) });
            }
        }
        let result = match self.update_user(t, member, can_modify, identity) {
            Ok(v) => v,
            Err(e) => {
                return Err(e);
            },
        };
        self.store.cooldown_put(t, member.id, is_manual, now);
        Ok(result)
    }
}

} // verus!
