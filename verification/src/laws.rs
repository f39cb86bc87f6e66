//! The library's general laws, stated and proved over the specification
//! model that the executable functions' contracts use.

use vstd::prelude::*;
use crate::alist::{alist_map, alist_wf};
use crate::cache::StatusView;
use crate::limits::{too_many_assigned_msg, LimitConfig};
use crate::manager::{
    build_status_spec, compile_rows, config_map, resolve_attrs, RoleManager,
};
use crate::store::{active_pairs, count_active, custom_pairs, Store};

verus! {

/// Every rule name that appears in either persisted relation of a tenant has
/// exactly one joined configuration slot, and when both relations know the
/// name the slot's time is the later of the two.
pub proof fn lemma_configuration_slots(store: Store, t: u64, name: Seq<char>)
    ensures
        config_map(store, t).contains_key(name) <==> (store.active_map().contains_key((t, name))
            || store.custom_map().contains_key((t, name))),
        (store.active_map().contains_key((t, name)) && store.custom_map().contains_key((t, name)))
            ==> config_map(store, t)[name].updated == (if store.active_map()[(t, name)].1
            >= store.custom_map()[(t, name)].1 {
            store.active_map()[(t, name)].1
        } else {
            store.custom_map()[(t, name)].1
        }),
{
}

/// With limits enabled, a configuration with more active rules than the
/// maximum compiles to an error that carries both the observed count and the
/// configured maximum.
pub proof fn lemma_limit_gate_blocks(
    cfg: LimitConfig,
    ap: Seq<((u64, Seq<char>), (u64, u64))>,
    cp: Seq<((u64, Seq<char>), (Seq<char>, u64))>,
    t: u64,
)
    requires
        cfg.limits_enabled,
        count_active(ap, t) > cfg.max_assigned_roles,
    ensures
        build_status_spec(cfg, ap, cp, t) == StatusView::Error(
            too_many_assigned_msg(count_active(ap, t), cfg.max_assigned_roles as nat),
        ),
{
}

pub proof fn lemma_compile_rows_ok(
    ap: Seq<((u64, Seq<char>), (u64, u64))>,
    cm: Map<(u64, Seq<char>), (Seq<char>, u64)>,
    t: u64,
)
    requires
        forall|i: int|
            0 <= i < ap.len() && (#[trigger] ap[i]).0.0 == t ==> resolve_attrs(cm, t, ap[i].0.1)
                is Ok,
    ensures
        compile_rows(ap, cm, t) is Ok,
    decreases ap.len(),
{
    if ap.len() > 0 {
        assert(forall|i: int|
            0 <= i < ap.drop_first().len() ==> (#[trigger] ap.drop_first()[i]) == ap[i + 1]);
        lemma_compile_rows_ok(ap.drop_first(), cm, t);
    }
}

/// The same configuration, with limits disabled and every active rule
/// resolvable, compiles successfully.
pub proof fn lemma_limit_gate_open(
    cfg: LimitConfig,
    ap: Seq<((u64, Seq<char>), (u64, u64))>,
    cp: Seq<((u64, Seq<char>), (Seq<char>, u64))>,
    t: u64,
)
    requires
        !cfg.limits_enabled,
        forall|i: int|
            0 <= i < ap.len() && (#[trigger] ap[i]).0.0 == t ==> resolve_attrs(
                alist_map(cp),
                t,
                ap[i].0.1,
            ) is Ok,
    ensures
        build_status_spec(cfg, ap, cp, t) is Compiled,
{
    lemma_compile_rows_ok(ap, alist_map(cp), t);
}

/// Upserting the same key with the same value twice leaves the association
/// sequence exactly as after the first upsert.
pub proof fn lemma_upsert_idempotent<K, V>(
    s0: Seq<(K, V)>,
    s1: Seq<(K, V)>,
    s2: Seq<(K, V)>,
    k: K,
    v: V,
)
    requires
        alist_wf(s0),
        alist_wf(s1),
        alist_map(s0).contains_key(k) ==> exists|i: int|
            0 <= i < s0.len() && (#[trigger] s0[i]).0 == k && s1 == s0.update(i, (k, v)),
        !alist_map(s0).contains_key(k) ==> s1 == s0.push((k, v)),
        alist_map(s1) == alist_map(s0).insert(k, v),
        alist_map(s1).contains_key(k) ==> exists|i: int|
            0 <= i < s1.len() && (#[trigger] s1[i]).0 == k && s2 == s1.update(i, (k, v)),
        !alist_map(s1).contains_key(k) ==> s2 == s1.push((k, v)),
    ensures
        s2 == s1,
{
    assert(alist_map(s1).contains_key(k));
    let i = choose|i: int| 0 <= i < s1.len() && (#[trigger] s1[i]).0 == k && s2 == s1.update(
        i,
        (k, v),
    );
    if alist_map(s0).contains_key(k) {
        let j = choose|j: int| 0 <= j < s0.len() && (#[trigger] s0[j]).0 == k && s1 == s0.update(
            j,
            (k, v),
        );
        assert(s1[j] == (k, v));
        assert(i == j);
    } else {
        assert(s1[s0.len() as int] == (k, v));
        assert(i == s0.len());
    }
    assert(s1[i] == (k, v));
    assert(s2 =~= s1);
}

/// Binding the same rule to the same group twice, at the same clock reading,
/// produces the same persisted relations and the same cached status as the
/// first call alone.
pub proof fn lemma_set_active_role_idempotent(
    m0: RoleManager,
    m1: RoleManager,
    m2: RoleManager,
    t: u64,
    name: Seq<char>,
    g: u64,
    now: u64,
)
    requires
        m0.wf(),
        m1.wf(),
        m2.wf(),
        m1.config == m0.config,
        m2.config == m1.config,
        // the first successful call's effect
        m1.store.custom@ == m0.store.custom@,
        m1.store.active_map() == m0.store.active_map().insert((t, name), (g, now)),
        m0.store.active_map().contains_key((t, name)) ==> exists|i: int|
            0 <= i < m0.store.active@.len() && (#[trigger] active_pairs(m0.store.active@)[i]).0 == (
            t,
            name,
        ) && active_pairs(m1.store.active@) == active_pairs(m0.store.active@).update(
            i,
            ((t, name), (g, now)),
        ),
        !m0.store.active_map().contains_key((t, name)) ==> active_pairs(m1.store.active@)
            == active_pairs(m0.store.active@).push(((t, name), (g, now))),
        m1.cache.view_map() == m0.cache.view_map().insert(t, m1.build_view(t)),
        // the second successful call's effect
        m2.store.custom@ == m1.store.custom@,
        m1.store.active_map().contains_key((t, name)) ==> exists|i: int|
            0 <= i < m1.store.active@.len() && (#[trigger] active_pairs(m1.store.active@)[i]).0 == (
            t,
            name,
        ) && active_pairs(m2.store.active@) == active_pairs(m1.store.active@).update(
            i,
            ((t, name), (g, now)),
        ),
        !m1.store.active_map().contains_key((t, name)) ==> active_pairs(m2.store.active@)
            == active_pairs(m1.store.active@).push(((t, name), (g, now))),
        m2.cache.view_map() == m1.cache.view_map().insert(t, m2.build_view(t)),
    ensures
        active_pairs(m2.store.active@) == active_pairs(m1.store.active@),
        custom_pairs(m2.store.custom@) == custom_pairs(m1.store.custom@),
        m2.cache.view_map() == m1.cache.view_map(),
{
    lemma_upsert_idempotent(
        active_pairs(m0.store.active@),
        active_pairs(m1.store.active@),
        active_pairs(m2.store.active@),
        (t, name),
        (g, now),
    );
    assert(m2.build_view(t) == m1.build_view(t));
    assert(m1.cache.view_map()[t] == m1.build_view(t));
    assert(m2.cache.view_map() =~= m1.cache.view_map());
}

/// After a successful cooldown-tracked update at `now0`, a second call on the
/// same key before the window elapses is a violation, and one at or past the
/// window's end is not.
pub proof fn lemma_cooldown_window(
    m1: RoleManager,
    t: u64,
    member_id: u64,
    is_manual: bool,
    now0: u64,
    cooldown: u64,
    now1: u64,
)
    requires
        m1.store.cooldown_map().contains_key((t, member_id, is_manual)),
        m1.store.cooldown_map()[(t, member_id, is_manual)] == now0,
    ensures
        ((now1 as int) < now0 + cooldown) ==> (m1.store.cooldown_map().contains_key(
            (t, member_id, is_manual),
        ) && (now1 as int) < m1.store.cooldown_map()[(t, member_id, is_manual)] + cooldown),
        ((now1 as int) >= now0 + cooldown) ==> !((now1 as int) < m1.store.cooldown_map()[
            (t, member_id, is_manual)
        ] + cooldown),
{
}

/// Clearing the cache leaves every tenant with no compile outcome, so the
/// next access recompiles rather than reusing a prior result.
pub proof fn lemma_clear_forces_recompile(m: RoleManager)
    requires
        m.cache.view_map() == Map::<u64, StatusView>::empty(),
    ensures
        forall|t: u64| m.cached_status(t) is NotCompiled,
{
}

/// A rule binding just written to the store is visible in the joined
/// configuration: the slot exists and carries the bound group.
pub proof fn lemma_configuration_reflects_binding(
    store: Store,
    t: u64,
    name: Seq<char>,
    g: u64,
    now: u64,
)
    requires
        store.active_map().contains_key((t, name)),
        store.active_map()[(t, name)] == (g, now),
    ensures
        config_map(store, t).contains_key(name),
        config_map(store, t)[name].group == Some(g),
{
}

/// A compile always produces a terminal outcome: once a tenant's entry holds
/// a result, no operation but a full cache clear can return it to the
/// initial, not-yet-compiled state.
pub proof fn lemma_compile_outcome_is_terminal(
    cfg: LimitConfig,
    ap: Seq<((u64, Seq<char>), (u64, u64))>,
    cp: Seq<((u64, Seq<char>), (Seq<char>, u64))>,
    t: u64,
)
    ensures
        !(build_status_spec(cfg, ap, cp, t) is NotCompiled),
{
}

} // verus!
