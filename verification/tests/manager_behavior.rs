use rolekeeper::limits::LimitConfig;
use rolekeeper::manager::{Identity, Member, RoleManager, SetRolesStatus};

fn open_config() -> LimitConfig {
    LimitConfig {
        limits_enabled: false,
        max_assigned_roles: 0,
        max_custom_rules: 0,
        max_instructions: 0,
        max_web_requests: 0,
        set_display_name: true,
    }
}

fn limited_config(max_assigned: u64, max_custom: u64, max_instr: u64, max_web: u64) -> LimitConfig {
    LimitConfig {
        limits_enabled: true,
        max_assigned_roles: max_assigned,
        max_custom_rules: max_custom,
        max_instructions: max_instr,
        max_web_requests: max_web,
        set_display_name: true,
    }
}

fn identity(attrs: &str, name: &str) -> Identity {
    Identity { id: 7, attributes: attrs.chars().collect(), display_name: name.to_string() }
}

fn member(id: u64, groups: &[u64], display: Option<&str>) -> Member {
    Member { id, groups: groups.to_vec(), display_name: display.map(|s| s.to_string()) }
}

fn slot_of(
    cfg: &[(String, rolekeeper::manager::ConfiguredRole)],
    name: &str,
) -> (Option<u64>, Option<String>, u64) {
    let hits: Vec<_> = cfg.iter().filter(|(n, _)| n == name).collect();
    assert_eq!(hits.len(), 1, "exactly one slot per rule name");
    let role = &hits[0].1;
    (role.role_id, role.custom_rule.clone(), role.last_updated)
}

#[test]
fn configuration_joins_both_sources() {
    let mut m = RoleManager::new(open_config());
    m.set_custom_rule(1, "alpha", Some("x"), 10).unwrap();
    m.set_active_role(1, "alpha", Some(100), 20).unwrap();
    m.set_active_role(1, "verified", Some(200), 5).unwrap();
    m.set_custom_rule(1, "spare", Some("z"), 8).unwrap();

    let cfg = m.get_configuration(1);
    assert_eq!(cfg.len(), 3);
    // present in both sources: custom condition attaches, time is the later
    let (group, custom, updated) = slot_of(&cfg, "alpha");
    assert_eq!(group, Some(100));
    assert_eq!(custom.as_deref(), Some("x"));
    assert_eq!(updated, 20);
    // active only
    let (group, custom, updated) = slot_of(&cfg, "verified");
    assert_eq!(group, Some(200));
    assert!(custom.is_none());
    assert_eq!(updated, 5);
    // custom only: a definition, not an assignment
    let (group, custom, updated) = slot_of(&cfg, "spare");
    assert!(group.is_none());
    assert_eq!(custom.as_deref(), Some("z"));
    assert_eq!(updated, 8);
}

#[test]
fn configuration_takes_custom_time_when_later() {
    let mut m = RoleManager::new(open_config());
    m.set_active_role(1, "verified", Some(100), 30).unwrap();
    m.set_custom_rule(1, "verified", Some("q"), 50).unwrap();
    let cfg = m.get_configuration(1);
    let (_, _, updated) = slot_of(&cfg, "verified");
    assert_eq!(updated, 50);
}

#[test]
fn over_limit_compiles_to_error_with_both_numbers() {
    let mut m = RoleManager::new(limited_config(1, 10, 1000, 1000));
    m.set_active_role(5, "verified", Some(1), 1).unwrap();
    // the second binding is rejected up front by the same limit
    let err = m.set_active_role(5, "premium", Some(2), 2).unwrap_err();
    assert_eq!(
        err.msg,
        "Too many roles are configured to be assigned. (Including 'premium', 2 roles are active, maximum is 1.)"
    );
    // force the persisted state over the limit and recompile
    m.store.active.push(rolekeeper::store::ActiveRow {
        tenant: 5,
        rule: "premium".to_string(),
        group: 2,
        updated: 2,
    });
    m.clear_rule_cache();
    let err = m.check_error(5).expect("an over-limit configuration is an error state");
    assert_eq!(
        err,
        "Too many roles are configured to be assigned. (2 roles are active, maximum is 1.)"
    );
}

#[test]
fn same_configuration_compiles_with_limits_disabled() {
    let mut m = RoleManager::new(open_config());
    m.set_active_role(5, "verified", Some(1), 1).unwrap();
    m.set_active_role(5, "premium", Some(2), 2).unwrap();
    assert!(m.check_error(5).is_none());
}

#[test]
fn set_active_role_is_reflected_and_idempotent() {
    let mut m = RoleManager::new(open_config());
    m.set_active_role(1, "verified", Some(42), 9).unwrap();
    let cfg = m.get_configuration(1);
    let (group, _, updated) = slot_of(&cfg, "verified");
    assert_eq!(group, Some(42));
    assert_eq!(updated, 9);
    assert!(m.check_error(1).is_none());

    // the same call again produces the same persisted and cached end state
    m.set_active_role(1, "verified", Some(42), 9).unwrap();
    let cfg2 = m.get_configuration(1);
    assert_eq!(cfg2.len(), cfg.len());
    let (group, custom, updated) = slot_of(&cfg2, "verified");
    assert_eq!((group, custom, updated), (Some(42), None, 9));
    assert!(m.check_error(1).is_none());
}

#[test]
fn set_active_role_forces_a_fresh_compile() {
    let mut m = RoleManager::new(open_config());
    m.set_custom_rule(1, "alpha", Some("x"), 1).unwrap();
    m.set_active_role(1, "alpha", Some(10), 2).unwrap();
    assert!(m.check_error(1).is_none());
    // removing the definition leaves the active binding dangling; the forced
    // refresh must expose that immediately
    m.set_custom_rule(1, "alpha", None, 3).unwrap();
    let err = m.check_error(1).unwrap();
    assert_eq!(
        err,
        "Rule 'alpha' has neither a built-in definition nor a custom condition."
    );
}

#[test]
fn assigned_roles_report_each_rule_exactly() {
    let mut m = RoleManager::new(open_config());
    m.set_custom_rule(1, "alpha", Some("x"), 1).unwrap();
    m.set_custom_rule(1, "beta", Some("y"), 1).unwrap();
    m.set_active_role(1, "alpha", Some(101), 2).unwrap();
    m.set_active_role(1, "beta", Some(102), 2).unwrap();

    let id = identity("x", "someone");
    let mut got = m
        .get_assigned_roles(1, &id)
        .unwrap()
        .into_iter()
        .map(|a| (a.rule, a.role_id, a.is_assigned))
        .collect::<Vec<_>>();
    got.sort();
    assert_eq!(
        got,
        vec![
            ("alpha".to_string(), 101, true),
            ("beta".to_string(), 102, false),
        ]
    );
}

#[test]
fn broken_configuration_hides_the_cause_from_identities() {
    let mut m = RoleManager::new(open_config());
    m.set_active_role(1, "verified", Some(1), 1).unwrap();
    m.store.custom.push(rolekeeper::store::CustomRow {
        tenant: 1,
        rule: "odd".to_string(),
        condition: "NOT OK".to_string(),
        updated: 1,
    });
    m.store.active.push(rolekeeper::store::ActiveRow {
        tenant: 1,
        rule: "odd".to_string(),
        group: 9,
        updated: 1,
    });
    m.clear_rule_cache();
    let id = identity("x", "someone");
    let err = m.get_assigned_roles(1, &id).unwrap_err();
    assert_eq!(
        err.msg,
        "There is a problem with this tenant's role configuration. Please contact the admins."
    );
    // the admin-facing read reports the cause verbatim
    assert_eq!(
        m.check_error(1).unwrap(),
        "Rule 'odd': expected 1 to 64 lowercase attribute letters"
    );
}

#[test]
fn cooldown_blocks_within_window_and_allows_after() {
    let mut m = RoleManager::new(open_config());
    m.set_active_role(1, "verified", Some(7), 1).unwrap();
    let id = identity("", "someone");
    let mem = member(55, &[3], None);

    let r = m.update_user_with_cooldown(1, &mem, true, Some(&id), 60, true, 1000);
    assert!(r.is_ok());
    let err = m
        .update_user_with_cooldown(1, &mem, true, Some(&id), 60, true, 1030)
        .unwrap_err();
    assert_eq!(
        err.msg,
        "You can only update your roles once every 60 seconds. Try again in 30 seconds."
    );
    let r = m.update_user_with_cooldown(1, &mem, true, Some(&id), 60, true, 1060);
    assert!(r.is_ok());
}

#[test]
fn cooldown_kinds_are_tracked_separately() {
    let mut m = RoleManager::new(open_config());
    m.set_active_role(1, "verified", Some(7), 1).unwrap();
    let id = identity("", "someone");
    let mem = member(55, &[3], None);
    m.update_user_with_cooldown(1, &mem, true, Some(&id), 60, true, 1000).unwrap();
    // the automatic trigger kind has its own window
    m.update_user_with_cooldown(1, &mem, true, Some(&id), 60, false, 1001).unwrap();
}

#[test]
fn unlinked_identity_sheds_every_configured_target() {
    let mut m = RoleManager::new(open_config());
    m.set_active_role(1, "verified", Some(100), 1).unwrap();
    m.set_active_role(1, "premium", Some(200), 1).unwrap();
    // a definition without a group manages nothing
    m.set_custom_rule(1, "spare", Some("z"), 1).unwrap();

    let mem = member(55, &[100, 200, 999], None);
    let (status, change) = m.assign_roles(1, &mem, false, None).unwrap();
    assert_eq!(status, SetRolesStatus::IsAdmin);
    let mut groups = change.new_groups.expect("managed groups must be removed");
    groups.sort();
    assert_eq!(groups, vec![999]);
}

#[test]
fn satisfied_rules_add_and_unsatisfied_remove() {
    let mut m = RoleManager::new(open_config());
    m.set_custom_rule(1, "alpha", Some("x"), 1).unwrap();
    m.set_custom_rule(1, "beta", Some("y"), 1).unwrap();
    m.set_active_role(1, "alpha", Some(101), 2).unwrap();
    m.set_active_role(1, "beta", Some(102), 2).unwrap();

    let id = identity("x", "someone");
    let mem = member(55, &[102, 999], None);
    let (status, change) = m.assign_roles(1, &mem, true, Some(&id)).unwrap();
    assert_eq!(status, SetRolesStatus::Success);
    let mut groups = change.new_groups.unwrap();
    groups.sort();
    assert_eq!(groups, vec![101, 999]);
}

#[test]
fn no_change_issues_no_mutation() {
    let mut m = RoleManager::new(open_config());
    m.set_custom_rule(1, "alpha", Some("x"), 1).unwrap();
    m.set_active_role(1, "alpha", Some(101), 2).unwrap();
    let id = identity("x", "someone");
    let mem = member(55, &[101], Some("someone"));
    let (_, change) = m.assign_roles(1, &mem, true, Some(&id)).unwrap();
    assert!(change.new_groups.is_none());
    assert!(change.new_display_name.is_none());
}

#[test]
fn clear_all_makes_every_tenant_recompile() {
    let mut m = RoleManager::new(open_config());
    m.set_active_role(1, "verified", Some(1), 1).unwrap();
    m.set_active_role(2, "premium", Some(2), 1).unwrap();
    assert!(m.check_error(1).is_none());
    assert!(m.check_error(2).is_none());
    // break both tenants' stored configuration behind the cache's back
    for t in [1u64, 2u64] {
        m.store.active.push(rolekeeper::store::ActiveRow {
            tenant: t,
            rule: "ghostly".to_string(),
            group: 9,
            updated: 1,
        });
    }
    // non-forced reads still trust the cached outcome
    assert!(m.check_error(1).is_none());
    assert!(m.check_error(2).is_none());
    m.clear_rule_cache();
    // now every tenant recompiles and sees the broken state
    assert_eq!(
        m.check_error(1).unwrap(),
        "Rule 'ghostly' has neither a built-in definition nor a custom condition."
    );
    assert_eq!(
        m.check_error(2).unwrap(),
        "Rule 'ghostly' has neither a built-in definition nor a custom condition."
    );
}
