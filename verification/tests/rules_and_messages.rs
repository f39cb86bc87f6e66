use rolekeeper::limits::LimitConfig;
use rolekeeper::manager::{Identity, Member, RoleManager, SetRolesStatus};
use rolekeeper::rules::VerificationRule;
use rolekeeper::text::{seconds_phrase, u128_string};

fn open_config() -> LimitConfig {
    LimitConfig {
        limits_enabled: false,
        max_assigned_roles: 0,
        max_custom_rules: 0,
        max_instructions: 0,
        max_web_requests: 0,
        set_display_name: true,
    }
}

fn limited(max_assigned: u64, max_custom: u64, max_instr: u64, max_web: u64) -> LimitConfig {
    LimitConfig {
        limits_enabled: true,
        max_assigned_roles: max_assigned,
        max_custom_rules: max_custom,
        max_instructions: max_instr,
        max_web_requests: max_web,
        set_display_name: false,
    }
}

#[test]
fn decimal_rendering_is_exact() {
    assert_eq!(u128_string(0), "0");
    assert_eq!(u128_string(7), "7");
    assert_eq!(u128_string(40960), "40960");
    assert_eq!(u128_string(18446744073709551615), "18446744073709551615");
    assert_eq!(seconds_phrase(1), "1 second");
    assert_eq!(seconds_phrase(0), "0 seconds");
    assert_eq!(seconds_phrase(90), "90 seconds");
}

#[test]
fn conditions_parse_only_lowercase_words() {
    assert!(VerificationRule::from_str("abc").is_ok());
    assert!(VerificationRule::from_str("").is_err());
    assert!(VerificationRule::from_str("a b").is_err());
    assert!(VerificationRule::from_str("A").is_err());
    assert!(VerificationRule::from_str(&"a".repeat(64)).is_ok());
    let err = VerificationRule::from_str(&"a".repeat(65)).unwrap_err();
    assert_eq!(err, "expected 1 to 64 lowercase attribute letters");
}

#[test]
fn builtin_registry_is_fixed() {
    assert!(VerificationRule::has_builtin("verified"));
    assert!(VerificationRule::has_builtin("premium"));
    assert!(VerificationRule::has_builtin("staff"));
    assert!(!VerificationRule::has_builtin("other"));
}

#[test]
fn builtin_verified_holds_for_every_identity() {
    let mut m = RoleManager::new(open_config());
    m.set_active_role(1, "verified", Some(100), 1).unwrap();
    m.set_active_role(1, "premium", Some(200), 1).unwrap();
    let id = Identity { id: 9, attributes: vec![], display_name: "n".to_string() };
    let roles = m.get_assigned_roles(1, &id).unwrap();
    for role in roles {
        match role.rule.as_str() {
            "verified" => assert!(role.is_assigned),
            "premium" => assert!(!role.is_assigned),
            other => panic!("unexpected rule {}", other),
        }
    }
}

#[test]
fn unknown_rule_name_is_rejected() {
    let mut m = RoleManager::new(open_config());
    let err = m.set_active_role(1, "nope", Some(1), 1).unwrap_err();
    assert_eq!(err.msg, "No rule name 'nope' found.");
    assert!(m.get_configuration(1).is_empty());
}

#[test]
fn clearing_a_binding_is_not_limit_checked() {
    let mut m = RoleManager::new(limited(1, 10, 1000, 1000));
    m.set_active_role(1, "verified", Some(1), 1).unwrap();
    m.store.active.push(rolekeeper::store::ActiveRow {
        tenant: 1,
        rule: "premium".to_string(),
        group: 2,
        updated: 1,
    });
    // removing a binding always goes through, even over the limit
    m.set_active_role(1, "premium", None, 2).unwrap();
    assert!(m.check_error(1).is_none());
}

#[test]
fn custom_rule_limit_counts_the_prospective_rule() {
    let mut m = RoleManager::new(limited(10, 1, 1000, 1000));
    m.set_custom_rule(1, "alpha", Some("x"), 1).unwrap();
    // redefining the same rule stays within the limit
    m.set_custom_rule(1, "alpha", Some("y"), 2).unwrap();
    let err = m.set_custom_rule(1, "beta", Some("z"), 3).unwrap_err();
    assert_eq!(
        err.msg,
        "Too many custom rules exist. (Including 'beta', 2 rules exist, maximum is 1.)"
    );
    // deleting needs no headroom
    m.set_custom_rule(1, "alpha", None, 4).unwrap();
}

#[test]
fn unparseable_custom_rule_is_rejected_before_writing() {
    let mut m = RoleManager::new(open_config());
    let err = m.set_custom_rule(1, "alpha", Some("NOT ok"), 1).unwrap_err();
    assert_eq!(
        err.msg,
        "Failed to parse custom rule: expected 1 to 64 lowercase attribute letters"
    );
    assert!(m.get_configuration(1).is_empty());
}

#[test]
fn instruction_limit_reports_complexity() {
    // one rule testing two attributes costs three instructions
    let mut m = RoleManager::new(limited(10, 10, 2, 1000));
    m.set_custom_rule(1, "alpha", Some("xy"), 1).unwrap();
    m.set_active_role(1, "alpha", Some(5), 2).unwrap();
    assert_eq!(
        m.check_error(1).unwrap(),
        "Role configuration is too complex. (Complexity is 3, maximum is 2.)"
    );
}

#[test]
fn lookup_limit_reports_web_requests() {
    let mut m = RoleManager::new(limited(10, 10, 1000, 1));
    m.set_custom_rule(1, "alpha", Some("xy"), 1).unwrap();
    m.set_active_role(1, "alpha", Some(5), 2).unwrap();
    assert_eq!(
        m.check_error(1).unwrap(),
        "Role configuration makes too many web requests. (Configuration makes 2 web requests, maximum is 1.)"
    );
}

#[test]
fn explanation_renders_the_set_or_the_error() {
    let mut m = RoleManager::new(open_config());
    m.set_active_role(1, "verified", Some(7), 1).unwrap();
    m.set_custom_rule(1, "alpha", Some("xy"), 1).unwrap();
    m.set_active_role(1, "alpha", Some(9), 2).unwrap();
    assert_eq!(
        m.explain_rule_set(1),
        "Rule 'verified' assigns group 7 to every verified identity.\n\
         Rule 'alpha' assigns group 9 when the identity has tags 'xy'.\n"
    );
    m.store.active.push(rolekeeper::store::ActiveRow {
        tenant: 1,
        rule: "ghostly".to_string(),
        group: 9,
        updated: 1,
    });
    m.clear_rule_cache();
    assert_eq!(
        m.explain_rule_set(1),
        "Could not compile: Rule 'ghostly' has neither a built-in definition nor a custom condition."
    );
}

#[test]
fn display_name_follows_identity_when_permitted() {
    let mut m = RoleManager::new(open_config());
    m.set_active_role(1, "verified", Some(7), 1).unwrap();
    let id = Identity { id: 9, attributes: vec![], display_name: "fresh".to_string() };

    // permitted and different: the new name is signalled
    let mem = Member { id: 5, groups: vec![7], display_name: Some("stale".to_string()) };
    let (status, change) = m.assign_roles(1, &mem, true, Some(&id)).unwrap();
    assert_eq!(status, SetRolesStatus::Success);
    assert_eq!(change.new_display_name.as_deref(), Some("fresh"));

    // permitted and equal: nothing to change
    let mem = Member { id: 5, groups: vec![7], display_name: Some("fresh".to_string()) };
    let (_, change) = m.assign_roles(1, &mem, true, Some(&id)).unwrap();
    assert!(change.new_display_name.is_none());

    // no identity: an existing display name is cleared
    let mem = Member { id: 5, groups: vec![], display_name: Some("stale".to_string()) };
    let (_, change) = m.assign_roles(1, &mem, true, None).unwrap();
    assert_eq!(change.new_display_name.as_deref(), Some(""));

    // not permitted: the caller is told, and the name is left alone
    let mem = Member { id: 5, groups: vec![7], display_name: Some("stale".to_string()) };
    let (status, change) = m.assign_roles(1, &mem, false, Some(&id)).unwrap();
    assert_eq!(status, SetRolesStatus::IsAdmin);
    assert!(change.new_display_name.is_none());
}

#[test]
fn update_user_composes_with_the_resolved_identity() {
    let mut m = RoleManager::new(open_config());
    m.set_active_role(1, "verified", Some(7), 1).unwrap();
    let id = Identity { id: 9, attributes: vec![], display_name: "n".to_string() };
    let mem = Member { id: 5, groups: vec![], display_name: None };
    let (_, change) = m.update_user(1, &mem, false, Some(&id)).unwrap();
    assert_eq!(change.new_groups.unwrap(), vec![7]);
    // an unlinked member sheds the managed group instead
    let mem = Member { id: 5, groups: vec![7], display_name: None };
    let (_, change) = m.update_user(1, &mem, false, None).unwrap();
    assert_eq!(change.new_groups.unwrap(), Vec::<u64>::new());
}

#[test]
fn cooldown_holds_even_if_the_clock_goes_backwards() {
    let mut m = RoleManager::new(open_config());
    m.set_active_role(1, "verified", Some(7), 1).unwrap();
    let id = Identity { id: 9, attributes: vec![], display_name: "n".to_string() };
    let mem = Member { id: 5, groups: vec![], display_name: None };
    m.update_user_with_cooldown(1, &mem, false, Some(&id), 60, true, 1000).unwrap();
    let err = m
        .update_user_with_cooldown(1, &mem, false, Some(&id), 60, true, 900)
        .unwrap_err();
    assert_eq!(
        err.msg,
        "You can only update your roles once every 60 seconds. Try again in 160 seconds."
    );
}
