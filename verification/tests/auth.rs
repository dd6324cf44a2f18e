use byoridb_executor::auth::{
    alter_user_decision, create_user_decision, drop_user_decision, execute_balance,
    grant_decision, grant_role, is_admin, is_root_username, revoke_decision, revoke_role,
    validate_and_normalize_assignable_role, validate_and_normalize_revocable_role, BalancePlan,
    CreateUserAction, DropUserAction,
};

fn roles(names: &[&str]) -> Vec<String> {
    names.iter().map(|s| s.to_string()).collect()
}

#[test]
fn assignable_roles_are_normalised() {
    assert_eq!(validate_and_normalize_assignable_role("admin").unwrap(), "ADMIN");
    assert_eq!(validate_and_normalize_assignable_role("Guest").unwrap(), "GUEST");
    let e = validate_and_normalize_assignable_role("god").unwrap_err();
    assert_eq!(
        e.message(),
        "Invalid operation: Role cannot be assigned; valid roles are ADMIN, DBA, USER, and GUEST"
    );
    assert!(validate_and_normalize_assignable_role("superuser").is_err());
}

#[test]
fn god_stays_revocable() {
    assert_eq!(validate_and_normalize_revocable_role("gOd").unwrap(), "GOD");
    assert_eq!(validate_and_normalize_revocable_role("dba").unwrap(), "DBA");
    let e = validate_and_normalize_revocable_role("root").unwrap_err();
    assert_eq!(
        e.message(),
        "Invalid operation: Role cannot be revoked; valid roles are GOD, ADMIN, DBA, USER, and GUEST"
    );
}

#[test]
fn admin_means_god_or_admin() {
    assert!(is_admin(&roles(&["USER", "ADMIN"])));
    assert!(is_admin(&roles(&["GOD"])));
    assert!(!is_admin(&roles(&["USER", "admin"])));
    assert!(!is_admin(&roles(&[])));
}

#[test]
fn root_is_reserved_in_any_case() {
    assert!(is_root_username("root"));
    assert!(is_root_username("RoOt"));
    assert!(!is_root_username("rooted"));
    assert!(!is_root_username("alice"));
}

#[test]
fn create_user_checks_in_order() {
    let e = create_user_decision(false, "alice", false, false, None).unwrap_err();
    assert_eq!(e.message(), "Invalid operation: CREATE USER requires GOD or ADMIN role");
    let e = create_user_decision(true, "ROOT", false, false, None).unwrap_err();
    assert_eq!(e.message(), "Invalid operation: Username 'root' is reserved for the built-in superuser");
    assert!(matches!(create_user_decision(true, "alice", true, true, None), Ok(CreateUserAction::Skip)));
    let e = create_user_decision(true, "alice", false, true, None).unwrap_err();
    assert_eq!(e.message(), "Invalid operation: User alice already exists");
    assert!(create_user_decision(true, "alice", false, false, Some("gOd")).is_err());
    match create_user_decision(true, "alice", false, false, Some("user")) {
        Ok(CreateUserAction::Create { role: Some(r) }) => assert_eq!(r, "USER"),
        other => panic!("unexpected {other:?}"),
    }
    assert!(matches!(
        create_user_decision(true, "alice", false, false, None),
        Ok(CreateUserAction::Create { role: None })
    ));
}

#[test]
fn drop_user_decisions() {
    assert!(drop_user_decision(false, "alice", false, true).is_err());
    let e = drop_user_decision(true, "root", false, true).unwrap_err();
    assert_eq!(e.message(), "Invalid operation: Cannot delete the root user");
    assert_eq!(drop_user_decision(true, "alice", true, false).unwrap(), DropUserAction::AlreadyDropped);
    let e = drop_user_decision(true, "alice", false, false).unwrap_err();
    assert_eq!(e.message(), "Invalid operation: User alice not found");
    assert_eq!(drop_user_decision(true, "alice", false, true).unwrap(), DropUserAction::Delete);
}

#[test]
fn alter_grant_revoke_decisions() {
    let e = alter_user_decision(false, "alice", true).unwrap_err();
    assert_eq!(e.message(), "Invalid operation: ALTER USER requires GOD or ADMIN role");
    let e = alter_user_decision(true, "Root", true).unwrap_err();
    assert_eq!(e.message(), "Invalid operation: Root password is managed by process configuration");
    assert!(alter_user_decision(true, "alice", true).is_ok());
    let e = grant_decision(true, "bob", false, "USER").unwrap_err();
    assert_eq!(e.message(), "Invalid operation: User bob does not exist");
    assert_eq!(grant_decision(true, "bob", true, "dba").unwrap(), "DBA");
    assert!(grant_decision(true, "bob", true, "GOD").is_err());
    let e = revoke_decision(false, "bob", true, "USER").unwrap_err();
    assert_eq!(e.message(), "Invalid operation: REVOKE requires GOD or ADMIN role");
    assert_eq!(revoke_decision(true, "bob", true, "god").unwrap(), "GOD");
}

#[test]
fn grant_adds_once_and_revoke_removes_all() {
    let r = grant_role(roles(&["USER"]), "DBA".to_string());
    assert_eq!(r, roles(&["USER", "DBA"]));
    let r = grant_role(r, "USER".to_string());
    assert_eq!(r, roles(&["USER", "DBA"]));
    let r = revoke_role(&roles(&["USER", "DBA", "USER"]), &"USER".to_string());
    assert_eq!(r, roles(&["DBA"]));
}

#[test]
fn balance_is_not_supported() {
    let e = execute_balance(BalancePlan::Leader);
    assert_eq!(
        e.message(),
        "Invalid operation: BALANCE LEADER is not supported: no balance-job control RPC is wired to the executor"
    );
    assert!(execute_balance(BalancePlan::Reset).message().contains("BALANCE RESET"));
}
