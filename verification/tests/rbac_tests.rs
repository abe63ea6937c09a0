use authcore::catalog::{catalog, catalog_contains, catalog_lookup};
use authcore::error::CoreError;
use authcore::store::{PolicyStore, PolicyTuple, RoleAssignment};

fn sorted(mut v: Vec<String>) -> Vec<String> {
    v.sort();
    v
}

fn keys(list: &[&str]) -> Vec<String> {
    list.iter().map(|k| k.to_string()).collect()
}

#[test]
fn grant_and_enforce_scenario() {
    let mut s = PolicyStore::new();
    s.set_permissions("2", &keys(&["instance_manage", "user_manage"])).unwrap();
    s.set_role_for_user("u1", "2");
    assert!(s.enforce("u1", "instance", "manage"));
    assert!(!s.enforce("u1", "job", "delete"));
}

#[test]
fn delete_role_cascades() {
    let mut s = PolicyStore::new();
    s.set_permissions("2", &keys(&["instance_manage", "user_manage"])).unwrap();
    s.set_role_for_user("u1", "2");
    s.delete_role("2");
    assert!(!s.enforce("u1", "instance", "manage"));
    assert!(s.get_permissions_for_role("2").is_empty());
    assert!(!s.has_role_for_user("u1", "2"));
}

#[test]
fn deny_by_default() {
    let mut s = PolicyStore::new();
    s.set_permissions("7", &keys(&[])).unwrap();
    s.set_role_for_user("fresh", "7");
    assert!(!s.enforce("fresh", "instance", "manage"));
    assert!(!s.enforce("fresh", "user", "manage"));
    assert!(!s.enforce("fresh", "change", "forbid"));
    assert!(!s.enforce("fresh", "anything", "at-all"));
}

#[test]
fn set_role_for_user_is_idempotent() {
    let mut s = PolicyStore::new();
    s.set_permissions("2", &keys(&["user_manage"])).unwrap();
    s.set_role_for_user("u1", "2");
    let once_assignments = s.assignments.len();
    let once_perms = s.get_permissions_for_user("u1");
    s.set_role_for_user("u1", "2");
    assert_eq!(s.assignments.len(), once_assignments);
    assert_eq!(s.assignments.len(), 1);
    assert_eq!(s.get_permissions_for_user("u1"), once_perms);
    assert!(s.has_role_for_user("u1", "2"));
}

#[test]
fn reassigning_revokes_previous_role() {
    let mut s = PolicyStore::new();
    s.set_permissions("1", &keys(&["user_manage"])).unwrap();
    s.set_permissions("2", &keys(&["instance_manage"])).unwrap();
    s.set_role_for_user("u1", "1");
    assert!(s.enforce("u1", "user", "manage"));
    s.set_role_for_user("u1", "2");
    assert!(!s.has_role_for_user("u1", "1"));
    assert!(s.has_role_for_user("u1", "2"));
    assert!(!s.enforce("u1", "user", "manage"));
    assert!(s.enforce("u1", "instance", "manage"));
    assert_eq!(s.assignments.len(), 1);
}

#[test]
fn set_permissions_replaces_exactly() {
    let mut s = PolicyStore::new();
    s.set_permissions("2", &keys(&["instance_manage", "user_manage"])).unwrap();
    assert_eq!(
        sorted(s.get_permissions_for_role("2")),
        sorted(keys(&["instance_manage", "user_manage"]))
    );
    s.set_permissions("2", &keys(&["change_forbid"])).unwrap();
    assert_eq!(s.get_permissions_for_role("2"), keys(&["change_forbid"]));
    s.set_permissions("2", &keys(&[])).unwrap();
    assert!(s.get_permissions_for_role("2").is_empty());
}

#[test]
fn set_permissions_deduplicates_keys() {
    let mut s = PolicyStore::new();
    s.set_permissions("2", &keys(&["user_manage", "user_manage"])).unwrap();
    assert_eq!(s.get_permissions_for_role("2"), keys(&["user_manage"]));
}

#[test]
fn set_permissions_invalid_key_is_atomic() {
    let mut s = PolicyStore::new();
    s.set_permissions("2", &keys(&["instance_manage", "user_manage"])).unwrap();
    s.set_role_for_user("u1", "2");
    let before = sorted(s.get_permissions_for_role("2"));
    let r = s.set_permissions("2", &keys(&["change_forbid", "bogus_key"]));
    assert_eq!(r, Err(CoreError::InvalidPermissionKey));
    assert_eq!(sorted(s.get_permissions_for_role("2")), before);
    assert!(s.has_role_for_user("u1", "2"));
    assert!(s.enforce("u1", "instance", "manage"));
    let r2 = s.set_permissions("2", &keys(&["nounderscore"]));
    assert_eq!(r2, Err(CoreError::InvalidPermissionKey));
    assert_eq!(sorted(s.get_permissions_for_role("2")), before);
}

#[test]
fn add_policy_reports_new_insertions() {
    let mut s = PolicyStore::new();
    assert_eq!(s.add_policy("1", "user", "manage"), Ok(true));
    assert_eq!(s.add_policy("1", "user", "manage"), Ok(false));
    assert_eq!(s.add_policy("1", "job", "delete"), Err(CoreError::InvalidPermissionKey));
    assert!(s.has_policy("1", "user", "manage"));
    assert!(!s.has_policy("1", "instance", "manage"));
}

#[test]
fn remove_policy_and_filtered_removal() {
    let mut s = PolicyStore::new();
    s.add_policy("1", "user", "manage").unwrap();
    s.add_policy("1", "instance", "manage").unwrap();
    s.add_policy("2", "instance", "manage").unwrap();
    assert!(s.remove_policy("1", "user", "manage"));
    assert!(!s.remove_policy("1", "user", "manage"));
    assert!(!s.has_policy("1", "user", "manage"));
    let removed = s.remove_filtered_policy(None, Some("instance"), None);
    assert_eq!(removed, 2);
    assert!(s.policies.is_empty());
}

#[test]
fn delete_role_for_user_leaves_others() {
    let mut s = PolicyStore::new();
    s.set_role_for_user("u1", "1");
    s.set_role_for_user("u2", "2");
    s.delete_role_for_user("u1");
    assert!(!s.has_role_for_user("u1", "1"));
    assert!(s.has_role_for_user("u2", "2"));
    s.delete_role_for_user("ghost");
    assert!(s.has_role_for_user("u2", "2"));
}

#[test]
fn permissions_for_user_without_role_is_empty() {
    let mut s = PolicyStore::new();
    s.set_permissions("2", &keys(&["user_manage"])).unwrap();
    assert!(s.get_permissions_for_user("nobody").is_empty());
}

#[test]
fn admin_helpers() {
    let mut s = PolicyStore::new();
    s.init_admin_permission().unwrap();
    s.set_role_for_user("root", "1");
    assert!(s.can_manage_instance("root"));
    assert!(s.can_manage_user("root"));
    assert!(!s.is_change_forbid("root"));
    s.set_permission_forbid_change("1").unwrap();
    assert!(s.is_change_forbid("root"));
    assert!(!s.can_manage_instance("guest"));
}

#[test]
fn check_permissions_requires_all() {
    let mut s = PolicyStore::new();
    s.set_permissions("2", &keys(&["instance_manage"])).unwrap();
    s.set_role_for_user("u1", "2");
    let one = catalog_lookup("instance_manage").unwrap();
    let two = catalog_lookup("user_manage").unwrap();
    assert!(s.check_permissions("u1", &vec![one]));
    let one = catalog_lookup("instance_manage").unwrap();
    assert!(!s.check_permissions("u1", &vec![one, two]));
    assert!(s.check_permissions("u1", &vec![]));
}

#[test]
fn load_policy_normalizes_rows() {
    let mut s = PolicyStore::new();
    let rows = vec![
        PolicyTuple { role: "1".into(), object: "user".into(), action: "manage".into() },
        PolicyTuple { role: "1".into(), object: "user".into(), action: "manage".into() },
        PolicyTuple { role: "1".into(), object: "job".into(), action: "delete".into() },
        PolicyTuple { role: "2".into(), object: "change".into(), action: "forbid".into() },
    ];
    let members = vec![
        RoleAssignment { user: "u1".into(), role: "1".into() },
        RoleAssignment { user: "u1".into(), role: "2".into() },
        RoleAssignment { user: "u2".into(), role: "2".into() },
    ];
    s.load_policy(rows, members);
    assert_eq!(s.policies.len(), 2);
    assert!(s.has_policy("1", "user", "manage"));
    assert!(!s.has_policy("1", "job", "delete"));
    assert!(s.has_policy("2", "change", "forbid"));
    assert_eq!(s.assignments.len(), 2);
    assert!(s.has_role_for_user("u1", "1"));
    assert!(!s.has_role_for_user("u1", "2"));
    assert!(s.has_role_for_user("u2", "2"));
}

#[test]
fn catalog_contents() {
    let c = catalog();
    assert_eq!(c.len(), 3);
    assert_eq!(c[0].object, "instance");
    assert_eq!(c[0].action, "manage");
    assert_eq!(c[1].object, "user");
    assert_eq!(c[1].action, "manage");
    assert_eq!(c[2].object, "change");
    assert_eq!(c[2].action, "forbid");
    assert!(catalog_contains("instance", "manage"));
    assert!(!catalog_contains("instance", "delete"));
    let p = catalog_lookup("change_forbid").unwrap();
    assert_eq!(p.object, "change");
    assert_eq!(p.action, "forbid");
    assert!(catalog_lookup("job_delete").is_none());
    assert!(catalog_lookup("").is_none());
}

#[test]
fn error_messages() {
    assert_eq!(CoreError::InvalidPermissionKey.message(), "invalid permission key");
    assert_eq!(CoreError::DecodingError.message(), "ciphertext is not valid hex");
    assert_eq!(CoreError::AuthenticationFailure.message(), "ciphertext failed authentication");
    assert_eq!(CoreError::EncryptionFailure.message(), "encryption failed");
    assert_eq!(CoreError::StoreIOError.message(), "policy store unreachable");
}
