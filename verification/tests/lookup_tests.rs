use opid_fix::lookup::build_lookup;
use opid_fix::models::{OperationIdDiff, OperationIdDiffEntry};

fn entry(tag: &str, before: &str, after: &str) -> OperationIdDiffEntry {
    OperationIdDiffEntry {
        tag: tag.to_string(),
        operation_id_before: before.to_string(),
        operation_id_after: after.to_string(),
    }
}

#[test]
fn lookup_normalizes_key_tag_and_replacement() {
    let report = OperationIdDiff {
        entries: vec![entry("user groups", "old name", "new-name")],
    };
    let lookup = build_lookup(&report);
    let rule = lookup.get_rule("OldName").expect("key should resolve");
    assert_eq!(rule.0, "UserGroupsApi");
    assert_eq!(rule.1, "NewName");
}

#[test]
fn lookup_misses_unknown_key() {
    let report = OperationIdDiff {
        entries: vec![entry("Groups", "oldName", "newName")],
    };
    let lookup = build_lookup(&report);
    assert!(lookup.get_rule("SomethingElse").is_none());
}

#[test]
fn lookup_last_write_wins_first_order() {
    let report = OperationIdDiff {
        entries: vec![
            entry("Groups", "oldName", "groupsNew"),
            entry("Users", "oldName", "usersNew"),
        ],
    };
    let lookup = build_lookup(&report);
    let rule = lookup.get_rule("OldName").expect("key should resolve");
    assert_eq!(rule.0, "UsersApi");
    assert_eq!(rule.1, "UsersNew");
}

#[test]
fn lookup_last_write_wins_second_order() {
    let report = OperationIdDiff {
        entries: vec![
            entry("Users", "oldName", "usersNew"),
            entry("Groups", "oldName", "groupsNew"),
        ],
    };
    let lookup = build_lookup(&report);
    let rule = lookup.get_rule("OldName").expect("key should resolve");
    assert_eq!(rule.0, "GroupsApi");
    assert_eq!(rule.1, "GroupsNew");
}
