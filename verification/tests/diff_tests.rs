use opid_fix::diff::{compute_renames, ContractDocument, Operation, PathOperation};

fn op(path: &str, verb: &str, tags: &[&str], id: Option<&str>, over: Option<&str>) -> PathOperation {
    PathOperation {
        path: path.to_string(),
        verb: verb.to_string(),
        operation: Operation {
            tags: tags.iter().map(|t| t.to_string()).collect(),
            operation_id: id.map(|s| s.to_string()),
            operation_id_override: over.map(|s| s.to_string()),
        },
    }
}

fn doc(ops: Vec<PathOperation>) -> ContractDocument {
    ContractDocument { operations: ops }
}

#[test]
fn diff_reports_one_rename() {
    let before = doc(vec![op("/api/groups", "get", &["Groups"], Some("oldName"), None)]);
    let after = doc(vec![op("/api/groups", "get", &["Groups"], Some("newName"), None)]);
    let report = compute_renames(&before, &after);
    assert_eq!(report.entries.len(), 1);
    assert_eq!(report.entries[0].tag, "Groups");
    assert_eq!(report.entries[0].operation_id_before, "oldName");
    assert_eq!(report.entries[0].operation_id_after, "newName");
}

#[test]
fn diff_identical_documents_yield_nothing() {
    let before = doc(vec![op("/api/groups", "get", &["Groups"], Some("oldName"), None)]);
    let after = doc(vec![op("/api/groups", "get", &["Groups"], Some("oldName"), None)]);
    let report = compute_renames(&before, &after);
    assert_eq!(report.entries.len(), 0);
}

#[test]
fn diff_ignores_added_operations() {
    let before = doc(vec![]);
    let after = doc(vec![op("/api/groups", "get", &["Groups"], Some("newName"), None)]);
    let report = compute_renames(&before, &after);
    assert_eq!(report.entries.len(), 0);
}

#[test]
fn diff_ignores_untagged_operations() {
    let before = doc(vec![op("/api/groups", "get", &[], Some("oldName"), None)]);
    let after = doc(vec![op("/api/groups", "get", &[], Some("newName"), None)]);
    let report = compute_renames(&before, &after);
    assert_eq!(report.entries.len(), 0);
}

#[test]
fn diff_uses_override_identifier() {
    let before = doc(vec![op("/api/groups", "get", &["Groups"], Some("x"), Some("oldName"))]);
    let after = doc(vec![op("/api/groups", "get", &["Groups"], Some("x"), Some("newName"))]);
    let report = compute_renames(&before, &after);
    assert_eq!(report.entries.len(), 1);
    assert_eq!(report.entries[0].operation_id_before, "oldName");
    assert_eq!(report.entries[0].operation_id_after, "newName");
}

#[test]
fn diff_carries_before_tag() {
    let before = doc(vec![op("/api/groups", "get", &["Old Tag"], Some("a"), None)]);
    let after = doc(vec![op("/api/groups", "get", &["New Tag"], Some("b"), None)]);
    let report = compute_renames(&before, &after);
    assert_eq!(report.entries.len(), 1);
    assert_eq!(report.entries[0].tag, "Old Tag");
}

#[test]
fn diff_skips_operation_without_any_identifier() {
    let before = doc(vec![op("/api/groups", "get", &["Groups"], None, None)]);
    let after = doc(vec![op("/api/groups", "get", &["Groups"], Some("newName"), None)]);
    let report = compute_renames(&before, &after);
    assert_eq!(report.entries.len(), 0);
}

#[test]
fn diff_override_alone_supplies_identifier() {
    let before = doc(vec![op("/api/groups", "get", &["Groups"], None, Some("oldName"))]);
    let after = doc(vec![op("/api/groups", "get", &["Groups"], None, Some("newName"))]);
    let report = compute_renames(&before, &after);
    assert_eq!(report.entries.len(), 1);
    assert_eq!(report.entries[0].operation_id_before, "oldName");
    assert_eq!(report.entries[0].operation_id_after, "newName");
}

#[test]
fn diff_entries_come_sorted() {
    let before = doc(vec![
        op("/b", "get", &["Zeta"], Some("one"), None),
        op("/a", "get", &["Alpha"], Some("two"), None),
        op("/c", "get", &["Alpha"], Some("three"), None),
    ]);
    let after = doc(vec![
        op("/b", "get", &["Zeta"], Some("oneNew"), None),
        op("/a", "get", &["Alpha"], Some("twoNew"), None),
        op("/c", "get", &["Alpha"], Some("aaaNew"), None),
    ]);
    let report = compute_renames(&before, &after);
    assert_eq!(report.entries.len(), 3);
    assert_eq!(report.entries[0].tag, "Alpha");
    assert_eq!(report.entries[0].operation_id_after, "aaaNew");
    assert_eq!(report.entries[1].tag, "Alpha");
    assert_eq!(report.entries[1].operation_id_after, "twoNew");
    assert_eq!(report.entries[2].tag, "Zeta");
    assert_eq!(report.entries[2].operation_id_after, "oneNew");
}

#[test]
fn diff_last_operation_wins_for_duplicate_key() {
    let before = doc(vec![
        op("/a", "get", &["Groups"], Some("first"), None),
        op("/a", "get", &["Groups"], Some("second"), None),
    ]);
    let after = doc(vec![op("/a", "get", &["Groups"], Some("changed"), None)]);
    let report = compute_renames(&before, &after);
    assert_eq!(report.entries.len(), 1);
    assert_eq!(report.entries[0].operation_id_before, "second");
}
