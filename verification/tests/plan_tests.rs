use opid_fix::lookup::build_lookup;
use opid_fix::models::{OperationIdDiff, OperationIdDiffEntry};
use opid_fix::plan::fix_method_calls;
use opid_fix::query::MethodCallMatch;

fn groups_lookup() -> opid_fix::lookup::RenameLookup {
    let report = OperationIdDiff {
        entries: vec![OperationIdDiffEntry {
            tag: "Groups".to_string(),
            operation_id_before: "oldName".to_string(),
            operation_id_after: "newName".to_string(),
        }],
    };
    build_lookup(&report)
}

fn call(qualifier: &str, method: &str, start: usize, end: usize) -> MethodCallMatch {
    MethodCallMatch {
        receiver: "s".to_string(),
        receiver_field: "clientv2".to_string(),
        qualifier: qualifier.to_string(),
        method: method.to_string(),
        method_start: start,
        method_end: end,
    }
}

#[test]
fn planner_rewrites_suffixed_call_without_suffix() {
    let lookup = groups_lookup();
    // "OldNameWithParams" spans bytes [20, 37); the edit must cover exactly
    // "OldName", leaving the suffix outside the replaced range.
    let matches = vec![call("GroupsApi", "OldNameWithParams", 20, 37)];
    let (edits, skipped) = fix_method_calls(&matches, &lookup);
    assert_eq!(skipped.len(), 0);
    assert_eq!(edits.len(), 1);
    assert_eq!(edits[0].start, 20);
    assert_eq!(edits[0].end, 27);
    assert_eq!(edits[0].replacement, b"NewName".to_vec());
}

#[test]
fn planner_rewrites_plain_call() {
    let lookup = groups_lookup();
    let matches = vec![call("GroupsApi", "OldName", 20, 27)];
    let (edits, skipped) = fix_method_calls(&matches, &lookup);
    assert_eq!(skipped.len(), 0);
    assert_eq!(edits.len(), 1);
    assert_eq!(edits[0].start, 20);
    assert_eq!(edits[0].end, 27);
    assert_eq!(edits[0].replacement, b"NewName".to_vec());
}

#[test]
fn planner_skips_other_owner_with_diagnostic() {
    let lookup = groups_lookup();
    let matches = vec![call("UsersApi", "OldNameWithParams", 20, 37)];
    let (edits, skipped) = fix_method_calls(&matches, &lookup);
    assert_eq!(edits.len(), 0);
    assert_eq!(skipped.len(), 1);
    assert_eq!(skipped[0].operation_id, "OldName");
    assert_eq!(skipped[0].qualifier, "UsersApi");
    assert_eq!(skipped[0].expected, "GroupsApi");
}

#[test]
fn planner_ignores_unknown_method() {
    let lookup = groups_lookup();
    let matches = vec![call("GroupsApi", "SomethingElseWithParams", 20, 43)];
    let (edits, skipped) = fix_method_calls(&matches, &lookup);
    assert_eq!(edits.len(), 0);
    assert_eq!(skipped.len(), 0);
}

#[test]
fn planner_ignores_other_receiver() {
    let lookup = groups_lookup();
    let mut m = call("GroupsApi", "OldNameWithParams", 20, 37);
    m.receiver = "x".to_string();
    let (edits, skipped) = fix_method_calls(&vec![m], &lookup);
    assert_eq!(edits.len(), 0);
    assert_eq!(skipped.len(), 0);
}
