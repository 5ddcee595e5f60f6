use opid_fix::diff::{compute_renames, ContractDocument, Operation, PathOperation};
use opid_fix::fix::fix_file_content;
use opid_fix::lookup::build_lookup;
use opid_fix::plan::get_go_sdk_import_name;
use opid_fix::query::query_imports;

const SDK_PATH: &str = "go.mongodb.org/atlas-sdk/v20250312001/admin";

fn one_rename_lookup() -> opid_fix::lookup::RenameLookup {
    let before = ContractDocument {
        operations: vec![PathOperation {
            path: "/api/groups".to_string(),
            verb: "get".to_string(),
            operation: Operation {
                tags: vec!["Groups".to_string()],
                operation_id: Some("oldName".to_string()),
                operation_id_override: None,
            },
        }],
    };
    let after = ContractDocument {
        operations: vec![PathOperation {
            path: "/api/groups".to_string(),
            verb: "get".to_string(),
            operation: Operation {
                tags: vec!["Groups".to_string()],
                operation_id: Some("newName".to_string()),
                operation_id_override: None,
            },
        }],
    };
    let report = compute_renames(&before, &after);
    assert_eq!(report.entries.len(), 1);
    build_lookup(&report)
}

fn sample_source() -> String {
    let mut s = String::new();
    s.push_str("package store\n\n");
    s.push_str("import (\n");
    s.push_str("\tadmin \"go.mongodb.org/atlas-sdk/v20250312001/admin\"\n");
    s.push_str(")\n\n");
    s.push_str("// OldName appears in this comment and must stay.\n");
    s.push_str("func (s *Store) run() {\n");
    s.push_str("\tvar OldNameExtra int\n");
    s.push_str("\t_ = OldNameExtra\n");
    s.push_str("\t_ = s.clientv2.GroupsApi.OldNameWithParams(&admin.OldNameApiParams{})\n");
    s.push_str("\t_ = s.clientv2.UsersApi.OldNameWithParams(nil)\n");
    s.push_str("\ttxt := \"s.clientv2.GroupsApi.OldNameWithParams\"\n");
    s.push_str("\t_ = txt\n");
    s.push_str("}\n");
    s
}

#[test]
fn end_to_end_rewrites_both_patterns_only() {
    let lookup = one_rename_lookup();
    let content = sample_source().into_bytes();
    let (out, skipped) = fix_file_content(&content, &lookup, SDK_PATH);
    let expected = sample_source()
        .replace(
            "s.clientv2.GroupsApi.OldNameWithParams(",
            "s.clientv2.GroupsApi.NewNameWithParams(",
        )
        .replace("admin.OldNameApiParams{", "admin.NewNameApiParams{");
    assert_eq!(String::from_utf8(out).unwrap(), expected);
    // The call under another owner is skipped with a diagnostic naming the
    // expected owner.
    assert_eq!(skipped.len(), 1);
    assert_eq!(skipped[0].operation_id, "OldName");
    assert_eq!(skipped[0].qualifier, "UsersApi");
    assert_eq!(skipped[0].expected, "GroupsApi");
}

#[test]
fn end_to_end_without_sdk_import_leaves_types() {
    let lookup = one_rename_lookup();
    let src = "package store\n\nfunc (s *Store) run() {\n\t_ = s.clientv2.GroupsApi.OldNameWithParams(&admin.OldNameApiParams{})\n}\n";
    let content = src.as_bytes().to_vec();
    let (out, _skipped) = fix_file_content(&content, &lookup, SDK_PATH);
    let expected = src.replace(
        "s.clientv2.GroupsApi.OldNameWithParams(",
        "s.clientv2.GroupsApi.NewNameWithParams(",
    );
    assert_eq!(String::from_utf8(out).unwrap(), expected);
}

#[test]
fn end_to_end_other_alias_scopes_types() {
    let lookup = one_rename_lookup();
    let mut s = String::new();
    s.push_str("package store\n\n");
    s.push_str("import (\n");
    s.push_str("\tsdk2 \"go.mongodb.org/atlas-sdk/v20250312001/admin\"\n");
    s.push_str(")\n\n");
    s.push_str("func f() {\n");
    s.push_str("\t_ = sdk2.OldNameApiParams{}\n");
    s.push_str("\t_ = admin.OldNameApiParams{}\n");
    s.push_str("}\n");
    let content = s.clone().into_bytes();
    let (out, _skipped) = fix_file_content(&content, &lookup, SDK_PATH);
    let expected = s.replace("sdk2.OldNameApiParams{", "sdk2.NewNameApiParams{");
    assert_eq!(String::from_utf8(out).unwrap(), expected);
}

#[test]
fn import_alias_defaults_to_admin() {
    let mut s = String::new();
    s.push_str("package store\n\n");
    s.push_str("import (\n");
    s.push_str("\t\"go.mongodb.org/atlas-sdk/v20250312001/admin\"\n");
    s.push_str(")\n");
    let content = s.into_bytes();
    let imports = query_imports(&content);
    let name = get_go_sdk_import_name(&imports, SDK_PATH);
    assert_eq!(name, Some("admin".to_string()));
}

#[test]
fn import_alias_reads_declared_name() {
    let mut s = String::new();
    s.push_str("package store\n\n");
    s.push_str("import (\n");
    s.push_str("\tmySdk \"go.mongodb.org/atlas-sdk/v20250312001/admin\"\n");
    s.push_str("\tother \"example.com/other\"\n");
    s.push_str(")\n");
    let content = s.into_bytes();
    let imports = query_imports(&content);
    let name = get_go_sdk_import_name(&imports, SDK_PATH);
    assert_eq!(name, Some("mySdk".to_string()));
}

#[test]
fn import_absent_resolves_to_none() {
    let s = "package store\n\nimport (\n\tother \"example.com/other\"\n)\n".to_string();
    let content = s.into_bytes();
    let imports = query_imports(&content);
    let name = get_go_sdk_import_name(&imports, SDK_PATH);
    assert_eq!(name, None);
}
