use opid_fix::fix_naming;

#[test]
fn normalize_words_with_boundaries() {
    assert_eq!(fix_naming("foo bar-baz.qux"), "FooBarBazQux");
}

#[test]
fn normalize_empty_string() {
    assert_eq!(fix_naming(""), "");
}

#[test]
fn normalize_idempotent_on_normalized_input() {
    let once = fix_naming("foo bar-baz.qux");
    assert_eq!(fix_naming(&once), once);
}

#[test]
fn normalize_keeps_inner_case() {
    assert_eq!(fix_naming("getHTTP response"), "GetHTTPResponse");
}

#[test]
fn normalize_only_boundaries() {
    assert_eq!(fix_naming(" .-"), "");
}

#[test]
fn normalize_single_word() {
    assert_eq!(fix_naming("cluster"), "Cluster");
}

#[test]
fn normalize_trailing_boundary() {
    assert_eq!(fix_naming("foo-"), "Foo");
}

#[test]
fn normalize_consecutive_boundaries() {
    assert_eq!(fix_naming("foo--bar"), "FooBar");
}
