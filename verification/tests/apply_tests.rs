use opid_fix::apply::{apply_edits, sort_edits_desc};
use opid_fix::plan::Edit;

fn edit(start: usize, end: usize, replacement: &[u8]) -> Edit {
    Edit { start, end, replacement: replacement.to_vec() }
}

/// Independent reference: build the result by copying untouched spans and
/// substituting replacements, walking the edits in ascending start order.
fn reference_rewrite(content: &[u8], edits_asc: &[(usize, usize, &[u8])]) -> Vec<u8> {
    let mut out = Vec::new();
    let mut from = 0;
    for &(start, end, repl) in edits_asc {
        out.extend_from_slice(&content[from..start]);
        out.extend_from_slice(repl);
        from = end;
    }
    out.extend_from_slice(&content[from..]);
    out
}

#[test]
fn apply_two_disjoint_edits_matches_reference() {
    let content = b"hello world".to_vec();
    // Descending start order: the "world" edit first, then the "hello" edit.
    let edits = vec![edit(6, 11, b"EARTH"), edit(0, 5, b"HI")];
    let result = apply_edits(&content, &edits);
    let expected = reference_rewrite(&content, &[(0, 5, b"HI"), (6, 11, b"EARTH")]);
    assert_eq!(result, expected);
    assert_eq!(result, b"HI EARTH".to_vec());
}

#[test]
fn apply_after_sorting_any_input_order() {
    let content = b"aaa bbb ccc".to_vec();
    // Handed over in ascending order; sorting puts them into safe
    // descending order before application.
    let edits = vec![edit(0, 3, b"X"), edit(8, 11, b"YY"), edit(4, 7, b"Z")];
    let sorted = sort_edits_desc(edits);
    assert!(sorted[0].start >= sorted[1].start && sorted[1].start >= sorted[2].start);
    let result = apply_edits(&content, &sorted);
    assert_eq!(result, b"X Z YY".to_vec());
}

#[test]
fn apply_growing_and_shrinking_replacements() {
    let content = b"0123456789".to_vec();
    let edits = vec![edit(7, 9, b""), edit(2, 3, b"abc")];
    let result = apply_edits(&content, &edits);
    let expected = reference_rewrite(&content, &[(2, 3, b"abc"), (7, 9, b"")]);
    assert_eq!(result, expected);
    assert_eq!(result, b"01abc34569".to_vec());
}

#[test]
fn apply_no_edits_returns_content() {
    let content = b"untouched".to_vec();
    let result = apply_edits(&content, &Vec::new());
    assert_eq!(result, content);
}
