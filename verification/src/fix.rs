//! Per-file rewrite: plan the edits of one file's bytes and apply them in
//! descending start order, yielding the rewritten bytes.

use vstd::prelude::*;
use crate::apply::{apply_desc, apply_edits, sort_desc, sort_edits_desc};
use crate::lookup::RenameLookup;
use crate::plan::{
    get_edits, skipped_method_calls, skipped_views, spec_file_edits, edit_views, SkippedCall,
};
use crate::query::{go_query_matches, method_calls_of, METHOD_CALL_QUERY};

verus! {

/// Rewrite one file's bytes: every planned edit (method-call identifiers
/// and parameter-type identifiers with a rename rule) is applied, highest
/// start offset first.  Returns the rewritten bytes together with a
/// diagnostic for every method call skipped because its qualifier names
/// another owner.
pub fn fix_file_content(content: &Vec<u8>, lookup: &RenameLookup, go_sdk_version: &str) -> (r: (
    Vec<u8>,
    Vec<SkippedCall>,
))
    ensures
        r.0@ == apply_desc(
            content@,
            sort_desc(spec_file_edits(content@, lookup.view_rules(), go_sdk_version@)),
            content@.len() as int,
        ),
        skipped_views(r.1@) == skipped_method_calls(
            method_calls_of(go_query_matches(content@, METHOD_CALL_QUERY@)),
            lookup.view_rules(),
        ),
{
    let (edits, skipped) = get_edits(content, lookup, go_sdk_version);
    proof {
        assert(edit_views(edits@) == spec_file_edits(
            content@,
            lookup.view_rules(),
            go_sdk_version@,
        ));
    }
    let sorted = sort_edits_desc(edits);
    let out = apply_edits(content, &sorted);
    (out, skipped)
}

} // verus!
