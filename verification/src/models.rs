//! The durable rename report: one entry per operation whose identifier
//! changed between two versions of a contract document.

use vstd::prelude::*;
use crate::text::seq_char_le;

verus! {

/// One detected rename: the operation's tag, its identifier in the earlier
/// document, and its identifier in the later one.
#[derive(Debug)]
pub struct OperationIdDiffEntry {
    pub tag: String,
    pub operation_id_before: String,
    pub operation_id_after: String,
}

/// Mathematical value of an [`OperationIdDiffEntry`].
pub struct EntryV {
    pub tag: Seq<char>,
    pub before: Seq<char>,
    pub after: Seq<char>,
}

impl View for OperationIdDiffEntry {
    type V = EntryV;

    open spec fn view(&self) -> EntryV {
        EntryV { tag: self.tag@, before: self.operation_id_before@, after: self.operation_id_after@ }
    }
}

/// Presentation order of report entries: by tag, then by after-identifier,
/// then by before-identifier, ascending.
pub open spec fn entry_le(a: EntryV, b: EntryV) -> bool {
    if a.tag != b.tag {
        seq_char_le(a.tag, b.tag)
    } else if a.after != b.after {
        seq_char_le(a.after, b.after)
    } else {
        seq_char_le(a.before, b.before)
    }
}

/// Exec comparison realizing [`entry_le`].
pub fn entry_le_exec(a: &OperationIdDiffEntry, b: &OperationIdDiffEntry) -> (r: bool)
    ensures
        r == entry_le(a@, b@),
{
    if !crate::text::str_eq(a.tag.as_str(), b.tag.as_str()) {
        crate::text::str_le(a.tag.as_str(), b.tag.as_str())
    } else if !crate::text::str_eq(a.operation_id_after.as_str(), b.operation_id_after.as_str()) {
        crate::text::str_le(a.operation_id_after.as_str(), b.operation_id_after.as_str())
    } else {
        crate::text::str_le(a.operation_id_before.as_str(), b.operation_id_before.as_str())
    }
}

/// The rename report: the collection of detected renames, held sorted by
/// [`entry_le`] for presentation.
#[derive(Debug)]
pub struct OperationIdDiff {
    pub entries: Vec<OperationIdDiffEntry>,
}

impl OperationIdDiff {
    /// The report's entries as mathematical values.
    pub open spec fn view_entries(&self) -> Seq<EntryV> {
        self.entries@.map_values(|e: OperationIdDiffEntry| e@)
    }
}

} // verus!
