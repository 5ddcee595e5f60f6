//! Diff engine: extracts the (path, verb) -> (tag, operation identifier)
//! records of two contract documents and reports every operation whose
//! identifier changed between the two.

use vstd::prelude::*;
use vstd::multiset::Multiset;
use vstd::pervasive::VecAdditionalExecFns;
use crate::models::{EntryV, OperationIdDiff, OperationIdDiffEntry, entry_le, entry_le_exec};

verus! {

/// One operation of a contract document, as read from the parsed document:
/// its grouping tags, its declared identifier, and the vendor-extension
/// override of that identifier, if any.
pub struct Operation {
    pub tags: Vec<String>,
    pub operation_id: Option<String>,
    pub operation_id_override: Option<String>,
}

/// One (path, verb) slot of a contract document together with its operation.
pub struct PathOperation {
    pub path: String,
    pub verb: String,
    pub operation: Operation,
}

/// A parsed contract document, flattened to its (path, verb, operation)
/// triples in document order.
pub struct ContractDocument {
    pub operations: Vec<PathOperation>,
}

/// The record the diff engine keeps per (path, verb): the operation's first
/// tag and its effective identifier.
pub struct OpRecord {
    pub path: String,
    pub verb: String,
    pub tag: String,
    pub operation_id: String,
}

/// Mathematical value of an [`OpRecord`].
pub struct RecordV {
    pub path: Seq<char>,
    pub verb: Seq<char>,
    pub tag: Seq<char>,
    pub id: Seq<char>,
}

impl View for OpRecord {
    type V = RecordV;

    open spec fn view(&self) -> RecordV {
        RecordV { path: self.path@, verb: self.verb@, tag: self.tag@, id: self.operation_id@ }
    }
}

/// The views of a record vector.
pub open spec fn rec_views(rs: Seq<OpRecord>) -> Seq<RecordV> {
    rs.map_values(|x: OpRecord| x@)
}

/// The views of an entry vector.
pub open spec fn entry_views(s: Seq<OperationIdDiffEntry>) -> Seq<EntryV> {
    s.map_values(|e: OperationIdDiffEntry| e@)
}

/// The record an operation contributes, if any.  The effective identifier
/// is the vendor-extension override when present, else the declared
/// identifier; an operation with neither, or without a tag, is excluded.
pub open spec fn record_of(op: PathOperation) -> Option<RecordV> {
    if op.operation.tags@.len() == 0 {
        Option::None
    } else {
        let id = match op.operation.operation_id_override {
            Option::Some(o) => Option::Some(o@),
            Option::None => match op.operation.operation_id {
                Option::Some(d) => Option::Some(d@),
                Option::None => Option::None,
            },
        };
        match id {
            Option::None => Option::None,
            Option::Some(id) => Option::Some(
                RecordV {
                    path: op.path@,
                    verb: op.verb@,
                    tag: op.operation.tags@[0]@,
                    id: id,
                },
            ),
        }
    }
}

/// Index of the first record with the given (path, verb) key, or -1.
pub open spec fn find_key(rs: Seq<RecordV>, path: Seq<char>, verb: Seq<char>) -> int
    decreases rs.len(),
{
    if rs.len() == 0 {
        -1
    } else if rs[0].path == path && rs[0].verb == verb {
        0
    } else {
        let r = find_key(rs.drop_first(), path, verb);
        if r < 0 {
            -1
        } else {
            r + 1
        }
    }
}

pub proof fn lemma_find_key(rs: Seq<RecordV>, path: Seq<char>, verb: Seq<char>)
    ensures
        ({
            let i = find_key(rs, path, verb);
            &&& i < 0 ==> forall|j: int|
                0 <= j < rs.len() ==> !((#[trigger] rs[j]).path == path && rs[j].verb == verb)
            &&& i >= 0 ==> {
                &&& i < rs.len()
                &&& rs[i].path == path
                &&& rs[i].verb == verb
                &&& forall|j: int|
                    0 <= j < i ==> !((#[trigger] rs[j]).path == path && rs[j].verb == verb)
            }
        }),
    decreases rs.len(),
{
    if rs.len() == 0 {
    } else if rs[0].path == path && rs[0].verb == verb {
    } else {
        lemma_find_key(rs.drop_first(), path, verb);
        assert(forall|j: int| 1 <= j < rs.len() ==> #[trigger] rs[j] == rs.drop_first()[j - 1]);
    }
}

/// The key -> record table of a document: every operation in document order,
/// a later operation with the same (path, verb) key replacing the earlier.
pub open spec fn op_records(ops: Seq<PathOperation>) -> Seq<RecordV>
    decreases ops.len(),
{
    if ops.len() == 0 {
        Seq::<RecordV>::empty()
    } else {
        let prev = op_records(ops.drop_last());
        match record_of(ops.last()) {
            Option::None => prev,
            Option::Some(r) => {
                let i = find_key(prev, r.path, r.verb);
                if i < 0 {
                    prev.push(r)
                } else {
                    prev.update(i, r)
                }
            },
        }
    }
}

/// Exec search for the first record with the given key; returns its index.
fn find_record(rs: &Vec<OpRecord>, path: &str, verb: &str) -> (r: Option<usize>)
    ensures
        ({
            let i = find_key(rec_views(rs@), path@, verb@);
            match r {
                Option::Some(k) => i == k && k < rs@.len(),
                Option::None => i < 0,
            }
        }),
{
    proof {
        lemma_find_key(rec_views(rs@), path@, verb@);
    }
    let mut j: usize = 0;
    while j < rs.len()
        invariant
            j <= rs@.len(),
            forall|k: int|
                0 <= k < j ==> !((#[trigger] rs@[k])@.path == path@ && rs@[k]@.verb == verb@),
            ({
                let i = find_key(rec_views(rs@), path@, verb@);
                &&& i < 0 ==> forall|k: int|
                    0 <= k < rs@.len() ==> !((#[trigger] rec_views(rs@)[k]).path == path@
                        && rec_views(rs@)[k].verb == verb@)
                &&& i >= 0 ==> {
                    &&& i < rs@.len()
                    &&& rec_views(rs@)[i].path == path@
                    &&& rec_views(rs@)[i].verb == verb@
                    &&& forall|k: int|
                        0 <= k < i ==> !((#[trigger] rec_views(rs@)[k]).path == path@
                            && rec_views(rs@)[k].verb == verb@)
                }
            }),
        decreases rs@.len() - j,
    {
        if crate::text::str_eq(rs[j].path.as_str(), path) && crate::text::str_eq(
            rs[j].verb.as_str(),
            verb,
        ) {
            proof {
                assert(rec_views(rs@)[j as int] == rs@[j as int]@);
            }
            return Some(j);
        }
        proof {
            assert(rec_views(rs@)[j as int] == rs@[j as int]@);
        }
        j = j + 1;
    }
    None
}

/// Build the key -> record table of a document.  The effective identifier
/// is the vendor-extension override when present, else the declared one;
/// operations with neither, or without a tag, are skipped; for duplicate
/// (path, verb) keys the later operation wins.
pub fn operation_ids(doc: &ContractDocument) -> (r: Vec<OpRecord>)
    ensures
        rec_views(r@) == op_records(doc.operations@),
{
    let mut recs: Vec<OpRecord> = Vec::new();
    let mut i: usize = 0;
    proof {
        assert(doc.operations@.take(0) =~= Seq::<PathOperation>::empty());
        assert(rec_views(recs@) =~= Seq::<RecordV>::empty());
    }
    while i < doc.operations.len()
        invariant
            i <= doc.operations@.len(),
            rec_views(recs@) == op_records(doc.operations@.take(i as int)),
        decreases doc.operations@.len() - i,
    {
        let op = &doc.operations[i];
        proof {
            assert(doc.operations@.take(i as int + 1).drop_last() =~= doc.operations@.take(
                i as int,
            ));
            assert(doc.operations@.take(i as int + 1).last() == doc.operations@[i as int]);
        }
        let has_record = (op.operation.operation_id_override.is_some()
            || op.operation.operation_id.is_some()) && op.operation.tags.len() > 0;
        if has_record {
            let effective_id: String = match &op.operation.operation_id_override {
                Some(o) => o.clone(),
                None => op.operation.operation_id.as_ref().unwrap().clone(),
            };
            let rec = OpRecord {
                path: op.path.clone(),
                verb: op.verb.clone(),
                tag: op.operation.tags[0].clone(),
                operation_id: effective_id,
            };
            proof {
                assert(record_of(doc.operations@[i as int]) == Option::Some(rec@));
            }
            let found = find_record(&recs, op.path.as_str(), op.verb.as_str());
            match found {
                Some(k) => {
                    let ghost prev = rec_views(recs@);
                    recs.set(k, rec);
                    proof {
                        assert(rec_views(recs@) =~= prev.update(k as int, rec@));
                    }
                },
                None => {
                    let ghost prev = rec_views(recs@);
                    recs.push(rec);
                    proof {
                        assert(rec_views(recs@) =~= prev.push(rec@));
                    }
                },
            }
        }
        i = i + 1;
    }
    proof {
        assert(doc.operations@.take(doc.operations@.len() as int) =~= doc.operations@);
    }
    recs
}

/// The rename entries detected between a before- and an after-table: for
/// every after-record whose key also stands in the before-table with a
/// different identifier, one entry carrying the before-record's tag.
pub open spec fn diff_records_spec(before: Seq<RecordV>, after: Seq<RecordV>) -> Seq<EntryV>
    decreases after.len(),
{
    if after.len() == 0 {
        Seq::<EntryV>::empty()
    } else {
        let head = diff_records_spec(before, after.drop_last());
        let a = after.last();
        let i = find_key(before, a.path, a.verb);
        if i >= 0 && before[i].id != a.id {
            head.push(EntryV { tag: before[i].tag, before: before[i].id, after: a.id })
        } else {
            head
        }
    }
}

/// Exec diff of two record tables.
pub fn diff_records(before: &Vec<OpRecord>, after: &Vec<OpRecord>) -> (r: Vec<
    OperationIdDiffEntry,
>)
    ensures
        entry_views(r@) == diff_records_spec(rec_views(before@), rec_views(after@)),
{
    let mut out: Vec<OperationIdDiffEntry> = Vec::new();
    let mut i: usize = 0;
    proof {
        assert(rec_views(after@).take(0) =~= Seq::<RecordV>::empty());
        assert(entry_views(out@) =~= Seq::<EntryV>::empty());
    }
    while i < after.len()
        invariant
            i <= after@.len(),
            entry_views(out@) == diff_records_spec(
                rec_views(before@),
                rec_views(after@).take(i as int),
            ),
        decreases after@.len() - i,
    {
        let a = &after[i];
        proof {
            assert(rec_views(after@).take(i as int + 1).drop_last() =~= rec_views(after@).take(
                i as int,
            ));
            assert(rec_views(after@).take(i as int + 1).last() == after@[i as int]@);
        }
        let found = find_record(before, a.path.as_str(), a.verb.as_str());
        if let Some(k) = found {
            let b = &before[k];
            proof {
                assert(rec_views(before@)[k as int] == before@[k as int]@);
            }
            if !crate::text::str_eq(b.operation_id.as_str(), a.operation_id.as_str()) {
                let entry = OperationIdDiffEntry {
                    tag: b.tag.clone(),
                    operation_id_before: b.operation_id.clone(),
                    operation_id_after: a.operation_id.clone(),
                };
                let ghost prev = entry_views(out@);
                out.push(entry);
                proof {
                    assert(entry_views(out@) =~= prev.push(entry@));
                }
            }
        }
        i = i + 1;
    }
    proof {
        assert(rec_views(after@).take(after@.len() as int) =~= rec_views(after@));
    }
    out
}

/// Stable insertion of an entry into a sorted entry sequence.
pub open spec fn insert_sorted(s: Seq<EntryV>, e: EntryV) -> Seq<EntryV>
    decreases s.len(),
{
    if s.len() == 0 {
        seq![e]
    } else if entry_le(s[0], e) {
        seq![s[0]] + insert_sorted(s.drop_first(), e)
    } else {
        seq![e] + s
    }
}

/// Stable insertion sort of report entries by [`entry_le`].
pub open spec fn sort_entries_spec(s: Seq<EntryV>) -> Seq<EntryV>
    decreases s.len(),
{
    if s.len() == 0 {
        Seq::<EntryV>::empty()
    } else {
        insert_sorted(sort_entries_spec(s.drop_last()), s.last())
    }
}

/// Adjacent-pairs sortedness of an entry sequence under [`entry_le`].
pub open spec fn entries_sorted(s: Seq<EntryV>) -> bool {
    forall|i: int| 0 <= i && i + 1 < s.len() ==> entry_le(#[trigger] s[i], s[i + 1])
}

proof fn lemma_insert_sorted_at(s: Seq<EntryV>, e: EntryV, k: int)
    requires
        0 <= k <= s.len(),
        forall|j: int| 0 <= j < k ==> entry_le(#[trigger] s[j], e),
        k < s.len() ==> !entry_le(s[k], e),
    ensures
        insert_sorted(s, e) == s.insert(k, e),
    decreases s.len(),
{
    if s.len() == 0 {
        assert(insert_sorted(s, e) =~= s.insert(0, e));
    } else if k == 0 {
        assert(insert_sorted(s, e) =~= s.insert(0, e));
    } else {
        lemma_insert_sorted_at(s.drop_first(), e, k - 1);
        assert(seq![s[0]] + s.drop_first().insert(k - 1, e) =~= s.insert(k, e));
    }
}

proof fn lemma_insert_sorted_keeps_sorted(s: Seq<EntryV>, e: EntryV, k: int)
    requires
        entries_sorted(s),
        0 <= k <= s.len(),
        forall|j: int| 0 <= j < k ==> entry_le(#[trigger] s[j], e),
        k < s.len() ==> !entry_le(s[k], e),
    ensures
        entries_sorted(s.insert(k, e)),
{
    let t = s.insert(k, e);
    assert forall|i: int| 0 <= i && i + 1 < t.len() implies entry_le(#[trigger] t[i], t[i + 1]) by {
        if i + 1 < k {
            assert(t[i] == s[i] && t[i + 1] == s[i + 1]);
        } else if i + 1 == k {
            assert(t[i] == s[i] && t[i + 1] == e);
        } else if i == k {
            assert(t[i] == e && t[i + 1] == s[k]);
            crate::text::lemma_seq_char_le_total(s[k].tag, e.tag);
            crate::text::lemma_seq_char_le_total(s[k].after, e.after);
            crate::text::lemma_seq_char_le_total(s[k].before, e.before);
        } else {
            assert(t[i] == s[i - 1] && t[i + 1] == s[i]);
        }
    }
}

proof fn lemma_insert_sorted_multiset(s: Seq<EntryV>, e: EntryV)
    ensures
        insert_sorted(s, e).to_multiset() == s.to_multiset().insert(e),
    decreases s.len(),
{
    broadcast use vstd::seq_lib::group_to_multiset_ensures;

    if s.len() == 0 {
        assert(insert_sorted(s, e) =~= Seq::<EntryV>::empty().push(e));
        assert(forall|a: EntryV| !s.contains(a));
        assert(s.to_multiset() =~= Multiset::<EntryV>::empty());
        assert(insert_sorted(s, e).to_multiset() =~= s.to_multiset().insert(e));
    } else if entry_le(s[0], e) {
        lemma_insert_sorted_multiset(s.drop_first(), e);
        vstd::seq_lib::lemma_multiset_commutative(seq![s[0]], insert_sorted(s.drop_first(), e));
        vstd::seq_lib::lemma_multiset_commutative(seq![s[0]], s.drop_first());
        assert(s =~= seq![s[0]] + s.drop_first());
        assert(insert_sorted(s, e).to_multiset() =~= s.to_multiset().insert(e));
    } else {
        vstd::seq_lib::lemma_multiset_commutative(seq![e], s);
        assert(seq![e] =~= Seq::<EntryV>::empty().push(e));
        assert(forall|a: EntryV| !Seq::<EntryV>::empty().contains(a));
        assert(Seq::<EntryV>::empty().to_multiset() =~= Multiset::<EntryV>::empty());
        assert(insert_sorted(s, e).to_multiset() =~= s.to_multiset().insert(e));
    }
}

/// Sorting the report entries only reorders them: the sorted sequence
/// holds exactly the entries of the unsorted one, with their multiplicity.
pub proof fn lemma_sort_entries_multiset(s: Seq<EntryV>)
    ensures
        sort_entries_spec(s).to_multiset() == s.to_multiset(),
    decreases s.len(),
{
    broadcast use vstd::seq_lib::group_to_multiset_ensures;

    if s.len() == 0 {
    } else {
        lemma_sort_entries_multiset(s.drop_last());
        lemma_insert_sorted_multiset(sort_entries_spec(s.drop_last()), s.last());
        assert(s =~= s.drop_last().push(s.last()));
        assert(sort_entries_spec(s).to_multiset() =~= s.to_multiset());
    }
}

/// Sort report entries into their presentation order.
pub fn sort_entries(v: Vec<OperationIdDiffEntry>) -> (r: Vec<OperationIdDiffEntry>)
    ensures
        entry_views(r@) == sort_entries_spec(entry_views(v@)),
        entries_sorted(entry_views(r@)),
{
    let mut out: Vec<OperationIdDiffEntry> = Vec::new();
    let mut i: usize = 0;
    proof {
        assert(entry_views(v@).take(0) =~= Seq::<EntryV>::empty());
        assert(entry_views(out@) =~= Seq::<EntryV>::empty());
    }
    while i < v.len()
        invariant
            i <= v@.len(),
            entry_views(out@) == sort_entries_spec(entry_views(v@).take(i as int)),
            entries_sorted(entry_views(out@)),
        decreases v@.len() - i,
    {
        let e = OperationIdDiffEntry {
            tag: v[i].tag.clone(),
            operation_id_before: v[i].operation_id_before.clone(),
            operation_id_after: v[i].operation_id_after.clone(),
        };
        proof {
            assert(e@ == entry_views(v@)[i as int]);
            assert(entry_views(v@).take(i as int + 1).drop_last() =~= entry_views(v@).take(
                i as int,
            ));
            assert(entry_views(v@).take(i as int + 1).last() == e@);
        }
        let mut k: usize = 0;
        while k < out.len() && entry_le_exec(&out[k], &e)
            invariant
                k <= out@.len(),
                forall|j: int| 0 <= j < k ==> entry_le(#[trigger] entry_views(out@)[j], e@),
            decreases out@.len() - k,
        {
            proof {
                assert(entry_views(out@)[k as int] == out@[k as int]@);
            }
            k = k + 1;
        }
        proof {
            assert(k < out@.len() ==> entry_views(out@)[k as int] == out@[k as int]@);
            lemma_insert_sorted_at(entry_views(out@), e@, k as int);
            lemma_insert_sorted_keeps_sorted(entry_views(out@), e@, k as int);
        }
        let ghost prev = entry_views(out@);
        out.insert(k, e);
        proof {
            assert(entry_views(out@) =~= prev.insert(k as int, entry_views(v@)[i as int]));
        }
        i = i + 1;
    }
    proof {
        assert(entry_views(v@).take(v@.len() as int) =~= entry_views(v@));
    }
    out
}

/// An operation without a tag is never reported: it contributes nothing to
/// a document's record table, whatever its identifiers.
pub proof fn lemma_untagged_operation_excluded(ops: Seq<PathOperation>, op: PathOperation)
    requires
        op.operation.tags@.len() == 0,
    ensures
        op_records(ops.push(op)) == op_records(ops),
{
    assert(ops.push(op).drop_last() =~= ops);
    assert(ops.push(op).last() == op);
    assert(record_of(op) is None);
}

/// An operation present only in the after-document is ignored: an
/// after-record whose key is absent from the before-table contributes no
/// entry (rename detection only, not addition detection).
pub proof fn lemma_absent_key_adds_nothing(before: Seq<RecordV>, after: Seq<RecordV>, a: RecordV)
    requires
        find_key(before, a.path, a.verb) < 0,
    ensures
        diff_records_spec(before, after.push(a)) == diff_records_spec(before, after),
{
    assert(after.push(a).drop_last() =~= after);
    assert(after.push(a).last() == a);
}

/// One operation on each side under the same (path, verb) key, with a
/// record each and a changed identifier: the report is exactly one entry,
/// carrying the before-document's tag and both identifiers.
pub proof fn lemma_one_rename_yields_one_entry(bop: PathOperation, aop: PathOperation)
    requires
        record_of(bop) is Some,
        record_of(aop) is Some,
        record_of(bop).unwrap().path == record_of(aop).unwrap().path,
        record_of(bop).unwrap().verb == record_of(aop).unwrap().verb,
        record_of(bop).unwrap().id != record_of(aop).unwrap().id,
    ensures
        sort_entries_spec(
            diff_records_spec(op_records(seq![bop]), op_records(seq![aop])),
        ) == seq![
            EntryV {
                tag: record_of(bop).unwrap().tag,
                before: record_of(bop).unwrap().id,
                after: record_of(aop).unwrap().id,
            },
        ],
{
    let b = record_of(bop).unwrap();
    let a = record_of(aop).unwrap();
    assert(seq![bop].drop_last() =~= Seq::<PathOperation>::empty());
    assert(seq![aop].drop_last() =~= Seq::<PathOperation>::empty());
    assert(op_records(Seq::<PathOperation>::empty()) =~= Seq::<RecordV>::empty());
    assert(op_records(seq![bop]) =~= seq![b]);
    assert(op_records(seq![aop]) =~= seq![a]);
    assert(seq![a].drop_last() =~= Seq::<RecordV>::empty());
    assert(diff_records_spec(seq![b], Seq::<RecordV>::empty()) =~= Seq::<EntryV>::empty());
    let e = EntryV { tag: b.tag, before: b.id, after: a.id };
    assert(find_key(seq![b], a.path, a.verb) == 0);
    assert(diff_records_spec(seq![b], seq![a]) =~= seq![e]);
    assert(seq![e].drop_last() =~= Seq::<EntryV>::empty());
    assert(sort_entries_spec(Seq::<EntryV>::empty()) =~= Seq::<EntryV>::empty());
    assert(insert_sorted(Seq::<EntryV>::empty(), e) =~= seq![e]);
    assert(sort_entries_spec(seq![e]) =~= seq![e]);
}

/// Compute the rename report of two contract documents: every (path, verb)
/// present in both whose effective identifier differs contributes one entry
/// with the before-document's tag; the entries come sorted in presentation
/// order (tag, then after-identifier, then before-identifier, ascending).
pub fn compute_renames(before: &ContractDocument, after: &ContractDocument) -> (r: OperationIdDiff)
    ensures
        r.view_entries() == sort_entries_spec(
            diff_records_spec(op_records(before.operations@), op_records(after.operations@)),
        ),
        entries_sorted(r.view_entries()),
{
    let b = operation_ids(before);
    let a = operation_ids(after);
    let entries = diff_records(&b, &a);
    let entries = sort_entries(entries);
    OperationIdDiff { entries }
}

} // verus!
