//! Edit applier: applies a set of byte-range replacements to a file's raw
//! bytes in descending start order, so the byte offsets of the edits not
//! yet applied stay valid.

use vstd::prelude::*;
use crate::plan::{Edit, EditV, edit_views};

verus! {

/// One replacement spliced into a byte sequence.
pub open spec fn splice(content: Seq<u8>, e: EditV) -> Seq<u8> {
    content.take(e.start) + e.replacement + content.skip(e.end)
}

/// Application of edits in the order given (meant highest start first).
/// `limit` is the lowest byte position already rewritten; an edit that does
/// not lie fully below it (or outside the content) is skipped, so earlier
/// offsets stay valid whatever the input.
pub open spec fn apply_desc(content: Seq<u8>, edits: Seq<EditV>, limit: int) -> Seq<u8>
    decreases edits.len(),
{
    if edits.len() == 0 {
        content
    } else {
        let e = edits[0];
        if 0 <= e.start && e.start <= e.end && e.end <= limit && limit <= content.len() {
            apply_desc(splice(content, e), edits.drop_first(), e.start)
        } else {
            apply_desc(content, edits.drop_first(), limit)
        }
    }
}

/// Exec splice of one replacement into a byte vector.
fn splice_bytes(src: &Vec<u8>, start: usize, end: usize, repl: &Vec<u8>) -> (r: Vec<u8>)
    requires
        start <= end <= src@.len(),
    ensures
        r@ == src@.take(start as int) + repl@ + src@.skip(end as int),
{
    let mut out: Vec<u8> = Vec::new();
    let mut i: usize = 0;
    while i < start
        invariant
            start <= end <= src@.len(),
            i <= start,
            out@ == src@.take(i as int),
        decreases start - i,
    {
        out.push(src[i]);
        proof {
            assert(out@ =~= src@.take(i as int + 1));
        }
        i = i + 1;
    }
    let mut j: usize = 0;
    while j < repl.len()
        invariant
            j <= repl@.len(),
            out@ == src@.take(start as int) + repl@.take(j as int),
        decreases repl@.len() - j,
    {
        out.push(repl[j]);
        proof {
            assert(out@ =~= src@.take(start as int) + repl@.take(j as int + 1));
        }
        j = j + 1;
    }
    proof {
        assert(repl@.take(repl@.len() as int) =~= repl@);
    }
    let mut k: usize = end;
    while k < src.len()
        invariant
            start <= end <= src@.len(),
            end <= k <= src@.len(),
            out@ == src@.take(start as int) + repl@ + src@.subrange(end as int, k as int),
        decreases src@.len() - k,
    {
        out.push(src[k]);
        proof {
            assert(out@ =~= src@.take(start as int) + repl@ + src@.subrange(
                end as int,
                k as int + 1,
            ));
        }
        k = k + 1;
    }
    proof {
        assert(src@.subrange(end as int, src@.len() as int) =~= src@.skip(end as int));
    }
    out
}

/// Apply the edits to the content in the order given.  The edits are meant
/// to come sorted by start descending; an edit that would cross a byte
/// position already rewritten, or that lies outside the content, is skipped.
pub fn apply_edits(content: &Vec<u8>, edits: &Vec<Edit>) -> (r: Vec<u8>)
    ensures
        r@ == apply_desc(content@, edit_views(edits@), content@.len() as int),
{
    let mut out: Vec<u8> = Vec::new();
    let mut c: usize = 0;
    while c < content.len()
        invariant
            c <= content@.len(),
            out@ == content@.take(c as int),
        decreases content@.len() - c,
    {
        out.push(content[c]);
        proof {
            assert(out@ =~= content@.take(c as int + 1));
        }
        c = c + 1;
    }
    proof {
        assert(content@.take(content@.len() as int) =~= content@);
    }
    let mut limit: usize = out.len();
    let mut i: usize = 0;
    proof {
        assert(edit_views(edits@).skip(0) =~= edit_views(edits@));
    }
    while i < edits.len()
        invariant
            i <= edits@.len(),
            limit <= out@.len(),
            apply_desc(content@, edit_views(edits@), content@.len() as int) == apply_desc(
                out@,
                edit_views(edits@).skip(i as int),
                limit as int,
            ),
        decreases edits@.len() - i,
    {
        proof {
            assert(edit_views(edits@).skip(i as int)[0] == edits@[i as int]@);
            assert(edit_views(edits@).skip(i as int).drop_first() =~= edit_views(edits@).skip(
                i as int + 1,
            ));
        }
        let e = &edits[i];
        if e.start <= e.end && e.end <= limit {
            let spliced = splice_bytes(&out, e.start, e.end, &e.replacement);
            proof {
                assert(spliced@ == splice(out@, edits@[i as int]@));
            }
            out = spliced;
            limit = e.start;
        }
        i = i + 1;
    }
    proof {
        assert(edit_views(edits@).skip(edits@.len() as int) =~= Seq::<EditV>::empty());
    }
    out
}

/// Stable insertion of an edit into a start-descending edit sequence.
pub open spec fn insert_desc(s: Seq<EditV>, e: EditV) -> Seq<EditV>
    decreases s.len(),
{
    if s.len() == 0 {
        seq![e]
    } else if s[0].start >= e.start {
        seq![s[0]] + insert_desc(s.drop_first(), e)
    } else {
        seq![e] + s
    }
}

/// Stable insertion sort of edits by start, descending.
pub open spec fn sort_desc(s: Seq<EditV>) -> Seq<EditV>
    decreases s.len(),
{
    if s.len() == 0 {
        Seq::<EditV>::empty()
    } else {
        insert_desc(sort_desc(s.drop_last()), s.last())
    }
}

/// Adjacent-pairs sortedness by start, descending.
pub open spec fn edits_sorted_desc(s: Seq<EditV>) -> bool {
    forall|i: int| 0 <= i && i + 1 < s.len() ==> (#[trigger] s[i]).start >= s[i + 1].start
}

proof fn lemma_insert_desc_at(s: Seq<EditV>, e: EditV, k: int)
    requires
        0 <= k <= s.len(),
        forall|j: int| 0 <= j < k ==> (#[trigger] s[j]).start >= e.start,
        k < s.len() ==> !(s[k].start >= e.start),
    ensures
        insert_desc(s, e) == s.insert(k, e),
    decreases s.len(),
{
    if s.len() == 0 {
        assert(insert_desc(s, e) =~= s.insert(0, e));
    } else if k == 0 {
        assert(insert_desc(s, e) =~= s.insert(0, e));
    } else {
        lemma_insert_desc_at(s.drop_first(), e, k - 1);
        assert(seq![s[0]] + s.drop_first().insert(k - 1, e) =~= s.insert(k, e));
    }
}

proof fn lemma_insert_desc_keeps_sorted(s: Seq<EditV>, e: EditV, k: int)
    requires
        edits_sorted_desc(s),
        0 <= k <= s.len(),
        forall|j: int| 0 <= j < k ==> (#[trigger] s[j]).start >= e.start,
        k < s.len() ==> !(s[k].start >= e.start),
    ensures
        edits_sorted_desc(s.insert(k, e)),
{
    let t = s.insert(k, e);
    assert forall|i: int| 0 <= i && i + 1 < t.len() implies (#[trigger] t[i]).start >= t[i
        + 1].start by {
        if i + 1 < k {
            assert(t[i] == s[i] && t[i + 1] == s[i + 1]);
        } else if i + 1 == k {
            assert(t[i] == s[i] && t[i + 1] == e);
        } else if i == k {
            assert(t[i] == e && t[i + 1] == s[k]);
        } else {
            assert(t[i] == s[i - 1] && t[i + 1] == s[i]);
        }
    }
}

/// Sort edits into safe application order: by start, descending.
pub fn sort_edits_desc(v: Vec<Edit>) -> (r: Vec<Edit>)
    ensures
        edit_views(r@) == sort_desc(edit_views(v@)),
        edits_sorted_desc(edit_views(r@)),
{
    let mut out: Vec<Edit> = Vec::new();
    let mut i: usize = 0;
    proof {
        assert(edit_views(v@).take(0) =~= Seq::<EditV>::empty());
        assert(edit_views(out@) =~= Seq::<EditV>::empty());
    }
    while i < v.len()
        invariant
            i <= v@.len(),
            edit_views(out@) == sort_desc(edit_views(v@).take(i as int)),
            edits_sorted_desc(edit_views(out@)),
        decreases v@.len() - i,
    {
        let e = Edit {
            start: v[i].start,
            end: v[i].end,
            replacement: v[i].replacement.clone(),
        };
        proof {
            assert(e@ == edit_views(v@)[i as int]);
            assert(edit_views(v@).take(i as int + 1).drop_last() =~= edit_views(v@).take(i as int));
            assert(edit_views(v@).take(i as int + 1).last() == e@);
        }
        let mut k: usize = 0;
        while k < out.len() && out[k].start >= e.start
            invariant
                k <= out@.len(),
                forall|j: int| 0 <= j < k ==> (#[trigger] edit_views(out@)[j]).start >= e@.start,
            decreases out@.len() - k,
        {
            proof {
                assert(edit_views(out@)[k as int] == out@[k as int]@);
            }
            k = k + 1;
        }
        proof {
            assert(k < out@.len() ==> edit_views(out@)[k as int] == out@[k as int]@);
            lemma_insert_desc_at(edit_views(out@), e@, k as int);
            lemma_insert_desc_keeps_sorted(edit_views(out@), e@, k as int);
        }
        let ghost prev = edit_views(out@);
        out.insert(k, e);
        proof {
            assert(edit_views(out@) =~= prev.insert(k as int, edit_views(v@)[i as int]));
        }
        i = i + 1;
    }
    proof {
        assert(edit_views(v@).take(v@.len() as int) =~= edit_views(v@));
    }
    out
}

/// The reference rewrite: walk the edits in ascending start order, copying
/// the untouched span before each edit and substituting its replacement,
/// then the untouched tail.
pub open spec fn rewrite_ref(content: Seq<u8>, edits: Seq<EditV>, from: int) -> Seq<u8>
    decreases edits.len(),
{
    if edits.len() == 0 {
        content.skip(from)
    } else {
        let e = edits[0];
        content.subrange(from, e.start) + e.replacement + rewrite_ref(
            content,
            edits.drop_first(),
            e.end,
        )
    }
}

/// A start-descending edit sequence whose ranges are well-formed, lie
/// within `hi` bytes, and are pairwise disjoint.
pub open spec fn edits_valid_desc(edits: Seq<EditV>, hi: int) -> bool {
    &&& forall|i: int|
        0 <= i < edits.len() ==> 0 <= (#[trigger] edits[i]).start && edits[i].start
            <= edits[i].end && edits[i].end <= hi
    &&& forall|i: int, j: int|
        0 <= i < j < edits.len() ==> (#[trigger] edits[j]).end <= (#[trigger] edits[i]).start
}

proof fn lemma_rewrite_absorbs_last(content: Seq<u8>, asc: Seq<EditV>, e: EditV, from: int)
    requires
        0 <= from,
        from <= e.start,
        e.start <= e.end,
        e.end <= content.len(),
        forall|i: int|
            0 <= i < asc.len() ==> from <= (#[trigger] asc[i]).start && asc[i].start <= asc[i].end
                && asc[i].end <= e.start,
        forall|i: int, j: int|
            0 <= i < j < asc.len() ==> (#[trigger] asc[i]).end <= (#[trigger] asc[j]).start,
    ensures
        rewrite_ref(content, asc.push(e), from) == rewrite_ref(splice(content, e), asc, from),
    decreases asc.len(),
{
    if asc.len() == 0 {
        assert(asc.push(e)[0] == e);
        assert(asc.push(e).drop_first() =~= Seq::<EditV>::empty());
        assert(rewrite_ref(content, asc.push(e).drop_first(), e.end) == content.skip(e.end));
        assert(rewrite_ref(content, asc.push(e), from) == content.subrange(from, e.start)
            + e.replacement + rewrite_ref(content, asc.push(e).drop_first(), e.end));
        assert(splice(content, e).skip(from) =~= content.subrange(from, e.start) + e.replacement
            + content.skip(e.end));
    } else {
        let a = asc[0];
        assert(asc.push(e)[0] == a);
        assert(asc.push(e).drop_first() =~= asc.drop_first().push(e));
        assert(forall|i: int, j: int|
            0 <= i < j < asc.drop_first().len() ==> (#[trigger] asc.drop_first()[i]).end <= (
            #[trigger] asc.drop_first()[j]).start);
        lemma_rewrite_absorbs_last(content, asc.drop_first(), e, a.end);
        assert(splice(content, e).subrange(from, a.start) =~= content.subrange(from, a.start));
    }
}

/// Applying a well-formed, disjoint edit set in descending start order
/// yields exactly the reference rewrite that walks the same edits in
/// ascending order, copying untouched spans and substituting replacements.
pub proof fn lemma_apply_desc_matches_reference(content: Seq<u8>, edits: Seq<EditV>, limit: int)
    requires
        edits_valid_desc(edits, limit),
        0 <= limit <= content.len(),
    ensures
        apply_desc(content, edits, limit) == rewrite_ref(content, edits.reverse(), 0),
    decreases edits.len(),
{
    if edits.len() == 0 {
        assert(edits.reverse() =~= Seq::<EditV>::empty());
        assert(content.skip(0) =~= content);
    } else {
        let e = edits[0];
        let rest = edits.drop_first();
        assert(forall|i: int|
            0 <= i < rest.len() ==> #[trigger] rest[i] == edits[i + 1]);
        assert(edits_valid_desc(rest, e.start));
        assert(e.start <= splice(content, e).len());
        lemma_apply_desc_matches_reference(splice(content, e), rest, e.start);
        assert(forall|i: int|
            0 <= i < rest.reverse().len() ==> #[trigger] rest.reverse()[i] == rest[rest.len() - 1
                - i]);
        lemma_rewrite_absorbs_last(content, rest.reverse(), e, 0);
        assert(edits.reverse() =~= rest.reverse().push(e));
    }
}

} // verus!
