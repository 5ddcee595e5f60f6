//! Rename lookup table: built from the rename report, it answers for a
//! normalized old identifier which API type owns it and what it becomes.

use vstd::prelude::*;
use crate::models::{EntryV, OperationIdDiff};
use crate::normalize::{fix_naming, normalized};

verus! {

/// One lookup rule: the normalized before-identifier, the owning API type
/// name (normalized tag with the literal suffix "Api"), and the normalized
/// after-identifier that replaces the key.
pub struct RenameRule {
    pub key: String,
    pub api: String,
    pub replacement: String,
}

/// Mathematical value of a [`RenameRule`].
pub struct RuleV {
    pub key: Seq<char>,
    pub api: Seq<char>,
    pub replacement: Seq<char>,
}

impl View for RenameRule {
    type V = RuleV;

    open spec fn view(&self) -> RuleV {
        RuleV { key: self.key@, api: self.api@, replacement: self.replacement@ }
    }
}

/// The views of a rule vector.
pub open spec fn rule_views(rs: Seq<RenameRule>) -> Seq<RuleV> {
    rs.map_values(|r: RenameRule| r@)
}

/// The rule a report entry contributes.
pub open spec fn rule_of_entry(e: EntryV) -> RuleV {
    RuleV {
        key: normalized(e.before),
        api: normalized(e.tag) + "Api"@,
        replacement: normalized(e.after),
    }
}

/// Value of a key in a rule sequence: the last rule with that key wins,
/// as in a map filled in order.
pub open spec fn lookup_rule(rules: Seq<RuleV>, key: Seq<char>) -> Option<(Seq<char>, Seq<char>)>
    decreases rules.len(),
{
    if rules.len() == 0 {
        Option::None
    } else if rules.last().key == key {
        Option::Some((rules.last().api, rules.last().replacement))
    } else {
        lookup_rule(rules.drop_last(), key)
    }
}

/// Later rules with other keys do not shadow a rule; the last rule with a
/// given key decides that key (last-write-wins).
pub proof fn lemma_lookup_last_write_wins(rules: Seq<RuleV>, i: int)
    requires
        0 <= i < rules.len(),
        forall|j: int| i < j < rules.len() ==> (#[trigger] rules[j]).key != rules[i].key,
    ensures
        lookup_rule(rules, rules[i].key) == Option::<(Seq<char>, Seq<char>)>::Some(
            (rules[i].api, rules[i].replacement),
        ),
    decreases rules.len(),
{
    if i == rules.len() - 1 {
    } else {
        assert(forall|j: int|
            i < j < rules.drop_last().len() ==> (#[trigger] rules.drop_last()[j]).key
                != rules.drop_last()[i].key);
        lemma_lookup_last_write_wins(rules.drop_last(), i);
    }
}

/// The rename lookup table, shared read-only by every file task.
pub struct RenameLookup {
    pub rules: Vec<RenameRule>,
}

impl RenameLookup {
    /// The table's rules as mathematical values.
    pub open spec fn view_rules(&self) -> Seq<RuleV> {
        rule_views(self.rules@)
    }

    /// Look a normalized identifier up; the last matching rule wins.
    pub fn get_rule(&self, key: &str) -> (r: Option<(String, String)>)
        ensures
            match r {
                Option::Some(p) => lookup_rule(self.view_rules(), key@) == Option::Some(
                    (p.0@, p.1@),
                ),
                Option::None => lookup_rule(self.view_rules(), key@) is None,
            },
    {
        let mut idx: usize = self.rules.len();
        proof {
            assert(self.view_rules().take(idx as int) =~= self.view_rules());
        }
        while idx > 0
            invariant
                idx <= self.rules@.len(),
                lookup_rule(self.view_rules(), key@) == lookup_rule(
                    self.view_rules().take(idx as int),
                    key@,
                ),
            decreases idx,
        {
            idx = idx - 1;
            proof {
                assert(self.view_rules().take(idx as int + 1).last() == self.rules@[idx as int]@);
                assert(self.view_rules().take(idx as int + 1).drop_last() =~= self.view_rules()
                    .take(idx as int));
            }
            if crate::text::str_eq(self.rules[idx].key.as_str(), key) {
                return Some(
                    (self.rules[idx].api.clone(), self.rules[idx].replacement.clone()),
                );
            }
        }
        None
    }
}

/// Build the lookup table from a rename report: for every entry, the
/// normalized before-identifier maps to the normalized tag with the "Api"
/// suffix and the normalized after-identifier.  Entries are kept in report
/// order, so for duplicate keys the entry processed last wins.
pub fn build_lookup(report: &OperationIdDiff) -> (r: RenameLookup)
    ensures
        r.view_rules() == report.view_entries().map_values(|e: EntryV| rule_of_entry(e)),
{
    let mut rules: Vec<RenameRule> = Vec::new();
    let mut i: usize = 0;
    proof {
        assert(rule_views(rules@) =~= report.view_entries().map_values(
            |e: EntryV| rule_of_entry(e),
        ).take(0));
    }
    while i < report.entries.len()
        invariant
            i <= report.entries@.len(),
            rule_views(rules@) == report.view_entries().map_values(
                |e: EntryV| rule_of_entry(e),
            ).take(i as int),
        decreases report.entries@.len() - i,
    {
        let entry = &report.entries[i];
        let key = fix_naming(entry.operation_id_before.as_str());
        let mut api = fix_naming(entry.tag.as_str());
        api.append("Api");
        let replacement = fix_naming(entry.operation_id_after.as_str());
        let rule = RenameRule { key, api, replacement };
        proof {
            assert(rule@ == rule_of_entry(report.view_entries()[i as int]));
        }
        let ghost prev = rule_views(rules@);
        rules.push(rule);
        proof {
            assert(rule_views(rules@) =~= prev.push(
                rule_of_entry(report.view_entries()[i as int]),
            ));
            assert(report.view_entries().map_values(|e: EntryV| rule_of_entry(e)).take(
                i as int + 1,
            ) =~= report.view_entries().map_values(|e: EntryV| rule_of_entry(e)).take(
                i as int,
            ).push(rule_of_entry(report.view_entries()[i as int])));
        }
        i = i + 1;
    }
    proof {
        assert(report.view_entries().map_values(|e: EntryV| rule_of_entry(e)).take(
            report.entries@.len() as int,
        ) =~= report.view_entries().map_values(|e: EntryV| rule_of_entry(e)));
    }
    RenameLookup { rules }
}

} // verus!
