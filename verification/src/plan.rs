//! Edit planner: turns query matches plus the rename lookup table into a
//! set of precisely bounded byte-range replacements.

use vstd::prelude::*;
use vstd::string::*;
use vstd::utf8::encode_utf8;
use crate::lookup::{RenameLookup, RuleV, lookup_rule};
use crate::query::{
    ImportMatch, MethodCallMatch, ParamTypeMatch, go_query_matches, imports_of, method_calls_of,
    param_types_of, query_imports, query_method_calls, query_param_types, IMPORT_QUERY,
    METHOD_CALL_QUERY, PARAM_TYPE_QUERY,
};
use crate::text::{ends_with, str_ends_with, str_eq};

verus! {

/// Suffix of the parameterized variant of a generated client method.
pub const WITH_PARAMS: &'static str = "WithParams";

/// Suffix of a generated parameters struct type.
pub const API_PARAMS: &'static str = "ApiParams";

/// The well-known receiver variable of API client calls.
pub const STORE_NAME: &'static str = "s";

/// The well-known field holding the API client on that receiver.
pub const STORE_PROPERTY: &'static str = "clientv2";

/// The fallback package alias of the SDK import when none is declared.
pub const DEFAULT_SDK_ALIAS: &'static str = "admin";

/// One byte-range replacement: replace the bytes [start, end) with the
/// replacement bytes.
pub struct Edit {
    pub start: usize,
    pub end: usize,
    pub replacement: Vec<u8>,
}

/// Mathematical value of an [`Edit`].
pub struct EditV {
    pub start: int,
    pub end: int,
    pub replacement: Seq<u8>,
}

impl View for Edit {
    type V = EditV;

    open spec fn view(&self) -> EditV {
        EditV { start: self.start as int, end: self.end as int, replacement: self.replacement@ }
    }
}

/// The views of an edit vector.
pub open spec fn edit_views(es: Seq<Edit>) -> Seq<EditV> {
    es.map_values(|e: Edit| e@)
}

/// The lookup key a matched method identifier yields: the identifier with
/// the parameterized-variant suffix stripped, if it carries one.
pub open spec fn method_key(method: Seq<char>) -> Seq<char> {
    if ends_with(method, WITH_PARAMS@) {
        method.take(method.len() - WITH_PARAMS@.len())
    } else {
        method
    }
}

/// The edit one method-call match yields, if any: the receiver chain must
/// be the well-known API client access, the stripped identifier must have a
/// rule, and the match's qualifier must equal the rule's owning API type;
/// the edit then covers exactly the identifier without its suffix.
pub open spec fn method_call_edit(m: MethodCallMatch, rules: Seq<RuleV>) -> Option<EditV> {
    if m.receiver@ != STORE_NAME@ || m.receiver_field@ != STORE_PROPERTY@ {
        Option::None
    } else {
        match lookup_rule(rules, method_key(m.method@)) {
            Option::None => Option::None,
            Option::Some(p) => {
                if m.qualifier@ != p.0 {
                    Option::None
                } else {
                    let endv: int = if ends_with(m.method@, WITH_PARAMS@) {
                        m.method_end - WITH_PARAMS@.len()
                    } else {
                        m.method_end as int
                    };
                    if m.method_start <= endv {
                        Option::Some(
                            EditV {
                                start: m.method_start as int,
                                end: endv,
                                replacement: encode_utf8(p.1),
                            },
                        )
                    } else {
                        Option::None
                    }
                }
            },
        }
    }
}

/// One method call skipped with a diagnostic: its identifier has a rename
/// rule, but its qualifier names another owner than the rule expects.
pub struct SkippedCall {
    pub operation_id: String,
    pub qualifier: String,
    pub expected: String,
}

/// Mathematical value of a [`SkippedCall`].
pub struct SkippedV {
    pub operation_id: Seq<char>,
    pub qualifier: Seq<char>,
    pub expected: Seq<char>,
}

impl View for SkippedCall {
    type V = SkippedV;

    open spec fn view(&self) -> SkippedV {
        SkippedV {
            operation_id: self.operation_id@,
            qualifier: self.qualifier@,
            expected: self.expected@,
        }
    }
}

/// The views of a skipped-call vector.
pub open spec fn skipped_views(s: Seq<SkippedCall>) -> Seq<SkippedV> {
    s.map_values(|x: SkippedCall| x@)
}

/// The diagnostic one match yields, if it is skipped: the stripped
/// identifier, the qualifier found, and the owner the rule expects.
pub open spec fn method_call_skip(m: MethodCallMatch, rules: Seq<RuleV>) -> Option<SkippedV> {
    if m.receiver@ != STORE_NAME@ || m.receiver_field@ != STORE_PROPERTY@ {
        Option::None
    } else {
        match lookup_rule(rules, method_key(m.method@)) {
            Option::Some(p) => {
                if m.qualifier@ != p.0 {
                    Option::Some(
                        SkippedV {
                            operation_id: method_key(m.method@),
                            qualifier: m.qualifier@,
                            expected: p.0,
                        },
                    )
                } else {
                    Option::None
                }
            },
            Option::None => Option::None,
        }
    }
}

/// The edits of a method-call match sequence.
pub open spec fn method_call_edits(ms: Seq<MethodCallMatch>, rules: Seq<RuleV>) -> Seq<EditV>
    decreases ms.len(),
{
    if ms.len() == 0 {
        Seq::<EditV>::empty()
    } else {
        let head = method_call_edits(ms.drop_last(), rules);
        match method_call_edit(ms.last(), rules) {
            Option::Some(e) => head.push(e),
            Option::None => head,
        }
    }
}

/// The diagnostics of a method-call match sequence.
pub open spec fn skipped_method_calls(ms: Seq<MethodCallMatch>, rules: Seq<RuleV>) -> Seq<SkippedV>
    decreases ms.len(),
{
    if ms.len() == 0 {
        Seq::<SkippedV>::empty()
    } else {
        let head = skipped_method_calls(ms.drop_last(), rules);
        match method_call_skip(ms.last(), rules) {
            Option::Some(s) => head.push(s),
            Option::None => head,
        }
    }
}

/// Plan the method-call edits of one file.  Returns the edits and a
/// diagnostic for every match skipped because its qualifier names another
/// owner (surfaced to the caller, never silently swallowed).
pub fn fix_method_calls(ms: &Vec<MethodCallMatch>, lookup: &RenameLookup) -> (r: (
    Vec<Edit>,
    Vec<SkippedCall>,
))
    ensures
        edit_views(r.0@) == method_call_edits(ms@, lookup.view_rules()),
        skipped_views(r.1@) == skipped_method_calls(ms@, lookup.view_rules()),
{
    let mut edits: Vec<Edit> = Vec::new();
    let mut skipped: Vec<SkippedCall> = Vec::new();
    let mut i: usize = 0;
    proof {
        assert(ms@.take(0) =~= Seq::<MethodCallMatch>::empty());
        assert(edit_views(edits@) =~= Seq::<EditV>::empty());
        assert(skipped_views(skipped@) =~= Seq::<SkippedV>::empty());
    }
    while i < ms.len()
        invariant
            i <= ms@.len(),
            edit_views(edits@) == method_call_edits(ms@.take(i as int), lookup.view_rules()),
            skipped_views(skipped@) == skipped_method_calls(ms@.take(i as int), lookup.view_rules()),
        decreases ms@.len() - i,
    {
        proof {
            assert(ms@.take(i as int + 1).drop_last() =~= ms@.take(i as int));
            assert(ms@.take(i as int + 1).last() == ms@[i as int]);
        }
        let m = &ms[i];
        if str_eq(m.receiver.as_str(), STORE_NAME) && str_eq(
            m.receiver_field.as_str(),
            STORE_PROPERTY,
        ) {
            let sl: usize = WITH_PARAMS.unicode_len();
            let n: usize = m.method.as_str().unicode_len();
            let has_suffix = str_ends_with(m.method.as_str(), WITH_PARAMS);
            let key: &str = if has_suffix {
                m.method.as_str().substring_char(0, n - sl)
            } else {
                m.method.as_str()
            };
            proof {
                assert(key@ == method_key(m.method@));
            }
            match lookup.get_rule(key) {
                None => {},
                Some(rule) => {
                    if !str_eq(m.qualifier.as_str(), rule.0.as_str()) {
                        let diag = SkippedCall {
                            operation_id: key.to_owned(),
                            qualifier: m.qualifier.clone(),
                            expected: rule.0.clone(),
                        };
                        let ghost prev = skipped_views(skipped@);
                        proof {
                            assert(Option::Some(diag@) == method_call_skip(
                                ms@[i as int],
                                lookup.view_rules(),
                            ));
                        }
                        skipped.push(diag);
                        proof {
                            assert(skipped_views(skipped@) =~= prev.push(
                                method_call_skip(ms@[i as int], lookup.view_rules()).unwrap(),
                            ));
                        }
                    } else {
                        if has_suffix {
                            if m.method_end >= sl && m.method_start <= m.method_end - sl {
                                let ghost prev = edit_views(edits@);
                                let e = Edit {
                                    start: m.method_start,
                                    end: m.method_end - sl,
                                    replacement: rule.1.as_str().as_bytes_vec(),
                                };
                                edits.push(e);
                                proof {
                                    assert(edit_views(edits@) =~= prev.push(e@));
                                }
                            }
                        } else {
                            if m.method_start <= m.method_end {
                                let ghost prev = edit_views(edits@);
                                let e = Edit {
                                    start: m.method_start,
                                    end: m.method_end,
                                    replacement: rule.1.as_str().as_bytes_vec(),
                                };
                                edits.push(e);
                                proof {
                                    assert(edit_views(edits@) =~= prev.push(e@));
                                }
                            }
                        }
                    }
                },
            }
        }
        i = i + 1;
    }
    proof {
        assert(ms@.take(ms@.len() as int) =~= ms@);
    }
    (edits, skipped)
}

/// A quoted literal with its surrounding quotes removed.
pub open spec fn strip_quotes(s: Seq<char>) -> Seq<char> {
    if s.len() >= 2 && s[0] == '"' && s[s.len() - 1] == '"' {
        s.subrange(1, s.len() - 1)
    } else {
        s
    }
}

/// The local alias the SDK import path is bound to in this file, if the
/// file imports it: the declared alias of the first import whose path
/// equals the SDK path, or the well-known fallback alias.
pub open spec fn sdk_alias_of(imports: Seq<ImportMatch>, sdk_path: Seq<char>) -> Option<Seq<char>>
    decreases imports.len(),
{
    if imports.len() == 0 {
        Option::None
    } else if strip_quotes(imports[0].path@) == sdk_path {
        Option::Some(
            match imports[0].alias {
                Option::Some(a) => a@,
                Option::None => DEFAULT_SDK_ALIAS@,
            },
        )
    } else {
        sdk_alias_of(imports.drop_first(), sdk_path)
    }
}

/// Resolve the local package alias of the SDK import in this file.
pub fn get_go_sdk_import_name(imports: &Vec<ImportMatch>, go_sdk_version: &str) -> (r: Option<
    String,
>)
    ensures
        match r {
            Option::Some(s) => sdk_alias_of(imports@, go_sdk_version@) == Option::Some(s@),
            Option::None => sdk_alias_of(imports@, go_sdk_version@) is None,
        },
{
    let mut i: usize = 0;
    proof {
        assert(imports@.skip(0) =~= imports@);
    }
    while i < imports.len()
        invariant
            i <= imports@.len(),
            sdk_alias_of(imports@, go_sdk_version@) == sdk_alias_of(
                imports@.skip(i as int),
                go_sdk_version@,
            ),
        decreases imports@.len() - i,
    {
        proof {
            assert(imports@.skip(i as int)[0] == imports@[i as int]);
            assert(imports@.skip(i as int).drop_first() =~= imports@.skip(i as int + 1));
        }
        let im = &imports[i];
        let pn: usize = im.path.as_str().unicode_len();
        let stripped: &str = if pn >= 2 && im.path.as_str().get_char(0) == '"'
            && im.path.as_str().get_char(pn - 1) == '"' {
            im.path.as_str().substring_char(1, pn - 1)
        } else {
            im.path.as_str()
        };
        proof {
            assert(stripped@ == strip_quotes(im.path@));
        }
        if str_eq(stripped, go_sdk_version) {
            let name: String = match &im.alias {
                Some(a) => a.clone(),
                None => String::from_str(DEFAULT_SDK_ALIAS),
            };
            return Some(name);
        }
        i = i + 1;
    }
    None
}

/// The edit one parameter-type match yields, if any: the package qualifier
/// must equal the resolved SDK alias and the type identifier must carry the
/// parameters-struct suffix; the rule's owning API type is deliberately not
/// checked in this pass.
pub open spec fn param_type_edit(m: ParamTypeMatch, alias: Seq<char>, rules: Seq<RuleV>) -> Option<
    EditV,
> {
    if m.package@ != alias || !ends_with(m.ident@, API_PARAMS@) {
        Option::None
    } else {
        match lookup_rule(rules, m.ident@.take(m.ident@.len() - API_PARAMS@.len())) {
            Option::None => Option::None,
            Option::Some(p) => {
                let endv: int = m.type_end - API_PARAMS@.len();
                if m.type_start <= endv {
                    Option::Some(
                        EditV {
                            start: m.type_start as int,
                            end: endv,
                            replacement: encode_utf8(p.1),
                        },
                    )
                } else {
                    Option::None
                }
            },
        }
    }
}

/// The edits of a parameter-type match sequence.
pub open spec fn param_type_edits(
    ms: Seq<ParamTypeMatch>,
    alias: Seq<char>,
    rules: Seq<RuleV>,
) -> Seq<EditV>
    decreases ms.len(),
{
    if ms.len() == 0 {
        Seq::<EditV>::empty()
    } else {
        let head = param_type_edits(ms.drop_last(), alias, rules);
        match param_type_edit(ms.last(), alias, rules) {
            Option::Some(e) => head.push(e),
            Option::None => head,
        }
    }
}

/// Plan the parameter-type edits of one file, given the resolved SDK alias.
pub fn fix_api_params(ms: &Vec<ParamTypeMatch>, alias: &str, lookup: &RenameLookup) -> (r: Vec<
    Edit,
>)
    ensures
        edit_views(r@) == param_type_edits(ms@, alias@, lookup.view_rules()),
{
    let mut edits: Vec<Edit> = Vec::new();
    let mut i: usize = 0;
    proof {
        assert(ms@.take(0) =~= Seq::<ParamTypeMatch>::empty());
        assert(edit_views(edits@) =~= Seq::<EditV>::empty());
    }
    while i < ms.len()
        invariant
            i <= ms@.len(),
            edit_views(edits@) == param_type_edits(ms@.take(i as int), alias@, lookup.view_rules()),
        decreases ms@.len() - i,
    {
        proof {
            assert(ms@.take(i as int + 1).drop_last() =~= ms@.take(i as int));
            assert(ms@.take(i as int + 1).last() == ms@[i as int]);
        }
        let m = &ms[i];
        let sl: usize = API_PARAMS.unicode_len();
        if str_eq(m.package.as_str(), alias) && str_ends_with(m.ident.as_str(), API_PARAMS) {
            let n: usize = m.ident.as_str().unicode_len();
            let key: &str = m.ident.as_str().substring_char(0, n - sl);
            match lookup.get_rule(key) {
                None => {},
                Some(rule) => {
                    if m.type_end >= sl && m.type_start <= m.type_end - sl {
                        let ghost prev = edit_views(edits@);
                        let e = Edit {
                            start: m.type_start,
                            end: m.type_end - sl,
                            replacement: rule.1.as_str().as_bytes_vec(),
                        };
                        edits.push(e);
                        proof {
                            assert(edit_views(edits@) =~= prev.push(e@));
                        }
                    }
                },
            }
        }
        i = i + 1;
    }
    proof {
        assert(ms@.take(ms@.len() as int) =~= ms@);
    }
    edits
}

proof fn lemma_method_call_edits_bounded(ms: Seq<MethodCallMatch>, rules: Seq<RuleV>, len: int)
    requires
        forall|k: int|
            0 <= k < ms.len() ==> (#[trigger] ms[k]).method_start <= ms[k].method_end
                && ms[k].method_end <= len,
    ensures
        forall|k: int|
            0 <= k < method_call_edits(ms, rules).len() ==> 0 <= (
            #[trigger] method_call_edits(ms, rules)[k]).start && method_call_edits(ms, rules)[k].start
                <= method_call_edits(ms, rules)[k].end && method_call_edits(ms, rules)[k].end <= len,
    decreases ms.len(),
{
    if ms.len() == 0 {
    } else {
        assert(forall|k: int|
            0 <= k < ms.drop_last().len() ==> (#[trigger] ms.drop_last()[k]).method_start
                <= ms.drop_last()[k].method_end && ms.drop_last()[k].method_end <= len);
        lemma_method_call_edits_bounded(ms.drop_last(), rules, len);
        let head = method_call_edits(ms.drop_last(), rules);
        match method_call_edit(ms.last(), rules) {
            Option::Some(e) => {
                assert(ms[ms.len() - 1] == ms.last());
                assert forall|j: int| 0 <= j < method_call_edits(ms, rules).len() implies 0 <= (
                #[trigger] method_call_edits(ms, rules)[j]).start && method_call_edits(
                    ms,
                    rules,
                )[j].start <= method_call_edits(ms, rules)[j].end && method_call_edits(
                    ms,
                    rules,
                )[j].end <= len by {
                    assert(method_call_edits(ms, rules) == head.push(e));
                    if j < head.len() {
                        assert(method_call_edits(ms, rules)[j] == head[j]);
                    } else {
                        assert(method_call_edits(ms, rules)[j] == e);
                    }
                }
            },
            Option::None => {
                assert(method_call_edits(ms, rules) == head);
            },
        }
    }
}

proof fn lemma_param_type_edits_bounded(
    ms: Seq<ParamTypeMatch>,
    alias: Seq<char>,
    rules: Seq<RuleV>,
    len: int,
)
    requires
        forall|k: int|
            0 <= k < ms.len() ==> (#[trigger] ms[k]).type_start <= ms[k].type_end
                && ms[k].type_end <= len,
    ensures
        forall|k: int|
            0 <= k < param_type_edits(ms, alias, rules).len() ==> 0 <= (
            #[trigger] param_type_edits(ms, alias, rules)[k]).start && param_type_edits(
                ms,
                alias,
                rules,
            )[k].start <= param_type_edits(ms, alias, rules)[k].end && param_type_edits(
                ms,
                alias,
                rules,
            )[k].end <= len,
    decreases ms.len(),
{
    if ms.len() == 0 {
    } else {
        assert(forall|k: int|
            0 <= k < ms.drop_last().len() ==> (#[trigger] ms.drop_last()[k]).type_start
                <= ms.drop_last()[k].type_end && ms.drop_last()[k].type_end <= len);
        lemma_param_type_edits_bounded(ms.drop_last(), alias, rules, len);
        let head = param_type_edits(ms.drop_last(), alias, rules);
        match param_type_edit(ms.last(), alias, rules) {
            Option::Some(e) => {
                assert(ms[ms.len() - 1] == ms.last());
                assert forall|j: int| 0 <= j < param_type_edits(ms, alias, rules).len() implies 0
                    <= (#[trigger] param_type_edits(ms, alias, rules)[j]).start && param_type_edits(
                    ms,
                    alias,
                    rules,
                )[j].start <= param_type_edits(ms, alias, rules)[j].end && param_type_edits(
                    ms,
                    alias,
                    rules,
                )[j].end <= len by {
                    assert(param_type_edits(ms, alias, rules) == head.push(e));
                    if j < head.len() {
                        assert(param_type_edits(ms, alias, rules)[j] == head[j]);
                    } else {
                        assert(param_type_edits(ms, alias, rules)[j] == e);
                    }
                }
            },
            Option::None => {
                assert(param_type_edits(ms, alias, rules) == head);
            },
        }
    }
}

/// All edits of one file's content under the given lookup table and SDK
/// path: the method-call edits, then — if the file imports the SDK — the
/// parameter-type edits under the resolved alias.
pub open spec fn spec_file_edits(content: Seq<u8>, rules: Seq<RuleV>, sdk_path: Seq<char>) -> Seq<
    EditV,
> {
    let mc = method_call_edits(method_calls_of(go_query_matches(content, METHOD_CALL_QUERY@)), rules);
    let pt = match sdk_alias_of(imports_of(go_query_matches(content, IMPORT_QUERY@)), sdk_path) {
        Option::None => Seq::<EditV>::empty(),
        Option::Some(alias) => param_type_edits(
            param_types_of(go_query_matches(content, PARAM_TYPE_QUERY@)),
            alias,
            rules,
        ),
    };
    mc + pt
}

/// Plan every edit of one file.  Returns the planned edits and the
/// diagnostics of the method-call matches skipped over their owner.
pub fn get_edits(content: &Vec<u8>, lookup: &RenameLookup, go_sdk_version: &str) -> (r: (
    Vec<Edit>,
    Vec<SkippedCall>,
))
    ensures
        edit_views(r.0@) == spec_file_edits(content@, lookup.view_rules(), go_sdk_version@),
        skipped_views(r.1@) == skipped_method_calls(
            method_calls_of(go_query_matches(content@, METHOD_CALL_QUERY@)),
            lookup.view_rules(),
        ),
        forall|k: int|
            0 <= k < edit_views(r.0@).len() ==> 0 <= (#[trigger] edit_views(r.0@)[k]).start
                && edit_views(r.0@)[k].start <= edit_views(r.0@)[k].end && edit_views(r.0@)[k].end
                <= content@.len(),
{
    let mc = query_method_calls(content);
    let (mut edits, skipped) = fix_method_calls(&mc, lookup);
    let imports = query_imports(content);
    proof {
        lemma_method_call_edits_bounded(mc@, lookup.view_rules(), content@.len() as int);
    }
    match get_go_sdk_import_name(&imports, go_sdk_version) {
        Some(alias) => {
            let pts = query_param_types(content);
            let mut pe = fix_api_params(&pts, alias.as_str(), lookup);
            let ghost a = edit_views(edits@);
            let ghost b = edit_views(pe@);
            edits.append(&mut pe);
            proof {
                lemma_param_type_edits_bounded(
                    pts@,
                    alias@,
                    lookup.view_rules(),
                    content@.len() as int,
                );
                assert(edit_views(edits@) =~= a + b);
                assert forall|k: int| 0 <= k < edit_views(edits@).len() implies 0 <= (
                #[trigger] edit_views(edits@)[k]).start && edit_views(edits@)[k].start
                    <= edit_views(edits@)[k].end && edit_views(edits@)[k].end
                    <= content@.len() by {
                    if k < a.len() {
                        assert(edit_views(edits@)[k] == method_call_edits(
                            mc@,
                            lookup.view_rules(),
                        )[k]);
                    } else {
                        assert(edit_views(edits@)[k] == param_type_edits(
                            pts@,
                            alias@,
                            lookup.view_rules(),
                        )[k - a.len()]);
                    }
                }
            }
        },
        None => {
            proof {
                assert(edit_views(edits@) =~= edit_views(edits@) + Seq::<EditV>::empty());
                assert forall|k: int| 0 <= k < edit_views(edits@).len() implies 0 <= (
                #[trigger] edit_views(edits@)[k]).start && edit_views(edits@)[k].start
                    <= edit_views(edits@)[k].end && edit_views(edits@)[k].end
                    <= content@.len() by {
                    assert(edit_views(edits@)[k] == method_call_edits(
                        mc@,
                        lookup.view_rules(),
                    )[k]);
                }
            }
        },
    }
    (edits, skipped)
}

} // verus!
