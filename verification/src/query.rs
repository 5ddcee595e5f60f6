//! Syntax query engine: parses one Go source file into a concrete syntax
//! tree and runs structural pattern queries against it.
//!
//! The parse and the query run in one trusted wrapper around tree-sitter;
//! everything that interprets the captured matches is verified code.

use vstd::prelude::*;
use vstd::utf8::{decode_utf8, valid_utf8};
use tree_sitter::StreamingIterator;

verus! {

/// One captured node of a query match: the capture's index within the
/// query's pattern, the captured source text, and its byte range.
pub struct RawCapture {
    pub index: u32,
    pub text: String,
    pub start: usize,
    pub end: usize,
}

/// One query match: its captures, in the order the query engine hands
/// them out.
pub struct RawMatch {
    pub caps: Vec<RawCapture>,
}

/// Pattern for method calls on the API client: a call whose function is a
/// three-level field access `receiver.receiver_field.qualifier.method(...)`.
pub const METHOD_CALL_QUERY: &'static str = "(call_expression function: (selector_expression operand: (selector_expression operand: (selector_expression operand: (identifier) @receiver field: (field_identifier) @receiver_field) field: (field_identifier) @qualifier) field: (field_identifier) @method))";

/// Pattern for package-qualified type identifiers `package.ident`.
pub const PARAM_TYPE_QUERY: &'static str = "(qualified_type package: (package_identifier) @package name: (type_identifier) @ident)";

/// Pattern for import declarations, capturing the optional local alias and
/// the quoted import path.
pub const IMPORT_QUERY: &'static str = "(import_spec name: (_)? @alias path: (interpreted_string_literal) @path)";

/// What running the query `pattern` over the syntax tree of the Go source
/// `content` yields.  The result depends on the two arguments alone.
pub uninterp spec fn go_query_matches(content: Seq<u8>, pattern: Seq<char>) -> Seq<RawMatch>;

/// What tree-sitter guarantees of one capture over a file's bytes: the
/// captured node's range is well-formed and lies within the file, and the
/// captured text is the file's bytes at that range whenever those bytes
/// are valid UTF-8.
pub open spec fn capture_within(c: RawCapture, content: Seq<u8>) -> bool {
    &&& c.start <= c.end
    &&& c.end <= content.len()
    &&& valid_utf8(content.subrange(c.start as int, c.end as int)) ==> c.text@ == decode_utf8(
        content.subrange(c.start as int, c.end as int),
    )
}

/// A captured syntax-tree node of tree-sitter's, opaque to the library.
#[verifier::external_type_specification]
#[verifier::external_body]
pub struct ExNode<'a>(tree_sitter::Node<'a>);

/// Relies on tree_sitter::Node::start_byte, Node::end_byte and
/// Node::byte_range: converts one capture to its index, the captured source
/// text and its byte range.
#[verifier::external_body]
fn cap_data(content: &Vec<u8>, index: u32, node: &tree_sitter::Node<'_>) -> (r: RawCapture)
{
    RawCapture {
        index,
        text: String::from_utf8_lossy(&content[node.byte_range()]).into_owned(),
        start: node.start_byte(),
        end: node.end_byte(),
    }
}

/// Relies on tree_sitter::Parser::parse with the tree_sitter_go grammar and
/// tree_sitter::QueryCursor::matches: parses the source and hands back every
/// match of the query pattern with its captures.
#[verifier::external_body]
fn run_go_query(content: &Vec<u8>, pattern: &str) -> (r: Vec<RawMatch>)
    ensures
        r@ == go_query_matches(content@, pattern@),
        forall|i: int, j: int|
            0 <= i < r@.len() && 0 <= j < r@[i].caps@.len() ==> capture_within(
                #[trigger] r@[i].caps@[j],
                content@,
            ),
{
    let mut parser = tree_sitter::Parser::new();
    let _ = parser.set_language(&tree_sitter_go::LANGUAGE.into());
    let mut out = Vec::new();
    let Some(tree) = parser.parse(content, None) else { return out };
    let Ok(query) = tree_sitter::Query::new(&tree.language(), pattern) else { return out };
    let mut cursor = tree_sitter::QueryCursor::new();
    let mut ms = cursor.matches(&query, tree.root_node(), content.as_slice());
    while let Some(m) = ms.next() {
        let caps = m.captures().iter().map(|c| cap_data(content, c.index, &c.node)).collect();
        out.push(RawMatch { caps });
    }
    out
}

/// First capture with the given index, if any.
pub open spec fn spec_find_cap(caps: Seq<RawCapture>, idx: u32) -> Option<RawCapture>
    decreases caps.len(),
{
    if caps.len() == 0 {
        Option::None
    } else if caps[0].index == idx {
        Option::Some(caps[0])
    } else {
        spec_find_cap(caps.drop_first(), idx)
    }
}

/// Exec search for the first capture with the given index.
fn find_cap(caps: &Vec<RawCapture>, idx: u32) -> (r: Option<RawCapture>)
    ensures
        r == spec_find_cap(caps@, idx),
{
    let mut j: usize = 0;
    proof {
        assert(caps@.skip(0) =~= caps@);
    }
    while j < caps.len()
        invariant
            j <= caps@.len(),
            spec_find_cap(caps@, idx) == spec_find_cap(caps@.skip(j as int), idx),
        decreases caps@.len() - j,
    {
        proof {
            assert(caps@.skip(j as int)[0] == caps@[j as int]);
            assert(caps@.skip(j as int).drop_first() =~= caps@.skip(j as int + 1));
        }
        if caps[j].index == idx {
            let c = &caps[j];
            return Some(
                RawCapture { index: c.index, text: c.text.clone(), start: c.start, end: c.end },
            );
        }
        j = j + 1;
    }
    None
}

proof fn lemma_find_cap_is_member(caps: Seq<RawCapture>, idx: u32)
    ensures
        match spec_find_cap(caps, idx) {
            Option::Some(c) => caps.contains(c),
            Option::None => true,
        },
    decreases caps.len(),
{
    if caps.len() == 0 {
    } else if caps[0].index == idx {
        assert(caps.contains(caps[0]));
    } else {
        lemma_find_cap_is_member(caps.drop_first(), idx);
        match spec_find_cap(caps.drop_first(), idx) {
            Option::Some(c) => {
                let k = choose|k: int|
                    0 <= k < caps.drop_first().len() && caps.drop_first()[k] == c;
                assert(caps[k + 1] == c);
            },
            Option::None => {},
        }
    }
}

/// One matched method call on the API client.
pub struct MethodCallMatch {
    pub receiver: String,
    pub receiver_field: String,
    pub qualifier: String,
    pub method: String,
    pub method_start: usize,
    pub method_end: usize,
}

/// One matched package-qualified type identifier.
pub struct ParamTypeMatch {
    pub package: String,
    pub ident: String,
    pub type_start: usize,
    pub type_end: usize,
}

/// One matched import declaration.
pub struct ImportMatch {
    pub path: String,
    pub alias: Option<String>,
}

/// Interpretation of one raw match of [`METHOD_CALL_QUERY`].
pub open spec fn method_call_of(m: RawMatch) -> Option<MethodCallMatch> {
    match (
        spec_find_cap(m.caps@, 0),
        spec_find_cap(m.caps@, 1),
        spec_find_cap(m.caps@, 2),
        spec_find_cap(m.caps@, 3),
    ) {
        (
            Option::Some(receiver),
            Option::Some(receiver_field),
            Option::Some(qualifier),
            Option::Some(method),
        ) => Option::Some(
            MethodCallMatch {
                receiver: receiver.text,
                receiver_field: receiver_field.text,
                qualifier: qualifier.text,
                method: method.text,
                method_start: method.start,
                method_end: method.end,
            },
        ),
        _ => Option::None,
    }
}

/// Interpretation of a raw match sequence of [`METHOD_CALL_QUERY`].
pub open spec fn method_calls_of(ms: Seq<RawMatch>) -> Seq<MethodCallMatch>
    decreases ms.len(),
{
    if ms.len() == 0 {
        Seq::<MethodCallMatch>::empty()
    } else {
        let head = method_calls_of(ms.drop_last());
        match method_call_of(ms.last()) {
            Option::Some(m) => head.push(m),
            Option::None => head,
        }
    }
}

/// Interpretation of one raw match of [`PARAM_TYPE_QUERY`].
pub open spec fn param_type_of(m: RawMatch) -> Option<ParamTypeMatch> {
    match (spec_find_cap(m.caps@, 0), spec_find_cap(m.caps@, 1)) {
        (Option::Some(package), Option::Some(ident)) => Option::Some(
            ParamTypeMatch {
                package: package.text,
                ident: ident.text,
                type_start: ident.start,
                type_end: ident.end,
            },
        ),
        _ => Option::None,
    }
}

/// Interpretation of a raw match sequence of [`PARAM_TYPE_QUERY`].
pub open spec fn param_types_of(ms: Seq<RawMatch>) -> Seq<ParamTypeMatch>
    decreases ms.len(),
{
    if ms.len() == 0 {
        Seq::<ParamTypeMatch>::empty()
    } else {
        let head = param_types_of(ms.drop_last());
        match param_type_of(ms.last()) {
            Option::Some(m) => head.push(m),
            Option::None => head,
        }
    }
}

/// Interpretation of one raw match of [`IMPORT_QUERY`]: the quoted path is
/// required, the alias is optional.
pub open spec fn import_of(m: RawMatch) -> Option<ImportMatch> {
    match spec_find_cap(m.caps@, 1) {
        Option::Some(path) => Option::Some(
            ImportMatch {
                path: path.text,
                alias: match spec_find_cap(m.caps@, 0) {
                    Option::Some(alias) => Option::Some(alias.text),
                    Option::None => Option::None,
                },
            },
        ),
        Option::None => Option::None,
    }
}

/// Interpretation of a raw match sequence of [`IMPORT_QUERY`].
pub open spec fn imports_of(ms: Seq<RawMatch>) -> Seq<ImportMatch>
    decreases ms.len(),
{
    if ms.len() == 0 {
        Seq::<ImportMatch>::empty()
    } else {
        let head = imports_of(ms.drop_last());
        match import_of(ms.last()) {
            Option::Some(m) => head.push(m),
            Option::None => head,
        }
    }
}

/// Every capture of every match lies within the file's bytes.
pub open spec fn matches_within(ms: Seq<RawMatch>, content: Seq<u8>) -> bool {
    forall|i: int, j: int|
        0 <= i < ms.len() && 0 <= j < ms[i].caps@.len() ==> capture_within(
            #[trigger] ms[i].caps@[j],
            content,
        )
}

proof fn lemma_method_calls_within(ms: Seq<RawMatch>, content: Seq<u8>)
    requires
        matches_within(ms, content),
    ensures
        forall|k: int|
            0 <= k < method_calls_of(ms).len() ==> (#[trigger] method_calls_of(ms)[k]).method_start
                <= method_calls_of(ms)[k].method_end && method_calls_of(ms)[k].method_end
                <= content.len(),
    decreases ms.len(),
{
    if ms.len() == 0 {
    } else {
        assert(forall|i: int, j: int|
            0 <= i < ms.drop_last().len() && 0 <= j < ms.drop_last()[i].caps@.len()
                ==> capture_within(#[trigger] ms.drop_last()[i].caps@[j], content));
        lemma_method_calls_within(ms.drop_last(), content);
        let head = method_calls_of(ms.drop_last());
        match method_call_of(ms.last()) {
            Option::Some(m) => {
                lemma_find_cap_is_member(ms.last().caps@, 3);
                let c = spec_find_cap(ms.last().caps@, 3).unwrap();
                let k = choose|k: int| 0 <= k < ms.last().caps@.len() && ms.last().caps@[k] == c;
                assert(ms[ms.len() - 1] == ms.last());
                assert(capture_within(ms[ms.len() - 1].caps@[k], content));
                assert(m.method_start == c.start && m.method_end == c.end);
                assert forall|j: int| 0 <= j < method_calls_of(ms).len() implies (
                #[trigger] method_calls_of(ms)[j]).method_start <= method_calls_of(ms)[j].method_end
                    && method_calls_of(ms)[j].method_end <= content.len() by {
                    assert(method_calls_of(ms) == head.push(m));
                    if j < head.len() {
                        assert(method_calls_of(ms)[j] == head[j]);
                    } else {
                        assert(method_calls_of(ms)[j] == m);
                    }
                }
            },
            Option::None => {
                assert(method_calls_of(ms) == head);
            },
        }
    }
}

proof fn lemma_param_types_within(ms: Seq<RawMatch>, content: Seq<u8>)
    requires
        matches_within(ms, content),
    ensures
        forall|k: int|
            0 <= k < param_types_of(ms).len() ==> (#[trigger] param_types_of(ms)[k]).type_start
                <= param_types_of(ms)[k].type_end && param_types_of(ms)[k].type_end
                <= content.len(),
    decreases ms.len(),
{
    if ms.len() == 0 {
    } else {
        assert(forall|i: int, j: int|
            0 <= i < ms.drop_last().len() && 0 <= j < ms.drop_last()[i].caps@.len()
                ==> capture_within(#[trigger] ms.drop_last()[i].caps@[j], content));
        lemma_param_types_within(ms.drop_last(), content);
        let head = param_types_of(ms.drop_last());
        match param_type_of(ms.last()) {
            Option::Some(m) => {
                lemma_find_cap_is_member(ms.last().caps@, 1);
                let c = spec_find_cap(ms.last().caps@, 1).unwrap();
                let k = choose|k: int| 0 <= k < ms.last().caps@.len() && ms.last().caps@[k] == c;
                assert(ms[ms.len() - 1] == ms.last());
                assert(capture_within(ms[ms.len() - 1].caps@[k], content));
                assert(m.type_start == c.start && m.type_end == c.end);
                assert forall|j: int| 0 <= j < param_types_of(ms).len() implies (
                #[trigger] param_types_of(ms)[j]).type_start <= param_types_of(ms)[j].type_end
                    && param_types_of(ms)[j].type_end <= content.len() by {
                    assert(param_types_of(ms) == head.push(m));
                    if j < head.len() {
                        assert(param_types_of(ms)[j] == head[j]);
                    } else {
                        assert(param_types_of(ms)[j] == m);
                    }
                }
            },
            Option::None => {
                assert(param_types_of(ms) == head);
            },
        }
    }
}

/// Exec interpretation of the raw method-call matches.
fn extract_method_calls(ms: &Vec<RawMatch>) -> (r: Vec<MethodCallMatch>)
    ensures
        r@ == method_calls_of(ms@),
{
    let mut out: Vec<MethodCallMatch> = Vec::new();
    let mut i: usize = 0;
    proof {
        assert(ms@.take(0) =~= Seq::<RawMatch>::empty());
    }
    while i < ms.len()
        invariant
            i <= ms@.len(),
            out@ == method_calls_of(ms@.take(i as int)),
        decreases ms@.len() - i,
    {
        proof {
            assert(ms@.take(i as int + 1).drop_last() =~= ms@.take(i as int));
            assert(ms@.take(i as int + 1).last() == ms@[i as int]);
        }
        let m = &ms[i];
        let receiver = find_cap(&m.caps, 0);
        let receiver_field = find_cap(&m.caps, 1);
        let qualifier = find_cap(&m.caps, 2);
        let method = find_cap(&m.caps, 3);
        match (receiver, receiver_field, qualifier, method) {
            (Some(receiver), Some(receiver_field), Some(qualifier), Some(method)) => {
                out.push(
                    MethodCallMatch {
                        receiver: receiver.text,
                        receiver_field: receiver_field.text,
                        qualifier: qualifier.text,
                        method: method.text,
                        method_start: method.start,
                        method_end: method.end,
                    },
                );
            },
            _ => {},
        }
        i = i + 1;
    }
    proof {
        assert(ms@.take(ms@.len() as int) =~= ms@);
    }
    out
}

/// Exec interpretation of the raw parameter-type matches.
fn extract_param_types(ms: &Vec<RawMatch>) -> (r: Vec<ParamTypeMatch>)
    ensures
        r@ == param_types_of(ms@),
{
    let mut out: Vec<ParamTypeMatch> = Vec::new();
    let mut i: usize = 0;
    proof {
        assert(ms@.take(0) =~= Seq::<RawMatch>::empty());
    }
    while i < ms.len()
        invariant
            i <= ms@.len(),
            out@ == param_types_of(ms@.take(i as int)),
        decreases ms@.len() - i,
    {
        proof {
            assert(ms@.take(i as int + 1).drop_last() =~= ms@.take(i as int));
            assert(ms@.take(i as int + 1).last() == ms@[i as int]);
        }
        let m = &ms[i];
        let package = find_cap(&m.caps, 0);
        let ident = find_cap(&m.caps, 1);
        match (package, ident) {
            (Some(package), Some(ident)) => {
                out.push(
                    ParamTypeMatch {
                        package: package.text,
                        ident: ident.text,
                        type_start: ident.start,
                        type_end: ident.end,
                    },
                );
            },
            _ => {},
        }
        i = i + 1;
    }
    proof {
        assert(ms@.take(ms@.len() as int) =~= ms@);
    }
    out
}

/// Exec interpretation of the raw import matches.
fn extract_imports(ms: &Vec<RawMatch>) -> (r: Vec<ImportMatch>)
    ensures
        r@ == imports_of(ms@),
{
    let mut out: Vec<ImportMatch> = Vec::new();
    let mut i: usize = 0;
    proof {
        assert(ms@.take(0) =~= Seq::<RawMatch>::empty());
    }
    while i < ms.len()
        invariant
            i <= ms@.len(),
            out@ == imports_of(ms@.take(i as int)),
        decreases ms@.len() - i,
    {
        proof {
            assert(ms@.take(i as int + 1).drop_last() =~= ms@.take(i as int));
            assert(ms@.take(i as int + 1).last() == ms@[i as int]);
        }
        let m = &ms[i];
        let path = find_cap(&m.caps, 1);
        let alias = find_cap(&m.caps, 0);
        match path {
            Some(path) => {
                out.push(
                    ImportMatch {
                        path: path.text,
                        alias: match alias {
                            Some(alias) => Some(alias.text),
                            None => None,
                        },
                    },
                );
            },
            None => {},
        }
        i = i + 1;
    }
    proof {
        assert(ms@.take(ms@.len() as int) =~= ms@);
    }
    out
}

/// The method-call matches of a Go source file.  Each match's identifier
/// range is well-formed and lies within the file.
pub fn query_method_calls(content: &Vec<u8>) -> (r: Vec<MethodCallMatch>)
    ensures
        r@ == method_calls_of(go_query_matches(content@, METHOD_CALL_QUERY@)),
        forall|k: int|
            0 <= k < r@.len() ==> (#[trigger] r@[k]).method_start <= r@[k].method_end
                && r@[k].method_end <= content@.len(),
{
    let raw = run_go_query(content, METHOD_CALL_QUERY);
    proof {
        lemma_method_calls_within(raw@, content@);
    }
    extract_method_calls(&raw)
}

/// The parameter-type matches of a Go source file.  Each match's type
/// identifier range is well-formed and lies within the file.
pub fn query_param_types(content: &Vec<u8>) -> (r: Vec<ParamTypeMatch>)
    ensures
        r@ == param_types_of(go_query_matches(content@, PARAM_TYPE_QUERY@)),
        forall|k: int|
            0 <= k < r@.len() ==> (#[trigger] r@[k]).type_start <= r@[k].type_end
                && r@[k].type_end <= content@.len(),
{
    let raw = run_go_query(content, PARAM_TYPE_QUERY);
    proof {
        lemma_param_types_within(raw@, content@);
    }
    extract_param_types(&raw)
}

/// The import matches of a Go source file.
pub fn query_imports(content: &Vec<u8>) -> (r: Vec<ImportMatch>)
    ensures
        r@ == imports_of(go_query_matches(content@, IMPORT_QUERY@)),
{
    let raw = run_go_query(content, IMPORT_QUERY);
    extract_imports(&raw)
}

} // verus!
