//! Reading syntax trees.

use super::tree::{
    access_is, annotation_is, arg_is, args_are, callable_is, class_is, class_part_is, default_is, export_is, export_name_is,
    exports_are, flag_at, function_is, ident_is, import_is, imports_are, is_access, is_callable, is_class_part, is_hex_digit,
    is_named_member, is_operation, is_statement, item_is, items_are, items_at, key_is, kind_of, line_at, line_of, literal_of,
    method_kind_of, module_is, name_is, node_is, nodes_are, number_at, operation_is, operator_of, optional_is, param_is,
    params_are, part, pattern_is, pattern_prop_is, pattern_props_are, prop_is, props_are, spelled, spelled_is,
    starts_escaped, statement_is, text_at, trees_in, trees_in_fields, trees_in_items, trees_within, type_names, unescaped,
    wrapper_of,
};
use crate::json::{fields_model, fields_model_places, get_member, items_model, items_model_places, json_model, Json, JsonModel};
use crate::syntax::{
    BinaryOp, Class, ExportName, ExportSpecifier, Function, Ident, ImportSpecifier, MethodKind, Module, ModuleItem, Node,
    Pattern, PatternProp, PropKey, TypeAnnotation, Wrapper,
};
use crate::text::{chars_of, same, text_of_all};
use vstd::prelude::*;

verus! {

// ---------------------------------------------------------------------------
// The parts of a tree
// ---------------------------------------------------------------------------

fn read_text(tree: &Json, name: &str) -> (r: String)
    ensures
        r@ == text_at(json_model(*tree), name@),
{
    match get_member(tree, name) {
        Some(Json::Text(text)) => text.clone(),
        _ => String::new(),
    }
}

fn read_kind(tree: &Json) -> (r: String)
    ensures
        r@ == kind_of(json_model(*tree)),
{
    read_text(tree, "type")
}

fn hex_digit(c: char) -> (r: bool)
    ensures
        r == is_hex_digit(c),
{
    ('0' <= c && c <= '9') || ('a' <= c && c <= 'f') || ('A' <= c && c <= 'F')
}

fn escaped_at(chars: &Vec<char>, i: usize) -> (r: bool)
    requires
        i <= chars.len(),
    ensures
        r == starts_escaped(chars@.skip(i as int)),
{
    let ghost rest = chars@.skip(i as int);
    if chars.len() - i < 7 || chars[i] != '\\' || chars[i + 1] != '\\' || chars[i + 2] != 'u' {
        return false;
    }
    let mut k: usize = 3;
    while k < 7
        invariant
            3 <= k <= 7,
            i + 7 <= chars.len(),
            rest == chars@.skip(i as int),
            forall|n: int| 3 <= n < k ==> is_hex_digit(#[trigger] rest[n]),
        decreases 7 - k,
    {
        assert(rest[k as int] == chars@[i + k]);
        if !hex_digit(chars[i + k]) {
            return false;
        }
        k += 1;
    }
    true
}

/// What the string literal of a tree says.
fn read_literal(tree: &Json) -> (r: String)
    ensures
        r@ == literal_of(json_model(*tree)),
{
    let text = read_text(tree, "value");
    let chars = chars_of(text.as_str());
    let mut plain: Vec<char> = Vec::new();
    let mut i: usize = 0;
    assert(chars@.skip(0) =~= chars@);
    while i < chars.len()
        invariant
            i <= chars.len(),
            chars@ == text@,
            unescaped(text@) == plain@ + unescaped(chars@.skip(i as int)),
        decreases chars.len() - i,
    {
        let ghost rest = chars@.skip(i as int);
        let ghost before = plain@;
        if escaped_at(&chars, i) {
            plain.push(chars[i + 1]);
            plain.push(chars[i + 2]);
            assert(rest.skip(3) =~= chars@.skip(i + 3));
            assert(plain@ =~= before + rest.subrange(1, 3));
            i += 3;
        } else {
            plain.push(chars[i]);
            assert(rest.skip(1) =~= chars@.skip(i + 1));
            assert(plain@ =~= before + rest.take(1));
            i += 1;
        }
        assert(plain@ + unescaped(chars@.skip(i as int)) =~= unescaped(text@));
    }
    assert(plain@ + unescaped(chars@.skip(i as int)) =~= plain@);
    text_of_all(&plain)
}

fn read_flag(tree: &Json, name: &str) -> (r: bool)
    ensures
        r == flag_at(json_model(*tree), name@),
{
    match get_member(tree, name) {
        Some(Json::Bool(on)) => *on,
        _ => false,
    }
}

fn read_number(tree: &Json, name: &str) -> (r: u64)
    ensures
        r == number_at(json_model(*tree), name@),
{
    match get_member(tree, name) {
        Some(Json::Number(n)) => *n,
        _ => 0,
    }
}

/// A list among the parts of a tree, where there is one.
fn read_list<'a>(tree: &'a Json, name: &str) -> (r: Option<&'a Vec<Json>>)
    ensures
        match r {
            Some(items) => items_at(json_model(*tree), name@) == items_model(items@) && decreases_to!(*tree => items@),
            None => items_at(json_model(*tree), name@).len() == 0,
        },
{
    match get_member(tree, name) {
        Some(list) => match list {
            Json::List(items) => {
                assert(decreases_to!(*list => list->List_0));
                Some(items)
            },
            _ => None,
        },
        None => None,
    }
}

fn find_line(lines: &Vec<u32>, position: u64) -> (r: u32)
    ensures
        r == line_at(lines@, position),
{
    let mut i: usize = lines.len();
    assert(lines@.take(i as int) =~= lines@);
    while i > 0
        invariant
            i <= lines.len(),
            line_at(lines@, position) == line_at(lines@.take(i as int), position),
        decreases i,
    {
        assert(lines@.take(i as int).last() == lines@[i - 1]);
        assert(lines@.take(i as int).drop_last() =~= lines@.take(i - 1));
        if lines[i - 1] as u64 <= position {
            return i as u32;
        }
        i -= 1;
    }
    0
}

fn read_line(lines: &Vec<u32>, tree: &Json) -> (r: u32)
    ensures
        r == line_of(lines@, json_model(*tree)),
{
    match get_member(tree, "span") {
        Some(span) => find_line(lines, read_number(span, "start")),
        None => {
            assert(number_at(JsonModel::Null, "start"@) == 0);
            find_line(lines, 0)
        },
    }
}

fn read_ident(tree: &Json) -> (r: Ident)
    ensures
        ident_is(json_model(*tree), r),
{
    let context: u64 = read_number(tree, "ctxt");
    Ident { symbol: read_text(tree, "value"), context: context as u32 }
}

fn read_name(tree: &Json, name: &str) -> (r: Option<Ident>)
    ensures
        name_is(part(json_model(*tree), name@), r),
{
    match get_member(tree, name) {
        None => None,
        Some(Json::Null) => None,
        Some(ident) => Some(read_ident(ident)),
    }
}

/// A name that is there.
fn read_ident_at(tree: &Json, name: &str) -> (r: Ident)
    ensures
        ident_is(part(json_model(*tree), name@), r),
{
    match get_member(tree, name) {
        Some(ident) => read_ident(ident),
        None => {
            let none = Json::Null;
            read_ident(&none)
        },
    }
}

fn read_key(tree: &Json, name: &str) -> (r: PropKey)
    ensures
        key_is(part(json_model(*tree), name@), r),
{
    match get_member(tree, name) {
        Some(key) => {
            let kind = read_kind(key);
            if same(kind.as_str(), "Identifier") {
                PropKey::Ident(read_text(key, "value"))
            } else if same(kind.as_str(), "StringLiteral") {
                PropKey::Text(read_literal(key))
            } else {
                PropKey::Other
            }
        },
        None => {
            proof {
                nothing_has_a_kind();
                assert(!is_known(kind_of(JsonModel::Null)));
            }
            PropKey::Other
        },
    }
}

fn read_type_names(tree: &Json) -> (r: Vec<String>)
    ensures
        r.deep_view() == type_names(json_model(*tree)),
    decreases *tree,
{
    let kind = read_kind(tree);
    if same(kind.as_str(), "TsQualifiedName") {
        match get_member(tree, "left") {
            Some(left) => {
                let mut r = read_type_names(left);
                let ghost before = r.deep_view();
                let last = match get_member(tree, "right") {
                    Some(right) => read_text(right, "value"),
                    None => String::new(),
                };
                assert(last@ =~= text_at(part(json_model(*tree), "right"@), "value"@));
                r.push(last);
                assert(r.deep_view() =~= before.push(last@));
                return r;
            },
            None => {},
        }
    }
    let mut r: Vec<String> = Vec::new();
    let name = read_text(tree, "value");
    r.push(name);
    assert(r.deep_view() =~= seq![name@]);
    r
}

fn read_annotation(tree: &Json, name: &str) -> (r: Option<TypeAnnotation>)
    ensures
        annotation_is(part(json_model(*tree), name@), r),
{
    match get_member(tree, name) {
        None => None,
        Some(Json::Null) => None,
        Some(declared) => match get_member(declared, "typeAnnotation") {
            Some(named) => {
                let kind = read_kind(named);
                if same(kind.as_str(), "TsTypeReference") {
                    match get_member(named, "typeName") {
                        Some(names) => Some(TypeAnnotation::Reference(read_type_names(names))),
                        None => {
                            let none = Json::Null;
                            Some(TypeAnnotation::Reference(read_type_names(&none)))
                        },
                    }
                } else {
                    Some(TypeAnnotation::Other)
                }
            },
            None => {
                proof {
                    nothing_has_a_kind();
                    assert(!is_known(kind_of(JsonModel::Null)));
                }
                Some(TypeAnnotation::Other)
            },
        },
    }
}

// ---------------------------------------------------------------------------
// Lists of nodes
// ---------------------------------------------------------------------------

/// What is left out has none of the kinds that are read.
proof fn nothing_has_a_kind()
    ensures
        kind_of(JsonModel::Null).len() == 0,
        forall|kind: Seq<char>| kind.len() == 0 ==> !(#[trigger] is_known(kind)),
{
    reveal_strlit("Identifier");
    reveal_strlit("ThisExpression");
    reveal_strlit("StringLiteral");
    reveal_strlit("MemberExpression");
    reveal_strlit("OptionalChainingExpression");
    reveal_strlit("CallExpression");
    reveal_strlit("NewExpression");
    reveal_strlit("ParenthesisExpression");
    reveal_strlit("TsAsExpression");
    reveal_strlit("TsConstAssertion");
    reveal_strlit("TsSatisfiesExpression");
    reveal_strlit("TsNonNullExpression");
    reveal_strlit("AwaitExpression");
    reveal_strlit("BinaryExpression");
    reveal_strlit("ConditionalExpression");
    reveal_strlit("AssignmentExpression");
    reveal_strlit("ObjectExpression");
    reveal_strlit("FunctionExpression");
    reveal_strlit("FunctionDeclaration");
    reveal_strlit("ArrowFunctionExpression");
    reveal_strlit("MethodProperty");
    reveal_strlit("GetterProperty");
    reveal_strlit("SetterProperty");
    reveal_strlit("PrivateMethod");
    reveal_strlit("ClassExpression");
    reveal_strlit("ClassDeclaration");
    reveal_strlit("ClassProperty");
    reveal_strlit("ClassMethod");
    reveal_strlit("Constructor");
    reveal_strlit("VariableDeclaration");
    reveal_strlit("VariableDeclarator");
    reveal_strlit("ReturnStatement");
    reveal_strlit("TsTypeReference");
    reveal_strlit("TsQualifiedName");
    reveal_strlit("ObjectPattern");
    reveal_strlit("PrivateName");
    reveal_strlit("Import");
    reveal_strlit("Super");
    reveal_strlit("FunctionBody");
    reveal_strlit("Parameter");
}

/// A kind that is told apart from the rest.
spec fn is_known(kind: Seq<char>) -> bool {
    ||| kind == "Identifier"@
    ||| kind == "ThisExpression"@
    ||| kind == "StringLiteral"@
    ||| is_access(kind)
    ||| wrapper_of(kind) is Some
    ||| is_operation(kind)
    ||| is_callable(kind)
    ||| is_class_part(kind)
    ||| is_statement(kind)
    ||| kind == "TsTypeReference"@
    ||| kind == "TsQualifiedName"@
    ||| kind == "ObjectPattern"@
    ||| kind == "PrivateName"@
    ||| kind == "Import"@
    ||| kind == "Super"@
    ||| kind == "FunctionBody"@
    ||| kind == "Parameter"@
}

proof fn nodes_grow(lines: Seq<u32>, trees: Seq<JsonModel>, nodes: Seq<Node>, tree: JsonModel, node: Node)
    requires
        nodes_are(lines, trees, nodes),
        node_is(lines, tree, node),
    ensures
        nodes_are(lines, trees.push(tree), nodes.push(node)),
{
    assert(trees.push(tree).drop_last() =~= trees);
    assert(nodes.push(node).drop_last() =~= nodes);
}

/// Nodes of one list behind those of another.
proof fn nodes_join(lines: Seq<u32>, trees: Seq<JsonModel>, nodes: Seq<Node>, more: Seq<JsonModel>, others: Seq<Node>)
    requires
        nodes_are(lines, trees, nodes),
        nodes_are(lines, more, others),
    ensures
        nodes_are(lines, trees + more, nodes + others),
    decreases others.len(),
{
    if others.len() == 0 {
        assert(trees + more =~= trees);
        assert(nodes + others =~= nodes);
    } else {
        nodes_join(lines, trees, nodes, more.drop_last(), others.drop_last());
        nodes_grow(lines, trees + more.drop_last(), nodes + others.drop_last(), more.last(), others.last());
        assert((trees + more.drop_last()).push(more.last()) =~= trees + more);
        assert((nodes + others.drop_last()).push(others.last()) =~= nodes + others);
    }
}

fn read_nodes(lines: &Vec<u32>, trees: &Vec<Json>) -> (r: Vec<Node>)
    ensures
        nodes_are(lines@, items_model(trees@), r@),
    decreases trees@, 0nat,
{
    let ghost all = items_model(trees@);
    let mut r: Vec<Node> = Vec::new();
    let mut i: usize = 0;
    proof {
        items_model_places(trees@);
    }
    while i < trees.len()
        invariant
            i <= trees.len(),
            all == items_model(trees@),
            all.len() == trees@.len(),
            forall|k: int| 0 <= k < trees@.len() ==> #[trigger] all[k] == json_model(trees@[k]),
            nodes_are(lines@, all.take(i as int), r@),
        decreases trees.len() - i,
    {
        assert(decreases_to!(trees@ => trees@[i as int]));
        let node = read_node(lines, &trees[i]);
        proof {
            nodes_grow(lines@, all.take(i as int), r@, all[i as int], node);
            assert(all.take(i as int).push(all[i as int]) =~= all.take(i + 1));
        }
        r.push(node);
        i += 1;
    }
    assert(all.take(all.len() as int) =~= all);
    r
}

fn read_args(lines: &Vec<u32>, trees: &Vec<Json>) -> (r: Vec<Node>)
    ensures
        args_are(lines@, items_model(trees@), r@),
    decreases trees@, 0nat,
{
    let ghost all = items_model(trees@);
    let mut r: Vec<Node> = Vec::new();
    let mut i: usize = 0;
    proof {
        items_model_places(trees@);
    }
    while i < trees.len()
        invariant
            i <= trees.len(),
            all == items_model(trees@),
            all.len() == trees@.len(),
            forall|k: int| 0 <= k < trees@.len() ==> #[trigger] all[k] == json_model(trees@[k]),
            args_are(lines@, all.take(i as int), r@),
        decreases trees.len() - i,
    {
        assert(decreases_to!(trees@ => trees@[i as int]));
        let node = read_arg(lines, &trees[i]);
        let ghost before = r@;
        r.push(node);
        proof {
            assert(all.take(i + 1).drop_last() =~= all.take(i as int));
            assert(r@.drop_last() =~= before);
        }
        i += 1;
    }
    assert(all.take(all.len() as int) =~= all);
    r
}

fn read_arg(lines: &Vec<u32>, tree: &Json) -> (r: Node)
    ensures
        arg_is(lines@, json_model(*tree), r),
    decreases *tree, 12nat,
{
    let value = read_node_at(lines, tree, "expression");
    match get_member(tree, "spread") {
        None => value,
        Some(Json::Null) => value,
        Some(_) => Node::Spread(Box::new(value)),
    }
}

fn read_args_at(lines: &Vec<u32>, tree: &Json, name: &str) -> (r: Vec<Node>)
    ensures
        args_are(lines@, items_at(json_model(*tree), name@), r@),
    decreases *tree, 2nat,
{
    match read_list(tree, name) {
        Some(trees) => read_args(lines, trees),
        None => Vec::new(),
    }
}

fn read_props(lines: &Vec<u32>, trees: &Vec<Json>) -> (r: Vec<Node>)
    ensures
        props_are(lines@, items_model(trees@), r@),
    decreases trees@, 0nat,
{
    let ghost all = items_model(trees@);
    let mut r: Vec<Node> = Vec::new();
    let mut i: usize = 0;
    proof {
        items_model_places(trees@);
    }
    while i < trees.len()
        invariant
            i <= trees.len(),
            all == items_model(trees@),
            all.len() == trees@.len(),
            forall|k: int| 0 <= k < trees@.len() ==> #[trigger] all[k] == json_model(trees@[k]),
            props_are(lines@, all.take(i as int), r@),
        decreases trees.len() - i,
    {
        assert(decreases_to!(trees@ => trees@[i as int]));
        let node = read_prop(lines, &trees[i]);
        let ghost before = r@;
        r.push(node);
        proof {
            assert(all.take(i + 1).drop_last() =~= all.take(i as int));
            assert(r@.drop_last() =~= before);
        }
        i += 1;
    }
    assert(all.take(all.len() as int) =~= all);
    r
}

fn read_prop(lines: &Vec<u32>, tree: &Json) -> (r: Node)
    ensures
        prop_is(lines@, json_model(*tree), r),
    decreases *tree, 12nat,
{
    let kind = read_kind(tree);
    if same(kind.as_str(), "SpreadElement") {
        Node::Spread(Box::new(read_node_at(lines, tree, "arguments")))
    } else if same(kind.as_str(), "Identifier") {
        Node::Shorthand(read_ident(tree))
    } else if same(kind.as_str(), "KeyValueProperty") {
        Node::KeyValue {
            key: read_key(tree, "key"),
            inner: read_within_at(lines, tree, "key"),
            value: Box::new(read_node_at(lines, tree, "value")),
        }
    } else {
        read_node(lines, tree)
    }
}

fn read_nodes_at(lines: &Vec<u32>, tree: &Json, name: &str) -> (r: Vec<Node>)
    ensures
        nodes_are(lines@, items_at(json_model(*tree), name@), r@),
    decreases *tree, 2nat,
{
    match read_list(tree, name) {
        Some(trees) => read_nodes(lines, trees),
        None => Vec::new(),
    }
}

/// The nodes of the outermost trees of a value.
fn read_trees(lines: &Vec<u32>, value: &Json) -> (r: Vec<Node>)
    ensures
        nodes_are(lines@, trees_in(json_model(*value)), r@),
    decreases *value, 12nat,
{
    let mut r: Vec<Node> = Vec::new();
    match value {
        Json::Object(fields) => {
            let kind = read_kind(value);
            if kind.as_str().unicode_len() > 0 {
                let node = read_node(lines, value);
                proof {
                    nodes_grow(lines@, Seq::empty(), r@, json_model(*value), node);
                    assert(Seq::<JsonModel>::empty().push(json_model(*value)) =~= seq![json_model(*value)]);
                }
                r.push(node);
                r
            } else {
                assert(decreases_to!(*value => value->Object_0));
                read_fields(lines, fields)
            }
        },
        Json::List(items) => {
            assert(decreases_to!(*value => value->List_0));
            read_items(lines, items)
        },
        _ => r,
    }
}

fn read_items(lines: &Vec<u32>, items: &Vec<Json>) -> (r: Vec<Node>)
    ensures
        nodes_are(lines@, trees_in_items(items_model(items@)), r@),
    decreases items@, 0nat,
{
    let ghost all = items_model(items@);
    let mut r: Vec<Node> = Vec::new();
    let mut i: usize = 0;
    proof {
        items_model_places(items@);
    }
    while i < items.len()
        invariant
            i <= items.len(),
            all == items_model(items@),
            all.len() == items@.len(),
            forall|k: int| 0 <= k < items@.len() ==> #[trigger] all[k] == json_model(items@[k]),
            nodes_are(lines@, trees_in_items(all.take(i as int)), r@),
        decreases items.len() - i,
    {
        assert(decreases_to!(items@ => items@[i as int]));
        let mut more = read_trees(lines, &items[i]);
        proof {
            nodes_join(lines@, trees_in_items(all.take(i as int)), r@, trees_in(all[i as int]), more@);
            assert(all.take(i + 1).drop_last() =~= all.take(i as int));
        }
        r.append(&mut more);
        i += 1;
    }
    assert(all.take(all.len() as int) =~= all);
    r
}

fn read_fields(lines: &Vec<u32>, fields: &Vec<(String, Json)>) -> (r: Vec<Node>)
    ensures
        nodes_are(lines@, trees_in_fields(fields_model(fields@)), r@),
    decreases fields@, 0nat,
{
    let ghost all = fields_model(fields@);
    let mut r: Vec<Node> = Vec::new();
    let mut i: usize = 0;
    proof {
        fields_model_places(fields@);
    }
    while i < fields.len()
        invariant
            i <= fields.len(),
            all == fields_model(fields@),
            all.len() == fields@.len(),
            forall|k: int| 0 <= k < fields@.len() ==> #[trigger] all[k] == (fields@[k].0@, json_model(fields@[k].1)),
            nodes_are(lines@, trees_in_fields(all.take(i as int)), r@),
        decreases fields.len() - i,
    {
        assert(decreases_to!(fields@ => fields@[i as int].1)) by {
            assert(decreases_to!(fields@ => fields@[i as int]));
            assert(decreases_to!(fields@[i as int] => fields@[i as int].1));
        }
        let mut more = read_trees(lines, &fields[i].1);
        proof {
            nodes_join(lines@, trees_in_fields(all.take(i as int)), r@, trees_in(all[i as int].1), more@);
            assert(all.take(i + 1).drop_last() =~= all.take(i as int));
        }
        r.append(&mut more);
        i += 1;
    }
    assert(all.take(all.len() as int) =~= all);
    r
}

fn read_trees_at(lines: &Vec<u32>, tree: &Json, name: &str) -> (r: Vec<Node>)
    ensures
        nodes_are(lines@, trees_in(part(json_model(*tree), name@)), r@),
    decreases *tree, 2nat,
{
    match get_member(tree, name) {
        Some(value) => read_trees(lines, value),
        None => Vec::new(),
    }
}

/// The nodes of the outermost trees below a tree.
fn read_within(lines: &Vec<u32>, tree: &Json) -> (r: Vec<Node>)
    ensures
        nodes_are(lines@, trees_within(json_model(*tree)), r@),
    decreases *tree, 1nat,
{
    match tree {
        Json::Object(fields) => {
            assert(decreases_to!(*tree => tree->Object_0));
            read_fields(lines, fields)
        },
        _ => Vec::new(),
    }
}

fn read_within_at(lines: &Vec<u32>, tree: &Json, name: &str) -> (r: Vec<Node>)
    ensures
        nodes_are(lines@, trees_within(part(json_model(*tree), name@)), r@),
    decreases *tree, 2nat,
{
    match get_member(tree, name) {
        Some(value) => read_within(lines, value),
        None => Vec::new(),
    }
}

// ---------------------------------------------------------------------------
// Nodes
// ---------------------------------------------------------------------------

fn is_access_kind(kind: &str) -> (r: bool)
    ensures
        r == is_access(kind@),
{
    same(kind, "MemberExpression") || same(kind, "OptionalChainingExpression") || same(kind, "CallExpression") || same(
        kind,
        "NewExpression",
    )
}

fn wrapper_for(kind: &str) -> (r: Option<(Wrapper, &'static str)>)
    ensures
        match r {
            Some((wrapper, name)) => wrapper_of(kind@) == Some((wrapper, name@)),
            None => wrapper_of(kind@) is None,
        },
{
    if same(kind, "ParenthesisExpression") {
        Some((Wrapper::Paren, "expression"))
    } else if same(kind, "TsAsExpression") {
        Some((Wrapper::As, "expression"))
    } else if same(kind, "TsConstAssertion") {
        Some((Wrapper::ConstAssertion, "expression"))
    } else if same(kind, "TsSatisfiesExpression") {
        Some((Wrapper::Satisfies, "expression"))
    } else if same(kind, "TsNonNullExpression") {
        Some((Wrapper::NonNull, "expression"))
    } else if same(kind, "AwaitExpression") {
        Some((Wrapper::Await, "argument"))
    } else {
        None
    }
}

fn is_operation_kind(kind: &str) -> (r: bool)
    ensures
        r == is_operation(kind@),
{
    same(kind, "BinaryExpression") || same(kind, "ConditionalExpression") || same(kind, "AssignmentExpression") || same(
        kind,
        "ObjectExpression",
    )
}

fn is_callable_kind(kind: &str) -> (r: bool)
    ensures
        r == is_callable(kind@),
{
    same(kind, "FunctionExpression") || same(kind, "FunctionDeclaration") || same(kind, "ArrowFunctionExpression") || same(
        kind,
        "MethodProperty",
    ) || same(kind, "GetterProperty") || same(kind, "SetterProperty") || same(kind, "PrivateMethod")
}

fn is_class_part_kind(kind: &str) -> (r: bool)
    ensures
        r == is_class_part(kind@),
{
    same(kind, "ClassExpression") || same(kind, "ClassDeclaration") || same(kind, "ClassProperty") || same(
        kind,
        "ClassMethod",
    ) || same(kind, "Constructor")
}

fn is_statement_kind(kind: &str) -> (r: bool)
    ensures
        r == is_statement(kind@),
{
    same(kind, "VariableDeclaration") || same(kind, "VariableDeclarator") || same(kind, "ReturnStatement")
}

/// The node that a tree says.
pub fn read_node(lines: &Vec<u32>, tree: &Json) -> (r: Node)
    ensures
        node_is(lines@, json_model(*tree), r),
    decreases *tree, 10nat,
{
    let kind = read_kind(tree);
    let kind = kind.as_str();
    if same(kind, "Identifier") {
        Node::Ident(read_ident(tree))
    } else if same(kind, "ThisExpression") {
        Node::This
    } else if same(kind, "StringLiteral") {
        Node::Text(read_literal(tree))
    } else if is_access_kind(kind) {
        read_access(lines, tree, kind)
    } else {
        match wrapper_for(kind) {
            Some((wrapper, name)) => Node::Wrapped { wrapper, inner: Box::new(read_node_at(lines, tree, name)) },
            None => if is_operation_kind(kind) {
                read_operation(lines, tree, kind)
            } else if is_callable_kind(kind) {
                read_callable(lines, tree, kind)
            } else if is_class_part_kind(kind) {
                read_class_part(lines, tree, kind)
            } else if is_statement_kind(kind) {
                read_statement(lines, tree, kind)
            } else {
                Node::Other(read_within(lines, tree))
            },
        }
    }
}

/// The node of what is left out.
fn no_node(lines: &Vec<u32>) -> (r: Node)
    ensures
        node_is(lines@, JsonModel::Null, r),
{
    let inner: Vec<Node> = Vec::new();
    proof {
        nothing_has_a_kind();
        assert(!is_known(kind_of(JsonModel::Null)));
        assert(nodes_are(lines@, trees_within(JsonModel::Null), inner@));
    }
    Node::Other(inner)
}

fn read_node_at(lines: &Vec<u32>, tree: &Json, name: &str) -> (r: Node)
    ensures
        node_is(lines@, part(json_model(*tree), name@), r),
    decreases *tree, 2nat,
{
    match get_member(tree, name) {
        Some(value) => read_node(lines, value),
        None => no_node(lines),
    }
}

fn read_optional_at(lines: &Vec<u32>, tree: &Json, name: &str) -> (r: Option<Box<Node>>)
    ensures
        optional_is(lines@, part(json_model(*tree), name@), r),
    decreases *tree, 2nat,
{
    match get_member(tree, name) {
        None => None,
        Some(Json::Null) => None,
        Some(value) => Some(Box::new(read_node(lines, value))),
    }
}

fn read_access(lines: &Vec<u32>, tree: &Json, kind: &str) -> (r: Node)
    requires
        kind@ == kind_of(json_model(*tree)),
    ensures
        access_is(lines@, json_model(*tree), r),
    decreases *tree, 5nat,
{
    if same(kind, "MemberExpression") {
        read_member(lines, tree)
    } else if same(kind, "OptionalChainingExpression") {
        read_chain(lines, tree)
    } else if same(kind, "CallExpression") {
        read_call(lines, tree)
    } else {
        Node::New {
            callee: Box::new(read_node_at(lines, tree, "callee")),
            args: read_args_at(lines, tree, "arguments"),
        }
    }
}

fn read_member(lines: &Vec<u32>, tree: &Json) -> (r: Node)
    requires
        kind_of(json_model(*tree)) == "MemberExpression"@,
    ensures
        access_is(lines@, json_model(*tree), r),
    decreases *tree, 4nat,
{
    let object = Box::new(read_node_at(lines, tree, "object"));
    match get_member(tree, "property") {
        Some(property) => {
            let kind = read_kind(property);
            if same(kind.as_str(), "Identifier") {
                Node::Member { object, property: read_text(property, "value") }
            } else if same(kind.as_str(), "PrivateName") {
                Node::PrivateMember { object }
            } else {
                Node::Index { object, index: Box::new(read_node_at(lines, property, "expression")) }
            }
        },
        None => {
            proof {
                nothing_has_a_kind();
                assert(!is_known(kind_of(JsonModel::Null)));
            }
            Node::Index { object, index: Box::new(no_node(lines)) }
        },
    }
}

fn read_chain(lines: &Vec<u32>, tree: &Json) -> (r: Node)
    requires
        kind_of(json_model(*tree)) == "OptionalChainingExpression"@,
        kind_of(json_model(*tree)) != "MemberExpression"@,
    ensures
        access_is(lines@, json_model(*tree), r),
    decreases *tree, 4nat,
{
    match get_member(tree, "base") {
        Some(base) => {
            let kind = read_kind(base);
            if !same(kind.as_str(), "MemberExpression") {
                return Node::OptCall {
                    line: read_line(lines, tree),
                    callee: Box::new(read_node_at(lines, base, "callee")),
                    args: read_args_at(lines, base, "arguments"),
                };
            }
            match get_member(base, "property") {
                Some(property) => {
                    let kind = read_kind(property);
                    if same(kind.as_str(), "Identifier") {
                        return Node::OptMember {
                            object: Box::new(read_node_at(lines, base, "object")),
                            property: read_text(property, "value"),
                        };
                    }
                },
                None => {
                    proof {
                        nothing_has_a_kind();
                        assert(!is_known(kind_of(JsonModel::Null)));
                    }
                },
            }
            Node::Other(read_within(lines, base))
        },
        None => {
            proof {
                nothing_has_a_kind();
                assert(!is_known(kind_of(JsonModel::Null)));
            }
            Node::OptCall {
                line: read_line(lines, tree),
                callee: Box::new(no_node(lines)),
                args: Vec::new(),
            }
        },
    }
}

fn read_call(lines: &Vec<u32>, tree: &Json) -> (r: Node)
    requires
        kind_of(json_model(*tree)) == "CallExpression"@,
        kind_of(json_model(*tree)) != "MemberExpression"@,
        kind_of(json_model(*tree)) != "OptionalChainingExpression"@,
    ensures
        access_is(lines@, json_model(*tree), r),
    decreases *tree, 4nat,
{
    let args = read_args_at(lines, tree, "arguments");
    match get_member(tree, "callee") {
        Some(callee) => {
            let kind = read_kind(callee);
            if same(kind.as_str(), "Import") {
                return Node::ImportCall { args };
            } else if same(kind.as_str(), "Super") {
                return Node::Other(args);
            }
        },
        None => {
            proof {
                nothing_has_a_kind();
                assert(!is_known(kind_of(JsonModel::Null)));
            }
        },
    }
    Node::Call { line: read_line(lines, tree), callee: Box::new(read_node_at(lines, tree, "callee")), args }
}

fn read_operation(lines: &Vec<u32>, tree: &Json, kind: &str) -> (r: Node)
    requires
        kind@ == kind_of(json_model(*tree)),
    ensures
        operation_is(lines@, json_model(*tree), r),
    decreases *tree, 5nat,
{
    if same(kind, "BinaryExpression") {
        let word = read_text(tree, "operator");
        Node::Binary {
            op: if same(word.as_str(), "??") {
                BinaryOp::NullishCoalescing
            } else if same(word.as_str(), "||") {
                BinaryOp::LogicalOr
            } else {
                BinaryOp::Other
            },
            left: Box::new(read_node_at(lines, tree, "left")),
            right: Box::new(read_node_at(lines, tree, "right")),
        }
    } else if same(kind, "ConditionalExpression") {
        Node::Cond {
            test: Box::new(read_node_at(lines, tree, "test")),
            consequent: Box::new(read_node_at(lines, tree, "consequent")),
            alternate: Box::new(read_node_at(lines, tree, "alternate")),
        }
    } else if same(kind, "AssignmentExpression") {
        let value = Box::new(read_node_at(lines, tree, "right"));
        let target = if is_named_member_at(tree, "left") {
            read_node_at(lines, tree, "left")
        } else {
            Node::Other(read_within_at(lines, tree, "left"))
        };
        Node::Assign { target: Box::new(target), value }
    } else {
        match read_list(tree, "properties") {
            Some(props) => Node::Object(read_props(lines, props)),
            None => Node::Object(Vec::new()),
        }
    }
}

fn is_named_member_at(tree: &Json, name: &str) -> (r: bool)
    ensures
        r == is_named_member(part(json_model(*tree), name@)),
{
    proof {
        nothing_has_a_kind();
        assert(!is_known(kind_of(JsonModel::Null)));
    }
    match get_member(tree, name) {
        Some(target) => {
            let kind = read_kind(target);
            if same(kind.as_str(), "MemberExpression") {
                match get_member(target, "property") {
                    Some(property) => {
                        let kind = read_kind(property);
                        same(kind.as_str(), "Identifier")
                    },
                    None => false,
                }
            } else {
                false
            }
        },
        None => false,
    }
}

fn read_function(lines: &Vec<u32>, tree: &Json) -> (r: Function)
    ensures
        function_is(lines@, json_model(*tree), r),
    decreases *tree, 4nat,
{
    let mut inner = read_trees_at(lines, tree, "params");
    let mut decorators = read_trees_at(lines, tree, "decorators");
    proof {
        nodes_join(
            lines@,
            trees_in(part(json_model(*tree), "params"@)),
            inner@,
            trees_in(part(json_model(*tree), "decorators"@)),
            decorators@,
        );
    }
    inner.append(&mut decorators);
    let body = match get_member(tree, "body") {
        None => None,
        Some(Json::Null) => None,
        Some(body) => Some(read_nodes_at(lines, body, "stmts")),
    };
    Function { inner, body, return_type: read_annotation(tree, "returnType") }
}

fn read_callable(lines: &Vec<u32>, tree: &Json, kind: &str) -> (r: Node)
    requires
        kind@ == kind_of(json_model(*tree)),
    ensures
        callable_is(lines@, json_model(*tree), r),
    decreases *tree, 5nat,
{
    if same(kind, "FunctionExpression") {
        Node::Function(read_function(lines, tree))
    } else if same(kind, "FunctionDeclaration") {
        Node::FnDecl { name: read_ident_at(tree, "identifier"), function: read_function(lines, tree) }
    } else if same(kind, "ArrowFunctionExpression") {
        read_arrow(lines, tree)
    } else {
        let mut inner = read_within_at(lines, tree, "key");
        let ghost before = inner@;
        let function = if same(kind, "MethodProperty") {
            read_function(lines, tree)
        } else {
            read_function_at(lines, tree, "function")
        };
        inner.push(Node::Function(function));
        assert(inner@.drop_last() =~= before);
        Node::Other(inner)
    }
}

fn read_function_at(lines: &Vec<u32>, tree: &Json, name: &str) -> (r: Function)
    ensures
        function_is(lines@, part(json_model(*tree), name@), r),
    decreases *tree, 2nat,
{
    match get_member(tree, name) {
        Some(function) => read_function(lines, function),
        None => {
            let r = Function { inner: Vec::new(), body: None, return_type: None };
            assert(Seq::<JsonModel>::empty() + Seq::<JsonModel>::empty() =~= Seq::<JsonModel>::empty());
            r
        },
    }
}

fn read_arrow(lines: &Vec<u32>, tree: &Json) -> (r: Node)
    requires
        kind_of(json_model(*tree)) == "ArrowFunctionExpression"@,
        kind_of(json_model(*tree)) != "FunctionExpression"@,
        kind_of(json_model(*tree)) != "FunctionDeclaration"@,
    ensures
        callable_is(lines@, json_model(*tree), r),
    decreases *tree, 4nat,
{
    let inner = read_trees_at(lines, tree, "params");
    let return_type = read_annotation(tree, "returnType");
    match get_member(tree, "body") {
        Some(body) => {
            let kind = read_kind(body);
            if same(kind.as_str(), "FunctionBody") {
                return Node::Arrow(Function { inner, body: Some(read_nodes_at(lines, body, "stmts")), return_type });
            }
        },
        None => {
            proof {
                nothing_has_a_kind();
                assert(!is_known(kind_of(JsonModel::Null)));
            }
        },
    }
    Node::ArrowValue { inner, value: Box::new(read_node_at(lines, tree, "body")), return_type }
}

fn read_class(lines: &Vec<u32>, tree: &Json) -> (r: Class)
    ensures
        class_is(lines@, json_model(*tree), r),
    decreases *tree, 4nat,
{
    let decorators = read_trees_at(lines, tree, "decorators");
    let members = read_nodes_at(lines, tree, "body");
    let mut extends: Vec<Node> = Vec::new();
    match get_member(tree, "superClass") {
        None => {},
        Some(Json::Null) => {},
        Some(base) => {
            let node = read_node(lines, base);
            proof {
                nodes_grow(lines@, Seq::empty(), extends@, json_model(*base), node);
                assert(Seq::<JsonModel>::empty().push(json_model(*base)) =~= seq![json_model(*base)]);
            }
            extends.push(node);
        },
    }
    Class { decorators, members, extends }
}

fn read_params(tree: &Json, name: &str) -> (r: Vec<Option<Ident>>)
    ensures
        params_are(items_at(json_model(*tree), name@), r@),
{
    let mut r: Vec<Option<Ident>> = Vec::new();
    match read_list(tree, name) {
        Some(trees) => {
            let ghost all = items_model(trees@);
            let mut i: usize = 0;
            proof {
                items_model_places(trees@);
            }
            while i < trees.len()
                invariant
                    i <= trees.len(),
                    r.len() == i,
                    all == items_model(trees@),
                    all.len() == trees@.len(),
                    forall|k: int| 0 <= k < trees@.len() ==> #[trigger] all[k] == json_model(trees@[k]),
                    forall|k: int| 0 <= k < i ==> param_is(all[k], #[trigger] r@[k]),
                decreases trees.len() - i,
            {
                assert(all[i as int] == json_model(trees@[i as int]));
                let param = read_param(&trees[i]);
                r.push(param);
                i += 1;
            }
        },
        None => {},
    }
    r
}

fn read_param(tree: &Json) -> (r: Option<Ident>)
    ensures
        param_is(json_model(*tree), r),
{
    proof {
        nothing_has_a_kind();
        assert(!is_known(kind_of(JsonModel::Null)));
    }
    let kind = read_kind(tree);
    if same(kind.as_str(), "Parameter") {
        match get_member(tree, "pat") {
            Some(pattern) => {
                let kind = read_kind(pattern);
                if same(kind.as_str(), "Identifier") {
                    Some(read_ident(pattern))
                } else {
                    None
                }
            },
            None => None,
        }
    } else {
        None
    }
}

fn read_class_part(lines: &Vec<u32>, tree: &Json, kind: &str) -> (r: Node)
    requires
        kind@ == kind_of(json_model(*tree)),
    ensures
        class_part_is(lines@, json_model(*tree), r),
    decreases *tree, 5nat,
{
    if same(kind, "ClassExpression") {
        Node::Class { name: read_name(tree, "identifier"), class: read_class(lines, tree) }
    } else if same(kind, "ClassDeclaration") {
        Node::ClassDecl { name: read_ident_at(tree, "identifier"), class: read_class(lines, tree) }
    } else if same(kind, "ClassProperty") {
        Node::ClassProp {
            key: read_key(tree, "key"),
            inner: read_within_at(lines, tree, "key"),
            value: read_optional_at(lines, tree, "value"),
            decorators: read_trees_at(lines, tree, "decorators"),
            is_static: read_flag(tree, "isStatic"),
            declared: read_annotation(tree, "typeAnnotation"),
        }
    } else if same(kind, "ClassMethod") {
        let word = read_text(tree, "kind");
        Node::Method {
            key: read_key(tree, "key"),
            inner: read_within_at(lines, tree, "key"),
            function: read_function_at(lines, tree, "function"),
            kind: if same(word.as_str(), "getter") {
                MethodKind::Getter
            } else if same(word.as_str(), "setter") {
                MethodKind::Setter
            } else {
                MethodKind::Method
            },
            is_static: read_flag(tree, "isStatic"),
        }
    } else {
        Node::Constructor { params: read_params(tree, "params"), inner: read_within(lines, tree) }
    }
}

fn read_pattern_prop(tree: &Json) -> (r: PatternProp)
    ensures
        pattern_prop_is(json_model(*tree), r),
{
    let kind = read_kind(tree);
    if same(kind.as_str(), "AssignmentPatternProperty") {
        PatternProp::Assign(read_ident_at(tree, "key"))
    } else if same(kind.as_str(), "KeyValuePatternProperty") {
        proof {
            nothing_has_a_kind();
            assert(!is_known(kind_of(JsonModel::Null)));
        }
        let key = read_key(tree, "key");
        let local = match get_member(tree, "value") {
            Some(value) => {
                let kind = read_kind(value);
                if same(kind.as_str(), "Identifier") {
                    Some(read_ident(value))
                } else {
                    None
                }
            },
            None => None,
        };
        PatternProp::KeyValue { key, local }
    } else {
        PatternProp::Rest
    }
}

fn read_pattern_props(tree: &Json, name: &str) -> (r: Vec<PatternProp>)
    ensures
        pattern_props_are(items_at(json_model(*tree), name@), r@),
{
    let mut r: Vec<PatternProp> = Vec::new();
    match read_list(tree, name) {
        Some(trees) => {
            let ghost all = items_model(trees@);
            let mut i: usize = 0;
            proof {
                items_model_places(trees@);
            }
            while i < trees.len()
                invariant
                    i <= trees.len(),
                    r.len() == i,
                    all == items_model(trees@),
                    all.len() == trees@.len(),
                    forall|k: int| 0 <= k < trees@.len() ==> #[trigger] all[k] == json_model(trees@[k]),
                    forall|k: int| 0 <= k < i ==> pattern_prop_is(all[k], #[trigger] r@[k]),
                decreases trees.len() - i,
            {
                assert(all[i as int] == json_model(trees@[i as int]));
                let prop = read_pattern_prop(&trees[i]);
                r.push(prop);
                i += 1;
            }
        },
        None => {},
    }
    r
}

fn read_pattern_at(lines: &Vec<u32>, tree: &Json, name: &str) -> (r: Pattern)
    ensures
        pattern_is(lines@, part(json_model(*tree), name@), r),
    decreases *tree, 4nat,
{
    match get_member(tree, name) {
        Some(pattern) => {
            let kind = read_kind(pattern);
            if same(kind.as_str(), "Identifier") {
                Pattern::Name(read_ident(pattern))
            } else if same(kind.as_str(), "ObjectPattern") {
                Pattern::Object { props: read_pattern_props(pattern, "properties"), inner: read_within(lines, pattern) }
            } else {
                Pattern::Other(read_within(lines, pattern))
            }
        },
        None => {
            proof {
                nothing_has_a_kind();
                assert(!is_known(kind_of(JsonModel::Null)));
            }
            Pattern::Other(Vec::new())
        },
    }
}

fn read_statement(lines: &Vec<u32>, tree: &Json, kind: &str) -> (r: Node)
    requires
        kind@ == kind_of(json_model(*tree)),
    ensures
        statement_is(lines@, json_model(*tree), r),
    decreases *tree, 5nat,
{
    if same(kind, "VariableDeclaration") {
        Node::VarDecl(read_nodes_at(lines, tree, "declarations"))
    } else if same(kind, "VariableDeclarator") {
        Node::Declarator { pattern: read_pattern_at(lines, tree, "id"), init: read_optional_at(lines, tree, "init") }
    } else {
        Node::Return(read_optional_at(lines, tree, "argument"))
    }
}

// ---------------------------------------------------------------------------
// Modules
// ---------------------------------------------------------------------------

fn read_spelled(tree: &Json) -> (r: String)
    ensures
        r@ == spelled(json_model(*tree)),
{
    let kind = read_kind(tree);
    if same(kind.as_str(), "StringLiteral") {
        read_literal(tree)
    } else {
        read_text(tree, "value")
    }
}

fn read_spelled_at(tree: &Json, name: &str) -> (r: Option<String>)
    ensures
        spelled_is(part(json_model(*tree), name@), r),
{
    match get_member(tree, name) {
        None => None,
        Some(Json::Null) => None,
        Some(spelled) => Some(read_spelled(spelled)),
    }
}

fn read_source(tree: &Json) -> (r: String)
    ensures
        r@ == literal_of(part(json_model(*tree), "source"@)),
{
    match get_member(tree, "source") {
        Some(source) => read_literal(source),
        None => {
            let none = Json::Null;
            read_literal(&none)
        },
    }
}

fn read_import(tree: &Json) -> (r: ImportSpecifier)
    ensures
        import_is(json_model(*tree), r),
{
    let kind = read_kind(tree);
    let local = read_ident_at(tree, "local");
    if same(kind.as_str(), "ImportDefaultSpecifier") {
        ImportSpecifier::Default { local }
    } else if same(kind.as_str(), "ImportNamespaceSpecifier") {
        ImportSpecifier::Namespace { local }
    } else {
        ImportSpecifier::Named {
            local,
            imported: read_spelled_at(tree, "imported"),
            type_only: read_flag(tree, "isTypeOnly"),
        }
    }
}

fn read_imports(tree: &Json, name: &str) -> (r: Vec<ImportSpecifier>)
    ensures
        imports_are(items_at(json_model(*tree), name@), r@),
{
    let mut r: Vec<ImportSpecifier> = Vec::new();
    match read_list(tree, name) {
        Some(trees) => {
            let ghost all = items_model(trees@);
            let mut i: usize = 0;
            proof {
                items_model_places(trees@);
            }
            while i < trees.len()
                invariant
                    i <= trees.len(),
                    r.len() == i,
                    all == items_model(trees@),
                    all.len() == trees@.len(),
                    forall|k: int| 0 <= k < trees@.len() ==> #[trigger] all[k] == json_model(trees@[k]),
                    forall|k: int| 0 <= k < i ==> import_is(all[k], #[trigger] r@[k]),
                decreases trees.len() - i,
            {
                assert(all[i as int] == json_model(trees@[i as int]));
                let specifier = read_import(&trees[i]);
                r.push(specifier);
                i += 1;
            }
        },
        None => {},
    }
    r
}

fn read_export_name_at(tree: &Json, name: &str) -> (r: ExportName)
    ensures
        export_name_is(part(json_model(*tree), name@), r),
{
    match get_member(tree, name) {
        Some(name) => {
            let kind = read_kind(name);
            if same(kind.as_str(), "StringLiteral") {
                ExportName::Text(read_literal(name))
            } else {
                ExportName::Ident(read_ident(name))
            }
        },
        None => {
            proof {
                nothing_has_a_kind();
                assert(!is_known(kind_of(JsonModel::Null)));
            }
            ExportName::Ident(read_ident_at(tree, name))
        },
    }
}

fn read_export(tree: &Json) -> (r: ExportSpecifier)
    ensures
        export_is(json_model(*tree), r),
{
    let kind = read_kind(tree);
    if same(kind.as_str(), "ExportNamespaceSpecifier") {
        ExportSpecifier::Namespace { name: read_export_name_at(tree, "name") }
    } else if same(kind.as_str(), "ExportSpecifier") {
        ExportSpecifier::Named {
            original: read_export_name_at(tree, "orig"),
            exported: read_spelled_at(tree, "exported"),
            type_only: read_flag(tree, "isTypeOnly"),
        }
    } else {
        ExportSpecifier::Default
    }
}

fn read_exports(tree: &Json, name: &str) -> (r: Vec<ExportSpecifier>)
    ensures
        exports_are(items_at(json_model(*tree), name@), r@),
{
    let mut r: Vec<ExportSpecifier> = Vec::new();
    match read_list(tree, name) {
        Some(trees) => {
            let ghost all = items_model(trees@);
            let mut i: usize = 0;
            proof {
                items_model_places(trees@);
            }
            while i < trees.len()
                invariant
                    i <= trees.len(),
                    r.len() == i,
                    all == items_model(trees@),
                    all.len() == trees@.len(),
                    forall|k: int| 0 <= k < trees@.len() ==> #[trigger] all[k] == json_model(trees@[k]),
                    forall|k: int| 0 <= k < i ==> export_is(all[k], #[trigger] r@[k]),
                decreases trees.len() - i,
            {
                assert(all[i as int] == json_model(trees@[i as int]));
                let specifier = read_export(&trees[i]);
                r.push(specifier);
                i += 1;
            }
        },
        None => {},
    }
    r
}

fn read_default(lines: &Vec<u32>, tree: &Json) -> (r: ModuleItem)
    ensures
        default_is(lines@, json_model(*tree), r),
{
    let kind = read_kind(tree);
    if same(kind.as_str(), "ClassExpression") || same(kind.as_str(), "FunctionExpression") {
        ModuleItem::ExportDefault { name: read_name(tree, "identifier"), decl: read_node(lines, tree) }
    } else {
        ModuleItem::Statement(Node::Other(read_within(lines, tree)))
    }
}

fn read_item(lines: &Vec<u32>, tree: &Json) -> (r: ModuleItem)
    ensures
        item_is(lines@, json_model(*tree), r),
{
    let kind = read_kind(tree);
    let kind = kind.as_str();
    if same(kind, "ImportDeclaration") {
        ModuleItem::Import {
            source: read_source(tree),
            type_only: read_flag(tree, "typeOnly"),
            specifiers: read_imports(tree, "specifiers"),
        }
    } else if same(kind, "ExportNamedDeclaration") {
        ModuleItem::ExportNamed {
            source: read_spelled_at(tree, "source"),
            type_only: read_flag(tree, "typeOnly"),
            specifiers: read_exports(tree, "specifiers"),
        }
    } else if same(kind, "ExportAllDeclaration") {
        ModuleItem::ExportAll { source: read_source(tree), type_only: read_flag(tree, "typeOnly") }
    } else if same(kind, "ExportDeclaration") {
        ModuleItem::ExportDecl(read_node_at(lines, tree, "declaration"))
    } else if same(kind, "ExportDefaultDeclaration") {
        match get_member(tree, "decl") {
            Some(decl) => read_default(lines, decl),
            None => {
                let none = Json::Null;
                read_default(lines, &none)
            },
        }
    } else if same(kind, "ExportDefaultExpression") {
        ModuleItem::ExportDefaultExpr(read_node_at(lines, tree, "expression"))
    } else {
        ModuleItem::Statement(read_node(lines, tree))
    }
}

/// The module that the tree of a whole file says.
pub fn read_module(lines: &Vec<u32>, tree: &Json) -> (r: Module)
    ensures
        module_is(lines@, json_model(*tree), r),
{
    let mut items: Vec<ModuleItem> = Vec::new();
    match read_list(tree, "body") {
        Some(trees) => {
            let ghost all = items_model(trees@);
            let mut i: usize = 0;
            proof {
                items_model_places(trees@);
            }
            while i < trees.len()
                invariant
                    i <= trees.len(),
                    items.len() == i,
                    all == items_model(trees@),
                    all.len() == trees@.len(),
                    forall|k: int| 0 <= k < trees@.len() ==> #[trigger] all[k] == json_model(trees@[k]),
                    forall|k: int| 0 <= k < i ==> item_is(lines@, all[k], #[trigger] items@[k]),
                decreases trees.len() - i,
            {
                assert(all[i as int] == json_model(trees@[i as int]));
                let item = read_item(lines, &trees[i]);
                items.push(item);
                i += 1;
            }
        },
        None => {},
    }
    Module { items }
}

} // verus!
