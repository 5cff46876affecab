//! Syntax trees as the parser spells them out, and how they are read.
//!
//! A tree is a JSON object whose `type` names its kind. What a [`Node`] has to
//! be for a tree is said by [`node_is`]; [`read_node`](super::reader::read_node) gives that node.

use crate::json::{field_named, member, JsonModel};
use crate::syntax::{
    BinaryOp, Class, ExportName, ExportSpecifier, Function, Ident, ImportSpecifier, MethodKind, Module, ModuleItem, Node,
    Pattern, PatternProp, PropKey, TypeAnnotation, Wrapper,
};
use crate::text::is_ascii_digit;
use vstd::prelude::*;

verus! {

// ---------------------------------------------------------------------------
// The parts of a tree
// ---------------------------------------------------------------------------

/// A part of a tree; nothing where the tree has none of that name.
pub open spec fn part(tree: JsonModel, name: Seq<char>) -> JsonModel {
    match member(tree, name) {
        Some(value) => value,
        None => JsonModel::Null,
    }
}

pub open spec fn text_at(tree: JsonModel, name: Seq<char>) -> Seq<char> {
    match part(tree, name) {
        JsonModel::Text(text) => text,
        _ => Seq::empty(),
    }
}

pub open spec fn flag_at(tree: JsonModel, name: Seq<char>) -> bool {
    part(tree, name) == JsonModel::Bool(true)
}

pub open spec fn number_at(tree: JsonModel, name: Seq<char>) -> u64 {
    match part(tree, name) {
        JsonModel::Number(n) => n,
        _ => 0,
    }
}

pub open spec fn items_at(tree: JsonModel, name: Seq<char>) -> Seq<JsonModel> {
    match part(tree, name) {
        JsonModel::List(items) => items,
        _ => Seq::empty(),
    }
}

pub open spec fn is_hex_digit(c: char) -> bool {
    is_ascii_digit(c) || 'a' <= c <= 'f' || 'A' <= c <= 'F'
}

/// A text begins with two backslashes in front of a `u` and four hexadecimal
/// digits.
pub open spec fn starts_escaped(s: Seq<char>) -> bool {
    s.len() >= 7 && s[0] == '\\' && s[1] == '\\' && s[2] == 'u' && forall|i: int|
        3 <= i < 7 ==> is_hex_digit(#[trigger] s[i])
}

/// What a string literal says. The parser doubles the backslash of a text that
/// would read as the code of half a character; here it is single again.
pub open spec fn unescaped(s: Seq<char>) -> Seq<char>
    decreases s.len(),
{
    if s.len() == 0 {
        Seq::empty()
    } else if starts_escaped(s) {
        s.subrange(1, 3) + unescaped(s.skip(3))
    } else {
        s.take(1) + unescaped(s.skip(1))
    }
}

/// What the string literal of a tree says.
pub open spec fn literal_of(tree: JsonModel) -> Seq<char> {
    unescaped(text_at(tree, "value"@))
}

/// The kind of a tree; empty for what is no tree.
pub open spec fn kind_of(tree: JsonModel) -> Seq<char> {
    text_at(tree, "type"@)
}

/// The line of a position: how many lines begin at it or before it.
pub open spec fn line_at(lines: Seq<u32>, position: u64) -> u32
    decreases lines.len(),
{
    if lines.len() == 0 {
        0
    } else if lines.last() <= position {
        lines.len() as u32
    } else {
        line_at(lines.drop_last(), position)
    }
}

/// The line on which a tree begins.
pub open spec fn line_of(lines: Seq<u32>, tree: JsonModel) -> u32 {
    line_at(lines, number_at(part(tree, "span"@), "start"@))
}

// ---------------------------------------------------------------------------
// The trees within a value
// ---------------------------------------------------------------------------

/// The outermost trees of a value, in order.
pub open spec fn trees_in(value: JsonModel) -> Seq<JsonModel>
    decreases value,
{
    match value {
        JsonModel::Object(fields) => if kind_of(value).len() > 0 {
            seq![value]
        } else {
            trees_in_fields(fields)
        },
        JsonModel::List(items) => trees_in_items(items),
        _ => Seq::empty(),
    }
}

pub open spec fn trees_in_items(items: Seq<JsonModel>) -> Seq<JsonModel>
    decreases items,
{
    if items.len() == 0 {
        Seq::empty()
    } else {
        trees_in_items(items.drop_last()) + trees_in(items[items.len() - 1])
    }
}

pub open spec fn trees_in_fields(fields: Seq<(Seq<char>, JsonModel)>) -> Seq<JsonModel>
    decreases fields,
{
    if fields.len() == 0 {
        Seq::empty()
    } else {
        trees_in_fields(fields.drop_last()) + trees_in(fields[fields.len() - 1].1)
    }
}

/// The outermost trees below a tree.
pub open spec fn trees_within(tree: JsonModel) -> Seq<JsonModel> {
    match tree {
        JsonModel::Object(fields) => trees_in_fields(fields),
        _ => Seq::empty(),
    }
}

// ---------------------------------------------------------------------------
// Names
// ---------------------------------------------------------------------------

pub open spec fn ident_is(tree: JsonModel, ident: Ident) -> bool {
    ident.symbol@ == text_at(tree, "value"@) && ident.context == number_at(tree, "ctxt"@) as u32
}

/// A name that may be left out.
pub open spec fn name_is(tree: JsonModel, name: Option<Ident>) -> bool {
    if tree is Null {
        name is None
    } else {
        name matches Some(ident) && ident_is(tree, ident)
    }
}

pub open spec fn key_is(tree: JsonModel, key: PropKey) -> bool {
    if kind_of(tree) == "Identifier"@ {
        key matches PropKey::Ident(name) && name@ == text_at(tree, "value"@)
    } else if kind_of(tree) == "StringLiteral"@ {
        key matches PropKey::Text(name) && name@ == literal_of(tree)
    } else {
        key is Other
    }
}

pub proof fn a_part_is_smaller(tree: JsonModel, name: Seq<char>)
    ensures
        member(tree, name) matches Some(value) ==> decreases_to!(tree => value),
{
    if let JsonModel::Object(fields) = tree {
        a_field_is_smaller(fields, name);
        if let Some(value) = member(tree, name) {
            assert(decreases_to!(tree => tree->Object_0));
        }
    }
}

pub proof fn a_field_is_smaller(fields: Seq<(Seq<char>, JsonModel)>, name: Seq<char>)
    ensures
        field_named(fields, name) matches Some(value) ==> decreases_to!(fields => value),
    decreases fields.len(),
{
    if fields.len() > 0 {
        if fields.last().0 == name {
            assert(decreases_to!(fields => fields[fields.len() - 1]));
            assert(decreases_to!(fields[fields.len() - 1] => fields[fields.len() - 1].1));
        } else {
            a_field_is_smaller(fields.drop_last(), name);
            assert(decreases_to!(fields => fields.drop_last()));
        }
    }
}

/// The names that a type's name is made of, split at its dots.
pub open spec fn type_names(tree: JsonModel) -> Seq<Seq<char>>
    decreases tree,
{
    if kind_of(tree) == "TsQualifiedName"@ && member(tree, "left"@) is Some {
        proof {
            a_part_is_smaller(tree, "left"@);
        }
        type_names(member(tree, "left"@)->0).push(text_at(part(tree, "right"@), "value"@))
    } else {
        seq![text_at(tree, "value"@)]
    }
}

pub open spec fn annotation_is(tree: JsonModel, declared: Option<TypeAnnotation>) -> bool {
    if tree is Null {
        declared is None
    } else {
        let named = part(tree, "typeAnnotation"@);
        if kind_of(named) == "TsTypeReference"@ {
            declared matches Some(TypeAnnotation::Reference(names)) && names.deep_view() == type_names(
                part(named, "typeName"@),
            )
        } else {
            declared matches Some(TypeAnnotation::Other)
        }
    }
}

// ---------------------------------------------------------------------------
// What a node has to be
// ---------------------------------------------------------------------------

pub open spec fn is_access(kind: Seq<char>) -> bool {
    ||| kind == "MemberExpression"@
    ||| kind == "OptionalChainingExpression"@
    ||| kind == "CallExpression"@
    ||| kind == "NewExpression"@
}

/// The wrapper of a kind, and the part that it stands around.
pub open spec fn wrapper_of(kind: Seq<char>) -> Option<(Wrapper, Seq<char>)> {
    if kind == "ParenthesisExpression"@ {
        Some((Wrapper::Paren, "expression"@))
    } else if kind == "TsAsExpression"@ {
        Some((Wrapper::As, "expression"@))
    } else if kind == "TsConstAssertion"@ {
        Some((Wrapper::ConstAssertion, "expression"@))
    } else if kind == "TsSatisfiesExpression"@ {
        Some((Wrapper::Satisfies, "expression"@))
    } else if kind == "TsNonNullExpression"@ {
        Some((Wrapper::NonNull, "expression"@))
    } else if kind == "AwaitExpression"@ {
        Some((Wrapper::Await, "argument"@))
    } else {
        None
    }
}

pub open spec fn is_operation(kind: Seq<char>) -> bool {
    ||| kind == "BinaryExpression"@
    ||| kind == "ConditionalExpression"@
    ||| kind == "AssignmentExpression"@
    ||| kind == "ObjectExpression"@
}

/// A kind with a function in it.
pub open spec fn is_callable(kind: Seq<char>) -> bool {
    ||| kind == "FunctionExpression"@
    ||| kind == "FunctionDeclaration"@
    ||| kind == "ArrowFunctionExpression"@
    ||| kind == "MethodProperty"@
    ||| kind == "GetterProperty"@
    ||| kind == "SetterProperty"@
    ||| kind == "PrivateMethod"@
}

pub open spec fn is_class_part(kind: Seq<char>) -> bool {
    ||| kind == "ClassExpression"@
    ||| kind == "ClassDeclaration"@
    ||| kind == "ClassProperty"@
    ||| kind == "ClassMethod"@
    ||| kind == "Constructor"@
}

pub open spec fn is_statement(kind: Seq<char>) -> bool {
    ||| kind == "VariableDeclaration"@
    ||| kind == "VariableDeclarator"@
    ||| kind == "ReturnStatement"@
}

/// A node is what a tree says. A kind that no pass asks about is the trees below
/// it.
pub open spec fn node_is(lines: Seq<u32>, tree: JsonModel, node: Node) -> bool
    decreases node, 1nat,
{
    let kind = kind_of(tree);
    if kind == "Identifier"@ {
        node matches Node::Ident(ident) && ident_is(tree, ident)
    } else if kind == "ThisExpression"@ {
        node is This
    } else if kind == "StringLiteral"@ {
        node matches Node::Text(text) && text@ == literal_of(tree)
    } else if is_access(kind) {
        access_is(lines, tree, node)
    } else if wrapper_of(kind) is Some {
        node matches Node::Wrapped { wrapper, inner } && wrapper == (wrapper_of(kind)->0).0 && node_is(
            lines,
            part(tree, (wrapper_of(kind)->0).1),
            *inner,
        )
    } else if is_operation(kind) {
        operation_is(lines, tree, node)
    } else if is_callable(kind) {
        callable_is(lines, tree, node)
    } else if is_class_part(kind) {
        class_part_is(lines, tree, node)
    } else if is_statement(kind) {
        statement_is(lines, tree, node)
    } else {
        node matches Node::Other(inner) && nodes_are(lines, trees_within(tree), inner@)
    }
}

pub open spec fn nodes_are(lines: Seq<u32>, trees: Seq<JsonModel>, nodes: Seq<Node>) -> bool
    decreases nodes, 0nat,
{
    trees.len() == nodes.len() && (nodes.len() == 0 || nodes_are(lines, trees.drop_last(), nodes.drop_last()) && node_is(
        lines,
        trees.last(),
        nodes[nodes.len() - 1],
    ))
}

/// A node that may be left out.
pub open spec fn optional_is(lines: Seq<u32>, tree: JsonModel, node: Option<Box<Node>>) -> bool
    decreases node, 0nat,
{
    if tree is Null {
        node is None
    } else {
        node matches Some(node) && node_is(lines, tree, *node)
    }
}

/// Arguments, of which some are spread.
pub open spec fn args_are(lines: Seq<u32>, trees: Seq<JsonModel>, nodes: Seq<Node>) -> bool
    decreases nodes, 0nat,
{
    trees.len() == nodes.len() && (nodes.len() == 0 || args_are(lines, trees.drop_last(), nodes.drop_last()) && arg_is(
        lines,
        trees.last(),
        nodes[nodes.len() - 1],
    ))
}

pub open spec fn arg_is(lines: Seq<u32>, tree: JsonModel, node: Node) -> bool
    decreases node, 2nat,
{
    let value = part(tree, "expression"@);
    if part(tree, "spread"@) is Null {
        node_is(lines, value, node)
    } else {
        node matches Node::Spread(inner) && node_is(lines, value, *inner)
    }
}

pub open spec fn access_is(lines: Seq<u32>, tree: JsonModel, node: Node) -> bool
    decreases node, 0nat,
{
    let kind = kind_of(tree);
    if kind == "MemberExpression"@ {
        let property = part(tree, "property"@);
        if kind_of(property) == "Identifier"@ {
            node matches Node::Member { object, property: name } && node_is(lines, part(tree, "object"@), *object) && name@
                == text_at(property, "value"@)
        } else if kind_of(property) == "PrivateName"@ {
            node matches Node::PrivateMember { object } && node_is(lines, part(tree, "object"@), *object)
        } else {
            node matches Node::Index { object, index } && node_is(lines, part(tree, "object"@), *object) && node_is(
                lines,
                part(property, "expression"@),
                *index,
            )
        }
    } else if kind == "OptionalChainingExpression"@ {
        let base = part(tree, "base"@);
        if kind_of(base) != "MemberExpression"@ {
            node matches Node::OptCall { line, callee, args } && line == line_of(lines, tree) && node_is(
                lines,
                part(base, "callee"@),
                *callee,
            ) && args_are(lines, items_at(base, "arguments"@), args@)
        } else if kind_of(part(base, "property"@)) == "Identifier"@ {
            node matches Node::OptMember { object, property } && node_is(lines, part(base, "object"@), *object) && property@
                == text_at(part(base, "property"@), "value"@)
        } else {
            node matches Node::Other(inner) && nodes_are(lines, trees_within(base), inner@)
        }
    } else if kind == "CallExpression"@ {
        let callee = part(tree, "callee"@);
        let given = items_at(tree, "arguments"@);
        if kind_of(callee) == "Import"@ {
            node matches Node::ImportCall { args } && args_are(lines, given, args@)
        } else if kind_of(callee) == "Super"@ {
            node matches Node::Other(args) && args_are(lines, given, args@)
        } else {
            node matches Node::Call { line, callee: called, args } && line == line_of(lines, tree) && node_is(
                lines,
                callee,
                *called,
            ) && args_are(lines, given, args@)
        }
    } else {
        node matches Node::New { callee, args } && node_is(lines, part(tree, "callee"@), *callee) && args_are(
            lines,
            items_at(tree, "arguments"@),
            args@,
        )
    }
}

pub open spec fn operator_of(word: Seq<char>) -> BinaryOp {
    if word == "??"@ {
        BinaryOp::NullishCoalescing
    } else if word == "||"@ {
        BinaryOp::LogicalOr
    } else {
        BinaryOp::Other
    }
}

/// A member that its name is written behind.
pub open spec fn is_named_member(tree: JsonModel) -> bool {
    kind_of(tree) == "MemberExpression"@ && kind_of(part(tree, "property"@)) == "Identifier"@
}

pub open spec fn operation_is(lines: Seq<u32>, tree: JsonModel, node: Node) -> bool
    decreases node, 0nat,
{
    let kind = kind_of(tree);
    if kind == "BinaryExpression"@ {
        node matches Node::Binary { op, left, right } && op == operator_of(text_at(tree, "operator"@)) && node_is(
            lines,
            part(tree, "left"@),
            *left,
        ) && node_is(lines, part(tree, "right"@), *right)
    } else if kind == "ConditionalExpression"@ {
        node matches Node::Cond { test, consequent, alternate } && node_is(lines, part(tree, "test"@), *test) && node_is(
            lines,
            part(tree, "consequent"@),
            *consequent,
        ) && node_is(lines, part(tree, "alternate"@), *alternate)
    } else if kind == "AssignmentExpression"@ {
        node matches Node::Assign { target, value } && node_is(lines, part(tree, "right"@), *value) && if is_named_member(
            part(tree, "left"@),
        ) {
            node_is(lines, part(tree, "left"@), *target)
        } else {
            *target matches Node::Other(inner) && nodes_are(lines, trees_within(part(tree, "left"@)), inner@)
        }
    } else {
        node matches Node::Object(props) && props_are(lines, items_at(tree, "properties"@), props@)
    }
}

/// The properties of an object literal.
pub open spec fn props_are(lines: Seq<u32>, trees: Seq<JsonModel>, nodes: Seq<Node>) -> bool
    decreases nodes, 0nat,
{
    trees.len() == nodes.len() && (nodes.len() == 0 || props_are(lines, trees.drop_last(), nodes.drop_last()) && prop_is(
        lines,
        trees.last(),
        nodes[nodes.len() - 1],
    ))
}

pub open spec fn prop_is(lines: Seq<u32>, tree: JsonModel, node: Node) -> bool
    decreases node, 2nat,
{
    let kind = kind_of(tree);
    if kind == "SpreadElement"@ {
        node matches Node::Spread(inner) && node_is(lines, part(tree, "arguments"@), *inner)
    } else if kind == "Identifier"@ {
        node matches Node::Shorthand(ident) && ident_is(tree, ident)
    } else if kind == "KeyValueProperty"@ {
        node matches Node::KeyValue { key, inner, value } && key_is(part(tree, "key"@), key) && nodes_are(
            lines,
            trees_within(part(tree, "key"@)),
            inner@,
        ) && node_is(lines, part(tree, "value"@), *value)
    } else {
        node_is(lines, tree, node)
    }
}

/// A function: what stands in its parameters and decorators, its statements, and
/// the type that it declares to return.
pub open spec fn function_is(lines: Seq<u32>, tree: JsonModel, function: Function) -> bool
    decreases function, 0nat,
{
    &&& nodes_are(
        lines,
        trees_in(part(tree, "params"@)) + trees_in(part(tree, "decorators"@)),
        function.inner@,
    )
    &&& annotation_is(part(tree, "returnType"@), function.return_type)
    &&& if part(tree, "body"@) is Null {
        function.body is None
    } else {
        function.body matches Some(body) && nodes_are(lines, items_at(part(tree, "body"@), "stmts"@), body@)
    }
}

pub open spec fn callable_is(lines: Seq<u32>, tree: JsonModel, node: Node) -> bool
    decreases node, 0nat,
{
    let kind = kind_of(tree);
    if kind == "FunctionExpression"@ {
        node matches Node::Function(function) && function_is(lines, tree, function)
    } else if kind == "FunctionDeclaration"@ {
        node matches Node::FnDecl { name, function } && ident_is(part(tree, "identifier"@), name) && function_is(
            lines,
            tree,
            function,
        )
    } else if kind == "ArrowFunctionExpression"@ {
        let body = part(tree, "body"@);
        if kind_of(body) == "FunctionBody"@ {
            node matches Node::Arrow(function) && nodes_are(lines, trees_in(part(tree, "params"@)), function.inner@)
                && annotation_is(part(tree, "returnType"@), function.return_type) && (function.body matches Some(stmts)
                && nodes_are(lines, items_at(body, "stmts"@), stmts@))
        } else {
            node matches Node::ArrowValue { inner, value, return_type } && nodes_are(
                lines,
                trees_in(part(tree, "params"@)),
                inner@,
            ) && annotation_is(part(tree, "returnType"@), return_type) && node_is(lines, body, *value)
        }
    } else {
        node matches Node::Other(inner) && inner@.len() > 0 && nodes_are(
            lines,
            trees_within(part(tree, "key"@)),
            inner@.drop_last(),
        ) && (inner@[inner@.len() - 1] matches Node::Function(function) && function_is(
            lines,
            if kind == "MethodProperty"@ {
                tree
            } else {
                part(tree, "function"@)
            },
            function,
        ))
    }
}

pub open spec fn class_is(lines: Seq<u32>, tree: JsonModel, class: Class) -> bool
    decreases class, 0nat,
{
    &&& nodes_are(lines, trees_in(part(tree, "decorators"@)), class.decorators@)
    &&& nodes_are(lines, items_at(tree, "body"@), class.members@)
    &&& if part(tree, "superClass"@) is Null {
        class.extends@.len() == 0
    } else {
        nodes_are(lines, seq![part(tree, "superClass"@)], class.extends@)
    }
}

pub open spec fn method_kind_of(word: Seq<char>) -> MethodKind {
    if word == "getter"@ {
        MethodKind::Getter
    } else if word == "setter"@ {
        MethodKind::Setter
    } else {
        MethodKind::Method
    }
}

/// A parameter of a constructor that is a plain name.
pub open spec fn param_is(tree: JsonModel, param: Option<Ident>) -> bool {
    if kind_of(tree) == "Parameter"@ && kind_of(part(tree, "pat"@)) == "Identifier"@ {
        param matches Some(ident) && ident_is(part(tree, "pat"@), ident)
    } else {
        param is None
    }
}

pub open spec fn params_are(trees: Seq<JsonModel>, params: Seq<Option<Ident>>) -> bool {
    trees.len() == params.len() && forall|i: int| 0 <= i < params.len() ==> param_is(trees[i], #[trigger] params[i])
}

pub open spec fn class_part_is(lines: Seq<u32>, tree: JsonModel, node: Node) -> bool
    decreases node, 0nat,
{
    let kind = kind_of(tree);
    if kind == "ClassExpression"@ {
        node matches Node::Class { name, class } && name_is(part(tree, "identifier"@), name) && class_is(lines, tree, class)
    } else if kind == "ClassDeclaration"@ {
        node matches Node::ClassDecl { name, class } && ident_is(part(tree, "identifier"@), name) && class_is(
            lines,
            tree,
            class,
        )
    } else if kind == "ClassProperty"@ {
        node matches Node::ClassProp { key, inner, value, decorators, is_static, declared } && key_is(
            part(tree, "key"@),
            key,
        ) && nodes_are(lines, trees_within(part(tree, "key"@)), inner@) && optional_is(lines, part(tree, "value"@), value)
            && nodes_are(lines, trees_in(part(tree, "decorators"@)), decorators@) && is_static == flag_at(
            tree,
            "isStatic"@,
        ) && annotation_is(part(tree, "typeAnnotation"@), declared)
    } else if kind == "ClassMethod"@ {
        node matches Node::Method { key, inner, function, kind: sort, is_static } && key_is(part(tree, "key"@), key)
            && nodes_are(lines, trees_within(part(tree, "key"@)), inner@) && function_is(
            lines,
            part(tree, "function"@),
            function,
        ) && sort == method_kind_of(text_at(tree, "kind"@)) && is_static == flag_at(tree, "isStatic"@)
    } else {
        node matches Node::Constructor { params, inner } && params_are(items_at(tree, "params"@), params@) && nodes_are(
            lines,
            trees_within(tree),
            inner@,
        )
    }
}

pub open spec fn pattern_prop_is(tree: JsonModel, prop: PatternProp) -> bool {
    let kind = kind_of(tree);
    if kind == "AssignmentPatternProperty"@ {
        prop matches PatternProp::Assign(ident) && ident_is(part(tree, "key"@), ident)
    } else if kind == "KeyValuePatternProperty"@ {
        prop matches PatternProp::KeyValue { key, local } && key_is(part(tree, "key"@), key) && if kind_of(
            part(tree, "value"@),
        ) == "Identifier"@ {
            local matches Some(ident) && ident_is(part(tree, "value"@), ident)
        } else {
            local is None
        }
    } else {
        prop is Rest
    }
}

pub open spec fn pattern_props_are(trees: Seq<JsonModel>, props: Seq<PatternProp>) -> bool {
    trees.len() == props.len() && forall|i: int| 0 <= i < props.len() ==> pattern_prop_is(trees[i], #[trigger] props[i])
}

pub open spec fn pattern_is(lines: Seq<u32>, tree: JsonModel, pattern: Pattern) -> bool
    decreases pattern, 0nat,
{
    if kind_of(tree) == "Identifier"@ {
        pattern matches Pattern::Name(ident) && ident_is(tree, ident)
    } else if kind_of(tree) == "ObjectPattern"@ {
        pattern matches Pattern::Object { props, inner } && pattern_props_are(items_at(tree, "properties"@), props@)
            && nodes_are(lines, trees_within(tree), inner@)
    } else {
        pattern matches Pattern::Other(inner) && nodes_are(lines, trees_within(tree), inner@)
    }
}

pub open spec fn statement_is(lines: Seq<u32>, tree: JsonModel, node: Node) -> bool
    decreases node, 0nat,
{
    let kind = kind_of(tree);
    if kind == "VariableDeclaration"@ {
        node matches Node::VarDecl(declarators) && nodes_are(lines, items_at(tree, "declarations"@), declarators@)
    } else if kind == "VariableDeclarator"@ {
        node matches Node::Declarator { pattern, init } && pattern_is(lines, part(tree, "id"@), pattern) && optional_is(
            lines,
            part(tree, "init"@),
            init,
        )
    } else {
        node matches Node::Return(value) && optional_is(lines, part(tree, "argument"@), value)
    }
}

// ---------------------------------------------------------------------------
// What a module has to be
// ---------------------------------------------------------------------------

/// A name or a string literal, as text.
pub open spec fn spelled(tree: JsonModel) -> Seq<char> {
    if kind_of(tree) == "StringLiteral"@ {
        literal_of(tree)
    } else {
        text_at(tree, "value"@)
    }
}

/// A name or a string literal that may be left out.
pub open spec fn spelled_is(tree: JsonModel, name: Option<String>) -> bool {
    if tree is Null {
        name is None
    } else {
        name matches Some(name) && name@ == spelled(tree)
    }
}

pub open spec fn import_is(tree: JsonModel, specifier: ImportSpecifier) -> bool {
    let kind = kind_of(tree);
    if kind == "ImportDefaultSpecifier"@ {
        specifier matches ImportSpecifier::Default { local } && ident_is(part(tree, "local"@), local)
    } else if kind == "ImportNamespaceSpecifier"@ {
        specifier matches ImportSpecifier::Namespace { local } && ident_is(part(tree, "local"@), local)
    } else {
        specifier matches ImportSpecifier::Named { local, imported, type_only } && ident_is(part(tree, "local"@), local)
            && spelled_is(part(tree, "imported"@), imported) && type_only == flag_at(tree, "isTypeOnly"@)
    }
}

pub open spec fn imports_are(trees: Seq<JsonModel>, specifiers: Seq<ImportSpecifier>) -> bool {
    trees.len() == specifiers.len() && forall|i: int|
        0 <= i < specifiers.len() ==> import_is(trees[i], #[trigger] specifiers[i])
}

pub open spec fn export_name_is(tree: JsonModel, name: ExportName) -> bool {
    if kind_of(tree) == "StringLiteral"@ {
        name matches ExportName::Text(text) && text@ == literal_of(tree)
    } else {
        name matches ExportName::Ident(ident) && ident_is(tree, ident)
    }
}

pub open spec fn export_is(tree: JsonModel, specifier: ExportSpecifier) -> bool {
    let kind = kind_of(tree);
    if kind == "ExportNamespaceSpecifier"@ {
        specifier matches ExportSpecifier::Namespace { name } && export_name_is(part(tree, "name"@), name)
    } else if kind == "ExportSpecifier"@ {
        specifier matches ExportSpecifier::Named { original, exported, type_only } && export_name_is(
            part(tree, "orig"@),
            original,
        ) && spelled_is(part(tree, "exported"@), exported) && type_only == flag_at(tree, "isTypeOnly"@)
    } else {
        specifier is Default
    }
}

pub open spec fn exports_are(trees: Seq<JsonModel>, specifiers: Seq<ExportSpecifier>) -> bool {
    trees.len() == specifiers.len() && forall|i: int|
        0 <= i < specifiers.len() ==> export_is(trees[i], #[trigger] specifiers[i])
}

pub open spec fn default_is(lines: Seq<u32>, tree: JsonModel, item: ModuleItem) -> bool {
    if kind_of(tree) == "ClassExpression"@ || kind_of(tree) == "FunctionExpression"@ {
        item matches ModuleItem::ExportDefault { name, decl } && name_is(part(tree, "identifier"@), name) && node_is(
            lines,
            tree,
            decl,
        )
    } else {
        item matches ModuleItem::Statement(Node::Other(inner)) && nodes_are(lines, trees_within(tree), inner@)
    }
}

pub open spec fn item_is(lines: Seq<u32>, tree: JsonModel, item: ModuleItem) -> bool {
    let kind = kind_of(tree);
    if kind == "ImportDeclaration"@ {
        item matches ModuleItem::Import { source, type_only, specifiers } && source@ == literal_of(part(tree, "source"@))
            && type_only == flag_at(tree, "typeOnly"@) && imports_are(items_at(tree, "specifiers"@), specifiers@)
    } else if kind == "ExportNamedDeclaration"@ {
        item matches ModuleItem::ExportNamed { source, type_only, specifiers } && spelled_is(part(tree, "source"@), source)
            && type_only == flag_at(tree, "typeOnly"@) && exports_are(items_at(tree, "specifiers"@), specifiers@)
    } else if kind == "ExportAllDeclaration"@ {
        item matches ModuleItem::ExportAll { source, type_only } && source@ == literal_of(part(tree, "source"@))
            && type_only == flag_at(tree, "typeOnly"@)
    } else if kind == "ExportDeclaration"@ {
        item matches ModuleItem::ExportDecl(node) && node_is(lines, part(tree, "declaration"@), node)
    } else if kind == "ExportDefaultDeclaration"@ {
        default_is(lines, part(tree, "decl"@), item)
    } else if kind == "ExportDefaultExpression"@ {
        item matches ModuleItem::ExportDefaultExpr(node) && node_is(lines, part(tree, "expression"@), node)
    } else {
        item matches ModuleItem::Statement(node) && node_is(lines, tree, node)
    }
}

/// A module is what the tree of a whole file says.
pub open spec fn module_is(lines: Seq<u32>, tree: JsonModel, module: Module) -> bool {
    items_are(lines, items_at(tree, "body"@), module.items@)
}

pub open spec fn items_are(lines: Seq<u32>, trees: Seq<JsonModel>, items: Seq<ModuleItem>) -> bool {
    trees.len() == items.len() && forall|i: int| 0 <= i < items.len() ==> item_is(lines, trees[i], #[trigger] items[i])
}

} // verus!
