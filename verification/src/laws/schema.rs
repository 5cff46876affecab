//! What the validation schemas of a module say of its variables.

use crate::env_alias::schema::{
    chain_calls, declared_by, default_of, handed_literal, is_variable_name, property_declaration, says, schema_of, with_object,
    ChainCall, EnvSchemaDeclarationModel,
};
use crate::env_alias::{literal_of, transparent, transparent_is_within};
use crate::laws::env::{is_literal, literals_are_what_is_written};
use crate::syntax::{Node, PropKey, Wrapper};
use crate::text::is_ascii_upper;
use vstd::prelude::*;

verus! {

/// The expression within brackets, assertions and non-null marks.
pub open spec fn is_within(node: Node, inner: Node) -> bool
    decreases node,
{
    match node {
        Node::Wrapped { wrapper, inner: below } => if wrapper == Wrapper::Await {
            inner == node
        } else {
            is_within(*below, inner)
        },
        _ => inner == node,
    }
}

proof fn what_is_within(node: Node, inner: Node)
    ensures
        is_within(node, inner) <==> transparent(node) == inner,
    decreases node,
{
    match node {
        Node::Wrapped { wrapper, inner: below } => {
            what_is_within(*below, inner);
        },
        _ => {},
    }
}

/// The expression is `object.method(args)`.
pub open spec fn is_call_on(node: Node, object: Node, method: Seq<char>, args: Seq<Node>) -> bool {
    exists|call: Node, callee: Node| is_within(node, call) && #[trigger] calls_on(call, callee, object, method, args)
}

pub open spec fn calls_on(call: Node, callee: Node, object: Node, method: Seq<char>, args: Seq<Node>) -> bool {
    &&& call matches Node::Call { callee: called, args: given, .. } && given@ == args && is_within(*called, callee)
    &&& callee matches Node::Member { object: on, property } && *on == object && property@ == method
}

/// The literal that a call is handed first.
pub open spec fn hands_over(args: Seq<Node>, literal: Option<Seq<char>>) -> bool {
    match literal {
        Some(text) => args.len() > 0 && !(args[0] is Spread) && is_literal(args[0], text),
        None => args.len() == 0 || args[0] is Spread || forall|text: Seq<char>| !#[trigger] is_literal(args[0], text),
    }
}

proof fn says_of_more(first: ChainCall, rest: Seq<ChainCall>, method: Seq<char>)
    ensures
        says(seq![first] + rest, method) <==> first.method == method || says(rest, method),
{
    let all = seq![first] + rest;
    if first.method == method {
        assert(all[0].method == method);
    }
    if says(rest, method) {
        let i = choose|i: int| 0 <= i < rest.len() && (#[trigger] rest[i]).method == method;
        assert(all[i + 1].method == method);
    }
    if says(all, method) {
        let i = choose|i: int| 0 <= i < all.len() && (#[trigger] all[i]).method == method;
        if i > 0 {
            assert(rest[i - 1].method == method);
        }
    }
}

proof fn the_outermost_default_decides(first: ChainCall, rest: Seq<ChainCall>)
    ensures
        default_of(seq![first] + rest) == (if first.method == "default"@ {
            first.literal
        } else {
            default_of(rest)
        }),
    decreases rest.len(),
{
    let all = seq![first] + rest;
    if rest.len() == 0 {
        assert(all.drop_last() =~= Seq::<ChainCall>::empty());
        assert(!says(all.drop_last(), "default"@));
        assert(all.last() == first);
    } else {
        let init = rest.drop_last();
        assert(all.drop_last() =~= seq![first] + init);
        assert(all.last() == rest.last());
        the_outermost_default_decides(first, init);
        says_of_more(first, init, "default"@);
    }
}

/// What a chain declares follows from its outermost call: `default` declares the
/// literal that it hands over, and that the variable is never absent; `optional`
/// declares that it may be absent, unless something further in already says
/// more; any other call says what the chain says without it.
pub proof fn a_chain_declares_by_its_outermost_call(node: Node, object: Node, method: Seq<char>, args: Seq<Node>)
    requires
        is_call_on(node, object, method, args),
    ensures
        method == "default"@ ==> (declared_by(node) matches Some(declaration) && !declaration.optional && hands_over(
            args,
            declaration.default_literal,
        )),
        method == "optional"@ && declared_by(object) is Some ==> declared_by(node) == declared_by(object),
        method == "optional"@ && declared_by(object) is None ==> declared_by(node) == Some(
            EnvSchemaDeclarationModel { optional: true, default_literal: None },
        ),
        method != "default"@ && method != "optional"@ ==> declared_by(node) == declared_by(object),
{
    let (call, callee) = choose|call: Node, callee: Node|
        is_within(node, call) && #[trigger] calls_on(call, callee, object, method, args);
    what_is_within(node, call);
    what_is_within(*call->Call_callee, callee);
    transparent_is_within(node);
    transparent_is_within(*call->Call_callee);
    let first = ChainCall { method, literal: handed_literal(args) };
    let rest = chain_calls(object);
    assert(chain_calls(node) == seq![first] + rest);
    says_of_more(first, rest, "optional"@);
    says_of_more(first, rest, "default"@);
    the_outermost_default_decides(first, rest);
    reveal_strlit("optional");
    reveal_strlit("default");
    assert("optional"@.len() != "default"@.len());
    no_default_no_literal(rest);
    if args.len() > 0 && !(args[0] is Spread) {
        match literal_of(args[0]) {
            Some(text) => {
                literals_are_what_is_written(args[0], text);
            },
            None => {
                assert forall|text: Seq<char>| !#[trigger] is_literal(args[0], text) by {
                    literals_are_what_is_written(args[0], text);
                }
            },
        }
    }
}

proof fn no_default_no_literal(calls: Seq<ChainCall>)
    ensures
        !says(calls, "default"@) ==> default_of(calls) is None,
{
    if calls.len() > 0 && !says(calls, "default"@) {
        let init = calls.drop_last();
        assert(calls[calls.len() - 1].method != "default"@);
        if says(init, "default"@) {
            let i = choose|i: int| 0 <= i < init.len() && (#[trigger] init[i]).method == "default"@;
            assert(calls[i].method == "default"@);
        }
    }
}

/// What is no chain declares nothing.
pub proof fn a_plain_expression_declares_nothing(node: Node, inner: Node)
    requires
        is_within(node, inner),
        !(inner is Call || inner is Member || inner is Index || inner is PrivateMember),
    ensures
        declared_by(node) is None,
{
    what_is_within(node, inner);
    assert(chain_calls(node) =~= Seq::<ChainCall>::empty());
}

// ---------------------------------------------------------------------------
// Modules
// ---------------------------------------------------------------------------

/// Spelled like a variable: capitals, digits and underscores, two or more, with
/// a letter among them.
pub open spec fn spelled_like_a_variable(name: Seq<char>) -> bool {
    &&& name.len() >= 2
    &&& exists|i: int| 0 <= i < name.len() && 'A' <= #[trigger] name[i] <= 'Z'
    &&& forall|i: int| 0 <= i < name.len() ==> ('A' <= #[trigger] name[i] <= 'Z') || ('0' <= name[i] <= '9') || name[i] == '_'
}

/// The property declares a variable.
pub open spec fn declares_variable(prop: Node, name: Seq<char>, declaration: EnvSchemaDeclarationModel) -> bool {
    &&& spelled_like_a_variable(name)
    &&& prop matches Node::KeyValue { key, value, .. } && declared_by(*value) == Some(declaration) && (match key {
        PropKey::Ident(key) => key@ == name,
        PropKey::Text(key) => key@ == name,
        PropKey::Other => false,
    })
}

pub open spec fn declares_some(prop: Node, name: Seq<char>) -> bool {
    exists|declaration: EnvSchemaDeclarationModel| #[trigger] declares_variable(prop, name, declaration)
}

/// The properties of the object literals among the nodes, in order.
pub open spec fn properties(nodes: Seq<Node>) -> Seq<Node>
    decreases nodes.len(),
{
    if nodes.len() == 0 {
        Seq::empty()
    } else {
        match nodes.last() {
            Node::Object(props) => properties(nodes.drop_last()) + props@,
            _ => properties(nodes.drop_last()),
        }
    }
}

proof fn properties_declare(prop: Node, name: Seq<char>, declaration: EnvSchemaDeclarationModel)
    ensures
        property_declaration(prop) == Some((name, declaration)) <==> declares_variable(prop, name, declaration),
{
    assert(is_variable_name(name) <==> spelled_like_a_variable(name)) by {
        if is_variable_name(name) {
            let i = choose|i: int| 0 <= i < name.len() && is_ascii_upper(#[trigger] name[i]);
            assert('A' <= name[i] <= 'Z');
        }
        if spelled_like_a_variable(name) {
            let i = choose|i: int| 0 <= i < name.len() && 'A' <= #[trigger] name[i] <= 'Z';
            assert(is_ascii_upper(name[i]));
        }
    }
}

proof fn objects_one_after_the_other(start: Map<Seq<char>, EnvSchemaDeclarationModel>, a: Seq<Node>, b: Seq<Node>)
    ensures
        with_object(start, a + b) == with_object(with_object(start, a), b),
    decreases b.len(),
{
    if b.len() == 0 {
        assert(a + b =~= a);
    } else {
        assert((a + b).drop_last() =~= a + b.drop_last());
        assert((a + b).last() == b.last());
        objects_one_after_the_other(start, a, b.drop_last());
    }
}

proof fn schemas_are_those_of_the_properties(nodes: Seq<Node>)
    ensures
        schema_of(nodes) == with_object(Map::empty(), properties(nodes)),
    decreases nodes.len(),
{
    if nodes.len() > 0 {
        schemas_are_those_of_the_properties(nodes.drop_last());
        match nodes.last() {
            Node::Object(props) => {
                objects_one_after_the_other(Map::empty(), properties(nodes.drop_last()), props@);
            },
            _ => {},
        }
    }
}

proof fn the_first_declaration_stays(props: Seq<Node>, name: Seq<char>)
    ensures
        forall|declaration: EnvSchemaDeclarationModel| #[trigger]
            with_object(Map::empty(), props).contains_pair(name, declaration) <==> exists|k: int|
                0 <= k < props.len() && declares_variable(#[trigger] props[k], name, declaration) && forall|j: int|
                    0 <= j < k ==> !declares_some(#[trigger] props[j], name),
        with_object(Map::empty(), props).contains_key(name) <==> exists|k: int|
            0 <= k < props.len() && declares_some(#[trigger] props[k], name),
    decreases props.len(),
{
    let all = with_object(Map::empty(), props);
    if props.len() > 0 {
        let n = props.len() - 1;
        let init = props.drop_last();
        let before = with_object(Map::empty(), init);
        the_first_declaration_stays(init, name);
        assert(props.last() == props[n]);
        match property_declaration(props[n]) {
            Some((said, declaration)) => {
                properties_declare(props[n], said, declaration);
                assert(declares_some(props[n], said));
            },
            None => {},
        }
        assert(declares_some(props[n], name) ==> (property_declaration(props[n]) matches Some((said, _)) && said == name)) by {
            if declares_some(props[n], name) {
                let d = choose|d: EnvSchemaDeclarationModel| #[trigger] declares_variable(props[n], name, d);
                properties_declare(props[n], name, d);
            }
        }
        assert forall|j: int| 0 <= j < n implies #[trigger] props[j] == init[j] by {}
        if before.contains_key(name) {
            let k = choose|k: int| 0 <= k < init.len() && declares_some(#[trigger] init[k], name);
            assert(declares_some(props[k], name));
        }
        if exists|k: int| 0 <= k < props.len() && declares_some(#[trigger] props[k], name) {
            let k = choose|k: int| 0 <= k < props.len() && declares_some(#[trigger] props[k], name);
            if k < n {
                assert(declares_some(init[k], name));
            }
        }
        if all.contains_key(name) && !before.contains_key(name) {
            assert(declares_some(props[n], name));
        }
        assert forall|declaration: EnvSchemaDeclarationModel| #[trigger] all.contains_pair(name, declaration) <==> exists|k: int|
            0 <= k < props.len() && declares_variable(#[trigger] props[k], name, declaration) && forall|j: int|
                0 <= j < k ==> !declares_some(#[trigger] props[j], name) by {
            properties_declare(props[n], name, declaration);
            if all.contains_pair(name, declaration) {
                if before.contains_key(name) {
                    assert(before.contains_pair(name, declaration));
                    let k = choose|k: int|
                        0 <= k < init.len() && declares_variable(#[trigger] init[k], name, declaration) && forall|j: int|
                            0 <= j < k ==> !declares_some(#[trigger] init[j], name);
                    assert(declares_variable(props[k], name, declaration));
                    assert forall|j: int| 0 <= j < k implies !declares_some(#[trigger] props[j], name) by {
                        assert(init[j] == props[j]);
                    }
                } else {
                    assert(declares_variable(props[n], name, declaration));
                    assert forall|j: int| 0 <= j < n implies !declares_some(#[trigger] props[j], name) by {
                        assert(init[j] == props[j]);
                    }
                }
            }
            if exists|k: int|
                0 <= k < props.len() && declares_variable(#[trigger] props[k], name, declaration) && forall|j: int|
                    0 <= j < k ==> !declares_some(#[trigger] props[j], name) {
                let k = choose|k: int|
                    0 <= k < props.len() && declares_variable(#[trigger] props[k], name, declaration) && forall|j: int|
                        0 <= j < k ==> !declares_some(#[trigger] props[j], name);
                if k < n {
                    assert(declares_variable(init[k], name, declaration));
                    assert forall|j: int| 0 <= j < k implies !declares_some(#[trigger] init[j], name) by {
                        assert(init[j] == props[j]);
                    }
                    assert(before.contains_pair(name, declaration));
                } else {
                    if before.contains_key(name) {
                        let m = choose|m: int| 0 <= m < init.len() && declares_some(#[trigger] init[m], name);
                        assert(!declares_some(props[m], name));
                    }
                }
            }
        }
    }
}

/// A module declares of a variable what the first property says that declares
/// it, and nothing else.
pub proof fn a_module_declares_what_is_said_first(nodes: Seq<Node>, name: Seq<char>, declaration: EnvSchemaDeclarationModel)
    ensures
        schema_of(nodes).contains_pair(name, declaration) <==> exists|k: int|
            0 <= k < properties(nodes).len() && declares_variable(#[trigger] properties(nodes)[k], name, declaration)
                && forall|j: int| 0 <= j < k ==> !declares_some(#[trigger] properties(nodes)[j], name),
{
    schemas_are_those_of_the_properties(nodes);
    the_first_declaration_stays(properties(nodes), name);
    assert(with_object(Map::empty(), properties(nodes)).contains_pair(name, declaration) == schema_of(nodes).contains_pair(
        name,
        declaration,
    ));
}

} // verus!
