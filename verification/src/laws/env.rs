//! What the bindings of a module say of the environment.

use crate::env_alias::{
    bindings_of, env_variable, fallback_of, is_absolute_url, item_declarators, literal_bases_of, literal_of,
    no_bindings, property_variable, simple_binding, states_path, transparent, with_declarator, with_declarators,
    with_literal_bases, with_properties, EnvAliasExtractorModel,
};
use crate::env_alias::targets::{after_scheme, url_path};
use crate::laws::texts::{a_cut_is_where_it_stands, a_prefix_is_taken_off, cut_at_a_character, prefix_and_rest};
use crate::syntax::{BinaryOp, ModuleItem, Node, Pattern, PropKey, Wrapper};
use crate::text::{after_prefix, first_cut, has_prefix, trimmed, trimmed_stays};
use vstd::prelude::*;

verus! {

// ---------------------------------------------------------------------------
// Expressions
// ---------------------------------------------------------------------------

/// The expression is `process.env`.
pub open spec fn names_environment(node: Node) -> bool {
    node matches Node::Member { object, property } && property@ == "env"@ && (*object matches Node::Ident(name)
        && name.symbol@ == "process"@)
}

/// The expression reads a variable: `process.env.VAR` or `process.env["VAR"]`,
/// in brackets or under an assertion, with `??` or `||` and a default behind it
/// or without.
pub open spec fn reads(node: Node, variable: Seq<char>) -> bool
    decreases node,
{
    match node {
        Node::Wrapped { wrapper, inner } => wrapper != Wrapper::Await && reads(*inner, variable),
        Node::Member { object, property } => names_environment(*object) && property@ == variable,
        Node::Index { object, index } => names_environment(*object) && (*index matches Node::Text(name) && name@ == variable),
        Node::Binary { op, left, .. } => (op == BinaryOp::NullishCoalescing || op == BinaryOp::LogicalOr) && reads(
            *left,
            variable,
        ),
        _ => false,
    }
}

/// The expression is a string literal.
pub open spec fn is_literal(node: Node, literal: Seq<char>) -> bool
    decreases node,
{
    match node {
        Node::Wrapped { wrapper, inner } => wrapper != Wrapper::Await && is_literal(*inner, literal),
        Node::Text(s) => s@ == literal,
        _ => false,
    }
}

/// The expression is `… ?? literal` or `… || literal`.
pub open spec fn defaults_to(node: Node, literal: Seq<char>) -> bool
    decreases node,
{
    match node {
        Node::Wrapped { wrapper, inner } => wrapper != Wrapper::Await && defaults_to(*inner, literal),
        Node::Binary { op, right, .. } => (op == BinaryOp::NullishCoalescing || op == BinaryOp::LogicalOr) && is_literal(
            *right,
            literal,
        ),
        _ => false,
    }
}

proof fn variables_are_what_is_read(node: Node, variable: Seq<char>)
    ensures
        env_variable(node) == Some(variable) <==> reads(node, variable),
    decreases node,
{
    match node {
        Node::Wrapped { wrapper, inner } => {
            variables_are_what_is_read(*inner, variable);
        },
        Node::Binary { op, left, .. } => {
            variables_are_what_is_read(*left, variable);
        },
        _ => {},
    }
}

pub proof fn literals_are_what_is_written(node: Node, literal: Seq<char>)
    ensures
        literal_of(node) == Some(literal) <==> is_literal(node, literal),
    decreases node,
{
    match node {
        Node::Wrapped { wrapper, inner } => {
            literals_are_what_is_written(*inner, literal);
        },
        _ => {},
    }
}

proof fn fallbacks_are_defaults(node: Node, literal: Seq<char>)
    ensures
        fallback_of(node) == Some(literal) <==> defaults_to(node, literal),
    decreases node,
{
    match node {
        Node::Wrapped { wrapper, inner } => {
            fallbacks_are_defaults(*inner, literal);
        },
        Node::Binary { right, .. } => {
            literals_are_what_is_written(*right, literal);
        },
        _ => {},
    }
}

// ---------------------------------------------------------------------------
// URLs
// ---------------------------------------------------------------------------

/// What begins an absolute URL.
pub open spec fn is_scheme(scheme: Seq<char>) -> bool {
    scheme == "http://"@ || scheme == "https://"@
}

/// The URL is a scheme, an origin and a path below the root.
pub open spec fn is_url_at(literal: Seq<char>, scheme: Seq<char>, origin: Seq<char>, below: Seq<char>) -> bool {
    is_scheme(scheme) && !origin.contains('/') && below.len() > 0 && literal == scheme + origin + seq!['/'] + below
}

pub open spec fn has_a_path(literal: Seq<char>) -> bool {
    exists|scheme: Seq<char>, origin: Seq<char>, below: Seq<char>| is_url_at(literal, scheme, origin, below)
}

proof fn schemes_differ(rest: Seq<char>)
    ensures
        after_prefix("https://"@ + rest, "http://"@) is None,
{
    reveal_strlit("http://");
    reveal_strlit("https://");
    let s = "https://"@ + rest;
    if has_prefix(s, "http://"@) {
        assert(s.subrange(0, 7)[4] == s[4]);
        assert(s[4] == 's');
        assert("http://"@[4] == ':');
    }
}

/// What follows the scheme of an absolute URL, and nothing else, is read as such.
pub proof fn a_scheme_is_taken_off(literal: Seq<char>, rest: Seq<char>)
    ensures
        after_scheme(literal) == Some(rest) <==> literal == "http://"@ + rest || literal == "https://"@ + rest,
{
    prefix_and_rest(literal, "http://"@);
    prefix_and_rest(literal, "https://"@);
    a_prefix_is_taken_off("http://"@, rest);
    a_prefix_is_taken_off("https://"@, rest);
    schemes_differ(rest);
    if after_prefix(literal, "http://"@) is Some && literal == "https://"@ + rest {
        schemes_differ(rest);
    }
}

/// The path of an absolute URL is what follows its origin.
pub proof fn a_path_follows_the_origin(literal: Seq<char>, scheme: Seq<char>, origin: Seq<char>, below: Seq<char>)
    requires
        is_url_at(literal, scheme, origin, below),
    ensures
        url_path(literal) == Some(seq!['/'] + below),
{
    reveal_strlit("/");
    assert("/"@ =~= seq!['/']);
    let rest = origin + seq!['/'] + below;
    assert(literal =~= scheme + rest);
    a_scheme_is_taken_off(literal, rest);
    a_cut_is_where_it_stands(rest, '/', origin, below);
}

/// A literal states a path exactly where it is a URL with one.
pub proof fn a_path_is_stated_where_there_is_one(literal: Seq<char>)
    ensures
        states_path(literal) <==> has_a_path(literal),
{
    reveal_strlit("/");
    assert("/"@ =~= seq!['/']);
    if states_path(literal) {
        let rest = after_scheme(literal)->0;
        a_scheme_is_taken_off(literal, rest);
        cut_at_a_character(rest, '/');
        let (origin, below) = first_cut(rest, "/"@)->0;
        assert("http://"@ + rest =~= "http://"@ + origin + seq!['/'] + below);
        assert("https://"@ + rest =~= "https://"@ + origin + seq!['/'] + below);
        if literal == "http://"@ + rest {
            assert(is_url_at(literal, "http://"@, origin, below));
        } else {
            assert(is_url_at(literal, "https://"@, origin, below));
        }
    }
    if has_a_path(literal) {
        let (scheme, origin, below) = choose|scheme: Seq<char>, origin: Seq<char>, below: Seq<char>|
            is_url_at(literal, scheme, origin, below);
        a_path_follows_the_origin(literal, scheme, origin, below);
    }
}

// ---------------------------------------------------------------------------
// Declarations
// ---------------------------------------------------------------------------

/// The declaration binds one name to an expression.
pub open spec fn binds(declaration: Node, name: Seq<char>, value: Node) -> bool {
    declaration matches Node::Declarator { pattern: Pattern::Name(bound), init: Some(init) } && bound.symbol@ == name && *init
        == value
}

/// The declaration is `name = process.env.VAR`, with a default or without.
pub open spec fn declares(declaration: Node, name: Seq<char>, variable: Seq<char>) -> bool {
    exists|value: Node| #[trigger] binds(declaration, name, value) && reads(value, variable)
}

/// The declaration is `name = process.env.VAR ?? literal` or the same with `||`.
pub open spec fn declares_with_default(declaration: Node, name: Seq<char>, variable: Seq<char>, literal: Seq<char>) -> bool {
    exists|value: Node| #[trigger] binds(declaration, name, value) && reads(value, variable) && defaults_to(value, literal)
}

/// The declaration gives a default to what goes by a key: to the name that it
/// binds and to the variable that it reads.
pub open spec fn gives_default(declaration: Node, key: Seq<char>, literal: Seq<char>) -> bool {
    exists|name: Seq<char>, variable: Seq<char>| #[trigger]
        declares_with_default(declaration, name, variable, literal) && (key == name || key == variable)
}

pub open spec fn sets_default(declaration: Node, key: Seq<char>) -> bool {
    exists|literal: Seq<char>| #[trigger] gives_default(declaration, key, literal)
}

/// The declarations among the nodes, in order.
pub open spec fn declarations(nodes: Seq<Node>) -> Seq<Node>
    decreases nodes.len(),
{
    if nodes.len() == 0 {
        Seq::empty()
    } else {
        match nodes.last() {
            Node::VarDecl(declarators) => declarations(nodes.drop_last()) + declarators@,
            _ => declarations(nodes.drop_last()),
        }
    }
}

/// Every declaration of every variable statement is among them.
pub proof fn declarations_are_all_there(nodes: Seq<Node>, i: int, j: int)
    requires
        0 <= i < nodes.len(),
        nodes[i] is VarDecl,
        0 <= j < nodes[i]->VarDecl_0@.len(),
    ensures
        declarations(nodes).contains(nodes[i]->VarDecl_0@[j]),
    decreases nodes.len(),
{
    let all = declarations(nodes);
    let before = declarations(nodes.drop_last());
    if i == nodes.len() - 1 {
        assert(all[before.len() + j] == nodes[i]->VarDecl_0@[j]);
    } else {
        assert(nodes.drop_last()[i] == nodes[i]);
        declarations_are_all_there(nodes.drop_last(), i, j);
        let k = choose|k: int| 0 <= k < before.len() && before[k] == nodes[i]->VarDecl_0@[j];
        assert(all[k] == before[k]);
    }
}

proof fn declared_one_after_the_other(state: EnvAliasExtractorModel, a: Seq<Node>, b: Seq<Node>)
    ensures
        with_declarators(state, a + b) == with_declarators(with_declarators(state, a), b),
    decreases b.len(),
{
    if b.len() == 0 {
        assert(a + b =~= a);
    } else {
        assert((a + b).drop_last() =~= a + b.drop_last());
        assert((a + b).last() == b.last());
        declared_one_after_the_other(state, a, b.drop_last());
    }
}

proof fn bindings_are_those_of_the_declarations(nodes: Seq<Node>)
    ensures
        bindings_of(nodes) == with_declarators(no_bindings(), declarations(nodes)),
    decreases nodes.len(),
{
    if nodes.len() > 0 {
        bindings_are_those_of_the_declarations(nodes.drop_last());
        match nodes.last() {
            Node::VarDecl(declarators) => {
                declared_one_after_the_other(no_bindings(), declarations(nodes.drop_last()), declarators@);
            },
            _ => {},
        }
    }
}

/// What one declaration does to the defaults.
proof fn one_default(state: EnvAliasExtractorModel, declaration: Node, key: Seq<char>, literal: Seq<char>)
    ensures
        gives_default(declaration, key, literal) ==> with_declarator(state, declaration).env_fallbacks.contains_pair(key, literal),
        gives_default(declaration, key, literal) && has_a_path(literal) ==> with_declarator(
            state,
            declaration,
        ).whole_url_fallbacks.contains_pair(key, literal),
        !gives_default(declaration, key, literal) && with_declarator(state, declaration).env_fallbacks.contains_pair(key, literal)
            ==> state.env_fallbacks.contains_pair(key, literal),
        !(gives_default(declaration, key, literal) && has_a_path(literal)) && with_declarator(
            state,
            declaration,
        ).whole_url_fallbacks.contains_pair(key, literal) ==> state.whole_url_fallbacks.contains_pair(key, literal),
        !sets_default(declaration, key) && state.env_fallbacks.contains_pair(key, literal) ==> with_declarator(
            state,
            declaration,
        ).env_fallbacks.contains_pair(key, literal),
        !sets_default(declaration, key) && state.whole_url_fallbacks.contains_pair(key, literal) ==> with_declarator(
            state,
            declaration,
        ).whole_url_fallbacks.contains_pair(key, literal),
{
    a_path_is_stated_where_there_is_one(literal);
    if gives_default(declaration, key, literal) {
        let (name, variable) = choose|name: Seq<char>, variable: Seq<char>| #[trigger]
            declares_with_default(declaration, name, variable, literal) && (key == name || key == variable);
        let value = choose|value: Node| #[trigger]
            binds(declaration, name, value) && reads(value, variable) && defaults_to(value, literal);
        variables_are_what_is_read(value, variable);
        fallbacks_are_defaults(value, literal);
    }
    match simple_binding(declaration) {
        Some((name, value)) => {
            assert(binds(declaration, name, value));
            match (env_variable(value), fallback_of(value)) {
                (Some(variable), Some(given)) => {
                    variables_are_what_is_read(value, variable);
                    fallbacks_are_defaults(value, given);
                    a_path_is_stated_where_there_is_one(given);
                    assert(declares_with_default(declaration, name, variable, given));
                    if key == name || key == variable {
                        assert(gives_default(declaration, key, given));
                        assert(sets_default(declaration, key));
                    }
                },
                _ => {},
            }
        },
        None => {},
    }
}

proof fn a_default_stands(declared: Seq<Node>, k: int, key: Seq<char>, literal: Seq<char>)
    requires
        0 <= k < declared.len(),
        gives_default(declared[k], key, literal),
        forall|m: int| k < m < declared.len() ==> !sets_default(#[trigger] declared[m], key),
    ensures
        with_declarators(no_bindings(), declared).env_fallbacks.contains_pair(key, literal),
        has_a_path(literal) ==> with_declarators(no_bindings(), declared).whole_url_fallbacks.contains_pair(key, literal),
    decreases declared.len(),
{
    let init = declared.drop_last();
    let before = with_declarators(no_bindings(), init);
    one_default(before, declared.last(), key, literal);
    if k < declared.len() - 1 {
        assert(!sets_default(declared[declared.len() - 1], key));
        assert forall|m: int| k < m < init.len() implies !sets_default(#[trigger] init[m], key) by {
            assert(init[m] == declared[m]);
        }
        a_default_stands(init, k, key, literal);
    }
}

proof fn a_default_has_its_declaration(declared: Seq<Node>, key: Seq<char>, literal: Seq<char>)
    ensures
        with_declarators(no_bindings(), declared).env_fallbacks.contains_pair(key, literal) ==> exists|k: int|
            0 <= k < declared.len() && gives_default(#[trigger] declared[k], key, literal),
        with_declarators(no_bindings(), declared).whole_url_fallbacks.contains_pair(key, literal) ==> has_a_path(literal)
            && exists|k: int| 0 <= k < declared.len() && gives_default(#[trigger] declared[k], key, literal),
    decreases declared.len(),
{
    if declared.len() > 0 {
        let init = declared.drop_last();
        let last = declared[declared.len() - 1];
        a_default_has_its_declaration(init, key, literal);
        one_default(with_declarators(no_bindings(), init), last, key, literal);
        if exists|k: int| 0 <= k < init.len() && gives_default(#[trigger] init[k], key, literal) {
            let k = choose|k: int| 0 <= k < init.len() && gives_default(#[trigger] init[k], key, literal);
            assert(gives_default(declared[k], key, literal));
        }
        if gives_default(last, key, literal) {
            assert(gives_default(declared[declared.len() - 1], key, literal));
        }
    }
}

/// The default of a declaration `name = process.env.VAR ?? literal`, or with
/// `||`, is kept under the name and under the variable, whatever it says, unless
/// a later declaration gives another. Where it is a URL with a path, it is kept
/// as a whole URL too.
pub proof fn a_default_is_kept_under_both_names(
    nodes: Seq<Node>,
    k: int,
    name: Seq<char>,
    variable: Seq<char>,
    literal: Seq<char>,
)
    requires
        0 <= k < declarations(nodes).len(),
        declares_with_default(declarations(nodes)[k], name, variable, literal),
    ensures
        (forall|m: int| k < m < declarations(nodes).len() ==> !sets_default(#[trigger] declarations(nodes)[m], name))
            ==> bindings_of(nodes).env_fallbacks.contains_pair(name, literal) && (has_a_path(literal)
            ==> bindings_of(nodes).whole_url_fallbacks.contains_pair(name, literal)),
        (forall|m: int| k < m < declarations(nodes).len() ==> !sets_default(#[trigger] declarations(nodes)[m], variable))
            ==> bindings_of(nodes).env_fallbacks.contains_pair(variable, literal) && (has_a_path(literal)
            ==> bindings_of(nodes).whole_url_fallbacks.contains_pair(variable, literal)),
{
    let declared = declarations(nodes);
    bindings_are_those_of_the_declarations(nodes);
    assert(gives_default(declared[k], name, literal));
    assert(gives_default(declared[k], variable, literal));
    if forall|m: int| k < m < declared.len() ==> !sets_default(#[trigger] declared[m], name) {
        a_default_stands(declared, k, name, literal);
    }
    if forall|m: int| k < m < declared.len() ==> !sets_default(#[trigger] declared[m], variable) {
        a_default_stands(declared, k, variable, literal);
    }
}

/// Nothing else is kept as a default, and as a whole URL only one with a path.
pub proof fn every_default_is_declared(nodes: Seq<Node>, key: Seq<char>, literal: Seq<char>)
    ensures
        bindings_of(nodes).env_fallbacks.contains_pair(key, literal) ==> exists|k: int|
            0 <= k < declarations(nodes).len() && gives_default(#[trigger] declarations(nodes)[k], key, literal),
        bindings_of(nodes).whole_url_fallbacks.contains_pair(key, literal) ==> has_a_path(literal) && exists|k: int|
            0 <= k < declarations(nodes).len() && gives_default(#[trigger] declarations(nodes)[k], key, literal),
{
    bindings_are_those_of_the_declarations(nodes);
    a_default_has_its_declaration(declarations(nodes), key, literal);
}

// ---------------------------------------------------------------------------
// Aliases
// ---------------------------------------------------------------------------

/// The expression is a name.
pub open spec fn is_name(node: Node, name: Seq<char>) -> bool
    decreases node,
{
    match node {
        Node::Wrapped { wrapper, inner } => wrapper != Wrapper::Await && is_name(*inner, name),
        Node::Ident(ident) => ident.symbol@ == name,
        _ => false,
    }
}

/// The expression is an object literal.
pub open spec fn is_object(node: Node, props: Seq<Node>) -> bool
    decreases node,
{
    match node {
        Node::Wrapped { wrapper, inner } => wrapper != Wrapper::Await && is_object(*inner, props),
        Node::Object(listed) => listed@ == props,
        _ => false,
    }
}

/// The property goes by a name.
pub open spec fn is_property(prop: Node, name: Seq<char>) -> bool {
    match prop {
        Node::KeyValue { key: PropKey::Ident(key), .. } => key@ == name,
        Node::KeyValue { key: PropKey::Text(key), .. } => key@ == name,
        Node::Shorthand(ident) => ident.symbol@ == name,
        _ => false,
    }
}

/// The value of a property is a variable: it reads one, or it is a name that is
/// known to read one.
pub open spec fn property_reads(prop: Node, known: Map<Seq<char>, Seq<char>>, variable: Seq<char>) -> bool {
    match prop {
        Node::KeyValue { value, .. } => reads(*value, variable) || exists|name: Seq<char>| #[trigger]
            is_name(*value, name) && known.contains_pair(name, variable),
        Node::Shorthand(ident) => known.contains_pair(ident.symbol@, variable),
        _ => false,
    }
}

/// The declaration is `name = { property: … }`, and the property is a variable.
pub open spec fn declares_property(
    declaration: Node,
    known: Map<Seq<char>, Seq<char>>,
    key: Seq<char>,
    variable: Seq<char>,
) -> bool {
    exists|name: Seq<char>, value: Node, props: Seq<Node>, i: int, property: Seq<char>| #[trigger]
        has_property_at(declaration, name, value, props, i, property) && property_reads(props[i], known, variable) && key
            == name + "."@ + property
}

/// The property at a place of an object literal that a declaration binds.
pub open spec fn has_property_at(
    declaration: Node,
    name: Seq<char>,
    value: Node,
    props: Seq<Node>,
    i: int,
    property: Seq<char>,
) -> bool {
    binds(declaration, name, value) && is_object(value, props) && 0 <= i < props.len() && is_property(props[i], property)
}

proof fn a_name_is_a_name(node: Node, name: Seq<char>)
    ensures
        is_name(node, name) <==> (transparent(node) is Ident && transparent(node)->Ident_0.symbol@ == name),
    decreases node,
{
    match node {
        Node::Wrapped { wrapper, inner } => {
            a_name_is_a_name(*inner, name);
        },
        _ => {},
    }
}

proof fn an_object_is_an_object(node: Node, props: Seq<Node>)
    ensures
        is_object(node, props) <==> (transparent(node) is Object && transparent(node)->Object_0@ == props),
    decreases node,
{
    match node {
        Node::Wrapped { wrapper, inner } => {
            an_object_is_an_object(*inner, props);
        },
        _ => {},
    }
}

pub proof fn an_expression_is_one_thing(node: Node)
    ensures
        forall|name: Seq<char>| #[trigger] is_name(node, name) <==> (transparent(node) is Ident && transparent(
            node,
        )->Ident_0.symbol@ == name),
        forall|props: Seq<Node>| #[trigger] is_object(node, props) <==> (transparent(node) is Object && transparent(
            node,
        )->Object_0@ == props),
{
    assert forall|name: Seq<char>| #[trigger] is_name(node, name) <==> (transparent(node) is Ident && transparent(
        node,
    )->Ident_0.symbol@ == name) by {
        a_name_is_a_name(node, name);
    }
    assert forall|props: Seq<Node>| #[trigger] is_object(node, props) <==> (transparent(node) is Object && transparent(
        node,
    )->Object_0@ == props) by {
        an_object_is_an_object(node, props);
    }
}

proof fn only_one_variable_is_read(node: Node)
    ensures
        env_variable(node) is None ==> forall|variable: Seq<char>| !#[trigger] reads(node, variable),
{
    assert forall|variable: Seq<char>| env_variable(node) is None implies !#[trigger] reads(node, variable) by {
        variables_are_what_is_read(node, variable);
    }
}

proof fn a_property_is_what_it_reads(prop: Node, known: Map<Seq<char>, Seq<char>>, property: Seq<char>, variable: Seq<char>)
    ensures
        property_variable(prop, known) == Some((property, variable)) <==> is_property(prop, property) && property_reads(
            prop,
            known,
            variable,
        ),
{
    match prop {
        Node::KeyValue { key, value, .. } => {
            variables_are_what_is_read(*value, variable);
            only_one_variable_is_read(*value);
            an_expression_is_one_thing(*value);
            if env_variable(*value) is Some {
                variables_are_what_is_read(*value, env_variable(*value)->0);
                variable_expressions_are_no_names(*value);
            }
            match transparent(*value) {
                Node::Ident(name) => {
                    assert(is_name(*value, name.symbol@));
                },
                _ => {},
            }
        },
        _ => {},
    }
}

proof fn variable_expressions_are_no_names(node: Node)
    ensures
        env_variable(node) is Some ==> !(transparent(node) is Ident) && !(transparent(node) is Object),
{
}

proof fn properties_that_are_there(
    aliases: Map<Seq<char>, Seq<char>>,
    object: Seq<char>,
    props: Seq<Node>,
    known: Map<Seq<char>, Seq<char>>,
    key: Seq<char>,
    variable: Seq<char>,
)
    ensures
        with_properties(aliases, object, props, known).contains_pair(key, variable) ==> aliases.contains_pair(key, variable)
            || exists|i: int, property: Seq<char>|
            #![trigger is_property(props[i], property)]
            0 <= i < props.len() && is_property(props[i], property) && property_reads(props[i], known, variable) && key == object
                + "."@ + property,
        !has_prefix(key, object + "."@) && aliases.contains_pair(key, variable) ==> with_properties(
            aliases,
            object,
            props,
            known,
        ).contains_pair(key, variable),
    decreases props.len(),
{
    if props.len() > 0 {
        let init = props.drop_last();
        let n = props.len() - 1;
        let last = props[n];
        properties_that_are_there(aliases, object, init, known, key, variable);
        let before = with_properties(aliases, object, init, known);
        if before.contains_pair(key, variable) && !aliases.contains_pair(key, variable) {
            let (i, property) = choose|i: int, property: Seq<char>|
                #![trigger is_property(init[i], property)]
                0 <= i < init.len() && is_property(init[i], property) && property_reads(init[i], known, variable) && key == object
                    + "."@ + property;
            assert(props[i] == init[i]);
            assert(is_property(props[i], property));
        }
        match property_variable(last, known) {
            Some((property, found)) => {
                a_property_is_what_it_reads(last, known, property, found);
                assert(is_property(props[n], property));
                a_prefix_is_taken_off(object + "."@, property);
            },
            None => {},
        }
    }
}

/// A property that stands for a variable is kept under the object's name and its
/// own, unless a later one goes by the name.
pub proof fn a_property_stays(
    aliases: Map<Seq<char>, Seq<char>>,
    object: Seq<char>,
    props: Seq<Node>,
    known: Map<Seq<char>, Seq<char>>,
    i: int,
    property: Seq<char>,
    variable: Seq<char>,
)
    requires
        0 <= i < props.len(),
        is_property(props[i], property),
        property_reads(props[i], known, variable),
        forall|j: int| i < j < props.len() ==> !is_property(#[trigger] props[j], property),
    ensures
        with_properties(aliases, object, props, known).contains_pair(object + "."@ + property, variable),
    decreases props.len(),
{
    let init = props.drop_last();
    let last = props[props.len() - 1];
    if i == props.len() - 1 {
        a_property_is_what_it_reads(last, known, property, variable);
    } else {
        assert forall|j: int| i < j < init.len() implies !is_property(#[trigger] init[j], property) by {
            assert(init[j] == props[j]);
        }
        a_property_stays(aliases, object, init, known, i, property, variable);
        match property_variable(last, known) {
            Some((other, found)) => {
                a_property_is_what_it_reads(last, known, other, found);
                a_prefix_is_taken_off(object + "."@, property);
                a_prefix_is_taken_off(object + "."@, other);
            },
            None => {},
        }
    }
}

/// What one declaration does to the aliases.
proof fn one_alias(state: EnvAliasExtractorModel, declaration: Node, key: Seq<char>, variable: Seq<char>)
    ensures
        declares(declaration, key, variable) ==> with_declarator(state, declaration).aliases.contains_pair(key, variable),
        with_declarator(state, declaration).aliases.contains_pair(key, variable) ==> state.aliases.contains_pair(key, variable)
            || declares(declaration, key, variable) || declares_property(declaration, state.aliases, key, variable),
        (forall|name: Seq<char>, value: Node| #[trigger]
            binds(declaration, name, value) ==> name != key && !has_prefix(key, name + "."@)) && state.aliases.contains_pair(
            key,
            variable,
        ) ==> with_declarator(state, declaration).aliases.contains_pair(key, variable),
{
    if declares(declaration, key, variable) {
        let value = choose|value: Node| #[trigger] binds(declaration, key, value) && reads(value, variable);
        variables_are_what_is_read(value, variable);
    }
    match simple_binding(declaration) {
        Some((name, value)) => {
            assert(binds(declaration, name, value));
            match env_variable(value) {
                Some(found) => {
                    variables_are_what_is_read(value, found);
                    assert(declares(declaration, name, found));
                },
                None => match transparent(value) {
                    Node::Object(props) => {
                        an_expression_is_one_thing(value);
                        properties_that_are_there(state.aliases, name, props@, state.aliases, key, variable);
                        if with_declarator(state, declaration).aliases.contains_pair(key, variable)
                            && !state.aliases.contains_pair(key, variable) {
                            let (i, property) = choose|i: int, property: Seq<char>|
                                #![trigger is_property(props@[i], property)]
                                0 <= i < props@.len() && is_property(props@[i], property) && property_reads(
                                    props@[i],
                                    state.aliases,
                                    variable,
                                ) && key == name + "."@ + property;
                            assert(has_property_at(declaration, name, value, props@, i, property));
                            assert(declares_property(declaration, state.aliases, key, variable));
                        }
                    },
                    _ => {},
                },
            }
        },
        None => {},
    }
}

proof fn an_alias_stands(declared: Seq<Node>, k: int, key: Seq<char>, variable: Seq<char>)
    requires
        0 <= k < declared.len(),
        with_declarators(no_bindings(), declared.take(k + 1)).aliases.contains_pair(key, variable),
        forall|m: int, name: Seq<char>, value: Node|
            k < m < declared.len() && #[trigger] binds(declared[m], name, value) ==> name != key && !has_prefix(key, name + "."@),
    ensures
        with_declarators(no_bindings(), declared).aliases.contains_pair(key, variable),
    decreases declared.len(),
{
    if k == declared.len() - 1 {
        assert(declared.take(k + 1) =~= declared);
    } else {
        let init = declared.drop_last();
        assert(init.take(k + 1) =~= declared.take(k + 1));
        assert forall|m: int, name: Seq<char>, value: Node|
            k < m < init.len() && #[trigger] binds(init[m], name, value) implies name != key && !has_prefix(key, name + "."@) by {
            assert(init[m] == declared[m]);
            assert(binds(declared[m], name, value));
        }
        an_alias_stands(init, k, key, variable);
        let last = declared[declared.len() - 1];
        assert forall|name: Seq<char>, value: Node| #[trigger] binds(last, name, value) implies name != key && !has_prefix(
            key,
            name + "."@,
        ) by {
            assert(binds(declared[declared.len() - 1], name, value));
        }
        one_alias(with_declarators(no_bindings(), init), last, key, variable);
    }
}

/// A name that is bound to a read of the environment stands for the variable,
/// unless a later declaration binds the name again.
pub proof fn a_binding_stands_for_its_variable(nodes: Seq<Node>, k: int, name: Seq<char>, variable: Seq<char>)
    requires
        0 <= k < declarations(nodes).len(),
        declares(declarations(nodes)[k], name, variable),
        forall|m: int, other: Seq<char>, value: Node|
            k < m < declarations(nodes).len() && #[trigger] binds(declarations(nodes)[m], other, value) ==> other != name
                && !has_prefix(name, other + "."@),
    ensures
        bindings_of(nodes).aliases.contains_pair(name, variable),
{
    let declared = declarations(nodes);
    bindings_are_those_of_the_declarations(nodes);
    let upto = declared.take(k + 1);
    assert(upto.drop_last() =~= declared.take(k));
    assert(upto.last() == declared[k]);
    one_alias(with_declarators(no_bindings(), declared.take(k)), declared[k], name, variable);
    an_alias_stands(declared, k, name, variable);
}

/// A property of an object literal that reads the environment stands for the
/// variable under the object's name and its own, and so does one whose value is
/// a name that stands for a variable where the literal is written.
pub proof fn a_property_stands_for_its_variable(
    nodes: Seq<Node>,
    k: int,
    name: Seq<char>,
    value: Node,
    props: Seq<Node>,
    i: int,
    property: Seq<char>,
    variable: Seq<char>,
)
    requires
        0 <= k < declarations(nodes).len(),
        has_property_at(declarations(nodes)[k], name, value, props, i, property),
        property_reads(props[i], with_declarators(no_bindings(), declarations(nodes).take(k)).aliases, variable),
        forall|j: int| i < j < props.len() ==> !is_property(#[trigger] props[j], property),
        forall|m: int, other: Seq<char>, value: Node|
            k < m < declarations(nodes).len() && #[trigger] binds(declarations(nodes)[m], other, value) ==> other != name + "."@
                + property && !has_prefix(name + "."@ + property, other + "."@),
    ensures
        bindings_of(nodes).aliases.contains_pair(name + "."@ + property, variable),
{
    let declared = declarations(nodes);
    bindings_are_those_of_the_declarations(nodes);
    let upto = declared.take(k + 1);
    assert(upto.drop_last() =~= declared.take(k));
    assert(upto.last() == declared[k]);
    let state = with_declarators(no_bindings(), declared.take(k));
    an_expression_is_one_thing(value);
    variable_expressions_are_no_names(value);
    a_property_stays(state.aliases, name, props, state.aliases, i, property, variable);
    an_alias_stands(declared, k, name + "."@ + property, variable);
}

proof fn an_alias_has_its_declaration(declared: Seq<Node>, key: Seq<char>, variable: Seq<char>)
    ensures
        with_declarators(no_bindings(), declared).aliases.contains_pair(key, variable) ==> exists|k: int|
            0 <= k < declared.len() && (declares(#[trigger] declared[k], key, variable) || declares_property(
                declared[k],
                with_declarators(no_bindings(), declared.take(k)).aliases,
                key,
                variable,
            )),
    decreases declared.len(),
{
    if declared.len() > 0 {
        let n = declared.len() - 1;
        let init = declared.drop_last();
        an_alias_has_its_declaration(init, key, variable);
        assert(init =~= declared.take(n));
        one_alias(with_declarators(no_bindings(), init), declared[n], key, variable);
        if with_declarators(no_bindings(), init).aliases.contains_pair(key, variable) {
            let k = choose|k: int|
                0 <= k < init.len() && (declares(#[trigger] init[k], key, variable) || declares_property(
                    init[k],
                    with_declarators(no_bindings(), init.take(k)).aliases,
                    key,
                    variable,
                ));
            assert(init.take(k) =~= declared.take(k));
            assert(init[k] == declared[k]);
        }
    }
}

/// Nothing else stands for a variable.
pub proof fn every_alias_is_declared(nodes: Seq<Node>, key: Seq<char>, variable: Seq<char>)
    ensures
        bindings_of(nodes).aliases.contains_pair(key, variable) ==> exists|k: int|
            0 <= k < declarations(nodes).len() && (declares(#[trigger] declarations(nodes)[k], key, variable)
                || declares_property(
                declarations(nodes)[k],
                with_declarators(no_bindings(), declarations(nodes).take(k)).aliases,
                key,
                variable,
            )),
{
    bindings_are_those_of_the_declarations(nodes);
    an_alias_has_its_declaration(declarations(nodes), key, variable);
}

// ---------------------------------------------------------------------------
// URLs that a module holds
// ---------------------------------------------------------------------------

/// The literal is an absolute URL: a scheme and a host.
pub open spec fn is_url(literal: Seq<char>) -> bool {
    exists|scheme: Seq<char>, rest: Seq<char>|
        is_scheme(scheme) && literal == #[trigger] (scheme + rest) && trimmed(rest).len() > 0 && rest[0] != '/'
}

/// The declaration binds a name to an absolute URL.
pub open spec fn holds_url(declaration: Node, name: Seq<char>, literal: Seq<char>) -> bool {
    exists|value: Node| #[trigger] binds(declaration, name, value) && is_literal(value, literal) && is_url(literal)
}

pub open spec fn holds_some_url(declaration: Node, name: Seq<char>) -> bool {
    exists|literal: Seq<char>| #[trigger] holds_url(declaration, name, literal)
}

/// The declarations at the top level of a module, exported or not, in order.
pub open spec fn top_declarations(items: Seq<ModuleItem>) -> Seq<Node>
    decreases items.len(),
{
    if items.len() == 0 {
        Seq::empty()
    } else {
        top_declarations(items.drop_last()) + (match items.last() {
            ModuleItem::Statement(Node::VarDecl(declarators)) => declarators@,
            ModuleItem::ExportDecl(Node::VarDecl(declarators)) => declarators@,
            _ => Seq::empty(),
        })
    }
}

proof fn urls_are_urls(literal: Seq<char>)
    ensures
        is_absolute_url(literal) <==> is_url(literal),
{
    reveal_strlit("/");
    if is_absolute_url(literal) {
        let rest = after_scheme(literal)->0;
        a_scheme_is_taken_off(literal, rest);
        assert(rest.len() > 0) by {
            if rest.len() == 0 {
                assert(rest =~= Seq::empty());
                trimmed_stays(rest);
            }
        }
        if rest[0] == '/' {
            assert(rest.subrange(0, 1) =~= "/"@);
        }
        if literal == "http://"@ + rest {
            assert(is_scheme("http://"@));
        } else {
            assert(is_scheme("https://"@));
        }
    }
    if is_url(literal) {
        let (scheme, rest) = choose|scheme: Seq<char>, rest: Seq<char>|
            is_scheme(scheme) && literal == #[trigger] (scheme + rest) && trimmed(rest).len() > 0 && rest[0] != '/';
        a_scheme_is_taken_off(literal, rest);
        if has_prefix(rest, "/"@) {
            assert(rest.subrange(0, 1)[0] == rest[0]);
            assert("/"@[0] == '/');
        }
    }
}

proof fn literal_bases_one_after_the_other(bases: Map<Seq<char>, Seq<char>>, a: Seq<Node>, b: Seq<Node>)
    ensures
        with_literal_bases(bases, a + b) == with_literal_bases(with_literal_bases(bases, a), b),
    decreases b.len(),
{
    if b.len() == 0 {
        assert(a + b =~= a);
    } else {
        assert((a + b).drop_last() =~= a + b.drop_last());
        assert((a + b).last() == b.last());
        literal_bases_one_after_the_other(bases, a, b.drop_last());
    }
}

proof fn literal_bases_are_those_of_the_declarations(items: Seq<ModuleItem>)
    ensures
        literal_bases_of(items) == with_literal_bases(Map::empty(), top_declarations(items)),
    decreases items.len(),
{
    if items.len() > 0 {
        literal_bases_are_those_of_the_declarations(items.drop_last());
        literal_bases_one_after_the_other(
            Map::empty(),
            top_declarations(items.drop_last()),
            item_declarators(items.last()),
        );
    }
}

proof fn bases_of_declarations(declared: Seq<Node>, name: Seq<char>, literal: Seq<char>)
    ensures
        with_literal_bases(Map::empty(), declared).contains_pair(name, literal) <==> exists|k: int|
            0 <= k < declared.len() && holds_url(#[trigger] declared[k], name, literal) && forall|m: int|
                k < m < declared.len() ==> !holds_some_url(#[trigger] declared[m], name),
    decreases declared.len(),
{
    let all = with_literal_bases(Map::empty(), declared);
    if declared.len() > 0 {
        let n = declared.len() - 1;
        let last = declared[n];
        let init = declared.drop_last();
        let before = with_literal_bases(Map::empty(), init);
        bases_of_declarations(init, name, literal);
        urls_are_urls(literal);
        match simple_binding(last) {
            Some((bound, value)) => {
                literals_are_what_is_written(value, literal);
                assert(binds(last, bound, value));
                if literal_of(value) is Some {
                    let held = literal_of(value)->0;
                    literals_are_what_is_written(value, held);
                    urls_are_urls(held);
                    if is_absolute_url(held) {
                        assert(holds_url(last, bound, held));
                        assert(holds_some_url(last, bound));
                    }
                }
            },
            None => {},
        }
        if holds_some_url(last, name) {
            let held = choose|held: Seq<char>| #[trigger] holds_url(last, name, held);
            let value = choose|value: Node| #[trigger] binds(last, name, value) && is_literal(value, held) && is_url(held);
            literals_are_what_is_written(value, held);
            urls_are_urls(held);
            assert(all.contains_pair(name, held));
            if held == literal {
                assert(holds_url(declared[n], name, literal));
            } else if holds_url(last, name, literal) {
                let other = choose|other: Node| #[trigger]
                    binds(last, name, other) && is_literal(other, literal) && is_url(literal);
                literals_are_what_is_written(other, literal);
            }
        } else {
            assert(all.contains_pair(name, literal) == before.contains_pair(name, literal));
            if before.contains_pair(name, literal) {
                let k = choose|k: int|
                    0 <= k < init.len() && holds_url(#[trigger] init[k], name, literal) && forall|m: int|
                        k < m < init.len() ==> !holds_some_url(#[trigger] init[m], name);
                assert forall|m: int| k < m < declared.len() implies !holds_some_url(#[trigger] declared[m], name) by {
                    if m < n {
                        assert(init[m] == declared[m]);
                    }
                }
                assert(holds_url(declared[k], name, literal));
            }
        }
        if exists|k: int|
            0 <= k < declared.len() && holds_url(#[trigger] declared[k], name, literal) && forall|m: int|
                k < m < declared.len() ==> !holds_some_url(#[trigger] declared[m], name) {
            let k = choose|k: int|
                0 <= k < declared.len() && holds_url(#[trigger] declared[k], name, literal) && forall|m: int|
                    k < m < declared.len() ==> !holds_some_url(#[trigger] declared[m], name);
            if k < n {
                assert(!holds_some_url(declared[n], name));
                assert(init[k] == declared[k]);
                assert forall|m: int| k < m < init.len() implies !holds_some_url(#[trigger] init[m], name) by {
                    assert(init[m] == declared[m]);
                }
            } else {
                assert(holds_some_url(last, name));
            }
        }
    }
}

/// A name holds the absolute URL that the last declaration of it at the top
/// level of the module gives it, and nothing else is held.
pub proof fn a_name_holds_the_last_url_given(items: Seq<ModuleItem>, name: Seq<char>, literal: Seq<char>)
    ensures
        literal_bases_of(items).contains_pair(name, literal) <==> exists|k: int|
            0 <= k < top_declarations(items).len() && holds_url(#[trigger] top_declarations(items)[k], name, literal)
                && forall|m: int|
                k < m < top_declarations(items).len() ==> !holds_some_url(#[trigger] top_declarations(items)[m], name),
{
    literal_bases_are_those_of_the_declarations(items);
    bases_of_declarations(top_declarations(items), name, literal);
}

} // verus!
