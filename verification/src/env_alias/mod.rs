//! Bindings that read the environment.
//!
//! A base URL is often read from the environment into a binding, or into a
//! property of a configuration object, and interpolated into a request. This
//! module reads such bindings off a module's syntax, follows them through its
//! exports and imports, and writes call targets back in terms of the variable.
//!
//! Only direct reads count, with or without a default, as a plain binding or one
//! object literal deep. Nothing is followed that would need data flow.

use crate::env_alias::targets::{after_scheme, url_literal_path, url_path};
use crate::framework_detector::{ImportedSymbol, SymbolKind};
use crate::ordered::{keys_ascend, no_texts, set_text, text_at, texts_of, texts_of_next, TextMap};
use crate::parsing::{has_positions, parse_source, syntax_is};
use crate::syntax::{
    module_nodes, nodes_of, refer_to, BinaryOp, ExportName, ExportSpecifier, Module, ModuleItem, Node, Pattern, PropKey,
    Wrapper,
};
use crate::text::{after_prefix, concat, concat3, has_prefix, same, starts_with, strip_prefix, trim, trimmed};
use vstd::prelude::*;

pub mod schema;
pub mod targets;

verus! {

// ---------------------------------------------------------------------------
// Reading expressions
// ---------------------------------------------------------------------------

/// An expression without the wrappers that do not change its value: brackets,
/// type assertions and the non-null mark.
pub open spec fn transparent(node: Node) -> Node
    decreases node,
{
    match node {
        Node::Wrapped { wrapper, inner } => if wrapper == Wrapper::Await {
            node
        } else {
            transparent(*inner)
        },
        _ => node,
    }
}

pub proof fn transparent_is_within(node: Node)
    ensures
        transparent(node) == node || decreases_to!(node => transparent(node)),
    decreases node,
{
    match node {
        Node::Wrapped { wrapper, inner } => {
            transparent_is_within(*inner);
        },
        _ => {},
    }
}

pub fn unwrap_transparent<'a>(node: &'a Node) -> (r: &'a Node)
    ensures
        *r == transparent(*node),
    decreases *node,
{
    match node {
        Node::Wrapped { wrapper, inner } => {
            if *wrapper == Wrapper::Await {
                node
            } else {
                unwrap_transparent(&**inner)
            }
        },
        _ => node,
    }
}

/// The expression is `process.env`.
pub open spec fn is_environment(node: Node) -> bool {
    node matches Node::Member { object, property } && property@ == "env"@ && (*object matches Node::Ident(name)
        && name.symbol@ == "process"@)
}

fn reads_environment(node: &Node) -> (r: bool)
    ensures
        r == is_environment(*node),
{
    match node {
        Node::Member { object, property } => match &**object {
            Node::Ident(name) => same(property.as_str(), "env") && same(name.symbol.as_str(), "process"),
            _ => false,
        },
        _ => false,
    }
}

/// The variable that an expression reads from the environment, by name or by a
/// literal index, with a default behind it or not.
pub open spec fn env_variable(node: Node) -> Option<Seq<char>>
    decreases node,
{
    proof {
        transparent_is_within(node);
    }
    match transparent(node) {
        Node::Member { object, property } => if is_environment(*object) {
            Some(property@)
        } else {
            None
        },
        Node::Index { object, index } => if is_environment(*object) && *index is Text {
            Some(index->Text_0@)
        } else {
            None
        },
        Node::Binary { op, left, .. } => if op == BinaryOp::Other {
            None
        } else {
            env_variable(*left)
        },
        _ => None,
    }
}

pub fn process_env_name(node: &Node) -> (r: Option<String>)
    ensures
        r.deep_view() == env_variable(*node),
    decreases *node,
{
    proof {
        transparent_is_within(*node);
    }
    match unwrap_transparent(node) {
        Node::Member { object, property } => {
            if reads_environment(&**object) {
                Some(property.clone())
            } else {
                None
            }
        },
        Node::Index { object, index } => {
            if reads_environment(&**object) {
                match &**index {
                    Node::Text(name) => Some(name.clone()),
                    _ => None,
                }
            } else {
                None
            }
        },
        Node::Binary { op, left, .. } => {
            if *op == BinaryOp::Other {
                None
            } else {
                process_env_name(&**left)
            }
        },
        _ => None,
    }
}

/// The value of a plain string literal.
pub open spec fn literal_of(node: Node) -> Option<Seq<char>> {
    match transparent(node) {
        Node::Text(s) => Some(s@),
        _ => None,
    }
}

pub fn string_literal(node: &Node) -> (r: Option<String>)
    ensures
        r.deep_view() == literal_of(*node),
{
    match unwrap_transparent(node) {
        Node::Text(s) => Some(s.clone()),
        _ => None,
    }
}

/// The literal that an expression falls back to.
pub open spec fn fallback_of(node: Node) -> Option<Seq<char>> {
    match transparent(node) {
        Node::Binary { op, right, .. } => if op == BinaryOp::Other {
            None
        } else {
            literal_of(*right)
        },
        _ => None,
    }
}

fn fallback_literal(node: &Node) -> (r: Option<String>)
    ensures
        r.deep_view() == fallback_of(*node),
{
    match unwrap_transparent(node) {
        Node::Binary { op, right, .. } => {
            if *op == BinaryOp::Other {
                None
            } else {
                string_literal(&**right)
            }
        },
        _ => None,
    }
}

/// A literal that is an absolute URL with a path.
pub open spec fn states_path(literal: Seq<char>) -> bool {
    url_path(literal) matches Some(path) && path.len() > 0
}

fn has_path(literal: &str) -> (r: bool)
    ensures
        r == states_path(literal@),
{
    match url_literal_path(literal) {
        Some(path) => !path.as_str().is_empty(),
        None => false,
    }
}

/// A literal that is an absolute URL: a scheme with a host behind it.
pub open spec fn is_absolute_url(literal: Seq<char>) -> bool {
    after_scheme(literal) matches Some(rest) && trimmed(rest).len() > 0 && !has_prefix(rest, "/"@)
}

fn absolute_url(literal: &str) -> (r: bool)
    ensures
        r == is_absolute_url(literal@),
{
    let rest = match strip_prefix(literal, "http://") {
        Some(rest) => rest,
        None => match strip_prefix(literal, "https://") {
            Some(rest) => rest,
            None => {
                return false;
            },
        },
    };
    !trim(rest.as_str()).as_str().is_empty() && !starts_with(rest.as_str(), "/")
}

pub open spec fn key_name(key: PropKey) -> Option<Seq<char>> {
    match key {
        PropKey::Ident(name) => Some(name@),
        PropKey::Text(name) => Some(name@),
        PropKey::Other => None,
    }
}

pub fn property_name(key: &PropKey) -> (r: Option<String>)
    ensures
        r.deep_view() == key_name(*key),
{
    match key {
        PropKey::Ident(name) => Some(name.clone()),
        PropKey::Text(name) => Some(name.clone()),
        PropKey::Other => None,
    }
}

// ---------------------------------------------------------------------------
// The bindings of a module
// ---------------------------------------------------------------------------

/// The variable that an expression stands for: one that it reads, or one that a
/// known binding reads.
pub open spec fn known_variable(node: Node, known: Map<Seq<char>, Seq<char>>) -> Option<Seq<char>> {
    match env_variable(node) {
        Some(variable) => Some(variable),
        None => match transparent(node) {
            Node::Ident(name) => if known.contains_key(name.symbol@) {
                Some(known[name.symbol@])
            } else {
                None
            },
            _ => None,
        },
    }
}

/// The name of a property and the variable that it stands for.
pub open spec fn property_variable(prop: Node, known: Map<Seq<char>, Seq<char>>) -> Option<(Seq<char>, Seq<char>)> {
    match prop {
        Node::KeyValue { key, value, .. } => match (key_name(key), known_variable(*value, known)) {
            (Some(name), Some(variable)) => Some((name, variable)),
            _ => None,
        },
        Node::Shorthand(name) => if known.contains_key(name.symbol@) {
            Some((name.symbol@, known[name.symbol@]))
        } else {
            None
        },
        _ => None,
    }
}

fn read_property(prop: &Node, known: &TextMap<String>) -> (r: Option<(String, String)>)
    ensures
        r.deep_view() == property_variable(*prop, known.deep_view()),
{
    match prop {
        Node::KeyValue { key, value, .. } => {
            let name = match property_name(key) {
                Some(name) => name,
                None => {
                    return None;
                },
            };
            match process_env_name(&**value) {
                Some(variable) => Some((name, variable)),
                None => match unwrap_transparent(&**value) {
                    Node::Ident(ident) => match text_at(known, ident.symbol.as_str()) {
                        Some(variable) => Some((name, variable.clone())),
                        None => None,
                    },
                    _ => None,
                },
            }
        },
        Node::Shorthand(ident) => match text_at(known, ident.symbol.as_str()) {
            Some(variable) => Some((ident.symbol.clone(), variable.clone())),
            None => None,
        },
        _ => None,
    }
}

/// The bindings with the properties of an object, each under the object's name
/// and its own, as far as they stand for a variable.
pub open spec fn with_properties(
    aliases: Map<Seq<char>, Seq<char>>,
    object: Seq<char>,
    props: Seq<Node>,
    known: Map<Seq<char>, Seq<char>>,
) -> Map<Seq<char>, Seq<char>>
    decreases props.len(),
{
    if props.len() == 0 {
        aliases
    } else {
        let before = with_properties(aliases, object, props.drop_last(), known);
        match property_variable(props.last(), known) {
            Some((name, variable)) => before.insert(object + "."@ + name, variable),
            None => before,
        }
    }
}

fn add_properties(aliases: &mut TextMap<String>, object: &str, props: &Vec<Node>, known: &TextMap<String>)
    ensures
        final(aliases).deep_view() == with_properties(old(aliases).deep_view(), object@, props@, known.deep_view()),
{
    let ghost start = aliases.deep_view();
    let mut i: usize = 0;
    while i < props.len()
        invariant
            i <= props.len(),
            start == old(aliases).deep_view(),
            aliases.deep_view() == with_properties(start, object@, props@.take(i as int), known.deep_view()),
        decreases props.len() - i,
    {
        assert(props@.take(i + 1).drop_last() =~= props@.take(i as int));
        assert(props@.take(i + 1).last() == props@[i as int]);
        match read_property(&props[i], known) {
            Some((name, variable)) => set_text(aliases, concat3(object, ".", name.as_str()), variable),
            None => {},
        }
        i += 1;
    }
    assert(props@.take(props@.len() as int) =~= props@);
}

/// Binding names and the variables that they read.
pub type EnvAliasMap = TextMap<String>;

/// Binding names, and variables, with the URL that their declaration falls back
/// to, where that has a path.
pub type WholeUrlFallbackMap = TextMap<String>;

/// Binding names, and variables, with the literal that their declaration falls
/// back to.
pub type EnvFallbackMap = TextMap<String>;

/// Binding names at the top level and the absolute URL that they hold.
pub type LiteralBaseMap = TextMap<String>;

/// The bindings of a module that have to do with URLs.
pub struct UrlBindings {
    pub aliases: EnvAliasMap,
    pub whole_url_fallbacks: WholeUrlFallbackMap,
    pub env_fallbacks: EnvFallbackMap,
    pub literal_bases: LiteralBaseMap,
}

/// Collects the bindings that read the environment.
pub struct EnvAliasExtractor {
    pub aliases: EnvAliasMap,
    pub whole_url_fallbacks: WholeUrlFallbackMap,
    pub env_fallbacks: EnvFallbackMap,
}

/// What an [`EnvAliasExtractor`] holds.
pub struct EnvAliasExtractorModel {
    pub aliases: Map<Seq<char>, Seq<char>>,
    pub whole_url_fallbacks: Map<Seq<char>, Seq<char>>,
    pub env_fallbacks: Map<Seq<char>, Seq<char>>,
}

impl DeepView for EnvAliasExtractor {
    type V = EnvAliasExtractorModel;

    open spec fn deep_view(&self) -> EnvAliasExtractorModel {
        EnvAliasExtractorModel {
            aliases: self.aliases.deep_view(),
            whole_url_fallbacks: self.whole_url_fallbacks.deep_view(),
            env_fallbacks: self.env_fallbacks.deep_view(),
        }
    }
}

pub open spec fn no_bindings() -> EnvAliasExtractorModel {
    EnvAliasExtractorModel {
        aliases: Map::empty(),
        whole_url_fallbacks: Map::empty(),
        env_fallbacks: Map::empty(),
    }
}

/// The name and the value of a declaration of one name.
pub open spec fn simple_binding(declarator: Node) -> Option<(Seq<char>, Node)> {
    match declarator {
        Node::Declarator { pattern: Pattern::Name(name), init: Some(init) } => Some((name.symbol@, *init)),
        _ => None,
    }
}

/// The bindings with those of one declaration. A read of the environment is an
/// alias, and its default is kept under both names; an object literal makes an
/// alias of each property that stands for a variable.
pub open spec fn with_declarator(state: EnvAliasExtractorModel, declarator: Node) -> EnvAliasExtractorModel {
    match simple_binding(declarator) {
        Some((name, init)) => match env_variable(init) {
            Some(variable) => EnvAliasExtractorModel {
                aliases: state.aliases.insert(name, variable),
                whole_url_fallbacks: match fallback_of(init) {
                    Some(literal) => if states_path(literal) {
                        state.whole_url_fallbacks.insert(name, literal).insert(variable, literal)
                    } else {
                        state.whole_url_fallbacks
                    },
                    None => state.whole_url_fallbacks,
                },
                env_fallbacks: match fallback_of(init) {
                    Some(literal) => state.env_fallbacks.insert(name, literal).insert(variable, literal),
                    None => state.env_fallbacks,
                },
            },
            None => match transparent(init) {
                Node::Object(props) => EnvAliasExtractorModel {
                    aliases: with_properties(state.aliases, name, props@, state.aliases),
                    ..state
                },
                _ => state,
            },
        },
        None => state,
    }
}

pub open spec fn with_declarators(state: EnvAliasExtractorModel, declarators: Seq<Node>) -> EnvAliasExtractorModel
    decreases declarators.len(),
{
    if declarators.len() == 0 {
        state
    } else {
        with_declarator(with_declarators(state, declarators.drop_last()), declarators.last())
    }
}

/// The bindings that the variable declarations among the nodes make.
pub open spec fn bindings_of(nodes: Seq<Node>) -> EnvAliasExtractorModel
    decreases nodes.len(),
{
    if nodes.len() == 0 {
        no_bindings()
    } else {
        match nodes.last() {
            Node::VarDecl(declarators) => with_declarators(bindings_of(nodes.drop_last()), declarators@),
            _ => bindings_of(nodes.drop_last()),
        }
    }
}

/// The absolute URLs that declarations hold.
pub open spec fn with_literal_bases(bases: Map<Seq<char>, Seq<char>>, declarators: Seq<Node>) -> Map<Seq<char>, Seq<char>>
    decreases declarators.len(),
{
    if declarators.len() == 0 {
        bases
    } else {
        let before = with_literal_bases(bases, declarators.drop_last());
        match simple_binding(declarators.last()) {
            Some((name, init)) => match literal_of(init) {
                Some(literal) => if is_absolute_url(literal) {
                    before.insert(name, literal)
                } else {
                    before
                },
                None => before,
            },
            None => before,
        }
    }
}

/// The variable declaration that an item of a module is, exported or not.
pub open spec fn item_declarators(item: ModuleItem) -> Seq<Node> {
    match item {
        ModuleItem::Statement(Node::VarDecl(declarators)) => declarators@,
        ModuleItem::ExportDecl(Node::VarDecl(declarators)) => declarators@,
        _ => Seq::empty(),
    }
}

/// The absolute URLs that a module declares at its top level. Deeper down a
/// name is not unique in a file.
pub open spec fn literal_bases_of(items: Seq<ModuleItem>) -> Map<Seq<char>, Seq<char>>
    decreases items.len(),
{
    if items.len() == 0 {
        Map::empty()
    } else {
        with_literal_bases(literal_bases_of(items.drop_last()), item_declarators(items.last()))
    }
}

fn add_literal_bases(bases: &mut TextMap<String>, declarators: &Vec<Node>)
    ensures
        final(bases).deep_view() == with_literal_bases(old(bases).deep_view(), declarators@),
{
    let ghost start = bases.deep_view();
    let mut i: usize = 0;
    while i < declarators.len()
        invariant
            i <= declarators.len(),
            start == old(bases).deep_view(),
            bases.deep_view() == with_literal_bases(start, declarators@.take(i as int)),
        decreases declarators.len() - i,
    {
        assert(declarators@.take(i + 1).drop_last() =~= declarators@.take(i as int));
        assert(declarators@.take(i + 1).last() == declarators@[i as int]);
        match &declarators[i] {
            Node::Declarator { pattern: Pattern::Name(name), init: Some(init) } => match string_literal(&**init) {
                Some(literal) => {
                    if absolute_url(literal.as_str()) {
                        set_text(bases, name.symbol.clone(), literal);
                    }
                },
                None => {},
            },
            _ => {},
        }
        i += 1;
    }
    assert(declarators@.take(declarators@.len() as int) =~= declarators@);
}

fn module_literal_bases(module: &Module) -> (bases: TextMap<String>)
    ensures
        bases.deep_view() == literal_bases_of(module.items@),
{
    let mut bases = no_texts();
    let mut i: usize = 0;
    while i < module.items.len()
        invariant
            i <= module.items.len(),
            bases.deep_view() == literal_bases_of(module.items@.take(i as int)),
        decreases module.items.len() - i,
    {
        assert(module.items@.take(i + 1).drop_last() =~= module.items@.take(i as int));
        assert(module.items@.take(i + 1).last() == module.items@[i as int]);
        match &module.items[i] {
            ModuleItem::Statement(Node::VarDecl(declarators)) => add_literal_bases(&mut bases, declarators),
            ModuleItem::ExportDecl(Node::VarDecl(declarators)) => add_literal_bases(&mut bases, declarators),
            _ => {},
        }
        i += 1;
    }
    assert(module.items@.take(module.items@.len() as int) =~= module.items@);
    bases
}

impl EnvAliasExtractor {
    fn new() -> (r: Self)
        ensures
            r.deep_view() == no_bindings(),
    {
        EnvAliasExtractor { aliases: no_texts(), whole_url_fallbacks: no_texts(), env_fallbacks: no_texts() }
    }

    fn read_declarator(&mut self, declarator: &Node)
        ensures
            final(self).deep_view() == with_declarator(old(self).deep_view(), *declarator),
    {
        match declarator {
            Node::Declarator { pattern: Pattern::Name(name), init: Some(init) } => match process_env_name(&**init) {
                Some(variable) => {
                    match fallback_literal(&**init) {
                        Some(literal) => {
                            if has_path(literal.as_str()) {
                                set_text(&mut self.whole_url_fallbacks, name.symbol.clone(), literal.clone());
                                set_text(&mut self.whole_url_fallbacks, variable.clone(), literal.clone());
                            }
                            set_text(&mut self.env_fallbacks, name.symbol.clone(), literal.clone());
                            set_text(&mut self.env_fallbacks, variable.clone(), literal);
                        },
                        None => {},
                    }
                    set_text(&mut self.aliases, name.symbol.clone(), variable);
                },
                None => match unwrap_transparent(&**init) {
                    Node::Object(props) => {
                        let known = copy_texts(&self.aliases);
                        add_properties(&mut self.aliases, name.symbol.as_str(), props, &known);
                    },
                    _ => {},
                },
            },
            _ => {},
        }
    }

    fn read_module(&mut self, module: &Module)
        requires
            old(self).deep_view() == no_bindings(),
        ensures
            final(self).deep_view() == bindings_of(module_nodes(*module)),
    {
        let ghost all = module_nodes(*module);
        let nodes = nodes_of(module);
        let mut i: usize = 0;
        while i < nodes.len()
            invariant
                i <= nodes.len(),
                refer_to(nodes@, all),
                self.deep_view() == bindings_of(all.take(i as int)),
            decreases nodes.len() - i,
        {
            assert(all.take(i + 1).drop_last() =~= all.take(i as int));
            assert(all.take(i + 1).last() == *nodes@[i as int]);
            match nodes[i] {
                Node::VarDecl(declarators) => {
                    let ghost start = self.deep_view();
                    let mut k: usize = 0;
                    while k < declarators.len()
                        invariant
                            k <= declarators.len(),
                            self.deep_view() == with_declarators(start, declarators@.take(k as int)),
                        decreases declarators.len() - k,
                    {
                        assert(declarators@.take(k + 1).drop_last() =~= declarators@.take(k as int));
                        assert(declarators@.take(k + 1).last() == declarators@[k as int]);
                        self.read_declarator(&declarators[k]);
                        k += 1;
                    }
                    assert(declarators@.take(declarators@.len() as int) =~= declarators@);
                },
                _ => {},
            }
            i += 1;
        }
        assert(all.take(all.len() as int) =~= all);
    }

    /// The bindings of a module that read the environment.
    pub fn build(module: &Module) -> (r: EnvAliasMap)
        ensures
            r.deep_view() == bindings_of(module_nodes(*module)).aliases,
    {
        EnvAliasExtractor::build_bindings(module).aliases
    }

    /// The bindings of a module that have to do with URLs.
    pub fn build_bindings(module: &Module) -> (r: UrlBindings)
        ensures
            r.aliases.deep_view() == bindings_of(module_nodes(*module)).aliases,
            r.whole_url_fallbacks.deep_view() == bindings_of(module_nodes(*module)).whole_url_fallbacks,
            r.env_fallbacks.deep_view() == bindings_of(module_nodes(*module)).env_fallbacks,
            r.literal_bases.deep_view() == literal_bases_of(module.items@),
    {
        let mut extractor = EnvAliasExtractor::new();
        extractor.read_module(module);
        UrlBindings {
            aliases: extractor.aliases,
            whole_url_fallbacks: extractor.whole_url_fallbacks,
            env_fallbacks: extractor.env_fallbacks,
            literal_bases: module_literal_bases(module),
        }
    }

    /// The bindings of a source text that have to do with URLs; nothing where
    /// the text can not be parsed.
    pub fn build_source(name: &str, source: &str) -> (r: Option<UrlBindings>)
        requires
            has_positions(source@),
        ensures
            exists|module: Option<Module>| #[trigger]
                syntax_is(name@, source@, module) && (match (module, r) {
                    (Some(module), Some(r)) => {
                        &&& r.aliases.deep_view() == bindings_of(module_nodes(module)).aliases
                        &&& r.whole_url_fallbacks.deep_view() == bindings_of(module_nodes(module)).whole_url_fallbacks
                        &&& r.env_fallbacks.deep_view() == bindings_of(module_nodes(module)).env_fallbacks
                        &&& r.literal_bases.deep_view() == literal_bases_of(module.items@)
                    },
                    (None, None) => true,
                    _ => false,
                }),
    {
        let module = parse_source(name, source);
        assert(syntax_is(name@, source@, module));
        match &module {
            Some(module) => Some(EnvAliasExtractor::build_bindings(module)),
            None => None,
        }
    }
}

fn copy_texts(map: &TextMap<String>) -> (r: TextMap<String>)
    ensures
        r.deep_view() == map.deep_view(),
{
    let ghost all = map.listing();
    let count: usize = map.len();
    let mut r = no_texts();
    let mut i: usize = 0;
    assert(r.deep_view() =~= texts_of(all.take(0)));
    while i < count
        invariant
            i <= count,
            all == map.listing(),
            count == all.len(),
            keys_ascend(all),
            r.deep_view() == texts_of(all.take(i as int)),
        decreases count - i,
    {
        let (key, value) = map.entry(i);
        proof {
            texts_of_next(all, i as int);
        }
        set_text(&mut r, key.clone(), value.clone());
        i += 1;
    }
    assert(all.take(all.len() as int) =~= all);
    r
}

// ---------------------------------------------------------------------------
// Exports and imports
// ---------------------------------------------------------------------------

pub open spec fn found_at(map: Map<Seq<char>, Seq<char>>, key: Seq<char>) -> Option<Seq<char>> {
    if map.contains_key(key) {
        Some(map[key])
    } else {
        None
    }
}

/// What a key stands for once a name is another one: the other name stands for
/// what the first one stood for, and a property of it for the same property.
/// The name itself is looked up in one map, its properties in another.
pub open spec fn value_under(
    plain: Map<Seq<char>, Seq<char>>,
    dotted: Map<Seq<char>, Seq<char>>,
    from: Seq<char>,
    to: Seq<char>,
    key: Seq<char>,
) -> Option<Seq<char>> {
    if key == to {
        found_at(plain, from)
    } else {
        match after_prefix(key, to + "."@) {
            Some(suffix) => found_at(dotted, from + "."@ + suffix),
            None => None,
        }
    }
}

pub open spec fn moved(
    plain: Map<Seq<char>, Seq<char>>,
    dotted: Map<Seq<char>, Seq<char>>,
    from: Seq<char>,
    to: Seq<char>,
) -> Map<Seq<char>, Seq<char>> {
    Map::new(
        |key: Seq<char>| value_under(plain, dotted, from, to, key) is Some,
        |key: Seq<char>| value_under(plain, dotted, from, to, key)->0,
    )
}

/// What a map says of one name and its properties, said of another name.
pub open spec fn renamed(map: Map<Seq<char>, Seq<char>>, from: Seq<char>, to: Seq<char>) -> Map<Seq<char>, Seq<char>> {
    moved(map, map, from, to)
}

/// A map with entries put in: over what is there, or only where nothing is.
pub open spec fn put(
    base: Map<Seq<char>, Seq<char>>,
    entries: Map<Seq<char>, Seq<char>>,
    over: bool,
) -> Map<Seq<char>, Seq<char>> {
    if over {
        base.union_prefer_right(entries)
    } else {
        entries.union_prefer_right(base)
    }
}

fn put_one(map: &mut TextMap<String>, key: String, value: String, over: bool)
    ensures
        over || !old(map).deep_view().contains_key(key@) ==> final(map).deep_view() == old(map).deep_view().insert(
            key@,
            value@,
        ),
        !over && old(map).deep_view().contains_key(key@) ==> final(map).deep_view() == old(map).deep_view(),
{
    if over || text_at(map, key.as_str()).is_none() {
        set_text(map, key, value);
    }
}

proof fn dotted_apart(name: Seq<char>, a: Seq<char>, b: Seq<char>)
    ensures
        after_prefix(name + "."@ + a, name + "."@) == Some(a),
        name + "."@ + a == name + "."@ + b ==> a == b,
        name + "."@ + a != name,
{
    reveal_strlit(".");
    let p = name + "."@;
    assert((p + a).subrange(0, p.len() as int) =~= p);
    assert((p + a).skip(p.len() as int) =~= a);
    assert((p + b).skip(p.len() as int) =~= b);
    assert((p + a).len() > name.len());
}

proof fn prefix_gives_back(key: Seq<char>, p: Seq<char>)
    ensures
        after_prefix(key, p) matches Some(s) ==> p + s == key,
{
    if after_prefix(key, p) is Some {
        assert(p + key.skip(p.len() as int) =~= key);
    }
}

proof fn moved_next(
    plain: Map<Seq<char>, Seq<char>>,
    dotted: Map<Seq<char>, Seq<char>>,
    from: Seq<char>,
    to: Seq<char>,
    key: Seq<char>,
    value: Seq<char>,
)
    requires
        !dotted.contains_key(key),
    ensures
        match after_prefix(key, from + "."@) {
            Some(suffix) => {
                &&& moved(plain, dotted.insert(key, value), from, to) == moved(plain, dotted, from, to).insert(
                    to + "."@ + suffix,
                    value,
                )
                &&& !moved(plain, dotted, from, to).contains_key(to + "."@ + suffix)
            },
            None => moved(plain, dotted.insert(key, value), from, to) == moved(plain, dotted, from, to),
        },
{
    let next = dotted.insert(key, value);
    prefix_gives_back(key, from + "."@);
    match after_prefix(key, from + "."@) {
        Some(suffix) => {
            let target = to + "."@ + suffix;
            dotted_apart(to, suffix, suffix);
            assert forall|k: Seq<char>| #[trigger] value_under(plain, next, from, to, k) == (if k == target {
                Some(value)
            } else {
                value_under(plain, dotted, from, to, k)
            }) by {
                prefix_gives_back(k, to + "."@);
                if after_prefix(k, to + "."@) is Some {
                    let s = after_prefix(k, to + "."@)->0;
                    dotted_apart(from, s, suffix);
                }
            }
            assert(moved(plain, next, from, to) =~= moved(plain, dotted, from, to).insert(target, value));
        },
        None => {
            assert forall|k: Seq<char>| #[trigger] value_under(plain, next, from, to, k) == value_under(
                plain,
                dotted,
                from,
                to,
                k,
            ) by {
                if after_prefix(k, to + "."@) is Some {
                    let s = after_prefix(k, to + "."@)->0;
                    dotted_apart(from, s, s);
                }
            }
            assert(moved(plain, next, from, to) =~= moved(plain, dotted, from, to));
        },
    }
}

/// Puts what a map says of one name into another map, said of another name.
fn put_renamed(map: &mut TextMap<String>, source: &TextMap<String>, from: &str, to: &str, over: bool)
    ensures
        final(map).deep_view() == put(old(map).deep_view(), renamed(source.deep_view(), from@, to@), over),
{
    let ghost base = map.deep_view();
    let ghost whole = source.deep_view();
    let ghost none = Map::<Seq<char>, Seq<char>>::empty();
    proof {
        assert forall|k: Seq<char>| #[trigger] value_under(whole, none, from@, to@, k) == (if k == to@ {
            found_at(whole, from@)
        } else {
            None
        }) by {}
    }
    match text_at(source, from) {
        Some(value) => {
            put_one(map, to.to_owned(), value.clone(), over);
            assert(moved(whole, none, from@, to@) =~= none.insert(to@, value@));
        },
        None => {
            assert(moved(whole, none, from@, to@) =~= none);
        },
    }
    assert(map.deep_view() =~= put(base, moved(whole, none, from@, to@), over));
    let prefix = concat(from, ".");
    let ghost all = source.listing();
    let count: usize = source.len();
    let mut i: usize = 0;
    assert(texts_of(all.take(0)) =~= none);
    while i < count
        invariant
            i <= count,
            all == source.listing(),
            whole == source.deep_view(),
            whole == texts_of(all),
            count == all.len(),
            keys_ascend(all),
            prefix@ == from@ + "."@,
            map.deep_view() == put(base, moved(whole, texts_of(all.take(i as int)), from@, to@), over),
        decreases count - i,
    {
        let (key, value) = source.entry(i);
        let ghost dotted = texts_of(all.take(i as int));
        proof {
            texts_of_next(all, i as int);
            moved_next(whole, dotted, from@, to@, key@, value@);
        }
        match strip_prefix(key.as_str(), prefix.as_str()) {
            Some(suffix) => {
                let target = concat3(to, ".", suffix.as_str());
                let ghost before = map.deep_view();
                put_one(map, target, value.clone(), over);
                proof {
                    let next = moved(whole, dotted, from@, to@).insert(target@, value@);
                    assert(before.contains_key(target@) == base.contains_key(target@));
                    assert(map.deep_view() =~= put(base, next, over));
                }
            },
            None => {},
        }
        i += 1;
    }
    assert(all.take(all.len() as int) =~= all);
}

/// The exported and the local name of each binding that a module exports.
pub open spec fn named_exports(specifiers: Seq<ExportSpecifier>) -> Seq<(Seq<char>, Seq<char>)>
    decreases specifiers.len(),
{
    if specifiers.len() == 0 {
        Seq::empty()
    } else {
        let before = named_exports(specifiers.drop_last());
        match specifiers.last() {
            ExportSpecifier::Named { original: ExportName::Ident(original), exported, .. } => before.push(
                (
                    match exported {
                        Some(exported) => exported@,
                        None => original.symbol@,
                    },
                    original.symbol@,
                ),
            ),
            _ => before,
        }
    }
}

pub open spec fn declared_names(declarators: Seq<Node>) -> Seq<(Seq<char>, Seq<char>)>
    decreases declarators.len(),
{
    if declarators.len() == 0 {
        Seq::empty()
    } else {
        let before = declared_names(declarators.drop_last());
        match declarators.last() {
            Node::Declarator { pattern: Pattern::Name(name), .. } => before.push((name.symbol@, name.symbol@)),
            _ => before,
        }
    }
}

/// The exported and local names that one item adds. What is exported from
/// another module has no local name.
pub open spec fn item_exports(item: ModuleItem) -> Seq<(Seq<char>, Seq<char>)> {
    match item {
        ModuleItem::ExportDecl(Node::VarDecl(declarators)) => declared_names(declarators@),
        ModuleItem::ExportNamed { source: None, specifiers, .. } => named_exports(specifiers@),
        ModuleItem::ExportDefaultExpr(node) => match transparent(node) {
            Node::Ident(name) => seq![("default"@, name.symbol@)],
            _ => Seq::empty(),
        },
        _ => Seq::empty(),
    }
}

pub open spec fn export_names(items: Seq<ModuleItem>) -> Seq<(Seq<char>, Seq<char>)>
    decreases items.len(),
{
    if items.len() == 0 {
        Seq::empty()
    } else {
        export_names(items.drop_last()) + item_exports(items.last())
    }
}

/// The properties of object literals that a module exports as the default.
pub open spec fn default_properties(items: Seq<ModuleItem>, locals: Map<Seq<char>, Seq<char>>) -> Map<Seq<char>, Seq<char>>
    decreases items.len(),
{
    if items.len() == 0 {
        Map::empty()
    } else {
        let before = default_properties(items.drop_last(), locals);
        match items.last() {
            ModuleItem::ExportDefaultExpr(node) => match transparent(node) {
                Node::Object(props) => with_properties(before, "default"@, props@, locals),
                _ => before,
            },
            _ => before,
        }
    }
}

pub open spec fn with_exports(
    out: Map<Seq<char>, Seq<char>>,
    names: Seq<(Seq<char>, Seq<char>)>,
    locals: Map<Seq<char>, Seq<char>>,
) -> Map<Seq<char>, Seq<char>>
    decreases names.len(),
{
    if names.len() == 0 {
        out
    } else {
        put(with_exports(out, names.drop_last(), locals), renamed(locals, names.last().1, names.last().0), true)
    }
}

/// The bindings of a module that read the environment, under the names by which
/// other modules import them.
pub open spec fn exported_bindings(module: Module) -> Map<Seq<char>, Seq<char>> {
    let locals = bindings_of(module_nodes(module)).aliases;
    with_exports(default_properties(module.items@, locals), export_names(module.items@), locals)
}

fn push_name(names: &mut Vec<(String, String)>, exported: &str, local: &str)
    ensures
        final(names).deep_view() == old(names).deep_view().push((exported@, local@)),
{
    let ghost before = names.deep_view();
    names.push((exported.to_owned(), local.to_owned()));
    assert(names.deep_view() =~= before.push((exported@, local@)));
}

fn add_declared_names(names: &mut Vec<(String, String)>, declarators: &Vec<Node>)
    ensures
        final(names).deep_view() == old(names).deep_view() + declared_names(declarators@),
{
    let ghost start = names.deep_view();
    let mut i: usize = 0;
    assert(start + declared_names(declarators@.take(0)) =~= start);
    while i < declarators.len()
        invariant
            i <= declarators.len(),
            start == old(names).deep_view(),
            names.deep_view() == start + declared_names(declarators@.take(i as int)),
        decreases declarators.len() - i,
    {
        let ghost before = declared_names(declarators@.take(i as int));
        assert(declarators@.take(i + 1).drop_last() =~= declarators@.take(i as int));
        assert(declarators@.take(i + 1).last() == declarators@[i as int]);
        match &declarators[i] {
            Node::Declarator { pattern: Pattern::Name(name), .. } => {
                push_name(names, name.symbol.as_str(), name.symbol.as_str());
                assert((start + before).push((name.symbol@, name.symbol@)) =~= start + before.push(
                    (name.symbol@, name.symbol@),
                ));
            },
            _ => {},
        }
        i += 1;
    }
    assert(declarators@.take(declarators@.len() as int) =~= declarators@);
}

fn add_named_exports(names: &mut Vec<(String, String)>, specifiers: &Vec<ExportSpecifier>)
    ensures
        final(names).deep_view() == old(names).deep_view() + named_exports(specifiers@),
{
    let ghost start = names.deep_view();
    let mut i: usize = 0;
    assert(start + named_exports(specifiers@.take(0)) =~= start);
    while i < specifiers.len()
        invariant
            i <= specifiers.len(),
            start == old(names).deep_view(),
            names.deep_view() == start + named_exports(specifiers@.take(i as int)),
        decreases specifiers.len() - i,
    {
        let ghost before = named_exports(specifiers@.take(i as int));
        assert(specifiers@.take(i + 1).drop_last() =~= specifiers@.take(i as int));
        assert(specifiers@.take(i + 1).last() == specifiers@[i as int]);
        match &specifiers[i] {
            ExportSpecifier::Named { original: ExportName::Ident(original), exported, .. } => {
                let name = match exported {
                    Some(exported) => exported.clone(),
                    None => original.symbol.clone(),
                };
                push_name(names, name.as_str(), original.symbol.as_str());
                assert((start + before).push((name@, original.symbol@)) =~= start + before.push((name@, original.symbol@)));
            },
            _ => {},
        }
        i += 1;
    }
    assert(specifiers@.take(specifiers@.len() as int) =~= specifiers@);
}

/// The environment bindings that a module makes visible to its importers, by
/// the names that it exports. Renames are followed; what is exported from
/// another module is not.
pub fn exported_env_aliases(module: &Module) -> (out: EnvAliasMap)
    ensures
        out.deep_view() == exported_bindings(*module),
{
    let locals = EnvAliasExtractor::build(module);
    let ghost known = locals.deep_view();
    let ghost items = module.items@;
    let mut names: Vec<(String, String)> = Vec::new();
    let mut out = no_texts();
    let mut i: usize = 0;
    assert(names.deep_view() =~= export_names(items.take(0)));
    while i < module.items.len()
        invariant
            i <= module.items.len(),
            items == module.items@,
            known == locals.deep_view(),
            names.deep_view() == export_names(items.take(i as int)),
            out.deep_view() == default_properties(items.take(i as int), known),
        decreases module.items.len() - i,
    {
        let ghost before = names.deep_view();
        assert(items.take(i + 1).drop_last() =~= items.take(i as int));
        assert(items.take(i + 1).last() == items[i as int]);
        match &module.items[i] {
            ModuleItem::ExportDecl(Node::VarDecl(declarators)) => add_declared_names(&mut names, declarators),
            ModuleItem::ExportNamed { source: None, specifiers, .. } => add_named_exports(&mut names, specifiers),
            ModuleItem::ExportDefaultExpr(node) => match unwrap_transparent(node) {
                Node::Ident(name) => {
                    push_name(&mut names, "default", name.symbol.as_str());
                    assert(before.push(("default"@, name.symbol@)) =~= before + seq![("default"@, name.symbol@)]);
                },
                Node::Object(props) => {
                    add_properties(&mut out, "default", props, &locals);
                    assert(before + Seq::<(Seq<char>, Seq<char>)>::empty() =~= before);
                },
                _ => {
                    assert(before + Seq::<(Seq<char>, Seq<char>)>::empty() =~= before);
                },
            },
            _ => {
                assert(before + Seq::<(Seq<char>, Seq<char>)>::empty() =~= before);
            },
        }
        i += 1;
    }
    assert(items.take(items.len() as int) =~= items);
    let ghost start = out.deep_view();
    let ghost pairs = names.deep_view();
    let mut k: usize = 0;
    while k < names.len()
        invariant
            k <= names.len(),
            pairs == names.deep_view(),
            known == locals.deep_view(),
            out.deep_view() == with_exports(start, pairs.take(k as int), known),
        decreases names.len() - k,
    {
        assert(pairs.take(k + 1).drop_last() =~= pairs.take(k as int));
        assert(pairs.take(k + 1).last() == (names@[k as int].0@, names@[k as int].1@));
        put_renamed(&mut out, &locals, names[k].1.as_str(), names[k].0.as_str(), true);
        k += 1;
    }
    assert(pairs.take(pairs.len() as int) =~= pairs);
    out
}

/// The environment bindings that a source text makes visible to its importers;
/// nothing where the text can not be parsed.
pub fn exported_source_aliases(name: &str, source: &str) -> (r: Option<EnvAliasMap>)
    requires
        has_positions(source@),
    ensures
        exists|module: Option<Module>| #[trigger]
            syntax_is(name@, source@, module) && (match (module, r) {
                (Some(module), Some(r)) => r.deep_view() == exported_bindings(module),
                (None, None) => true,
                _ => false,
            }),
{
    let module = parse_source(name, source);
    assert(syntax_is(name@, source@, module));
    match &module {
        Some(module) => Some(exported_env_aliases(module)),
        None => None,
    }
}

/// What an import makes of the bindings that its module exports: those of the
/// name that it imports, or all of them behind the name of a namespace.
pub open spec fn imported_bindings(symbol: ImportedSymbol, local: Seq<char>, exports: Map<Seq<char>, Seq<char>>) -> Map<
    Seq<char>,
    Seq<char>,
> {
    match symbol.kind {
        SymbolKind::Named => renamed(exports, symbol.imported_name@, local),
        SymbolKind::Default => renamed(exports, "default"@, local),
        SymbolKind::Namespace => behind(exports, local),
    }
}

/// Every key of a map behind a name and a dot.
pub open spec fn behind(map: Map<Seq<char>, Seq<char>>, name: Seq<char>) -> Map<Seq<char>, Seq<char>> {
    Map::new(
        |key: Seq<char>| after_prefix(key, name + "."@) matches Some(rest) && map.contains_key(rest),
        |key: Seq<char>| map[after_prefix(key, name + "."@)->0],
    )
}

/// A file's bindings with those that its imports bring in, import by import.
/// What the file binds itself always stands.
pub open spec fn with_imports(
    aliases: Map<Seq<char>, Seq<char>>,
    symbols: Seq<(String, ImportedSymbol)>,
    modules: Map<Seq<char>, TextMap<String>>,
) -> Map<Seq<char>, Seq<char>>
    decreases symbols.len(),
{
    if symbols.len() == 0 {
        aliases
    } else {
        let before = with_imports(aliases, symbols.drop_last(), modules);
        let (local, symbol) = symbols.last();
        if modules.contains_key(symbol.source@) {
            put(before, imported_bindings(symbol, local@, modules[symbol.source@].deep_view()), false)
        } else {
            before
        }
    }
}

fn put_behind(map: &mut TextMap<String>, source: &TextMap<String>, name: &str)
    ensures
        final(map).deep_view() == put(old(map).deep_view(), behind(source.deep_view(), name@), false),
{
    let ghost base = map.deep_view();
    let ghost all = source.listing();
    let count: usize = source.len();
    let mut i: usize = 0;
    proof {
        assert(texts_of(all.take(0)) =~= Map::<Seq<char>, Seq<char>>::empty());
        assert(behind(texts_of(all.take(0)), name@) =~= Map::<Seq<char>, Seq<char>>::empty());
        assert(put(base, Map::empty(), false) =~= base);
    }
    while i < count
        invariant
            i <= count,
            all == source.listing(),
            source.deep_view() == texts_of(all),
            count == all.len(),
            keys_ascend(all),
            map.deep_view() == put(base, behind(texts_of(all.take(i as int)), name@), false),
        decreases count - i,
    {
        let (key, value) = source.entry(i);
        let ghost so_far = texts_of(all.take(i as int));
        let ghost before = map.deep_view();
        let target = concat3(name, ".", key.as_str());
        proof {
            texts_of_next(all, i as int);
            dotted_apart(name@, key@, key@);
            let next = so_far.insert(key@, value@);
            assert forall|k: Seq<char>| #[trigger] behind(next, name@).contains_key(k) == (k == target@ || behind(
                so_far,
                name@,
            ).contains_key(k)) by {
                prefix_gives_back(k, name@ + "."@);
            }
            assert forall|k: Seq<char>| #[trigger] behind(next, name@).contains_key(k) && k != target@ implies behind(
                next,
                name@,
            )[k] == behind(so_far, name@)[k] by {
                prefix_gives_back(k, name@ + "."@);
                assert(after_prefix(k, name@ + "."@)->0 != key@);
            }
            assert(behind(next, name@) =~= behind(so_far, name@).insert(target@, value@));
            assert(!behind(so_far, name@).contains_key(target@));
            assert(before.contains_key(target@) == base.contains_key(target@));
        }
        put_one(map, target, value.clone(), false);
        assert(map.deep_view() =~= put(base, behind(texts_of(all.take(i + 1)), name@), false));
        i += 1;
    }
    assert(all.take(all.len() as int) =~= all);
}

/// Brings the bindings that imported modules export into a file's own, under
/// the names by which the file imports them. `modules` holds what each import
/// source exports, as far as it could be read.
pub fn merge_imported_env_aliases(
    aliases: &mut EnvAliasMap,
    imported_symbols: &TextMap<ImportedSymbol>,
    modules: &TextMap<EnvAliasMap>,
)
    ensures
        keys_ascend(imported_symbols.listing()),
        final(aliases).deep_view() == with_imports(old(aliases).deep_view(), imported_symbols.listing(), modules@),
{
    let ghost start = aliases.deep_view();
    let ghost all = imported_symbols.listing();
    let count: usize = imported_symbols.len();
    let mut i: usize = 0;
    while i < count
        invariant
            i <= count,
            start == old(aliases).deep_view(),
            all == imported_symbols.listing(),
            count == all.len(),
            aliases.deep_view() == with_imports(start, all.take(i as int), modules@),
        decreases count - i,
    {
        let (local, symbol) = imported_symbols.entry(i);
        assert(all.take(i + 1).drop_last() =~= all.take(i as int));
        assert(all.take(i + 1).last() == all[i as int]);
        match modules.get(symbol.source.as_str()) {
            Some(exports) => match symbol.kind {
                SymbolKind::Named => put_renamed(aliases, exports, symbol.imported_name.as_str(), local.as_str(), false),
                SymbolKind::Default => put_renamed(aliases, exports, "default", local.as_str(), false),
                SymbolKind::Namespace => put_behind(aliases, exports, local.as_str()),
            },
            None => {},
        }
        i += 1;
    }
    assert(all.take(all.len() as int) =~= all);
}

/// Imports only fill vacant names: what a file binds itself stands as it was.
pub proof fn own_bindings_win(
    aliases: Map<Seq<char>, Seq<char>>,
    symbols: Seq<(String, ImportedSymbol)>,
    modules: Map<Seq<char>, TextMap<String>>,
    name: Seq<char>,
)
    requires
        aliases.contains_key(name),
    ensures
        with_imports(aliases, symbols, modules).contains_key(name),
        with_imports(aliases, symbols, modules)[name] == aliases[name],
    decreases symbols.len(),
{
    if symbols.len() > 0 {
        own_bindings_win(aliases, symbols.drop_last(), modules, name);
    }
}

/// A binding that one module exports plainly and another imports by that name
/// stands for the same variable there, unless the importer binds the name
/// itself.
pub proof fn an_import_reads_what_the_export_reads(
    aliases: Map<Seq<char>, Seq<char>>,
    exports: Map<Seq<char>, Seq<char>>,
    symbol: ImportedSymbol,
    local: Seq<char>,
)
    requires
        symbol.kind == SymbolKind::Named,
        exports.contains_key(symbol.imported_name@),
        !aliases.contains_key(local),
    ensures
        put(aliases, imported_bindings(symbol, local, exports), false).contains_key(local),
        put(aliases, imported_bindings(symbol, local, exports), false)[local] == exports[symbol.imported_name@],
{
}

} // verus!
