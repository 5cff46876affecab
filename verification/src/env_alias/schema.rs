//! What validation schemas declare about the environment.
//!
//! Any object literal property whose key is spelled like a variable and whose
//! value is a builder chain that says `optional` or `default` counts. No library
//! is recognised by name.

use crate::duplicate::Duplicate;
use crate::env_alias::{
    key_name, literal_of, property_name, string_literal, transparent, transparent_is_within, unwrap_transparent,
};
use crate::ordered::{keys_ascend, map_of, map_of_next, TextMap};
use crate::parsing::{has_positions, parse_source, syntax_is};
use crate::syntax::{module_nodes, nodes_of, refer_to, Module, Node};
use crate::text::{chars_of, copy_option, is_ascii_digit, is_ascii_upper, same, same_option};
use vstd::prelude::*;

verus! {

/// What the source declares about one variable.
#[derive(Debug, Clone, PartialEq, Eq)]
pub struct EnvSchemaDeclaration {
    /// The variable may be absent, and nothing stands in for it.
    pub optional: bool,
    /// The string literal that stands in for it.
    pub default_literal: Option<String>,
}

/// What an [`EnvSchemaDeclaration`] holds.
pub struct EnvSchemaDeclarationModel {
    pub optional: bool,
    pub default_literal: Option<Seq<char>>,
}

impl DeepView for EnvSchemaDeclaration {
    type V = EnvSchemaDeclarationModel;

    open spec fn deep_view(&self) -> EnvSchemaDeclarationModel {
        EnvSchemaDeclarationModel {
            optional: self.optional,
            default_literal: self.default_literal.deep_view(),
        }
    }
}

impl Duplicate for EnvSchemaDeclaration {
    fn duplicate(&self) -> (r: Self) {
        EnvSchemaDeclaration {
            optional: self.optional,
            default_literal: copy_option(&self.default_literal),
        }
    }
}

/// Spelled like a variable: capitals, digits and underscores, two characters or
/// more, and at least one letter.
pub open spec fn is_variable_name(name: Seq<char>) -> bool {
    &&& name.len() >= 2
    &&& exists|i: int| 0 <= i < name.len() && is_ascii_upper(#[trigger] name[i])
    &&& forall|i: int|
        0 <= i < name.len() ==> is_ascii_upper(#[trigger] name[i]) || is_ascii_digit(name[i]) || name[i] == '_'
}

pub fn is_env_var_name(name: &str) -> (r: bool)
    ensures
        r == is_variable_name(name@),
{
    let v = chars_of(name);
    let mut any = false;
    let mut i: usize = 0;
    while i < v.len()
        invariant
            i <= v.len(),
            v@ == name@,
            any == exists|j: int| 0 <= j < i && is_ascii_upper(#[trigger] name@[j]),
            forall|j: int|
                0 <= j < i ==> is_ascii_upper(#[trigger] name@[j]) || is_ascii_digit(name@[j]) || name@[j] == '_',
        decreases v.len() - i,
    {
        let c = v[i];
        assert(name@[i as int] == c);
        let upper = 'A' <= c && c <= 'Z';
        if !upper && !('0' <= c && c <= '9') && c != '_' {
            return false;
        }
        if upper {
            assert(is_ascii_upper(name@[i as int]));
            any = true;
        }
        i += 1;
    }
    v.len() >= 2 && any
}

/// A call in a builder chain: the method, and the literal that it is handed.
pub struct ChainCall {
    pub method: Seq<char>,
    pub literal: Option<Seq<char>>,
}

/// The literal that a call is handed first, not spread.
pub open spec fn handed_literal(args: Seq<Node>) -> Option<Seq<char>> {
    if args.len() == 0 || args[0] is Spread {
        None
    } else {
        literal_of(args[0])
    }
}

/// The calls of a builder chain from the outermost down.
pub open spec fn chain_calls(node: Node) -> Seq<ChainCall>
    decreases node,
{
    proof {
        transparent_is_within(node);
    }
    match transparent(node) {
        Node::Call { callee, args, .. } => {
            proof {
                transparent_is_within(*callee);
            }
            match transparent(*callee) {
                Node::Member { object, property } => seq![
                    ChainCall { method: property@, literal: handed_literal(args@) },
                ] + chain_calls(*object),
                Node::Index { object, .. } => chain_calls(*object),
                Node::PrivateMember { object } => chain_calls(*object),
                _ => chain_calls(*callee),
            }
        },
        Node::Member { object, .. } => chain_calls(*object),
        Node::Index { object, .. } => chain_calls(*object),
        Node::PrivateMember { object } => chain_calls(*object),
        _ => Seq::empty(),
    }
}

pub open spec fn says(calls: Seq<ChainCall>, method: Seq<char>) -> bool {
    exists|i: int| 0 <= i < calls.len() && (#[trigger] calls[i]).method == method
}

/// The literal of the outermost default. It decides, also where it hands over no
/// literal.
pub open spec fn default_of(calls: Seq<ChainCall>) -> Option<Seq<char>>
    decreases calls.len(),
{
    if calls.len() == 0 {
        None
    } else if says(calls.drop_last(), "default"@) {
        default_of(calls.drop_last())
    } else if calls.last().method == "default"@ {
        calls.last().literal
    } else {
        None
    }
}

/// What a builder chain declares. One that says neither of the two words
/// declares nothing; a variable with a default is never absent.
pub open spec fn declared_by(node: Node) -> Option<EnvSchemaDeclarationModel> {
    let calls = chain_calls(node);
    if says(calls, "optional"@) || says(calls, "default"@) {
        Some(
            EnvSchemaDeclarationModel {
                optional: says(calls, "optional"@) && !says(calls, "default"@),
                default_literal: default_of(calls),
            },
        )
    } else {
        None
    }
}

/// A call of a chain, as the source writes it.
pub struct WrittenCall {
    pub method: String,
    pub literal: Option<String>,
}

impl DeepView for WrittenCall {
    type V = ChainCall;

    open spec fn deep_view(&self) -> ChainCall {
        ChainCall { method: self.method@, literal: self.literal.deep_view() }
    }
}

fn read_handed(args: &Vec<Node>) -> (r: Option<String>)
    ensures
        r.deep_view() == handed_literal(args@),
{
    if args.len() == 0 {
        return None;
    }
    match &args[0] {
        Node::Spread(_) => None,
        first => string_literal(first),
    }
}

fn read_chain(node: &Node, calls: &mut Vec<WrittenCall>)
    ensures
        final(calls).deep_view() == old(calls).deep_view() + chain_calls(*node),
    decreases *node,
{
    let ghost before = calls.deep_view();
    proof {
        transparent_is_within(*node);
    }
    match unwrap_transparent(node) {
        Node::Call { callee, args, .. } => {
            proof {
                transparent_is_within(**callee);
            }
            match unwrap_transparent(&**callee) {
                Node::Member { object, property } => {
                    let call = WrittenCall { method: property.clone(), literal: read_handed(args) };
                    calls.push(call);
                    assert(calls.deep_view() =~= before.push(call.deep_view()));
                    read_chain(&**object, calls);
                    assert(before.push(call.deep_view()) + chain_calls(**object) =~= before + (seq![call.deep_view()]
                        + chain_calls(**object)));
                },
                Node::Index { object, .. } => read_chain(&**object, calls),
                Node::PrivateMember { object } => read_chain(&**object, calls),
                _ => read_chain(&**callee, calls),
            }
        },
        Node::Member { object, .. } => read_chain(&**object, calls),
        Node::Index { object, .. } => read_chain(&**object, calls),
        Node::PrivateMember { object } => read_chain(&**object, calls),
        _ => {
            assert(before + Seq::<ChainCall>::empty() =~= before);
        },
    }
}

pub fn schema_chain_declaration(node: &Node) -> (r: Option<EnvSchemaDeclaration>)
    ensures
        r.deep_view() == declared_by(*node),
{
    let mut calls: Vec<WrittenCall> = Vec::new();
    read_chain(node, &mut calls);
    let ghost all = chain_calls(*node);
    assert(calls.deep_view() =~= all);
    let mut optional = false;
    let mut has_default = false;
    let mut default_literal: Option<String> = None;
    let mut i: usize = 0;
    while i < calls.len()
        invariant
            i <= calls.len(),
            all == calls.deep_view(),
            optional == says(all.take(i as int), "optional"@),
            has_default == says(all.take(i as int), "default"@),
            default_literal.deep_view() == default_of(all.take(i as int)),
        decreases calls.len() - i,
    {
        let ghost shorter = all.take(i as int);
        let ghost longer = all.take(i + 1);
        let ghost here = calls@[i as int].deep_view();
        proof {
            assert(longer.drop_last() =~= shorter);
            assert(longer.last() == here);
            assert forall|method: Seq<char>| #[trigger] says(longer, method) == (says(shorter, method) || here.method
                == method) by {
                if says(shorter, method) {
                    let j = choose|j: int| 0 <= j < shorter.len() && (#[trigger] shorter[j]).method == method;
                    assert(longer[j].method == method);
                }
                if here.method == method {
                    assert(longer[i as int].method == method);
                }
                if says(longer, method) {
                    let j = choose|j: int| 0 <= j < longer.len() && (#[trigger] longer[j]).method == method;
                    if j < i {
                        assert(shorter[j].method == method);
                    }
                }
            }
        }
        if same(calls[i].method.as_str(), "optional") {
            optional = true;
        }
        if same(calls[i].method.as_str(), "default") {
            if !has_default {
                default_literal = copy_option(&calls[i].literal);
            }
            has_default = true;
        }
        i += 1;
    }
    assert(all.take(all.len() as int) =~= all);
    if optional || has_default {
        Some(EnvSchemaDeclaration { optional: optional && !has_default, default_literal })
    } else {
        None
    }
}

// ---------------------------------------------------------------------------
// The declarations of a module
// ---------------------------------------------------------------------------

/// The variable that a property of an object literal declares, and what it says.
pub open spec fn property_declaration(prop: Node) -> Option<(Seq<char>, EnvSchemaDeclarationModel)> {
    match prop {
        Node::KeyValue { key, value, .. } => match (key_name(key), declared_by(*value)) {
            (Some(name), Some(declaration)) => if is_variable_name(name) {
                Some((name, declaration))
            } else {
                None
            },
            _ => None,
        },
        _ => None,
    }
}

/// The declarations with those of an object literal. The first one stays.
pub open spec fn with_object(
    declarations: Map<Seq<char>, EnvSchemaDeclarationModel>,
    props: Seq<Node>,
) -> Map<Seq<char>, EnvSchemaDeclarationModel>
    decreases props.len(),
{
    if props.len() == 0 {
        declarations
    } else {
        let before = with_object(declarations, props.drop_last());
        match property_declaration(props.last()) {
            Some((name, declaration)) => if before.contains_key(name) {
                before
            } else {
                before.insert(name, declaration)
            },
            None => before,
        }
    }
}

pub open spec fn schema_of(nodes: Seq<Node>) -> Map<Seq<char>, EnvSchemaDeclarationModel>
    decreases nodes.len(),
{
    if nodes.len() == 0 {
        Map::empty()
    } else {
        match nodes.last() {
            Node::Object(props) => with_object(schema_of(nodes.drop_last()), props@),
            _ => schema_of(nodes.drop_last()),
        }
    }
}

/// Variables and what the source declares about them.
pub type EnvSchemaMap = TextMap<EnvSchemaDeclaration>;

fn add_object(declarations: &mut EnvSchemaMap, props: &Vec<Node>)
    ensures
        final(declarations).deep_view() == with_object(old(declarations).deep_view(), props@),
{
    let ghost start = declarations.deep_view();
    let mut i: usize = 0;
    while i < props.len()
        invariant
            i <= props.len(),
            start == old(declarations).deep_view(),
            declarations.deep_view() == with_object(start, props@.take(i as int)),
        decreases props.len() - i,
    {
        let ghost before = declarations.deep_view();
        assert(props@.take(i + 1).drop_last() =~= props@.take(i as int));
        assert(props@.take(i + 1).last() == props@[i as int]);
        match &props[i] {
            Node::KeyValue { key, value, .. } => match property_name(key) {
                Some(name) => {
                    if is_env_var_name(name.as_str()) && !declarations.contains_key(name.as_str()) {
                        match schema_chain_declaration(&**value) {
                            Some(declaration) => {
                                declarations.insert(name, declaration);
                                assert(declarations.deep_view() =~= before.insert(name@, declaration.deep_view()));
                            },
                            None => {},
                        }
                    }
                },
                None => {},
            },
            _ => {},
        }
        i += 1;
    }
    assert(props@.take(props@.len() as int) =~= props@);
}

/// What the validation schemas of a module declare about the environment.
pub fn module_env_schema(module: &Module) -> (r: EnvSchemaMap)
    ensures
        r.deep_view() == schema_of(module_nodes(*module)),
{
    let ghost all = module_nodes(*module);
    let nodes = nodes_of(module);
    let mut r: EnvSchemaMap = TextMap::new();
    let mut i: usize = 0;
    assert(r.deep_view() =~= Map::<Seq<char>, EnvSchemaDeclarationModel>::empty());
    while i < nodes.len()
        invariant
            i <= nodes.len(),
            refer_to(nodes@, all),
            r.deep_view() == schema_of(all.take(i as int)),
        decreases nodes.len() - i,
    {
        assert(all.take(i + 1).drop_last() =~= all.take(i as int));
        assert(all.take(i + 1).last() == *nodes@[i as int]);
        match nodes[i] {
            Node::Object(props) => add_object(&mut r, props),
            _ => {},
        }
        i += 1;
    }
    assert(all.take(all.len() as int) =~= all);
    r
}

/// What the validation schemas of a source text declare about the environment;
/// nothing where the text can not be parsed.
pub fn source_env_schema(name: &str, source: &str) -> (r: Option<EnvSchemaMap>)
    requires
        has_positions(source@),
    ensures
        exists|module: Option<Module>| #[trigger]
            syntax_is(name@, source@, module) && (match (module, r) {
                (Some(module), Some(r)) => r.deep_view() == schema_of(module_nodes(module)),
                (None, None) => true,
                _ => false,
            }),
{
    let module = parse_source(name, source);
    assert(syntax_is(name@, source@, module));
    match &module {
        Some(module) => Some(module_env_schema(module)),
        None => None,
    }
}

// ---------------------------------------------------------------------------
// The declarations of a repository
// ---------------------------------------------------------------------------

/// What a repository's modules say of one variable together.
#[derive(Debug, Clone, PartialEq, Eq)]
pub enum Verdict {
    Declared(EnvSchemaDeclaration),
    /// Two modules say different things.
    Ambiguous,
}

/// What a [`Verdict`] holds.
pub enum VerdictModel {
    Declared(EnvSchemaDeclarationModel),
    Ambiguous,
}

impl DeepView for Verdict {
    type V = VerdictModel;

    open spec fn deep_view(&self) -> VerdictModel {
        match self {
            Verdict::Declared(declaration) => VerdictModel::Declared(declaration.deep_view()),
            Verdict::Ambiguous => VerdictModel::Ambiguous,
        }
    }
}

/// What the schemas of a repository declare, module by module. A variable that
/// two modules declare differently has no declaration, whatever comes later.
pub struct EnvSchemaIndex {
    verdicts: TextMap<Verdict>,
}

impl DeepView for EnvSchemaIndex {
    type V = Map<Seq<char>, VerdictModel>;

    closed spec fn deep_view(&self) -> Map<Seq<char>, VerdictModel> {
        self.verdicts.deep_view()
    }
}

/// What is said of a variable once a module has added what it says.
pub open spec fn agreed(so_far: Option<VerdictModel>, said: EnvSchemaDeclarationModel) -> VerdictModel {
    match so_far {
        None => VerdictModel::Declared(said),
        Some(VerdictModel::Declared(declaration)) => if declaration == said {
            VerdictModel::Declared(said)
        } else {
            VerdictModel::Ambiguous
        },
        Some(VerdictModel::Ambiguous) => VerdictModel::Ambiguous,
    }
}

pub open spec fn verdict_at(index: Map<Seq<char>, VerdictModel>, name: Seq<char>) -> Option<VerdictModel> {
    if index.contains_key(name) {
        Some(index[name])
    } else {
        None
    }
}

/// An index with the declarations of a module.
pub open spec fn merged(
    index: Map<Seq<char>, VerdictModel>,
    module: Map<Seq<char>, EnvSchemaDeclarationModel>,
) -> Map<Seq<char>, VerdictModel> {
    Map::new(
        |name: Seq<char>| index.contains_key(name) || module.contains_key(name),
        |name: Seq<char>|
            if module.contains_key(name) {
                agreed(verdict_at(index, name), module[name])
            } else {
                index[name]
            },
    )
}

fn same_declaration(a: &EnvSchemaDeclaration, b: &EnvSchemaDeclaration) -> (r: bool)
    ensures
        r == (a.deep_view() == b.deep_view()),
{
    a.optional == b.optional && same_option(&a.default_literal, &b.default_literal)
}

impl EnvSchemaIndex {
    pub fn new() -> (r: Self)
        ensures
            r.deep_view() == Map::<Seq<char>, VerdictModel>::empty(),
    {
        let r = EnvSchemaIndex { verdicts: TextMap::new() };
        assert(r.deep_view() =~= Map::<Seq<char>, VerdictModel>::empty());
        r
    }

    /// Adds the declarations of a module.
    pub fn merge_module(&mut self, module_declarations: &EnvSchemaMap)
        ensures
            final(self).deep_view() == merged(old(self).deep_view(), module_declarations.deep_view()),
    {
        let ghost start = self.deep_view();
        let ghost all = module_declarations.listing();
        let count: usize = module_declarations.len();
        let ghost view = |d: EnvSchemaDeclaration| d.deep_view();
        let mut i: usize = 0;
        proof {
            assert(map_of(all.take(0)).map_values(view) =~= Map::<Seq<char>, EnvSchemaDeclarationModel>::empty());
            assert(merged(start, Map::empty()) =~= start);
        }
        while i < count
            invariant
                i <= count,
                all == module_declarations.listing(),
                module_declarations@ == map_of(all),
                count == all.len(),
                keys_ascend(all),
                view == (|d: EnvSchemaDeclaration| d.deep_view()),
                self.deep_view() == merged(start, map_of(all.take(i as int)).map_values(view)),
            decreases count - i,
        {
            let (name, declaration) = module_declarations.entry(i);
            let ghost so_far = map_of(all.take(i as int)).map_values(view);
            let ghost before = self.deep_view();
            proof {
                map_of_next(all, i as int);
                assert(map_of(all.take(i + 1)).map_values(view) =~= so_far.insert(name@, declaration.deep_view()));
                assert(verdict_at(before, name@) == verdict_at(start, name@));
            }
            let verdict = match self.verdicts.get(name.as_str()) {
                None => Verdict::Declared(declaration.duplicate()),
                Some(Verdict::Declared(existing)) => {
                    if same_declaration(existing, declaration) {
                        Verdict::Declared(declaration.duplicate())
                    } else {
                        Verdict::Ambiguous
                    }
                },
                Some(Verdict::Ambiguous) => Verdict::Ambiguous,
            };
            assert(verdict.deep_view() == agreed(verdict_at(start, name@), declaration.deep_view()));
            self.verdicts.insert(name.clone(), verdict);
            assert(self.deep_view() =~= before.insert(name@, verdict.deep_view()));
            assert(self.deep_view() =~= merged(start, so_far.insert(name@, declaration.deep_view())));
            i += 1;
        }
        assert(all.take(all.len() as int) =~= all);
    }

    /// What the source declares about a variable; nothing where no module
    /// declares it, or two disagree.
    pub fn get(&self, env_var: &str) -> (r: Option<&EnvSchemaDeclaration>)
        ensures
            match verdict_at(self.deep_view(), env_var@) {
                Some(VerdictModel::Declared(declaration)) => r matches Some(d) && d.deep_view() == declaration,
                _ => r is None,
            },
    {
        match self.verdicts.get(env_var) {
            Some(Verdict::Declared(declaration)) => Some(declaration),
            _ => None,
        }
    }
}

impl Default for EnvSchemaIndex {
    fn default() -> (r: Self)
        ensures
            r.deep_view() == Map::<Seq<char>, VerdictModel>::empty(),
    {
        EnvSchemaIndex::new()
    }
}

/// The index does not depend on the order in which modules are added.
pub proof fn modules_merge_in_any_order(
    index: Map<Seq<char>, VerdictModel>,
    a: Map<Seq<char>, EnvSchemaDeclarationModel>,
    b: Map<Seq<char>, EnvSchemaDeclarationModel>,
)
    ensures
        merged(merged(index, a), b) == merged(merged(index, b), a),
{
    assert(merged(merged(index, a), b) =~= merged(merged(index, b), a));
}

/// The index once a list of modules is added, in their order.
pub open spec fn merged_all(
    index: Map<Seq<char>, VerdictModel>,
    modules: Seq<Map<Seq<char>, EnvSchemaDeclarationModel>>,
) -> Map<Seq<char>, VerdictModel>
    decreases modules.len(),
{
    if modules.len() == 0 {
        index
    } else {
        merged(merged_all(index, modules.drop_last()), modules.last())
    }
}

/// A module of a list may be added last.
proof fn a_module_may_come_last(
    index: Map<Seq<char>, VerdictModel>,
    modules: Seq<Map<Seq<char>, EnvSchemaDeclarationModel>>,
    i: int,
)
    requires
        0 <= i < modules.len(),
    ensures
        merged_all(index, modules) == merged(merged_all(index, modules.remove(i)), modules[i]),
    decreases modules.len(),
{
    let rest = modules.remove(i);
    if i == modules.len() - 1 {
        assert(rest =~= modules.drop_last());
    } else {
        let init = modules.drop_last();
        a_module_may_come_last(index, init, i);
        assert(init.remove(i) =~= rest.drop_last());
        assert(rest.last() == modules.last());
        modules_merge_in_any_order(merged_all(index, init.remove(i)), modules[i], modules.last());
    }
}

/// Whatever the order in which a list of modules is added, the index is the same.
pub proof fn any_order_of_modules_gives_one_index(
    index: Map<Seq<char>, VerdictModel>,
    a: Seq<Map<Seq<char>, EnvSchemaDeclarationModel>>,
    b: Seq<Map<Seq<char>, EnvSchemaDeclarationModel>>,
)
    requires
        a.to_multiset() == b.to_multiset(),
    ensures
        merged_all(index, a) == merged_all(index, b),
    decreases a.len(),
{
    broadcast use vstd::seq_lib::group_to_multiset_ensures;

    assert(a.to_multiset().len() == a.len());
    assert(b.to_multiset().len() == b.len());
    if a.len() > 0 {
        let last = a.last();
        let init = a.drop_last();
        assert(a =~= init.push(last));
        assert(a.to_multiset().count(last) > 0);
        assert(b.contains(last)) by {
            assert(b.to_multiset().contains(last));
        }
        let i = choose|i: int| 0 <= i < b.len() && b[i] == last;
        let rest = b.remove(i);
        assert(rest.to_multiset() =~= b.to_multiset().remove(last));
        assert(init.to_multiset() =~= a.to_multiset().remove(last));
        any_order_of_modules_gives_one_index(index, init, rest);
        a_module_may_come_last(index, b, i);
    } else {
        assert(a =~= b);
    }
}

/// What a list of modules declares about a variable: the declaration that every
/// module that declares it states, and nothing where two disagree.
pub proof fn only_agreement_is_declared(modules: Seq<Map<Seq<char>, EnvSchemaDeclarationModel>>, name: Seq<char>)
    ensures
        verdict_at(merged_all(Map::empty(), modules), name) is None <==> forall|i: int|
            0 <= i < modules.len() ==> !(#[trigger] modules[i]).contains_key(name),
        verdict_at(merged_all(Map::empty(), modules), name) matches Some(VerdictModel::Declared(declaration))
            ==> forall|i: int|
            0 <= i < modules.len() && (#[trigger] modules[i]).contains_key(name) ==> modules[i][name] == declaration,
        verdict_at(merged_all(Map::empty(), modules), name) == Some(VerdictModel::Ambiguous) ==> exists|i: int, j: int|
            0 <= i < modules.len() && 0 <= j < modules.len() && (#[trigger] modules[i]).contains_key(name) && (
            #[trigger] modules[j]).contains_key(name) && modules[i][name] != modules[j][name],
    decreases modules.len(),
{
    if modules.len() > 0 {
        let init = modules.drop_last();
        let last = modules.last();
        only_agreement_is_declared(init, name);
        let before = verdict_at(merged_all(Map::empty(), init), name);
        let after = verdict_at(merged_all(Map::empty(), modules), name);
        assert(forall|i: int| 0 <= i < init.len() ==> #[trigger] init[i] == modules[i]);
        assert(modules[modules.len() - 1] == last);
        if before is None {
            assert forall|i: int| 0 <= i < init.len() implies !(#[trigger] modules[i]).contains_key(name) by {
                assert(!init[i].contains_key(name));
            }
        } else {
            let k = choose|k: int| 0 <= k < init.len() && (#[trigger] init[k]).contains_key(name);
            assert(init[k].contains_key(name));
            assert(modules[k].contains_key(name));
            if before == Some(VerdictModel::Ambiguous) {
                let (i, j) = choose|i: int, j: int|
                    0 <= i < init.len() && 0 <= j < init.len() && (#[trigger] init[i]).contains_key(name) && (
                    #[trigger] init[j]).contains_key(name) && init[i][name] != init[j][name];
                assert(modules[i].contains_key(name) && modules[j].contains_key(name));
            } else if last.contains_key(name) {
                assert(init[k][name] == modules[k][name]);
                if after == Some(VerdictModel::Ambiguous) {
                    assert(modules[k][name] != modules[modules.len() - 1][name]);
                }
            }
            assert forall|i: int| after is Some && after->0 is Declared && 0 <= i < modules.len() && (
            #[trigger] modules[i]).contains_key(name) implies modules[i][name] == after->0->Declared_0 by {
                if i < init.len() {
                    assert(init[i].contains_key(name));
                }
            }
        }
    }
}

/// Adding a module a second time changes nothing.
pub proof fn a_module_counts_once(index: Map<Seq<char>, VerdictModel>, module: Map<Seq<char>, EnvSchemaDeclarationModel>)
    ensures
        merged(merged(index, module), module) == merged(index, module),
{
    assert(merged(merged(index, module), module) =~= merged(index, module));
}

/// A variable that two modules declare differently stays without a declaration,
/// whatever further modules say.
pub proof fn a_disagreement_stays(
    index: Map<Seq<char>, VerdictModel>,
    module: Map<Seq<char>, EnvSchemaDeclarationModel>,
    name: Seq<char>,
)
    requires
        verdict_at(index, name) == Some(VerdictModel::Ambiguous),
    ensures
        verdict_at(merged(index, module), name) == Some(VerdictModel::Ambiguous),
{
}

} // verus!
