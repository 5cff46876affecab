//! Reading the facts off a module's syntax.

use crate::duplicate::Duplicate;
use crate::env_alias::{key_name, property_name};
use crate::event_emitter::literal_of_first;
use crate::external_call_candidates::facts::{
    extended, no_facts, same_binding, AliasFact, AliasFactModel, Argument, ArgumentModel, BindingId, BindingIdModel, CallSite,
    CallSiteModel, Chain, ChainModel, ClassFact, ClassFactModel, ConstructionFact, ConstructionFactModel, ExportFact,
    ExportFactModel, FileFacts, FileFactsModel, FunctionFact, FunctionFactModel, ImportFact, ImportFactModel,
    MemberAssignment, MemberAssignmentModel, NamedChain, NamedChainModel, ParamField, ParamFieldModel, PkgRef, PkgRefModel,
    ReExportFact, ReExportFactModel, ReturnShape, ReturnShapeModel, Root, RootModel, Source, SourceModel, StaticFunction,
    StaticFunctionModel, Step, StepModel, TypedField, TypedFieldModel,
};
use crate::ordered::TextMap;
use crate::parsing::{has_positions, parse_source, syntax_is};
use crate::syntax::{
    children, children_are_smaller, children_of, refer_to, BinaryOp, Class, ExportName, ExportSpecifier, Function,
    Ident, ImportSpecifier, MethodKind, Module, ModuleItem, Node, Pattern, PatternProp, TypeAnnotation, Wrapper,
};
use crate::text::copy_option;
use vstd::prelude::*;

verus! {

/// What an import specifier names: a declared dependency and the part of it, or a
/// file of the workspace.
#[derive(Debug, Clone, PartialEq, Eq)]
pub enum Target {
    External { package: String, subpath: Option<String> },
    Internal { file: usize },
}

/// What a [`Target`] holds.
pub enum TargetModel {
    External { package: Seq<char>, subpath: Option<Seq<char>> },
    Internal { file: usize },
}

impl DeepView for Target {
    type V = TargetModel;

    open spec fn deep_view(&self) -> TargetModel {
        match self {
            Target::External { package, subpath } => TargetModel::External {
                package: package@,
                subpath: subpath.deep_view(),
            },
            Target::Internal { file } => TargetModel::Internal {
                file: *file,
            },
        }
    }
}

impl Duplicate for Target {
    fn duplicate(&self) -> (r: Self) {
        match self {
            Target::External { package, subpath } => Target::External {
                package: package.clone(),
                subpath: copy_option(subpath),
            },
            Target::Internal { file } => Target::Internal {
                file: *file,
            },
        }
    }
}

/// Import specifiers and what they name, as far as they name something.
pub type TargetMap = TextMap<Target>;

pub open spec fn target_of(targets: Map<Seq<char>, TargetModel>, specifier: Seq<char>) -> Option<TargetModel> {
    if targets.contains_key(specifier) {
        Some(targets[specifier])
    } else {
        None
    }
}

fn find_target<'a>(targets: &'a TargetMap, specifier: &str) -> (r: Option<&'a Target>)
    ensures
        match r {
            Some(target) => target_of(targets.deep_view(), specifier@) == Some(target.deep_view()),
            None => target_of(targets.deep_view(), specifier@) is None,
        },
{
    targets.get(specifier)
}

pub open spec fn binding_of(ident: Ident) -> BindingIdModel {
    BindingIdModel { symbol: ident.symbol@, context: ident.context }
}

fn bind(ident: &Ident) -> (r: BindingId)
    ensures
        r.deep_view() == binding_of(*ident),
{
    BindingId { symbol: ident.symbol.clone(), context: ident.context }
}

/// The slot of a default export without a name. No identifier is spelled so.
pub open spec fn default_binding() -> BindingIdModel {
    BindingIdModel { symbol: "*default*"@, context: 0 }
}

// ---------------------------------------------------------------------------
// Values
// ---------------------------------------------------------------------------

/// An expression without the wrappers that leave where its value comes from.
pub open spec fn plain(node: Node) -> Node
    decreases node,
{
    match node {
        Node::Wrapped { wrapper, inner } => if wrapper == Wrapper::ConstAssertion {
            node
        } else {
            plain(*inner)
        },
        _ => node,
    }
}

pub proof fn plain_is_within(node: Node)
    ensures
        plain(node) == node || decreases_to!(node => plain(node)),
    decreases node,
{
    match node {
        Node::Wrapped { wrapper, inner } => {
            plain_is_within(*inner);
        },
        _ => {},
    }
}

pub fn unwrap_value<'a>(node: &'a Node) -> (r: &'a Node)
    ensures
        *r == plain(*node),
    decreases *node,
{
    match node {
        Node::Wrapped { wrapper, inner } => {
            if *wrapper == Wrapper::ConstAssertion {
                node
            } else {
                unwrap_value(&**inner)
            }
        },
        _ => node,
    }
}

pub open spec fn start(root: RootModel) -> ChainModel {
    ChainModel { root, steps: Seq::empty() }
}

pub open spec fn then_step(chain: Option<ChainModel>, step: StepModel) -> Option<ChainModel> {
    match chain {
        Some(chain) => Some(extended(chain, step)),
        None => None,
    }
}

/// The chain of an expression in a class, or outside of any; nothing where some
/// part of it has no name.
pub open spec fn chain_of(node: Node, class: Option<usize>) -> Option<ChainModel>
    decreases node,
{
    proof {
        plain_is_within(node);
    }
    match plain(node) {
        Node::Ident(name) => Some(start(RootModel::Binding { id: binding_of(name) })),
        Node::This => match class {
            Some(class) => Some(start(RootModel::This { class })),
            None => None,
        },
        Node::Member { object, property } => then_step(chain_of(*object, class), StepModel::Prop { name: property@ }),
        Node::OptMember { object, property } => then_step(chain_of(*object, class), StepModel::Prop { name: property@ }),
        Node::Call { callee, .. } => then_step(chain_of(*callee, class), StepModel::Call),
        Node::OptCall { callee, .. } => then_step(chain_of(*callee, class), StepModel::Call),
        Node::New { callee, .. } => then_step(chain_of(*callee, class), StepModel::Call),
        _ => None,
    }
}

fn starting(root: Root) -> (r: Chain)
    ensures
        r.deep_view() == start(root.deep_view()),
{
    let r = Chain { root, steps: Vec::new() };
    assert(r.deep_view().steps =~= Seq::<StepModel>::empty());
    r
}

pub fn read_chain(node: &Node, class: Option<usize>) -> (r: Option<Chain>)
    ensures
        r.deep_view() == chain_of(*node, class),
    decreases *node,
{
    proof {
        plain_is_within(*node);
    }
    match unwrap_value(node) {
        Node::Ident(name) => Some(starting(Root::Binding { id: bind(name) })),
        Node::This => match class {
            Some(class) => Some(starting(Root::This { class })),
            None => None,
        },
        Node::Member { object, property } => match read_chain(&**object, class) {
            Some(chain) => Some(chain.extended(Step::Prop { name: property.clone() })),
            None => None,
        },
        Node::OptMember { object, property } => match read_chain(&**object, class) {
            Some(chain) => Some(chain.extended(Step::Prop { name: property.clone() })),
            None => None,
        },
        Node::Call { callee, .. } => match read_chain(&**callee, class) {
            Some(chain) => Some(chain.extended(Step::Call)),
            None => None,
        },
        Node::OptCall { callee, .. } => match read_chain(&**callee, class) {
            Some(chain) => Some(chain.extended(Step::Call)),
            None => None,
        },
        Node::New { callee, .. } => match read_chain(&**callee, class) {
            Some(chain) => Some(chain.extended(Step::Call)),
            None => None,
        },
        _ => None,
    }
}

/// The alternatives that a value can be: the branches of a choice, and the
/// operands of an operator that picks one.
pub open spec fn branches(node: Node) -> Seq<Node>
    decreases node,
{
    proof {
        plain_is_within(node);
    }
    match plain(node) {
        Node::Cond { consequent, alternate, .. } => branches(*consequent) + branches(*alternate),
        Node::Binary { op, left, right } => if op == BinaryOp::Other {
            seq![plain(node)]
        } else {
            branches(*left) + branches(*right)
        },
        _ => seq![plain(node)],
    }
}

fn read_branches<'a>(node: &'a Node, list: &mut Vec<&'a Node>, Ghost(before): Ghost<Seq<Node>>)
    requires
        refer_to(old(list)@, before),
    ensures
        refer_to(final(list)@, before + branches(*node)),
    decreases *node,
{
    proof {
        plain_is_within(*node);
    }
    let inner = unwrap_value(node);
    match inner {
        Node::Cond { consequent, alternate, .. } => {
            read_branches(&**consequent, list, Ghost(before));
            read_branches(&**alternate, list, Ghost(before + branches(**consequent)));
            assert(before + branches(**consequent) + branches(**alternate) =~= before + branches(*node));
        },
        Node::Binary { op, left, right } => {
            if *op == BinaryOp::Other {
                list.push(inner);
                assert(before + seq![*inner] =~= before.push(*inner));
            } else {
                read_branches(&**left, list, Ghost(before));
                read_branches(&**right, list, Ghost(before + branches(**left)));
                assert(before + branches(**left) + branches(**right) =~= before + branches(*node));
            }
        },
        _ => {
            list.push(inner);
            assert(before + seq![*inner] =~= before.push(*inner));
        },
    }
}

/// The values among some expressions, under a name.
pub open spec fn named_chains(name: Seq<char>, nodes: Seq<Node>, class: Option<usize>) -> Seq<NamedChainModel>
    decreases nodes.len(),
{
    if nodes.len() == 0 {
        Seq::empty()
    } else {
        let before = named_chains(name, nodes.drop_last(), class);
        match chain_of(nodes.last(), class) {
            Some(chain) => before.push(NamedChainModel { name, chain }),
            None => before,
        }
    }
}

/// The properties of an object literal and the values behind them, each branch
/// of a value by itself.
pub open spec fn object_chains(props: Seq<Node>, class: Option<usize>) -> Seq<NamedChainModel>
    decreases props.len(),
{
    if props.len() == 0 {
        Seq::empty()
    } else {
        let before = object_chains(props.drop_last(), class);
        match props.last() {
            Node::Shorthand(name) => before.push(
                NamedChainModel { name: name.symbol@, chain: start(RootModel::Binding { id: binding_of(name) }) },
            ),
            Node::KeyValue { key, value, .. } => match key_name(key) {
                Some(name) => before + named_chains(name, branches(*value), class),
                None => before,
            },
            _ => before,
        }
    }
}

fn push_named(list: &mut Vec<NamedChain>, name: &str, chain: Chain)
    ensures
        final(list).deep_view() == old(list).deep_view().push(NamedChainModel { name: name@, chain: chain.deep_view() }),
{
    let ghost before = list.deep_view();
    let entry = NamedChain { name: name.to_owned(), chain };
    list.push(entry);
    assert(list.deep_view() =~= before.push(entry.deep_view()));
}

fn read_object(list: &mut Vec<NamedChain>, props: &Vec<Node>, class: Option<usize>)
    ensures
        final(list).deep_view() == old(list).deep_view() + object_chains(props@, class),
{
    let ghost first = list.deep_view();
    let mut i: usize = 0;
    assert(first + object_chains(props@.take(0), class) =~= first);
    while i < props.len()
        invariant
            i <= props.len(),
            first == old(list).deep_view(),
            list.deep_view() == first + object_chains(props@.take(i as int), class),
        decreases props.len() - i,
    {
        let ghost so_far = object_chains(props@.take(i as int), class);
        let ghost before = list.deep_view();
        assert(props@.take(i + 1).drop_last() =~= props@.take(i as int));
        assert(props@.take(i + 1).last() == props@[i as int]);
        match &props[i] {
            Node::Shorthand(name) => {
                let chain = starting(Root::Binding { id: bind(name) });
                push_named(list, name.symbol.as_str(), chain);
                let ghost entry = NamedChainModel { name: name.symbol@, chain: chain.deep_view() };
                assert((first + so_far).push(entry) =~= first + so_far.push(entry));
            },
            Node::KeyValue { key, value, .. } => match property_name(key) {
                Some(name) => {
                    let mut values: Vec<&Node> = Vec::new();
                    read_branches(&**value, &mut values, Ghost(Seq::empty()));
                    let ghost nodes = branches(**value);
                    assert(Seq::<Node>::empty() + nodes =~= nodes);
                    let mut k: usize = 0;
                    assert(before + named_chains(name@, nodes.take(0), class) =~= before);
                    while k < values.len()
                        invariant
                            k <= values.len(),
                            refer_to(values@, nodes),
                            list.deep_view() == before + named_chains(name@, nodes.take(k as int), class),
                        decreases values.len() - k,
                    {
                        let ghost done = named_chains(name@, nodes.take(k as int), class);
                        assert(nodes.take(k + 1).drop_last() =~= nodes.take(k as int));
                        assert(nodes.take(k + 1).last() == *values@[k as int]);
                        match read_chain(values[k], class) {
                            Some(chain) => {
                                push_named(list, name.as_str(), chain);
                                let ghost entry = NamedChainModel { name: name@, chain: chain.deep_view() };
                                assert((before + done).push(entry) =~= before + done.push(entry));
                            },
                            None => {},
                        }
                        k += 1;
                    }
                    assert(nodes.take(nodes.len() as int) =~= nodes);
                    assert(first + so_far + named_chains(name@, nodes, class) =~= first + (so_far + named_chains(
                        name@,
                        nodes,
                        class,
                    )));
                },
                None => {},
            },
            _ => {},
        }
        i += 1;
    }
    assert(props@.take(props@.len() as int) =~= props@);
}

// ---------------------------------------------------------------------------
// Functions
// ---------------------------------------------------------------------------

/// A function or a class of its own: what it returns is not returned around it.
pub open spec fn is_boundary(node: Node) -> bool {
    node is Function || node is Arrow || node is ArrowValue || node is Class || node is ClassDecl || node is FnDecl
}

/// The expression that a return statement returns.
pub open spec fn returned_here(node: Node) -> Seq<Node> {
    match node {
        Node::Return(Some(value)) => seq![*value],
        _ => Seq::empty(),
    }
}

/// The expressions that a statement returns.
pub open spec fn returned_by(node: Node) -> Seq<Node>
    decreases node, children(node).len() + 1,
{
    if is_boundary(node) {
        Seq::empty()
    } else {
        returned_here(node) + returned_by_first(node, children(node).len())
    }
}

pub open spec fn returned_by_first(node: Node, n: nat) -> Seq<Node>
    decreases node, n,
{
    if n == 0 || n > children(node).len() {
        Seq::empty()
    } else {
        proof {
            children_are_smaller(node);
        }
        returned_by_first(node, (n - 1) as nat) + returned_by(children(node)[n - 1])
    }
}

fn boundary(node: &Node) -> (r: bool)
    ensures
        r == is_boundary(*node),
{
    match node {
        Node::Function(_)
        | Node::Arrow(_)
        | Node::ArrowValue { .. }
        | Node::Class { .. }
        | Node::ClassDecl { .. }
        | Node::FnDecl { .. } => true,
        _ => false,
    }
}

fn read_returned<'a>(node: &'a Node, list: &mut Vec<&'a Node>, Ghost(before): Ghost<Seq<Node>>)
    requires
        refer_to(old(list)@, before),
    ensures
        refer_to(final(list)@, before + returned_by(*node)),
    decreases *node,
{
    if boundary(node) {
        assert(before + Seq::<Node>::empty() =~= before);
        return;
    }
    let ghost here = returned_here(*node);
    match node {
        Node::Return(Some(value)) => {
            list.push(&**value);
            assert(before + here =~= before.push(**value));
        },
        _ => {
            assert(before + here =~= before);
        },
    }
    let kids = children_of(node);
    let mut i: usize = 0;
    let ghost first = before + here;
    assert(first + returned_by_first(*node, 0) =~= first);
    while i < kids.len()
        invariant
            i <= kids.len(),
            refer_to(kids@, children(*node)),
            refer_to(list@, first + returned_by_first(*node, i as nat)),
        decreases kids.len() - i,
    {
        proof {
            children_are_smaller(*node);
        }
        let ghost so_far = first + returned_by_first(*node, i as nat);
        read_returned(kids[i], list, Ghost(so_far));
        assert(so_far + returned_by(*kids@[i as int]) =~= first + returned_by_first(*node, (i + 1) as nat));
        i += 1;
    }
    assert(first + returned_by_first(*node, children(*node).len()) =~= before + returned_by(*node));
}

/// The expressions that a block returns.
pub open spec fn returned_by_all(nodes: Seq<Node>) -> Seq<Node>
    decreases nodes.len(),
{
    if nodes.len() == 0 {
        Seq::empty()
    } else {
        returned_by_all(nodes.drop_last()) + returned_by(nodes.last())
    }
}

pub open spec fn no_shape() -> ReturnShapeModel {
    ReturnShapeModel { returned: Seq::empty(), record_returns: Seq::empty() }
}

/// A shape with one more branch of a returned value: an object literal gives its
/// properties, anything else itself.
pub open spec fn with_branch(shape: ReturnShapeModel, branch: Node, class: Option<usize>) -> ReturnShapeModel {
    match branch {
        Node::Object(props) => ReturnShapeModel {
            record_returns: shape.record_returns + object_chains(props@, class),
            ..shape
        },
        _ => match chain_of(branch, class) {
            Some(chain) => ReturnShapeModel { returned: shape.returned.push(chain), ..shape },
            None => shape,
        },
    }
}

pub open spec fn with_branches(shape: ReturnShapeModel, nodes: Seq<Node>, class: Option<usize>) -> ReturnShapeModel
    decreases nodes.len(),
{
    if nodes.len() == 0 {
        shape
    } else {
        with_branch(with_branches(shape, nodes.drop_last(), class), nodes.last(), class)
    }
}

pub open spec fn with_values(shape: ReturnShapeModel, values: Seq<Node>, class: Option<usize>) -> ReturnShapeModel
    decreases values.len(),
{
    if values.len() == 0 {
        shape
    } else {
        with_branches(with_values(shape, values.drop_last(), class), branches(values.last()), class)
    }
}

/// What a function with a block returns.
pub open spec fn body_shape(body: Option<Vec<Node>>, class: Option<usize>) -> ReturnShapeModel {
    match body {
        Some(body) => with_values(no_shape(), returned_by_all(body@), class),
        None => no_shape(),
    }
}

fn empty_shape() -> (r: ReturnShape)
    ensures
        r.deep_view() == no_shape(),
{
    let r = ReturnShape { returned: Vec::new(), record_returns: Vec::new() };
    assert(r.deep_view().returned =~= Seq::<ChainModel>::empty());
    assert(r.deep_view().record_returns =~= Seq::<NamedChainModel>::empty());
    r
}

fn add_value(shape: &mut ReturnShape, value: &Node, class: Option<usize>)
    ensures
        final(shape).deep_view() == with_branches(old(shape).deep_view(), branches(*value), class),
{
    let mut list: Vec<&Node> = Vec::new();
    read_branches(value, &mut list, Ghost(Seq::empty()));
    let ghost nodes = branches(*value);
    let ghost first = shape.deep_view();
    assert(Seq::<Node>::empty() + nodes =~= nodes);
    let mut i: usize = 0;
    while i < list.len()
        invariant
            i <= list.len(),
            first == old(shape).deep_view(),
            refer_to(list@, nodes),
            shape.deep_view() == with_branches(first, nodes.take(i as int), class),
        decreases list.len() - i,
    {
        let ghost before = shape.deep_view();
        assert(nodes.take(i + 1).drop_last() =~= nodes.take(i as int));
        assert(nodes.take(i + 1).last() == *list@[i as int]);
        match list[i] {
            Node::Object(props) => read_object(&mut shape.record_returns, props, class),
            branch => match read_chain(branch, class) {
                Some(chain) => {
                    shape.returned.push(chain);
                    assert(shape.returned.deep_view() =~= before.returned.push(chain.deep_view()));
                },
                None => {},
            },
        }
        i += 1;
    }
    assert(nodes.take(nodes.len() as int) =~= nodes);
}

fn read_body(body: &Option<Vec<Node>>, class: Option<usize>) -> (r: ReturnShape)
    ensures
        r.deep_view() == body_shape(*body, class),
{
    let mut shape = empty_shape();
    match body {
        Some(body) => {
            let mut values: Vec<&Node> = Vec::new();
            let mut i: usize = 0;
            assert(refer_to(values@, returned_by_all(body@.take(0))));
            while i < body.len()
                invariant
                    i <= body.len(),
                    refer_to(values@, returned_by_all(body@.take(i as int))),
                decreases body.len() - i,
            {
                assert(body@.take(i + 1).drop_last() =~= body@.take(i as int));
                assert(body@.take(i + 1).last() == body@[i as int]);
                read_returned(&body[i], &mut values, Ghost(returned_by_all(body@.take(i as int))));
                i += 1;
            }
            assert(body@.take(body@.len() as int) =~= body@);
            let ghost nodes = returned_by_all(body@);
            let mut k: usize = 0;
            while k < values.len()
                invariant
                    k <= values.len(),
                    refer_to(values@, nodes),
                    shape.deep_view() == with_values(no_shape(), nodes.take(k as int), class),
                decreases values.len() - k,
            {
                assert(nodes.take(k + 1).drop_last() =~= nodes.take(k as int));
                assert(nodes.take(k + 1).last() == *values@[k as int]);
                add_value(&mut shape, values[k], class);
                k += 1;
            }
            assert(nodes.take(nodes.len() as int) =~= nodes);
            shape
        },
        None => shape,
    }
}

/// The dependency that a declared type names: a bare name that the file imports
/// from one, or a name behind one.
pub open spec fn annotation_package(
    names: Map<Seq<char>, PkgRefModel>,
    annotation: Option<TypeAnnotation>,
) -> Option<PkgRefModel> {
    match annotation {
        Some(TypeAnnotation::Reference(parts)) => if parts@.len() > 0 && names.contains_key(parts@[0]@) {
            Some(names[parts@[0]@])
        } else {
            None
        },
        _ => None,
    }
}

fn read_annotation(names: &TextMap<PkgRef>, annotation: &Option<TypeAnnotation>) -> (r: Option<PkgRef>)
    ensures
        r.deep_view() == annotation_package(names.deep_view(), *annotation),
{
    match annotation {
        Some(TypeAnnotation::Reference(parts)) => {
            if parts.len() == 0 {
                return None;
            }
            match names.get(parts[0].as_str()) {
                Some(package) => Some(package.duplicate()),
                None => None,
            }
        },
        _ => None,
    }
}

/// The facts with a function, where something is known of what it returns.
pub open spec fn with_function(
    facts: FileFactsModel,
    local: BindingIdModel,
    shape: ReturnShapeModel,
    annotation: Option<PkgRefModel>,
) -> FileFactsModel {
    if shape.returned.len() == 0 && shape.record_returns.len() == 0 && annotation is None {
        facts
    } else {
        FileFactsModel { functions: facts.functions.push(FunctionFactModel { local, shape, annotation }), ..facts }
    }
}

fn push_function(facts: &mut FileFacts, local: BindingId, shape: ReturnShape, annotation: Option<PkgRef>)
    ensures
        final(facts).deep_view() == with_function(
            old(facts).deep_view(),
            local.deep_view(),
            shape.deep_view(),
            annotation.deep_view(),
        ),
        final(facts).classes == old(facts).classes,
{
    let ghost before = facts.deep_view();
    if shape.returned.len() == 0 && shape.record_returns.len() == 0 && annotation.is_none() {
        return;
    }
    let fact = FunctionFact { local, shape, annotation };
    facts.functions.push(fact);
    assert(facts.functions.deep_view() =~= before.functions.push(fact.deep_view()));
}

/// The facts with a function that is bound to a name.
pub open spec fn with_bound_function(facts: FileFactsModel, local: BindingIdModel, node: Node, class: Option<usize>) -> FileFactsModel {
    match node {
        Node::Function(function) => with_function(
            facts,
            local,
            body_shape(function.body, class),
            annotation_package(facts.type_names, function.return_type),
        ),
        Node::Arrow(function) => with_function(
            facts,
            local,
            body_shape(function.body, class),
            annotation_package(facts.type_names, function.return_type),
        ),
        Node::ArrowValue { value, return_type, .. } => with_function(
            facts,
            local,
            with_branches(no_shape(), branches(*value), class),
            annotation_package(facts.type_names, return_type),
        ),
        _ => facts,
    }
}

fn collect_function(facts: &mut FileFacts, local: BindingId, function: &Function, class: Option<usize>)
    ensures
        final(facts).deep_view() == with_function(
            old(facts).deep_view(),
            local.deep_view(),
            body_shape(function.body, class),
            annotation_package(old(facts).deep_view().type_names, function.return_type),
        ),
        final(facts).classes == old(facts).classes,
{
    let shape = read_body(&function.body, class);
    let annotation = read_annotation(&facts.type_names, &function.return_type);
    push_function(facts, local, shape, annotation);
}

fn collect_bound_function(facts: &mut FileFacts, local: &BindingId, node: &Node, class: Option<usize>)
    ensures
        final(facts).deep_view() == with_bound_function(old(facts).deep_view(), local.deep_view(), *node, class),
        final(facts).classes == old(facts).classes,
{
    match node {
        Node::Function(function) => collect_function(facts, local.duplicate(), function, class),
        Node::Arrow(function) => collect_function(facts, local.duplicate(), function, class),
        Node::ArrowValue { value, return_type, .. } => {
            let mut shape = empty_shape();
            add_value(&mut shape, &**value, class);
            let annotation = read_annotation(&facts.type_names, return_type);
            push_function(facts, local.duplicate(), shape, annotation);
        },
        _ => {},
    }
}

// ---------------------------------------------------------------------------
// Imports and exports
// ---------------------------------------------------------------------------

/// The source of what is imported or exported under a name, or of a module as a
/// whole where there is no name.
pub open spec fn source_of(target: TargetModel, name: Option<Seq<char>>) -> SourceModel {
    match target {
        TargetModel::External { package, subpath } => SourceModel::ExternalPackage {
            package: PkgRefModel { package, import_symbol: name, subpath },
        },
        TargetModel::Internal { file } => match name {
            Some(name) => SourceModel::InternalNamed { file, name },
            None => SourceModel::InternalNamespace { file },
        },
    }
}

fn name_source(target: &Target, name: Option<String>) -> (r: Source)
    ensures
        r.deep_view() == source_of(target.deep_view(), name.deep_view()),
{
    match target {
        Target::External { package, subpath } => Source::ExternalPackage {
            package: PkgRef { package: package.clone(), import_symbol: name, subpath: copy_option(subpath) },
        },
        Target::Internal { file } => match name {
            Some(name) => Source::InternalNamed { file: *file, name },
            None => Source::InternalNamespace { file: *file },
        },
    }
}

/// The facts with the file that a target is among those pulled in.
pub open spec fn with_edge(facts: FileFactsModel, target: TargetModel) -> FileFactsModel {
    match target {
        TargetModel::Internal { file } => FileFactsModel { edges: facts.edges.push(file), ..facts },
        TargetModel::External { .. } => facts,
    }
}

fn push_edge(facts: &mut FileFacts, target: &Target)
    ensures
        final(facts).deep_view() == with_edge(old(facts).deep_view(), target.deep_view()),
        final(facts).classes == old(facts).classes,
{
    match target {
        Target::Internal { file } => facts.edges.push(*file),
        Target::External { .. } => {},
    }
}

pub open spec fn specifier_local(specifier: ImportSpecifier) -> Ident {
    match specifier {
        ImportSpecifier::Named { local, .. } => local,
        ImportSpecifier::Default { local } => local,
        ImportSpecifier::Namespace { local } => local,
    }
}

/// The export that a specifier imports; a namespace imports the module.
pub open spec fn specifier_export(specifier: ImportSpecifier) -> Option<Seq<char>> {
    match specifier {
        ImportSpecifier::Named { local, imported, .. } => match imported {
            Some(imported) => Some(imported@),
            None => Some(local.symbol@),
        },
        ImportSpecifier::Default { .. } => Some("default"@),
        ImportSpecifier::Namespace { .. } => None,
    }
}

pub open spec fn imports_type(specifier: ImportSpecifier) -> bool {
    specifier matches ImportSpecifier::Named { type_only, .. } && type_only
}

/// The facts with what one specifier imports. A name from a dependency is a name
/// that a type may be declared by, also where it is imported as a type alone;
/// only an import of a value binds one.
pub open spec fn with_specifier(
    facts: FileFactsModel,
    target: TargetModel,
    specifier: ImportSpecifier,
    type_only: bool,
) -> FileFactsModel {
    let local = specifier_local(specifier);
    let name = specifier_export(specifier);
    let named = match target {
        TargetModel::External { package, subpath } => FileFactsModel {
            type_names: facts.type_names.insert(local.symbol@, PkgRefModel { package, import_symbol: name, subpath }),
            ..facts
        },
        TargetModel::Internal { .. } => facts,
    };
    if type_only || imports_type(specifier) {
        named
    } else {
        FileFactsModel {
            imports: named.imports.push(
                ImportFactModel { local: binding_of(local), source: source_of(target, name) },
            ),
            ..named
        }
    }
}

pub open spec fn with_specifiers(
    facts: FileFactsModel,
    target: TargetModel,
    specifiers: Seq<ImportSpecifier>,
    type_only: bool,
) -> FileFactsModel
    decreases specifiers.len(),
{
    if specifiers.len() == 0 {
        facts
    } else {
        with_specifier(
            with_specifiers(facts, target, specifiers.drop_last(), type_only),
            target,
            specifiers.last(),
            type_only,
        )
    }
}

fn collect_specifier(facts: &mut FileFacts, target: &Target, specifier: &ImportSpecifier, type_only: bool)
    ensures
        final(facts).deep_view() == with_specifier(old(facts).deep_view(), target.deep_view(), *specifier, type_only),
        final(facts).classes == old(facts).classes,
{
    let ghost before = facts.deep_view();
    let (local, name, types) = match specifier {
        ImportSpecifier::Named { local, imported, type_only } => {
            let name = match imported {
                Some(imported) => imported.clone(),
                None => local.symbol.clone(),
            };
            (local, Some(name), *type_only)
        },
        ImportSpecifier::Default { local } => (local, Some("default".to_owned()), false),
        ImportSpecifier::Namespace { local } => (local, None, false),
    };
    match target {
        Target::External { package, subpath } => {
            let named = PkgRef {
                package: package.clone(),
                import_symbol: copy_option(&name),
                subpath: copy_option(subpath),
            };
            facts.type_names.insert(local.symbol.clone(), named);
            assert(facts.type_names.deep_view() =~= before.type_names.insert(local.symbol@, named.deep_view()));
        },
        Target::Internal { .. } => {},
    }
    if type_only || types {
        return;
    }
    let fact = ImportFact { local: bind(local), source: name_source(target, name) };
    facts.imports.push(fact);
    assert(facts.imports.deep_view() =~= before.imports.push(fact.deep_view()));
}

/// The facts with an import declaration. A file that is imported as a type alone
/// is not pulled in.
pub open spec fn with_import(
    facts: FileFactsModel,
    target: Option<TargetModel>,
    specifiers: Seq<ImportSpecifier>,
    type_only: bool,
) -> FileFactsModel {
    match target {
        Some(target) => with_specifiers(
            if type_only {
                facts
            } else {
                with_edge(facts, target)
            },
            target,
            specifiers,
            type_only,
        ),
        None => facts,
    }
}

fn collect_import(facts: &mut FileFacts, target: Option<&Target>, specifiers: &Vec<ImportSpecifier>, type_only: bool)
    ensures
        final(facts).deep_view() == with_import(
            old(facts).deep_view(),
            match target {
                Some(target) => Some(target.deep_view()),
                None => None,
            },
            specifiers@,
            type_only,
        ),
        final(facts).classes == old(facts).classes,
{
    match target {
        Some(target) => {
            if !type_only {
                push_edge(facts, target);
            }
            let ghost first = facts.deep_view();
            let mut i: usize = 0;
            while i < specifiers.len()
                invariant
                    i <= specifiers.len(),
                    facts.classes == old(facts).classes,
                    facts.deep_view() == with_specifiers(
                        first,
                        target.deep_view(),
                        specifiers@.take(i as int),
                        type_only,
                    ),
                decreases specifiers.len() - i,
            {
                assert(specifiers@.take(i + 1).drop_last() =~= specifiers@.take(i as int));
                assert(specifiers@.take(i + 1).last() == specifiers@[i as int]);
                collect_specifier(facts, target, &specifiers[i], type_only);
                i += 1;
            }
            assert(specifiers@.take(specifiers@.len() as int) =~= specifiers@);
        },
        None => {},
    }
}

pub open spec fn with_export(facts: FileFactsModel, name: Seq<char>, local: BindingIdModel) -> FileFactsModel {
    FileFactsModel { exports: facts.exports.push(ExportFactModel { name, local }), ..facts }
}

fn export_binding(facts: &mut FileFacts, name: &str, local: BindingId)
    ensures
        final(facts).deep_view() == with_export(old(facts).deep_view(), name@, local.deep_view()),
        final(facts).classes == old(facts).classes,
{
    let ghost before = facts.deep_view();
    let fact = ExportFact { name: name.to_owned(), local };
    facts.exports.push(fact);
    assert(facts.exports.deep_view() =~= before.exports.push(fact.deep_view()));
}

pub open spec fn with_reexport(facts: FileFactsModel, name: Seq<char>, source: SourceModel) -> FileFactsModel {
    FileFactsModel { reexports: facts.reexports.push(ReExportFactModel { name, source }), ..facts }
}

fn push_reexport(facts: &mut FileFacts, name: &str, source: Source)
    ensures
        final(facts).deep_view() == with_reexport(old(facts).deep_view(), name@, source.deep_view()),
        final(facts).classes == old(facts).classes,
{
    let ghost before = facts.deep_view();
    let fact = ReExportFact { name: name.to_owned(), source };
    facts.reexports.push(fact);
    assert(facts.reexports.deep_view() =~= before.reexports.push(fact.deep_view()));
}

/// The facts with what one specifier exports: a name from elsewhere, a binding
/// of the file, or a whole module under a name. What is exported as a type alone
/// carries no value.
pub open spec fn with_export_specifier(
    facts: FileFactsModel,
    target: Option<TargetModel>,
    specifier: ExportSpecifier,
) -> FileFactsModel {
    match specifier {
        ExportSpecifier::Named { original: ExportName::Ident(local), exported, type_only } => if type_only {
            facts
        } else {
            let name = match exported {
                Some(exported) => exported@,
                None => local.symbol@,
            };
            match target {
                Some(target) => with_reexport(facts, name, source_of(target, Some(local.symbol@))),
                None => with_export(facts, name, binding_of(local)),
            }
        },
        ExportSpecifier::Namespace { name: ExportName::Ident(name) } => match target {
            Some(target) => with_reexport(facts, name.symbol@, source_of(target, None)),
            None => facts,
        },
        _ => facts,
    }
}

pub open spec fn with_export_specifiers(
    facts: FileFactsModel,
    target: Option<TargetModel>,
    specifiers: Seq<ExportSpecifier>,
) -> FileFactsModel
    decreases specifiers.len(),
{
    if specifiers.len() == 0 {
        facts
    } else {
        with_export_specifier(
            with_export_specifiers(facts, target, specifiers.drop_last()),
            target,
            specifiers.last(),
        )
    }
}

pub open spec fn model_of(target: Option<&Target>) -> Option<TargetModel> {
    match target {
        Some(target) => Some(target.deep_view()),
        None => None,
    }
}

fn collect_export_specifier(facts: &mut FileFacts, target: Option<&Target>, specifier: &ExportSpecifier)
    ensures
        final(facts).deep_view() == with_export_specifier(old(facts).deep_view(), model_of(target), *specifier),
        final(facts).classes == old(facts).classes,
{
    match specifier {
        ExportSpecifier::Named { original: ExportName::Ident(local), exported, type_only } => {
            if *type_only {
                return;
            }
            let name = match exported {
                Some(exported) => exported.clone(),
                None => local.symbol.clone(),
            };
            match target {
                Some(target) => push_reexport(facts, name.as_str(), name_source(target, Some(local.symbol.clone()))),
                None => export_binding(facts, name.as_str(), bind(local)),
            }
        },
        ExportSpecifier::Namespace { name: ExportName::Ident(name) } => match target {
            Some(target) => push_reexport(facts, name.symbol.as_str(), name_source(target, None)),
            None => {},
        },
        _ => {},
    }
}

/// The facts with a list of named exports.
pub open spec fn with_named_export(
    facts: FileFactsModel,
    target: Option<TargetModel>,
    specifiers: Seq<ExportSpecifier>,
    type_only: bool,
) -> FileFactsModel {
    if type_only {
        facts
    } else {
        with_export_specifiers(
            match target {
                Some(target) => with_edge(facts, target),
                None => facts,
            },
            target,
            specifiers,
        )
    }
}

fn collect_named_export(facts: &mut FileFacts, target: Option<&Target>, specifiers: &Vec<ExportSpecifier>, type_only: bool)
    ensures
        final(facts).deep_view() == with_named_export(old(facts).deep_view(), model_of(target), specifiers@, type_only),
        final(facts).classes == old(facts).classes,
{
    if type_only {
        return;
    }
    match target {
        Some(target) => push_edge(facts, target),
        None => {},
    }
    let ghost first = facts.deep_view();
    let mut i: usize = 0;
    while i < specifiers.len()
        invariant
            i <= specifiers.len(),
            facts.classes == old(facts).classes,
            facts.deep_view() == with_export_specifiers(first, model_of(target), specifiers@.take(i as int)),
        decreases specifiers.len() - i,
    {
        assert(specifiers@.take(i + 1).drop_last() =~= specifiers@.take(i as int));
        assert(specifiers@.take(i + 1).last() == specifiers@[i as int]);
        collect_export_specifier(facts, target, &specifiers[i]);
        i += 1;
    }
    assert(specifiers@.take(specifiers@.len() as int) =~= specifiers@);
}

/// The facts with the names that an exported declaration declares.
pub open spec fn with_declared_exports(facts: FileFactsModel, declarators: Seq<Node>) -> FileFactsModel
    decreases declarators.len(),
{
    if declarators.len() == 0 {
        facts
    } else {
        let before = with_declared_exports(facts, declarators.drop_last());
        match declarators.last() {
            Node::Declarator { pattern: Pattern::Name(name), .. } => with_export(before, name.symbol@, binding_of(name)),
            _ => before,
        }
    }
}

pub open spec fn with_exported_decl(facts: FileFactsModel, decl: Node) -> FileFactsModel {
    match decl {
        Node::VarDecl(declarators) => with_declared_exports(facts, declarators@),
        Node::FnDecl { name, .. } => with_export(facts, name.symbol@, binding_of(name)),
        Node::ClassDecl { name, .. } => with_export(facts, name.symbol@, binding_of(name)),
        _ => facts,
    }
}

fn collect_exported_decl(facts: &mut FileFacts, decl: &Node)
    ensures
        final(facts).deep_view() == with_exported_decl(old(facts).deep_view(), *decl),
        final(facts).classes == old(facts).classes,
{
    match decl {
        Node::VarDecl(declarators) => {
            let ghost first = facts.deep_view();
            let mut i: usize = 0;
            while i < declarators.len()
                invariant
                    i <= declarators.len(),
                    facts.classes == old(facts).classes,
                    facts.deep_view() == with_declared_exports(first, declarators@.take(i as int)),
                decreases declarators.len() - i,
            {
                assert(declarators@.take(i + 1).drop_last() =~= declarators@.take(i as int));
                assert(declarators@.take(i + 1).last() == declarators@[i as int]);
                match &declarators[i] {
                    Node::Declarator { pattern: Pattern::Name(name), .. } => export_binding(
                        facts,
                        name.symbol.as_str(),
                        bind(name),
                    ),
                    _ => {},
                }
                i += 1;
            }
            assert(declarators@.take(declarators@.len() as int) =~= declarators@);
        },
        Node::FnDecl { name, .. } => export_binding(facts, name.symbol.as_str(), bind(name)),
        Node::ClassDecl { name, .. } => export_binding(facts, name.symbol.as_str(), bind(name)),
        _ => {},
    }
}

pub open spec fn with_alias(facts: FileFactsModel, local: BindingIdModel, value: ChainModel) -> FileFactsModel {
    FileFactsModel { aliases: facts.aliases.push(AliasFactModel { local, value }), ..facts }
}

fn push_alias(facts: &mut FileFacts, local: BindingId, value: Chain)
    ensures
        final(facts).deep_view() == with_alias(old(facts).deep_view(), local.deep_view(), value.deep_view()),
        final(facts).classes == old(facts).classes,
{
    let ghost before = facts.deep_view();
    let fact = AliasFact { local, value };
    facts.aliases.push(fact);
    assert(facts.aliases.deep_view() =~= before.aliases.push(fact.deep_view()));
}

/// The facts with a default export of an expression. A name is exported as
/// such; anything else gets a binding of its own.
pub open spec fn with_default_expr(facts: FileFactsModel, node: Node) -> FileFactsModel {
    match plain(node) {
        Node::Ident(name) => with_export(facts, "default"@, binding_of(name)),
        other => with_export(
            match chain_of(other, None) {
                Some(chain) => with_alias(facts, default_binding(), chain),
                None => facts,
            },
            "default"@,
            default_binding(),
        ),
    }
}

fn collect_default_expr(facts: &mut FileFacts, node: &Node)
    ensures
        final(facts).deep_view() == with_default_expr(old(facts).deep_view(), *node),
        final(facts).classes == old(facts).classes,
{
    match unwrap_value(node) {
        Node::Ident(name) => export_binding(facts, "default", bind(name)),
        other => {
            let local = BindingId { symbol: "*default*".to_owned(), context: 0 };
            match read_chain(other, None) {
                Some(chain) => push_alias(facts, local.duplicate(), chain),
                None => {},
            }
            export_binding(facts, "default", local);
        },
    }
}

/// The facts with what an item of a module imports and exports.
pub open spec fn with_item(facts: FileFactsModel, item: ModuleItem, targets: Map<Seq<char>, TargetModel>) -> FileFactsModel {
    match item {
        ModuleItem::Import { source, type_only, specifiers } => with_import(
            facts,
            target_of(targets, source@),
            specifiers@,
            type_only,
        ),
        ModuleItem::ExportNamed { source, type_only, specifiers } => with_named_export(
            facts,
            match source {
                Some(source) => target_of(targets, source@),
                None => None,
            },
            specifiers@,
            type_only,
        ),
        ModuleItem::ExportAll { source, type_only } => match target_of(targets, source@) {
            Some(TargetModel::Internal { file }) => if type_only {
                facts
            } else {
                FileFactsModel {
                    edges: facts.edges.push(file),
                    star_exports: facts.star_exports.push(file),
                    ..facts
                }
            },
            _ => facts,
        },
        ModuleItem::ExportDecl(decl) => with_exported_decl(facts, decl),
        ModuleItem::ExportDefault { name, decl } => match name {
            Some(name) => with_export(
                with_bound_function(facts, binding_of(name), decl, None),
                "default"@,
                binding_of(name),
            ),
            None => facts,
        },
        ModuleItem::ExportDefaultExpr(node) => with_default_expr(facts, node),
        ModuleItem::Statement(_) => facts,
    }
}

fn collect_item(facts: &mut FileFacts, item: &ModuleItem, targets: &TargetMap)
    ensures
        final(facts).deep_view() == with_item(old(facts).deep_view(), *item, targets.deep_view()),
        final(facts).classes == old(facts).classes,
{
    match item {
        ModuleItem::Import { source, type_only, specifiers } => collect_import(
            facts,
            find_target(targets, source.as_str()),
            specifiers,
            *type_only,
        ),
        ModuleItem::ExportNamed { source, type_only, specifiers } => {
            let target = match source {
                Some(source) => find_target(targets, source.as_str()),
                None => None,
            };
            collect_named_export(facts, target, specifiers, *type_only)
        },
        ModuleItem::ExportAll { source, type_only } => match find_target(targets, source.as_str()) {
            Some(Target::Internal { file }) => {
                if !*type_only {
                    facts.edges.push(*file);
                    facts.star_exports.push(*file);
                }
            },
            _ => {},
        },
        ModuleItem::ExportDecl(decl) => collect_exported_decl(facts, decl),
        ModuleItem::ExportDefault { name, decl } => match name {
            Some(name) => {
                let local = bind(name);
                collect_bound_function(facts, &local, decl, None);
                export_binding(facts, "default", local);
            },
            None => {},
        },
        ModuleItem::ExportDefaultExpr(node) => collect_default_expr(facts, node),
        ModuleItem::Statement(_) => {},
    }
}

// ---------------------------------------------------------------------------
// Classes
// ---------------------------------------------------------------------------

/// The class that code stands in: its place among the classes of the file, and
/// the parameters of its constructor that are plain names.
pub struct ClassContext {
    pub index: usize,
    pub params: Vec<Option<BindingId>>,
}

/// What a [`ClassContext`] holds.
pub struct ClassContextModel {
    pub index: usize,
    pub params: Seq<Option<BindingIdModel>>,
}

impl DeepView for ClassContext {
    type V = ClassContextModel;

    open spec fn deep_view(&self) -> ClassContextModel {
        ClassContextModel { index: self.index, params: self.params.deep_view() }
    }
}

pub open spec fn no_class(binding: Option<BindingIdModel>) -> ClassFactModel {
    ClassFactModel {
        binding,
        instance_fields: Seq::empty(),
        annotation_fields: Seq::empty(),
        static_fields: Seq::empty(),
        static_functions: Seq::empty(),
        ctor_param_fields: Seq::empty(),
    }
}

/// The parameters of a class's constructor.
pub open spec fn constructor_params(members: Seq<Node>) -> Seq<Option<BindingIdModel>>
    decreases members.len(),
{
    if members.len() == 0 {
        Seq::empty()
    } else {
        match members.last() {
            Node::Constructor { params, .. } => param_bindings(params@),
            _ => constructor_params(members.drop_last()),
        }
    }
}

pub open spec fn param_bindings(params: Seq<Option<Ident>>) -> Seq<Option<BindingIdModel>> {
    params.map_values(
        |param: Option<Ident>|
            match param {
                Some(name) => Some(binding_of(name)),
                None => None,
            },
    )
}

fn bind_params(params: &Vec<Option<Ident>>) -> (r: Vec<Option<BindingId>>)
    ensures
        r.deep_view() == param_bindings(params@),
{
    let ghost all = param_bindings(params@);
    let mut r: Vec<Option<BindingId>> = Vec::new();
    let mut i: usize = 0;
    assert(r.deep_view() =~= all.take(0));
    while i < params.len()
        invariant
            i <= params.len(),
            all == param_bindings(params@),
            r.deep_view() == all.take(i as int),
        decreases params.len() - i,
    {
        let ghost before = r.deep_view();
        let param = match &params[i] {
            Some(name) => Some(bind(name)),
            None => None,
        };
        r.push(param);
        assert(r.deep_view() =~= before.push(param.deep_view()));
        assert(all[i as int] == param.deep_view());
        assert(all.take(i + 1) =~= all.take(i as int).push(all[i as int]));
        i += 1;
    }
    assert(all.take(all.len() as int) =~= all);
    r
}

fn read_params(members: &Vec<Node>) -> (r: Vec<Option<BindingId>>)
    ensures
        r.deep_view() == constructor_params(members@),
{
    let mut i: usize = members.len();
    assert(members@.take(members@.len() as int) =~= members@);
    while i > 0
        invariant
            i <= members.len(),
            constructor_params(members@) == constructor_params(members@.take(i as int)),
        decreases i,
    {
        i -= 1;
        assert(members@.take(i + 1).drop_last() =~= members@.take(i as int));
        assert(members@.take(i + 1).last() == members@[i as int]);
        match &members[i] {
            Node::Constructor { params, .. } => {
                return bind_params(params);
            },
            _ => {},
        }
    }
    let r: Vec<Option<BindingId>> = Vec::new();
    assert(r.deep_view() =~= Seq::<Option<BindingIdModel>>::empty());
    r
}

/// The facts with another description of one of the classes.
pub open spec fn with_class_fact(facts: FileFactsModel, index: usize, class: ClassFactModel) -> FileFactsModel {
    FileFactsModel { classes: facts.classes.update(index as int, class), ..facts }
}

pub open spec fn with_instance_field(facts: FileFactsModel, index: usize, name: Seq<char>, chain: ChainModel) -> FileFactsModel {
    let class = facts.classes[index as int];
    with_class_fact(
        facts,
        index,
        ClassFactModel { instance_fields: class.instance_fields.push(NamedChainModel { name, chain }), ..class },
    )
}

pub open spec fn with_static_field(facts: FileFactsModel, index: usize, name: Seq<char>, chain: ChainModel) -> FileFactsModel {
    let class = facts.classes[index as int];
    with_class_fact(
        facts,
        index,
        ClassFactModel { static_fields: class.static_fields.push(NamedChainModel { name, chain }), ..class },
    )
}

pub open spec fn with_typed_field(facts: FileFactsModel, index: usize, name: Seq<char>, package: PkgRefModel) -> FileFactsModel {
    let class = facts.classes[index as int];
    with_class_fact(
        facts,
        index,
        ClassFactModel { annotation_fields: class.annotation_fields.push(TypedFieldModel { name, package }), ..class },
    )
}

pub open spec fn with_static_function(facts: FileFactsModel, index: usize, function: StaticFunctionModel) -> FileFactsModel {
    let class = facts.classes[index as int];
    with_class_fact(
        facts,
        index,
        ClassFactModel { static_functions: class.static_functions.push(function), ..class },
    )
}

pub open spec fn with_param_field(facts: FileFactsModel, index: usize, field: ParamFieldModel) -> FileFactsModel {
    let class = facts.classes[index as int];
    with_class_fact(facts, index, ClassFactModel { ctor_param_fields: class.ctor_param_fields.push(field), ..class })
}

fn push_instance_field(facts: &mut FileFacts, index: usize, name: &str, chain: Chain)
    requires
        index < old(facts).classes@.len(),
    ensures
        final(facts).deep_view() == with_instance_field(old(facts).deep_view(), index, name@, chain.deep_view()),
        final(facts).classes@.len() == old(facts).classes@.len(),
{
    let ghost before = facts.deep_view();
    let ghost class = before.classes[index as int];
    assert(class == facts.classes@[index as int].deep_view());
    let entry = NamedChain { name: name.to_owned(), chain };
    let field = &mut facts.classes[index];
    field.instance_fields.push(entry);
    let ghost after = facts.classes@[index as int].deep_view();
    assert(after.instance_fields =~= class.instance_fields.push(entry.deep_view()));
    assert(facts.classes.deep_view() =~= before.classes.update(index as int, after));
}

fn push_static_field(facts: &mut FileFacts, index: usize, name: &str, chain: Chain)
    requires
        index < old(facts).classes@.len(),
    ensures
        final(facts).deep_view() == with_static_field(old(facts).deep_view(), index, name@, chain.deep_view()),
        final(facts).classes@.len() == old(facts).classes@.len(),
{
    let ghost before = facts.deep_view();
    let ghost class = before.classes[index as int];
    assert(class == facts.classes@[index as int].deep_view());
    let entry = NamedChain { name: name.to_owned(), chain };
    let field = &mut facts.classes[index];
    field.static_fields.push(entry);
    let ghost after = facts.classes@[index as int].deep_view();
    assert(after.static_fields =~= class.static_fields.push(entry.deep_view()));
    assert(facts.classes.deep_view() =~= before.classes.update(index as int, after));
}

fn push_typed_field(facts: &mut FileFacts, index: usize, name: &str, package: PkgRef)
    requires
        index < old(facts).classes@.len(),
    ensures
        final(facts).deep_view() == with_typed_field(old(facts).deep_view(), index, name@, package.deep_view()),
        final(facts).classes@.len() == old(facts).classes@.len(),
{
    let ghost before = facts.deep_view();
    let ghost class = before.classes[index as int];
    assert(class == facts.classes@[index as int].deep_view());
    let entry = TypedField { name: name.to_owned(), package };
    let field = &mut facts.classes[index];
    field.annotation_fields.push(entry);
    let ghost after = facts.classes@[index as int].deep_view();
    assert(after.annotation_fields =~= class.annotation_fields.push(entry.deep_view()));
    assert(facts.classes.deep_view() =~= before.classes.update(index as int, after));
}

fn push_static_function(facts: &mut FileFacts, index: usize, function: StaticFunction)
    requires
        index < old(facts).classes@.len(),
    ensures
        final(facts).deep_view() == with_static_function(old(facts).deep_view(), index, function.deep_view()),
        final(facts).classes@.len() == old(facts).classes@.len(),
{
    let ghost before = facts.deep_view();
    let ghost class = before.classes[index as int];
    assert(class == facts.classes@[index as int].deep_view());
    let field = &mut facts.classes[index];
    field.static_functions.push(function);
    let ghost after = facts.classes@[index as int].deep_view();
    assert(after.static_functions =~= class.static_functions.push(function.deep_view()));
    assert(facts.classes.deep_view() =~= before.classes.update(index as int, after));
}

fn push_param_field(facts: &mut FileFacts, index: usize, param: ParamField)
    requires
        index < old(facts).classes@.len(),
    ensures
        final(facts).deep_view() == with_param_field(old(facts).deep_view(), index, param.deep_view()),
        final(facts).classes@.len() == old(facts).classes@.len(),
{
    let ghost before = facts.deep_view();
    let ghost class = before.classes[index as int];
    assert(class == facts.classes@[index as int].deep_view());
    let field = &mut facts.classes[index];
    field.ctor_param_fields.push(param);
    let ghost after = facts.classes@[index as int].deep_view();
    assert(after.ctor_param_fields =~= class.ctor_param_fields.push(param.deep_view()));
    assert(facts.classes.deep_view() =~= before.classes.update(index as int, after));
}

/// The facts with a property of a class. The declared type of a field of an
/// instance is read whether or not the field has a value.
pub open spec fn with_class_property(
    facts: FileFactsModel,
    index: usize,
    name: Seq<char>,
    value: Option<Box<Node>>,
    is_static: bool,
    declared: Option<TypeAnnotation>,
) -> FileFactsModel {
    let typed = match annotation_package(facts.type_names, declared) {
        Some(package) => if is_static {
            facts
        } else {
            with_typed_field(facts, index, name, package)
        },
        None => facts,
    };
    match value {
        Some(value) => match chain_of(*value, Some(index)) {
            Some(chain) => if is_static {
                with_static_field(typed, index, name, chain)
            } else {
                with_instance_field(typed, index, name, chain)
            },
            None => typed,
        },
        None => typed,
    }
}

/// The facts with a member of a class, as far as its body is not read: the
/// properties, and what static methods and getters return.
pub open spec fn with_member(facts: FileFactsModel, index: usize, member: Node) -> FileFactsModel {
    match member {
        Node::ClassProp { key, value, is_static, declared, .. } => match key_name(key) {
            Some(name) => with_class_property(facts, index, name, value, is_static, declared),
            None => facts,
        },
        Node::Method { key, function, kind, is_static, .. } => match key_name(key) {
            Some(name) => {
                let shape = body_shape(function.body, Some(index));
                if !is_static || kind == MethodKind::Setter || shape.returned.len() == 0 && shape.record_returns.len() == 0 {
                    facts
                } else {
                    with_static_function(
                        facts,
                        index,
                        StaticFunctionModel { name, shape, is_getter: kind == MethodKind::Getter },
                    )
                }
            },
            None => facts,
        },
        _ => facts,
    }
}

pub open spec fn with_members(facts: FileFactsModel, index: usize, members: Seq<Node>) -> FileFactsModel
    decreases members.len(),
{
    if members.len() == 0 {
        facts
    } else {
        with_member(with_members(facts, index, members.drop_last()), index, members.last())
    }
}

fn collect_member(facts: &mut FileFacts, index: usize, member: &Node)
    requires
        index < old(facts).classes@.len(),
    ensures
        final(facts).deep_view() == with_member(old(facts).deep_view(), index, *member),
        final(facts).classes@.len() == old(facts).classes@.len(),
{
    match member {
        Node::ClassProp { key, value, is_static, declared, .. } => match property_name(key) {
            Some(name) => {
                if !*is_static {
                    match read_annotation(&facts.type_names, declared) {
                        Some(package) => push_typed_field(facts, index, name.as_str(), package),
                        None => {},
                    }
                }
                match value {
                    Some(value) => match read_chain(&**value, Some(index)) {
                        Some(chain) => {
                            if *is_static {
                                push_static_field(facts, index, name.as_str(), chain);
                            } else {
                                push_instance_field(facts, index, name.as_str(), chain);
                            }
                        },
                        None => {},
                    },
                    None => {},
                }
            },
            None => {},
        },
        Node::Method { key, function, kind, is_static, .. } => match property_name(key) {
            Some(name) => {
                if !*is_static || *kind == MethodKind::Setter {
                    return;
                }
                let shape = read_body(&function.body, Some(index));
                if shape.returned.len() == 0 && shape.record_returns.len() == 0 {
                    return;
                }
                push_static_function(
                    facts,
                    index,
                    StaticFunction { name, shape, is_getter: *kind == MethodKind::Getter },
                );
            },
            None => {},
        },
        _ => {},
    }
}

fn collect_members(facts: &mut FileFacts, index: usize, members: &Vec<Node>)
    requires
        index < old(facts).classes@.len(),
    ensures
        final(facts).deep_view() == with_members(old(facts).deep_view(), index, members@),
        final(facts).classes@.len() == old(facts).classes@.len(),
{
    let ghost first = facts.deep_view();
    let mut i: usize = 0;
    while i < members.len()
        invariant
            i <= members.len(),
            index < facts.classes@.len(),
            facts.classes@.len() == old(facts).classes@.len(),
            first == old(facts).deep_view(),
            facts.deep_view() == with_members(first, index, members@.take(i as int)),
        decreases members.len() - i,
    {
        assert(members@.take(i + 1).drop_last() =~= members@.take(i as int));
        assert(members@.take(i + 1).last() == members@[i as int]);
        collect_member(facts, index, &members[i]);
        i += 1;
    }
    assert(members@.take(members@.len() as int) =~= members@);
}

// ---------------------------------------------------------------------------
// Assignments and constructions
// ---------------------------------------------------------------------------

/// The position of a constructor parameter.
pub open spec fn param_position(params: Seq<Option<BindingIdModel>>, binding: BindingIdModel) -> Option<usize>
    decreases params.len(),
{
    if params.len() == 0 {
        None
    } else {
        match param_position(params.drop_last(), binding) {
            Some(position) => Some(position),
            None => if params.last() == Some(binding) {
                Some((params.len() - 1) as usize)
            } else {
                None
            },
        }
    }
}

proof fn param_position_found(params: Seq<Option<BindingIdModel>>, binding: BindingIdModel, n: int)
    requires
        0 <= n <= params.len(),
        param_position(params.take(n), binding) is Some,
    ensures
        param_position(params, binding) == param_position(params.take(n), binding),
    decreases params.len(),
{
    if n == params.len() {
        assert(params.take(n) =~= params);
    } else {
        assert(params.drop_last().take(n) =~= params.take(n));
        param_position_found(params.drop_last(), binding, n);
    }
}

fn find_param(params: &Vec<Option<BindingId>>, binding: &BindingId) -> (r: Option<usize>)
    ensures
        r == param_position(params.deep_view(), binding.deep_view()),
{
    let ghost all = params.deep_view();
    let ghost name = binding.deep_view();
    let mut i: usize = 0;
    while i < params.len()
        invariant
            i <= params.len(),
            all == params.deep_view(),
            name == binding.deep_view(),
            param_position(all.take(i as int), name) is None,
        decreases params.len() - i,
    {
        assert(all.take(i + 1).drop_last() =~= all.take(i as int));
        assert(all.take(i + 1).last() == params@[i as int].deep_view());
        let found = match &params[i] {
            Some(param) => same_binding(param, binding),
            None => false,
        };
        if found {
            proof {
                param_position_found(all, name, i + 1);
            }
            return Some(i);
        }
        i += 1;
    }
    assert(all.take(all.len() as int) =~= all);
    None
}

/// The properties that steps read, where none of them is a call.
pub open spec fn path_of(steps: Seq<StepModel>) -> Option<Seq<Seq<char>>>
    decreases steps.len(),
{
    if steps.len() == 0 {
        Some(Seq::empty())
    } else {
        match (path_of(steps.drop_last()), steps.last()) {
            (Some(path), StepModel::Prop { name }) => Some(path.push(name)),
            _ => None,
        }
    }
}

proof fn a_call_ends_the_path(steps: Seq<StepModel>, n: int)
    requires
        0 <= n <= steps.len(),
        path_of(steps.take(n)) is None,
    ensures
        path_of(steps) is None,
    decreases steps.len(),
{
    if n == steps.len() {
        assert(steps.take(n) =~= steps);
    } else {
        assert(steps.drop_last().take(n) =~= steps.take(n));
        a_call_ends_the_path(steps.drop_last(), n);
    }
}

fn read_path(steps: &Vec<Step>) -> (r: Option<Vec<String>>)
    ensures
        r.deep_view() == path_of(steps.deep_view()),
{
    let ghost all = steps.deep_view();
    let mut path: Vec<String> = Vec::new();
    let mut i: usize = 0;
    assert(path.deep_view() =~= Seq::<Seq<char>>::empty());
    while i < steps.len()
        invariant
            i <= steps.len(),
            all == steps.deep_view(),
            path_of(all.take(i as int)) == Some(path.deep_view()),
        decreases steps.len() - i,
    {
        let ghost before = path.deep_view();
        assert(all.take(i + 1).drop_last() =~= all.take(i as int));
        assert(all.take(i + 1).last() == steps@[i as int].deep_view());
        match &steps[i] {
            Step::Prop { name } => {
                path.push(name.clone());
                assert(path.deep_view() =~= before.push(name@));
            },
            Step::Call => {
                proof {
                    a_call_ends_the_path(all, i + 1);
                }
                return None;
            },
        }
        i += 1;
    }
    assert(all.take(all.len() as int) =~= all);
    Some(path)
}

pub open spec fn class_of(context: Option<ClassContextModel>) -> Option<usize> {
    match context {
        Some(context) => Some(context.index),
        None => None,
    }
}

/// The facts with an assignment to a field of an instance. What comes from a
/// constructor parameter is left to the constructions; a call on a parameter is
/// nothing that they could supply.
pub open spec fn with_this_field(
    facts: FileFactsModel,
    context: ClassContextModel,
    field: Seq<char>,
    chain: ChainModel,
) -> FileFactsModel {
    let position = match chain.root {
        RootModel::Binding { id } => param_position(context.params, id),
        RootModel::This { .. } => None,
    };
    match position {
        Some(position) => match path_of(chain.steps) {
            Some(path) => with_param_field(facts, context.index, ParamFieldModel { field, position, path }),
            None => facts,
        },
        None => with_instance_field(facts, context.index, field, chain),
    }
}

/// The facts with an assignment to a member of a name, or of `this` in a class.
pub open spec fn with_assignment(
    facts: FileFactsModel,
    target: Node,
    value: Node,
    context: Option<ClassContextModel>,
) -> FileFactsModel {
    match target {
        Node::Member { object, property } => match (plain(*object), chain_of(value, class_of(context))) {
            (Node::Ident(receiver), Some(chain)) => FileFactsModel {
                member_assignments: facts.member_assignments.push(
                    MemberAssignmentModel { target: binding_of(receiver), field: property@, value: chain },
                ),
                ..facts
            },
            (Node::This, Some(chain)) => match context {
                Some(context) => with_this_field(facts, context, property@, chain),
                None => facts,
            },
            _ => facts,
        },
        _ => facts,
    }
}

pub open spec fn context_model(context: Option<&ClassContext>) -> Option<ClassContextModel> {
    match context {
        Some(context) => Some(context.deep_view()),
        None => None,
    }
}

fn class_in(context: Option<&ClassContext>) -> (r: Option<usize>)
    ensures
        r == class_of(context_model(context)),
{
    match context {
        Some(context) => Some(context.index),
        None => None,
    }
}

fn collect_assignment(facts: &mut FileFacts, target: &Node, value: &Node, context: Option<&ClassContext>)
    requires
        context matches Some(c) ==> c.index < old(facts).classes@.len(),
    ensures
        final(facts).deep_view() == with_assignment(old(facts).deep_view(), *target, *value, context_model(context)),
        final(facts).classes@.len() == old(facts).classes@.len(),
{
    let ghost before = facts.deep_view();
    match target {
        Node::Member { object, property } => {
            let chain = match read_chain(value, class_in(context)) {
                Some(chain) => chain,
                None => {
                    return;
                },
            };
            match unwrap_value(&**object) {
                Node::Ident(receiver) => {
                    let fact = MemberAssignment { target: bind(receiver), field: property.clone(), value: chain };
                    facts.member_assignments.push(fact);
                    assert(facts.member_assignments.deep_view() =~= before.member_assignments.push(fact.deep_view()));
                },
                Node::This => match context {
                    Some(context) => {
                        let position = match &chain.root {
                            Root::Binding { id } => find_param(&context.params, id),
                            Root::This { .. } => None,
                        };
                        match position {
                            Some(position) => match read_path(&chain.steps) {
                                Some(path) => push_param_field(
                                    facts,
                                    context.index,
                                    ParamField { field: property.clone(), position, path },
                                ),
                                None => {},
                            },
                            None => push_instance_field(facts, context.index, property.as_str(), chain),
                        }
                    },
                    None => {},
                },
                _ => {},
            }
        },
        _ => {},
    }
}

/// An argument of a construction. A spread shifts what follows it, so it can
/// not be told.
pub open spec fn argument_of(node: Node, class: Option<usize>) -> ArgumentModel {
    match node {
        Node::Spread(_) => ArgumentModel::Opaque,
        _ => match plain(node) {
            Node::Object(props) => ArgumentModel::Record { properties: object_chains(props@, class) },
            _ => match chain_of(node, class) {
                Some(chain) => ArgumentModel::Value { chain },
                None => ArgumentModel::Opaque,
            },
        },
    }
}

fn read_argument(node: &Node, class: Option<usize>) -> (r: Argument)
    ensures
        r.deep_view() == argument_of(*node, class),
{
    match node {
        Node::Spread(_) => Argument::Opaque,
        _ => match unwrap_value(node) {
            Node::Object(props) => {
                let mut properties: Vec<NamedChain> = Vec::new();
                read_object(&mut properties, props, class);
                assert(Seq::<NamedChainModel>::empty() + object_chains(props@, class) =~= object_chains(props@, class));
                assert(properties.deep_view() =~= object_chains(props@, class));
                Argument::Record { properties }
            },
            _ => match read_chain(node, class) {
                Some(chain) => Argument::Value { chain },
                None => Argument::Opaque,
            },
        },
    }
}

pub open spec fn arguments_of(args: Seq<Node>, class: Option<usize>) -> Seq<ArgumentModel> {
    args.map_values(|arg: Node| argument_of(arg, class))
}

/// The facts with a construction of a class by name.
pub open spec fn with_construction(facts: FileFactsModel, callee: Node, args: Seq<Node>, class: Option<usize>) -> FileFactsModel {
    match plain(callee) {
        Node::Ident(name) => FileFactsModel {
            constructions: facts.constructions.push(
                ConstructionFactModel { class_binding: binding_of(name), arguments: arguments_of(args, class) },
            ),
            ..facts
        },
        _ => facts,
    }
}

fn collect_construction(facts: &mut FileFacts, callee: &Node, args: &Vec<Node>, class: Option<usize>)
    ensures
        final(facts).deep_view() == with_construction(old(facts).deep_view(), *callee, args@, class),
        final(facts).classes == old(facts).classes,
{
    let ghost before = facts.deep_view();
    match unwrap_value(callee) {
        Node::Ident(name) => {
            let ghost all = arguments_of(args@, class);
            let mut arguments: Vec<Argument> = Vec::new();
            let mut i: usize = 0;
            assert(arguments.deep_view() =~= all.take(0));
            while i < args.len()
                invariant
                    i <= args.len(),
                    all == arguments_of(args@, class),
                    arguments.deep_view() == all.take(i as int),
                decreases args.len() - i,
            {
                let ghost so_far = arguments.deep_view();
                let argument = read_argument(&args[i], class);
                arguments.push(argument);
                assert(arguments.deep_view() =~= so_far.push(argument.deep_view()));
                assert(all[i as int] == argument.deep_view());
                assert(all.take(i + 1) =~= all.take(i as int).push(all[i as int]));
                i += 1;
            }
            assert(all.take(all.len() as int) =~= all);
            let fact = ConstructionFact { class_binding: bind(name), arguments };
            facts.constructions.push(fact);
            assert(facts.constructions.deep_view() =~= before.constructions.push(fact.deep_view()));
        },
        _ => {},
    }
}

/// The facts with a call, where what is called has a name.
pub open spec fn with_call(facts: FileFactsModel, line: u32, callee: Node, class: Option<usize>) -> FileFactsModel {
    match chain_of(callee, class) {
        Some(callee) => FileFactsModel {
            call_sites: facts.call_sites.push(CallSiteModel { line: line as usize, callee }),
            ..facts
        },
        None => facts,
    }
}

fn record_call_site(facts: &mut FileFacts, line: u32, callee: &Node, class: Option<usize>)
    ensures
        final(facts).deep_view() == with_call(old(facts).deep_view(), line, *callee, class),
        final(facts).classes == old(facts).classes,
{
    let ghost before = facts.deep_view();
    match read_chain(callee, class) {
        Some(chain) => {
            let site = CallSite { line: line as usize, callee: chain };
            facts.call_sites.push(site);
            assert(facts.call_sites.deep_view() =~= before.call_sites.push(site.deep_view()));
        },
        None => {},
    }
}

// ---------------------------------------------------------------------------
// Declarations
// ---------------------------------------------------------------------------

/// What a dynamic import names.
pub open spec fn dynamic_target(args: Seq<Node>, targets: Map<Seq<char>, TargetModel>) -> Option<TargetModel> {
    match literal_of_first(args) {
        Some(specifier) => target_of(targets, specifier),
        None => None,
    }
}

fn read_dynamic_target<'a>(args: &Vec<Node>, targets: &'a TargetMap) -> (r: Option<&'a Target>)
    ensures
        model_of(r) == dynamic_target(args@, targets.deep_view()),
{
    if args.len() == 0 {
        return None;
    }
    match &args[0] {
        Node::Text(specifier) => find_target(targets, specifier.as_str()),
        Node::Spread(value) => match &**value {
            Node::Text(specifier) => find_target(targets, specifier.as_str()),
            _ => None,
        },
        _ => None,
    }
}

/// The properties that an object pattern reads and the bindings that they land
/// in.
pub open spec fn destructured(props: Seq<PatternProp>) -> Seq<(Seq<char>, BindingIdModel)>
    decreases props.len(),
{
    if props.len() == 0 {
        Seq::empty()
    } else {
        let before = destructured(props.drop_last());
        match props.last() {
            PatternProp::Assign(name) => before.push((name.symbol@, binding_of(name))),
            PatternProp::KeyValue { key, local } => match (key_name(key), local) {
                (Some(name), Some(local)) => before.push((name, binding_of(local))),
                _ => before,
            },
            PatternProp::Rest => before,
        }
    }
}

fn read_destructured(props: &Vec<PatternProp>) -> (r: Vec<(String, BindingId)>)
    ensures
        r.deep_view() == destructured(props@),
{
    let mut r: Vec<(String, BindingId)> = Vec::new();
    let mut i: usize = 0;
    assert(r.deep_view() =~= destructured(props@.take(0)));
    while i < props.len()
        invariant
            i <= props.len(),
            r.deep_view() == destructured(props@.take(i as int)),
        decreases props.len() - i,
    {
        let ghost before = r.deep_view();
        assert(props@.take(i + 1).drop_last() =~= props@.take(i as int));
        assert(props@.take(i + 1).last() == props@[i as int]);
        match &props[i] {
            PatternProp::Assign(name) => {
                let entry = (name.symbol.clone(), bind(name));
                r.push(entry);
                assert(r.deep_view() =~= before.push(entry.deep_view()));
            },
            PatternProp::KeyValue { key, local } => match property_name(key) {
                Some(name) => match local {
                    Some(local) => {
                        let entry = (name, bind(local));
                        r.push(entry);
                        assert(r.deep_view() =~= before.push(entry.deep_view()));
                    },
                    None => {},
                },
                None => {},
            },
            PatternProp::Rest => {},
        }
        i += 1;
    }
    assert(props@.take(props@.len() as int) =~= props@);
    r
}

pub open spec fn with_bound_import(facts: FileFactsModel, local: BindingIdModel, source: SourceModel) -> FileFactsModel {
    FileFactsModel { imports: facts.imports.push(ImportFactModel { local, source }), ..facts }
}

fn push_import(facts: &mut FileFacts, local: BindingId, source: Source)
    ensures
        final(facts).deep_view() == with_bound_import(old(facts).deep_view(), local.deep_view(), source.deep_view()),
        final(facts).classes == old(facts).classes,
{
    let ghost before = facts.deep_view();
    let fact = ImportFact { local, source };
    facts.imports.push(fact);
    assert(facts.imports.deep_view() =~= before.imports.push(fact.deep_view()));
}

pub open spec fn with_bound_imports(
    facts: FileFactsModel,
    target: TargetModel,
    bound: Seq<(Seq<char>, BindingIdModel)>,
) -> FileFactsModel
    decreases bound.len(),
{
    if bound.len() == 0 {
        facts
    } else {
        with_bound_import(
            with_bound_imports(facts, target, bound.drop_last()),
            bound.last().1,
            source_of(target, Some(bound.last().0)),
        )
    }
}

/// The facts with what a declaration binds of a dynamically imported module: the
/// module, or exports of it.
pub open spec fn with_dynamic_binding(facts: FileFactsModel, pattern: Pattern, target: TargetModel) -> FileFactsModel {
    match pattern {
        Pattern::Name(name) => with_bound_import(facts, binding_of(name), source_of(target, None)),
        Pattern::Object { props, .. } => with_bound_imports(facts, target, destructured(props@)),
        Pattern::Other(_) => facts,
    }
}

fn collect_dynamic_binding(facts: &mut FileFacts, pattern: &Pattern, target: &Target)
    ensures
        final(facts).deep_view() == with_dynamic_binding(old(facts).deep_view(), *pattern, target.deep_view()),
        final(facts).classes == old(facts).classes,
{
    match pattern {
        Pattern::Name(name) => push_import(facts, bind(name), name_source(target, None)),
        Pattern::Object { props, .. } => {
            let bound = read_destructured(props);
            let ghost all = bound.deep_view();
            let ghost first = facts.deep_view();
            let mut i: usize = 0;
            while i < bound.len()
                invariant
                    i <= bound.len(),
                    all == bound.deep_view(),
                    facts.classes == old(facts).classes,
                    facts.deep_view() == with_bound_imports(first, target.deep_view(), all.take(i as int)),
                decreases bound.len() - i,
            {
                assert(all.take(i + 1).drop_last() =~= all.take(i as int));
                assert(all.take(i + 1).last() == bound@[i as int].deep_view());
                push_import(facts, bound[i].1.duplicate(), name_source(target, Some(bound[i].0.clone())));
                i += 1;
            }
            assert(all.take(all.len() as int) =~= all);
        },
        Pattern::Other(_) => {},
    }
}

pub open spec fn with_destructured(
    facts: FileFactsModel,
    chain: ChainModel,
    bound: Seq<(Seq<char>, BindingIdModel)>,
) -> FileFactsModel
    decreases bound.len(),
{
    if bound.len() == 0 {
        facts
    } else {
        with_alias(
            with_destructured(facts, chain, bound.drop_last()),
            bound.last().1,
            extended(chain, StepModel::Prop { name: bound.last().0 }),
        )
    }
}

fn collect_destructured(facts: &mut FileFacts, chain: &Chain, props: &Vec<PatternProp>)
    ensures
        final(facts).deep_view() == with_destructured(old(facts).deep_view(), chain.deep_view(), destructured(props@)),
        final(facts).classes == old(facts).classes,
{
    let bound = read_destructured(props);
    let ghost all = bound.deep_view();
    let ghost first = facts.deep_view();
    let mut i: usize = 0;
    while i < bound.len()
        invariant
            i <= bound.len(),
            all == bound.deep_view(),
            first == old(facts).deep_view(),
            facts.classes == old(facts).classes,
            facts.deep_view() == with_destructured(first, chain.deep_view(), all.take(i as int)),
        decreases bound.len() - i,
    {
        assert(all.take(i + 1).drop_last() =~= all.take(i as int));
        assert(all.take(i + 1).last() == bound@[i as int].deep_view());
        let value = chain.duplicate().extended(Step::Prop { name: bound[i].0.clone() });
        push_alias(facts, bound[i].1.duplicate(), value);
        i += 1;
    }
    assert(all.take(all.len() as int) =~= all);
}

/// The target of an initialiser that is a dynamic import.
pub open spec fn imported_module(init: Node, targets: Map<Seq<char>, TargetModel>) -> Option<TargetModel> {
    match plain(init) {
        Node::ImportCall { args } => dynamic_target(args@, targets),
        _ => None,
    }
}

/// The facts with what a declaration of a value binds, unless it binds a class.
pub open spec fn with_declaration(
    facts: FileFactsModel,
    pattern: Pattern,
    init: Node,
    context: Option<ClassContextModel>,
    targets: Map<Seq<char>, TargetModel>,
) -> FileFactsModel {
    let class = class_of(context);
    match imported_module(init, targets) {
        Some(target) => with_dynamic_binding(with_edge(facts, target), pattern, target),
        None => match pattern {
            Pattern::Name(name) => {
                let local = binding_of(name);
                let bound = with_bound_function(facts, local, plain(init), class);
                match chain_of(init, class) {
                    Some(chain) => with_alias(bound, local, chain),
                    None => bound,
                }
            },
            Pattern::Object { props, .. } => match chain_of(init, class) {
                Some(chain) => with_destructured(facts, chain, destructured(props@)),
                None => facts,
            },
            Pattern::Other(_) => facts,
        },
    }
}

fn collect_declaration(
    facts: &mut FileFacts,
    pattern: &Pattern,
    init: &Node,
    context: Option<&ClassContext>,
    targets: &TargetMap,
)
    ensures
        final(facts).deep_view() == with_declaration(
            old(facts).deep_view(),
            *pattern,
            *init,
            context_model(context),
            targets.deep_view(),
        ),
        final(facts).classes == old(facts).classes,
{
    let class = class_in(context);
    let inner = unwrap_value(init);
    let module = match inner {
        Node::ImportCall { args } => read_dynamic_target(args, targets),
        _ => None,
    };
    match module {
        Some(target) => {
            push_edge(facts, target);
            collect_dynamic_binding(facts, pattern, target);
        },
        None => match pattern {
            Pattern::Name(name) => {
                let local = bind(name);
                collect_bound_function(facts, &local, inner, class);
                match read_chain(init, class) {
                    Some(chain) => push_alias(facts, local, chain),
                    None => {},
                }
            },
            Pattern::Object { props, .. } => match read_chain(init, class) {
                Some(chain) => collect_destructured(facts, &chain, props),
                None => {},
            },
            Pattern::Other(_) => {},
        },
    }
}

// ---------------------------------------------------------------------------
// The walk
// ---------------------------------------------------------------------------

/// The class that a class expression or declaration is.
pub open spec fn class_in_node(node: Node) -> Option<Class> {
    match node {
        Node::Class { class, .. } => Some(class),
        Node::ClassDecl { class, .. } => Some(class),
        _ => None,
    }
}

/// The facts with what a node says where it stands, before what stands in it.
pub open spec fn with_node(
    facts: FileFactsModel,
    node: Node,
    context: Option<ClassContextModel>,
    targets: Map<Seq<char>, TargetModel>,
) -> FileFactsModel {
    let class = class_of(context);
    match node {
        Node::Declarator { pattern, init: Some(init) } => with_declaration(facts, pattern, *init, context, targets),
        Node::FnDecl { name, function } => with_function(
            facts,
            binding_of(name),
            body_shape(function.body, class),
            annotation_package(facts.type_names, function.return_type),
        ),
        Node::Assign { target, value } => with_assignment(facts, *target, *value, context),
        Node::New { callee, args } => with_construction(facts, *callee, args@, class),
        Node::Call { line, callee, .. } => with_call(facts, line, *callee, class),
        Node::OptCall { line, callee, .. } => with_call(facts, line, *callee, class),
        Node::ImportCall { args } => match dynamic_target(args@, targets) {
            Some(target) => with_edge(facts, target),
            None => facts,
        },
        _ => facts,
    }
}

fn collect_node(facts: &mut FileFacts, node: &Node, context: Option<&ClassContext>, targets: &TargetMap)
    requires
        context matches Some(c) ==> c.index < old(facts).classes@.len(),
    ensures
        final(facts).deep_view() == with_node(old(facts).deep_view(), *node, context_model(context), targets.deep_view()),
        final(facts).classes@.len() == old(facts).classes@.len(),
{
    match node {
        Node::Declarator { pattern, init: Some(init) } => collect_declaration(facts, pattern, &**init, context, targets),
        Node::FnDecl { name, function } => collect_function(facts, bind(name), function, class_in(context)),
        Node::Assign { target, value } => collect_assignment(facts, &**target, &**value, context),
        Node::New { callee, args } => collect_construction(facts, &**callee, args, class_in(context)),
        Node::Call { line, callee, .. } => record_call_site(facts, *line, &**callee, class_in(context)),
        Node::OptCall { line, callee, .. } => record_call_site(facts, *line, &**callee, class_in(context)),
        Node::ImportCall { args } => match read_dynamic_target(args, targets) {
            Some(target) => push_edge(facts, target),
            None => {},
        },
        _ => {},
    }
}

/// The class that a declaration binds a name to, and that name. The class of a
/// declaration that binds anything else is not read.
pub open spec fn declared_class(node: Node) -> Option<(Node, Option<BindingIdModel>)> {
    match node {
        Node::Declarator { pattern, init: Some(init) } => if plain(*init) is Class {
            match pattern {
                Pattern::Name(name) => Some((plain(*init), Some(binding_of(name)))),
                _ => Some((plain(*init), None)),
            }
        } else {
            None
        },
        _ => None,
    }
}

pub open spec fn binds_name(node: Node) -> bool {
    node matches Node::Declarator { pattern: Pattern::Name(_), .. }
}

pub open spec fn own_name(node: Node) -> Option<BindingIdModel> {
    match node {
        Node::Class { name: Some(name), .. } => Some(binding_of(name)),
        Node::ClassDecl { name, .. } => Some(binding_of(name)),
        _ => None,
    }
}

/// The facts with a node and all that stands in it. A class is read on its own:
/// under the name that a declaration gives it, or under its own.
pub open spec fn gathered(
    facts: FileFactsModel,
    node: Node,
    context: Option<ClassContextModel>,
    targets: Map<Seq<char>, TargetModel>,
) -> FileFactsModel
    decreases node, children(node).len() + 2,
{
    if class_in_node(node) is Some {
        gathered_class(facts, node, own_name(node), targets)
    } else if declared_class(node) is Some {
        proof {
            plain_is_within(*(node->Declarator_init->0));
        }
        if binds_name(node) {
            gathered_class(facts, (declared_class(node)->0).0, (declared_class(node)->0).1, targets)
        } else {
            facts
        }
    } else {
        gathered_first(with_node(facts, node, context, targets), node, children(node).len(), context, targets)
    }
}

/// The facts with the first nodes that stand in a node.
pub open spec fn gathered_first(
    facts: FileFactsModel,
    node: Node,
    n: nat,
    context: Option<ClassContextModel>,
    targets: Map<Seq<char>, TargetModel>,
) -> FileFactsModel
    decreases node, n,
{
    if n == 0 || n > children(node).len() {
        facts
    } else {
        proof {
            children_are_smaller(node);
        }
        gathered(gathered_first(facts, node, (n - 1) as nat, context, targets), children(node)[n - 1], context, targets)
    }
}

/// The facts with a class: first its members, then what stands in it.
pub open spec fn gathered_class(
    facts: FileFactsModel,
    node: Node,
    binding: Option<BindingIdModel>,
    targets: Map<Seq<char>, TargetModel>,
) -> FileFactsModel
    decreases node, children(node).len() + 1,
{
    match class_in_node(node) {
        Some(class) => {
            let index = facts.classes.len() as usize;
            let begun = FileFactsModel { classes: facts.classes.push(no_class(binding)), ..facts };
            let context = ClassContextModel { index, params: constructor_params(class.members@) };
            gathered_first(
                with_members(begun, index, class.members@),
                node,
                children(node).len(),
                Some(context),
                targets,
            )
        },
        None => facts,
    }
}

fn gather_class(facts: &mut FileFacts, node: &Node, class: &Class, binding: Option<BindingId>, targets: &TargetMap)
    requires
        class_in_node(*node) == Some(*class),
    ensures
        final(facts).deep_view() == gathered_class(old(facts).deep_view(), *node, binding.deep_view(), targets.deep_view()),
        final(facts).classes@.len() >= old(facts).classes@.len(),
    decreases *node, 1int,
{
    let ghost before = facts.deep_view();
    let index: usize = facts.classes.len();
    assert(before.classes.len() == index);
    let fact = ClassFact {
        binding,
        instance_fields: Vec::new(),
        annotation_fields: Vec::new(),
        static_fields: Vec::new(),
        static_functions: Vec::new(),
        ctor_param_fields: Vec::new(),
    };
    proof {
        let m = fact.deep_view();
        let n = no_class(fact.binding.deep_view());
        assert(m.instance_fields =~= n.instance_fields);
        assert(m.annotation_fields =~= n.annotation_fields);
        assert(m.static_fields =~= n.static_fields);
        assert(m.static_functions =~= n.static_functions);
        assert(m.ctor_param_fields =~= n.ctor_param_fields);
    }
    facts.classes.push(fact);
    assert(facts.classes.deep_view() =~= before.classes.push(fact.deep_view()));
    let context = ClassContext { index, params: read_params(&class.members) };
    collect_members(facts, index, &class.members);
    let ghost first = facts.deep_view();
    let kids = children_of(node);
    let mut i: usize = 0;
    while i < kids.len()
        invariant
            i <= kids.len(),
            refer_to(kids@, children(*node)),
            index < facts.classes@.len(),
            index == context.index,
            facts.deep_view() == gathered_first(
                first,
                *node,
                i as nat,
                Some(context.deep_view()),
                targets.deep_view(),
            ),
        decreases kids.len() - i,
    {
        proof {
            children_are_smaller(*node);
        }
        gather(facts, kids[i], Some(&context), targets);
        i += 1;
    }
}

fn gather(facts: &mut FileFacts, node: &Node, context: Option<&ClassContext>, targets: &TargetMap)
    requires
        context matches Some(c) ==> c.index < old(facts).classes@.len(),
    ensures
        final(facts).deep_view() == gathered(old(facts).deep_view(), *node, context_model(context), targets.deep_view()),
        final(facts).classes@.len() >= old(facts).classes@.len(),
    decreases *node, 2int,
{
    match node {
        Node::Class { name, class } => {
            let binding = match name {
                Some(name) => Some(bind(name)),
                None => None,
            };
            gather_class(facts, node, class, binding, targets);
            return;
        },
        Node::ClassDecl { name, class } => {
            gather_class(facts, node, class, Some(bind(name)), targets);
            return;
        },
        Node::Declarator { pattern, init: Some(init) } => {
            proof {
                plain_is_within(**init);
            }
            let inner = unwrap_value(&**init);
            match inner {
                Node::Class { class, .. } => {
                    match pattern {
                        Pattern::Name(name) => gather_class(facts, inner, class, Some(bind(name)), targets),
                        _ => {},
                    }
                    return;
                },
                _ => {},
            }
        },
        _ => {},
    }
    collect_node(facts, node, context, targets);
    let ghost first = facts.deep_view();
    let kids = children_of(node);
    let mut i: usize = 0;
    while i < kids.len()
        invariant
            i <= kids.len(),
            refer_to(kids@, children(*node)),
            context matches Some(c) ==> c.index < facts.classes@.len(),
            facts.classes@.len() >= old(facts).classes@.len(),
            facts.deep_view() == gathered_first(first, *node, i as nat, context_model(context), targets.deep_view()),
        decreases kids.len() - i,
    {
        proof {
            children_are_smaller(*node);
        }
        gather(facts, kids[i], context, targets);
        i += 1;
    }
}

pub open spec fn with_items(facts: FileFactsModel, items: Seq<ModuleItem>, targets: Map<Seq<char>, TargetModel>) -> FileFactsModel
    decreases items.len(),
{
    if items.len() == 0 {
        facts
    } else {
        with_item(with_items(facts, items.drop_last(), targets), items.last(), targets)
    }
}

pub open spec fn item_gathered(facts: FileFactsModel, item: ModuleItem, targets: Map<Seq<char>, TargetModel>) -> FileFactsModel {
    match item {
        ModuleItem::ExportDecl(node) => gathered(facts, node, None, targets),
        ModuleItem::ExportDefault { decl, .. } => gathered(facts, decl, None, targets),
        ModuleItem::ExportDefaultExpr(node) => gathered(facts, node, None, targets),
        ModuleItem::Statement(node) => gathered(facts, node, None, targets),
        _ => facts,
    }
}

pub open spec fn items_gathered(facts: FileFactsModel, items: Seq<ModuleItem>, targets: Map<Seq<char>, TargetModel>) -> FileFactsModel
    decreases items.len(),
{
    if items.len() == 0 {
        facts
    } else {
        item_gathered(items_gathered(facts, items.drop_last(), targets), items.last(), targets)
    }
}

/// What a module says: first what it imports and exports, then what stands in
/// it.
pub open spec fn facts_of(module: Module, targets: Map<Seq<char>, TargetModel>) -> FileFactsModel {
    items_gathered(with_items(no_facts(), module.items@, targets), module.items@, targets)
}

/// Reads the facts off a module, given what its import specifiers name.
pub fn collect_facts(module: &Module, targets: &TargetMap) -> (r: FileFacts)
    ensures
        r.deep_view() == facts_of(*module, targets.deep_view()),
{
    let ghost items = module.items@;
    let mut facts = FileFacts::default();
    let mut i: usize = 0;
    while i < module.items.len()
        invariant
            i <= module.items.len(),
            items == module.items@,
            facts.deep_view() == with_items(no_facts(), items.take(i as int), targets.deep_view()),
        decreases module.items.len() - i,
    {
        assert(items.take(i + 1).drop_last() =~= items.take(i as int));
        assert(items.take(i + 1).last() == items[i as int]);
        collect_item(&mut facts, &module.items[i], targets);
        i += 1;
    }
    assert(items.take(items.len() as int) =~= items);
    let ghost first = facts.deep_view();
    let mut k: usize = 0;
    while k < module.items.len()
        invariant
            k <= module.items.len(),
            items == module.items@,
            facts.deep_view() == items_gathered(first, items.take(k as int), targets.deep_view()),
        decreases module.items.len() - k,
    {
        assert(items.take(k + 1).drop_last() =~= items.take(k as int));
        assert(items.take(k + 1).last() == items[k as int]);
        match &module.items[k] {
            ModuleItem::ExportDecl(node) => gather(&mut facts, node, None, targets),
            ModuleItem::ExportDefault { decl, .. } => gather(&mut facts, decl, None, targets),
            ModuleItem::ExportDefaultExpr(node) => gather(&mut facts, node, None, targets),
            ModuleItem::Statement(node) => gather(&mut facts, node, None, targets),
            _ => {},
        }
        k += 1;
    }
    facts
}

/// What a source text says under its file's name. One that can not be parsed
/// says nothing.
pub fn collect_source(name: &str, source: &str, targets: &TargetMap) -> (r: FileFacts)
    requires
        has_positions(source@),
    ensures
        exists|module: Option<Module>| #[trigger]
            syntax_is(name@, source@, module) && r.deep_view() == (match module {
                Some(module) => facts_of(module, targets.deep_view()),
                None => no_facts(),
            }),
{
    let module = parse_source(name, source);
    assert(syntax_is(name@, source@, module));
    match &module {
        Some(module) => collect_facts(module, targets),
        None => FileFacts::default(),
    }
}

} // verus!
