//! The syntax of a source file, as far as the passes over it read it.
//!
//! A [`Node`] is an expression, a statement or a part of one. Kinds that no pass
//! asks about are [`Node::Other`], with what stands in them. The nodes within a
//! node are its [`children`], in the order of the source.

use vstd::prelude::*;

verus! {

/// An identifier, with the scope in which the name means what it means here.
#[derive(Debug, Clone, PartialEq, Eq)]
pub struct Ident {
    pub symbol: String,
    pub context: u32,
}

/// The key of a property.
#[derive(Debug, Clone, PartialEq, Eq)]
pub enum PropKey {
    Ident(String),
    Text(String),
    /// A number, or a key that is computed.
    Other,
}

/// Operators that pick one of their operands, and all others.
#[derive(Debug, Clone, Copy, PartialEq, Eq, Structural)]
pub enum BinaryOp {
    NullishCoalescing,
    LogicalOr,
    Other,
}

/// What stands around an expression without being one of its operators.
#[derive(Debug, Clone, Copy, PartialEq, Eq, Structural)]
pub enum Wrapper {
    Paren,
    As,
    ConstAssertion,
    Satisfies,
    NonNull,
    Await,
}

#[derive(Debug, Clone, Copy, PartialEq, Eq, Structural)]
pub enum MethodKind {
    Method,
    Getter,
    Setter,
}

/// A declared type.
#[derive(Debug, Clone, PartialEq, Eq)]
pub enum TypeAnnotation {
    /// A bare type name, split at its dots.
    Reference(Vec<String>),
    Other,
}

/// A property of an object pattern.
#[derive(Debug, Clone, PartialEq, Eq)]
pub enum PatternProp {
    /// A property bound under its own name.
    Assign(Ident),
    /// A property bound under another pattern, which may be a name.
    KeyValue { key: PropKey, local: Option<Ident> },
    Rest,
}

/// What a declaration binds. The nodes within are defaults and computed keys.
#[derive(Debug, PartialEq, Eq)]
pub enum Pattern {
    Name(Ident),
    Object { props: Vec<PatternProp>, inner: Vec<Node> },
    Other(Vec<Node>),
}

/// A function, without its name. The nodes within stand in its parameters and
/// decorators.
#[derive(Debug, PartialEq, Eq)]
pub struct Function {
    pub inner: Vec<Node>,
    pub body: Option<Vec<Node>>,
    pub return_type: Option<TypeAnnotation>,
}

/// A class, without its name.
#[derive(Debug, PartialEq, Eq)]
pub struct Class {
    pub decorators: Vec<Node>,
    pub members: Vec<Node>,
    pub extends: Vec<Node>,
}

#[derive(Debug, PartialEq, Eq)]
pub enum Node {
    Ident(Ident),
    This,
    /// A string literal.
    Text(String),
    Member { object: Box<Node>, property: String },
    Index { object: Box<Node>, index: Box<Node> },
    PrivateMember { object: Box<Node> },
    /// A member of an optional chain.
    OptMember { object: Box<Node>, property: String },
    Call { line: u32, callee: Box<Node>, args: Vec<Node> },
    /// A call in an optional chain.
    OptCall { line: u32, callee: Box<Node>, args: Vec<Node> },
    /// A dynamic import.
    ImportCall { args: Vec<Node> },
    New { callee: Box<Node>, args: Vec<Node> },
    /// A spread argument or property.
    Spread(Box<Node>),
    /// An object literal, property by property.
    Object(Vec<Node>),
    KeyValue { key: PropKey, inner: Vec<Node>, value: Box<Node> },
    Shorthand(Ident),
    Binary { op: BinaryOp, left: Box<Node>, right: Box<Node> },
    Cond { test: Box<Node>, consequent: Box<Node>, alternate: Box<Node> },
    Wrapped { wrapper: Wrapper, inner: Box<Node> },
    Assign { target: Box<Node>, value: Box<Node> },
    /// A function expression, or the function of a method in an object literal.
    Function(Function),
    /// An arrow function with a block.
    Arrow(Function),
    /// An arrow function with an expression for a body.
    ArrowValue { inner: Vec<Node>, value: Box<Node>, return_type: Option<TypeAnnotation> },
    /// A class expression.
    Class { name: Option<Ident>, class: Class },
    VarDecl(Vec<Node>),
    Declarator { pattern: Pattern, init: Option<Box<Node>> },
    FnDecl { name: Ident, function: Function },
    ClassDecl { name: Ident, class: Class },
    ClassProp {
        key: PropKey,
        inner: Vec<Node>,
        value: Option<Box<Node>>,
        decorators: Vec<Node>,
        is_static: bool,
        declared: Option<TypeAnnotation>,
    },
    Method { key: PropKey, inner: Vec<Node>, function: Function, kind: MethodKind, is_static: bool },
    /// A constructor. Its parameters are those that are plain names, by position.
    Constructor { params: Vec<Option<Ident>>, inner: Vec<Node> },
    Return(Option<Box<Node>>),
    Other(Vec<Node>),
}

#[derive(Debug, PartialEq, Eq)]
pub enum ImportSpecifier {
    Named { local: Ident, imported: Option<String>, type_only: bool },
    Default { local: Ident },
    Namespace { local: Ident },
}

/// A name on the inner side of an export.
#[derive(Debug, PartialEq, Eq)]
pub enum ExportName {
    Ident(Ident),
    Text(String),
}

#[derive(Debug, PartialEq, Eq)]
pub enum ExportSpecifier {
    Named { original: ExportName, exported: Option<String>, type_only: bool },
    Namespace { name: ExportName },
    Default,
}

/// An item at the top level of a module.
#[derive(Debug, PartialEq, Eq)]
pub enum ModuleItem {
    Import { source: String, type_only: bool, specifiers: Vec<ImportSpecifier> },
    ExportNamed { source: Option<String>, type_only: bool, specifiers: Vec<ExportSpecifier> },
    ExportAll { source: String, type_only: bool },
    /// A declaration that is exported under its own name.
    ExportDecl(Node),
    /// A function or class that is exported as the default, with its name where
    /// it has one.
    ExportDefault { name: Option<Ident>, decl: Node },
    ExportDefaultExpr(Node),
    Statement(Node),
}

#[derive(Debug, PartialEq, Eq)]
pub struct Module {
    pub items: Vec<ModuleItem>,
}

// ---------------------------------------------------------------------------
// Walking
// ---------------------------------------------------------------------------

pub open spec fn one(node: Node) -> Seq<Node> {
    seq![node]
}

pub open spec fn at_most_one(node: Option<Box<Node>>) -> Seq<Node> {
    match node {
        Some(node) => seq![*node],
        None => Seq::empty(),
    }
}

pub open spec fn function_parts(function: Function) -> Seq<Node> {
    function.inner@ + match function.body {
        Some(body) => body@,
        None => Seq::empty(),
    }
}

pub open spec fn class_parts(class: Class) -> Seq<Node> {
    class.decorators@ + class.members@ + class.extends@
}

pub open spec fn pattern_parts(pattern: Pattern) -> Seq<Node> {
    match pattern {
        Pattern::Name(_) => Seq::empty(),
        Pattern::Object { inner, .. } => inner@,
        Pattern::Other(inner) => inner@,
    }
}

/// The nodes that stand directly in a node, in the order of the source.
pub open spec fn children(node: Node) -> Seq<Node> {
    match node {
        Node::Ident(_) | Node::This | Node::Text(_) | Node::Shorthand(_) => Seq::empty(),
        Node::Member { object, .. } => one(*object),
        Node::Index { object, index } => one(*object) + one(*index),
        Node::PrivateMember { object } => one(*object),
        Node::OptMember { object, .. } => one(*object),
        Node::Call { callee, args, .. } => one(*callee) + args@,
        Node::OptCall { callee, args, .. } => one(*callee) + args@,
        Node::ImportCall { args } => args@,
        Node::New { callee, args } => one(*callee) + args@,
        Node::Spread(value) => one(*value),
        Node::Object(props) => props@,
        Node::KeyValue { inner, value, .. } => inner@ + one(*value),
        Node::Binary { left, right, .. } => one(*left) + one(*right),
        Node::Cond { test, consequent, alternate } => one(*test) + one(*consequent) + one(*alternate),
        Node::Wrapped { inner, .. } => one(*inner),
        Node::Assign { target, value } => one(*target) + one(*value),
        Node::Function(function) => function_parts(function),
        Node::Arrow(function) => function_parts(function),
        Node::ArrowValue { inner, value, .. } => inner@ + one(*value),
        Node::Class { class, .. } => class_parts(class),
        Node::VarDecl(declarators) => declarators@,
        Node::Declarator { pattern, init } => pattern_parts(pattern) + at_most_one(init),
        Node::FnDecl { function, .. } => function_parts(function),
        Node::ClassDecl { class, .. } => class_parts(class),
        Node::ClassProp { inner, value, decorators, .. } => inner@ + at_most_one(value) + decorators@,
        Node::Method { inner, function, .. } => inner@ + function_parts(function),
        Node::Constructor { inner, .. } => inner@,
        Node::Return(value) => at_most_one(value),
        Node::Other(inner) => inner@,
    }
}

/// A child stands deeper than the node that it stands in.
pub proof fn children_are_smaller(node: Node)
    ensures
        forall|i: int| 0 <= i < children(node).len() ==> decreases_to!(node => #[trigger] children(node)[i]),
{
}

/// Every node of a list stands at the other list's place.
pub open spec fn refer_to(refs: Seq<&Node>, nodes: Seq<Node>) -> bool {
    refs.len() == nodes.len() && forall|i: int| 0 <= i < nodes.len() ==> *(#[trigger] refs[i]) == nodes[i]
}

fn push_all<'a>(list: &mut Vec<&'a Node>, nodes: &'a Vec<Node>, Ghost(before): Ghost<Seq<Node>>)
    requires
        refer_to(old(list)@, before),
    ensures
        refer_to(final(list)@, before + nodes@),
{
    let mut i: usize = 0;
    assert(before + nodes@.take(0) =~= before);
    while i < nodes.len()
        invariant
            i <= nodes.len(),
            refer_to(list@, before + nodes@.take(i as int)),
        decreases nodes.len() - i,
    {
        list.push(&nodes[i]);
        assert(before + nodes@.take(i + 1) =~= (before + nodes@.take(i as int)).push(nodes@[i as int]));
        i += 1;
    }
    assert(nodes@.take(nodes@.len() as int) =~= nodes@);
}

fn push_function<'a>(list: &mut Vec<&'a Node>, function: &'a Function, Ghost(before): Ghost<Seq<Node>>)
    requires
        refer_to(old(list)@, before),
    ensures
        refer_to(final(list)@, before + function_parts(*function)),
{
    push_all(list, &function.inner, Ghost(before));
    match &function.body {
        Some(body) => push_all(list, body, Ghost(before + function.inner@)),
        None => {},
    }
    assert(before + function_parts(*function) =~= before + function.inner@ + match function.body {
        Some(body) => body@,
        None => Seq::empty(),
    });
}

fn push_class<'a>(list: &mut Vec<&'a Node>, class: &'a Class)
    requires
        old(list)@.len() == 0,
    ensures
        refer_to(final(list)@, class_parts(*class)),
{
    push_all(list, &class.decorators, Ghost(Seq::empty()));
    push_all(list, &class.members, Ghost(Seq::<Node>::empty() + class.decorators@));
    push_all(list, &class.extends, Ghost(Seq::<Node>::empty() + class.decorators@ + class.members@));
    assert(Seq::<Node>::empty() + class.decorators@ + class.members@ + class.extends@ =~= class_parts(*class));
}

fn push_optional<'a>(list: &mut Vec<&'a Node>, node: &'a Option<Box<Node>>, Ghost(before): Ghost<Seq<Node>>)
    requires
        refer_to(old(list)@, before),
    ensures
        refer_to(final(list)@, before + at_most_one(*node)),
{
    match node {
        Some(node) => {
            list.push(&**node);
            assert(before + at_most_one(Some(*node)) =~= before.push(**node));
        },
        None => {
            assert(before + Seq::<Node>::empty() =~= before);
        },
    }
}

/// The nodes that stand directly in a node.
pub fn children_of<'a>(node: &'a Node) -> (r: Vec<&'a Node>)
    ensures
        refer_to(r@, children(*node)),
{
    let mut r: Vec<&'a Node> = Vec::new();
    let ghost none = Seq::<Node>::empty();
    assert(refer_to(r@, none));
    match node {
        Node::Ident(_) | Node::This | Node::Text(_) | Node::Shorthand(_) => {},
        Node::Member { object, .. } => r.push(&**object),
        Node::Index { object, index } => {
            r.push(&**object);
            r.push(&**index);
        },
        Node::PrivateMember { object } => r.push(&**object),
        Node::OptMember { object, .. } => r.push(&**object),
        Node::Call { callee, args, .. } => {
            r.push(&**callee);
            push_all(&mut r, args, Ghost(one(**callee)));
        },
        Node::OptCall { callee, args, .. } => {
            r.push(&**callee);
            push_all(&mut r, args, Ghost(one(**callee)));
        },
        Node::ImportCall { args } => {
            push_all(&mut r, args, Ghost(none));
            assert(none + args@ =~= args@);
        },
        Node::New { callee, args } => {
            r.push(&**callee);
            push_all(&mut r, args, Ghost(one(**callee)));
        },
        Node::Spread(value) => r.push(&**value),
        Node::Object(props) => {
            push_all(&mut r, props, Ghost(none));
            assert(none + props@ =~= props@);
        },
        Node::KeyValue { inner, value, .. } => {
            push_all(&mut r, inner, Ghost(none));
            assert(none + inner@ =~= inner@);
            r.push(&**value);
        },
        Node::Binary { left, right, .. } => {
            r.push(&**left);
            r.push(&**right);
        },
        Node::Cond { test, consequent, alternate } => {
            r.push(&**test);
            r.push(&**consequent);
            r.push(&**alternate);
        },
        Node::Wrapped { inner, .. } => r.push(&**inner),
        Node::Assign { target, value } => {
            r.push(&**target);
            r.push(&**value);
        },
        Node::Function(function) => {
            push_function(&mut r, function, Ghost(none));
            assert(none + function_parts(*function) =~= function_parts(*function));
        },
        Node::Arrow(function) => {
            push_function(&mut r, function, Ghost(none));
            assert(none + function_parts(*function) =~= function_parts(*function));
        },
        Node::ArrowValue { inner, value, .. } => {
            push_all(&mut r, inner, Ghost(none));
            assert(none + inner@ =~= inner@);
            r.push(&**value);
        },
        Node::Class { class, .. } => push_class(&mut r, class),
        Node::VarDecl(declarators) => {
            push_all(&mut r, declarators, Ghost(none));
            assert(none + declarators@ =~= declarators@);
        },
        Node::Declarator { pattern, init } => {
            match pattern {
                Pattern::Name(_) => {},
                Pattern::Object { inner, .. } => push_all(&mut r, inner, Ghost(none)),
                Pattern::Other(inner) => push_all(&mut r, inner, Ghost(none)),
            }
            assert(none + pattern_parts(*pattern) =~= pattern_parts(*pattern));
            push_optional(&mut r, init, Ghost(pattern_parts(*pattern)));
        },
        Node::FnDecl { function, .. } => {
            push_function(&mut r, function, Ghost(none));
            assert(none + function_parts(*function) =~= function_parts(*function));
        },
        Node::ClassDecl { class, .. } => push_class(&mut r, class),
        Node::ClassProp { inner, value, decorators, .. } => {
            push_all(&mut r, inner, Ghost(none));
            assert(none + inner@ =~= inner@);
            push_optional(&mut r, value, Ghost(inner@));
            push_all(&mut r, decorators, Ghost(inner@ + at_most_one(*value)));
        },
        Node::Method { inner, function, .. } => {
            push_all(&mut r, inner, Ghost(none));
            assert(none + inner@ =~= inner@);
            push_function(&mut r, function, Ghost(inner@));
        },
        Node::Constructor { inner, .. } => {
            push_all(&mut r, inner, Ghost(none));
            assert(none + inner@ =~= inner@);
        },
        Node::Return(value) => {
            push_optional(&mut r, value, Ghost(none));
            assert(none + at_most_one(*value) =~= at_most_one(*value));
        },
        Node::Other(inner) => {
            push_all(&mut r, inner, Ghost(none));
            assert(none + inner@ =~= inner@);
        },
    }
    r
}

/// A node and all that stands in it, each before what stands in it.
pub open spec fn preorder(node: Node) -> Seq<Node>
    decreases node, children(node).len() + 1,
{
    seq![node] + preorder_of_first(node, children(node).len())
}

/// The first children of a node and all that stands in them.
pub open spec fn preorder_of_first(node: Node, n: nat) -> Seq<Node>
    decreases node, n,
{
    if n == 0 || n > children(node).len() {
        Seq::empty()
    } else {
        proof {
            children_are_smaller(node);
        }
        preorder_of_first(node, (n - 1) as nat) + preorder(children(node)[n - 1])
    }
}

fn walk<'a>(node: &'a Node, list: &mut Vec<&'a Node>, Ghost(before): Ghost<Seq<Node>>)
    requires
        refer_to(old(list)@, before),
    ensures
        refer_to(final(list)@, before + preorder(*node)),
    decreases *node,
{
    list.push(node);
    let kids = children_of(node);
    let mut i: usize = 0;
    let ghost first = before.push(*node);
    assert(first + preorder_of_first(*node, 0) =~= first);
    while i < kids.len()
        invariant
            i <= kids.len(),
            refer_to(kids@, children(*node)),
            refer_to(list@, first + preorder_of_first(*node, i as nat)),
        decreases kids.len() - i,
    {
        proof {
            children_are_smaller(*node);
        }
        let ghost so_far = first + preorder_of_first(*node, i as nat);
        walk(kids[i], list, Ghost(so_far));
        assert(so_far + preorder(*kids@[i as int]) =~= first + preorder_of_first(*node, (i + 1) as nat));
        i += 1;
    }
    assert(first + preorder_of_first(*node, children(*node).len()) =~= before + preorder(*node));
}

/// The nodes that stand directly in an item of a module.
pub open spec fn item_nodes(item: ModuleItem) -> Seq<Node> {
    match item {
        ModuleItem::Import { .. } | ModuleItem::ExportNamed { .. } | ModuleItem::ExportAll { .. } => Seq::empty(),
        ModuleItem::ExportDecl(node) => preorder(node),
        ModuleItem::ExportDefault { decl, .. } => preorder(decl),
        ModuleItem::ExportDefaultExpr(node) => preorder(node),
        ModuleItem::Statement(node) => preorder(node),
    }
}

pub open spec fn nodes_of_items(items: Seq<ModuleItem>) -> Seq<Node>
    decreases items.len(),
{
    if items.len() == 0 {
        Seq::empty()
    } else {
        nodes_of_items(items.drop_last()) + item_nodes(items.last())
    }
}

/// Every node of a module, in the order in which a reader meets them.
pub open spec fn module_nodes(module: Module) -> Seq<Node> {
    nodes_of_items(module.items@)
}

pub fn nodes_of<'a>(module: &'a Module) -> (r: Vec<&'a Node>)
    ensures
        refer_to(r@, module_nodes(*module)),
{
    let mut r: Vec<&'a Node> = Vec::new();
    let mut i: usize = 0;
    assert(refer_to(r@, nodes_of_items(module.items@.take(0))));
    while i < module.items.len()
        invariant
            i <= module.items.len(),
            refer_to(r@, nodes_of_items(module.items@.take(i as int))),
        decreases module.items.len() - i,
    {
        let ghost before = nodes_of_items(module.items@.take(i as int));
        assert(module.items@.take(i + 1).drop_last() =~= module.items@.take(i as int));
        assert(module.items@.take(i + 1).last() == module.items@[i as int]);
        match &module.items[i] {
            ModuleItem::Import { .. } | ModuleItem::ExportNamed { .. } | ModuleItem::ExportAll { .. } => {
                assert(before + Seq::<Node>::empty() =~= before);
            },
            ModuleItem::ExportDecl(node) => walk(node, &mut r, Ghost(before)),
            ModuleItem::ExportDefault { decl, .. } => walk(decl, &mut r, Ghost(before)),
            ModuleItem::ExportDefaultExpr(node) => walk(node, &mut r, Ghost(before)),
            ModuleItem::Statement(node) => walk(node, &mut r, Ghost(before)),
        }
        i += 1;
    }
    assert(module.items@.take(module.items@.len() as int) =~= module.items@);
    r
}

} // verus!
