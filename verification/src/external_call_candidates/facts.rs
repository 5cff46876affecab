//! What a source file says about where its values come from.
//!
//! Every value expression that matters reduces to a [`Chain`]: where it starts,
//! and what was applied to it.

use crate::duplicate::{duplicate_all, duplicate_option, Duplicate};
use crate::ordered::TextMap;
use crate::text::{copy_list, copy_option, same, same_option};
use vstd::prelude::*;

verus! {

/// A binding: a name, and the scope that the name is bound in.
#[derive(Debug, Clone, PartialEq, Eq)]
pub struct BindingId {
    pub symbol: String,
    pub context: u32,
}

/// What a [`BindingId`] holds.
pub struct BindingIdModel {
    pub symbol: Seq<char>,
    pub context: u32,
}

impl DeepView for BindingId {
    type V = BindingIdModel;

    open spec fn deep_view(&self) -> BindingIdModel {
        BindingIdModel {
            symbol: self.symbol@,
            context: self.context,
        }
    }
}

impl Duplicate for BindingId {
    fn duplicate(&self) -> (r: Self) {
        BindingId {
            symbol: self.symbol.clone(),
            context: self.context,
        }
    }
}

/// A value that came out of a dependency, with the import that anchors it.
#[derive(Debug, Clone, PartialEq, Eq)]
pub struct PkgRef {
    /// The dependency as a manifest names it.
    pub package: String,
    /// The export that the value came from; none for the module as a whole.
    pub import_symbol: Option<String>,
    /// What the import named under the root of the package.
    pub subpath: Option<String>,
}

/// What a [`PkgRef`] holds.
pub struct PkgRefModel {
    pub package: Seq<char>,
    pub import_symbol: Option<Seq<char>>,
    pub subpath: Option<Seq<char>>,
}

impl DeepView for PkgRef {
    type V = PkgRefModel;

    open spec fn deep_view(&self) -> PkgRefModel {
        PkgRefModel {
            package: self.package@,
            import_symbol: self.import_symbol.deep_view(),
            subpath: self.subpath.deep_view(),
        }
    }
}

impl Duplicate for PkgRef {
    fn duplicate(&self) -> (r: Self) {
        PkgRef {
            package: self.package.clone(),
            import_symbol: copy_option(&self.import_symbol),
            subpath: copy_option(&self.subpath),
        }
    }
}

/// Where a chain starts.
#[derive(Debug, Clone, PartialEq, Eq)]
pub enum Root {
    Binding { id: BindingId },
    This { class: usize },
}

/// What a [`Root`] holds.
pub enum RootModel {
    Binding { id: BindingIdModel },
    This { class: usize },
}

impl DeepView for Root {
    type V = RootModel;

    open spec fn deep_view(&self) -> RootModel {
        match self {
            Root::Binding { id } => RootModel::Binding {
                id: id.deep_view(),
            },
            Root::This { class } => RootModel::This {
                class: *class,
            },
        }
    }
}

impl Duplicate for Root {
    fn duplicate(&self) -> (r: Self) {
        match self {
            Root::Binding { id } => Root::Binding {
                id: id.duplicate(),
            },
            Root::This { class } => Root::This {
                class: *class,
            },
        }
    }
}

/// One hop along a chain.
#[derive(Debug, Clone, PartialEq, Eq)]
pub enum Step {
    Prop { name: String },
    Call,
}

/// What a [`Step`] holds.
pub enum StepModel {
    Prop { name: Seq<char> },
    Call,
}

impl DeepView for Step {
    type V = StepModel;

    open spec fn deep_view(&self) -> StepModel {
        match self {
            Step::Prop { name } => StepModel::Prop {
                name: name@,
            },
            Step::Call => StepModel::Call,
        }
    }
}

impl Duplicate for Step {
    fn duplicate(&self) -> (r: Self) {
        match self {
            Step::Prop { name } => Step::Prop {
                name: name.clone(),
            },
            Step::Call => Step::Call,
        }
    }
}

/// A value expression: where it starts, and what was applied to it.
#[derive(Debug, Clone, PartialEq, Eq)]
pub struct Chain {
    pub root: Root,
    pub steps: Vec<Step>,
}

/// What a [`Chain`] holds.
pub struct ChainModel {
    pub root: RootModel,
    pub steps: Seq<StepModel>,
}

impl DeepView for Chain {
    type V = ChainModel;

    open spec fn deep_view(&self) -> ChainModel {
        ChainModel {
            root: self.root.deep_view(),
            steps: self.steps.deep_view(),
        }
    }
}

impl Duplicate for Chain {
    fn duplicate(&self) -> (r: Self) {
        Chain {
            root: self.root.duplicate(),
            steps: duplicate_all(&self.steps),
        }
    }
}

/// Where a name that a file imports or exports comes from.
#[derive(Debug, Clone, PartialEq, Eq)]
pub enum Source {
    ExternalPackage { package: PkgRef },
    InternalNamed { file: usize, name: String },
    InternalNamespace { file: usize },
}

/// What a [`Source`] holds.
pub enum SourceModel {
    ExternalPackage { package: PkgRefModel },
    InternalNamed { file: usize, name: Seq<char> },
    InternalNamespace { file: usize },
}

impl DeepView for Source {
    type V = SourceModel;

    open spec fn deep_view(&self) -> SourceModel {
        match self {
            Source::ExternalPackage { package } => SourceModel::ExternalPackage {
                package: package.deep_view(),
            },
            Source::InternalNamed { file, name } => SourceModel::InternalNamed {
                file: *file,
                name: name@,
            },
            Source::InternalNamespace { file } => SourceModel::InternalNamespace {
                file: *file,
            },
        }
    }
}

impl Duplicate for Source {
    fn duplicate(&self) -> (r: Self) {
        match self {
            Source::ExternalPackage { package } => Source::ExternalPackage {
                package: package.duplicate(),
            },
            Source::InternalNamed { file, name } => Source::InternalNamed {
                file: *file,
                name: name.clone(),
            },
            Source::InternalNamespace { file } => Source::InternalNamespace {
                file: *file,
            },
        }
    }
}

/// A name that a file imports.
#[derive(Debug, Clone, PartialEq, Eq)]
pub struct ImportFact {
    pub local: BindingId,
    pub source: Source,
}

/// What an [`ImportFact`] holds.
pub struct ImportFactModel {
    pub local: BindingIdModel,
    pub source: SourceModel,
}

impl DeepView for ImportFact {
    type V = ImportFactModel;

    open spec fn deep_view(&self) -> ImportFactModel {
        ImportFactModel {
            local: self.local.deep_view(),
            source: self.source.deep_view(),
        }
    }
}

impl Duplicate for ImportFact {
    fn duplicate(&self) -> (r: Self) {
        ImportFact {
            local: self.local.duplicate(),
            source: self.source.duplicate(),
        }
    }
}

/// A name that a file exports from elsewhere.
#[derive(Debug, Clone, PartialEq, Eq)]
pub struct ReExportFact {
    pub name: String,
    pub source: Source,
}

/// What a [`ReExportFact`] holds.
pub struct ReExportFactModel {
    pub name: Seq<char>,
    pub source: SourceModel,
}

impl DeepView for ReExportFact {
    type V = ReExportFactModel;

    open spec fn deep_view(&self) -> ReExportFactModel {
        ReExportFactModel {
            name: self.name@,
            source: self.source.deep_view(),
        }
    }
}

impl Duplicate for ReExportFact {
    fn duplicate(&self) -> (r: Self) {
        ReExportFact {
            name: self.name.clone(),
            source: self.source.duplicate(),
        }
    }
}

/// A binding that a file exports.
#[derive(Debug, Clone, PartialEq, Eq)]
pub struct ExportFact {
    pub name: String,
    pub local: BindingId,
}

/// What an [`ExportFact`] holds.
pub struct ExportFactModel {
    pub name: Seq<char>,
    pub local: BindingIdModel,
}

impl DeepView for ExportFact {
    type V = ExportFactModel;

    open spec fn deep_view(&self) -> ExportFactModel {
        ExportFactModel {
            name: self.name@,
            local: self.local.deep_view(),
        }
    }
}

impl Duplicate for ExportFact {
    fn duplicate(&self) -> (r: Self) {
        ExportFact {
            name: self.name.clone(),
            local: self.local.duplicate(),
        }
    }
}

/// A binding of a value.
#[derive(Debug, Clone, PartialEq, Eq)]
pub struct AliasFact {
    pub local: BindingId,
    pub value: Chain,
}

/// What an [`AliasFact`] holds.
pub struct AliasFactModel {
    pub local: BindingIdModel,
    pub value: ChainModel,
}

impl DeepView for AliasFact {
    type V = AliasFactModel;

    open spec fn deep_view(&self) -> AliasFactModel {
        AliasFactModel {
            local: self.local.deep_view(),
            value: self.value.deep_view(),
        }
    }
}

impl Duplicate for AliasFact {
    fn duplicate(&self) -> (r: Self) {
        AliasFact {
            local: self.local.duplicate(),
            value: self.value.duplicate(),
        }
    }
}

/// A name and the value behind it.
#[derive(Debug, Clone, PartialEq, Eq)]
pub struct NamedChain {
    pub name: String,
    pub chain: Chain,
}

/// What a [`NamedChain`] holds.
pub struct NamedChainModel {
    pub name: Seq<char>,
    pub chain: ChainModel,
}

impl DeepView for NamedChain {
    type V = NamedChainModel;

    open spec fn deep_view(&self) -> NamedChainModel {
        NamedChainModel {
            name: self.name@,
            chain: self.chain.deep_view(),
        }
    }
}

impl Duplicate for NamedChain {
    fn duplicate(&self) -> (r: Self) {
        NamedChain {
            name: self.name.clone(),
            chain: self.chain.duplicate(),
        }
    }
}

/// An argument of a construction.
#[derive(Debug, Clone, PartialEq, Eq)]
pub enum Argument {
    Value { chain: Chain },
    Record { properties: Vec<NamedChain> },
    Opaque,
}

/// What an [`Argument`] holds.
pub enum ArgumentModel {
    Value { chain: ChainModel },
    Record { properties: Seq<NamedChainModel> },
    Opaque,
}

impl DeepView for Argument {
    type V = ArgumentModel;

    open spec fn deep_view(&self) -> ArgumentModel {
        match self {
            Argument::Value { chain } => ArgumentModel::Value {
                chain: chain.deep_view(),
            },
            Argument::Record { properties } => ArgumentModel::Record {
                properties: properties.deep_view(),
            },
            Argument::Opaque => ArgumentModel::Opaque,
        }
    }
}

impl Duplicate for Argument {
    fn duplicate(&self) -> (r: Self) {
        match self {
            Argument::Value { chain } => Argument::Value {
                chain: chain.duplicate(),
            },
            Argument::Record { properties } => Argument::Record {
                properties: duplicate_all(properties),
            },
            Argument::Opaque => Argument::Opaque,
        }
    }
}

/// A construction of a class by name.
#[derive(Debug, Clone, PartialEq, Eq)]
pub struct ConstructionFact {
    pub class_binding: BindingId,
    pub arguments: Vec<Argument>,
}

/// What a [`ConstructionFact`] holds.
pub struct ConstructionFactModel {
    pub class_binding: BindingIdModel,
    pub arguments: Seq<ArgumentModel>,
}

impl DeepView for ConstructionFact {
    type V = ConstructionFactModel;

    open spec fn deep_view(&self) -> ConstructionFactModel {
        ConstructionFactModel {
            class_binding: self.class_binding.deep_view(),
            arguments: self.arguments.deep_view(),
        }
    }
}

impl Duplicate for ConstructionFact {
    fn duplicate(&self) -> (r: Self) {
        ConstructionFact {
            class_binding: self.class_binding.duplicate(),
            arguments: duplicate_all(&self.arguments),
        }
    }
}

/// What a function returns: values, and properties of object literals.
#[derive(Debug, Clone, PartialEq, Eq)]
pub struct ReturnShape {
    pub returned: Vec<Chain>,
    pub record_returns: Vec<NamedChain>,
}

/// What a [`ReturnShape`] holds.
pub struct ReturnShapeModel {
    pub returned: Seq<ChainModel>,
    pub record_returns: Seq<NamedChainModel>,
}

impl DeepView for ReturnShape {
    type V = ReturnShapeModel;

    open spec fn deep_view(&self) -> ReturnShapeModel {
        ReturnShapeModel {
            returned: self.returned.deep_view(),
            record_returns: self.record_returns.deep_view(),
        }
    }
}

impl Duplicate for ReturnShape {
    fn duplicate(&self) -> (r: Self) {
        ReturnShape {
            returned: duplicate_all(&self.returned),
            record_returns: duplicate_all(&self.record_returns),
        }
    }
}

/// A function that is bound to a name.
#[derive(Debug, Clone, PartialEq, Eq)]
pub struct FunctionFact {
    pub local: BindingId,
    pub shape: ReturnShape,
    /// The dependency that the declared return type names.
    pub annotation: Option<PkgRef>,
}

/// What a [`FunctionFact`] holds.
pub struct FunctionFactModel {
    pub local: BindingIdModel,
    pub shape: ReturnShapeModel,
    pub annotation: Option<PkgRefModel>,
}

impl DeepView for FunctionFact {
    type V = FunctionFactModel;

    open spec fn deep_view(&self) -> FunctionFactModel {
        FunctionFactModel {
            local: self.local.deep_view(),
            shape: self.shape.deep_view(),
            annotation: self.annotation.deep_view(),
        }
    }
}

impl Duplicate for FunctionFact {
    fn duplicate(&self) -> (r: Self) {
        FunctionFact {
            local: self.local.duplicate(),
            shape: self.shape.duplicate(),
            annotation: duplicate_option(&self.annotation),
        }
    }
}

/// A static method or getter of a class.
#[derive(Debug, Clone, PartialEq, Eq)]
pub struct StaticFunction {
    pub name: String,
    pub shape: ReturnShape,
    pub is_getter: bool,
}

/// What a [`StaticFunction`] holds.
pub struct StaticFunctionModel {
    pub name: Seq<char>,
    pub shape: ReturnShapeModel,
    pub is_getter: bool,
}

impl DeepView for StaticFunction {
    type V = StaticFunctionModel;

    open spec fn deep_view(&self) -> StaticFunctionModel {
        StaticFunctionModel {
            name: self.name@,
            shape: self.shape.deep_view(),
            is_getter: self.is_getter,
        }
    }
}

impl Duplicate for StaticFunction {
    fn duplicate(&self) -> (r: Self) {
        StaticFunction {
            name: self.name.clone(),
            shape: self.shape.duplicate(),
            is_getter: self.is_getter,
        }
    }
}

/// A field whose declared type names a dependency.
#[derive(Debug, Clone, PartialEq, Eq)]
pub struct TypedField {
    pub name: String,
    pub package: PkgRef,
}

/// What a [`TypedField`] holds.
pub struct TypedFieldModel {
    pub name: Seq<char>,
    pub package: PkgRefModel,
}

impl DeepView for TypedField {
    type V = TypedFieldModel;

    open spec fn deep_view(&self) -> TypedFieldModel {
        TypedFieldModel {
            name: self.name@,
            package: self.package.deep_view(),
        }
    }
}

impl Duplicate for TypedField {
    fn duplicate(&self) -> (r: Self) {
        TypedField {
            name: self.name.clone(),
            package: self.package.duplicate(),
        }
    }
}

/// A field that is assigned from a constructor parameter, or from what is read
/// off one.
#[derive(Debug, Clone, PartialEq, Eq)]
pub struct ParamField {
    pub field: String,
    pub position: usize,
    pub path: Vec<String>,
}

/// What a [`ParamField`] holds.
pub struct ParamFieldModel {
    pub field: Seq<char>,
    pub position: usize,
    pub path: Seq<Seq<char>>,
}

impl DeepView for ParamField {
    type V = ParamFieldModel;

    open spec fn deep_view(&self) -> ParamFieldModel {
        ParamFieldModel {
            field: self.field@,
            position: self.position,
            path: self.path.deep_view(),
        }
    }
}

impl Duplicate for ParamField {
    fn duplicate(&self) -> (r: Self) {
        ParamField {
            field: self.field.clone(),
            position: self.position,
            path: copy_list(&self.path),
        }
    }
}

/// A class.
#[derive(Debug, Clone, PartialEq, Eq)]
pub struct ClassFact {
    pub binding: Option<BindingId>,
    pub instance_fields: Vec<NamedChain>,
    pub annotation_fields: Vec<TypedField>,
    pub static_fields: Vec<NamedChain>,
    pub static_functions: Vec<StaticFunction>,
    pub ctor_param_fields: Vec<ParamField>,
}

/// What a [`ClassFact`] holds.
pub struct ClassFactModel {
    pub binding: Option<BindingIdModel>,
    pub instance_fields: Seq<NamedChainModel>,
    pub annotation_fields: Seq<TypedFieldModel>,
    pub static_fields: Seq<NamedChainModel>,
    pub static_functions: Seq<StaticFunctionModel>,
    pub ctor_param_fields: Seq<ParamFieldModel>,
}

impl DeepView for ClassFact {
    type V = ClassFactModel;

    open spec fn deep_view(&self) -> ClassFactModel {
        ClassFactModel {
            binding: self.binding.deep_view(),
            instance_fields: self.instance_fields.deep_view(),
            annotation_fields: self.annotation_fields.deep_view(),
            static_fields: self.static_fields.deep_view(),
            static_functions: self.static_functions.deep_view(),
            ctor_param_fields: self.ctor_param_fields.deep_view(),
        }
    }
}

impl Duplicate for ClassFact {
    fn duplicate(&self) -> (r: Self) {
        ClassFact {
            binding: duplicate_option(&self.binding),
            instance_fields: duplicate_all(&self.instance_fields),
            annotation_fields: duplicate_all(&self.annotation_fields),
            static_fields: duplicate_all(&self.static_fields),
            static_functions: duplicate_all(&self.static_functions),
            ctor_param_fields: duplicate_all(&self.ctor_param_fields),
        }
    }
}

/// A call.
#[derive(Debug, Clone, PartialEq, Eq)]
pub struct CallSite {
    pub line: usize,
    pub callee: Chain,
}

/// What a [`CallSite`] holds.
pub struct CallSiteModel {
    pub line: usize,
    pub callee: ChainModel,
}

impl DeepView for CallSite {
    type V = CallSiteModel;

    open spec fn deep_view(&self) -> CallSiteModel {
        CallSiteModel {
            line: self.line,
            callee: self.callee.deep_view(),
        }
    }
}

impl Duplicate for CallSite {
    fn duplicate(&self) -> (r: Self) {
        CallSite {
            line: self.line,
            callee: self.callee.duplicate(),
        }
    }
}

/// An assignment to a member of a name.
#[derive(Debug, Clone, PartialEq, Eq)]
pub struct MemberAssignment {
    pub target: BindingId,
    pub field: String,
    pub value: Chain,
}

/// What a [`MemberAssignment`] holds.
pub struct MemberAssignmentModel {
    pub target: BindingIdModel,
    pub field: Seq<char>,
    pub value: ChainModel,
}

impl DeepView for MemberAssignment {
    type V = MemberAssignmentModel;

    open spec fn deep_view(&self) -> MemberAssignmentModel {
        MemberAssignmentModel {
            target: self.target.deep_view(),
            field: self.field@,
            value: self.value.deep_view(),
        }
    }
}

impl Duplicate for MemberAssignment {
    fn duplicate(&self) -> (r: Self) {
        MemberAssignment {
            target: self.target.duplicate(),
            field: self.field.clone(),
            value: self.value.duplicate(),
        }
    }
}

/// All that a file says.
#[derive(Debug)]
pub struct FileFacts {
    pub imports: Vec<ImportFact>,
    /// Every name imported from a dependency, whether it binds a value or a type.
    pub type_names: TextMap<PkgRef>,
    pub reexports: Vec<ReExportFact>,
    /// The files that are exported from as a whole.
    pub star_exports: Vec<usize>,
    pub exports: Vec<ExportFact>,
    pub aliases: Vec<AliasFact>,
    pub constructions: Vec<ConstructionFact>,
    pub member_assignments: Vec<MemberAssignment>,
    pub functions: Vec<FunctionFact>,
    pub classes: Vec<ClassFact>,
    pub call_sites: Vec<CallSite>,
    /// The files that this one pulls in.
    pub edges: Vec<usize>,
}

/// What a [`FileFacts`] holds.
pub struct FileFactsModel {
    pub imports: Seq<ImportFactModel>,
    pub type_names: Map<Seq<char>, PkgRefModel>,
    pub reexports: Seq<ReExportFactModel>,
    pub star_exports: Seq<usize>,
    pub exports: Seq<ExportFactModel>,
    pub aliases: Seq<AliasFactModel>,
    pub constructions: Seq<ConstructionFactModel>,
    pub member_assignments: Seq<MemberAssignmentModel>,
    pub functions: Seq<FunctionFactModel>,
    pub classes: Seq<ClassFactModel>,
    pub call_sites: Seq<CallSiteModel>,
    pub edges: Seq<usize>,
}

impl DeepView for FileFacts {
    type V = FileFactsModel;

    open spec fn deep_view(&self) -> FileFactsModel {
        FileFactsModel {
            imports: self.imports.deep_view(),
            type_names: self.type_names.deep_view(),
            reexports: self.reexports.deep_view(),
            star_exports: self.star_exports@,
            exports: self.exports.deep_view(),
            aliases: self.aliases.deep_view(),
            constructions: self.constructions.deep_view(),
            member_assignments: self.member_assignments.deep_view(),
            functions: self.functions.deep_view(),
            classes: self.classes.deep_view(),
            call_sites: self.call_sites.deep_view(),
            edges: self.edges@,
        }
    }
}

pub fn same_binding(a: &BindingId, b: &BindingId) -> (r: bool)
    ensures
        r == (a.deep_view() == b.deep_view()),
{
    a.context == b.context && same(a.symbol.as_str(), b.symbol.as_str())
}

pub fn same_package(a: &PkgRef, b: &PkgRef) -> (r: bool)
    ensures
        r == (a.deep_view() == b.deep_view()),
{
    same(a.package.as_str(), b.package.as_str()) && same_option(&a.import_symbol, &b.import_symbol) && same_option(
        &a.subpath,
        &b.subpath,
    )
}

/// A chain with one more hop.
pub open spec fn extended(chain: ChainModel, step: StepModel) -> ChainModel {
    ChainModel { root: chain.root, steps: chain.steps.push(step) }
}

pub open spec fn step_text(step: StepModel) -> Seq<char> {
    match step {
        StepModel::Prop { name } => "."@ + name,
        StepModel::Call => "()"@,
    }
}

pub open spec fn steps_text(steps: Seq<StepModel>) -> Seq<char>
    decreases steps.len(),
{
    if steps.len() == 0 {
        Seq::empty()
    } else {
        steps_text(steps.drop_last()) + step_text(steps.last())
    }
}

/// A chain as it is written: dotted, with a call as an empty pair of brackets.
pub open spec fn chain_text(chain: ChainModel) -> Seq<char> {
    (match chain.root {
        RootModel::Binding { id } => id.symbol,
        RootModel::This { .. } => "this"@,
    }) + steps_text(chain.steps)
}

impl Chain {
    pub fn extended(self, step: Step) -> (r: Chain)
        ensures
            r.deep_view() == extended(self.deep_view(), step.deep_view()),
    {
        let mut chain = self;
        let ghost before = chain.steps.deep_view();
        chain.steps.push(step);
        assert(chain.steps.deep_view() =~= before.push(step.deep_view()));
        chain
    }

    pub fn text(&self) -> (r: String)
        ensures
            r@ == chain_text(self.deep_view()),
    {
        let mut text = match &self.root {
            Root::Binding { id } => id.symbol.clone(),
            Root::This { .. } => "this".to_owned(),
        };
        let ghost start = text@;
        let ghost all = self.steps.deep_view();
        let mut i: usize = 0;
        assert(start + steps_text(all.take(0)) =~= start);
        while i < self.steps.len()
            invariant
                i <= self.steps.len(),
                all == self.steps.deep_view(),
                text@ == start + steps_text(all.take(i as int)),
            decreases self.steps.len() - i,
        {
            let ghost before = steps_text(all.take(i as int));
            assert(all.take(i + 1).drop_last() =~= all.take(i as int));
            assert(all.take(i + 1).last() == self.steps@[i as int].deep_view());
            match &self.steps[i] {
                Step::Prop { name } => {
                    text.append(".");
                    text.append(name.as_str());
                    assert(text@ =~= start + (before + ("."@ + name@)));
                },
                Step::Call => {
                    text.append("()");
                    assert(text@ =~= start + (before + "()"@));
                },
            }
            i += 1;
        }
        assert(all.take(all.len() as int) =~= all);
        text
    }
}

/// A file that says nothing.
pub open spec fn no_facts() -> FileFactsModel {
    FileFactsModel {
        imports: Seq::empty(),
        type_names: Map::empty(),
        reexports: Seq::empty(),
        star_exports: Seq::empty(),
        exports: Seq::empty(),
        aliases: Seq::empty(),
        constructions: Seq::empty(),
        member_assignments: Seq::empty(),
        functions: Seq::empty(),
        classes: Seq::empty(),
        call_sites: Seq::empty(),
        edges: Seq::empty(),
    }
}

impl Default for FileFacts {
    fn default() -> (r: Self)
        ensures
            r.deep_view() == no_facts(),
    {
        let r = FileFacts {
            imports: Vec::new(),
            type_names: TextMap::new(),
            reexports: Vec::new(),
            star_exports: Vec::new(),
            exports: Vec::new(),
            aliases: Vec::new(),
            constructions: Vec::new(),
            member_assignments: Vec::new(),
            functions: Vec::new(),
            classes: Vec::new(),
            call_sites: Vec::new(),
            edges: Vec::new(),
        };
        proof {
            let m = r.deep_view();
            let n = no_facts();
            assert(m.imports =~= n.imports);
            assert(m.type_names =~= n.type_names);
            assert(m.reexports =~= n.reexports);
            assert(m.star_exports =~= n.star_exports);
            assert(m.exports =~= n.exports);
            assert(m.aliases =~= n.aliases);
            assert(m.constructions =~= n.constructions);
            assert(m.member_assignments =~= n.member_assignments);
            assert(m.functions =~= n.functions);
            assert(m.classes =~= n.classes);
            assert(m.call_sites =~= n.call_sites);
            assert(m.edges =~= n.edges);
        }
        r
    }
}

} // verus!
