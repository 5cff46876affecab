//! Resolving what every binding and every export of a workspace comes from.
//!
//! What is known grows round by round: a round reads what the round before knew
//! and joins what the facts of each file make of it into the slots of that file.
//! A file writes no slots but its own, so the order of the files does not count,
//! and every write is a join, so the order of the facts does not count either.

use crate::duplicate::{duplicate_all, Duplicate};
use crate::external_call_candidates::facts::{
    extended, same_binding, AliasFact, AliasFactModel, Argument, ArgumentModel, BindingId, BindingIdModel, Chain,
    ChainModel, ClassFact, ClassFactModel, ConstructionFactModel, ExportFact, ExportFactModel, FileFacts,
    FileFactsModel, FunctionFact, FunctionFactModel, ImportFact, ImportFactModel, MemberAssignmentModel, NamedChain,
    NamedChainModel, ParamField, ParamFieldModel, PkgRef, PkgRefModel, ReExportFact, ReExportFactModel, ReturnShape,
    ReturnShapeModel, Root, RootModel, Source, SourceModel, StaticFunction, StaticFunctionModel, Step, StepModel,
    TypedField, TypedFieldModel,
};
use crate::external_call_candidates::ownership::{
    copy_owner, join_associates, join_is_idempotent, join_values, join_commutes, join_owners, owners_joined, Owner, OwnerModel, PropModel, PropValue,
    SlotValue, ValueModel,
};
use crate::external_call_candidates::slots::{
    holds_slot, join_all, joined_all, joined_at, keys_differ, slot_place, slots_of, Slots, StaticName, StaticNameModel,
};
use crate::external_call_candidates::facts::same_package;
use crate::ordered::TextMap;
use crate::text::same;
use vstd::prelude::*;

verus! {

/// How many rounds are run at most.
pub const MAX_FIXPOINT_ROUNDS: usize = 64;

/// The slots of one file.
pub struct FileSlots {
    pub bindings: Slots<BindingId>,
    pub exports: Slots<String>,
    /// The instance fields of each class.
    pub instances: Slots<usize>,
    /// The static members of each class, a slot for each, so that one can hold
    /// an instance.
    pub statics: Slots<StaticName>,
}

/// What a [`FileSlots`] holds.
pub struct FileSlotsModel {
    pub bindings: Map<BindingIdModel, ValueModel>,
    pub exports: Map<Seq<char>, ValueModel>,
    pub instances: Map<usize, ValueModel>,
    pub statics: Map<StaticNameModel, ValueModel>,
}

impl DeepView for FileSlots {
    type V = FileSlotsModel;

    open spec fn deep_view(&self) -> FileSlotsModel {
        FileSlotsModel {
            bindings: self.bindings.deep_view(),
            exports: self.exports.deep_view(),
            instances: self.instances.deep_view(),
            statics: self.statics.deep_view(),
        }
    }
}

impl Duplicate for FileSlots {
    fn duplicate(&self) -> (r: Self) {
        FileSlots {
            bindings: self.bindings.copy(),
            exports: self.exports.copy(),
            instances: self.instances.copy(),
            statics: self.statics.copy(),
        }
    }
}

pub open spec fn no_slots() -> FileSlotsModel {
    FileSlotsModel { bindings: Map::empty(), exports: Map::empty(), instances: Map::empty(), statics: Map::empty() }
}

// ---------------------------------------------------------------------------
// Evaluating chains
// ---------------------------------------------------------------------------

/// The owner that a slot is known to have. A conflict has none.
pub open spec fn owned<A>(slots: Map<A, ValueModel>, key: A) -> Option<OwnerModel> {
    if slots.contains_key(key) && slots[key] is Owned {
        Some(slots[key]->Owned_0)
    } else {
        None
    }
}

pub open spec fn root_owner(state: Seq<FileSlotsModel>, file: int, root: RootModel) -> Option<OwnerModel> {
    if 0 <= file < state.len() {
        match root {
            RootModel::Binding { id } => owned(state[file].bindings, id),
            RootModel::This { class } => owned(state[file].instances, class),
        }
    } else {
        None
    }
}

/// What a hop leads to. Anything off a dependency's value is the dependency's;
/// a property of a record is what the record holds there; one of a namespace is
/// that export; one of a class is a static member; a call of a class constructs
/// an instance, and a call of a function yields what it returned.
pub open spec fn stepped(state: Seq<FileSlotsModel>, owner: OwnerModel, step: StepModel) -> Option<OwnerModel> {
    match (owner, step) {
        (OwnerModel::Pkg(package), _) => Some(OwnerModel::Pkg(package)),
        (OwnerModel::Record(fields), StepModel::Prop { name }) => if fields.contains_key(name) && fields[name] is Pkg {
            Some(OwnerModel::Pkg(fields[name]->Pkg_0))
        } else {
            None
        },
        (OwnerModel::NamespaceOf(file), StepModel::Prop { name }) => if file < state.len() {
            owned(state[file as int].exports, name)
        } else {
            None
        },
        (OwnerModel::ClassOf(file, class), StepModel::Prop { name }) => if file < state.len() {
            owned(state[file as int].statics, StaticNameModel { class, name })
        } else {
            None
        },
        (OwnerModel::ClassOf(file, class), StepModel::Call) => if file < state.len() {
            owned(state[file as int].instances, class)
        } else {
            None
        },
        (OwnerModel::FnReturning(returned), StepModel::Call) => Some(*returned),
        _ => None,
    }
}

pub open spec fn evaluated(state: Seq<FileSlotsModel>, file: int, root: RootModel, steps: Seq<StepModel>) -> Option<OwnerModel>
    decreases steps.len(),
{
    if steps.len() == 0 {
        root_owner(state, file, root)
    } else {
        match evaluated(state, file, root, steps.drop_last()) {
            Some(owner) => stepped(state, owner, steps.last()),
            None => None,
        }
    }
}

/// What a chain of a file is known to come from.
pub open spec fn chain_owner(state: Seq<FileSlotsModel>, file: int, chain: ChainModel) -> Option<OwnerModel> {
    evaluated(state, file, chain.root, chain.steps)
}

/// The dependency that a chain is known to come from. Records, namespaces,
/// classes and uncalled functions are no destinations.
pub open spec fn chain_package(state: Seq<FileSlotsModel>, file: int, chain: ChainModel) -> Option<PkgRefModel> {
    match chain_owner(state, file, chain) {
        Some(OwnerModel::Pkg(package)) => Some(package),
        _ => None,
    }
}

proof fn nothing_stays_nothing(state: Seq<FileSlotsModel>, file: int, root: RootModel, steps: Seq<StepModel>, n: int)
    requires
        0 <= n <= steps.len(),
        evaluated(state, file, root, steps.take(n)) is None,
    ensures
        evaluated(state, file, root, steps) is None,
    decreases steps.len() - n,
{
    if n == steps.len() {
        assert(steps.take(n) =~= steps);
    } else {
        assert(steps.take(n + 1).drop_last() =~= steps.take(n));
        nothing_stays_nothing(state, file, root, steps, n + 1);
    }
}

fn copy_owned(value: Option<&SlotValue>) -> (r: Option<Owner>)
    ensures
        r.deep_view() == (match value {
            Some(SlotValue::Owned(owner)) => Some(owner.deep_view()),
            _ => None,
        }),
{
    match value {
        Some(SlotValue::Owned(owner)) => Some(copy_owner(owner)),
        _ => None,
    }
}

fn step_from(state: &Vec<FileSlots>, owner: &Owner, step: &Step) -> (r: Option<Owner>)
    ensures
        r.deep_view() == stepped(state.deep_view(), owner.deep_view(), step.deep_view()),
{
    let ghost slots = state.deep_view();
    match owner {
        Owner::Pkg(package) => Some(Owner::Pkg(package.duplicate())),
        Owner::Record(fields) => match step {
            Step::Prop { name } => match fields.get(name.as_str()) {
                Some(PropValue::Pkg(package)) => Some(Owner::Pkg(package.duplicate())),
                _ => None,
            },
            Step::Call => None,
        },
        Owner::NamespaceOf(file) => match step {
            Step::Prop { name } => {
                if *file < state.len() {
                    assert(slots[*file as int] == state@[*file as int].deep_view());
                    copy_owned(state[*file].exports.get(name))
                } else {
                    None
                }
            },
            Step::Call => None,
        },
        Owner::ClassOf(file, class) => {
            if *file < state.len() {
                assert(slots[*file as int] == state@[*file as int].deep_view());
                match step {
                    Step::Prop { name } => {
                        let key = StaticName { class: *class, name: name.clone() };
                        copy_owned(state[*file].statics.get(&key))
                    },
                    Step::Call => copy_owned(state[*file].instances.get(class)),
                }
            } else {
                None
            }
        },
        Owner::FnReturning(returned) => match step {
            Step::Call => Some(copy_owner(&**returned)),
            Step::Prop { .. } => None,
        },
    }
}

/// What a chain of a file is known to come from.
pub fn eval(state: &Vec<FileSlots>, file: usize, chain: &Chain) -> (r: Option<Owner>)
    ensures
        r.deep_view() == chain_owner(state.deep_view(), file as int, chain.deep_view()),
{
    let ghost slots = state.deep_view();
    let ghost root = chain.root.deep_view();
    let ghost steps = chain.steps.deep_view();
    if file >= state.len() {
        proof {
            assert(evaluated(slots, file as int, root, steps.take(0)) is None);
            nothing_stays_nothing(slots, file as int, root, steps, 0);
        }
        return None;
    }
    assert(slots[file as int] == state@[file as int].deep_view());
    let start = match &chain.root {
        Root::Binding { id } => copy_owned(state[file].bindings.get(id)),
        Root::This { class } => copy_owned(state[file].instances.get(class)),
    };
    assert(start.deep_view() == evaluated(slots, file as int, root, steps.take(0)));
    let mut owner = match start {
        Some(owner) => owner,
        None => {
            proof {
                nothing_stays_nothing(slots, file as int, root, steps, 0);
            }
            return None;
        },
    };
    let mut i: usize = 0;
    while i < chain.steps.len()
        invariant
            i <= chain.steps.len(),
            slots == state.deep_view(),
            root == chain.root.deep_view(),
            steps == chain.steps.deep_view(),
            Some(owner.deep_view()) == evaluated(slots, file as int, root, steps.take(i as int)),
        decreases chain.steps.len() - i,
    {
        assert(steps.take(i + 1).drop_last() =~= steps.take(i as int));
        assert(steps.take(i + 1).last() == chain.steps@[i as int].deep_view());
        match step_from(state, &owner, &chain.steps[i]) {
            Some(next) => {
                owner = next;
            },
            None => {
                proof {
                    nothing_stays_nothing(slots, file as int, root, steps, i + 1);
                }
                return None;
            },
        }
        i += 1;
    }
    assert(steps.take(steps.len() as int) =~= steps);
    Some(owner)
}

pub fn resolve_package(state: &Vec<FileSlots>, file: usize, chain: &Chain) -> (r: Option<PkgRef>)
    ensures
        r.deep_view() == chain_package(state.deep_view(), file as int, chain.deep_view()),
{
    match eval(state, file, chain) {
        Some(Owner::Pkg(package)) => Some(package),
        _ => None,
    }
}

// ---------------------------------------------------------------------------
// Records and returns
// ---------------------------------------------------------------------------

/// A record with one more thing known of a property.
pub open spec fn with_prop(fields: Map<Seq<char>, PropModel>, name: Seq<char>, package: PkgRefModel) -> Map<
    Seq<char>,
    PropModel,
> {
    fields.insert(
        name,
        if !fields.contains_key(name) || fields[name] == PropModel::Pkg(package) {
            PropModel::Pkg(package)
        } else {
            PropModel::Conflict
        },
    )
}

fn insert_prop(fields: &mut TextMap<PropValue>, name: &str, package: PkgRef)
    ensures
        final(fields).deep_view() == with_prop(old(fields).deep_view(), name@, package.deep_view()),
{
    let ghost before = fields.deep_view();
    let value = match fields.get(name) {
        Some(PropValue::Pkg(existing)) => {
            if same_package(existing, &package) {
                PropValue::Pkg(package)
            } else {
                PropValue::Conflict
            }
        },
        Some(PropValue::Conflict) => PropValue::Conflict,
        None => PropValue::Pkg(package),
    };
    fields.insert(name.to_owned(), value);
    assert(fields.deep_view() =~= before.insert(name@, value.deep_view()));
}

/// The record that named values make, as far as they are dependencies'.
pub open spec fn record_of(state: Seq<FileSlotsModel>, file: int, entries: Seq<NamedChainModel>) -> Map<Seq<char>, PropModel>
    decreases entries.len(),
{
    if entries.len() == 0 {
        Map::empty()
    } else {
        let before = record_of(state, file, entries.drop_last());
        match chain_package(state, file, entries.last().chain) {
            Some(package) => with_prop(before, entries.last().name, package),
            None => before,
        }
    }
}

fn read_record(state: &Vec<FileSlots>, file: usize, entries: &Vec<NamedChain>) -> (r: TextMap<PropValue>)
    ensures
        r.deep_view() == record_of(state.deep_view(), file as int, entries.deep_view()),
{
    let ghost all = entries.deep_view();
    let ghost slots = state.deep_view();
    let mut r: TextMap<PropValue> = TextMap::new();
    let mut i: usize = 0;
    assert(r.deep_view() =~= Map::<Seq<char>, PropModel>::empty());
    while i < entries.len()
        invariant
            i <= entries.len(),
            all == entries.deep_view(),
            slots == state.deep_view(),
            r.deep_view() == record_of(slots, file as int, all.take(i as int)),
        decreases entries.len() - i,
    {
        assert(all.take(i + 1).drop_last() =~= all.take(i as int));
        assert(all.take(i + 1).last() == entries@[i as int].deep_view());
        match resolve_package(state, file, &entries[i].chain) {
            Some(package) => insert_prop(&mut r, entries[i].name.as_str(), package),
            None => {},
        }
        i += 1;
    }
    assert(all.take(all.len() as int) =~= all);
    r
}

/// What the returned values are known to be together; nothing known of one of
/// them does not block.
pub open spec fn returned_value(state: Seq<FileSlotsModel>, file: int, returned: Seq<ChainModel>) -> Option<ValueModel>
    decreases returned.len(),
{
    if returned.len() == 0 {
        None
    } else {
        let before = returned_value(state, file, returned.drop_last());
        match (before, chain_owner(state, file, returned.last())) {
            (_, None) => before,
            (None, Some(owner)) => Some(ValueModel::Owned(owner)),
            (Some(ValueModel::Owned(existing)), Some(owner)) => Some(join_owners(existing, owner)),
            (Some(ValueModel::Conflict), Some(_)) => Some(ValueModel::Conflict),
        }
    }
}

/// What calling a function yields. The values it returned decide where any of
/// them is known: what they agree on, and nothing where they do not. Else the
/// record of the object literals it returned does. What is itself a function is
/// not followed.
pub open spec fn return_owner(state: Seq<FileSlotsModel>, file: int, shape: ReturnShapeModel) -> Option<OwnerModel> {
    match returned_value(state, file, shape.returned) {
        Some(ValueModel::Owned(owner)) => if owner is FnReturning {
            None
        } else {
            Some(owner)
        },
        Some(ValueModel::Conflict) => None,
        None => if record_of(state, file, shape.record_returns) == Map::<Seq<char>, PropModel>::empty() {
            None
        } else {
            Some(OwnerModel::Record(record_of(state, file, shape.record_returns)))
        },
    }
}

fn read_returns(state: &Vec<FileSlots>, file: usize, returned: &Vec<Chain>) -> (r: Option<SlotValue>)
    ensures
        r.deep_view() == returned_value(state.deep_view(), file as int, returned.deep_view()),
{
    let ghost all = returned.deep_view();
    let ghost slots = state.deep_view();
    let mut r: Option<SlotValue> = None;
    let mut i: usize = 0;
    while i < returned.len()
        invariant
            i <= returned.len(),
            all == returned.deep_view(),
            slots == state.deep_view(),
            r.deep_view() == returned_value(slots, file as int, all.take(i as int)),
        decreases returned.len() - i,
    {
        assert(all.take(i + 1).drop_last() =~= all.take(i as int));
        assert(all.take(i + 1).last() == returned@[i as int].deep_view());
        match eval(state, file, &returned[i]) {
            Some(owner) => {
                r = match r {
                    None => Some(SlotValue::Owned(owner)),
                    Some(SlotValue::Owned(existing)) => Some(owners_joined(&existing, &owner)),
                    Some(SlotValue::Conflict) => Some(SlotValue::Conflict),
                };
            },
            None => {},
        }
        i += 1;
    }
    assert(all.take(all.len() as int) =~= all);
    r
}

fn is_function(owner: &Owner) -> (r: bool)
    ensures
        r == (owner.deep_view() is FnReturning),
{
    match owner {
        Owner::FnReturning(_) => true,
        _ => false,
    }
}

fn no_fields(fields: &TextMap<PropValue>) -> (r: bool)
    ensures
        r == (fields.deep_view() == Map::<Seq<char>, PropModel>::empty()),
{
    let r = fields.is_empty();
    proof {
        if r {
            assert(fields.deep_view() =~= Map::<Seq<char>, PropModel>::empty());
        } else if fields.deep_view() == Map::<Seq<char>, PropModel>::empty() {
            assert forall|k: Seq<char>| !(#[trigger] fields@.contains_key(k)) by {
                assert(!fields.deep_view().contains_key(k));
            }
            assert(fields@ =~= Map::<Seq<char>, PropValue>::empty());
        }
    }
    r
}

fn read_shape(state: &Vec<FileSlots>, file: usize, shape: &ReturnShape) -> (r: Option<Owner>)
    ensures
        r.deep_view() == return_owner(state.deep_view(), file as int, shape.deep_view()),
{
    match read_returns(state, file, &shape.returned) {
        Some(SlotValue::Owned(owner)) => {
            if is_function(&owner) {
                None
            } else {
                Some(owner)
            }
        },
        Some(SlotValue::Conflict) => None,
        None => {
            let record = read_record(state, file, &shape.record_returns);
            if no_fields(&record) {
                None
            } else {
                Some(Owner::Record(record))
            }
        },
    }
}

// ---------------------------------------------------------------------------
// What facts contribute
// ---------------------------------------------------------------------------

/// What a name that is imported or exported from elsewhere holds.
pub open spec fn source_value(state: Seq<FileSlotsModel>, source: SourceModel) -> Option<ValueModel> {
    match source {
        SourceModel::ExternalPackage { package } => Some(ValueModel::Owned(OwnerModel::Pkg(package))),
        SourceModel::InternalNamed { file, name } => if file < state.len() && state[file as int].exports.contains_key(name) {
            Some(state[file as int].exports[name])
        } else {
            None
        },
        SourceModel::InternalNamespace { file } => Some(ValueModel::Owned(OwnerModel::NamespaceOf(file))),
    }
}

fn read_source(state: &Vec<FileSlots>, source: &Source) -> (r: Option<SlotValue>)
    ensures
        r.deep_view() == source_value(state.deep_view(), source.deep_view()),
{
    let ghost slots = state.deep_view();
    match source {
        Source::ExternalPackage { package } => Some(SlotValue::Owned(Owner::Pkg(package.duplicate()))),
        Source::InternalNamed { file, name } => {
            if *file < state.len() {
                assert(slots[*file as int] == state@[*file as int].deep_view());
                match state[*file].exports.get(name) {
                    Some(value) => Some(value.duplicate()),
                    None => None,
                }
            } else {
                None
            }
        },
        Source::InternalNamespace { file } => Some(SlotValue::Owned(Owner::NamespaceOf(*file))),
    }
}

/// What imports bind.
pub open spec fn import_values(state: Seq<FileSlotsModel>, facts: Seq<ImportFactModel>) -> Seq<(BindingIdModel, ValueModel)>
    decreases facts.len(),
{
    if facts.len() == 0 {
        Seq::empty()
    } else {
        let before = import_values(state, facts.drop_last());
        let fact = facts.last();
        match (match source_value(state, fact.source) {
            Some(value) => Some((fact.local, value)),
            None => None,
        }) {
            Some(value) => before.push(value),
            None => before,
        }
    }
}

fn read_imports(state: &Vec<FileSlots>, facts: &Vec<ImportFact>) -> (r: Vec<(BindingId, SlotValue)>)
    ensures
        r.deep_view() == import_values(state.deep_view(), facts.deep_view()),
{
    let ghost all = facts.deep_view();
    let ghost slots = state.deep_view();
    let mut r: Vec<(BindingId, SlotValue)> = Vec::new();
    let mut i: usize = 0;
    assert(r.deep_view() =~= Seq::<(BindingIdModel, ValueModel)>::empty());
    while i < facts.len()
        invariant
            i <= facts.len(),
            all == facts.deep_view(),
            slots == state.deep_view(),
            r.deep_view() == import_values(slots, all.take(i as int)),
        decreases facts.len() - i,
    {
        let ghost before = r.deep_view();
        assert(all.take(i + 1).drop_last() =~= all.take(i as int));
        assert(all.take(i + 1).last() == facts@[i as int].deep_view());
        let fact = &facts[i];
        let contributed: Option<(BindingId, SlotValue)> = match read_source(state, &fact.source) {
            Some(value) => Some((fact.local.duplicate(), value)),
            None => None,
        };
        match contributed {
            Some(value) => {
                r.push(value);
                assert(r.deep_view() =~= before.push(value.deep_view()));
            },
            None => {},
        }
        i += 1;
    }
    assert(all.take(all.len() as int) =~= all);
    r
}

pub open spec fn function_owner(state: Seq<FileSlotsModel>, file: int, function: FunctionFactModel) -> Option<OwnerModel> {
    match function.annotation {
        Some(package) => Some(OwnerModel::Pkg(package)),
        None => return_owner(state, file, function.shape),
    }
}

/// What functions bind: what the signature declares decides, and else what they
/// return.
pub open spec fn function_values(state: Seq<FileSlotsModel>, file: int, facts: Seq<FunctionFactModel>) -> Seq<(BindingIdModel, ValueModel)>
    decreases facts.len(),
{
    if facts.len() == 0 {
        Seq::empty()
    } else {
        let before = function_values(state, file, facts.drop_last());
        let fact = facts.last();
        match (match function_owner(state, file, fact) {
            Some(owner) => Some((fact.local, ValueModel::Owned(OwnerModel::FnReturning(Box::new(owner))))),
            None => None,
        }) {
            Some(value) => before.push(value),
            None => before,
        }
    }
}

fn read_functions(state: &Vec<FileSlots>, file: usize, facts: &Vec<FunctionFact>) -> (r: Vec<(BindingId, SlotValue)>)
    ensures
        r.deep_view() == function_values(state.deep_view(), file as int, facts.deep_view()),
{
    let ghost all = facts.deep_view();
    let ghost slots = state.deep_view();
    let mut r: Vec<(BindingId, SlotValue)> = Vec::new();
    let mut i: usize = 0;
    assert(r.deep_view() =~= Seq::<(BindingIdModel, ValueModel)>::empty());
    while i < facts.len()
        invariant
            i <= facts.len(),
            all == facts.deep_view(),
            slots == state.deep_view(),
            r.deep_view() == function_values(slots, file as int, all.take(i as int)),
        decreases facts.len() - i,
    {
        let ghost before = r.deep_view();
        assert(all.take(i + 1).drop_last() =~= all.take(i as int));
        assert(all.take(i + 1).last() == facts@[i as int].deep_view());
        let fact = &facts[i];
        let contributed: Option<(BindingId, SlotValue)> = {
            let owner = match &fact.annotation {
                Some(package) => Some(Owner::Pkg(package.duplicate())),
                None => read_shape(state, file, &fact.shape),
            };
            assert(owner.deep_view() == function_owner(slots, file as int, fact.deep_view()));
            match owner {
                Some(owner) => {
                    let value = SlotValue::Owned(Owner::FnReturning(Box::new(owner)));
                    assert(value.deep_view() == ValueModel::Owned(OwnerModel::FnReturning(Box::new(owner.deep_view()))));
                    Some((fact.local.duplicate(), value))
                },
                None => None,
            }
        };
        match contributed {
            Some(value) => {
                r.push(value);
                assert(r.deep_view() =~= before.push(value.deep_view()));
            },
            None => {},
        }
        i += 1;
    }
    assert(all.take(all.len() as int) =~= all);
    r
}

/// What is bound to a value.
pub open spec fn alias_values(state: Seq<FileSlotsModel>, file: int, facts: Seq<AliasFactModel>) -> Seq<(BindingIdModel, ValueModel)>
    decreases facts.len(),
{
    if facts.len() == 0 {
        Seq::empty()
    } else {
        let before = alias_values(state, file, facts.drop_last());
        let fact = facts.last();
        match (match chain_owner(state, file, fact.value) {
            Some(owner) => Some((fact.local, ValueModel::Owned(owner))),
            None => None,
        }) {
            Some(value) => before.push(value),
            None => before,
        }
    }
}

fn read_aliases(state: &Vec<FileSlots>, file: usize, facts: &Vec<AliasFact>) -> (r: Vec<(BindingId, SlotValue)>)
    ensures
        r.deep_view() == alias_values(state.deep_view(), file as int, facts.deep_view()),
{
    let ghost all = facts.deep_view();
    let ghost slots = state.deep_view();
    let mut r: Vec<(BindingId, SlotValue)> = Vec::new();
    let mut i: usize = 0;
    assert(r.deep_view() =~= Seq::<(BindingIdModel, ValueModel)>::empty());
    while i < facts.len()
        invariant
            i <= facts.len(),
            all == facts.deep_view(),
            slots == state.deep_view(),
            r.deep_view() == alias_values(slots, file as int, all.take(i as int)),
        decreases facts.len() - i,
    {
        let ghost before = r.deep_view();
        assert(all.take(i + 1).drop_last() =~= all.take(i as int));
        assert(all.take(i + 1).last() == facts@[i as int].deep_view());
        let fact = &facts[i];
        let contributed: Option<(BindingId, SlotValue)> = match eval(state, file, &fact.value) {
            Some(owner) => Some((fact.local.duplicate(), SlotValue::Owned(owner))),
            None => None,
        };
        match contributed {
            Some(value) => {
                r.push(value);
                assert(r.deep_view() =~= before.push(value.deep_view()));
            },
            None => {},
        }
        i += 1;
    }
    assert(all.take(all.len() as int) =~= all);
    r
}

/// What a file exports of its own bindings, a conflict too.
pub open spec fn export_values(state: Seq<FileSlotsModel>, file: int, facts: Seq<ExportFactModel>) -> Seq<(Seq<char>, ValueModel)>
    decreases facts.len(),
{
    if facts.len() == 0 {
        Seq::empty()
    } else {
        let before = export_values(state, file, facts.drop_last());
        let fact = facts.last();
        match (if 0 <= file < state.len() && state[file].bindings.contains_key(fact.local) {
            Some((fact.name, state[file].bindings[fact.local]))
        } else {
            None
        }) {
            Some(value) => before.push(value),
            None => before,
        }
    }
}

fn read_exports(state: &Vec<FileSlots>, file: usize, facts: &Vec<ExportFact>) -> (r: Vec<(String, SlotValue)>)
    ensures
        r.deep_view() == export_values(state.deep_view(), file as int, facts.deep_view()),
{
    let ghost all = facts.deep_view();
    let ghost slots = state.deep_view();
    let mut r: Vec<(String, SlotValue)> = Vec::new();
    let mut i: usize = 0;
    assert(r.deep_view() =~= Seq::<(Seq<char>, ValueModel)>::empty());
    while i < facts.len()
        invariant
            i <= facts.len(),
            all == facts.deep_view(),
            slots == state.deep_view(),
            r.deep_view() == export_values(slots, file as int, all.take(i as int)),
        decreases facts.len() - i,
    {
        let ghost before = r.deep_view();
        assert(all.take(i + 1).drop_last() =~= all.take(i as int));
        assert(all.take(i + 1).last() == facts@[i as int].deep_view());
        let fact = &facts[i];
        let contributed: Option<(String, SlotValue)> = if file < state.len() {
            assert(slots[file as int] == state@[file as int].deep_view());
            match state[file].bindings.get(&fact.local) {
                Some(value) => Some((fact.name.clone(), value.duplicate())),
                None => None,
            }
        } else {
            None
        };
        match contributed {
            Some(value) => {
                r.push(value);
                assert(r.deep_view() =~= before.push(value.deep_view()));
            },
            None => {},
        }
        i += 1;
    }
    assert(all.take(all.len() as int) =~= all);
    r
}

/// What a file exports by name from elsewhere.
pub open spec fn reexport_values(state: Seq<FileSlotsModel>, facts: Seq<ReExportFactModel>) -> Seq<(Seq<char>, ValueModel)>
    decreases facts.len(),
{
    if facts.len() == 0 {
        Seq::empty()
    } else {
        let before = reexport_values(state, facts.drop_last());
        let fact = facts.last();
        match (match source_value(state, fact.source) {
            Some(value) => Some((fact.name, value)),
            None => None,
        }) {
            Some(value) => before.push(value),
            None => before,
        }
    }
}

fn read_reexports(state: &Vec<FileSlots>, facts: &Vec<ReExportFact>) -> (r: Vec<(String, SlotValue)>)
    ensures
        r.deep_view() == reexport_values(state.deep_view(), facts.deep_view()),
{
    let ghost all = facts.deep_view();
    let ghost slots = state.deep_view();
    let mut r: Vec<(String, SlotValue)> = Vec::new();
    let mut i: usize = 0;
    assert(r.deep_view() =~= Seq::<(Seq<char>, ValueModel)>::empty());
    while i < facts.len()
        invariant
            i <= facts.len(),
            all == facts.deep_view(),
            slots == state.deep_view(),
            r.deep_view() == reexport_values(slots, all.take(i as int)),
        decreases facts.len() - i,
    {
        let ghost before = r.deep_view();
        assert(all.take(i + 1).drop_last() =~= all.take(i as int));
        assert(all.take(i + 1).last() == facts@[i as int].deep_view());
        let fact = &facts[i];
        let contributed: Option<(String, SlotValue)> = match read_source(state, &fact.source) {
            Some(value) => Some((fact.name.clone(), value)),
            None => None,
        };
        match contributed {
            Some(value) => {
                r.push(value);
                assert(r.deep_view() =~= before.push(value.deep_view()));
            },
            None => {},
        }
        i += 1;
    }
    assert(all.take(all.len() as int) =~= all);
    r
}

/// What static fields are initialised with.
pub open spec fn static_field_values(state: Seq<FileSlotsModel>, file: int, class: usize, facts: Seq<NamedChainModel>) -> Seq<(StaticNameModel, ValueModel)>
    decreases facts.len(),
{
    if facts.len() == 0 {
        Seq::empty()
    } else {
        let before = static_field_values(state, file, class, facts.drop_last());
        let fact = facts.last();
        match (match chain_owner(state, file, fact.chain) {
            Some(owner) => Some((StaticNameModel { class, name: fact.name }, ValueModel::Owned(owner))),
            None => None,
        }) {
            Some(value) => before.push(value),
            None => before,
        }
    }
}

fn read_static_fields(state: &Vec<FileSlots>, file: usize, class: usize, facts: &Vec<NamedChain>) -> (r: Vec<(StaticName, SlotValue)>)
    ensures
        r.deep_view() == static_field_values(state.deep_view(), file as int, class, facts.deep_view()),
{
    let ghost all = facts.deep_view();
    let ghost slots = state.deep_view();
    let mut r: Vec<(StaticName, SlotValue)> = Vec::new();
    let mut i: usize = 0;
    assert(r.deep_view() =~= Seq::<(StaticNameModel, ValueModel)>::empty());
    while i < facts.len()
        invariant
            i <= facts.len(),
            all == facts.deep_view(),
            slots == state.deep_view(),
            r.deep_view() == static_field_values(slots, file as int, class, all.take(i as int)),
        decreases facts.len() - i,
    {
        let ghost before = r.deep_view();
        assert(all.take(i + 1).drop_last() =~= all.take(i as int));
        assert(all.take(i + 1).last() == facts@[i as int].deep_view());
        let fact = &facts[i];
        let contributed: Option<(StaticName, SlotValue)> = match eval(state, file, &fact.chain) {
            Some(owner) => Some((StaticName { class, name: fact.name.clone() }, SlotValue::Owned(owner))),
            None => None,
        };
        match contributed {
            Some(value) => {
                r.push(value);
                assert(r.deep_view() =~= before.push(value.deep_view()));
            },
            None => {},
        }
        i += 1;
    }
    assert(all.take(all.len() as int) =~= all);
    r
}

/// What static methods and getters are. A getter is read, so it holds what it
/// returns; a method is called, so it holds a function.
pub open spec fn static_function_values(state: Seq<FileSlotsModel>, file: int, class: usize, facts: Seq<StaticFunctionModel>) -> Seq<(StaticNameModel, ValueModel)>
    decreases facts.len(),
{
    if facts.len() == 0 {
        Seq::empty()
    } else {
        let before = static_function_values(state, file, class, facts.drop_last());
        let fact = facts.last();
        match (match return_owner(state, file, fact.shape) {
            Some(owner) => Some(
                (
                    StaticNameModel { class, name: fact.name },
                    ValueModel::Owned(
                        if fact.is_getter {
                            owner
                        } else {
                            OwnerModel::FnReturning(Box::new(owner))
                        },
                    ),
                ),
            ),
            None => None,
        }) {
            Some(value) => before.push(value),
            None => before,
        }
    }
}

fn read_static_functions(state: &Vec<FileSlots>, file: usize, class: usize, facts: &Vec<StaticFunction>) -> (r: Vec<(StaticName, SlotValue)>)
    ensures
        r.deep_view() == static_function_values(state.deep_view(), file as int, class, facts.deep_view()),
{
    let ghost all = facts.deep_view();
    let ghost slots = state.deep_view();
    let mut r: Vec<(StaticName, SlotValue)> = Vec::new();
    let mut i: usize = 0;
    assert(r.deep_view() =~= Seq::<(StaticNameModel, ValueModel)>::empty());
    while i < facts.len()
        invariant
            i <= facts.len(),
            all == facts.deep_view(),
            slots == state.deep_view(),
            r.deep_view() == static_function_values(slots, file as int, class, all.take(i as int)),
        decreases facts.len() - i,
    {
        let ghost before = r.deep_view();
        assert(all.take(i + 1).drop_last() =~= all.take(i as int));
        assert(all.take(i + 1).last() == facts@[i as int].deep_view());
        let fact = &facts[i];
        let contributed: Option<(StaticName, SlotValue)> = match read_shape(state, file, &fact.shape) {
            Some(owner) => {
                let value = if fact.is_getter {
                    SlotValue::Owned(owner)
                } else {
                    SlotValue::Owned(Owner::FnReturning(Box::new(owner)))
                };
                Some((StaticName { class, name: fact.name.clone() }, value))
            },
            None => None,
        };
        match contributed {
            Some(value) => {
                r.push(value);
                assert(r.deep_view() =~= before.push(value.deep_view()));
            },
            None => {},
        }
        i += 1;
    }
    assert(all.take(all.len() as int) =~= all);
    r
}

// ---------------------------------------------------------------------------
// Classes
// ---------------------------------------------------------------------------

/// A record with the fields whose declared type names a dependency. The
/// declaration decides.
pub open spec fn with_typed(fields: Map<Seq<char>, PropModel>, typed: Seq<TypedFieldModel>) -> Map<Seq<char>, PropModel>
    decreases typed.len(),
{
    if typed.len() == 0 {
        fields
    } else {
        with_typed(fields, typed.drop_last()).insert(typed.last().name, PropModel::Pkg(typed.last().package))
    }
}

fn add_typed(fields: &mut TextMap<PropValue>, typed: &Vec<TypedField>)
    ensures
        final(fields).deep_view() == with_typed(old(fields).deep_view(), typed.deep_view()),
{
    let ghost start = fields.deep_view();
    let ghost all = typed.deep_view();
    let mut i: usize = 0;
    while i < typed.len()
        invariant
            i <= typed.len(),
            start == old(fields).deep_view(),
            all == typed.deep_view(),
            fields.deep_view() == with_typed(start, all.take(i as int)),
        decreases typed.len() - i,
    {
        let ghost before = fields.deep_view();
        assert(all.take(i + 1).drop_last() =~= all.take(i as int));
        assert(all.take(i + 1).last() == typed@[i as int].deep_view());
        fields.insert(typed[i].name.clone(), PropValue::Pkg(typed[i].package.duplicate()));
        assert(fields.deep_view() =~= before.insert(typed@[i as int].name@, PropModel::Pkg(typed@[i as int].package.deep_view())));
        i += 1;
    }
    assert(all.take(all.len() as int) =~= all);
}

/// The fields that an instance of a class is known to have.
pub open spec fn instance_record(state: Seq<FileSlotsModel>, file: int, class: ClassFactModel) -> Map<Seq<char>, PropModel> {
    with_typed(record_of(state, file, class.instance_fields), class.annotation_fields)
}

/// A record as a slot's value, where it holds something.
pub open spec fn record_value<A>(key: A, fields: Map<Seq<char>, PropModel>) -> Seq<(A, ValueModel)> {
    if fields == Map::<Seq<char>, PropModel>::empty() {
        Seq::empty()
    } else {
        seq![(key, ValueModel::Owned(OwnerModel::Record(fields)))]
    }
}

/// What classes bind: each name the class itself.
pub open spec fn class_bindings(file: usize, classes: Seq<ClassFactModel>) -> Seq<(BindingIdModel, ValueModel)>
    decreases classes.len(),
{
    if classes.len() == 0 {
        Seq::empty()
    } else {
        let before = class_bindings(file, classes.drop_last());
        match classes.last().binding {
            Some(binding) => before.push(
                (binding, ValueModel::Owned(OwnerModel::ClassOf(file, (classes.len() - 1) as usize))),
            ),
            None => before,
        }
    }
}

pub open spec fn class_instances(state: Seq<FileSlotsModel>, file: int, classes: Seq<ClassFactModel>) -> Seq<(usize, ValueModel)>
    decreases classes.len(),
{
    if classes.len() == 0 {
        Seq::empty()
    } else {
        class_instances(state, file, classes.drop_last()) + record_value(
            (classes.len() - 1) as usize,
            instance_record(state, file, classes.last()),
        )
    }
}

pub open spec fn class_statics(state: Seq<FileSlotsModel>, file: int, classes: Seq<ClassFactModel>) -> Seq<
    (StaticNameModel, ValueModel),
>
    decreases classes.len(),
{
    if classes.len() == 0 {
        Seq::empty()
    } else {
        let class = (classes.len() - 1) as usize;
        class_statics(state, file, classes.drop_last()) + static_field_values(
            state,
            file,
            class,
            classes.last().static_fields,
        ) + static_function_values(state, file, class, classes.last().static_functions)
    }
}

fn append<K: DeepView>(list: &mut Vec<(K, SlotValue)>, more: Vec<(K, SlotValue)>)
    ensures
        final(list).deep_view() == old(list).deep_view() + more.deep_view(),
{
    let ghost first = list.deep_view();
    let ghost second = more.deep_view();
    let mut more = more;
    list.append(&mut more);
    assert(list.deep_view() =~= first + second);
}

fn read_class_bindings(file: usize, classes: &Vec<ClassFact>) -> (r: Vec<(BindingId, SlotValue)>)
    ensures
        r.deep_view() == class_bindings(file, classes.deep_view()),
{
    let ghost all = classes.deep_view();
    let mut r: Vec<(BindingId, SlotValue)> = Vec::new();
    let mut i: usize = 0;
    assert(r.deep_view() =~= Seq::<(BindingIdModel, ValueModel)>::empty());
    while i < classes.len()
        invariant
            i <= classes.len(),
            all == classes.deep_view(),
            r.deep_view() == class_bindings(file, all.take(i as int)),
        decreases classes.len() - i,
    {
        let ghost before = r.deep_view();
        assert(all.take(i + 1).drop_last() =~= all.take(i as int));
        assert(all.take(i + 1).last() == classes@[i as int].deep_view());
        match &classes[i].binding {
            Some(binding) => {
                let value = (binding.duplicate(), SlotValue::Owned(Owner::ClassOf(file, i)));
                r.push(value);
                assert(r.deep_view() =~= before.push(value.deep_view()));
            },
            None => {},
        }
        i += 1;
    }
    assert(all.take(all.len() as int) =~= all);
    r
}

fn push_record(list: &mut Vec<(usize, SlotValue)>, class: usize, fields: TextMap<PropValue>)
    ensures
        final(list).deep_view() == old(list).deep_view() + record_value(class, fields.deep_view()),
{
    let ghost before = list.deep_view();
    let ghost model = fields.deep_view();
    if no_fields(&fields) {
        assert(before + Seq::<(usize, ValueModel)>::empty() =~= before);
    } else {
        let value = (class, SlotValue::Owned(Owner::Record(fields)));
        list.push(value);
        assert(list.deep_view() =~= before + record_value(class, model));
    }
}

fn read_class_instances(state: &Vec<FileSlots>, file: usize, classes: &Vec<ClassFact>) -> (r: Vec<(usize, SlotValue)>)
    ensures
        r.deep_view() == class_instances(state.deep_view(), file as int, classes.deep_view()),
{
    let ghost all = classes.deep_view();
    let ghost slots = state.deep_view();
    let mut r: Vec<(usize, SlotValue)> = Vec::new();
    let mut i: usize = 0;
    assert(r.deep_view() =~= Seq::<(usize, ValueModel)>::empty());
    while i < classes.len()
        invariant
            i <= classes.len(),
            all == classes.deep_view(),
            slots == state.deep_view(),
            r.deep_view() == class_instances(slots, file as int, all.take(i as int)),
        decreases classes.len() - i,
    {
        assert(all.take(i + 1).drop_last() =~= all.take(i as int));
        assert(all.take(i + 1).last() == classes@[i as int].deep_view());
        let mut fields = read_record(state, file, &classes[i].instance_fields);
        add_typed(&mut fields, &classes[i].annotation_fields);
        push_record(&mut r, i, fields);
        i += 1;
    }
    assert(all.take(all.len() as int) =~= all);
    r
}

fn read_class_statics(state: &Vec<FileSlots>, file: usize, classes: &Vec<ClassFact>) -> (r: Vec<(StaticName, SlotValue)>)
    ensures
        r.deep_view() == class_statics(state.deep_view(), file as int, classes.deep_view()),
{
    let ghost all = classes.deep_view();
    let ghost slots = state.deep_view();
    let mut r: Vec<(StaticName, SlotValue)> = Vec::new();
    let mut i: usize = 0;
    assert(r.deep_view() =~= Seq::<(StaticNameModel, ValueModel)>::empty());
    while i < classes.len()
        invariant
            i <= classes.len(),
            all == classes.deep_view(),
            slots == state.deep_view(),
            r.deep_view() == class_statics(slots, file as int, all.take(i as int)),
        decreases classes.len() - i,
    {
        assert(all.take(i + 1).drop_last() =~= all.take(i as int));
        assert(all.take(i + 1).last() == classes@[i as int].deep_view());
        let fields = read_static_fields(state, file, i, &classes[i].static_fields);
        append(&mut r, fields);
        let functions = read_static_functions(state, file, i, &classes[i].static_functions);
        append(&mut r, functions);
        i += 1;
    }
    assert(all.take(all.len() as int) =~= all);
    r
}

/// The class of a file that a name is bound to: the first one.
pub open spec fn class_index(classes: Seq<ClassFactModel>, binding: BindingIdModel) -> Option<usize>
    decreases classes.len(),
{
    if classes.len() == 0 {
        None
    } else {
        match class_index(classes.drop_last(), binding) {
            Some(class) => Some(class),
            None => if classes.last().binding == Some(binding) {
                Some((classes.len() - 1) as usize)
            } else {
                None
            },
        }
    }
}

proof fn class_index_found(classes: Seq<ClassFactModel>, binding: BindingIdModel, n: int)
    requires
        0 <= n <= classes.len(),
        class_index(classes.take(n), binding) is Some,
    ensures
        class_index(classes, binding) == class_index(classes.take(n), binding),
    decreases classes.len(),
{
    if n == classes.len() {
        assert(classes.take(n) =~= classes);
    } else {
        assert(classes.drop_last().take(n) =~= classes.take(n));
        class_index_found(classes.drop_last(), binding, n);
    }
}

proof fn class_index_is_in_range(classes: Seq<ClassFactModel>, binding: BindingIdModel)
    requires
        classes.len() <= usize::MAX,
    ensures
        class_index(classes, binding) matches Some(class) ==> class < classes.len(),
    decreases classes.len(),
{
    if classes.len() > 0 {
        class_index_is_in_range(classes.drop_last(), binding);
    }
}

fn find_class(classes: &Vec<ClassFact>, binding: &BindingId) -> (r: Option<usize>)
    ensures
        r == class_index(classes.deep_view(), binding.deep_view()),
        r matches Some(class) ==> class < classes@.len(),
{
    let ghost all = classes.deep_view();
    let ghost name = binding.deep_view();
    let mut i: usize = 0;
    while i < classes.len()
        invariant
            i <= classes.len(),
            all == classes.deep_view(),
            name == binding.deep_view(),
            class_index(all.take(i as int), name) is None,
        decreases classes.len() - i,
    {
        assert(all.take(i + 1).drop_last() =~= all.take(i as int));
        assert(all.take(i + 1).last() == classes@[i as int].deep_view());
        let found = match &classes[i].binding {
            Some(b) => same_binding(b, binding),
            None => false,
        };
        if found {
            proof {
                class_index_found(all, name, i + 1);
            }
            return Some(i);
        }
        i += 1;
    }
    assert(all.take(all.len() as int) =~= all);
    None
}

// ---------------------------------------------------------------------------
// Constructions
// ---------------------------------------------------------------------------

/// A value with the properties of a path read off it.
pub open spec fn with_path(chain: ChainModel, path: Seq<Seq<char>>) -> ChainModel
    decreases path.len(),
{
    if path.len() == 0 {
        chain
    } else {
        extended(with_path(chain, path.drop_last()), StepModel::Prop { name: path.last() })
    }
}

/// The value of a property of an object literal: the last one of that name.
pub open spec fn property_chain(properties: Seq<NamedChainModel>, name: Seq<char>) -> Option<ChainModel>
    decreases properties.len(),
{
    if properties.len() == 0 {
        None
    } else if properties.last().name == name {
        Some(properties.last().chain)
    } else {
        property_chain(properties.drop_last(), name)
    }
}

/// The value that a path read off an argument has. A path into an object
/// literal begins with one of its properties.
pub open spec fn argument_chain(argument: ArgumentModel, path: Seq<Seq<char>>) -> Option<ChainModel> {
    match argument {
        ArgumentModel::Value { chain } => Some(with_path(chain, path)),
        ArgumentModel::Record { properties } => if path.len() == 0 {
            None
        } else {
            match property_chain(properties, path[0]) {
                Some(chain) => Some(with_path(chain, path.skip(1))),
                None => None,
            }
        },
        ArgumentModel::Opaque => None,
    }
}

/// The fields that a construction fills in from its arguments.
pub open spec fn construction_record(
    state: Seq<FileSlotsModel>,
    file: int,
    arguments: Seq<ArgumentModel>,
    params: Seq<ParamFieldModel>,
) -> Map<Seq<char>, PropModel>
    decreases params.len(),
{
    if params.len() == 0 {
        Map::empty()
    } else {
        let before = construction_record(state, file, arguments, params.drop_last());
        let param = params.last();
        if param.position < arguments.len() {
            match argument_chain(arguments[param.position as int], param.path) {
                Some(chain) => match chain_package(state, file, chain) {
                    Some(package) => with_prop(before, param.field, package),
                    None => before,
                },
                None => before,
            }
        } else {
            before
        }
    }
}

/// What constructions tell of the classes that they construct. A class of
/// another file has no constructor here.
pub open spec fn construction_values(
    state: Seq<FileSlotsModel>,
    file: int,
    classes: Seq<ClassFactModel>,
    constructions: Seq<ConstructionFactModel>,
) -> Seq<(usize, ValueModel)>
    decreases constructions.len(),
{
    if constructions.len() == 0 {
        Seq::empty()
    } else {
        let before = construction_values(state, file, classes, constructions.drop_last());
        match class_index(classes, constructions.last().class_binding) {
            Some(class) => before + record_value(
                class,
                construction_record(
                    state,
                    file,
                    constructions.last().arguments,
                    classes[class as int].ctor_param_fields,
                ),
            ),
            None => before,
        }
    }
}

fn follow_path(chain: Chain, path: &Vec<String>, from: usize) -> (r: Chain)
    requires
        from <= path@.len(),
    ensures
        r.deep_view() == with_path(chain.deep_view(), path.deep_view().skip(from as int)),
{
    let ghost start = chain.deep_view();
    let ghost all = path.deep_view().skip(from as int);
    let mut chain = chain;
    let mut i: usize = from;
    assert(all.take(0) =~= Seq::<Seq<char>>::empty());
    while i < path.len()
        invariant
            from <= i <= path.len(),
            all == path.deep_view().skip(from as int),
            chain.deep_view() == with_path(start, all.take(i - from)),
        decreases path.len() - i,
    {
        assert(all.take(i - from + 1).drop_last() =~= all.take(i - from));
        assert(all.take(i - from + 1).last() == path@[i as int]@);
        chain = chain.extended(Step::Prop { name: path[i].clone() });
        i += 1;
    }
    assert(all.take(all.len() as int) =~= all);
    chain
}

fn find_property<'a>(properties: &'a Vec<NamedChain>, name: &str) -> (r: Option<&'a Chain>)
    ensures
        match r {
            Some(chain) => property_chain(properties.deep_view(), name@) == Some(chain.deep_view()),
            None => property_chain(properties.deep_view(), name@) is None,
        },
{
    let ghost all = properties.deep_view();
    let mut i: usize = properties.len();
    assert(all.take(all.len() as int) =~= all);
    while i > 0
        invariant
            i <= properties.len(),
            all == properties.deep_view(),
            property_chain(all, name@) == property_chain(all.take(i as int), name@),
        decreases i,
    {
        i -= 1;
        assert(all.take(i + 1).drop_last() =~= all.take(i as int));
        assert(all.take(i + 1).last() == properties@[i as int].deep_view());
        if same(properties[i].name.as_str(), name) {
            return Some(&properties[i].chain);
        }
    }
    None
}

fn read_argument(argument: &Argument, path: &Vec<String>) -> (r: Option<Chain>)
    ensures
        r.deep_view() == argument_chain(argument.deep_view(), path.deep_view()),
{
    let ghost all = path.deep_view();
    match argument {
        Argument::Value { chain } => {
            assert(all.skip(0) =~= all);
            Some(follow_path(chain.duplicate(), path, 0))
        },
        Argument::Record { properties } => {
            if path.len() == 0 {
                None
            } else {
                assert(all[0] == path@[0]@);
                match find_property(properties, path[0].as_str()) {
                    Some(chain) => Some(follow_path(chain.duplicate(), path, 1)),
                    None => None,
                }
            }
        },
        Argument::Opaque => None,
    }
}

fn read_construction(state: &Vec<FileSlots>, file: usize, arguments: &Vec<Argument>, params: &Vec<ParamField>) -> (r: TextMap<
    PropValue,
>)
    ensures
        r.deep_view() == construction_record(
            state.deep_view(),
            file as int,
            arguments.deep_view(),
            params.deep_view(),
        ),
{
    let ghost all = params.deep_view();
    let ghost given = arguments.deep_view();
    let ghost slots = state.deep_view();
    let mut r: TextMap<PropValue> = TextMap::new();
    let mut i: usize = 0;
    assert(r.deep_view() =~= Map::<Seq<char>, PropModel>::empty());
    assert(given.len() == arguments@.len());
    while i < params.len()
        invariant
            i <= params.len(),
            all == params.deep_view(),
            given == arguments.deep_view(),
            given.len() == arguments@.len(),
            slots == state.deep_view(),
            r.deep_view() == construction_record(slots, file as int, given, all.take(i as int)),
        decreases params.len() - i,
    {
        assert(all.take(i + 1).drop_last() =~= all.take(i as int));
        assert(all.take(i + 1).last() == params@[i as int].deep_view());
        let position: usize = params[i].position;
        if position < arguments.len() {
            assert(given[position as int] == arguments@[position as int].deep_view());
            match read_argument(&arguments[position], &params[i].path) {
                Some(chain) => match resolve_package(state, file, &chain) {
                    Some(package) => insert_prop(&mut r, params[i].field.as_str(), package),
                    None => {},
                },
                None => {},
            }
        }
        i += 1;
    }
    assert(all.take(all.len() as int) =~= all);
    r
}

fn read_constructions(state: &Vec<FileSlots>, file: usize, facts: &FileFacts) -> (r: Vec<(usize, SlotValue)>)
    ensures
        r.deep_view() == construction_values(
            state.deep_view(),
            file as int,
            facts.deep_view().classes,
            facts.deep_view().constructions,
        ),
{
    let ghost all = facts.constructions.deep_view();
    let ghost classes = facts.classes.deep_view();
    let ghost slots = state.deep_view();
    let mut r: Vec<(usize, SlotValue)> = Vec::new();
    let mut i: usize = 0;
    assert(r.deep_view() =~= Seq::<(usize, ValueModel)>::empty());
    while i < facts.constructions.len()
        invariant
            i <= facts.constructions.len(),
            all == facts.constructions.deep_view(),
            classes == facts.classes.deep_view(),
            slots == state.deep_view(),
            r.deep_view() == construction_values(slots, file as int, classes, all.take(i as int)),
        decreases facts.constructions.len() - i,
    {
        assert(all.take(i + 1).drop_last() =~= all.take(i as int));
        assert(all.take(i + 1).last() == facts.constructions@[i as int].deep_view());
        match find_class(&facts.classes, &facts.constructions[i].class_binding) {
            Some(class) => {
                assert(classes[class as int] == facts.classes@[class as int].deep_view());
                let fields = read_construction(
                    state,
                    file,
                    &facts.constructions[i].arguments,
                    &facts.classes[class].ctor_param_fields,
                );
                push_record(&mut r, class, fields);
            },
            None => {},
        }
        i += 1;
    }
    assert(all.take(all.len() as int) =~= all);
    r
}

/// What assignments to a member of a class's name put into its static members.
pub open spec fn assignment_values(
    state: Seq<FileSlotsModel>,
    file: int,
    classes: Seq<ClassFactModel>,
    assignments: Seq<MemberAssignmentModel>,
) -> Seq<(StaticNameModel, ValueModel)>
    decreases assignments.len(),
{
    if assignments.len() == 0 {
        Seq::empty()
    } else {
        let before = assignment_values(state, file, classes, assignments.drop_last());
        let assignment = assignments.last();
        match (class_index(classes, assignment.target), chain_owner(state, file, assignment.value)) {
            (Some(class), Some(owner)) => before.push(
                (StaticNameModel { class, name: assignment.field }, ValueModel::Owned(owner)),
            ),
            _ => before,
        }
    }
}

fn read_assignments(state: &Vec<FileSlots>, file: usize, facts: &FileFacts) -> (r: Vec<(StaticName, SlotValue)>)
    ensures
        r.deep_view() == assignment_values(
            state.deep_view(),
            file as int,
            facts.deep_view().classes,
            facts.deep_view().member_assignments,
        ),
{
    let ghost all = facts.member_assignments.deep_view();
    let ghost classes = facts.classes.deep_view();
    let ghost slots = state.deep_view();
    let mut r: Vec<(StaticName, SlotValue)> = Vec::new();
    let mut i: usize = 0;
    assert(r.deep_view() =~= Seq::<(StaticNameModel, ValueModel)>::empty());
    while i < facts.member_assignments.len()
        invariant
            i <= facts.member_assignments.len(),
            all == facts.member_assignments.deep_view(),
            classes == facts.classes.deep_view(),
            slots == state.deep_view(),
            r.deep_view() == assignment_values(slots, file as int, classes, all.take(i as int)),
        decreases facts.member_assignments.len() - i,
    {
        let ghost before = r.deep_view();
        let assignment = &facts.member_assignments[i];
        assert(all.take(i + 1).drop_last() =~= all.take(i as int));
        assert(all.take(i + 1).last() == assignment.deep_view());
        match find_class(&facts.classes, &assignment.target) {
            Some(class) => match eval(state, file, &assignment.value) {
                Some(owner) => {
                    let value = (StaticName { class, name: assignment.field.clone() }, SlotValue::Owned(owner));
                    r.push(value);
                    assert(r.deep_view() =~= before.push(value.deep_view()));
                },
                None => {},
            },
            None => {},
        }
        i += 1;
    }
    assert(all.take(all.len() as int) =~= all);
    r
}

// ---------------------------------------------------------------------------
// Exports of whole files
// ---------------------------------------------------------------------------

/// Two tables joined slot by slot.
pub open spec fn tables_joined<A>(a: Map<A, ValueModel>, b: Map<A, ValueModel>) -> Map<A, ValueModel> {
    Map::new(
        |key: A| a.contains_key(key) || b.contains_key(key),
        |key: A|
            if !b.contains_key(key) {
                a[key]
            } else {
                joined_at(a, key, b[key])[key]
            },
    )
}

/// A table of exports with those of other files.
pub open spec fn with_stars(exports: Map<Seq<char>, ValueModel>, state: Seq<FileSlotsModel>, stars: Seq<usize>) -> Map<
    Seq<char>,
    ValueModel,
>
    decreases stars.len(),
{
    if stars.len() == 0 {
        exports
    } else {
        let before = with_stars(exports, state, stars.drop_last());
        if stars.last() < state.len() {
            tables_joined(before, state[stars.last() as int].exports)
        } else {
            before
        }
    }
}

proof fn slots_of_next(entries: Seq<(String, SlotValue)>, i: int)
    requires
        keys_differ(entries),
        0 <= i < entries.len(),
    ensures
        slots_of(entries.take(i + 1)) == slots_of(entries.take(i)).insert(entries[i].0@, entries[i].1.deep_view()),
        !slots_of(entries.take(i)).contains_key(entries[i].0@),
{
    let shorter = entries.take(i);
    let longer = entries.take(i + 1);
    assert(longer =~= shorter.push(entries[i]));
    assert(keys_differ(shorter)) by {
        assert forall|a: int, b: int| 0 <= a < b < shorter.len() implies (#[trigger] shorter[a]).0.deep_view() != (
        #[trigger] shorter[b]).0.deep_view() by {
            assert(entries[a].0.deep_view() != entries[b].0.deep_view());
        }
    }
    assert(keys_differ(longer)) by {
        assert forall|a: int, b: int| 0 <= a < b < longer.len() implies (#[trigger] longer[a]).0.deep_view() != (
        #[trigger] longer[b]).0.deep_view() by {
            assert(entries[a].0.deep_view() != entries[b].0.deep_view());
        }
    }
    assert(!holds_slot(shorter, entries[i].0.deep_view())) by {
        if holds_slot(shorter, entries[i].0.deep_view()) {
            let j = slot_place(shorter, entries[i].0.deep_view());
            assert(entries[j].0.deep_view() != entries[i].0.deep_view());
        }
    }
    crate::external_call_candidates::slots::slots_after_push(shorter, entries[i]);
}

fn join_table(slots: &mut Slots<String>, more: &Slots<String>) -> (changed: bool)
    ensures
        final(slots).deep_view() == tables_joined(old(slots).deep_view(), more.deep_view()),
        !changed ==> final(slots).deep_view() == old(slots).deep_view(),
{
    let ghost start = slots.deep_view();
    let ghost all = more.listing();
    let count: usize = more.len();
    let mut changed = false;
    let mut i: usize = 0;
    proof {
        assert(slots_of(all.take(0)) =~= Map::<Seq<char>, ValueModel>::empty());
        assert(tables_joined(start, Map::empty()) =~= start);
    }
    while i < count
        invariant
            i <= count,
            start == old(slots).deep_view(),
            all == more.listing(),
            count == all.len(),
            keys_differ(all),
            slots.deep_view() == tables_joined(start, slots_of(all.take(i as int))),
            !changed ==> slots.deep_view() == start,
        decreases count - i,
    {
        let (key, value) = more.entry(i);
        let ghost before = slots.deep_view();
        let ghost so_far = slots_of(all.take(i as int));
        proof {
            slots_of_next(all, i as int);
            assert(!so_far.contains_key(key@));
            assert(before.contains_key(key@) == start.contains_key(key@));
            assert(start.contains_key(key@) ==> before[key@] == start[key@]);
        }
        if slots.join(key.clone(), value) {
            changed = true;
        }
        proof {
            let next = tables_joined(start, so_far.insert(key@, value.deep_view()));
            let now = joined_at(before, key@, value.deep_view());
            assert(next[key@] == now[key@]);
            assert forall|k: Seq<char>| now.contains_key(k) && k != key@ implies #[trigger] next[k] == now[k] by {}
            assert(now =~= next);
        }
        i += 1;
    }
    assert(all.take(all.len() as int) =~= all);
    changed
}

fn join_stars(slots: &mut Slots<String>, state: &Vec<FileSlots>, stars: &Vec<usize>) -> (changed: bool)
    ensures
        final(slots).deep_view() == with_stars(old(slots).deep_view(), state.deep_view(), stars@),
        !changed ==> final(slots).deep_view() == old(slots).deep_view(),
{
    let ghost start = slots.deep_view();
    let ghost files = state.deep_view();
    let mut changed = false;
    let mut i: usize = 0;
    while i < stars.len()
        invariant
            i <= stars.len(),
            start == old(slots).deep_view(),
            files == state.deep_view(),
            slots.deep_view() == with_stars(start, files, stars@.take(i as int)),
            !changed ==> slots.deep_view() == start,
        decreases stars.len() - i,
    {
        assert(stars@.take(i + 1).drop_last() =~= stars@.take(i as int));
        assert(stars@.take(i + 1).last() == stars@[i as int]);
        let star: usize = stars[i];
        if star < state.len() {
            assert(files[star as int] == state@[star as int].deep_view());
            if join_table(slots, &state[star].exports) {
                changed = true;
            }
        }
        i += 1;
    }
    assert(stars@.take(stars@.len() as int) =~= stars@);
    changed
}

// ---------------------------------------------------------------------------
// Rounds
// ---------------------------------------------------------------------------

/// The slots of a file with its facts joined in, read against what was known.
pub open spec fn applied(
    state: Seq<FileSlotsModel>,
    known: FileSlotsModel,
    file: usize,
    facts: FileFactsModel,
) -> FileSlotsModel {
    let at = file as int;
    FileSlotsModel {
        bindings: joined_all(
            known.bindings,
            import_values(state, facts.imports) + class_bindings(file, facts.classes) + function_values(
                state,
                at,
                facts.functions,
            ) + alias_values(state, at, facts.aliases),
        ),
        exports: with_stars(
            joined_all(known.exports, export_values(state, at, facts.exports) + reexport_values(state, facts.reexports)),
            state,
            facts.star_exports,
        ),
        instances: joined_all(
            known.instances,
            class_instances(state, at, facts.classes) + construction_values(
                state,
                at,
                facts.classes,
                facts.constructions,
            ),
        ),
        statics: joined_all(
            known.statics,
            class_statics(state, at, facts.classes) + assignment_values(
                state,
                at,
                facts.classes,
                facts.member_assignments,
            ),
        ),
    }
}

/// What is becoming known with the facts of one file joined in, read against what
/// was known before.
pub open spec fn with_facts(
    previous: Seq<FileSlotsModel>,
    next: Seq<FileSlotsModel>,
    file: usize,
    facts: FileFactsModel,
) -> Seq<FileSlotsModel> {
    next.update(file as int, applied(previous, next[file as int], file, facts))
}

fn apply_facts(file: usize, facts: &FileFacts, previous: &Vec<FileSlots>, next: &mut Vec<FileSlots>) -> (changed: bool)
    requires
        file < previous@.len(),
        file < old(next)@.len(),
    ensures
        final(next)@.len() == old(next)@.len(),
        final(next).deep_view() == with_facts(previous.deep_view(), old(next).deep_view(), file, facts.deep_view()),
        !changed ==> final(next).deep_view() == old(next).deep_view(),
{
    let ghost before = next.deep_view();
    assert(before[file as int] == next@[file as int].deep_view());
    let mut own = next[file].duplicate();

    let mut bindings = read_imports(previous, &facts.imports);
    append(&mut bindings, read_class_bindings(file, &facts.classes));
    append(&mut bindings, read_functions(previous, file, &facts.functions));
    append(&mut bindings, read_aliases(previous, file, &facts.aliases));
    let bound = join_all(&mut own.bindings, bindings);

    let mut exports = read_exports(previous, file, &facts.exports);
    append(&mut exports, read_reexports(previous, &facts.reexports));
    let exported = join_all(&mut own.exports, exports);
    let starred = join_stars(&mut own.exports, previous, &facts.star_exports);

    let mut instances = read_class_instances(previous, file, &facts.classes);
    append(&mut instances, read_constructions(previous, file, facts));
    let built = join_all(&mut own.instances, instances);

    let mut statics = read_class_statics(previous, file, &facts.classes);
    append(&mut statics, read_assignments(previous, file, facts));
    let stored = join_all(&mut own.statics, statics);

    let ghost joined = own.deep_view();
    next.set(file, own);
    assert(next.deep_view() =~= before.update(file as int, joined));
    bound || exported || starred || built || stored
}

/// What is known once every file has had its round.
pub open spec fn round(state: Seq<FileSlotsModel>, facts: Seq<FileFactsModel>) -> Seq<FileSlotsModel> {
    Seq::new(state.len(), |file: int| applied(state, state[file], file as usize, facts[file]))
}

/// What is known after a number of rounds.
pub open spec fn rounds(facts: Seq<FileFactsModel>, n: nat) -> Seq<FileSlotsModel>
    decreases n,
{
    if n == 0 {
        Seq::new(facts.len(), |file: int| no_slots())
    } else {
        round(rounds(facts, (n - 1) as nat), facts)
    }
}

/// Once a round changes nothing, no later round does.
pub proof fn settled_stays_settled(facts: Seq<FileFactsModel>, n: nat, later: nat)
    requires
        rounds(facts, n + 1) == rounds(facts, n),
        n <= later,
    ensures
        rounds(facts, later) == rounds(facts, n),
    decreases later,
{
    if n < later {
        settled_stays_settled(facts, n, (later - 1) as nat);
    }
}

fn run_round(state: &Vec<FileSlots>, facts: &Vec<FileFacts>) -> (r: (Vec<FileSlots>, bool))
    requires
        state@.len() == facts@.len(),
    ensures
        r.0@.len() == state@.len(),
        r.0.deep_view() == round(state.deep_view(), facts.deep_view()),
        !r.1 ==> r.0.deep_view() == state.deep_view(),
{
    let ghost known = state.deep_view();
    let ghost said = facts.deep_view();
    let ghost after = round(known, said);
    let mut next = duplicate_all(state);
    let mut changed = false;
    let mut i: usize = 0;
    assert(next.deep_view().len() == next@.len());
    assert(known.len() == state@.len());
    assert(next.deep_view() =~= after.take(0) + known.skip(0));
    while i < state.len()
        invariant
            i <= state.len(),
            state@.len() == facts@.len(),
            known == state.deep_view(),
            known.len() == state@.len(),
            said == facts.deep_view(),
            after == round(known, said),
            next@.len() == state@.len(),
            next.deep_view() == after.take(i as int) + known.skip(i as int),
            !changed ==> next.deep_view() == known,
        decreases state.len() - i,
    {
        let ghost before = next.deep_view();
        assert(said[i as int] == facts@[i as int].deep_view());
        assert(before[i as int] == known[i as int]);
        if apply_facts(i, &facts[i], state, &mut next) {
            changed = true;
        }
        assert(next.deep_view() =~= after.take(i + 1) + known.skip(i + 1));
        i += 1;
    }
    assert(next.deep_view() =~= after);
    (next, changed)
}

/// What every slot of a workspace is known to hold, once nothing changes any
/// more or the rounds are used up.
pub fn resolve_ownership(facts: &Vec<FileFacts>) -> (r: Vec<FileSlots>)
    ensures
        r@.len() == facts@.len(),
        r.deep_view() == rounds(facts.deep_view(), MAX_FIXPOINT_ROUNDS as nat),
{
    let ghost said = facts.deep_view();
    let mut state: Vec<FileSlots> = Vec::new();
    let mut i: usize = 0;
    let ghost nothing = rounds(said, 0);
    assert(state.deep_view() =~= nothing.take(0));
    while i < facts.len()
        invariant
            i <= facts.len(),
            said == facts.deep_view(),
            nothing == rounds(said, 0),
            state@.len() == i,
            state.deep_view() == nothing.take(i as int),
        decreases facts.len() - i,
    {
        let ghost before = state.deep_view();
        let slots = FileSlots { bindings: Slots::new(), exports: Slots::new(), instances: Slots::new(), statics: Slots::new() };
        state.push(slots);
        assert(state.deep_view() =~= before.push(no_slots()));
        assert(nothing.take(i + 1) =~= nothing.take(i as int).push(no_slots()));
        i += 1;
    }
    assert(nothing.take(nothing.len() as int) =~= nothing);
    let mut n: usize = 0;
    while n < MAX_FIXPOINT_ROUNDS
        invariant
            n <= MAX_FIXPOINT_ROUNDS,
            said == facts.deep_view(),
            state@.len() == facts@.len(),
            state.deep_view() == rounds(said, n as nat),
        decreases MAX_FIXPOINT_ROUNDS - n,
    {
        let (next, changed) = run_round(&state, facts);
        if !changed {
            proof {
                assert(rounds(said, (n + 1) as nat) == rounds(said, n as nat));
                settled_stays_settled(said, n as nat, MAX_FIXPOINT_ROUNDS as nat);
            }
            return state;
        }
        state = next;
        n += 1;
    }
    state
}

// ---------------------------------------------------------------------------
// What holds of every round
// ---------------------------------------------------------------------------

/// A value is at least as much as another: joining the other in changes nothing.
pub open spec fn is_above(value: ValueModel, other: ValueModel) -> bool {
    join_values(other, value) == value
}

/// A table knows all that another knows: each slot is there and holds at least
/// as much.
pub open spec fn table_grows<A>(before: Map<A, ValueModel>, after: Map<A, ValueModel>) -> bool {
    forall|key: A| #[trigger] before.contains_key(key) ==> after.contains_key(key) && is_above(after[key], before[key])
}

proof fn above_all_below(low: ValueModel, middle: ValueModel, high: ValueModel)
    requires
        is_above(middle, low),
        is_above(high, middle),
    ensures
        is_above(high, low),
{
    join_associates(low, middle, high);
}

proof fn a_join_is_above(known: ValueModel, value: ValueModel)
    ensures
        is_above(join_values(known, value), known),
{
    join_associates(known, known, value);
    join_is_idempotent(known);
}

proof fn a_join_grows<A>(slots: Map<A, ValueModel>, key: A, value: ValueModel)
    ensures
        table_grows(slots, joined_at(slots, key, value)),
{
    assert forall|other: A| #[trigger] slots.contains_key(other) implies joined_at(slots, key, value).contains_key(other)
        && is_above(joined_at(slots, key, value)[other], slots[other]) by {
        join_is_idempotent(slots[other]);
        a_join_is_above(slots[other], value);
    }
}

proof fn growth_adds_up<A>(a: Map<A, ValueModel>, b: Map<A, ValueModel>, c: Map<A, ValueModel>)
    requires
        table_grows(a, b),
        table_grows(b, c),
    ensures
        table_grows(a, c),
{
    assert forall|key: A| #[trigger] a.contains_key(key) implies c.contains_key(key) && is_above(c[key], a[key]) by {
        assert(b.contains_key(key));
        above_all_below(a[key], b[key], c[key]);
    }
}

proof fn joins_grow<A>(slots: Map<A, ValueModel>, values: Seq<(A, ValueModel)>)
    ensures
        table_grows(slots, joined_all(slots, values)),
    decreases values.len(),
{
    if values.len() == 0 {
        assert forall|key: A| #[trigger] slots.contains_key(key) implies is_above(slots[key], slots[key]) by {
            join_is_idempotent(slots[key]);
        }
    } else {
        let before = joined_all(slots, values.drop_last());
        joins_grow(slots, values.drop_last());
        a_join_grows(before, values.last().0, values.last().1);
        growth_adds_up(slots, before, joined_all(slots, values));
    }
}

proof fn stars_grow(exports: Map<Seq<char>, ValueModel>, state: Seq<FileSlotsModel>, stars: Seq<usize>)
    ensures
        table_grows(exports, with_stars(exports, state, stars)),
    decreases stars.len(),
{
    if stars.len() == 0 {
        assert forall|key: Seq<char>| #[trigger] exports.contains_key(key) implies is_above(exports[key], exports[key]) by {
            join_is_idempotent(exports[key]);
        }
    } else {
        let before = with_stars(exports, state, stars.drop_last());
        let after = with_stars(exports, state, stars);
        stars_grow(exports, state, stars.drop_last());
        assert forall|key: Seq<char>| #[trigger] before.contains_key(key) implies after.contains_key(key) && is_above(
            after[key],
            before[key],
        ) by {
            join_is_idempotent(before[key]);
            if stars.last() < state.len() {
                a_join_is_above(before[key], state[stars.last() as int].exports[key]);
            }
        }
        growth_adds_up(exports, before, after);
    }
}

/// A slot holds more than it did, or the same: a conflict stays a conflict, and
/// what is owned stays owned by as much or becomes a conflict.
pub open spec fn moves_up(before: ValueModel, after: ValueModel) -> bool {
    match before {
        ValueModel::Conflict => after is Conflict,
        ValueModel::Owned(owner) => match after {
            ValueModel::Conflict => true,
            ValueModel::Owned(other) => join_owners(owner, other) == after,
        },
    }
}

/// Every slot of a table is there afterwards, and holds more or the same.
pub open spec fn slots_move_up<A>(before: Map<A, ValueModel>, after: Map<A, ValueModel>) -> bool {
    forall|key: A| #[trigger] before.contains_key(key) ==> after.contains_key(key) && moves_up(before[key], after[key])
}

proof fn growth_moves_up<A>(before: Map<A, ValueModel>, after: Map<A, ValueModel>)
    requires
        table_grows(before, after),
    ensures
        slots_move_up(before, after),
{
    assert forall|key: A| #[trigger] before.contains_key(key) implies after.contains_key(key) && moves_up(
        before[key],
        after[key],
    ) by {
        assert(is_above(after[key], before[key]));
    }
}

/// Joining the facts of a file in only ever moves slots up, whatever was known
/// before and whatever is known already; the slots of other files stay.
pub proof fn facts_only_add(
    previous: Seq<FileSlotsModel>,
    next: Seq<FileSlotsModel>,
    file: usize,
    facts: FileFactsModel,
    other: int,
)
    requires
        file < next.len(),
        0 <= other < next.len(),
    ensures
        ({
            let after = with_facts(previous, next, file, facts);
            &&& after.len() == next.len()
            &&& slots_move_up(next[other].bindings, after[other].bindings)
            &&& slots_move_up(next[other].exports, after[other].exports)
            &&& slots_move_up(next[other].instances, after[other].instances)
            &&& slots_move_up(next[other].statics, after[other].statics)
            &&& other != file ==> after[other] == next[other]
        }),
{
    let after = with_facts(previous, next, file, facts);
    if other == file {
        applied_grows(previous, next[other], file, facts);
    } else {
        joins_grow(next[other].bindings, Seq::empty());
        joins_grow(next[other].exports, Seq::empty());
        joins_grow(next[other].instances, Seq::empty());
        joins_grow(next[other].statics, Seq::empty());
    }
    growth_moves_up(next[other].bindings, after[other].bindings);
    growth_moves_up(next[other].exports, after[other].exports);
    growth_moves_up(next[other].instances, after[other].instances);
    growth_moves_up(next[other].statics, after[other].statics);
}

proof fn applied_grows(state: Seq<FileSlotsModel>, known: FileSlotsModel, file: usize, said: FileFactsModel)
    ensures
        table_grows(known.bindings, applied(state, known, file, said).bindings),
        table_grows(known.exports, applied(state, known, file, said).exports),
        table_grows(known.instances, applied(state, known, file, said).instances),
        table_grows(known.statics, applied(state, known, file, said).statics),
{
    let at = file as int;
    joins_grow(
        known.bindings,
        import_values(state, said.imports) + class_bindings(file, said.classes) + function_values(
            state,
            at,
            said.functions,
        ) + alias_values(state, at, said.aliases),
    );
    let exported = export_values(state, at, said.exports) + reexport_values(state, said.reexports);
    joins_grow(known.exports, exported);
    stars_grow(joined_all(known.exports, exported), state, said.star_exports);
    growth_adds_up(known.exports, joined_all(known.exports, exported), applied(state, known, file, said).exports);
    joins_grow(
        known.instances,
        class_instances(state, at, said.classes) + construction_values(state, at, said.classes, said.constructions),
    );
    joins_grow(
        known.statics,
        class_statics(state, at, said.classes) + assignment_values(state, at, said.classes, said.member_assignments),
    );
}

/// A round never forgets: what a binding, an export, an instance or a static
/// member is known to hold stays known, and what it holds only grows.
pub proof fn rounds_only_add(state: Seq<FileSlotsModel>, facts: Seq<FileFactsModel>, file: int)
    requires
        0 <= file < state.len(),
        state.len() <= usize::MAX,
    ensures
        table_grows(state[file].bindings, round(state, facts)[file].bindings),
        table_grows(state[file].exports, round(state, facts)[file].exports),
        table_grows(state[file].instances, round(state, facts)[file].instances),
        table_grows(state[file].statics, round(state, facts)[file].statics),
{
    applied_grows(state, state[file], file as usize, facts[file]);
}

/// What is known after some rounds is known after more.
pub proof fn later_rounds_know_more(facts: Seq<FileFactsModel>, n: nat, later: nat, file: int)
    requires
        n <= later,
        0 <= file < facts.len(),
        facts.len() <= usize::MAX,
    ensures
        rounds(facts, later).len() == facts.len(),
        table_grows(rounds(facts, n)[file].bindings, rounds(facts, later)[file].bindings),
        table_grows(rounds(facts, n)[file].exports, rounds(facts, later)[file].exports),
        table_grows(rounds(facts, n)[file].instances, rounds(facts, later)[file].instances),
        table_grows(rounds(facts, n)[file].statics, rounds(facts, later)[file].statics),
    decreases later,
{
    let first = rounds(facts, n)[file];
    if n == later {
        joins_grow(first.bindings, Seq::empty());
        joins_grow(first.exports, Seq::empty());
        joins_grow(first.instances, Seq::empty());
        joins_grow(first.statics, Seq::empty());
        if later > 0 {
            later_rounds_know_more(facts, (later - 1) as nat, (later - 1) as nat, file);
        }
    } else {
        let before = rounds(facts, (later - 1) as nat);
        let last = rounds(facts, later)[file];
        later_rounds_know_more(facts, n, (later - 1) as nat, file);
        rounds_only_add(before, facts, file);
        growth_adds_up(first.bindings, before[file].bindings, last.bindings);
        growth_adds_up(first.exports, before[file].exports, last.exports);
        growth_adds_up(first.instances, before[file].instances, last.instances);
        growth_adds_up(first.statics, before[file].statics, last.statics);
    }
}

/// Of two things that become known in one round it does not matter which is
/// joined in first.
pub proof fn joins_commute<A>(slots: Map<A, ValueModel>, first: (A, ValueModel), second: (A, ValueModel))
    ensures
        joined_at(joined_at(slots, first.0, first.1), second.0, second.1) == joined_at(
            joined_at(slots, second.0, second.1),
            first.0,
            first.1,
        ),
{
    let a = joined_at(joined_at(slots, first.0, first.1), second.0, second.1);
    let b = joined_at(joined_at(slots, second.0, second.1), first.0, first.1);
    if first.0 == second.0 {
        join_commutes(first.1, second.1);
        if slots.contains_key(first.0) {
            let v = slots[first.0];
            join_associates(v, first.1, second.1);
            join_associates(v, second.1, first.1);
        }
    }
    assert(a =~= b);
}

} // verus!
