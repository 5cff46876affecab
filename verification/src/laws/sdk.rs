//! What the calls into packages are for.

use crate::external_call_candidates::collect::{
    chain_of, class_in_node, class_of, constructor_params, declared_class, destructured, facts_of, gathered,
    gathered_class, gathered_first, imported_module, items_gathered, no_class, own_name, plain_is_within, target_of,
    with_bound_imports, with_declared_exports, with_destructured, with_edge, with_export_specifiers, with_item,
    with_items, with_members, with_node, with_specifiers, ClassContextModel, TargetModel,
};
use crate::external_call_candidates::facts::{
    chain_text, no_facts, steps_text, AliasFactModel, BindingIdModel, CallSiteModel, ChainModel, ClassFactModel,
    ExportFactModel, FileFactsModel, FunctionFactModel, ImportFactModel, NamedChainModel, PkgRefModel,
    ReExportFactModel, RootModel, SourceModel, StepModel,
};
use crate::external_call_candidates::ownership::{
    join_associates, join_commutes, join_is_idempotent, join_values, OwnerModel, PropModel, ValueModel,
};
use crate::external_call_candidates::resolution::{
    alias_values, applied, chain_owner, class_bindings, evaluated, export_values, function_values, import_values,
    no_slots, record_of, reexport_values, return_owner, round, rounds, source_value, with_prop, with_stars,
    FileSlotsModel, MAX_FIXPOINT_ROUNDS,
};
use crate::external_call_candidates::slots::{joined_all, StaticNameModel};
use crate::external_call_candidates::workspace::{
    a_service_takes_the_rows_of_its_files, is_row_of, is_shipped, shipped_rows, site_row,
};
use crate::external_call_candidates::{CallMechanism, ExternalCallCandidateModel};
use crate::syntax::{children, children_are_smaller, ExportSpecifier, ImportSpecifier, Module, ModuleItem, Node, Pattern, Wrapper};
use vstd::prelude::*;

verus! {

// ---------------------------------------------------------------------------
// Chains
// ---------------------------------------------------------------------------

/// What is called as it is written: a name or `this`, and behind it members
/// behind dots and calls as empty brackets. Brackets, type assertions and
/// `await` around any part leave no trace.
pub open spec fn written(node: Node, in_class: bool) -> Option<Seq<char>>
    decreases node,
{
    match node {
        Node::Wrapped { wrapper, inner } => if wrapper == Wrapper::ConstAssertion {
            None
        } else {
            written(*inner, in_class)
        },
        Node::Ident(name) => Some(name.symbol@),
        Node::This => if in_class {
            Some("this"@)
        } else {
            None
        },
        Node::Member { object, property } => behind(written(*object, in_class), "."@ + property@),
        Node::OptMember { object, property } => behind(written(*object, in_class), "."@ + property@),
        Node::Call { callee, .. } => behind(written(*callee, in_class), "()"@),
        Node::OptCall { callee, .. } => behind(written(*callee, in_class), "()"@),
        Node::New { callee, .. } => behind(written(*callee, in_class), "()"@),
        _ => None,
    }
}

pub open spec fn behind(text: Option<Seq<char>>, more: Seq<char>) -> Option<Seq<char>> {
    match text {
        Some(text) => Some(text + more),
        None => None,
    }
}

proof fn a_longer_chain_reads_longer(chain: ChainModel, step: StepModel, more: Seq<char>)
    requires
        more == (match step {
            StepModel::Prop { name } => "."@ + name,
            StepModel::Call => "()"@,
        }),
    ensures
        chain_text(ChainModel { root: chain.root, steps: chain.steps.push(step) }) == chain_text(chain) + more,
{
    let steps = chain.steps.push(step);
    assert(steps.drop_last() =~= chain.steps);
    let head = match chain.root {
        RootModel::Binding { id } => id.symbol,
        RootModel::This { .. } => "this"@,
    };
    assert(head + (steps_text(chain.steps) + more) =~= head + steps_text(chain.steps) + more);
}

/// An expression has a chain exactly where it can be written as one, and the
/// chain reads as it is written.
pub proof fn a_chain_reads_as_it_is_written(node: Node, class: Option<usize>)
    ensures
        match (chain_of(node, class), written(node, class is Some)) {
            (Some(chain), Some(text)) => chain_text(chain) == text,
            (None, None) => true,
            _ => false,
        },
    decreases node,
{
    match node {
        Node::Wrapped { wrapper, inner } => {
            a_chain_reads_as_it_is_written(*inner, class);
        },
        Node::Ident(name) => {
            assert(name.symbol@ + Seq::<char>::empty() =~= name.symbol@);
        },
        Node::This => {
            assert("this"@ + Seq::<char>::empty() =~= "this"@);
        },
        Node::Member { object, property } => {
            a_chain_reads_as_it_is_written(*object, class);
            if chain_of(*object, class) is Some {
                a_longer_chain_reads_longer(
                    chain_of(*object, class)->0,
                    StepModel::Prop { name: property@ },
                    "."@ + property@,
                );
            }
        },
        Node::OptMember { object, property } => {
            a_chain_reads_as_it_is_written(*object, class);
            if chain_of(*object, class) is Some {
                a_longer_chain_reads_longer(
                    chain_of(*object, class)->0,
                    StepModel::Prop { name: property@ },
                    "."@ + property@,
                );
            }
        },
        Node::Call { callee, .. } => {
            a_chain_reads_as_it_is_written(*callee, class);
            if chain_of(*callee, class) is Some {
                a_longer_chain_reads_longer(chain_of(*callee, class)->0, StepModel::Call, "()"@);
            }
        },
        Node::OptCall { callee, .. } => {
            a_chain_reads_as_it_is_written(*callee, class);
            if chain_of(*callee, class) is Some {
                a_longer_chain_reads_longer(chain_of(*callee, class)->0, StepModel::Call, "()"@);
            }
        },
        Node::New { callee, .. } => {
            a_chain_reads_as_it_is_written(*callee, class);
            if chain_of(*callee, class) is Some {
                a_longer_chain_reads_longer(chain_of(*callee, class)->0, StepModel::Call, "()"@);
            }
        },
        _ => {},
    }
}

// ---------------------------------------------------------------------------
// Rows
// ---------------------------------------------------------------------------

/// The row is that of a call at a place of a file, on something that comes from a
/// package.
pub open spec fn is_call_into(
    row: ExternalCallCandidateModel,
    files: Seq<Seq<char>>,
    state: Seq<FileSlotsModel>,
    file: int,
    site: CallSiteModel,
    package: PkgRefModel,
) -> bool {
    &&& chain_owner(state, file, site.callee) == Some(OwnerModel::Pkg(package))
    &&& row.file == files[file]
    &&& row.line == site.line
    &&& row.callee == chain_text(site.callee)
    &&& row.package == package.package
    &&& row.import_symbol == package.import_symbol
    &&& row.subpath == package.subpath
    &&& row.mechanism == CallMechanism::Sdk
}

/// The rows of a service are the calls in the files that it ships whose callee
/// comes from a package, each with its place, what is called as it is written,
/// and the package, export and subpath that it comes from; and there is one for
/// every such call.
pub proof fn a_row_is_a_call_into_a_package(
    files: Seq<Seq<char>>,
    facts: Seq<FileFactsModel>,
    service_files: Seq<Seq<char>>,
    repo_root: Seq<char>,
    row: ExternalCallCandidateModel,
)
    ensures
        shipped_rows(files, facts, service_files, repo_root, facts.len()).contains(row) <==> exists|
            i: int,
            k: int,
            package: PkgRefModel,
        |
            0 <= i < facts.len() && is_shipped(files, facts, service_files, repo_root, i) && 0 <= k < facts[i].call_sites.len()
                && #[trigger] is_call_into(
                row,
                files,
                rounds(facts, MAX_FIXPOINT_ROUNDS as nat),
                i,
                facts[i].call_sites[k],
                package,
            ),
{
    let state = rounds(facts, MAX_FIXPOINT_ROUNDS as nat);
    a_service_takes_the_rows_of_its_files(files, facts, service_files, repo_root, facts.len(), row);
    let all = shipped_rows(files, facts, service_files, repo_root, facts.len());
    if all.contains(row) {
        let i = choose|i: int|
            0 <= i < facts.len() && is_shipped(files, facts, service_files, repo_root, i) && #[trigger] is_row_of(
                files,
                facts,
                i,
                row,
            );
        let k = choose|k: int|
            0 <= k < facts[i].call_sites.len() && site_row(files, state, i, #[trigger] facts[i].call_sites[k]) == Some(row);
        let owner = chain_owner(state, i, facts[i].call_sites[k].callee)->0;
        assert(is_call_into(row, files, state, i, facts[i].call_sites[k], owner->Pkg_0));
    }
    if exists|i: int, k: int, package: PkgRefModel|
        0 <= i < facts.len() && is_shipped(files, facts, service_files, repo_root, i) && 0 <= k < facts[i].call_sites.len()
            && #[trigger] is_call_into(row, files, state, i, facts[i].call_sites[k], package) {
        let (i, k, package) = choose|i: int, k: int, package: PkgRefModel|
            0 <= i < facts.len() && is_shipped(files, facts, service_files, repo_root, i) && 0 <= k < facts[i].call_sites.len()
                && #[trigger] is_call_into(row, files, state, i, facts[i].call_sites[k], package);
        assert(site_row(files, state, i, facts[i].call_sites[k]) == Some(row));
        assert(is_row_of(files, facts, i, row));
    }
}

// ---------------------------------------------------------------------------
// Where values come from
// ---------------------------------------------------------------------------

/// Everything that is said of a key is one value.
pub open spec fn all_say<A>(values: Seq<(A, ValueModel)>, key: A, value: ValueModel) -> bool {
    forall|i: int| 0 <= i < values.len() && (#[trigger] values[i]).0 == key ==> values[i].1 == value
}

pub open spec fn some_says<A>(values: Seq<(A, ValueModel)>, key: A) -> bool {
    exists|i: int| 0 <= i < values.len() && (#[trigger] values[i]).0 == key
}

proof fn one_value_stays<A>(slots: Map<A, ValueModel>, values: Seq<(A, ValueModel)>, key: A, value: ValueModel)
    requires
        all_say(values, key, value),
        slots.contains_key(key) ==> slots[key] == value,
    ensures
        joined_all(slots, values).contains_key(key) <==> slots.contains_key(key) || some_says(values, key),
        joined_all(slots, values).contains_key(key) ==> joined_all(slots, values)[key] == value,
    decreases values.len(),
{
    if values.len() > 0 {
        let n = values.len() - 1;
        let init = values.drop_last();
        assert forall|i: int| 0 <= i < init.len() && (#[trigger] init[i]).0 == key implies init[i].1 == value by {
            assert(init[i] == values[i]);
        }
        one_value_stays(slots, init, key, value);
        assert(values.last() == values[n]);
        if some_says(init, key) {
            let i = choose|i: int| 0 <= i < init.len() && (#[trigger] init[i]).0 == key;
            assert(values[i].0 == key);
        }
        if some_says(values, key) {
            let i = choose|i: int| 0 <= i < values.len() && (#[trigger] values[i]).0 == key;
            if i < n {
                assert(init[i].0 == key);
            }
        }
    }
}

/// A file binds a name once: an import of a package, and nothing else.
pub open spec fn is_only_import(facts: FileFactsModel, local: BindingIdModel, package: PkgRefModel) -> bool {
    &&& exists|i: int| 0 <= i < facts.imports.len() && (#[trigger] facts.imports[i]).local == local
    &&& forall|i: int|
        0 <= i < facts.imports.len() && (#[trigger] facts.imports[i]).local == local ==> facts.imports[i].source
            == (SourceModel::ExternalPackage { package })
    &&& forall|i: int| 0 <= i < facts.classes.len() ==> (#[trigger] facts.classes[i]).binding != Some(local)
    &&& forall|i: int| 0 <= i < facts.functions.len() ==> (#[trigger] facts.functions[i]).local != local
    &&& forall|i: int| 0 <= i < facts.aliases.len() ==> (#[trigger] facts.aliases[i]).local != local
}

proof fn imports_say_their_package(state: Seq<FileSlotsModel>, imports: Seq<ImportFactModel>, local: BindingIdModel, package: PkgRefModel)
    requires
        forall|i: int|
            0 <= i < imports.len() && (#[trigger] imports[i]).local == local ==> imports[i].source
                == (SourceModel::ExternalPackage { package }),
    ensures
        all_say(import_values(state, imports), local, ValueModel::Owned(OwnerModel::Pkg(package))),
        some_says(import_values(state, imports), local) <==> exists|i: int|
            0 <= i < imports.len() && (#[trigger] imports[i]).local == local,
    decreases imports.len(),
{
    let all = import_values(state, imports);
    let value = ValueModel::Owned(OwnerModel::Pkg(package));
    if imports.len() > 0 {
        let n = imports.len() - 1;
        let init = imports.drop_last();
        let before = import_values(state, init);
        assert forall|i: int| 0 <= i < init.len() && (#[trigger] init[i]).local == local implies init[i].source
            == (SourceModel::ExternalPackage { package }) by {
            assert(init[i] == imports[i]);
        }
        imports_say_their_package(state, init, local, package);
        assert(imports.last() == imports[n]);
        assert forall|i: int| 0 <= i < all.len() && (#[trigger] all[i]).0 == local implies all[i].1 == value by {
            if i < before.len() {
                assert(before[i] == all[i]);
            }
        }
        if some_says(before, local) {
            let i = choose|i: int| 0 <= i < before.len() && (#[trigger] before[i]).0 == local;
            assert(all[i].0 == local);
            let j = choose|j: int| 0 <= j < init.len() && (#[trigger] init[j]).local == local;
            assert(imports[j].local == local);
        }
        if imports[n].local == local {
            assert(all[all.len() - 1].0 == local);
        }
        if some_says(all, local) {
            let i = choose|i: int| 0 <= i < all.len() && (#[trigger] all[i]).0 == local;
            if i < before.len() {
                assert(before[i].0 == local);
            } else {
                assert(imports[n].local == local);
            }
        }
        if exists|i: int| 0 <= i < imports.len() && (#[trigger] imports[i]).local == local {
            let i = choose|i: int| 0 <= i < imports.len() && (#[trigger] imports[i]).local == local;
            if i < n {
                assert(init[i].local == local);
            }
        }
    }
}

proof fn other_facts_say_nothing(state: Seq<FileSlotsModel>, file: usize, facts: FileFactsModel, local: BindingIdModel)
    requires
        forall|i: int| 0 <= i < facts.classes.len() ==> (#[trigger] facts.classes[i]).binding != Some(local),
        forall|i: int| 0 <= i < facts.functions.len() ==> (#[trigger] facts.functions[i]).local != local,
        forall|i: int| 0 <= i < facts.aliases.len() ==> (#[trigger] facts.aliases[i]).local != local,
    ensures
        !some_says(class_bindings(file, facts.classes), local),
        !some_says(function_values(state, file as int, facts.functions), local),
        !some_says(alias_values(state, file as int, facts.aliases), local),
    decreases facts.classes.len(), facts.functions.len(), facts.aliases.len(),
{
    if facts.classes.len() > 0 {
        let less = FileFactsModel { classes: facts.classes.drop_last(), ..facts };
        other_facts_say_nothing(state, file, less, local);
        let all = class_bindings(file, facts.classes);
        let before = class_bindings(file, less.classes);
        assert(facts.classes[facts.classes.len() - 1].binding != Some(local));
        assert forall|i: int| 0 <= i < all.len() implies (#[trigger] all[i]).0 != local by {
            if i < before.len() {
                assert(before[i] == all[i]);
            }
        }
    } else if facts.functions.len() > 0 {
        let less = FileFactsModel { functions: facts.functions.drop_last(), ..facts };
        other_facts_say_nothing(state, file, less, local);
        let all = function_values(state, file as int, facts.functions);
        let before = function_values(state, file as int, less.functions);
        assert(facts.functions[facts.functions.len() - 1].local != local);
        assert forall|i: int| 0 <= i < all.len() implies (#[trigger] all[i]).0 != local by {
            if i < before.len() {
                assert(before[i] == all[i]);
            }
        }
    } else if facts.aliases.len() > 0 {
        let less = FileFactsModel { aliases: facts.aliases.drop_last(), ..facts };
        other_facts_say_nothing(state, file, less, local);
        let all = alias_values(state, file as int, facts.aliases);
        let before = alias_values(state, file as int, less.aliases);
        assert(facts.aliases[facts.aliases.len() - 1].local != local);
        assert forall|i: int| 0 <= i < all.len() implies (#[trigger] all[i]).0 != local by {
            if i < before.len() {
                assert(before[i] == all[i]);
            }
        }
    }
}

/// A name that is imported from a package, and bound to nothing else, is the
/// package's from the first round on.
pub proof fn an_import_is_the_packages(
    facts: Seq<FileFactsModel>,
    n: nat,
    file: int,
    local: BindingIdModel,
    package: PkgRefModel,
)
    requires
        n > 0,
        0 <= file < facts.len(),
        facts.len() <= usize::MAX,
        is_only_import(facts[file], local, package),
    ensures
        rounds(facts, n).len() == facts.len(),
        rounds(facts, n)[file].bindings.contains_pair(local, ValueModel::Owned(OwnerModel::Pkg(package))),
    decreases n,
{
    let value = ValueModel::Owned(OwnerModel::Pkg(package));
    let before = rounds(facts, (n - 1) as nat);
    rounds_are_as_long(facts, (n - 1) as nat);
    if n > 1 {
        an_import_is_the_packages(facts, (n - 1) as nat, file, local, package);
    }
    let said = facts[file];
    let at = file as usize;
    let a = import_values(before, said.imports);
    let b = class_bindings(at, said.classes);
    let c = function_values(before, at as int, said.functions);
    let d = alias_values(before, at as int, said.aliases);
    imports_say_their_package(before, said.imports, local, package);
    other_facts_say_nothing(before, at, said, local);
    let all = a + b + c + d;
    assert forall|i: int| 0 <= i < all.len() && (#[trigger] all[i]).0 == local implies all[i].1 == value by {
        if i < a.len() {
            assert(all[i] == a[i]);
        } else if i < a.len() + b.len() {
            assert(all[i] == b[i - a.len()]);
        } else if i < a.len() + b.len() + c.len() {
            assert(all[i] == c[i - a.len() - b.len()]);
        } else {
            assert(all[i] == d[i - a.len() - b.len() - c.len()]);
        }
    }
    let i = choose|i: int| 0 <= i < a.len() && (#[trigger] a[i]).0 == local;
    assert(all[i].0 == local);
    one_value_stays(before[file].bindings, all, local, value);
    assert(rounds(facts, n)[file] == applied(before, before[file], at, said));
}

proof fn rounds_are_as_long(facts: Seq<FileFactsModel>, n: nat)
    ensures
        rounds(facts, n).len() == facts.len(),
        n == 0 ==> forall|i: int| 0 <= i < facts.len() ==> #[trigger] rounds(facts, n)[i] == no_slots(),
    decreases n,
{
    if n > 0 {
        rounds_are_as_long(facts, (n - 1) as nat);
    }
}

proof fn what_is_reached_off_a_package_is_its_own(
    state: Seq<FileSlotsModel>,
    file: int,
    root: RootModel,
    steps: Seq<StepModel>,
    package: PkgRefModel,
)
    requires
        evaluated(state, file, root, Seq::empty()) == Some(OwnerModel::Pkg(package)),
    ensures
        evaluated(state, file, root, steps) == Some(OwnerModel::Pkg(package)),
    decreases steps.len(),
{
    if steps.len() > 0 {
        what_is_reached_off_a_package_is_its_own(state, file, root, steps.drop_last(), package);
    } else {
        assert(steps =~= Seq::<StepModel>::empty());
    }
}

/// A call on a name that is imported from a package, or on anything that is
/// reached off it, has a row with that package, export and subpath.
pub proof fn calls_off_an_import_are_the_packages(
    files: Seq<Seq<char>>,
    facts: Seq<FileFactsModel>,
    file: int,
    local: BindingIdModel,
    package: PkgRefModel,
    site: CallSiteModel,
)
    requires
        0 <= file < facts.len(),
        facts.len() <= usize::MAX,
        is_only_import(facts[file], local, package),
        site.callee.root == (RootModel::Binding { id: local }),
    ensures
        site_row(files, rounds(facts, MAX_FIXPOINT_ROUNDS as nat), file, site) matches Some(row) && is_call_into(
            row,
            files,
            rounds(facts, MAX_FIXPOINT_ROUNDS as nat),
            file,
            site,
            package,
        ),
{
    let n = MAX_FIXPOINT_ROUNDS as nat;
    let state = rounds(facts, n);
    an_import_is_the_packages(facts, n, file, local, package);
    assert(evaluated(state, file, site.callee.root, Seq::empty()) == Some(OwnerModel::Pkg(package)));
    what_is_reached_off_a_package_is_its_own(state, file, site.callee.root, site.callee.steps, package);
}

// ---------------------------------------------------------------------------
// What is read off a module
// ---------------------------------------------------------------------------

/// Nothing that was read is lost.
pub open spec fn keeps(before: FileFactsModel, after: FileFactsModel) -> bool {
    &&& before.imports.len() <= after.imports.len()
    &&& forall|i: int| 0 <= i < before.imports.len() ==> #[trigger] after.imports[i] == before.imports[i]
    &&& before.aliases.len() <= after.aliases.len()
    &&& forall|i: int| 0 <= i < before.aliases.len() ==> #[trigger] after.aliases[i] == before.aliases[i]
    &&& before.call_sites.len() <= after.call_sites.len()
    &&& forall|i: int| 0 <= i < before.call_sites.len() ==> #[trigger] after.call_sites[i] == before.call_sites[i]
}

proof fn bound_imports_keep(facts: FileFactsModel, target: TargetModel, bound: Seq<(Seq<char>, BindingIdModel)>)
    ensures
        keeps(facts, with_bound_imports(facts, target, bound)),
    decreases bound.len(),
{
    if bound.len() > 0 {
        bound_imports_keep(facts, target, bound.drop_last());
    }
}

proof fn destructuring_keeps(facts: FileFactsModel, chain: ChainModel, bound: Seq<(Seq<char>, BindingIdModel)>)
    ensures
        keeps(facts, with_destructured(facts, chain, bound)),
    decreases bound.len(),
{
    if bound.len() > 0 {
        destructuring_keeps(facts, chain, bound.drop_last());
    }
}

proof fn members_keep(facts: FileFactsModel, index: usize, members: Seq<Node>)
    ensures
        keeps(facts, with_members(facts, index, members)),
    decreases members.len(),
{
    if members.len() > 0 {
        members_keep(facts, index, members.drop_last());
    }
}

proof fn specifiers_keep(facts: FileFactsModel, target: TargetModel, specifiers: Seq<ImportSpecifier>, type_only: bool)
    ensures
        keeps(facts, with_specifiers(facts, target, specifiers, type_only)),
    decreases specifiers.len(),
{
    if specifiers.len() > 0 {
        specifiers_keep(facts, target, specifiers.drop_last(), type_only);
    }
}

proof fn export_specifiers_keep(facts: FileFactsModel, target: Option<TargetModel>, specifiers: Seq<ExportSpecifier>)
    ensures
        keeps(facts, with_export_specifiers(facts, target, specifiers)),
    decreases specifiers.len(),
{
    if specifiers.len() > 0 {
        export_specifiers_keep(facts, target, specifiers.drop_last());
    }
}

proof fn declared_exports_keep(facts: FileFactsModel, declarators: Seq<Node>)
    ensures
        keeps(facts, with_declared_exports(facts, declarators)),
    decreases declarators.len(),
{
    if declarators.len() > 0 {
        declared_exports_keep(facts, declarators.drop_last());
    }
}

proof fn a_node_keeps(
    facts: FileFactsModel,
    node: Node,
    context: Option<ClassContextModel>,
    targets: Map<Seq<char>, TargetModel>,
)
    ensures
        keeps(facts, with_node(facts, node, context, targets)),
{
    match node {
        Node::Declarator { pattern, init: Some(init) } => {
            match imported_module(*init, targets) {
                Some(target) => {
                    let edged = with_edge(facts, target);
                    match pattern {
                        Pattern::Object { props, .. } => {
                            bound_imports_keep(
                                edged,
                                target,
                                destructured(props@),
                            );
                        },
                        _ => {},
                    }
                },
                None => match pattern {
                    Pattern::Object { props, .. } => {
                        let chain = chain_of(*init, class_of(context));
                        if chain is Some {
                            destructuring_keeps(
                                facts,
                                chain->0,
                                destructured(props@),
                            );
                        }
                    },
                    _ => {},
                },
            }
        },
        _ => {},
    }
}

proof fn gathering_keeps(
    facts: FileFactsModel,
    node: Node,
    context: Option<ClassContextModel>,
    targets: Map<Seq<char>, TargetModel>,
)
    ensures
        keeps(facts, gathered(facts, node, context, targets)),
    decreases node, children(node).len() + 2,
{
    if class_in_node(node) is Some {
        gathering_a_class_keeps(facts, node, own_name(node), targets);
    } else if declared_class(node) is Some {
        plain_is_within(*(node->Declarator_init->0));
        gathering_a_class_keeps(facts, (declared_class(node)->0).0, (declared_class(node)->0).1, targets);
    } else {
        a_node_keeps(facts, node, context, targets);
        gathering_first_keeps(with_node(facts, node, context, targets), node, children(node).len(), context, targets);
    }
}

proof fn gathering_first_keeps(
    facts: FileFactsModel,
    node: Node,
    n: nat,
    context: Option<ClassContextModel>,
    targets: Map<Seq<char>, TargetModel>,
)
    ensures
        keeps(facts, gathered_first(facts, node, n, context, targets)),
    decreases node, n,
{
    if n > 0 && n <= children(node).len() {
        children_are_smaller(node);
        gathering_first_keeps(facts, node, (n - 1) as nat, context, targets);
        gathering_keeps(gathered_first(facts, node, (n - 1) as nat, context, targets), children(node)[n - 1], context, targets);
    }
}

proof fn gathering_a_class_keeps(
    facts: FileFactsModel,
    node: Node,
    binding: Option<BindingIdModel>,
    targets: Map<Seq<char>, TargetModel>,
)
    ensures
        keeps(facts, gathered_class(facts, node, binding, targets)),
    decreases node, children(node).len() + 1,
{
    match class_in_node(node) {
        Some(class) => {
            let index = facts.classes.len() as usize;
            let begun = FileFactsModel {
                classes: facts.classes.push(no_class(binding)),
                ..facts
            };
            let context = ClassContextModel {
                index,
                params: constructor_params(class.members@),
            };
            members_keep(begun, index, class.members@);
            gathering_first_keeps(
                with_members(begun, index, class.members@),
                node,
                children(node).len(),
                Some(context),
                targets,
            );
        },
        None => {},
    }
}

/// A node stands in another, at any depth. What stands in a class that a
/// declaration gives its name is left aside.
pub open spec fn stands_in(node: Node, inner: Node) -> bool
    decreases node,
{
    inner == node || (declared_class(node) is None && exists|i: int|
        #![trigger children(node)[i]]
        0 <= i < children(node).len() && decreases_to!(node => children(node)[i]) && stands_in(children(node)[i], inner))
}

/// A call that is written without `this`.
pub open spec fn is_plain_call(node: Node, line: u32, text: Seq<char>) -> bool {
    match node {
        Node::Call { line: at, callee, .. } => at == line && written(*callee, false) == Some(text),
        Node::OptCall { line: at, callee, .. } => at == line && written(*callee, false) == Some(text),
        _ => false,
    }
}

pub open spec fn has_site(facts: FileFactsModel, line: u32, text: Seq<char>) -> bool {
    exists|k: int|
        0 <= k < facts.call_sites.len() && (#[trigger] facts.call_sites[k]).line == line && chain_text(facts.call_sites[k].callee)
            == text
}

proof fn a_site_is_kept(before: FileFactsModel, after: FileFactsModel, line: u32, text: Seq<char>)
    requires
        keeps(before, after),
        has_site(before, line, text),
    ensures
        has_site(after, line, text),
{
    let k = choose|k: int|
        0 <= k < before.call_sites.len() && (#[trigger] before.call_sites[k]).line == line && chain_text(
            before.call_sites[k].callee,
        ) == text;
    assert(after.call_sites[k] == before.call_sites[k]);
}

proof fn written_in_a_class_too(node: Node, text: Seq<char>)
    requires
        written(node, false) == Some(text),
    ensures
        written(node, true) == Some(text),
    decreases node,
{
    match node {
        Node::Wrapped { wrapper, inner } => {
            written_in_a_class_too(*inner, text);
        },
        Node::Member { object, property } => {
            written_in_a_class_too(*object, written(*object, false)->0);
        },
        Node::OptMember { object, property } => {
            written_in_a_class_too(*object, written(*object, false)->0);
        },
        Node::Call { callee, .. } => {
            written_in_a_class_too(*callee, written(*callee, false)->0);
        },
        Node::OptCall { callee, .. } => {
            written_in_a_class_too(*callee, written(*callee, false)->0);
        },
        Node::New { callee, .. } => {
            written_in_a_class_too(*callee, written(*callee, false)->0);
        },
        _ => {},
    }
}

proof fn a_call_that_stands_in_is_gathered(
    facts: FileFactsModel,
    node: Node,
    context: Option<ClassContextModel>,
    targets: Map<Seq<char>, TargetModel>,
    inner: Node,
    line: u32,
    text: Seq<char>,
)
    requires
        stands_in(node, inner),
        is_plain_call(inner, line, text),
    ensures
        has_site(gathered(facts, node, context, targets), line, text),
    decreases node, 1int,
{
    if inner == node {
        let callee = match node {
            Node::Call { callee, .. } => *callee,
            Node::OptCall { callee, .. } => *callee,
            _ => node,
        };
        let class = class_of(context);
        written_in_a_class_too(callee, text);
        a_chain_reads_as_it_is_written(callee, class);
        let with = with_node(facts, node, context, targets);
        assert(with.call_sites[facts.call_sites.len() as int].line == line);
        assert(has_site(with, line, text));
        gathering_first_keeps(with, node, children(node).len(), context, targets);
        a_site_is_kept(with, gathered(facts, node, context, targets), line, text);
    } else {
        let i = choose|i: int|
            #![trigger children(node)[i]]
            0 <= i < children(node).len() && decreases_to!(node => children(node)[i]) && stands_in(children(node)[i], inner);
        if class_in_node(node) is Some {
            let class = class_in_node(node)->0;
            let index = facts.classes.len() as usize;
            let binding = own_name(node);
            let begun = FileFactsModel {
                classes: facts.classes.push(no_class(binding)),
                ..facts
            };
            let within = ClassContextModel {
                index,
                params: constructor_params(class.members@),
            };
            a_call_in_a_child_is_gathered(
                with_members(begun, index, class.members@),
                node,
                children(node).len(),
                Some(within),
                targets,
                i,
                inner,
                line,
                text,
            );
        } else {
            a_call_in_a_child_is_gathered(
                with_node(facts, node, context, targets),
                node,
                children(node).len(),
                context,
                targets,
                i,
                inner,
                line,
                text,
            );
        }
    }
}

proof fn a_call_in_a_child_is_gathered(
    facts: FileFactsModel,
    node: Node,
    n: nat,
    context: Option<ClassContextModel>,
    targets: Map<Seq<char>, TargetModel>,
    i: int,
    inner: Node,
    line: u32,
    text: Seq<char>,
)
    requires
        0 <= i < n <= children(node).len(),
        stands_in(children(node)[i], inner),
        is_plain_call(inner, line, text),
    ensures
        has_site(gathered_first(facts, node, n, context, targets), line, text),
    decreases node, 0int, n,
{
    children_are_smaller(node);
    let before = gathered_first(facts, node, (n - 1) as nat, context, targets);
    if i == n - 1 {
        a_call_that_stands_in_is_gathered(before, children(node)[i], context, targets, inner, line, text);
    } else {
        a_call_in_a_child_is_gathered(facts, node, (n - 1) as nat, context, targets, i, inner, line, text);
        gathering_keeps(before, children(node)[n - 1], context, targets);
        a_site_is_kept(before, gathered(before, children(node)[n - 1], context, targets), line, text);
    }
}

/// The expression or the declaration that an item of a module holds.
pub open spec fn body_of(item: ModuleItem) -> Option<Node> {
    match item {
        ModuleItem::ExportDecl(node) => Some(node),
        ModuleItem::ExportDefault { decl, .. } => Some(decl),
        ModuleItem::ExportDefaultExpr(node) => Some(node),
        ModuleItem::Statement(node) => Some(node),
        _ => None,
    }
}

proof fn gathering_items_keeps(facts: FileFactsModel, items: Seq<ModuleItem>, targets: Map<Seq<char>, TargetModel>)
    ensures
        keeps(facts, items_gathered(facts, items, targets)),
    decreases items.len(),
{
    if items.len() > 0 {
        gathering_items_keeps(facts, items.drop_last(), targets);
        let before = items_gathered(facts, items.drop_last(), targets);
        match body_of(items.last()) {
            Some(node) => {
                gathering_keeps(before, node, None, targets);
            },
            None => {},
        }
    }
}

proof fn a_call_in_an_item_is_gathered(
    facts: FileFactsModel,
    items: Seq<ModuleItem>,
    targets: Map<Seq<char>, TargetModel>,
    i: int,
    inner: Node,
    line: u32,
    text: Seq<char>,
)
    requires
        0 <= i < items.len(),
        body_of(items[i]) is Some,
        stands_in(body_of(items[i])->0, inner),
        is_plain_call(inner, line, text),
    ensures
        has_site(items_gathered(facts, items, targets), line, text),
    decreases items.len(),
{
    let n = items.len() - 1;
    let before = items_gathered(facts, items.drop_last(), targets);
    assert(items.last() == items[n]);
    if i == n {
        a_call_that_stands_in_is_gathered(before, body_of(items[n])->0, None, targets, inner, line, text);
    } else {
        assert(items.drop_last()[i] == items[i]);
        a_call_in_an_item_is_gathered(facts, items.drop_last(), targets, i, inner, line, text);
        match body_of(items[n]) {
            Some(node) => {
                gathering_keeps(before, node, None, targets);
                a_site_is_kept(before, gathered(before, node, None, targets), line, text);
            },
            None => {},
        }
    }
}

/// Every call in a module, at any depth, whose callee is written as a chain off
/// a name is a call site, at its line and as it is written.
pub proof fn every_call_is_a_site(
    module: Module,
    targets: Map<Seq<char>, TargetModel>,
    i: int,
    inner: Node,
    line: u32,
    text: Seq<char>,
)
    requires
        0 <= i < module.items@.len(),
        body_of(module.items@[i]) is Some,
        stands_in(body_of(module.items@[i])->0, inner),
        is_plain_call(inner, line, text),
    ensures
        has_site(facts_of(module, targets), line, text),
{
    a_call_in_an_item_is_gathered(with_items(no_facts(), module.items@, targets), module.items@, targets, i, inner, line, text);
}

/// The fact binds the local name of a specifier to what it imports: from a
/// package the export by its name, from a file of the workspace the export of
/// that file, and the whole of either for a namespace.
pub open spec fn binds_import(fact: ImportFactModel, specifier: ImportSpecifier, target: TargetModel) -> bool {
    let local = match specifier {
        ImportSpecifier::Named { local, .. } => local,
        ImportSpecifier::Default { local } => local,
        ImportSpecifier::Namespace { local } => local,
    };
    let name = match specifier {
        ImportSpecifier::Named { local, imported: Some(imported), .. } => Some(imported@),
        ImportSpecifier::Named { local, imported: None, .. } => Some(local.symbol@),
        ImportSpecifier::Default { .. } => Some("default"@),
        ImportSpecifier::Namespace { .. } => None,
    };
    &&& fact.local.symbol == local.symbol@
    &&& fact.local.context == local.context
    &&& match target {
        TargetModel::External { package, subpath } => fact.source matches SourceModel::ExternalPackage { package: from }
            && from.package == package && from.subpath == subpath && from.import_symbol == name,
        TargetModel::Internal { file } => match name {
            Some(name) => fact.source == (SourceModel::InternalNamed { file, name }),
            None => fact.source == (SourceModel::InternalNamespace { file }),
        },
    }
}

pub open spec fn is_value_import(specifier: ImportSpecifier) -> bool {
    match specifier {
        ImportSpecifier::Named { type_only, .. } => !type_only,
        _ => true,
    }
}

pub open spec fn has_import(facts: FileFactsModel, specifier: ImportSpecifier, target: TargetModel) -> bool {
    exists|k: int| 0 <= k < facts.imports.len() && binds_import(#[trigger] facts.imports[k], specifier, target)
}

proof fn an_import_is_kept(before: FileFactsModel, after: FileFactsModel, specifier: ImportSpecifier, target: TargetModel)
    requires
        keeps(before, after),
        has_import(before, specifier, target),
    ensures
        has_import(after, specifier, target),
{
    let k = choose|k: int| 0 <= k < before.imports.len() && binds_import(#[trigger] before.imports[k], specifier, target);
    assert(after.imports[k] == before.imports[k]);
}

proof fn a_specifier_is_read(
    facts: FileFactsModel,
    target: TargetModel,
    specifiers: Seq<ImportSpecifier>,
    j: int,
)
    requires
        0 <= j < specifiers.len(),
        is_value_import(specifiers[j]),
    ensures
        has_import(with_specifiers(facts, target, specifiers, false), specifiers[j], target),
    decreases specifiers.len(),
{
    let n = specifiers.len() - 1;
    let init = specifiers.drop_last();
    let before = with_specifiers(facts, target, init, false);
    let after = with_specifiers(facts, target, specifiers, false);
    assert(specifiers.last() == specifiers[n]);
    if j == n {
        assert(binds_import(after.imports[before.imports.len() as int], specifiers[j], target));
    } else {
        assert(init[j] == specifiers[j]);
        a_specifier_is_read(facts, target, init, j);
        assert(keeps(before, after));
        an_import_is_kept(before, after, specifiers[j], target);
    }
}

proof fn an_item_keeps(facts: FileFactsModel, item: ModuleItem, targets: Map<Seq<char>, TargetModel>)
    ensures
        keeps(facts, with_item(facts, item, targets)),
{
    match item {
        ModuleItem::Import { source, type_only, specifiers } => {
            match target_of(targets, source@) {
                Some(target) => {
                    specifiers_keep(
                        if type_only {
                            facts
                        } else {
                            with_edge(facts, target)
                        },
                        target,
                        specifiers@,
                        type_only,
                    );
                },
                None => {},
            }
        },
        ModuleItem::ExportNamed { source, type_only, specifiers } => {
            let target = match source {
                Some(source) => target_of(targets, source@),
                None => None,
            };
            export_specifiers_keep(
                match target {
                    Some(target) => with_edge(facts, target),
                    None => facts,
                },
                target,
                specifiers@,
            );
        },
        ModuleItem::ExportDecl(decl) => {
            match decl {
                Node::VarDecl(declarators) => {
                    declared_exports_keep(facts, declarators@);
                },
                _ => {},
            }
        },
        _ => {},
    }
}

proof fn items_read_imports(
    items: Seq<ModuleItem>,
    targets: Map<Seq<char>, TargetModel>,
    i: int,
    source: Seq<char>,
    specifiers: Seq<ImportSpecifier>,
    j: int,
    target: TargetModel,
)
    requires
        0 <= i < items.len(),
        items[i] matches ModuleItem::Import { source: from, type_only, specifiers: given } && from@ == source && !type_only
            && given@ == specifiers,
        target_of(targets, source) == Some(target),
        0 <= j < specifiers.len(),
        is_value_import(specifiers[j]),
    ensures
        has_import(with_items(no_facts(), items, targets), specifiers[j], target),
    decreases items.len(),
{
    let n = items.len() - 1;
    let before = with_items(no_facts(), items.drop_last(), targets);
    assert(items.last() == items[n]);
    if i == n {
        a_specifier_is_read(with_edge(before, target), target, specifiers, j);
    } else {
        assert(items.drop_last()[i] == items[i]);
        items_read_imports(items.drop_last(), targets, i, source, specifiers, j, target);
        an_item_keeps(before, items[n], targets);
        an_import_is_kept(before, with_item(before, items[n], targets), specifiers[j], target);
    }
}

/// Every value that a module imports from a package or a file of the workspace
/// is bound to what it is imported from.
pub proof fn every_import_is_bound(
    module: Module,
    targets: Map<Seq<char>, TargetModel>,
    i: int,
    source: Seq<char>,
    specifiers: Seq<ImportSpecifier>,
    j: int,
    target: TargetModel,
)
    requires
        0 <= i < module.items@.len(),
        module.items@[i] matches ModuleItem::Import { source: from, type_only, specifiers: given } && from@ == source && !type_only
            && given@ == specifiers,
        target_of(targets, source) == Some(target),
        0 <= j < specifiers.len(),
        is_value_import(specifiers[j]),
    ensures
        has_import(facts_of(module, targets), specifiers[j], target),
{
    let before = with_items(no_facts(), module.items@, targets);
    items_read_imports(module.items@, targets, i, source, specifiers, j, target);
    gathering_items_keeps(before, module.items@, targets);
    an_import_is_kept(before, facts_of(module, targets), specifiers[j], target);
}

// ---------------------------------------------------------------------------
// Rounds
// ---------------------------------------------------------------------------

/// A table knows a value of a key: what it holds takes it in, so that it is the
/// value itself, more of the same record, or a conflict.
pub open spec fn knows<A>(slots: Map<A, ValueModel>, key: A, value: ValueModel) -> bool {
    slots.contains_key(key) && join_values(value, slots[key]) == slots[key]
}

/// What is said is known.
pub proof fn what_is_said_is_known<A>(slots: Map<A, ValueModel>, values: Seq<(A, ValueModel)>, k: int)
    requires
        0 <= k < values.len(),
    ensures
        knows(joined_all(slots, values), values[k].0, values[k].1),
    decreases values.len(),
{
    let n = values.len() - 1;
    let before = joined_all(slots, values.drop_last());
    let after = joined_all(slots, values);
    let (key, value) = values[k];
    assert(values.last() == values[n]);
    if k == n {
        join_is_idempotent(value);
        if before.contains_key(key) {
            join_commutes(before[key], value);
            join_associates(value, value, before[key]);
        }
    } else {
        what_is_said_is_known(slots, values.drop_last(), k);
        assert(values.drop_last()[k] == values[k]);
        if values[n].0 == key {
            join_associates(value, before[key], values[n].1);
        }
    }
}

/// What was known is known.
pub proof fn what_is_known_stays_known<A>(
    slots: Map<A, ValueModel>,
    values: Seq<(A, ValueModel)>,
    key: A,
    value: ValueModel,
)
    requires
        knows(slots, key, value),
    ensures
        knows(joined_all(slots, values), key, value),
    decreases values.len(),
{
    if values.len() > 0 {
        let before = joined_all(slots, values.drop_last());
        what_is_known_stays_known(slots, values.drop_last(), key, value);
        if values.last().0 == key {
            join_associates(value, before[key], values.last().1);
        }
    }
}

/// Nothing is known but what was known or is said.
pub proof fn what_is_known_is_said<A>(slots: Map<A, ValueModel>, values: Seq<(A, ValueModel)>, key: A)
    requires
        joined_all(slots, values).contains_key(key),
    ensures
        slots.contains_key(key) || some_says(values, key),
    decreases values.len(),
{
    if values.len() > 0 {
        let n = values.len() - 1;
        let init = values.drop_last();
        assert(values.last() == values[n]);
        if values[n].0 == key {
            assert(some_says(values, key));
        } else {
            what_is_known_is_said(slots, init, key);
            if some_says(init, key) {
                let i = choose|i: int| 0 <= i < init.len() && (#[trigger] init[i]).0 == key;
                assert(values[i].0 == key);
            }
        }
    }
}

proof fn an_import_says(state: Seq<FileSlotsModel>, facts: Seq<ImportFactModel>, i: int, value: ValueModel)
    requires
        0 <= i < facts.len(),
        source_value(state, facts[i].source) == Some(value),
    ensures
        import_values(state, facts).contains((facts[i].local, value)),
    decreases facts.len(),
{
    let all = import_values(state, facts);
    let before = import_values(state, facts.drop_last());
    if i == facts.len() - 1 {
        assert(all[all.len() - 1] == (facts[i].local, value));
    } else {
        assert(facts.drop_last()[i] == facts[i]);
        an_import_says(state, facts.drop_last(), i, value);
        let k = choose|k: int| 0 <= k < before.len() && before[k] == (facts[i].local, value);
        assert(all[k] == before[k]);
    }
}

proof fn an_alias_says(state: Seq<FileSlotsModel>, file: int, facts: Seq<AliasFactModel>, i: int, owner: OwnerModel)
    requires
        0 <= i < facts.len(),
        chain_owner(state, file, facts[i].value) == Some(owner),
    ensures
        alias_values(state, file, facts).contains((facts[i].local, ValueModel::Owned(owner))),
    decreases facts.len(),
{
    let all = alias_values(state, file, facts);
    let before = alias_values(state, file, facts.drop_last());
    if i == facts.len() - 1 {
        assert(all[all.len() - 1] == (facts[i].local, ValueModel::Owned(owner)));
    } else {
        assert(facts.drop_last()[i] == facts[i]);
        an_alias_says(state, file, facts.drop_last(), i, owner);
        let k = choose|k: int| 0 <= k < before.len() && before[k] == (facts[i].local, ValueModel::Owned(owner));
        assert(all[k] == before[k]);
    }
}

proof fn a_function_says(state: Seq<FileSlotsModel>, file: int, facts: Seq<FunctionFactModel>, i: int, owner: OwnerModel)
    requires
        0 <= i < facts.len(),
        facts[i].annotation is Some ==> owner == OwnerModel::Pkg(facts[i].annotation->0),
        facts[i].annotation is None ==> return_owner(state, file, facts[i].shape) == Some(owner),
    ensures
        function_values(state, file, facts).contains(
            (facts[i].local, ValueModel::Owned(OwnerModel::FnReturning(Box::new(owner)))),
        ),
    decreases facts.len(),
{
    let all = function_values(state, file, facts);
    let before = function_values(state, file, facts.drop_last());
    let said = (facts[i].local, ValueModel::Owned(OwnerModel::FnReturning(Box::new(owner))));
    if i == facts.len() - 1 {
        assert(all[all.len() - 1] == said);
    } else {
        assert(facts.drop_last()[i] == facts[i]);
        a_function_says(state, file, facts.drop_last(), i, owner);
        let k = choose|k: int| 0 <= k < before.len() && before[k] == said;
        assert(all[k] == before[k]);
    }
}

proof fn a_class_says(file: usize, classes: Seq<ClassFactModel>, i: int, binding: BindingIdModel)
    requires
        0 <= i < classes.len() <= usize::MAX,
        classes[i].binding == Some(binding),
    ensures
        class_bindings(file, classes).contains((binding, ValueModel::Owned(OwnerModel::ClassOf(file, i as usize)))),
    decreases classes.len(),
{
    let all = class_bindings(file, classes);
    let before = class_bindings(file, classes.drop_last());
    let said = (binding, ValueModel::Owned(OwnerModel::ClassOf(file, i as usize)));
    if i == classes.len() - 1 {
        assert(all[all.len() - 1] == said);
    } else {
        assert(classes.drop_last()[i] == classes[i]);
        a_class_says(file, classes.drop_last(), i, binding);
        let k = choose|k: int| 0 <= k < before.len() && before[k] == said;
        assert(all[k] == before[k]);
    }
}

proof fn an_export_says(state: Seq<FileSlotsModel>, file: int, facts: Seq<ExportFactModel>, i: int)
    requires
        0 <= file < state.len(),
        0 <= i < facts.len(),
        state[file].bindings.contains_key(facts[i].local),
    ensures
        export_values(state, file, facts).contains((facts[i].name, state[file].bindings[facts[i].local])),
    decreases facts.len(),
{
    let all = export_values(state, file, facts);
    let before = export_values(state, file, facts.drop_last());
    let said = (facts[i].name, state[file].bindings[facts[i].local]);
    if i == facts.len() - 1 {
        assert(all[all.len() - 1] == said);
    } else {
        assert(facts.drop_last()[i] == facts[i]);
        an_export_says(state, file, facts.drop_last(), i);
        let k = choose|k: int| 0 <= k < before.len() && before[k] == said;
        assert(all[k] == before[k]);
    }
}

proof fn a_reexport_says(state: Seq<FileSlotsModel>, facts: Seq<ReExportFactModel>, i: int, value: ValueModel)
    requires
        0 <= i < facts.len(),
        source_value(state, facts[i].source) == Some(value),
    ensures
        reexport_values(state, facts).contains((facts[i].name, value)),
    decreases facts.len(),
{
    let all = reexport_values(state, facts);
    let before = reexport_values(state, facts.drop_last());
    if i == facts.len() - 1 {
        assert(all[all.len() - 1] == (facts[i].name, value));
    } else {
        assert(facts.drop_last()[i] == facts[i]);
        a_reexport_says(state, facts.drop_last(), i, value);
        let k = choose|k: int| 0 <= k < before.len() && before[k] == (facts[i].name, value);
        assert(all[k] == before[k]);
    }
}

/// What a source has: a package is itself, a name of another file what that file
/// exports under it, and another file as a whole its exports.
pub open spec fn source_has(state: Seq<FileSlotsModel>, source: SourceModel, value: ValueModel) -> bool {
    match source {
        SourceModel::ExternalPackage { package } => value == ValueModel::Owned(OwnerModel::Pkg(package)),
        SourceModel::InternalNamed { file, name } => file < state.len() && state[file as int].exports.contains_pair(name, value),
        SourceModel::InternalNamespace { file } => value == ValueModel::Owned(OwnerModel::NamespaceOf(file)),
    }
}

proof fn said_in_one_part<A>(a: Seq<A>, b: Seq<A>, c: Seq<A>, x: A)
    ensures
        b.contains(x) ==> (a + b + c).contains(x),
{
    if b.contains(x) {
        let k = choose|k: int| 0 <= k < b.len() && b[k] == x;
        assert((a + b + c)[a.len() + k] == x);
    }
}

/// A function whose calls yield this.
pub open spec fn yields(owner: OwnerModel) -> ValueModel {
    ValueModel::Owned(OwnerModel::FnReturning(Box::new(owner)))
}

/// One round takes in every fact of a file: what is imported, the classes, what
/// calls of functions yield, what names stand for.
pub proof fn a_round_binds_what_is_said(state: Seq<FileSlotsModel>, facts: Seq<FileFactsModel>, file: int, local: BindingIdModel, value: ValueModel)
    requires
        state.len() == facts.len(),
        0 <= file < facts.len() <= usize::MAX,
        facts[file].classes.len() <= usize::MAX,
        ({
            let said = facts[file];
            ||| exists|i: int|
                0 <= i < said.imports.len() && (#[trigger] said.imports[i]).local == local && source_has(
                    state,
                    said.imports[i].source,
                    value,
                )
            ||| exists|i: int|
                0 <= i < said.classes.len() && (#[trigger] said.classes[i]).binding == Some(local) && value == ValueModel::Owned(
                    OwnerModel::ClassOf(file as usize, i as usize),
                )
            ||| exists|i: int, owner: OwnerModel|
                #![trigger said.functions[i], yields(owner)]
                0 <= i < said.functions.len() && said.functions[i].local == local && value == yields(owner) && (match said.functions[i].annotation {
                    Some(package) => owner == OwnerModel::Pkg(package),
                    None => return_owner(state, file, said.functions[i].shape) == Some(owner),
                })
            ||| exists|i: int|
                0 <= i < said.aliases.len() && (#[trigger] said.aliases[i]).local == local && value is Owned && chain_owner(
                    state,
                    file,
                    said.aliases[i].value,
                ) == Some(value->Owned_0)
        }),
    ensures
        knows(round(state, facts)[file].bindings, local, value),
{
    let said = facts[file];
    let at = file as usize;
    let a = import_values(state, said.imports);
    let b = class_bindings(at, said.classes);
    let c = function_values(state, file, said.functions);
    let d = alias_values(state, file, said.aliases);
    let all = a + b + c + d;
    let x = (local, value);
    if exists|i: int|
        0 <= i < said.imports.len() && (#[trigger] said.imports[i]).local == local && source_has(
            state,
            said.imports[i].source,
            value,
        ) {
        let i = choose|i: int|
            0 <= i < said.imports.len() && (#[trigger] said.imports[i]).local == local && source_has(
                state,
                said.imports[i].source,
                value,
            );
        an_import_says(state, said.imports, i, value);
    } else if exists|i: int|
        0 <= i < said.classes.len() && (#[trigger] said.classes[i]).binding == Some(local) && value == ValueModel::Owned(
            OwnerModel::ClassOf(file as usize, i as usize),
        ) {
        let i = choose|i: int|
            0 <= i < said.classes.len() && (#[trigger] said.classes[i]).binding == Some(local) && value == ValueModel::Owned(
                OwnerModel::ClassOf(file as usize, i as usize),
            );
        a_class_says(at, said.classes, i, local);
    } else if exists|i: int, owner: OwnerModel|
        #![trigger said.functions[i], yields(owner)]
        0 <= i < said.functions.len() && said.functions[i].local == local && value == yields(owner) && (match said.functions[i].annotation {
            Some(package) => owner == OwnerModel::Pkg(package),
            None => return_owner(state, file, said.functions[i].shape) == Some(owner),
        }) {
        let (i, owner) = choose|i: int, owner: OwnerModel|
            #![trigger said.functions[i], yields(owner)]
            0 <= i < said.functions.len() && said.functions[i].local == local && value == yields(owner) && (match said.functions[i].annotation {
                Some(package) => owner == OwnerModel::Pkg(package),
                None => return_owner(state, file, said.functions[i].shape) == Some(owner),
            });
        a_function_says(state, file, said.functions, i, owner);
    } else {
        let i = choose|i: int|
            0 <= i < said.aliases.len() && (#[trigger] said.aliases[i]).local == local && value is Owned && chain_owner(
                state,
                file,
                said.aliases[i].value,
            ) == Some(value->Owned_0);
        an_alias_says(state, file, said.aliases, i, value->Owned_0);
    }
    assert(all =~= Seq::<(BindingIdModel, ValueModel)>::empty() + a + (b + c + d));
    said_in_one_part(Seq::empty(), a, b + c + d, x);
    assert(all =~= a + b + (c + d));
    said_in_one_part(a, b, c + d, x);
    assert(all =~= (a + b) + c + d);
    said_in_one_part(a + b, c, d, x);
    assert(all =~= (a + b + c) + d + Seq::<(BindingIdModel, ValueModel)>::empty());
    said_in_one_part(a + b + c, d, Seq::empty(), x);
    let k = choose|k: int| 0 <= k < all.len() && all[k] == x;
    what_is_said_is_known(state[file].bindings, all, k);
    assert(round(state, facts)[file] == applied(state, state[file], at, said));
}

/// One round passes on what a file exports: what its names stand for, what it
/// exports from elsewhere, and all that the files export which it exports whole.
pub proof fn a_round_exports_what_is_said(state: Seq<FileSlotsModel>, facts: Seq<FileFactsModel>, file: int, name: Seq<char>, value: ValueModel)
    requires
        state.len() == facts.len(),
        0 <= file < facts.len() <= usize::MAX,
        ({
            let said = facts[file];
            ||| exists|i: int|
                0 <= i < said.exports.len() && (#[trigger] said.exports[i]).name == name && state[file].bindings.contains_pair(
                    said.exports[i].local,
                    value,
                )
            ||| exists|i: int|
                0 <= i < said.reexports.len() && (#[trigger] said.reexports[i]).name == name && source_has(
                    state,
                    said.reexports[i].source,
                    value,
                )
            ||| exists|i: int|
                0 <= i < said.star_exports.len() && (#[trigger] said.star_exports[i]) < state.len()
                    && state[said.star_exports[i] as int].exports.contains_pair(name, value)
        }),
    ensures
        knows(round(state, facts)[file].exports, name, value),
{
    let said = facts[file];
    let at = file as usize;
    let a = export_values(state, file, said.exports);
    let b = reexport_values(state, said.reexports);
    let all = a + b;
    let x = (name, value);
    let own = joined_all(state[file].exports, all);
    assert(round(state, facts)[file] == applied(state, state[file], at, said));
    if exists|i: int|
        0 <= i < said.star_exports.len() && (#[trigger] said.star_exports[i]) < state.len()
            && state[said.star_exports[i] as int].exports.contains_pair(name, value) {
        let i = choose|i: int|
            0 <= i < said.star_exports.len() && (#[trigger] said.star_exports[i]) < state.len()
                && state[said.star_exports[i] as int].exports.contains_pair(name, value);
        stars_are_known(own, state, said.star_exports, i, name, value);
    } else {
        if exists|i: int|
            0 <= i < said.exports.len() && (#[trigger] said.exports[i]).name == name && state[file].bindings.contains_pair(
                said.exports[i].local,
                value,
            ) {
            let i = choose|i: int|
                0 <= i < said.exports.len() && (#[trigger] said.exports[i]).name == name && state[file].bindings.contains_pair(
                    said.exports[i].local,
                    value,
                );
            an_export_says(state, file, said.exports, i);
        } else {
            let i = choose|i: int|
                0 <= i < said.reexports.len() && (#[trigger] said.reexports[i]).name == name && source_has(
                    state,
                    said.reexports[i].source,
                    value,
                );
            a_reexport_says(state, said.reexports, i, value);
        }
        assert(all =~= Seq::<(Seq<char>, ValueModel)>::empty() + a + b);
        said_in_one_part(Seq::empty(), a, b, x);
        assert(all =~= a + b + Seq::<(Seq<char>, ValueModel)>::empty());
        said_in_one_part(a, b, Seq::empty(), x);
        let k = choose|k: int| 0 <= k < all.len() && all[k] == x;
        what_is_said_is_known(state[file].exports, all, k);
        stars_keep(own, state, said.star_exports, name, value);
    }
}

proof fn stars_keep(
    exports: Map<Seq<char>, ValueModel>,
    state: Seq<FileSlotsModel>,
    stars: Seq<usize>,
    name: Seq<char>,
    value: ValueModel,
)
    requires
        knows(exports, name, value),
    ensures
        knows(with_stars(exports, state, stars), name, value),
    decreases stars.len(),
{
    if stars.len() > 0 {
        stars_keep(exports, state, stars.drop_last(), name, value);
        let before = with_stars(exports, state, stars.drop_last());
        if stars.last() < state.len() {
            let other = state[stars.last() as int].exports;
            if other.contains_key(name) {
                join_associates(value, before[name], other[name]);
            }
        }
    }
}

proof fn stars_are_known(
    exports: Map<Seq<char>, ValueModel>,
    state: Seq<FileSlotsModel>,
    stars: Seq<usize>,
    i: int,
    name: Seq<char>,
    value: ValueModel,
)
    requires
        0 <= i < stars.len(),
        stars[i] < state.len(),
        state[stars[i] as int].exports.contains_pair(name, value),
    ensures
        knows(with_stars(exports, state, stars), name, value),
    decreases stars.len(),
{
    let n = stars.len() - 1;
    let before = with_stars(exports, state, stars.drop_last());
    assert(stars.last() == stars[n]);
    if i == n {
        join_is_idempotent(value);
        if before.contains_key(name) {
            join_commutes(before[name], value);
            join_associates(value, value, before[name]);
        }
    } else {
        assert(stars.drop_last()[i] == stars[i]);
        stars_are_known(exports, state, stars.drop_last(), i, name, value);
        if stars[n] < state.len() {
            let other = state[stars[n] as int].exports;
            if other.contains_key(name) {
                join_associates(value, before[name], other[name]);
            }
        }
    }
}

/// What is reached off an owner: everything off a package is the package's; a
/// property of a record is what the record holds there; a name off another file
/// what it exports; a member off a class its static member; a call of a class an
/// instance; a call of a function what it yields.
pub proof fn a_step_reaches_what_is_there(state: Seq<FileSlotsModel>, file: int, chain: ChainModel, step: StepModel, owner: OwnerModel)
    requires
        chain_owner(state, file, chain) == Some(owner),
    ensures
        ({
            let reached = chain_owner(state, file, ChainModel { root: chain.root, steps: chain.steps.push(step) });
            match owner {
                OwnerModel::Pkg(package) => reached == Some(OwnerModel::Pkg(package)),
                OwnerModel::Record(fields) => match step {
                    StepModel::Prop { name } => forall|package: PkgRefModel| #[trigger]
                        fields.contains_pair(name, PropModel::Pkg(package)) <==> reached == Some(OwnerModel::Pkg(package)),
                    StepModel::Call => reached is None,
                },
                OwnerModel::NamespaceOf(other) => match step {
                    StepModel::Prop { name } => other < state.len() ==> forall|found: OwnerModel| #[trigger]
                        state[other as int].exports.contains_pair(name, ValueModel::Owned(found)) <==> reached == Some(found),
                    StepModel::Call => reached is None,
                },
                OwnerModel::ClassOf(other, class) => match step {
                    StepModel::Prop { name } => other < state.len() ==> forall|found: OwnerModel| #[trigger]
                        state[other as int].statics.contains_pair(StaticNameModel { class, name }, ValueModel::Owned(found))
                            <==> reached == Some(found),
                    StepModel::Call => other < state.len() ==> forall|found: OwnerModel| #[trigger]
                        state[other as int].instances.contains_pair(class, ValueModel::Owned(found)) <==> reached == Some(found),
                },
                OwnerModel::FnReturning(yielded) => match step {
                    StepModel::Call => reached == Some(*yielded),
                    StepModel::Prop { .. } => reached is None,
                },
            }
        }),
{
    let steps = chain.steps.push(step);
    assert(steps.drop_last() =~= chain.steps);
    assert(steps.last() == step);
}

// ---------------------------------------------------------------------------
// Names and records
// ---------------------------------------------------------------------------

/// A declaration `name = …` whose value is written as a chain off a name, and is
/// not a module that is imported.
pub open spec fn is_plain_alias(node: Node, targets: Map<Seq<char>, TargetModel>, symbol: Seq<char>, text: Seq<char>) -> bool {
    node matches Node::Declarator { pattern: Pattern::Name(name), init: Some(init) } && name.symbol@ == symbol && written(*init, false)
        == Some(text) && imported_module(*init, targets) is None && declared_class(node) is None
}

pub open spec fn has_alias_for(facts: FileFactsModel, symbol: Seq<char>, text: Seq<char>) -> bool {
    exists|k: int|
        0 <= k < facts.aliases.len() && (#[trigger] facts.aliases[k]).local.symbol == symbol && chain_text(facts.aliases[k].value)
            == text
}

proof fn an_alias_is_kept(before: FileFactsModel, after: FileFactsModel, symbol: Seq<char>, text: Seq<char>)
    requires
        keeps(before, after),
        has_alias_for(before, symbol, text),
    ensures
        has_alias_for(after, symbol, text),
{
    let k = choose|k: int|
        0 <= k < before.aliases.len() && (#[trigger] before.aliases[k]).local.symbol == symbol && chain_text(
            before.aliases[k].value,
        ) == text;
    assert(after.aliases[k] == before.aliases[k]);
}

proof fn an_alias_that_stands_in_is_gathered(
    facts: FileFactsModel,
    node: Node,
    context: Option<ClassContextModel>,
    targets: Map<Seq<char>, TargetModel>,
    inner: Node,
    symbol: Seq<char>,
    text: Seq<char>,
)
    requires
        stands_in(node, inner),
        is_plain_alias(inner, targets, symbol, text),
    ensures
        has_alias_for(gathered(facts, node, context, targets), symbol, text),
    decreases node, 1int,
{
    if inner == node {
        let init = *(node->Declarator_init->0);
        let class = class_of(context);
        written_in_a_class_too(init, text);
        a_chain_reads_as_it_is_written(init, class);
        let with = with_node(facts, node, context, targets);
        assert(with.aliases[facts.aliases.len() as int].local.symbol == symbol);
        assert(has_alias_for(with, symbol, text));
        gathering_first_keeps(with, node, children(node).len(), context, targets);
        an_alias_is_kept(with, gathered(facts, node, context, targets), symbol, text);
    } else {
        let i = choose|i: int|
            #![trigger children(node)[i]]
            0 <= i < children(node).len() && decreases_to!(node => children(node)[i]) && stands_in(children(node)[i], inner);
        if class_in_node(node) is Some {
            let class = class_in_node(node)->0;
            let index = facts.classes.len() as usize;
            let begun = FileFactsModel { classes: facts.classes.push(no_class(own_name(node))), ..facts };
            let within = ClassContextModel { index, params: constructor_params(class.members@) };
            an_alias_in_a_child_is_gathered(
                with_members(begun, index, class.members@),
                node,
                children(node).len(),
                Some(within),
                targets,
                i,
                inner,
                symbol,
                text,
            );
        } else {
            an_alias_in_a_child_is_gathered(
                with_node(facts, node, context, targets),
                node,
                children(node).len(),
                context,
                targets,
                i,
                inner,
                symbol,
                text,
            );
        }
    }
}

proof fn an_alias_in_a_child_is_gathered(
    facts: FileFactsModel,
    node: Node,
    n: nat,
    context: Option<ClassContextModel>,
    targets: Map<Seq<char>, TargetModel>,
    i: int,
    inner: Node,
    symbol: Seq<char>,
    text: Seq<char>,
)
    requires
        0 <= i < n <= children(node).len(),
        stands_in(children(node)[i], inner),
        is_plain_alias(inner, targets, symbol, text),
    ensures
        has_alias_for(gathered_first(facts, node, n, context, targets), symbol, text),
    decreases node, 0int, n,
{
    children_are_smaller(node);
    let before = gathered_first(facts, node, (n - 1) as nat, context, targets);
    if i == n - 1 {
        an_alias_that_stands_in_is_gathered(before, children(node)[i], context, targets, inner, symbol, text);
    } else {
        an_alias_in_a_child_is_gathered(facts, node, (n - 1) as nat, context, targets, i, inner, symbol, text);
        gathering_keeps(before, children(node)[n - 1], context, targets);
        an_alias_is_kept(before, gathered(before, children(node)[n - 1], context, targets), symbol, text);
    }
}

proof fn an_alias_in_an_item_is_gathered(
    facts: FileFactsModel,
    items: Seq<ModuleItem>,
    targets: Map<Seq<char>, TargetModel>,
    i: int,
    inner: Node,
    symbol: Seq<char>,
    text: Seq<char>,
)
    requires
        0 <= i < items.len(),
        body_of(items[i]) is Some,
        stands_in(body_of(items[i])->0, inner),
        is_plain_alias(inner, targets, symbol, text),
    ensures
        has_alias_for(items_gathered(facts, items, targets), symbol, text),
    decreases items.len(),
{
    let n = items.len() - 1;
    let before = items_gathered(facts, items.drop_last(), targets);
    assert(items.last() == items[n]);
    if i == n {
        an_alias_that_stands_in_is_gathered(before, body_of(items[n])->0, None, targets, inner, symbol, text);
    } else {
        assert(items.drop_last()[i] == items[i]);
        an_alias_in_an_item_is_gathered(facts, items.drop_last(), targets, i, inner, symbol, text);
        match body_of(items[n]) {
            Some(node) => {
                gathering_keeps(before, node, None, targets);
                an_alias_is_kept(before, gathered(before, node, None, targets), symbol, text);
            },
            None => {},
        }
    }
}

/// Every declaration of a name in a module, at any depth, whose value is written
/// as a chain off a name makes the name stand for that chain.
pub proof fn every_name_stands_for_its_chain(
    module: Module,
    targets: Map<Seq<char>, TargetModel>,
    i: int,
    inner: Node,
    symbol: Seq<char>,
    text: Seq<char>,
)
    requires
        0 <= i < module.items@.len(),
        body_of(module.items@[i]) is Some,
        stands_in(body_of(module.items@[i])->0, inner),
        is_plain_alias(inner, targets, symbol, text),
    ensures
        has_alias_for(facts_of(module, targets), symbol, text),
{
    an_alias_in_an_item_is_gathered(
        with_items(no_facts(), module.items@, targets),
        module.items@,
        targets,
        i,
        inner,
        symbol,
        text,
    );
}

/// Some entry of this name comes from a package.
pub open spec fn some_comes_from(
    state: Seq<FileSlotsModel>,
    file: int,
    entries: Seq<NamedChainModel>,
    name: Seq<char>,
    package: PkgRefModel,
) -> bool {
    exists|i: int|
        0 <= i < entries.len() && (#[trigger] entries[i]).name == name && chain_owner(state, file, entries[i].chain) == Some(
            OwnerModel::Pkg(package),
        )
}

/// A record holds a package under a name exactly where entries of the name come
/// from that package and none from another.
pub proof fn a_record_holds_where_its_entries_agree(
    state: Seq<FileSlotsModel>,
    file: int,
    entries: Seq<NamedChainModel>,
    name: Seq<char>,
)
    ensures
        forall|package: PkgRefModel| #[trigger]
            record_of(state, file, entries).contains_pair(name, PropModel::Pkg(package)) <==> some_comes_from(
                state,
                file,
                entries,
                name,
                package,
            ) && forall|other: PkgRefModel| #[trigger] some_comes_from(state, file, entries, name, other) ==> other == package,
        record_of(state, file, entries).contains_key(name) <==> exists|package: PkgRefModel| #[trigger]
            some_comes_from(state, file, entries, name, package),
    decreases entries.len(),
{
    let all = record_of(state, file, entries);
    if entries.len() == 0 {
        assert forall|package: PkgRefModel| !#[trigger] some_comes_from(state, file, entries, name, package) by {}
    } else {
        let n = entries.len() - 1;
        let init = entries.drop_last();
        let before = record_of(state, file, init);
        a_record_holds_where_its_entries_agree(state, file, init, name);
        assert(entries.last() == entries[n]);
        let here = chain_owner(state, file, entries[n].chain);
        assert forall|package: PkgRefModel| #[trigger] some_comes_from(state, file, entries, name, package) <==> some_comes_from(
            state,
            file,
            init,
            name,
            package,
        ) || (entries[n].name == name && here == Some(OwnerModel::Pkg(package))) by {
            if some_comes_from(state, file, init, name, package) {
                let i = choose|i: int|
                    0 <= i < init.len() && (#[trigger] init[i]).name == name && chain_owner(state, file, init[i].chain) == Some(
                        OwnerModel::Pkg(package),
                    );
                assert(entries[i] == init[i]);
            }
            if some_comes_from(state, file, entries, name, package) {
                let i = choose|i: int|
                    0 <= i < entries.len() && (#[trigger] entries[i]).name == name && chain_owner(state, file, entries[i].chain)
                        == Some(OwnerModel::Pkg(package));
                if i < n {
                    assert(init[i] == entries[i]);
                }
            }
        }
        if before.contains_key(name) {
            let package = choose|package: PkgRefModel| #[trigger] some_comes_from(state, file, init, name, package);
            assert(some_comes_from(state, file, entries, name, package));
        }
        if here is Some && here->0 is Pkg && entries[n].name == name {
            let last = here->0->Pkg_0;
            assert(some_comes_from(state, file, entries, name, last));
            assert(all == with_prop(before, name, last));
            assert forall|package: PkgRefModel| #[trigger] all.contains_pair(name, PropModel::Pkg(package)) <==> some_comes_from(
                state,
                file,
                entries,
                name,
                package,
            ) && forall|other: PkgRefModel| #[trigger] some_comes_from(state, file, entries, name, other) ==> other
                == package by {
                assert(before.contains_pair(name, PropModel::Pkg(last)) == (some_comes_from(state, file, init, name, last)
                    && forall|other: PkgRefModel| #[trigger]
                    some_comes_from(state, file, init, name, other) ==> other == last));
                if all.contains_pair(name, PropModel::Pkg(package)) {
                    assert(package == last);
                    if before.contains_key(name) {
                        assert(before.contains_pair(name, PropModel::Pkg(last)));
                    }
                    assert forall|other: PkgRefModel| #[trigger] some_comes_from(state, file, entries, name, other) implies other
                        == package by {
                        if other != package {
                            assert(some_comes_from(state, file, init, name, other));
                        }
                    }
                }
                if some_comes_from(state, file, entries, name, package) && forall|other: PkgRefModel| #[trigger]
                    some_comes_from(state, file, entries, name, other) ==> other == package {
                    assert(some_comes_from(state, file, entries, name, last));
                    assert(package == last);
                    if before.contains_key(name) {
                        let p = choose|p: PkgRefModel| #[trigger] some_comes_from(state, file, init, name, p);
                        assert(some_comes_from(state, file, entries, name, p));
                        assert forall|other: PkgRefModel| #[trigger] some_comes_from(state, file, init, name, other) implies other
                            == last by {
                            assert(some_comes_from(state, file, entries, name, other));
                        }
                        assert(before.contains_pair(name, PropModel::Pkg(last)));
                    }
                }
            }
        } else {
            assert(all.contains_key(name) == before.contains_key(name));
            assert forall|package: PkgRefModel| #[trigger] some_comes_from(state, file, entries, name, package)
                == some_comes_from(state, file, init, name, package) by {}
            assert forall|package: PkgRefModel| #[trigger] all.contains_pair(name, PropModel::Pkg(package)) <==> some_comes_from(
                state,
                file,
                entries,
                name,
                package,
            ) && forall|other: PkgRefModel| #[trigger] some_comes_from(state, file, entries, name, other) ==> other
                == package by {
                assert(all.contains_pair(name, PropModel::Pkg(package)) == before.contains_pair(name, PropModel::Pkg(package)));
                if some_comes_from(state, file, entries, name, package) && forall|other: PkgRefModel| #[trigger]
                    some_comes_from(state, file, entries, name, other) ==> other == package {
                    assert forall|other: PkgRefModel| #[trigger] some_comes_from(state, file, init, name, other) implies other
                        == package by {
                        assert(some_comes_from(state, file, entries, name, other));
                    }
                }
            }
        }
    }
}

} // verus!
